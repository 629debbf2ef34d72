//! The pane in cells and in pixels.

use crate::app::{spec_render_dimensions, AppState, ZoomMode};
use crate::laws::scaling::{is_page_side, law_fit_fills_the_pane};
use crate::terminal::size::TerminalSize;
use vstd::prelude::*;

verus! {

/// The pixels of one direction, as far as a pane of so many cells has them.
///
/// A report is taken as it is, but in zellij a cell counts `most` pixels at most.
/// Where there is none, a cell counts `usual` pixels, as far as pixels are
/// counted.
pub open spec fn is_pixel_count(
    pixels: u16,
    reported: u16,
    cells: u16,
    usual: int,
    most: int,
    zellij: bool,
) -> bool {
    if reported > 0 {
        &&& pixels <= reported
        &&& zellij ==> pixels <= most * cells
        &&& pixels == reported || (zellij && pixels == most * cells)
    } else {
        &&& pixels <= usual * cells
        &&& pixels == usual * cells || pixels == u16::MAX
    }
}

/// A window report keeps its cells. Where no pixels are reported a cell has 8 by
/// 16, and in zellij 12 by 24 at most.
pub proof fn law_window_reports(columns: u16, rows: u16, width: u16, height: u16, zellij: bool)
    ensures
        ({
            let size = TerminalSize::spec_from_window(columns, rows, width, height, zellij);
            &&& size.columns == columns
            &&& size.rows == rows
            &&& size.zellij == zellij
            &&& is_pixel_count(size.width_px, width, columns, 8, 12, zellij)
            &&& is_pixel_count(size.height_px, height, rows, 16, 24, zellij)
        }),
{
}

/// Cells of this size, and none larger, find room in the pixels; one pixel is the
/// least.
pub open spec fn is_cell(cell: int, pixels: u16, cells: u16) -> bool {
    let cells = if cells == 0 {
        1
    } else {
        cells as int
    };
    &&& cell >= 1
    &&& pixels < (cell + 1) * cells
    &&& cell > 1 ==> cell * cells <= pixels
}

proof fn lemma_cell(pixels: u16, cells: u16)
    ensures
        ({
            let n = if cells == 0 {
                1
            } else {
                cells as int
            };
            let q = pixels as int / n;
            is_cell(
                if q > 1 {
                    q
                } else {
                    1
                },
                pixels,
                cells,
            )
        }),
{
    let n = if cells == 0 {
        1
    } else {
        cells as int
    };
    let p = pixels as int;
    let (q, r) = (p / n, p % n);
    vstd::arithmetic::div_mod::lemma_fundamental_div_mod(p, n);
    assert(q * n <= p && p < (q + 1) * n) by (nonlinear_arith)
        requires
            p == n * q + r,
            0 <= r < n,
    ;
    if q <= 1 {
        assert((q + 1) * n <= 2 * n) by (nonlinear_arith)
            requires
                q <= 1,
                n > 0,
        ;
    }
}

/// The pixels are shared out among the cells, and the page has all of them but
/// the line of cells at the bottom.
pub proof fn law_page_leaves_one_line(size: TerminalSize)
    ensures
        is_cell(size.spec_cell_pixels().0, size.width_px, size.columns),
        is_cell(size.spec_cell_pixels().1, size.height_px, size.rows),
        size.spec_viewport_pixels().0 == size.width_px,
        size.spec_viewport_pixels().1 >= 0,
        size.spec_viewport_pixels().1 > 0 ==> size.spec_viewport_pixels().1
            + size.spec_cell_pixels().1 == size.height_px,
        size.spec_viewport_pixels().1 == 0 ==> size.height_px <= size.spec_cell_pixels().1,
{
    lemma_cell(size.width_px, size.columns);
    lemma_cell(size.height_px, size.rows);
}

/// What an app takes for its viewport is that of its terminal.
pub proof fn law_viewport_is_the_terminals(app: AppState)
    ensures
        app.viewport() == app.terminal.spec_viewport_pixels(),
{
}

/// A page that is fitted lies within the pane above the status line and fills it
/// in one direction, in zellij and elsewhere, whatever else the app holds.
pub proof fn law_fit_shows_the_whole_page(app: AppState)
    requires
        app.zoom == ZoomMode::Fit,
        is_page_side(app.page_size_points.0),
        is_page_side(app.page_size_points.1),
        app.terminal.width_px >= 144,
        app.terminal.height_px >= 144 + app.terminal.spec_cell_pixels().1,
    ensures
        1 <= app.dimensions().0 <= app.terminal.width_px,
        1 <= app.dimensions().1 <= app.terminal.height_px - app.terminal.spec_cell_pixels().1,
        app.dimensions().0 == app.terminal.width_px || app.dimensions().1
            == app.terminal.height_px - app.terminal.spec_cell_pixels().1,
{
    let height = (app.terminal.height_px - app.terminal.spec_cell_pixels().1) as u16;
    law_fit_fills_the_pane(app.page_size_points, (app.terminal.width_px, height));
}

/// The page is rasterized for the pane above the status line as it is: not for a
/// multiple of it, and only a fixed zoom in zellij is held back.
pub proof fn law_raster_is_for_the_pane(app: AppState)
    requires
        app.zoom == ZoomMode::Fit || !app.terminal.zellij,
    ensures
        app.dimensions() == spec_render_dimensions(
            app.page_size_points,
            (app.terminal.width_px as int, app.terminal.spec_viewport_pixels().1),
            app.zoom,
        ),
{
}

/// The raster follows from the size of the page, the zoom and the terminal.
/// Nothing else in the app changes it.
pub proof fn law_dimensions_follow_from_page_zoom_and_terminal(app: AppState, other: AppState)
    requires
        app.page_size_points == other.page_size_points,
        app.zoom == other.zoom,
        app.terminal == other.terminal,
    ensures
        app.dimensions() == other.dimensions(),
{
}

/// A fitted raster is the same in zellij and elsewhere, and the percentage that
/// fitting comes to is the same at any zoom.
pub proof fn law_fit_is_the_same_everywhere(app: AppState, zoom: ZoomMode, zellij: bool)
    ensures
        ({
            let fitted = AppState { zoom: ZoomMode::Fit, ..app };
            let moved = AppState {
                zoom: ZoomMode::Fit,
                terminal: TerminalSize { zellij, ..app.terminal },
                ..app
            };
            let zoomed = AppState { zoom, ..app };
            &&& moved.dimensions() == fitted.dimensions()
            &&& zoomed.dimensions().2 == fitted.dimensions().2
        }),
{
}

/// At a fixed zoom the raster in zellij is the one elsewhere, capped.
pub proof fn law_zellij_caps_the_same_raster(app: AppState)
    requires
        app.terminal.zellij,
        app.zoom is Fixed,
    ensures
        ({
            let free = AppState {
                terminal: TerminalSize { zellij: false, ..app.terminal },
                ..app
            };
            let (width, height, _) = free.dimensions();
            (app.dimensions().0, app.dimensions().1) == app.terminal.spec_cap_render_dimensions(
                width as u32,
                height as u32,
            )
        }),
{
}

/// What a page is asked for under: the generation, the page, and the dimensions
/// of its raster.
pub proof fn law_render_keys(app: AppState, page: usize)
    ensures
        app.render_key(page).generation == app.generation,
        app.render_key(page).page == page,
        app.render_key(page).width == app.dimensions().0 as u32,
        app.render_key(page).height == app.dimensions().1 as u32,
{
}

} // verus!
