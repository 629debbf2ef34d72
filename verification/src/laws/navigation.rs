//! Pages, zoom and offsets.

use crate::app::{
    action_of, bound_command, step_above, step_below, Action, AppState, Command, RenderKey,
    ZoomMode, ZOOM_STEPS,
};
use crate::event::{KeyEvent, KeyEventKind};
use crate::float::Fraction;
use crate::laws::scaling::{magnitude, one};
use crate::layout::{Number, Single};
use crate::pdf::renderer::Bitmap;
use crate::terminal::size::TerminalSize;
use vstd::prelude::*;

verus! {

/// No key leads out of the document.
pub proof fn law_keys_stay_in_document(app: AppState, key: KeyEvent)
    requires
        app.current_page < app.page_count,
    ensures
        app.run(bound_command(key)).current_page < app.run(bound_command(key)).page_count,
        app.run(bound_command(key)).page_count == app.page_count,
{
}

/// Before the first page and behind the last one there is no other.
pub proof fn law_ends_hold(app: AppState)
    ensures
        app.current_page == 0 ==> app.previous_page() == app,
        app.current_page + 1 >= app.page_count ==> app.next_page() == app,
{
}

/// Turning a page and turning back leads to the same page.
pub proof fn law_turning_back(app: AppState)
    ensures
        app.has_next_page() ==> app.next_page().previous_page().current_page == app.current_page,
        app.has_previous_page() && app.current_page < app.page_count
            ==> app.previous_page().next_page().current_page == app.current_page,
{
}

/// What is learnt of a document changes the page only where the document is too
/// short for it; it is then the last page.
pub proof fn law_metadata_clamps_page(
    app: AppState,
    page_count: usize,
    page_size_points: (Single, Single),
)
    ensures
        app.current_page < page_count ==> app.set_document(
            page_count,
            page_size_points,
        ).current_page == app.current_page,
        0 < page_count <= app.current_page ==> app.set_document(
            page_count,
            page_size_points,
        ).current_page == page_count - 1,
        page_count == 0 ==> app.set_document(page_count, page_size_points).current_page == 0,
        app.set_document(page_count, page_size_points).page_count == page_count,
{
}

/// Learning the same of a document twice is learning it once. So the page that
/// was asked for with the size it turned out to have is the page that is wanted.
pub proof fn law_metadata_is_learnt_once(
    app: AppState,
    page_count: usize,
    page_size_points: (Single, Single),
)
    ensures
        ({
            let sized = app.set_document(page_count, page_size_points);
            sized.set_document(page_count, page_size_points) == sized
        }),
{
    let sized = app.set_document(page_count, page_size_points);
    let again = sized.set_document(page_count, page_size_points);
    assert(again.dimensions() == sized.dimensions());
    assert(again =~= sized);
}

/// A reload keeps the page, the zoom and the offsets.
pub proof fn law_reload_keeps_view(app: AppState)
    ensures
        app.reload() == (AppState {
            generation: app.reload().generation,
            cached: Map::empty(),
            status: Some("reloading…"@),
            dirty: true,
            ..app
        }),
        app.reload().generation != app.generation,
{
}

/// Zooming in goes to the least step above, and stays at the last one.
pub proof fn law_zoom_in_takes_next_step(current: u16)
    ensures
        ZOOM_STEPS@.contains(step_above(current)),
        current < 200 ==> step_above(current) > current,
        current >= 200 ==> step_above(current) == 200,
        forall|i: int|
            0 <= i < ZOOM_STEPS@.len() && #[trigger] ZOOM_STEPS@[i] > current ==> step_above(current)
                <= ZOOM_STEPS@[i],
{
    assert(ZOOM_STEPS@[0] == 25 && ZOOM_STEPS@[1] == 50 && ZOOM_STEPS@[2] == 75 && ZOOM_STEPS@[3]
        == 100 && ZOOM_STEPS@[4] == 125 && ZOOM_STEPS@[5] == 150 && ZOOM_STEPS@[6] == 200);
}

/// Zooming out goes to the greatest step below, and stays at the first one.
pub proof fn law_zoom_out_takes_previous_step(current: u16)
    ensures
        ZOOM_STEPS@.contains(step_below(current)),
        current > 25 ==> step_below(current) < current,
        current <= 25 ==> step_below(current) == 25,
        forall|i: int|
            0 <= i < ZOOM_STEPS@.len() && #[trigger] ZOOM_STEPS@[i] < current ==> step_below(current)
                >= ZOOM_STEPS@[i],
{
    assert(ZOOM_STEPS@[0] == 25 && ZOOM_STEPS@[1] == 50 && ZOOM_STEPS@[2] == 75 && ZOOM_STEPS@[3]
        == 100 && ZOOM_STEPS@[4] == 125 && ZOOM_STEPS@[5] == 150 && ZOOM_STEPS@[6] == 200);
}

/// From any step, zooming in and out again leads back, and the other way round,
/// except at the end where there is no further step.
pub proof fn law_zoom_steps_are_reversible(step: u16)
    requires
        ZOOM_STEPS@.contains(step),
    ensures
        step != 200 ==> step_below(step_above(step)) == step,
        step != 25 ==> step_above(step_below(step)) == step,
{
    assert(ZOOM_STEPS@[0] == 25 && ZOOM_STEPS@[1] == 50 && ZOOM_STEPS@[2] == 75 && ZOOM_STEPS@[3]
        == 100 && ZOOM_STEPS@[4] == 125 && ZOOM_STEPS@[5] == 150 && ZOOM_STEPS@[6] == 200);
}

/// Fitting undoes any zoom and any scrolling.
pub proof fn law_fit_resets(app: AppState)
    ensures
        app.run(Command::Fit).zoom == ZoomMode::Fit,
        app.run(Command::Fit).offset_x == 0,
        app.run(Command::Fit).offset_y == 0,
{
}

/// The release of a key does nothing.
pub proof fn law_release_is_ignored(app: AppState, key: KeyEvent)
    requires
        key.kind == KeyEventKind::Release,
    ensures
        app.run(bound_command(key)) == app,
        action_of(bound_command(key)) == Action::Nothing,
{
}

/// The offsets keep the page in view.
pub open spec fn offsets_within(app: AppState) -> bool {
    app.offset_x <= app.max_offset_x() && app.offset_y <= app.max_offset_y()
}

/// Learning of the document, a change of size, and the bitmap of the current
/// page each bring the offsets back to the page.
pub proof fn law_offsets_are_brought_back(
    app: AppState,
    page_count: usize,
    page_size_points: (Single, Single),
    terminal: TerminalSize,
    key: RenderKey,
    bitmap: Bitmap,
)
    ensures
        offsets_within(app.set_document(page_count, page_size_points)),
        terminal != app.terminal ==> offsets_within(app.resize(terminal)),
        key.generation == app.generation && key.page == app.current_page ==> offsets_within(
            app.insert_bitmap(key, bitmap),
        ),
{
    let sized = AppState { page_count, page_size_points, dirty: true, ..app };
    assert(app.set_document(page_count, page_size_points).dimensions() == sized.dimensions());
    let resized = AppState { terminal, dirty: true, ..app };
    assert(resized.clamp_offsets().dimensions() == resized.dimensions());
    assert(app.insert_bitmap(key, bitmap).dimensions() == app.dimensions());
}

/// Scrolling keeps the offsets on the page, and to the right it does so from
/// anywhere.
pub proof fn law_scrolling_stays_on_page(app: AppState)
    ensures
        offsets_within(app) ==> offsets_within(app.run(Command::ScrollLeft)),
        offsets_within(app) ==> offsets_within(app.run(Command::ScrollRight)),
        app.run(Command::ScrollRight).offset_x <= app.max_offset_x(),
        app.run(Command::ScrollLeft).offset_x <= app.offset_x,
{
    assert(app.run(Command::ScrollLeft).dimensions() == app.dimensions());
    assert(app.run(Command::ScrollRight).dimensions() == app.dimensions());
}

/// An offset is kept as far as it leaves no gap behind the raster, and is zero
/// where the raster is no larger than the view.
pub open spec fn is_brought_back(before: u32, after: u32, raster: int, view: int) -> bool {
    if before + view <= raster {
        after == before
    } else if view <= raster {
        after + view == raster
    } else {
        after == 0
    }
}

/// Learning of a document replaces the number of pages and the size of the page,
/// and brings the page and the offsets back. All else stays.
pub proof fn law_document_is_taken_in(
    app: AppState,
    page_count: usize,
    page_size_points: (Single, Single),
)
    ensures
        ({
            let next = app.set_document(page_count, page_size_points);
            &&& next == (AppState {
                page_count,
                page_size_points,
                current_page: next.current_page,
                offset_x: next.offset_x,
                offset_y: next.offset_y,
                dirty: true,
                ..app
            })
            &&& is_brought_back(
                app.offset_x,
                next.offset_x,
                next.dimensions().0,
                app.terminal.spec_viewport_pixels().0,
            )
            &&& is_brought_back(
                app.offset_y,
                next.offset_y,
                next.dimensions().1,
                app.terminal.spec_viewport_pixels().1,
            )
        }),
{
    let next = app.set_document(page_count, page_size_points);
    let sized = AppState {
        page_count,
        page_size_points,
        current_page: next.current_page,
        dirty: true,
        ..app
    };
    assert(next.dimensions() == sized.dimensions());
    assert(next =~= AppState { offset_x: next.offset_x, offset_y: next.offset_y, ..sized });
}

/// Another size replaces the one before, and brings the offsets back. The same
/// size changes nothing.
pub proof fn law_size_is_taken_in(app: AppState, terminal: TerminalSize)
    ensures
        app.resize(app.terminal) == app,
        terminal != app.terminal ==> {
            let next = app.resize(terminal);
            &&& next == (AppState {
                terminal,
                offset_x: next.offset_x,
                offset_y: next.offset_y,
                dirty: true,
                ..app
            })
            &&& is_brought_back(
                app.offset_x,
                next.offset_x,
                next.dimensions().0,
                terminal.spec_viewport_pixels().0,
            )
            &&& is_brought_back(
                app.offset_y,
                next.offset_y,
                next.dimensions().1,
                terminal.spec_viewport_pixels().1,
            )
        },
{
    let sized = AppState { terminal, dirty: true, ..app };
    assert(sized.clamp_offsets().dimensions() == sized.dimensions());
}

/// Reloads are counted one by one, and behind the largest number comes zero.
pub proof fn law_reloads_are_counted(app: AppState)
    ensures
        app.generation < u64::MAX ==> app.reload().generation == app.generation + 1,
        app.generation == u64::MAX ==> app.reload().generation == 0,
{
}

/// At the start there is no document, the first page of a letter document is
/// awaited, fitted, and nothing is at hand.
pub proof fn law_start_of_an_app(terminal: TerminalSize)
    ensures
        ({
            let app = AppState::initial(terminal);
            &&& app.current_page == 0
            &&& app.page_count == 0
            &&& app.zoom == ZoomMode::Fit
            &&& app.offset_x == 0
            &&& app.offset_y == 0
            &&& app.terminal == terminal
            &&& app.generation == 0
            &&& app.dirty
            &&& app.status is None
            &&& forall|key: RenderKey| !app.cached.contains_key(key)
            &&& app.page_size_points.0@ matches Number::Finite(width) && magnitude(width) == 612
                * one()
            &&& app.page_size_points.1@ matches Number::Finite(height) && magnitude(height) == 792
                * one()
        }),
{
    vstd::arithmetic::power2::lemma_pow2_adds(14, 4082);
    vstd::arithmetic::power2::lemma2_to64();
    let app = AppState::initial(terminal);
    let (w, h) = (app.page_size_points.0.bits as int, app.page_size_points.1.bits as int);
    assert((w / 0x80_0000) % 0x100 == 136 && w % 0x80_0000 == 0x19_0000);
    assert((h / 0x80_0000) % 0x100 == 136 && h % 0x80_0000 == 0x46_0000);
    let (width, height) = (app.page_size_points.0@->Finite_0, app.page_size_points.1@->Finite_0);
    assert(width == Fraction { mantissa: 612int * 0x4000, exponent: -14 });
    assert(height == Fraction { mantissa: 792int * 0x4000, exponent: -14 });
    let p = vstd::arithmetic::power2::pow2(4082);
    assert(one() == 0x4000 * p);
    assert((612 * 0x4000) * p == 612 * (0x4000 * p)) by (nonlinear_arith);
    assert((792 * 0x4000) * p == 792 * (0x4000 * p)) by (nonlinear_arith);
}

/// Turning a page tells whether there was a page to turn to: whether another page
/// is shown afterwards.
pub proof fn law_turning_tells_whether_it_did(app: AppState)
    ensures
        app.has_next_page() <==> app.current_page + 1 < app.page_count,
        app.has_next_page() <==> app.next_page().current_page != app.current_page,
        app.has_previous_page() <==> app.current_page > 0,
        app.has_previous_page() <==> app.previous_page().current_page != app.current_page,
{
}

} // verus!
