//! The size of the terminal in cells and in pixels.

use crate::float::{lesser, nearest, product, quotient, round, Binary, Fraction, DOUBLE};
use crate::layout::clamp;
use vstd::prelude::*;

verus! {

/// The pane that a page is shown in.
#[derive(Clone, Copy, Debug, PartialEq, Eq, Structural)]
pub struct TerminalSize {
    pub columns: u16,
    pub rows: u16,
    pub width_px: u16,
    pub height_px: u16,
    /// The pane belongs to zellij, which reports pixels of the outer terminal.
    pub zellij: bool,
}

pub open spec fn at_least_one(value: int) -> int {
    if value > 1 {
        value
    } else {
        1
    }
}

/// `value - amount`, or zero where that would be negative.
pub open spec fn less(value: int, amount: int) -> int {
    if value > amount {
        value - amount
    } else {
        0
    }
}

pub open spec fn smaller(a: int, b: int) -> int {
    if a < b {
        a
    } else {
        b
    }
}

/// A pixel count as reported, or `cell` pixels for each cell where none was.
pub open spec fn reported_pixels(pixels: u16, cells: u16, cell: int) -> int {
    if pixels == 0 {
        smaller(cells * cell, u16::MAX as int)
    } else {
        pixels as int
    }
}

/// The factor, at most one, that brings `width` by `height` pixels within a
/// maximum. Double precision.
pub open spec fn cap_scale(width: nat, height: nat, maximum: (nat, nat)) -> Fraction {
    let limit = DOUBLE as nat;
    let across = quotient(
        round(maximum.0, 1, limit),
        round(at_least_one(width as int) as nat, 1, limit),
        limit,
    );
    let down = quotient(
        round(maximum.1, 1, limit),
        round(at_least_one(height as int) as nat, 1, limit),
        limit,
    );
    lesser(lesser(across, down), round(1, 1, limit))
}

/// A pixel count times a factor: at least one.
pub open spec fn capped_extent(extent: nat, scale: Fraction) -> int {
    if extent == 0 {
        1
    } else {
        clamp(
            nearest(product(round(extent, 1, DOUBLE as nat), scale, DOUBLE as nat)),
            1,
            u32::MAX as int,
        )
    }
}

fn compute_capped_extent(extent: u32, scale: Binary) -> (r: u32)
    requires
        scale.valid(DOUBLE),
        -0x1000 < scale.exponent < 0x1000,
    ensures
        r == capped_extent(extent as nat, scale@),
{
    if extent == 0 {
        1
    } else {
        let pixels = Binary::from_integer(extent, DOUBLE).multiply(scale, DOUBLE).to_integer();
        if pixels < 1 {
            1
        } else {
            pixels
        }
    }
}

/// The pixels that a row of cells takes, as far as `u16` counts.
fn cell_span(cells: u16, cell: u16) -> (r: u16)
    requires
        cell <= 24,
    ensures
        r == smaller(cells * cell, u16::MAX as int),
{
    assert(cells * cell <= 0xffff * 24) by (nonlinear_arith)
        requires
            cells <= 0xffff,
            cell <= 24,
    ;
    let pixels: u32 = cells as u32 * cell as u32;
    if pixels < 0xffff {
        pixels as u16
    } else {
        u16::MAX
    }
}

impl TerminalSize {
    pub fn new(columns: u16, rows: u16, width_px: u16, height_px: u16) -> (r: Self)
        ensures
            r == (TerminalSize { columns, rows, width_px, height_px, zellij: false }),
    {
        TerminalSize { columns, rows, width_px, height_px, zellij: false }
    }

    pub fn new_zellij(columns: u16, rows: u16, width_px: u16, height_px: u16) -> (r: Self)
        ensures
            r == (TerminalSize { columns, rows, width_px, height_px, zellij: true }),
    {
        TerminalSize { columns, rows, width_px, height_px, zellij: true }
    }

    pub open spec fn spec_from_window(
        columns: u16,
        rows: u16,
        width: u16,
        height: u16,
        zellij: bool,
    ) -> Self {
        let across = reported_pixels(width, columns, 8);
        let down = reported_pixels(height, rows, 16);
        TerminalSize {
            columns,
            rows,
            width_px: (if zellij {
                smaller(across, columns * 12)
            } else {
                across
            }) as u16,
            height_px: (if zellij {
                smaller(down, rows * 24)
            } else {
                down
            }) as u16,
            zellij,
        }
    }

    /// The size that a window report stands for.
    ///
    /// Where no pixels are reported, a cell counts as 8 by 16. In zellij the
    /// pixels are those of the outer terminal while the cells are those of the
    /// pane, so a cell counts as 12 by 24 at most.
    pub fn from_window(columns: u16, rows: u16, width: u16, height: u16, zellij: bool) -> (r: Self)
        ensures
            r.columns == columns,
            r.rows == rows,
            r.zellij == zellij,
            !zellij ==> r.width_px == reported_pixels(width, columns, 8),
            !zellij ==> r.height_px == reported_pixels(height, rows, 16),
            zellij ==> r.width_px == smaller(reported_pixels(width, columns, 8), columns * 12),
            zellij ==> r.height_px == smaller(reported_pixels(height, rows, 16), rows * 24),
            r == Self::spec_from_window(columns, rows, width, height, zellij),
    {
        let width_px: u16 = if width == 0 {
            cell_span(columns, 8)
        } else {
            width
        };
        let height_px: u16 = if height == 0 {
            cell_span(rows, 16)
        } else {
            height
        };
        if zellij {
            let widest: u16 = cell_span(columns, 12);
            let tallest: u16 = cell_span(rows, 24);
            Self::new_zellij(
                columns,
                rows,
                if width_px < widest {
                    width_px
                } else {
                    widest
                },
                if height_px < tallest {
                    height_px
                } else {
                    tallest
                },
            )
        } else {
            Self::new(columns, rows, width_px, height_px)
        }
    }

    pub open spec fn spec_cell_pixels(self) -> (int, int) {
        (
            at_least_one(self.width_px as int / at_least_one(self.columns as int)),
            at_least_one(self.height_px as int / at_least_one(self.rows as int)),
        )
    }

    /// Width and height of one cell.
    pub fn cell_pixels(self) -> (r: (u32, u32))
        ensures
            r.0 == self.spec_cell_pixels().0,
            r.1 == self.spec_cell_pixels().1,
    {
        let columns: u32 = if self.columns > 1 {
            self.columns as u32
        } else {
            1
        };
        let rows: u32 = if self.rows > 1 {
            self.rows as u32
        } else {
            1
        };
        let width: u32 = self.width_px as u32 / columns;
        let height: u32 = self.height_px as u32 / rows;
        (
            if width > 1 {
                width
            } else {
                1
            },
            if height > 1 {
                height
            } else {
                1
            },
        )
    }

    pub open spec fn spec_viewport_pixels(self) -> (int, int) {
        (self.width_px as int, less(self.height_px as int, self.spec_cell_pixels().1))
    }

    /// Width and height left for the page above the status line.
    pub fn viewport_pixels(self) -> (r: (u32, u32))
        ensures
            r.0 == self.spec_viewport_pixels().0,
            r.1 == self.spec_viewport_pixels().1,
    {
        let (_, cell_h) = self.cell_pixels();
        (self.width_px as u32, (self.height_px as u32).saturating_sub(cell_h))
    }

    /// Twice the viewport, the most that is rasterized for a pane of zellij.
    pub open spec fn spec_maximum(self) -> (int, int) {
        (
            at_least_one(2 * self.spec_viewport_pixels().0),
            at_least_one(2 * self.spec_viewport_pixels().1),
        )
    }

    pub open spec fn spec_cap_render_dimensions(self, width: u32, height: u32) -> (int, int) {
        if self.zellij {
            let maximum = self.spec_maximum();
            let scale = cap_scale(
                width as nat,
                height as nat,
                (maximum.0 as nat, maximum.1 as nat),
            );
            (capped_extent(width as nat, scale), capped_extent(height as nat, scale))
        } else {
            (width as int, height as int)
        }
    }

    /// Scales a raster down until it is no larger than twice the viewport in
    /// either direction, in zellij only.
    pub fn cap_render_dimensions(self, width: u32, height: u32) -> (r: (u32, u32))
        ensures
            r.0 == self.spec_cap_render_dimensions(width, height).0,
            r.1 == self.spec_cap_render_dimensions(width, height).1,
    {
        if !self.zellij {
            return (width, height);
        }
        let (view_width, view_height) = self.viewport_pixels();
        let maximum_width: u32 = if view_width > 0 {
            view_width * 2
        } else {
            1
        };
        let maximum_height: u32 = if view_height > 0 {
            view_height * 2
        } else {
            1
        };
        let across = Binary::from_integer(maximum_width, DOUBLE).divide(
            Binary::from_integer(
                if width > 1 {
                    width
                } else {
                    1
                },
                DOUBLE,
            ),
            DOUBLE,
        );
        let down = Binary::from_integer(maximum_height, DOUBLE).divide(
            Binary::from_integer(
                if height > 1 {
                    height
                } else {
                    1
                },
                DOUBLE,
            ),
            DOUBLE,
        );
        let scale = across.min(down).min(Binary::from_integer(1, DOUBLE));
        (compute_capped_extent(width, scale), compute_capped_extent(height, scale))
    }
}

} // verus!
