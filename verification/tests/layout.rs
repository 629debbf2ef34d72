use tpdf::app::{render_dimensions, ZoomMode};
use tpdf::layout::Single;
use tpdf::terminal::size::TerminalSize;

fn single(value: f32) -> Single {
    Single { bits: value.to_bits() }
}

/// The computation in native single precision.
fn native(page: (f32, f32), view: (u32, u32), zoom: ZoomMode) -> (u32, u32, u16) {
    let fit_scale = (view.0 as f32 / page.0).min(view.1 as f32 / page.1).max(0.01);
    let fit_percent = (fit_scale * 75.0).round().clamp(1.0, u16::MAX as f32) as u16;
    let scale = match zoom {
        ZoomMode::Fit => fit_scale,
        ZoomMode::Fixed(percent) => (96.0 / 72.0) * f32::from(percent) / 100.0,
    };
    (
        (page.0 * scale).round().max(1.0) as u32,
        (page.1 * scale).round().max(1.0) as u32,
        fit_percent,
    )
}

/// The computation in native double precision.
fn native_cap(size: TerminalSize, width: u32, height: u32) -> (u32, u32) {
    let (view_width, view_height) = size.viewport_pixels();
    let maximum_width = view_width.saturating_mul(2).max(1);
    let maximum_height = view_height.saturating_mul(2).max(1);
    let scale = (maximum_width as f64 / width.max(1) as f64)
        .min(maximum_height as f64 / height.max(1) as f64)
        .min(1.0);
    (
        (width as f64 * scale).round().max(1.0) as u32,
        (height as f64 * scale).round().max(1.0) as u32,
    )
}

fn agree(page: (f32, f32), view: (u32, u32), zoom: ZoomMode) {
    assert_eq!(
        render_dimensions((single(page.0), single(page.1)), view, zoom),
        native(page, view, zoom),
        "{page:?} {view:?} {zoom:?}",
    );
}

/// A sequence of numbers without much order.
struct Numbers(u64);

impl Numbers {
    fn next(&mut self) -> u64 {
        self.0 = self.0.wrapping_mul(6364136223846793005).wrapping_add(1442695040888963407);
        let x = self.0 ^ (self.0 >> 33);
        x.wrapping_mul(0xff51afd7ed558ccd) ^ (x >> 29)
    }
}

#[test]
fn ordinary_pages_come_out_as_in_native_arithmetic() {
    let mut numbers = Numbers(1);
    for _ in 0..40_000 {
        let page = (
            (numbers.next() % 200_000) as f32 / 97.0 + 0.5,
            (numbers.next() % 200_000) as f32 / 89.0 + 0.5,
        );
        let view = ((numbers.next() % 4000) as u32, (numbers.next() % 4000) as u32);
        agree(page, view, ZoomMode::Fit);
        agree(page, view, ZoomMode::Fixed((numbers.next() % 400) as u16));
    }
}

#[test]
fn any_bits_come_out_as_in_native_arithmetic() {
    let mut numbers = Numbers(2);
    for _ in 0..40_000 {
        let page = (
            f32::from_bits(numbers.next() as u32),
            f32::from_bits(numbers.next() as u32),
        );
        let shift = numbers.next() % 32;
        let view = (numbers.next() as u32 >> shift, numbers.next() as u32 >> shift);
        agree(page, view, ZoomMode::Fit);
        agree(page, view, ZoomMode::Fixed(numbers.next() as u16));
    }
}

#[test]
fn remarkable_numbers_come_out_as_in_native_arithmetic() {
    let values = [
        0.0,
        -0.0,
        1.0,
        -1.0,
        0.01,
        100.0,
        1e-45,
        1e-39,
        f32::MIN_POSITIVE,
        f32::MAX,
        -f32::MAX,
        f32::INFINITY,
        f32::NEG_INFINITY,
        f32::NAN,
        16_777_216.0,
        4_294_967_296.0,
        0.5,
        1.5,
        2.5,
        612.0,
        792.0,
        595.276,
        841.89,
    ];
    let views = [0, 1, 2, 3, 800, 65_535, 16_777_217, u32::MAX];
    let zooms = [
        ZoomMode::Fit,
        ZoomMode::Fixed(0),
        ZoomMode::Fixed(1),
        ZoomMode::Fixed(75),
        ZoomMode::Fixed(100),
        ZoomMode::Fixed(u16::MAX),
    ];
    for width in values {
        for height in values {
            for across in views {
                for down in views {
                    for zoom in zooms {
                        agree((width, height), (across, down), zoom);
                    }
                }
            }
        }
    }
}

#[test]
fn one_hundred_percent_is_ninety_six_pixels_to_the_inch() {
    let page = (single(612.0), single(792.0));
    assert_eq!(render_dimensions(page, (800, 780), ZoomMode::Fixed(100)), (816, 1056, 74));
    assert_eq!(render_dimensions(page, (816, 1056), ZoomMode::Fit), (816, 1056, 100));
}

#[test]
fn a_fitted_page_stays_within_the_viewport() {
    let mut numbers = Numbers(3);
    for _ in 0..5_000 {
        let page = (
            single((numbers.next() % 3000) as f32 / 3.0 + 1.0),
            single((numbers.next() % 3000) as f32 / 7.0 + 1.0),
        );
        let view = (100 + (numbers.next() % 4000) as u32, 100 + (numbers.next() % 4000) as u32);
        let (width, height, _) = render_dimensions(page, view, ZoomMode::Fit);
        assert!(width <= view.0 && height <= view.1);
        assert!(width == view.0 || height == view.1);
    }
}

#[test]
fn caps_come_out_as_in_native_arithmetic() {
    let mut numbers = Numbers(4);
    for _ in 0..40_000 {
        let size = TerminalSize::new_zellij(
            (numbers.next() % 300) as u16,
            (numbers.next() % 100) as u16,
            (numbers.next() >> (numbers.next() % 16)) as u16,
            (numbers.next() >> (numbers.next() % 16)) as u16,
        );
        let shift = numbers.next() % 32;
        let (width, height) = (numbers.next() as u32 >> shift, numbers.next() as u32 >> shift);
        assert_eq!(
            size.cap_render_dimensions(width, height),
            native_cap(size, width, height),
            "{size:?} {width} {height}",
        );
    }
}

#[test]
fn halves_of_a_pixel_come_out_as_in_native_arithmetic() {
    // Twice the viewport over the width is a fraction that no mantissa holds,
    // and half of the result is a half.
    for width in 1..3000u32 {
        let size = TerminalSize::new_zellij(1, 10, 7, 1000);
        for height in [width / 2, width, width * 3 / 2, width * 5 / 2, 2 * width] {
            assert_eq!(
                size.cap_render_dimensions(width, height),
                native_cap(size, width, height),
            );
        }
    }
}

#[test]
fn a_fitted_page_fills_the_pane() {
    let mut numbers = Numbers(6);
    for _ in 0..20_000 {
        let page = (
            single((numbers.next() % 14_399_000) as f32 / 1000.0 + 1.0),
            single((numbers.next() % 14_399_000) as f32 / 1000.0 + 1.0),
        );
        let pane = (
            144 + (numbers.next() % 65_392) as u32,
            144 + (numbers.next() % 65_392) as u32,
        );
        let (width, height, _) = render_dimensions(page, pane, ZoomMode::Fit);
        assert!(width <= pane.0 && height <= pane.1);
        assert!(width == pane.0 || height == pane.1);
    }
    let largest = (single(14400.0), single(14400.0));
    let (width, height, _) = render_dimensions(largest, (144, 144), ZoomMode::Fit);
    assert_eq!((width, height), (144, 144));
}

#[test]
fn a_cap_is_no_tighter_than_needed() {
    let mut numbers = Numbers(7);
    for _ in 0..20_000 {
        let size = TerminalSize::new_zellij(80, 24, numbers.next() as u16, numbers.next() as u16);
        let shift = numbers.next() % 32;
        let width = (numbers.next() as u32 >> shift).max(1);
        let height = (numbers.next() as u32 >> shift).max(1);
        let (view_w, view_h) = size.viewport_pixels();
        let (most_w, most_h) = ((2 * view_w).max(1), (2 * view_h).max(1));
        let (w, h) = size.cap_render_dimensions(width, height);
        if width <= most_w && height <= most_h {
            assert_eq!((w, h), (width, height));
        } else {
            assert!(w <= most_w && h <= most_h && (w == most_w || h == most_h));
        }
        assert_eq!(size.cap_render_dimensions(w, h), (w, h));
        let (across, down) = (
            i128::from(w) * i128::from(height),
            i128::from(h) * i128::from(width),
        );
        assert!((across - down).abs() <= i128::from(width) + i128::from(height));
    }
}

#[test]
fn a_capped_raster_is_at_most_twice_the_viewport() {
    let mut numbers = Numbers(5);
    for _ in 0..5_000 {
        let size = TerminalSize::new_zellij(80, 24, numbers.next() as u16, numbers.next() as u16);
        let (width, height) = (numbers.next() as u32 % 100_000, numbers.next() as u32 % 100_000);
        let (view_w, view_h) = size.viewport_pixels();
        let (w, h) = size.cap_render_dimensions(width, height);
        assert!(w <= (2 * view_w).max(1) && h <= (2 * view_h).max(1));
        assert!(w <= width.max(1) && h <= height.max(1));
    }
}
