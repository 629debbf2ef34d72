use tpdf::terminal::size::TerminalSize;

#[test]
fn zellij_caps_large_rasters_and_preserves_aspect_ratio() {
    let size = TerminalSize::new_zellij(80, 24, 960, 576);
    assert_eq!(size.cap_render_dimensions(4000, 2000), (1920, 960));
}

#[test]
fn direct_ghostty_does_not_cap_zoomed_rasters() {
    let size = TerminalSize::new(80, 24, 800, 480);
    assert_eq!(size.cap_render_dimensions(4000, 2000), (4000, 2000));
}

#[test]
fn a_small_raster_is_not_enlarged() {
    let size = TerminalSize::new_zellij(80, 24, 960, 576);
    assert_eq!(size.cap_render_dimensions(100, 50), (100, 50));
    assert_eq!(size.cap_render_dimensions(0, 0), (1, 1));
}

#[test]
fn cells_and_viewport() {
    let size = TerminalSize::new(100, 40, 800, 800);
    assert_eq!(size.cell_pixels(), (8, 20));
    assert_eq!(size.viewport_pixels(), (800, 780));
    let none = TerminalSize::new(0, 0, 0, 0);
    assert_eq!(none.cell_pixels(), (1, 1));
    assert_eq!(none.viewport_pixels(), (0, 0));
}

#[test]
fn reported_pixels_are_taken_as_they_are() {
    let size = TerminalSize::from_window(80, 24, 1234, 567, false);
    assert_eq!(size, TerminalSize::new(80, 24, 1234, 567));
}

#[test]
fn missing_pixels_are_made_up_from_cells() {
    let size = TerminalSize::from_window(80, 24, 0, 0, false);
    assert_eq!(size, TerminalSize::new(80, 24, 640, 384));
    let size = TerminalSize::from_window(u16::MAX, u16::MAX, 0, 0, false);
    assert_eq!(size, TerminalSize::new(u16::MAX, u16::MAX, u16::MAX, u16::MAX));
}

#[test]
fn zellij_pixels_are_bounded_by_cells() {
    let size = TerminalSize::from_window(80, 24, 3000, 2000, true);
    assert_eq!(size, TerminalSize::new_zellij(80, 24, 960, 576));
    let size = TerminalSize::from_window(80, 24, 700, 400, true);
    assert_eq!(size, TerminalSize::new_zellij(80, 24, 700, 400));
}
