use tpdf::app::{
    clamp_page, command, render_dimensions, Action, App, Command, RenderKey, ZoomMode, ZOOM_STEPS,
};
use tpdf::event::{KeyCode, KeyEvent, KeyEventKind};
use tpdf::layout::Single;
use tpdf::pdf::renderer::Bitmap;
use tpdf::terminal::size::TerminalSize;

fn points(width: f32, height: f32) -> (Single, Single) {
    (
        Single { bits: width.to_bits() },
        Single { bits: height.to_bits() },
    )
}

fn app() -> App {
    let mut app = App::new(TerminalSize::new(100, 40, 800, 800));
    app.set_document(10, points(600.0, 800.0));
    app
}

fn key(code: KeyCode, control: bool) -> KeyEvent {
    KeyEvent { code, control, kind: KeyEventKind::Press }
}

fn bitmap(key: RenderKey, fill: u8) -> Bitmap {
    Bitmap { width: key.width, height: key.height, rgba: vec![fill; 4] }
}

#[test]
fn page_clamp_handles_shrinking_and_empty_documents() {
    assert_eq!(clamp_page(36, 120), 36);
    assert_eq!(clamp_page(36, 30), 29);
    assert_eq!(clamp_page(3, 0), 0);
}

#[test]
fn navigation_stays_in_bounds() {
    let mut app = app();
    assert!(!app.previous_page());
    assert!(app.next_page());
    assert_eq!(app.current_page, 1);
    app.current_page = 9;
    assert!(!app.next_page());
}

#[test]
fn zoom_steps_and_fit_reset_work() {
    let mut zoom = ZoomMode::Fit;
    zoom.zoom_in(82);
    assert_eq!(zoom, ZoomMode::Fixed(100));
    zoom.zoom_out(82);
    assert_eq!(zoom, ZoomMode::Fixed(75));
}

#[test]
fn reload_preserves_current_page_until_metadata_clamps_it() {
    let mut app = app();
    app.current_page = 7;
    app.reload();
    assert_eq!(app.current_page, 7);
    app.set_document(5, points(600.0, 800.0));
    assert_eq!(app.current_page, 4);
}

#[test]
fn reload_advances_generation_and_invalidates_bitmap_cache() {
    let mut app = app();
    let key = app.render_key(0);
    app.insert_bitmap(
        key,
        Bitmap { width: key.width, height: key.height, rgba: Vec::new() },
    );
    assert!(app.current_bitmap().is_some());
    app.reload();
    assert_eq!(app.generation, 1);
    assert!(app.current_bitmap().is_none());
}

#[test]
fn fit_to_window_preserves_aspect_ratio() {
    let (w, h, _) = render_dimensions(points(600.0, 800.0), (1000, 600), ZoomMode::Fit);
    assert_eq!((w, h), (450, 600));
}

#[test]
fn resizing_changes_fit_dimensions() {
    let mut app = app();
    assert_eq!(app.render_dimensions().0, 585);
    app.resize(TerminalSize::new(200, 60, 1600, 1200));
    assert_eq!(app.render_dimensions(), (885, 1180, 111));
}

#[test]
fn zoom_label_is_the_percentage_in_force() {
    assert_eq!(ZoomMode::Fit.label(82), 82);
    assert_eq!(ZoomMode::Fixed(125).label(82), 125);
}

#[test]
fn zoom_stops_at_the_ends() {
    let mut zoom = ZoomMode::Fixed(200);
    zoom.zoom_in(82);
    assert_eq!(zoom, ZoomMode::Fixed(200));
    let mut zoom = ZoomMode::Fixed(25);
    zoom.zoom_out(82);
    assert_eq!(zoom, ZoomMode::Fixed(25));
    let mut zoom = ZoomMode::Fixed(1000);
    zoom.zoom_out(82);
    assert_eq!(zoom, ZoomMode::Fixed(200));
    let mut zoom = ZoomMode::Fixed(3);
    zoom.zoom_in(82);
    assert_eq!(zoom, ZoomMode::Fixed(25));
}

#[test]
fn zoom_steps_are_reversible() {
    for i in 0..6 {
        let mut zoom = ZoomMode::Fixed(ZOOM_STEPS[i]);
        zoom.zoom_in(0);
        assert_eq!(zoom, ZoomMode::Fixed(ZOOM_STEPS[i + 1]));
        zoom.zoom_out(0);
        assert_eq!(zoom, ZoomMode::Fixed(ZOOM_STEPS[i]));
    }
}

#[test]
fn a_new_app_shows_a_letter_page() {
    let app = App::new(TerminalSize::new(100, 40, 800, 800));
    assert_eq!(app.page_size_points, points(612.0, 792.0));
    assert_eq!(app.current_page, 0);
    assert_eq!(app.page_count, 0);
    assert_eq!(app.zoom, ZoomMode::Fit);
    assert_eq!(app.generation, 0);
    assert!(app.dirty);
    assert!(app.status.is_none());
    assert!(app.current_bitmap().is_none());
}

#[test]
fn key_bindings() {
    for (code, control, expected) in [
        (KeyCode::Char('q'), false, Command::Quit),
        (KeyCode::Char('c'), true, Command::Quit),
        (KeyCode::Char('j'), false, Command::NextPage),
        (KeyCode::Down, false, Command::NextPage),
        (KeyCode::Down, true, Command::NextPage),
        (KeyCode::PageDown, false, Command::NextPage),
        (KeyCode::Char('d'), true, Command::NextPage),
        (KeyCode::Char('k'), false, Command::PreviousPage),
        (KeyCode::Up, false, Command::PreviousPage),
        (KeyCode::PageUp, false, Command::PreviousPage),
        (KeyCode::Char('u'), true, Command::PreviousPage),
        (KeyCode::Char('g'), false, Command::FirstPage),
        (KeyCode::Home, false, Command::FirstPage),
        (KeyCode::Char('G'), false, Command::LastPage),
        (KeyCode::End, false, Command::LastPage),
        (KeyCode::Char('+'), false, Command::ZoomIn),
        (KeyCode::Char('='), false, Command::ZoomIn),
        (KeyCode::Char('-'), false, Command::ZoomOut),
        (KeyCode::Char('0'), false, Command::Fit),
        (KeyCode::Char('h'), false, Command::ScrollLeft),
        (KeyCode::Char('h'), true, Command::ScrollLeft),
        (KeyCode::Char('l'), false, Command::ScrollRight),
        (KeyCode::Char('r'), false, Command::ForceRedraw),
        (KeyCode::Char('l'), true, Command::ForceRedraw),
        (KeyCode::Char('q'), true, Command::Unbound),
        (KeyCode::Char('c'), false, Command::Unbound),
        (KeyCode::Char('x'), false, Command::Unbound),
        (KeyCode::Other, false, Command::Unbound),
    ] {
        assert_eq!(command(key(code, control)), expected);
        let released = KeyEvent { code, control, kind: KeyEventKind::Release };
        assert_eq!(command(released), Command::Unbound);
    }
}

#[test]
fn keys_return_their_actions() {
    let mut app = app();
    assert_eq!(app.handle_key(key(KeyCode::Char('q'), false)), Action::Quit);
    assert_eq!(app.handle_key(key(KeyCode::Char('j'), false)), Action::Render);
    assert_eq!(app.handle_key(key(KeyCode::Char('h'), false)), Action::Redraw);
    assert_eq!(app.handle_key(key(KeyCode::Char('l'), false)), Action::Redraw);
    assert_eq!(app.handle_key(key(KeyCode::Char('r'), false)), Action::ForceRedraw);
    assert_eq!(app.handle_key(key(KeyCode::Char('l'), true)), Action::ForceRedraw);
    assert_eq!(app.handle_key(key(KeyCode::Char('z'), false)), Action::Nothing);
}

#[test]
fn keys_turn_pages() {
    let mut app = app();
    app.handle_key(key(KeyCode::Char('G'), false));
    assert_eq!(app.current_page, 9);
    app.handle_key(key(KeyCode::Down, false));
    assert_eq!(app.current_page, 9);
    app.handle_key(key(KeyCode::Char('k'), false));
    assert_eq!(app.current_page, 8);
    app.handle_key(key(KeyCode::Char('j'), false));
    assert_eq!(app.current_page, 9);
    app.handle_key(key(KeyCode::Home, false));
    assert_eq!(app.current_page, 0);
    app.handle_key(key(KeyCode::Up, false));
    assert_eq!(app.current_page, 0);
}

#[test]
fn keys_zoom_and_fit() {
    let mut app = app();
    // Fitting 600 by 800 points to 800 by 780 pixels comes to 73 percent.
    assert_eq!(app.render_dimensions(), (585, 780, 73));
    app.handle_key(key(KeyCode::Char('+'), false));
    assert_eq!(app.zoom, ZoomMode::Fixed(75));
    assert_eq!(app.render_dimensions(), (600, 800, 73));
    app.handle_key(key(KeyCode::Char('='), false));
    assert_eq!(app.zoom, ZoomMode::Fixed(100));
    assert_eq!(app.render_dimensions(), (800, 1067, 73));
    app.handle_key(key(KeyCode::Char('-'), false));
    assert_eq!(app.zoom, ZoomMode::Fixed(75));
    app.offset_x = 3;
    app.offset_y = 4;
    app.handle_key(key(KeyCode::Char('0'), false));
    assert_eq!(app.zoom, ZoomMode::Fit);
    assert_eq!((app.offset_x, app.offset_y), (0, 0));
}

#[test]
fn scrolling_stops_at_the_edges() {
    let mut app = app();
    app.zoom = ZoomMode::Fixed(200);
    assert_eq!(app.render_dimensions(), (1600, 2133, 73));
    app.handle_key(key(KeyCode::Char('h'), false));
    assert_eq!(app.offset_x, 0);
    app.handle_key(key(KeyCode::Char('l'), false));
    assert_eq!(app.offset_x, 100);
    for _ in 0..20 {
        app.handle_key(key(KeyCode::Char('l'), false));
    }
    assert_eq!(app.offset_x, 800);
    app.handle_key(key(KeyCode::Char('h'), true));
    assert_eq!(app.offset_x, 700);
}

#[test]
fn offsets_are_brought_back() {
    let mut app = app();
    app.zoom = ZoomMode::Fixed(200);
    app.offset_x = 5000;
    app.offset_y = 5000;
    app.set_document(10, points(600.0, 800.0));
    assert_eq!((app.offset_x, app.offset_y), (800, 1353));
    app.resize(TerminalSize::new(100, 40, 1000, 800));
    assert_eq!((app.offset_x, app.offset_y), (600, 1353));
}

#[test]
fn resizing_to_the_same_size_changes_nothing() {
    let mut app = app();
    app.dirty = false;
    app.offset_x = 77;
    app.resize(TerminalSize::new(100, 40, 800, 800));
    assert!(!app.dirty);
    assert_eq!(app.offset_x, 77);
}

#[test]
fn cache_keeps_the_page_and_its_neighbours() {
    let mut app = app();
    app.current_page = 4;
    for page in 0..10 {
        let key = app.render_key(page);
        app.insert_bitmap(key, bitmap(key, page as u8));
    }
    for page in 0..10 {
        assert_eq!(app.has_bitmap(page), (3..=5).contains(&page));
    }
    assert_eq!(app.current_bitmap().unwrap().rgba, vec![4; 4]);
}

#[test]
fn cache_keeps_the_dimensions_in_force() {
    let mut app = app();
    let fitted = app.render_key(0);
    app.insert_bitmap(fitted, bitmap(fitted, 1));
    app.zoom = ZoomMode::Fixed(100);
    let zoomed = app.render_key(0);
    app.insert_bitmap(zoomed, bitmap(zoomed, 2));
    assert_eq!(app.current_bitmap().unwrap().rgba, vec![2; 4]);
    app.zoom = ZoomMode::Fit;
    assert!(!app.has_bitmap(0));
}

#[test]
fn bitmaps_of_an_earlier_generation_are_refused() {
    let mut app = app();
    let key = app.render_key(0);
    app.reload();
    app.insert_bitmap(key, bitmap(key, 1));
    assert!(!app.has_bitmap(0));
    assert_eq!(app.status.as_deref(), Some("reloading…"));
}

#[test]
fn the_bitmap_of_the_page_clears_the_status() {
    let mut app = app();
    app.reload();
    let next = app.render_key(1);
    app.insert_bitmap(next, bitmap(next, 1));
    assert!(app.status.is_some());
    let key = app.render_key(0);
    app.insert_bitmap(key, bitmap(key, 2));
    assert!(app.status.is_none());
}

#[test]
fn generations_wrap_around() {
    let mut app = app();
    app.generation = u64::MAX;
    app.reload();
    assert_eq!(app.generation, 0);
}

#[test]
fn a_later_bitmap_takes_the_place_of_an_earlier_one() {
    let mut app = app();
    let key = app.render_key(0);
    app.insert_bitmap(key, bitmap(key, 1));
    app.insert_bitmap(key, bitmap(key, 2));
    assert_eq!(app.current_bitmap().unwrap().rgba, vec![2; 4]);
}

#[test]
fn fixed_zoom_is_capped_in_zellij() {
    let mut app = App::new(TerminalSize::new_zellij(80, 24, 960, 576));
    app.set_document(1, points(600.0, 300.0));
    app.zoom = ZoomMode::Fixed(500);
    assert_eq!(app.render_dimensions().0, 1920);
    assert_eq!(app.render_dimensions().1, 960);
    app.terminal.zellij = false;
    assert_eq!(app.render_dimensions().0, 4000);
    assert_eq!(app.render_dimensions().1, 2000);
}

#[test]
fn learning_the_same_twice_changes_nothing() {
    let mut app = app();
    app.zoom = ZoomMode::Fixed(200);
    app.current_page = 7;
    app.offset_x = 5000;
    app.set_document(5, points(300.0, 800.0));
    let seen = (app.current_page, app.offset_x, app.offset_y, app.render_key(0));
    app.set_document(5, points(300.0, 800.0));
    assert_eq!(seen, (app.current_page, app.offset_x, app.offset_y, app.render_key(0)));
    assert_eq!((app.current_page, app.offset_x), (4, 0));
}

#[test]
fn keys_and_sizes_leave_the_cache_alone() {
    let mut app = app();
    let shown = app.render_key(0);
    app.insert_bitmap(shown, bitmap(shown, 9));
    app.handle_key(key(KeyCode::Char('+'), false));
    assert!(!app.has_bitmap(0));
    app.resize(TerminalSize::new(200, 60, 1600, 1200));
    app.handle_key(key(KeyCode::Char('0'), false));
    app.handle_key(key(KeyCode::Char('j'), false));
    assert!(!app.has_bitmap(0));
    app.resize(TerminalSize::new(100, 40, 800, 800));
    assert!(app.has_bitmap(0));
}
