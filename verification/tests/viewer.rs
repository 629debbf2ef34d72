use std::path::PathBuf;
use tpdf::app::{App, RenderKey, ZoomMode};
use tpdf::event::{AppEvent, KeyCode, KeyEvent, KeyEventKind, TerminalEvent};
use tpdf::layout::Single;
use tpdf::pdf::renderer::{Bitmap, RenderEvent, RenderKind};
use tpdf::terminal::session::TerminalSession;
use tpdf::terminal::size::TerminalSize;
use tpdf::ui::status;
use tpdf::viewer::{
    request_neighbors, request_page, Deadlines, Effect, Startup, Viewer, FILE_DEBOUNCE,
    PREFETCH_IDLE, RESIZE_DEBOUNCE, RETRY_DELAYS,
};

const MS: u64 = 1_000_000;

fn points(width: f32, height: f32) -> (Single, Single) {
    (
        Single { bits: width.to_bits() },
        Single { bits: height.to_bits() },
    )
}

fn viewer() -> Viewer {
    let mut app = App::new(TerminalSize::new(100, 40, 800, 800));
    app.set_document(10, points(600.0, 800.0));
    Viewer::new(PathBuf::from("a.pdf"), app)
}

fn bitmap(key: RenderKey) -> Bitmap {
    Bitmap { width: key.width, height: key.height, rgba: vec![255; 4] }
}

fn ready(key: RenderKey, page_count: usize, size: (Single, Single)) -> AppEvent {
    AppEvent::Render(RenderEvent::Ready {
        key,
        bitmap: bitmap(key),
        page_count,
        page_size_points: size,
    })
}

fn failed(key: RenderKey) -> AppEvent {
    AppEvent::Render(RenderEvent::Failed { key, message: "broken".to_string() })
}

fn press(c: char) -> AppEvent {
    AppEvent::Terminal(TerminalEvent::Key(KeyEvent {
        code: KeyCode::Char(c),
        control: false,
        kind: KeyEventKind::Press,
    }))
}

/// The effects in short: pages asked for, `r` and `R` for drawing, `q` to quit.
fn short(effects: &[Effect]) -> String {
    let mut text = String::new();
    for effect in effects {
        text.push_str(&match effect {
            Effect::Request(request) => match request.kind {
                RenderKind::Current => format!("c{} ", request.key.page),
                RenderKind::Prefetch => format!("p{} ", request.key.page),
            },
            Effect::Redraw { force: false } => "r ".to_string(),
            Effect::Redraw { force: true } => "R ".to_string(),
            Effect::Quit => "q ".to_string(),
        });
    }
    text
}

#[test]
fn the_earliest_deadline_is_next() {
    let mut deadlines = Deadlines::default();
    assert_eq!(deadlines.next(), None);
    assert_eq!(deadlines.wait(5), None);
    deadlines.prefetch = Some(40);
    assert_eq!(deadlines.next(), Some(40));
    deadlines.reload = Some(30);
    deadlines.retry = Some(35);
    deadlines.resize = Some(32);
    assert_eq!(deadlines.next(), Some(30));
    assert_eq!(deadlines.wait(5), Some(25));
    assert_eq!(deadlines.wait(50), Some(0));
}

#[test]
fn delays() {
    assert_eq!(FILE_DEBOUNCE, 75 * MS);
    assert_eq!(RESIZE_DEBOUNCE, 50 * MS);
    assert_eq!(PREFETCH_IDLE, 180 * MS);
    assert_eq!(RETRY_DELAYS, [50 * MS, 100 * MS, 200 * MS]);
}

#[test]
fn pages_at_hand_are_not_asked_for() {
    let mut viewer = viewer();
    let path = PathBuf::from("a.pdf");
    let request = request_page(&path, &viewer.app, 3, RenderKind::Prefetch).unwrap();
    assert_eq!(request.path, path);
    assert_eq!(request.key, viewer.app.render_key(3));
    assert_eq!(request.kind, RenderKind::Prefetch);
    let key = viewer.app.render_key(0);
    viewer.app.insert_bitmap(key, bitmap(key));
    assert!(request_page(&path, &viewer.app, 0, RenderKind::Current).is_none());
}

#[test]
fn neighbours_are_those_that_there_are() {
    let mut viewer = viewer();
    let path = PathBuf::from("a.pdf");
    assert_eq!(short(&request_neighbors(&path, &viewer.app)), "p1 ");
    viewer.app.current_page = 4;
    assert_eq!(short(&request_neighbors(&path, &viewer.app)), "p3 p5 ");
    viewer.app.current_page = 9;
    assert_eq!(short(&request_neighbors(&path, &viewer.app)), "p8 ");
}

#[test]
fn the_start_asks_until_the_dimensions_fit() {
    let app = App::new(TerminalSize::new(100, 40, 800, 800));
    let mut viewer = Viewer::new(PathBuf::from("a.pdf"), app);
    let first = viewer.bootstrap_request().unwrap().key;
    let step = viewer.bootstrap(ready(first, 3, points(600.0, 800.0)));
    assert!(matches!(step, Startup::Waiting));
    let second = viewer.bootstrap_request().unwrap().key;
    assert_ne!(first, second);
    let step = viewer.bootstrap(ready(second, 3, points(600.0, 800.0)));
    assert!(matches!(step, Startup::Ready));
    assert!(viewer.app.current_bitmap().is_some());
    assert!(viewer.bootstrap_request().is_none());
}

#[test]
fn the_start_clamps_the_page() {
    let mut app = App::new(TerminalSize::new(100, 40, 800, 800));
    app.current_page = 50;
    let mut viewer = Viewer::new(PathBuf::from("a.pdf"), app);
    let wanted = viewer.bootstrap_request().unwrap().key;
    assert_eq!(wanted.page, 50);
    viewer.bootstrap(ready(RenderKey { page: 2, ..wanted }, 3, points(612.0, 792.0)));
    assert_eq!(viewer.app.current_page, 2);
    assert!(viewer.app.current_bitmap().is_some());
}

#[test]
fn the_start_fails_with_the_message() {
    let mut viewer = viewer();
    let key = viewer.app.render_key(0);
    match viewer.bootstrap(failed(key)) {
        Startup::Failed(message) => assert_eq!(message, "broken"),
        _ => panic!("did not fail"),
    }
    assert!(matches!(viewer.bootstrap(AppEvent::FileChanged), Startup::Waiting));
}

#[test]
fn turning_a_page_asks_for_it_and_draws() {
    let mut viewer = viewer();
    assert_eq!(short(&viewer.handle_event(press('j'), MS)), "c1 r ");
    assert_eq!(viewer.app.status.as_deref(), Some("rendering…"));
    assert_eq!(viewer.deadlines.prefetch, Some(181 * MS));
    let key = viewer.app.render_key(1);
    let effects = viewer.handle_event(ready(key, 10, points(600.0, 800.0)), 10 * MS);
    assert_eq!(short(&effects), "r ");
    assert!(viewer.app.status.is_none());
    assert_eq!(viewer.deadlines.prefetch, Some(190 * MS));
    assert_eq!(short(&viewer.handle_event(press('+'), 11 * MS)), "c1 r ");
}

#[test]
fn other_keys() {
    let mut viewer = viewer();
    assert_eq!(short(&viewer.handle_event(press('q'), 0)), "q ");
    assert_eq!(short(&viewer.handle_event(press('h'), 0)), "r ");
    assert_eq!(short(&viewer.handle_event(press('r'), 0)), "R ");
    assert_eq!(short(&viewer.handle_event(press('x'), 0)), "");
    assert_eq!(viewer.deadlines.prefetch, None);
    assert_eq!(short(&viewer.handle_event(AppEvent::Terminal(TerminalEvent::Other), 0)), "");
}

#[test]
fn prefetching_waits_for_idle() {
    let mut viewer = viewer();
    viewer.start(0);
    assert_eq!(viewer.deadlines.prefetch, Some(180 * MS));
    viewer.handle_event(press('x'), 100 * MS);
    assert_eq!(viewer.deadlines.prefetch, Some(280 * MS));
    assert_eq!(short(&viewer.process_timers(279 * MS)), "");
    assert_eq!(short(&viewer.process_timers(280 * MS)), "p1 ");
    assert_eq!(viewer.deadlines.prefetch, None);
    assert_eq!(short(&viewer.process_timers(1000 * MS)), "");
}

#[test]
fn resizes_are_debounced() {
    let mut viewer = viewer();
    viewer.start(0);
    let size = TerminalSize::new(200, 60, 1600, 1200);
    let resize = AppEvent::Terminal(TerminalEvent::Resize(Some(size)));
    assert_eq!(short(&viewer.handle_event(resize, 10 * MS)), "r ");
    assert_eq!(viewer.app.terminal, size);
    assert_eq!(viewer.deadlines.prefetch, None);
    assert_eq!(short(&viewer.process_timers(59 * MS)), "");
    assert_eq!(short(&viewer.process_timers(60 * MS)), "c0 r ");
    let unknown = AppEvent::Terminal(TerminalEvent::Resize(None));
    assert_eq!(short(&viewer.handle_event(unknown, 70 * MS)), "");
    assert_eq!(viewer.app.terminal, size);
}

#[test]
fn changes_are_debounced() {
    let mut viewer = viewer();
    viewer.start(0);
    assert_eq!(short(&viewer.handle_event(AppEvent::FileChanged, 0)), "");
    assert_eq!(short(&viewer.handle_event(AppEvent::FileChanged, 50 * MS)), "");
    assert_eq!(viewer.deadlines.prefetch, None);
    assert_eq!(short(&viewer.process_timers(124 * MS)), "");
    assert_eq!(viewer.app.generation, 0);
    assert_eq!(short(&viewer.process_timers(125 * MS)), "c0 r ");
    assert_eq!(viewer.app.generation, 1);
    assert_eq!(viewer.app.status.as_deref(), Some("reloading…"));
    assert_eq!(short(&viewer.process_timers(500 * MS)), "");
}

#[test]
fn failed_loads_are_retried() {
    let mut viewer = viewer();
    let key = viewer.app.render_key(0);
    for delay in [50, 100, 200] {
        assert_eq!(short(&viewer.handle_event(failed(key), MS)), "r ");
        assert_eq!(viewer.deadlines.retry, Some((1 + delay) * MS));
        assert_eq!(short(&viewer.process_timers((1 + delay) * MS)), "c0 r ");
        assert_eq!(viewer.deadlines.retry, None);
    }
    assert_eq!(viewer.app.status.as_deref(), Some("reload failed: broken"));
    assert_eq!(short(&viewer.handle_event(failed(key), MS)), "r ");
    assert_eq!(viewer.deadlines.retry, None);
    viewer.handle_event(ready(key, 10, points(600.0, 800.0)), MS);
    assert_eq!(viewer.retry_index, 0);
}

#[test]
fn failures_of_other_pages_are_passed_over() {
    let mut viewer = viewer();
    let other = viewer.app.render_key(3);
    assert_eq!(short(&viewer.handle_event(failed(other), MS)), "");
    let stale = RenderKey { generation: 7, ..viewer.app.render_key(0) };
    assert_eq!(short(&viewer.handle_event(failed(stale), MS)), "");
    assert!(viewer.app.status.is_none());
}

#[test]
fn a_change_calls_off_the_retry() {
    let mut viewer = viewer();
    let key = viewer.app.render_key(0);
    viewer.handle_event(failed(key), MS);
    viewer.handle_event(AppEvent::FileChanged, 2 * MS);
    assert_eq!(viewer.deadlines.retry, None);
    assert_eq!(viewer.retry_index, 1);
    viewer.process_timers(77 * MS);
    assert_eq!(viewer.retry_index, 0);
}

#[test]
fn stale_bitmaps_are_dropped() {
    let mut viewer = viewer();
    let key = viewer.app.render_key(0);
    viewer.app.reload();
    let effects = viewer.handle_event(ready(key, 3, points(600.0, 800.0)), MS);
    assert_eq!(short(&effects), "");
    assert_eq!(viewer.app.page_count, 10);
}

#[test]
fn a_neighbour_is_kept_without_drawing() {
    let mut viewer = viewer();
    let key = viewer.app.render_key(1);
    let effects = viewer.handle_event(ready(key, 11, points(600.0, 800.0)), MS);
    assert_eq!(short(&effects), "");
    assert_eq!(viewer.app.page_count, 11);
    assert!(viewer.app.has_bitmap(1));
}

#[test]
fn a_page_of_another_size_is_asked_for_once_more() {
    let mut viewer = viewer();
    let key = viewer.app.render_key(0);
    let size = points(800.0, 600.0);
    assert_eq!(short(&viewer.handle_event(ready(key, 10, size), MS)), "c0 ");
    let wanted = viewer.app.render_key(0);
    assert_ne!(wanted, key);
    assert_eq!(short(&viewer.handle_event(ready(wanted, 10, size), MS)), "r ");
    assert!(viewer.app.current_bitmap().is_some());
}

#[test]
fn a_shorter_document_is_shown_at_its_last_page() {
    let mut viewer = viewer();
    viewer.app.current_page = 7;
    viewer.handle_event(AppEvent::FileChanged, 0);
    let effects = viewer.process_timers(75 * MS);
    assert_eq!(short(&effects), "c7 r ");
    let key = RenderKey { page: 4, ..viewer.app.render_key(7) };
    let effects = viewer.handle_event(ready(key, 5, points(600.0, 800.0)), 80 * MS);
    assert_eq!(short(&effects), "r ");
    assert_eq!(viewer.app.current_page, 4);
    assert_eq!(viewer.app.page_count, 5);
    assert!(viewer.app.current_bitmap().is_some());
}

#[test]
fn watch_errors_are_shown() {
    let mut viewer = viewer();
    let effects = viewer.handle_event(AppEvent::WatchError("gone".to_string()), 0);
    assert_eq!(short(&effects), "r ");
    assert_eq!(viewer.app.status.as_deref(), Some("watch: gone"));
}

#[test]
fn a_drawing_has_image_and_status() {
    let mut viewer = viewer();
    let (mut session, _) = TerminalSession::enter();
    let drawing = viewer.redraw(&mut session, Some("a.pdf"), false);
    assert!(drawing.image.is_none());
    assert!(!viewer.app.dirty);
    let key = viewer.app.render_key(0);
    viewer.app.insert_bitmap(key, bitmap(key));
    assert!(viewer.app.dirty);
    let drawing = viewer.redraw(&mut session, Some("a.pdf"), false);
    assert!(drawing.image.unwrap().sent.is_some());
    let drawing = viewer.redraw(&mut session, Some("a.pdf"), false);
    assert!(drawing.image.unwrap().sent.is_none());
    let drawing = viewer.redraw(&mut session, Some("a.pdf"), true);
    assert!(drawing.image.unwrap().sent.is_some());
    assert_eq!(drawing.status, status::draw(&viewer.app, Some("a.pdf")));
}

#[test]
fn the_status_line_reads() {
    let mut viewer = viewer();
    viewer.app.current_page = 2;
    let line = status::draw(&viewer.app, Some("thesis.pdf"));
    assert_eq!(
        String::from_utf8(line).unwrap(),
        "\x1b[40;1H\x1b[7m\x1b[2K thesis.pdf    3 / 10    73%    \x1b[0m",
    );
    viewer.app.zoom = ZoomMode::Fixed(125);
    viewer.app.status = Some("rendering…".to_string());
    let line = status::draw(&viewer.app, None);
    assert_eq!(
        String::from_utf8(line).unwrap(),
        "\x1b[40;1H\x1b[7m\x1b[2K <pdf>    3 / 10    125%    rendering…\x1b[0m",
    );
}

#[test]
fn the_status_line_is_cut_at_the_edge() {
    let mut viewer = viewer();
    viewer.app.terminal = TerminalSize::new(6, 0, 800, 800);
    let line = status::draw(&viewer.app, Some("Ünïcödé.pdf"));
    assert_eq!(String::from_utf8(line).unwrap(), "\x1b[1;1H\x1b[7m\x1b[2K Ünïcö\x1b[0m");
    viewer.app.terminal = TerminalSize::new(200, u16::MAX, 800, 800);
    viewer.app.current_page = usize::MAX;
    let line = String::from_utf8(status::draw(&viewer.app, Some("a"))).unwrap();
    assert!(line.starts_with("\x1b[65535;1H"));
    assert!(line.contains(&format!(" {} / 10 ", usize::MAX)));
}

#[test]
fn the_page_on_display_is_asked_for_before_its_neighbours() {
    let mut viewer = viewer();
    viewer.app.current_page = 4;
    viewer.handle_event(AppEvent::FileChanged, 0);
    viewer.deadlines.prefetch = Some(MS);
    assert_eq!(short(&viewer.process_timers(75 * MS)), "c4 r p3 p5 ");
}

#[test]
fn every_request_for_the_page_names_the_dimensions_in_force() {
    let mut viewer = viewer();
    for c in ['j', '+', '+', '-', '0', 'G', 'g', 'k'] {
        for effect in viewer.handle_event(press(c), MS) {
            if let Effect::Request(request) = effect {
                assert_eq!(request.key, viewer.app.render_key(viewer.app.current_page));
                assert_eq!(request.path, PathBuf::from("a.pdf"));
            }
        }
    }
}
