//! What each event does to the main loop.

use crate::app::{bound_command, AppState, RenderKey};
use crate::event::{AppEvent, KeyEvent, TerminalEvent};
use crate::laws::caching::is_in_reach;
use crate::laws::keys::{
    after, asks_for_a_raster, asks_for_left, asks_for_right, asks_to_quit, asks_to_redraw,
    law_actions_of_keys,
};
use crate::layout::Single;
use crate::pdf::renderer::{Bitmap, RenderEvent, RenderKind, RenderRequest};
use crate::terminal::kitty::KittyState;
use crate::terminal::size::TerminalSize;
use crate::viewer::{
    as_effects, countable, due, spec_request_page, Deadlines, Effect, Startup, ViewerState,
};
use std::path::PathBuf;
use vstd::prelude::*;

verus! {

/// The page on display is to be drawn, without sending what the terminal has.
pub open spec fn redraw() -> Effect {
    Effect::Redraw { force: false }
}

/// The bitmap of the page is at hand, as it would be drawn now.
pub open spec fn is_at_hand(app: AppState, page: usize) -> bool {
    app.cached.contains_key(app.render_key(page))
}

/// The request for a page as it would be drawn now.
pub open spec fn request_for(viewer: ViewerState, page: usize, kind: RenderKind) -> RenderRequest {
    RenderRequest { path: viewer.path, key: viewer.app.render_key(page), kind }
}

/// What is asked for when the current page is wanted: nothing where it is at
/// hand, and otherwise that page as it would be drawn now.
pub open spec fn asks_for_current(viewer: ViewerState, effects: Seq<Effect>) -> bool {
    let page = viewer.app.current_page;
    if is_at_hand(viewer.app, page) {
        effects == Seq::<Effect>::empty()
    } else {
        effects == seq![Effect::Request(request_for(viewer, page, RenderKind::Current))]
    }
}

/// A page that is not at hand gets asked for, and one that is does not.
pub proof fn law_wanted_page_is_asked_for(viewer: ViewerState)
    ensures
        asks_for_current(viewer, as_effects(viewer.current_request())),
{
}

/// Of any page the bitmap that would be drawn now is asked for, for the purpose
/// that is given, unless it is at hand.
pub proof fn law_requests_for_pages(
    path: PathBuf,
    app: AppState,
    page: usize,
    kind: RenderKind,
)
    ensures
        match spec_request_page(path, app, page, kind) {
            Some(request) => {
                &&& !is_at_hand(app, page)
                &&& request.path == path
                &&& request.key == app.render_key(page)
                &&& request.kind == kind
            },
            None => is_at_hand(app, page),
        },
{
}

/// The event of a key.
pub open spec fn key_event(key: KeyEvent) -> AppEvent {
    AppEvent::Terminal(TerminalEvent::Key(key))
}

/// Asking for the current page, and drawing.
proof fn lemma_asking(ran: ViewerState, now: u64)
    ensures
        ({
            let request = ran.current_request();
            let shown = match request {
                Some(_) => ran.with_status("rendering…"@),
                None => ran,
            };
            let next = shown.prefetch_at(now);
            let effects = as_effects(request) + seq![redraw()];
            if is_at_hand(next.app, next.app.current_page) {
                effects == seq![redraw()] && next.app == ran.app
            } else {
                &&& effects == seq![
                    Effect::Request(
                        request_for(next, next.app.current_page, RenderKind::Current),
                    ),
                    redraw(),
                ]
                &&& next.app == (AppState { status: Some("rendering…"@), ..ran.app })
            }
        }),
{
    let told = AppState { status: Some("rendering…"@), ..ran.app };
    assert(told.dimensions() == ran.app.dimensions());
    let request = ran.current_request();
    let effects = as_effects(request) + seq![redraw()];
    match request {
        Some(asked) => {
            assert(effects =~= seq![Effect::Request(asked), redraw()]);
        },
        None => {
            assert(effects =~= seq![redraw()]);
        },
    }
}

/// A key that turns to a page or changes the zoom has the page that is then
/// current asked for, unless it is at hand, and drawn. While it is awaited the
/// status line says so.
#[verifier::rlimit(40)]
pub proof fn law_raster_keys_ask_for_the_page(viewer: ViewerState, key: KeyEvent, now: u64)
    requires
        asks_for_a_raster(key),
    ensures
        ({
            let (next, effects) = viewer.on_event(key_event(key), now);
            let app = after(viewer.app, key);
            if is_at_hand(next.app, next.app.current_page) {
                &&& effects == seq![redraw()]
                &&& next.app == app
            } else {
                &&& effects == seq![
                    Effect::Request(
                        request_for(next, next.app.current_page, RenderKind::Current),
                    ),
                    redraw(),
                ]
                &&& next.app == (AppState { status: Some("rendering…"@), ..app })
            }
        }),
{
    law_actions_of_keys(key);
    let touched = viewer.touch(now);
    lemma_asking(ViewerState { app: touched.app.run(bound_command(key)), ..touched }, now);
}

/// Other keys ask for no page.
#[verifier::rlimit(40)]
pub proof fn law_other_keys_ask_for_nothing(viewer: ViewerState, key: KeyEvent, now: u64)
    requires
        !asks_for_a_raster(key),
    ensures
        ({
            let (next, effects) = viewer.on_event(key_event(key), now);
            &&& next.app == after(viewer.app, key)
            &&& effects == if asks_to_quit(key) {
                seq![Effect::Quit]
            } else if asks_for_left(key) || asks_for_right(key) {
                seq![redraw()]
            } else if asks_to_redraw(key) {
                seq![Effect::Redraw { force: true }]
            } else {
                Seq::empty()
            }
        }),
{
    law_actions_of_keys(key);
}

/// A key puts off the pages that may follow by 180 milliseconds. Where none were
/// due, only a key that asks for a raster makes them due. No key touches another
/// deadline, the retries or the path.
pub proof fn law_keys_put_off_prefetching(viewer: ViewerState, key: KeyEvent, now: u64)
    requires
        countable(now),
    ensures
        ({
            let next = viewer.on_event(key_event(key), now).0;
            &&& next.path == viewer.path
            &&& next.retry_index == viewer.retry_index
            &&& next.deadlines.reload == viewer.deadlines.reload
            &&& next.deadlines.retry == viewer.deadlines.retry
            &&& next.deadlines.resize == viewer.deadlines.resize
            &&& match next.deadlines.prefetch {
                Some(at) => at == now + 180_000_000 && (viewer.deadlines.prefetch is Some
                    || asks_for_a_raster(key)),
                None => viewer.deadlines.prefetch is None && !asks_for_a_raster(key),
            }
        }),
{
    law_actions_of_keys(key);
}

/// A change of size is taken in and drawn at once; the page is rasterized anew 50
/// milliseconds later, and pages that may follow are no longer due. Where the size
/// could not be read, and with any other report, nothing happens.
pub proof fn law_resize_events(viewer: ViewerState, size: TerminalSize, now: u64)
    requires
        countable(now),
    ensures
        ({
            let resized = AppEvent::Terminal(TerminalEvent::Resize(Some(size)));
            let (next, effects) = viewer.on_event(resized, now);
            &&& next == (ViewerState {
                app: viewer.app.resize(size),
                deadlines: Deadlines {
                    resize: next.deadlines.resize,
                    prefetch: None,
                    ..viewer.deadlines
                },
                ..viewer
            })
            &&& next.deadlines.resize matches Some(at) && at == now + 50_000_000
            &&& effects == seq![redraw()]
        }),
        viewer.on_event(AppEvent::Terminal(TerminalEvent::Resize(None)), now) == (
            viewer,
            Seq::<Effect>::empty(),
        ),
        viewer.on_event(AppEvent::Terminal(TerminalEvent::Other), now) == (
            viewer,
            Seq::<Effect>::empty(),
        ),
{
}

/// A change on disk is acted on 75 milliseconds later. Until then nothing is tried
/// again and no page that may follow is due; what is shown stays.
pub proof fn law_change_events(viewer: ViewerState, now: u64)
    requires
        countable(now),
    ensures
        ({
            let (next, effects) = viewer.on_event(AppEvent::FileChanged, now);
            &&& next == (ViewerState {
                deadlines: Deadlines {
                    reload: next.deadlines.reload,
                    retry: None,
                    prefetch: None,
                    ..viewer.deadlines
                },
                ..viewer
            })
            &&& next.deadlines.reload matches Some(at) && at == now + 75_000_000
            &&& effects == Seq::<Effect>::empty()
        }),
{
}

/// An error of the watch is shown in the status line, and changes nothing else.
pub proof fn law_watch_error_events(viewer: ViewerState, message: String, now: u64)
    ensures
        viewer.on_event(AppEvent::WatchError(message), now) == (
            ViewerState {
                app: AppState { status: Some("watch: "@ + message@), ..viewer.app },
                ..viewer
            },
            seq![redraw()],
        ),
{
}

/// The current page, once the document is known to have so many.
pub open spec fn page_within(page: usize, page_count: usize) -> int {
    if page < page_count {
        page as int
    } else if page_count > 0 {
        page_count - 1
    } else {
        0
    }
}

/// A bitmap of the page that is current, once the document is known, tells the
/// size of that page. Where the bitmap has the dimensions that follow, it is kept
/// and drawn, retries start over, and pages that may follow are due 180
/// milliseconds later. Where it has not, the page is asked for again, and no
/// deadline changes.
#[verifier::rlimit(40)]
pub proof fn law_current_page_comes_in(
    viewer: ViewerState,
    key: RenderKey,
    bitmap: Bitmap,
    page_count: usize,
    page_size_points: (Single, Single),
    now: u64,
)
    requires
        countable(now),
        key.generation == viewer.app.generation,
        key.page == page_within(viewer.app.current_page, page_count),
    ensures
        ({
            let event = AppEvent::Render(
                RenderEvent::Ready { key, bitmap, page_count, page_size_points },
            );
            let (next, effects) = viewer.on_event(event, now);
            let sized = viewer.app.set_document(page_count, page_size_points);
            &&& sized.current_page == key.page
            &&& if key.width == sized.dimensions().0 as u32 && key.height
                == sized.dimensions().1 as u32 {
                &&& next.app == sized.insert_bitmap(key, bitmap)
                &&& is_at_hand(next.app, next.app.current_page)
                &&& next.app.cached[next.app.render_key(next.app.current_page)] == bitmap
                &&& effects == seq![redraw()]
                &&& next.retry_index == 0
                &&& next.path == viewer.path
                &&& next.deadlines.prefetch matches Some(at) && at == now + 180_000_000
                &&& next.deadlines == (Deadlines {
                    prefetch: next.deadlines.prefetch,
                    ..viewer.deadlines
                })
            } else {
                &&& next == (ViewerState { app: sized, ..viewer })
                &&& asks_for_current(next, effects)
            }
        }),
{
    let sized = viewer.app.set_document(page_count, page_size_points);
    assert(sized.current_page == key.page);
    let wanted = sized.render_key(sized.current_page);
    if key == wanted {
        crate::laws::caching::law_bitmap_is_found_again(sized, key.page, bitmap);
        assert(sized.insert_bitmap(key, bitmap).current_page == sized.current_page);
    }
}

/// A bitmap of a page that is not current is kept and not drawn; of the document
/// it tells how many pages there are.
#[verifier::rlimit(40)]
pub proof fn law_other_page_comes_in(
    viewer: ViewerState,
    key: RenderKey,
    bitmap: Bitmap,
    page_count: usize,
    page_size_points: (Single, Single),
    now: u64,
)
    requires
        key.generation == viewer.app.generation,
        key.page != viewer.app.current_page,
        key.page != page_within(viewer.app.current_page, page_count),
    ensures
        ({
            let event = AppEvent::Render(
                RenderEvent::Ready { key, bitmap, page_count, page_size_points },
            );
            let (next, effects) = viewer.on_event(event, now);
            &&& next == (ViewerState {
                app: AppState { page_count, cached: next.app.cached, ..viewer.app },
                ..viewer
            })
            &&& is_in_reach(viewer.app, key) ==> next.app.cached.contains_key(key)
                && next.app.cached[key] == bitmap
            &&& effects == Seq::<Effect>::empty()
        }),
{
    let counted = AppState { page_count, ..viewer.app };
    assert(counted.dimensions() == viewer.app.dimensions());
    assert(counted.insert_bitmap(key, bitmap) == AppState {
        cached: counted.insert_bitmap(key, bitmap).cached,
        ..counted
    });
}

/// A bitmap of the page that was current, which a document that has become shorter
/// no longer has, tells the size of its pages and is not kept.
pub proof fn law_page_that_is_gone(
    viewer: ViewerState,
    key: RenderKey,
    bitmap: Bitmap,
    page_count: usize,
    page_size_points: (Single, Single),
    now: u64,
)
    requires
        key.generation == viewer.app.generation,
        key.page == viewer.app.current_page,
        key.page != page_within(viewer.app.current_page, page_count),
    ensures
        ({
            let event = AppEvent::Render(
                RenderEvent::Ready { key, bitmap, page_count, page_size_points },
            );
            let (next, effects) = viewer.on_event(event, now);
            &&& next == (ViewerState {
                app: viewer.app.set_document(page_count, page_size_points),
                ..viewer
            })
            &&& asks_for_current(next, effects)
        }),
{
}

/// A bitmap of another generation is dropped, whatever page it is of.
pub proof fn law_stale_bitmaps_are_dropped(
    viewer: ViewerState,
    key: RenderKey,
    bitmap: Bitmap,
    page_count: usize,
    page_size_points: (Single, Single),
    now: u64,
)
    requires
        key.generation != viewer.app.generation,
    ensures
        viewer.on_event(
            AppEvent::Render(RenderEvent::Ready { key, bitmap, page_count, page_size_points }),
            now,
        ) == (viewer, Seq::<Effect>::empty()),
{
}

/// A failure to load the current page is shown in the status line, and the page is
/// due again after 50, 100 or 200 milliseconds, by the failures before; after three
/// it is not. A failure to load another page, or one of another generation, changes
/// nothing.
pub proof fn law_failure_events(viewer: ViewerState, key: RenderKey, message: String, now: u64)
    requires
        countable(now),
    ensures
        ({
            let event = AppEvent::Render(RenderEvent::Failed { key, message });
            let (next, effects) = viewer.on_event(event, now);
            if key.generation == viewer.app.generation && key.page == viewer.app.current_page {
                &&& effects == seq![redraw()]
                &&& next.app == (AppState {
                    status: Some("reload failed: "@ + message@),
                    ..viewer.app
                })
                &&& next.path == viewer.path
                &&& next.deadlines == (Deadlines {
                    retry: next.deadlines.retry,
                    ..viewer.deadlines
                })
                &&& if viewer.retry_index < 3 {
                    &&& next.retry_index == viewer.retry_index + 1
                    &&& next.deadlines.retry matches Some(at) && at == now + (
                    if viewer.retry_index == 0 {
                        50_000_000
                    } else if viewer.retry_index == 1 {
                        100_000_000
                    } else {
                        200_000_000int
                    })
                } else {
                    next.retry_index == viewer.retry_index && next.deadlines.retry
                        == viewer.deadlines.retry
                }
            } else {
                next == viewer && effects == Seq::<Effect>::empty()
            }
        }),
{
    let delays = crate::viewer::RETRY_DELAYS@;
    assert(delays.len() == 3 && delays[0] == 50_000_000 && delays[1] == 100_000_000 && delays[2]
        == 200_000_000);
}

/// When time has come, exactly the deadlines that are over are taken down. Only a
/// reload that is due changes anything else of the state: the document is then
/// reloaded, and retries start over.
pub proof fn law_timers_change_what_is_due(viewer: ViewerState, now: u64)
    ensures
        ({
            let next = viewer.on_timers(now).0;
            let d = viewer.deadlines;
            &&& next.path == viewer.path
            &&& next.deadlines.reload == (if due(d.reload, now) {
                None
            } else {
                d.reload
            })
            &&& next.deadlines.retry == (if due(d.retry, now) {
                None
            } else {
                d.retry
            })
            &&& next.deadlines.resize == (if due(d.resize, now) {
                None
            } else {
                d.resize
            })
            &&& next.deadlines.prefetch == (if due(d.prefetch, now) {
                None
            } else {
                d.prefetch
            })
            &&& if due(d.reload, now) {
                next.app == viewer.app.reload() && next.retry_index == 0
            } else {
                next.app == viewer.app && next.retry_index == viewer.retry_index
            }
        }),
{
}

/// A deadline is over from its point in time on.
pub proof fn law_deadlines_are_over_from_their_time_on(deadline: Option<u64>, now: u64)
    ensures
        due(deadline, now) <==> deadline is Some && deadline->0 <= now,
{
}

/// The page before and the page behind, where there are such pages and they are
/// not at hand.
pub open spec fn neighbors_wanted(viewer: ViewerState) -> Seq<Effect> {
    let page = viewer.app.current_page;
    let before = seq![
        Effect::Request(request_for(viewer, (page - 1) as usize, RenderKind::Prefetch)),
    ];
    let behind = seq![
        Effect::Request(request_for(viewer, (page + 1) as usize, RenderKind::Prefetch)),
    ];
    let none = Seq::<Effect>::empty();
    (if page > 0 && !is_at_hand(viewer.app, (page - 1) as usize) {
        before
    } else {
        none
    }) + (if page + 1 < viewer.app.page_count && !is_at_hand(viewer.app, (page + 1) as usize) {
        behind
    } else {
        none
    })
}

/// When a reload, a change of size or a retry is due, the current page is asked for
/// where it is not at hand, and drawn. When the pages that may follow are due, each
/// of them that exists and is not at hand is asked for, behind all else.
pub proof fn law_timers_ask_for_what_is_wanted(viewer: ViewerState, now: u64) -> (first: Seq<
    Effect,
>)
    ensures
        ({
            let (next, effects) = viewer.on_timers(now);
            let d = viewer.deadlines;
            &&& asks_for_current(next, first)
            &&& effects == (if due(d.reload, now) || due(d.resize, now) || due(d.retry, now) {
                first + seq![redraw()]
            } else {
                Seq::<Effect>::empty()
            }) + (if due(d.prefetch, now) {
                neighbors_wanted(next)
            } else {
                Seq::<Effect>::empty()
            })
        }),
{
    let (next, effects) = viewer.on_timers(now);
    assert(crate::viewer::neighbor_effects(next.path, next.app) =~= neighbors_wanted(next));
    as_effects(next.current_request())
}

/// At the start nothing is due and nothing has failed.
pub proof fn law_start_of_the_loop(path: PathBuf, app: AppState, now: u64)
    requires
        countable(now),
    ensures
        ({
            let start = ViewerState::initial(path, app);
            let next = start.prefetch_at(now);
            &&& start.path == path
            &&& start.app == app
            &&& start.retry_index == 0
            &&& start.deadlines.spec_next() is None
            &&& next.deadlines.spec_next() matches Some(at) && at == now + 180_000_000
            &&& next == (ViewerState { deadlines: next.deadlines, ..start })
        }),
{
}

/// The wait ends when the earliest deadline comes, and at once where it is over.
pub proof fn law_wait_ends_at_the_earliest_deadline(deadlines: Deadlines, now: u64)
    ensures
        match deadlines.spec_wait(now) {
            Some(wait) => {
                &&& deadlines.spec_next() matches Some(at) && (at >= now ==> now + wait == at) && (
                at < now ==> wait == 0)
            },
            None => deadlines.spec_next() is None,
        },
{
}

/// The start takes in what a bitmap tells of the document, whatever page it is of,
/// and is over once the bitmap is the one that is wanted. A failure ends it with
/// its message, and other events do not count.
pub proof fn law_start_waits_for_the_page(viewer: ViewerState, event: AppEvent)
    ensures
        match event {
            AppEvent::Render(RenderEvent::Ready { key, bitmap, page_count, page_size_points }) => {
                let (next, step) = viewer.on_bootstrap(event);
                let sized = viewer.app.set_document(page_count, page_size_points);
                if key == sized.render_key(sized.current_page) {
                    &&& step == Startup::Ready
                    &&& next == (ViewerState { app: next.app, ..viewer })
                    &&& next.app == sized.insert_bitmap(key, bitmap)
                    &&& is_at_hand(next.app, next.app.current_page)
                    &&& next.app.cached[next.app.render_key(next.app.current_page)] == bitmap
                } else {
                    step == Startup::Waiting && next == (ViewerState { app: sized, ..viewer })
                }
            },
            AppEvent::Render(RenderEvent::Failed { key: _, message }) => viewer.on_bootstrap(event)
                == (viewer, Startup::Failed(message)),
            _ => viewer.on_bootstrap(event) == (viewer, Startup::Waiting),
        },
{
    if let AppEvent::Render(RenderEvent::Ready { key, bitmap, page_count, page_size_points }) =
        event {
        let sized = viewer.app.set_document(page_count, page_size_points);
        crate::laws::caching::law_bitmap_is_found_again(sized, sized.current_page, bitmap);
        assert(sized.insert_bitmap(key, bitmap).current_page == sized.current_page);
    }
}

/// What is drawn is the bitmap of the current page at the offsets, in the terminal
/// as it is; where that is not at hand no image is. Drawing changes nothing but
/// that there is nothing left to draw.
pub proof fn law_drawing_shows_the_current_page(
    viewer: ViewerState,
    images: KittyState,
    force: bool,
)
    ensures
        ({
            let key = viewer.app.render_key(viewer.app.current_page);
            match viewer.image_text(images, force) {
                Some(text) => {
                    &&& viewer.app.cached.contains_key(key)
                    &&& text == images.draw_sequence(
                        viewer.app.cached[key]@,
                        viewer.app.terminal,
                        viewer.app.offset_x,
                        viewer.app.offset_y,
                        force,
                    )
                },
                None => !viewer.app.cached.contains_key(key),
            }
        }),
        viewer.drawn() == (ViewerState {
            app: AppState { dirty: false, ..viewer.app },
            ..viewer
        }),
{
}

} // verus!
