//! The main loop over time.

use crate::app::{action_of, bound_command, Action, AppState, RenderKey};
use crate::event::{AppEvent, KeyEvent, TerminalEvent};
use crate::layout::Single;
use crate::pdf::renderer::{Bitmap, RenderEvent, RenderKind, RenderRequest};
use crate::viewer::{
    after, as_effects, countable, due, neighbor_effects, spec_request_page, Deadlines, Effect,
    ViewerState, FILE_DEBOUNCE, PREFETCH_IDLE, RESIZE_DEBOUNCE, RETRY_DELAYS,
};
use vstd::prelude::*;

verus! {

/// The earliest deadline is one of the deadlines, and none is earlier.
pub proof fn law_next_is_earliest(deadlines: Deadlines)
    ensures
        match deadlines.spec_next() {
            Some(at) => {
                &&& deadlines.reload == Some(at) || deadlines.retry == Some(at) || deadlines.resize
                    == Some(at) || deadlines.prefetch == Some(at)
                &&& deadlines.reload matches Some(x) ==> at <= x
                &&& deadlines.retry matches Some(x) ==> at <= x
                &&& deadlines.resize matches Some(x) ==> at <= x
                &&& deadlines.prefetch matches Some(x) ==> at <= x
            },
            None => deadlines == Deadlines::none(),
        },
{
}

/// Before the earliest deadline the timers do nothing.
pub proof fn law_nothing_due_nothing_done(viewer: ViewerState, now: u64)
    requires
        viewer.deadlines.spec_next() matches Some(at) ==> now < at,
    ensures
        viewer.on_timers(now).0 == viewer,
        viewer.on_timers(now).1 == Seq::<Effect>::empty(),
{
    law_next_is_earliest(viewer.deadlines);
    assert(viewer.on_timers(now).1 =~= Seq::<Effect>::empty());
}

/// Once the timers have run, no deadline that was over is left.
pub proof fn law_timers_take_down_what_is_over(viewer: ViewerState, now: u64)
    ensures
        viewer.on_timers(now).0.deadlines.spec_next() matches Some(at) ==> now < at,
{
    law_next_is_earliest(viewer.on_timers(now).0.deadlines);
}

/// Of changes in quick succession only the last one counts, and the document is
/// not reloaded before it has been quiet for the whole delay.
pub proof fn law_changes_are_debounced(viewer: ViewerState, first: u64, second: u64, now: u64)
    requires
        countable(first),
        countable(second),
    ensures
        viewer.on_file_changed(first).0.on_file_changed(second) == viewer.on_file_changed(second),
        now < second + FILE_DEBOUNCE ==> viewer.on_file_changed(second).0.expire(now).app
            == viewer.app,
        now >= second + FILE_DEBOUNCE ==> viewer.on_file_changed(second).0.expire(now).app
            == viewer.app.reload(),
{
    assert(viewer.on_file_changed(first).0.on_file_changed(second).0 =~= viewer.on_file_changed(
        second,
    ).0);
}

/// Of changes of size in quick succession only the last one sets the time at
/// which the page is asked for.
pub proof fn law_resizes_are_debounced(
    viewer: ViewerState,
    size: crate::terminal::size::TerminalSize,
    now: u64,
    later: u64,
)
    requires
        countable(now),
    ensures
        viewer.on_resize(size, now).0.deadlines.resize == after(now, RESIZE_DEBOUNCE as int),
        viewer.on_resize(size, now).0.deadlines.prefetch is None,
        viewer.on_resize(size, now).1 == seq![Effect::Redraw { force: false }],
        due(viewer.on_resize(size, now).0.deadlines.resize, later) == (later >= now
            + RESIZE_DEBOUNCE),
{
}

/// The key is one of the current page.
pub open spec fn is_current(viewer: ViewerState, key: RenderKey) -> bool {
    key.generation == viewer.app.generation && key.page == viewer.app.current_page
}

/// A page that cannot be loaded is tried again after 50, 100 and 200
/// milliseconds, and then no more.
pub proof fn law_failed_loads_are_retried(
    viewer: ViewerState,
    key: RenderKey,
    message: Seq<char>,
    t0: u64,
    t1: u64,
    t2: u64,
    t3: u64,
)
    requires
        is_current(viewer, key),
        viewer.retry_index == 0,
        countable(t0),
        countable(t1),
        countable(t2),
    ensures
        ({
            let first = viewer.on_failed(key, message, t0).0;
            let second = first.on_failed(key, message, t1).0;
            let third = second.on_failed(key, message, t2).0;
            let fourth = third.on_failed(key, message, t3).0;
            &&& first.deadlines.retry == Some((t0 + 50_000_000) as u64)
            &&& second.deadlines.retry == Some((t1 + 100_000_000) as u64)
            &&& third.deadlines.retry == Some((t2 + 200_000_000) as u64)
            &&& fourth.deadlines == third.deadlines
            &&& fourth.retry_index == 3
        }),
{
    assert(RETRY_DELAYS@.len() == 3 && RETRY_DELAYS@[0] == 50_000_000 && RETRY_DELAYS@[1]
        == 100_000_000 && RETRY_DELAYS@[2] == 200_000_000);
}

/// Once a reload, a change of size or a retry is due, the current page is asked
/// for, unless it is at hand, and drawn; pages that may follow come after it. A
/// reload asks in any case.
pub proof fn law_current_page_comes_first(viewer: ViewerState, now: u64)
    requires
        due(viewer.deadlines.reload, now) || due(viewer.deadlines.resize, now) || due(
            viewer.deadlines.retry,
            now,
        ),
    ensures
        ({
            let (next, effects) = viewer.on_timers(now);
            let first = as_effects(next.current_request()) + seq![Effect::Redraw { force: false }];
            &&& first.is_prefix_of(effects)
            &&& forall|i: int|
                first.len() <= i < effects.len() ==> is_prefetch(#[trigger] effects[i])
            &&& due(viewer.deadlines.reload, now) ==> next.current_request() is Some
        }),
{
    let (next, effects) = viewer.on_timers(now);
    let first = as_effects(next.current_request()) + seq![Effect::Redraw { force: false }];
    assert(effects.subrange(0, first.len() as int) =~= first);
    assert forall|i: int| first.len() <= i < effects.len() implies is_prefetch(
        #[trigger] effects[i],
    ) by {
        assert(effects[i] == neighbor_effects(next.path, next.app)[i - first.len()]);
    }
}

/// Success and a reload each start the delays over.
pub proof fn law_retries_start_over(
    viewer: ViewerState,
    bitmap: Bitmap,
    page_count: usize,
    page_size_points: (Single, Single),
    now: u64,
)
    ensures
        ({
            let sized = viewer.app.set_document(page_count, page_size_points);
            viewer.on_ready(
                sized.render_key(sized.current_page),
                bitmap,
                page_count,
                page_size_points,
                now,
            ).0.retry_index == 0
        }),
        due(viewer.deadlines.reload, now) ==> viewer.on_timers(now).0.retry_index == 0,
{
}

/// A bitmap or a failure of another generation changes nothing.
pub proof fn law_stale_answers_are_dropped(
    viewer: ViewerState,
    key: RenderKey,
    bitmap: Bitmap,
    page_count: usize,
    page_size_points: (Single, Single),
    message: Seq<char>,
    now: u64,
)
    requires
        key.generation != viewer.app.generation,
    ensures
        viewer.on_ready(key, bitmap, page_count, page_size_points, now) == (
            viewer,
            Seq::<Effect>::empty(),
        ),
        viewer.on_failed(key, message, now) == (viewer, Seq::<Effect>::empty()),
{
}

/// A document that has become shorter is shown at its last page, once that page
/// comes in; one that has not keeps its page.
pub proof fn law_reload_clamps_page(
    viewer: ViewerState,
    key: RenderKey,
    bitmap: Bitmap,
    page_count: usize,
    page_size_points: (Single, Single),
    now: u64,
)
    requires
        key.generation == viewer.app.generation,
        0 < page_count,
    ensures
        page_count <= viewer.app.current_page && key.page == page_count - 1 ==> viewer.on_ready(
            key,
            bitmap,
            page_count,
            page_size_points,
            now,
        ).0.app.current_page == page_count - 1,
        viewer.app.current_page < page_count ==> viewer.on_ready(
            key,
            bitmap,
            page_count,
            page_size_points,
            now,
        ).0.app.current_page == viewer.app.current_page,
{
}

/// A page whose size was not known is asked for once more and no oftener: the
/// answer to that request is shown.
pub proof fn law_one_corrective_render(
    viewer: ViewerState,
    key: RenderKey,
    bitmap: Bitmap,
    second: Bitmap,
    page_count: usize,
    page_size_points: (Single, Single),
    now: u64,
    later: u64,
)
    requires
        key.generation == viewer.app.generation,
        key.page == viewer.app.current_page,
        key.page < page_count,
    ensures
        ({
            let (sized, effects) = viewer.on_ready(key, bitmap, page_count, page_size_points, now);
            let wanted = sized.app.render_key(key.page);
            let (shown, drawn) = sized.on_ready(
                wanted,
                second,
                page_count,
                page_size_points,
                later,
            );
            key != wanted ==> {
                &&& effects == as_effects(sized.current_request())
                &&& drawn == seq![Effect::Redraw { force: false }]
                &&& shown.app.cached.contains_key(shown.app.render_key(shown.app.current_page))
                &&& shown.app.cached[shown.app.render_key(shown.app.current_page)] == second
            }
        }),
{
    let sized = viewer.app.set_document(page_count, page_size_points);
    let again = sized.set_document(page_count, page_size_points);
    assert(again.dimensions() == sized.dimensions());
    assert(again.render_key(key.page) == sized.render_key(key.page));
    if key != sized.render_key(key.page) {
        crate::laws::caching::law_bitmap_is_found_again(again, key.page, second);
    }
}

/// The effect asks for a page that may be shown next.
pub open spec fn is_prefetch(effect: Effect) -> bool {
    effect matches Effect::Request(request) && request.kind == RenderKind::Prefetch
}

/// No event makes the loop ask for neighbouring pages: that is left to the
/// timer.
pub proof fn law_events_do_not_prefetch(viewer: ViewerState, event: AppEvent, now: u64, i: int)
    requires
        0 <= i < viewer.on_event(event, now).1.len(),
    ensures
        !is_prefetch(viewer.on_event(event, now).1[i]),
{
}

/// Every key puts neighbouring pages off until there has been no input for the
/// whole delay.
pub proof fn law_prefetch_waits_for_idle(
    viewer: ViewerState,
    key: KeyEvent,
    now: u64,
    later: u64,
    i: int,
)
    requires
        countable(now),
        later < now + PREFETCH_IDLE,
        0 <= i < viewer.on_key(key, now).0.on_timers(later).1.len(),
    ensures
        !is_prefetch(viewer.on_key(key, now).0.on_timers(later).1[i]),
{
    let next = viewer.on_key(key, now).0;
    assert(!due(next.deadlines.prefetch, later));
    assert(next.on_timers(later).1 =~= (if due(next.deadlines.reload, later) || due(
        next.deadlines.resize,
        later,
    ) || due(next.deadlines.retry, later) {
        as_effects(next.expire(later).current_request()) + seq![Effect::Redraw { force: false }]
    } else {
        Seq::empty()
    }));
}

/// Only pages beside the current one are asked for ahead of time.
pub proof fn law_prefetch_asks_for_neighbors(viewer: ViewerState, i: int)
    requires
        viewer.app.current_page < viewer.app.page_count,
        0 <= i < neighbor_effects(viewer.path, viewer.app).len(),
    ensures
        ({
            let effect = neighbor_effects(viewer.path, viewer.app)[i];
            &&& is_prefetch(effect)
            &&& effect->Request_0.key.page + 1 == viewer.app.current_page
                || effect->Request_0.key.page == viewer.app.current_page + 1
            &&& effect->Request_0.key.page < viewer.app.page_count
        }),
{
}

/// What is asked for is what would be drawn, and is not at hand.
pub open spec fn is_wanted(app: AppState, request: RenderRequest) -> bool {
    &&& request.key == app.render_key(request.key.page)
    &&& !app.cached.contains_key(request.key)
}

proof fn lemma_request_is_wanted(
    path: std::path::PathBuf,
    app: AppState,
    page: usize,
    kind: RenderKind,
)
    ensures
        spec_request_page(path, app, page, kind) matches Some(request) ==> is_wanted(app, request),
{
}

/// No event makes the loop ask for a page whose bitmap is at hand.
pub proof fn law_event_requests_are_wanted(viewer: ViewerState, event: AppEvent, now: u64, i: int)
    requires
        0 <= i < viewer.on_event(event, now).1.len(),
        viewer.on_event(event, now).1[i] is Request,
    ensures
        is_wanted(
            viewer.on_event(event, now).0.app,
            viewer.on_event(event, now).1[i]->Request_0,
        ),
{
    match event {
        AppEvent::Terminal(TerminalEvent::Key(key)) => {
            let touched = viewer.touch(now);
            let ran = ViewerState { app: touched.app.run(bound_command(key)), ..touched };
            let request = ran.current_request();
            assert(viewer.on_key(key, now).1[i] == as_effects(request)[i]);
            lemma_request_is_wanted(
                ran.path,
                ran.app,
                ran.app.current_page,
                RenderKind::Current,
            );
            let next = viewer.on_key(key, now).0;
            assert(next.app == AppState { status: next.app.status, ..ran.app });
            assert(next.app.dimensions() == ran.app.dimensions());
        },
        AppEvent::Render(RenderEvent::Ready { key, bitmap, page_count, page_size_points }) => {
            let sized = viewer.app.set_document(page_count, page_size_points);
            lemma_request_is_wanted(viewer.path, sized, sized.current_page, RenderKind::Current);
        },
        _ => {},
    }
}

/// No deadline makes the loop ask for a page whose bitmap is at hand.
pub proof fn law_timer_requests_are_wanted(viewer: ViewerState, now: u64, i: int)
    requires
        0 <= i < viewer.on_timers(now).1.len(),
        viewer.on_timers(now).1[i] is Request,
    ensures
        is_wanted(viewer.on_timers(now).0.app, viewer.on_timers(now).1[i]->Request_0),
{
    let expired = viewer.expire(now);
    let app = expired.app;
    let d = viewer.deadlines;
    let current = if due(d.reload, now) || due(d.resize, now) || due(d.retry, now) {
        as_effects(expired.current_request()) + seq![Effect::Redraw { force: false }]
    } else {
        Seq::empty()
    };
    let effect = viewer.on_timers(now).1[i];
    lemma_request_is_wanted(expired.path, app, app.current_page, RenderKind::Current);
    if i < current.len() {
        assert(effect == current[i]);
    } else {
        assert(effect == neighbor_effects(expired.path, app)[i - current.len()]);
        if app.has_previous_page() {
            lemma_request_is_wanted(
                expired.path,
                app,
                (app.current_page - 1) as usize,
                RenderKind::Prefetch,
            );
        }
        if app.has_next_page() {
            lemma_request_is_wanted(
                expired.path,
                app,
                (app.current_page + 1) as usize,
                RenderKind::Prefetch,
            );
        }
    }
}

/// The loop ends at a key that is bound to quitting, and at nothing else.
pub proof fn law_only_quit_keys_quit(viewer: ViewerState, event: AppEvent, now: u64, i: int)
    requires
        0 <= i < viewer.on_event(event, now).1.len(),
    ensures
        viewer.on_event(event, now).1[i] is Quit <==> (event matches AppEvent::Terminal(
            TerminalEvent::Key(key),
        ) && action_of(bound_command(key)) == Action::Quit),
{
}

} // verus!
