//! What each key does, from the key itself to the state it leaves.

use crate::app::{action_of, bound_command, Action, AppState, Command, ZoomMode, ZOOM_STEPS};
use crate::event::{KeyCode, KeyEvent, KeyEventKind};
use crate::laws::navigation::{law_zoom_in_takes_next_step, law_zoom_out_takes_previous_step};
use vstd::prelude::*;

verus! {

/// The key is pressed, or held until it repeats.
pub open spec fn is_down(key: KeyEvent) -> bool {
    key.kind == KeyEventKind::Press || key.kind == KeyEventKind::Repeat
}

/// The character is typed without the control key.
pub open spec fn types(key: KeyEvent, c: char) -> bool {
    is_down(key) && !key.control && key.code == KeyCode::Char(c)
}

/// The character is typed with the control key held.
pub open spec fn controls(key: KeyEvent, c: char) -> bool {
    is_down(key) && key.control && key.code == KeyCode::Char(c)
}

/// A key that is no character is down, with or without the control key.
pub open spec fn presses(key: KeyEvent, code: KeyCode) -> bool {
    is_down(key) && key.code == code
}

pub open spec fn asks_to_quit(key: KeyEvent) -> bool {
    types(key, 'q') || controls(key, 'c')
}

pub open spec fn asks_for_next(key: KeyEvent) -> bool {
    types(key, 'j') || controls(key, 'd') || presses(key, KeyCode::Down) || presses(
        key,
        KeyCode::PageDown,
    )
}

pub open spec fn asks_for_previous(key: KeyEvent) -> bool {
    types(key, 'k') || controls(key, 'u') || presses(key, KeyCode::Up) || presses(
        key,
        KeyCode::PageUp,
    )
}

pub open spec fn asks_for_first(key: KeyEvent) -> bool {
    types(key, 'g') || presses(key, KeyCode::Home)
}

pub open spec fn asks_for_last(key: KeyEvent) -> bool {
    types(key, 'G') || presses(key, KeyCode::End)
}

pub open spec fn asks_for_more(key: KeyEvent) -> bool {
    types(key, '+') || types(key, '=')
}

pub open spec fn asks_for_less(key: KeyEvent) -> bool {
    types(key, '-')
}

pub open spec fn asks_to_fit(key: KeyEvent) -> bool {
    types(key, '0')
}

pub open spec fn asks_for_left(key: KeyEvent) -> bool {
    types(key, 'h') || controls(key, 'h')
}

pub open spec fn asks_for_right(key: KeyEvent) -> bool {
    types(key, 'l')
}

pub open spec fn asks_to_redraw(key: KeyEvent) -> bool {
    types(key, 'r') || controls(key, 'l')
}

/// The key asks for a page or a zoom.
pub open spec fn asks_for_a_raster(key: KeyEvent) -> bool {
    asks_for_next(key) || asks_for_previous(key) || asks_for_first(key) || asks_for_last(key)
        || asks_for_more(key) || asks_for_less(key) || asks_to_fit(key)
}

/// The state after a key.
pub open spec fn after(app: AppState, key: KeyEvent) -> AppState {
    app.run(bound_command(key))
}

/// Which keys lead to which action. A key that is none of these does nothing.
pub proof fn law_actions_of_keys(key: KeyEvent)
    ensures
        action_of(bound_command(key)) == Action::Quit <==> asks_to_quit(key),
        action_of(bound_command(key)) == Action::Render <==> asks_for_a_raster(key),
        action_of(bound_command(key)) == Action::Redraw <==> asks_for_left(key) || asks_for_right(
            key,
        ),
        action_of(bound_command(key)) == Action::ForceRedraw <==> asks_to_redraw(key),
        action_of(bound_command(key)) == Action::Nothing <==> !(asks_to_quit(key)
            || asks_for_a_raster(key) || asks_for_left(key) || asks_for_right(key)
            || asks_to_redraw(key)),
{
}

/// A key that is held does what it does when it is pressed.
pub proof fn law_repeats_are_presses(key: KeyEvent)
    ensures
        bound_command(KeyEvent { kind: KeyEventKind::Repeat, ..key }) == bound_command(
            KeyEvent { kind: KeyEventKind::Press, ..key },
        ),
{
}

/// Quitting and keys without a meaning leave everything as it is; a forced
/// drawing only says that there is something to draw.
pub proof fn law_idle_keys(app: AppState, key: KeyEvent)
    ensures
        asks_to_quit(key) ==> after(app, key) == app,
        action_of(bound_command(key)) == Action::Nothing ==> after(app, key) == app,
        asks_to_redraw(key) ==> after(app, key) == (AppState { dirty: true, ..app }),
{
}

/// The next page is the one behind the current one, and the last page has none.
/// It is shown from its top left corner.
pub proof fn law_next_page_keys(app: AppState, key: KeyEvent)
    requires
        asks_for_next(key),
    ensures
        app.current_page + 1 < app.page_count ==> {
            &&& after(app, key).current_page == app.current_page + 1
            &&& after(app, key) == (AppState {
                current_page: after(app, key).current_page,
                offset_x: 0,
                offset_y: 0,
                dirty: true,
                ..app
            })
        },
        app.current_page + 1 >= app.page_count ==> after(app, key) == app,
{
}

/// The previous page is the one before the current one, and the first page has
/// none. It is shown from its top left corner.
pub proof fn law_previous_page_keys(app: AppState, key: KeyEvent)
    requires
        asks_for_previous(key),
    ensures
        app.current_page > 0 ==> {
            &&& after(app, key).current_page + 1 == app.current_page
            &&& after(app, key) == (AppState {
                current_page: after(app, key).current_page,
                offset_x: 0,
                offset_y: 0,
                dirty: true,
                ..app
            })
        },
        app.current_page == 0 ==> after(app, key) == app,
{
}

/// From any page the first page is the one with no page before it.
pub proof fn law_first_page_keys(app: AppState, key: KeyEvent)
    requires
        asks_for_first(key),
    ensures
        after(app, key) == (AppState { current_page: 0, offset_x: 0, dirty: true, ..app }),
{
}

/// From any page the last page is the one with no page behind it.
pub proof fn law_last_page_keys(app: AppState, key: KeyEvent)
    requires
        asks_for_last(key),
    ensures
        app.page_count > 0 ==> after(app, key).current_page + 1 == app.page_count,
        app.page_count == 0 ==> after(app, key).current_page == 0,
        after(app, key) == (AppState {
            current_page: after(app, key).current_page,
            offset_x: 0,
            dirty: true,
            ..app
        }),
{
}

/// The last page is where turning pages ends, and the first page is where turning
/// them back ends, wherever one starts.
pub proof fn law_ends_are_reached(app: AppState, first: AppState)
    requires
        app.page_count > 0,
        first == (AppState { current_page: first.current_page, ..app }),
    ensures
        app.run(Command::LastPage).next_page() == app.run(Command::LastPage),
        app.run(Command::FirstPage).previous_page() == app.run(Command::FirstPage),
        first.run(Command::LastPage).current_page == app.run(Command::LastPage).current_page,
        first.run(Command::FirstPage).current_page == app.run(Command::FirstPage).current_page,
{
}

/// The percentage in force: the fixed one, or the one that fitting comes to.
pub open spec fn percentage(app: AppState) -> int {
    match app.zoom {
        ZoomMode::Fixed(percent) => percent as int,
        ZoomMode::Fit => app.dimensions().2,
    }
}

/// The step is one of the zoom steps, above the percentage in force, and no other
/// step lies between; at the last step it stays there.
pub open spec fn is_next_step(step: u16, percent: int) -> bool {
    &&& ZOOM_STEPS@.contains(step)
    &&& step > percent || (step == 200 && percent >= 200)
    &&& forall|i: int|
        0 <= i < ZOOM_STEPS@.len() && #[trigger] ZOOM_STEPS@[i] > percent ==> step
            <= ZOOM_STEPS@[i]
}

/// The step is one of the zoom steps, below the percentage in force, and no other
/// step lies between; at the first step it stays there.
pub open spec fn is_previous_step(step: u16, percent: int) -> bool {
    &&& ZOOM_STEPS@.contains(step)
    &&& step < percent || (step == 25 && percent <= 25)
    &&& forall|i: int|
        0 <= i < ZOOM_STEPS@.len() && #[trigger] ZOOM_STEPS@[i] < percent ==> step
            >= ZOOM_STEPS@[i]
}

/// Zooming goes to the next step from the percentage in force, and shows the page
/// from its left edge.
pub proof fn law_zoom_keys(app: AppState, key: KeyEvent)
    ensures
        asks_for_more(key) || asks_for_less(key) ==> {
            &&& after(app, key).zoom is Fixed
            &&& after(app, key) == (AppState {
                zoom: after(app, key).zoom,
                offset_x: 0,
                dirty: true,
                ..app
            })
        },
        asks_for_more(key) ==> is_next_step(after(app, key).zoom->Fixed_0, percentage(app)),
        asks_for_less(key) ==> is_previous_step(after(app, key).zoom->Fixed_0, percentage(app)),
        asks_to_fit(key) ==> after(app, key) == (AppState {
            zoom: ZoomMode::Fit,
            offset_x: 0,
            offset_y: 0,
            dirty: true,
            ..app
        }),
{
    let percent = percentage(app) as u16;
    law_zoom_in_takes_next_step(percent);
    law_zoom_out_takes_previous_step(percent);
}

/// The percentage that fitting comes to is from 1 to 65535.
pub proof fn law_fit_percentage_is_counted(app: AppState)
    ensures
        1 <= app.dimensions().2 <= u16::MAX,
        app.zoom_label() == percentage(app),
{
}

/// The label of a zoom is its percentage, or that of fitting.
pub proof fn law_zoom_label(percent: u16, fit_percent: u16)
    ensures
        ZoomMode::Fixed(percent).spec_label(fit_percent) == percent,
        ZoomMode::Fit.spec_label(fit_percent) == fit_percent,
{
}

/// A step of scrolling: an eighth of the width of the pane, and a pixel at least.
pub open spec fn is_scroll_step(step: int, width: u16) -> bool {
    &&& step >= 1
    &&& width < 8 * (step + 1)
    &&& step > 1 ==> 8 * step <= width
}

/// Scrolling to the left goes one step, and stops at the left edge. Scrolling to
/// the right goes one step, and stops where the right edge of the raster meets
/// that of the pane. Neither changes anything else.
pub proof fn law_scroll_keys(app: AppState, key: KeyEvent) -> (step: int)
    ensures
        is_scroll_step(step, app.terminal.width_px),
        asks_for_left(key) || asks_for_right(key) ==> after(app, key) == (AppState {
            offset_x: after(app, key).offset_x,
            dirty: true,
            ..app
        }),
        asks_for_left(key) ==> after(app, key).offset_x == (if app.offset_x > step {
            app.offset_x - step
        } else {
            0
        }),
        asks_for_right(key) && app.offset_x + step + app.terminal.width_px <= app.dimensions().0
            ==> after(app, key).offset_x == app.offset_x + step,
        asks_for_right(key) && app.offset_x + step + app.terminal.width_px > app.dimensions().0
            >= app.terminal.width_px ==> after(app, key).offset_x + app.terminal.width_px
            == app.dimensions().0,
        asks_for_right(key) && app.dimensions().0 < app.terminal.width_px ==> after(
            app,
            key,
        ).offset_x == 0,
{
    app.scroll_step()
}

} // verus!
