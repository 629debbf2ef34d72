//! The decisions of the main loop.
//!
//! The loop waits for an event or a deadline, hands it in here, and carries out
//! the effects that come back, in their order. Points in time are nanoseconds
//! since some fixed moment.

use crate::app::{
    action_of, bound_command, clamp_page, spec_clamp_page, Action, App, AppState, RenderKey,
};
use crate::event::{AppEvent, KeyEvent, TerminalEvent};
use crate::layout::Single;
use crate::pdf::renderer::{Bitmap, RenderEvent, RenderKind, RenderRequest};
use crate::terminal::kitty::{sent_of, Frame, KittyState};
use crate::terminal::session::TerminalSession;
use crate::terminal::size::{less, TerminalSize};
use crate::ui::status;
use std::path::PathBuf;
use vstd::prelude::*;
use vstd::string::*;
use vstd::utf8::encode_utf8;

verus! {

/// A document that changed is reloaded after this much quiet.
pub const FILE_DEBOUNCE: u64 = 75_000_000;

/// The page is rasterized anew this long after the last change of size.
pub const RESIZE_DEBOUNCE: u64 = 50_000_000;

/// Neighbouring pages are asked for after this much quiet.
pub const PREFETCH_IDLE: u64 = 180_000_000;

/// How long to wait before a failed load is tried again, by the number of
/// failures before.
pub const RETRY_DELAYS: [u64; 3] = [50_000_000, 100_000_000, 200_000_000];

/// What is due, and when.
#[derive(Clone, Copy, Debug)]
pub struct Deadlines {
    pub reload: Option<u64>,
    pub retry: Option<u64>,
    pub resize: Option<u64>,
    pub prefetch: Option<u64>,
}

pub open spec fn earlier(a: Option<u64>, b: Option<u64>) -> Option<u64> {
    match (a, b) {
        (Some(x), Some(y)) => if x <= y {
            Some(x)
        } else {
            Some(y)
        },
        (Some(x), None) => Some(x),
        (None, _) => b,
    }
}

fn first_of(a: Option<u64>, b: Option<u64>) -> (r: Option<u64>)
    ensures
        r == earlier(a, b),
{
    match (a, b) {
        (Some(x), Some(y)) => if x <= y {
            Some(x)
        } else {
            Some(y)
        },
        (Some(x), None) => Some(x),
        (None, b) => b,
    }
}

pub open spec fn due(deadline: Option<u64>, now: u64) -> bool {
    deadline matches Some(at) && at <= now
}

fn is_due(deadline: Option<u64>, now: u64) -> (r: bool)
    ensures
        r == due(deadline, now),
{
    match deadline {
        Some(at) => at <= now,
        None => false,
    }
}

impl Deadlines {
    /// Nothing is due.
    pub open spec fn none() -> Self {
        Deadlines { reload: None, retry: None, resize: None, prefetch: None }
    }

    pub open spec fn spec_next(self) -> Option<u64> {
        earlier(earlier(self.reload, self.retry), earlier(self.resize, self.prefetch))
    }

    /// The earliest deadline.
    pub fn next(&self) -> (r: Option<u64>)
        ensures
            r == self.spec_next(),
    {
        first_of(first_of(self.reload, self.retry), first_of(self.resize, self.prefetch))
    }

    pub open spec fn spec_wait(self, now: u64) -> Option<u64> {
        match self.spec_next() {
            Some(at) => Some(less(at as int, now as int) as u64),
            None => None,
        }
    }

    /// How long to wait for an event: until the earliest deadline, or without
    /// end.
    pub fn wait(&self, now: u64) -> (r: Option<u64>)
        ensures
            r == match self.spec_next() {
                Some(at) => Some(less(at as int, now as int) as u64),
                None => None,
            },
            r == self.spec_wait(now),
    {
        match self.next() {
            Some(at) => Some(at.saturating_sub(now)),
            None => None,
        }
    }
}

impl Default for Deadlines {
    fn default() -> (r: Self)
        ensures
            r == Deadlines::none(),
    {
        Deadlines { reload: None, retry: None, resize: None, prefetch: None }
    }
}

/// What the main loop is to do.
#[derive(Debug)]
pub enum Effect {
    /// Have a page rasterized.
    Request(RenderRequest),
    /// Draw the page and the status line; send the page anew where forced.
    Redraw { force: bool },
    Quit,
}

/// The request for a page, unless its bitmap is at hand.
pub open spec fn spec_request_page(
    path: PathBuf,
    app: AppState,
    page: usize,
    kind: RenderKind,
) -> Option<RenderRequest> {
    if app.cached.contains_key(app.render_key(page)) {
        None
    } else {
        Some(RenderRequest { path, key: app.render_key(page), kind })
    }
}

/// Asks for a page, unless its bitmap is at hand.
pub fn request_page(path: &PathBuf, app: &App, page: usize, kind: RenderKind) -> (r: Option<
    RenderRequest,
>)
    ensures
        r == spec_request_page(*path, app@, page, kind),
{
    if app.has_bitmap(page) {
        None
    } else {
        Some(RenderRequest { path: path.clone(), key: app.render_key(page), kind })
    }
}

pub open spec fn as_effects(request: Option<RenderRequest>) -> Seq<Effect> {
    match request {
        Some(request) => seq![Effect::Request(request)],
        None => Seq::empty(),
    }
}

fn push_request(effects: &mut Vec<Effect>, request: Option<RenderRequest>)
    ensures
        final(effects)@ == old(effects)@ + as_effects(request),
{
    match request {
        Some(request) => {
            effects.push(Effect::Request(request));
            assert(effects@ =~= old(effects)@ + as_effects(Some(request)));
        },
        None => {
            assert(effects@ =~= old(effects)@ + as_effects(None));
        },
    }
}

/// The requests for the pages before and behind the current one.
pub open spec fn neighbor_effects(path: PathBuf, app: AppState) -> Seq<Effect> {
    (if app.has_previous_page() {
        as_effects(
            spec_request_page(path, app, (app.current_page - 1) as usize, RenderKind::Prefetch),
        )
    } else {
        Seq::empty()
    }) + (if app.has_next_page() {
        as_effects(
            spec_request_page(path, app, (app.current_page + 1) as usize, RenderKind::Prefetch),
        )
    } else {
        Seq::empty()
    })
}

/// Asks for the pages before and behind the current one.
pub fn request_neighbors(path: &PathBuf, app: &App) -> (r: Vec<Effect>)
    ensures
        r@ == neighbor_effects(*path, app@),
{
    let mut effects: Vec<Effect> = Vec::new();
    if app.current_page > 0 {
        push_request(
            &mut effects,
            request_page(path, app, app.current_page - 1, RenderKind::Prefetch),
        );
    }
    if app.page_count > 0 && app.current_page < app.page_count - 1 {
        push_request(
            &mut effects,
            request_page(path, app, app.current_page + 1, RenderKind::Prefetch),
        );
    }
    assert(effects@ =~= neighbor_effects(*path, app@));
    effects
}

/// The state of the main loop.
#[verifier::ext_equal]
pub struct ViewerState {
    pub path: PathBuf,
    pub app: AppState,
    pub deadlines: Deadlines,
    /// Failures to load since the last success.
    pub retry_index: usize,
}

/// A point in time from which every delay can be counted.
pub open spec fn countable(now: u64) -> bool {
    now + 200_000_000 <= u64::MAX
}

/// The point in time `delay` after `now`.
pub open spec fn after(now: u64, delay: int) -> Option<u64> {
    Some((now + delay) as u64)
}

impl ViewerState {
    /// Before anything has happened.
    pub open spec fn initial(path: PathBuf, app: AppState) -> Self {
        ViewerState { path, app, deadlines: Deadlines::none(), retry_index: 0 }
    }

    /// What comes of an event before anything is shown.
    pub open spec fn on_bootstrap(self, event: AppEvent) -> (Self, Startup) {
        match event {
            AppEvent::Render(RenderEvent::Ready { key, bitmap, page_count, page_size_points }) => {
                let sized = self.app.set_document(page_count, page_size_points);
                if key == sized.render_key(sized.current_page) {
                    (
                        ViewerState { app: sized.insert_bitmap(key, bitmap), ..self },
                        Startup::Ready,
                    )
                } else {
                    (ViewerState { app: sized, ..self }, Startup::Waiting)
                }
            },
            AppEvent::Render(RenderEvent::Failed { key: _, message }) => (
                self,
                Startup::Failed(message),
            ),
            _ => (self, Startup::Waiting),
        }
    }

    /// What is written for the page, where its bitmap is at hand, given the images
    /// that the terminal was sent.
    pub open spec fn image_text(self, images: KittyState, force: bool) -> Option<Seq<char>> {
        let key = self.app.render_key(self.app.current_page);
        if self.app.cached.contains_key(key) {
            Some(
                images.draw_sequence(
                    self.app.cached[key]@,
                    self.app.terminal,
                    self.app.offset_x,
                    self.app.offset_y,
                    force,
                ),
            )
        } else {
            None
        }
    }

    /// Nothing has changed since the last drawing.
    pub open spec fn drawn(self) -> Self {
        ViewerState { app: AppState { dirty: false, ..self.app }, ..self }
    }

    /// The request for the current page, unless its bitmap is at hand.
    pub open spec fn current_request(self) -> Option<RenderRequest> {
        spec_request_page(self.path, self.app, self.app.current_page, RenderKind::Current)
    }

    /// Input puts off what waits for input to cease.
    pub open spec fn touch(self, now: u64) -> Self {
        if self.deadlines.prefetch is Some {
            self.prefetch_at(now)
        } else {
            self
        }
    }

    pub open spec fn prefetch_at(self, now: u64) -> Self {
        ViewerState {
            deadlines: Deadlines { prefetch: after(now, PREFETCH_IDLE as int), ..self.deadlines },
            ..self
        }
    }

    pub open spec fn with_status(self, status: Seq<char>) -> Self {
        ViewerState { app: AppState { status: Some(status), ..self.app }, ..self }
    }

    pub open spec fn on_key(self, key: KeyEvent, now: u64) -> (Self, Seq<Effect>) {
        let command = bound_command(key);
        let touched = self.touch(now);
        let ran = ViewerState { app: touched.app.run(command), ..touched };
        match action_of(command) {
            Action::Nothing => (ran, Seq::empty()),
            Action::Quit => (ran, seq![Effect::Quit]),
            Action::Redraw => (ran, seq![Effect::Redraw { force: false }]),
            Action::ForceRedraw => (ran, seq![Effect::Redraw { force: true }]),
            Action::Render => {
                let request = ran.current_request();
                let shown = match request {
                    Some(_) => ran.with_status("rendering…"@),
                    None => ran,
                };
                (
                    shown.prefetch_at(now),
                    as_effects(request) + seq![Effect::Redraw { force: false }],
                )
            },
        }
    }

    pub open spec fn on_resize(self, size: TerminalSize, now: u64) -> (Self, Seq<Effect>) {
        (
            ViewerState {
                app: self.app.resize(size),
                deadlines: Deadlines {
                    resize: after(now, RESIZE_DEBOUNCE as int),
                    prefetch: None,
                    ..self.deadlines
                },
                ..self
            },
            seq![Effect::Redraw { force: false }],
        )
    }

    pub open spec fn on_file_changed(self, now: u64) -> (Self, Seq<Effect>) {
        (
            ViewerState {
                deadlines: Deadlines {
                    reload: after(now, FILE_DEBOUNCE as int),
                    retry: None,
                    prefetch: None,
                    ..self.deadlines
                },
                ..self
            },
            Seq::empty(),
        )
    }

    pub open spec fn on_watch_error(self, message: Seq<char>) -> (Self, Seq<Effect>) {
        (self.with_status("watch: "@ + message), seq![Effect::Redraw { force: false }])
    }

    /// A bitmap came in.
    ///
    /// One of another generation is dropped. One of the current page, or of the
    /// last page where the document has become too short, brings the size of
    /// the page with it: where it does not have the dimensions that follow, the
    /// page is asked for again.
    pub open spec fn on_ready(
        self,
        key: RenderKey,
        bitmap: Bitmap,
        page_count: usize,
        page_size_points: (Single, Single),
        now: u64,
    ) -> (Self, Seq<Effect>) {
        let current = spec_clamp_page(self.app.current_page as int, page_count as int);
        if key.generation != self.app.generation {
            (self, Seq::empty())
        } else if key.page == self.app.current_page || key.page == current {
            let sized = ViewerState {
                app: self.app.set_document(page_count, page_size_points),
                ..self
            };
            if key != sized.app.render_key(sized.app.current_page) {
                (sized, as_effects(sized.current_request()))
            } else {
                (
                    ViewerState {
                        app: sized.app.insert_bitmap(key, bitmap),
                        retry_index: 0,
                        ..sized
                    }.prefetch_at(now),
                    seq![Effect::Redraw { force: false }],
                )
            }
        } else {
            (
                ViewerState {
                    app: AppState { page_count, ..self.app }.insert_bitmap(key, bitmap),
                    ..self
                },
                Seq::empty(),
            )
        }
    }

    /// A page could not be rasterized. The current page is tried again as long
    /// as there are delays left.
    pub open spec fn on_failed(self, key: RenderKey, message: Seq<char>, now: u64) -> (
        Self,
        Seq<Effect>,
    ) {
        if key.generation != self.app.generation || key.page != self.app.current_page {
            (self, Seq::empty())
        } else {
            let told = self.with_status("reload failed: "@ + message);
            (
                if self.retry_index < RETRY_DELAYS@.len() {
                    ViewerState {
                        deadlines: Deadlines {
                            retry: after(now, RETRY_DELAYS@[self.retry_index as int] as int),
                            ..self.deadlines
                        },
                        retry_index: (self.retry_index + 1) as usize,
                        ..told
                    }
                } else {
                    told
                },
                seq![Effect::Redraw { force: false }],
            )
        }
    }

    /// What comes of an event.
    pub open spec fn on_event(self, event: AppEvent, now: u64) -> (Self, Seq<Effect>) {
        match event {
            AppEvent::Terminal(TerminalEvent::Key(key)) => self.on_key(key, now),
            AppEvent::Terminal(TerminalEvent::Resize(Some(size))) => self.on_resize(size, now),
            AppEvent::Terminal(_) => (self, Seq::empty()),
            AppEvent::FileChanged => self.on_file_changed(now),
            AppEvent::WatchError(message) => self.on_watch_error(message@),
            AppEvent::Render(RenderEvent::Ready { key, bitmap, page_count, page_size_points }) =>
                self.on_ready(key, bitmap, page_count, page_size_points, now),
            AppEvent::Render(RenderEvent::Failed { key, message }) => self.on_failed(
                key,
                message@,
                now,
            ),
        }
    }

    /// The deadlines that are over are taken down, and a reload begins.
    pub open spec fn expire(self, now: u64) -> Self {
        let d = self.deadlines;
        let reload = due(d.reload, now);
        ViewerState {
            app: if reload {
                self.app.reload()
            } else {
                self.app
            },
            deadlines: Deadlines {
                reload: if reload {
                    None
                } else {
                    d.reload
                },
                retry: if due(d.retry, now) {
                    None
                } else {
                    d.retry
                },
                resize: if due(d.resize, now) {
                    None
                } else {
                    d.resize
                },
                prefetch: if due(d.prefetch, now) {
                    None
                } else {
                    d.prefetch
                },
            },
            retry_index: if reload {
                0
            } else {
                self.retry_index
            },
            ..self
        }
    }

    /// What comes of the deadlines that are over.
    pub open spec fn on_timers(self, now: u64) -> (Self, Seq<Effect>) {
        let d = self.deadlines;
        let expired = self.expire(now);
        let current = if due(d.reload, now) || due(d.resize, now) || due(d.retry, now) {
            as_effects(expired.current_request()) + seq![Effect::Redraw { force: false }]
        } else {
            Seq::empty()
        };
        let neighbors = if due(d.prefetch, now) {
            neighbor_effects(expired.path, expired.app)
        } else {
            Seq::empty()
        };
        (expired, current + neighbors)
    }
}

/// The main loop between two events.
#[derive(Debug)]
pub struct Viewer {
    pub path: PathBuf,
    pub app: App,
    pub deadlines: Deadlines,
    pub retry_index: usize,
}

impl View for Viewer {
    type V = ViewerState;

    open spec fn view(&self) -> ViewerState {
        ViewerState {
            path: self.path,
            app: self.app@,
            deadlines: self.deadlines,
            retry_index: self.retry_index,
        }
    }
}

fn redraw_effect(force: bool) -> (r: Vec<Effect>)
    ensures
        r@ == seq![Effect::Redraw { force }],
{
    let mut effects: Vec<Effect> = Vec::new();
    effects.push(Effect::Redraw { force });
    assert(effects@ =~= seq![Effect::Redraw { force }]);
    effects
}

fn labelled(label: &str, message: &str) -> (r: String)
    ensures
        r@ == label@ + message@,
{
    let mut text = label.to_owned();
    text.append(message);
    text
}

/// How far the start has come.
#[derive(Debug)]
pub enum Startup {
    /// Ask for the page, and wait.
    Waiting,
    Ready,
    Failed(String),
}

/// What is written for a drawing.
pub struct Drawing {
    /// The page, where its bitmap is at hand.
    pub image: Option<Frame>,
    /// The status line.
    pub status: Vec<u8>,
}

impl Viewer {
    /// Nothing is due yet.
    pub fn new(path: PathBuf, app: App) -> (r: Self)
        ensures
            r@ == (ViewerState {
                path,
                app: app@,
                deadlines: Deadlines::none(),
                retry_index: 0,
            }),
            r@ == ViewerState::initial(path, app@),
    {
        Viewer { path, app, deadlines: Deadlines::default(), retry_index: 0 }
    }

    fn current_request(&self) -> (r: Option<RenderRequest>)
        ensures
            r == self@.current_request(),
    {
        request_page(&self.path, &self.app, self.app.current_page, RenderKind::Current)
    }

    fn prefetch_at(&mut self, now: u64)
        requires
            countable(now),
        ensures
            final(self)@ == old(self)@.prefetch_at(now),
    {
        self.deadlines.prefetch = Some(now + PREFETCH_IDLE);
    }

    /// The request that the start waits for.
    pub fn bootstrap_request(&self) -> (r: Option<RenderRequest>)
        ensures
            r == self@.current_request(),
    {
        self.current_request()
    }

    /// Takes in an event before anything is shown. The start is over once the
    /// bitmap of the first page, in the dimensions of that page, is at hand.
    pub fn bootstrap(&mut self, event: AppEvent) -> (r: Startup)
        ensures
            match event {
                AppEvent::Render(RenderEvent::Ready { key, bitmap, page_count, page_size_points })
                    => {
                    let sized = old(self)@.app.set_document(page_count, page_size_points);
                    if key == sized.render_key(sized.current_page) {
                        &&& r == Startup::Ready
                        &&& final(self)@ == (ViewerState {
                            app: sized.insert_bitmap(key, bitmap),
                            ..old(self)@
                        })
                    } else {
                        &&& r == Startup::Waiting
                        &&& final(self)@ == (ViewerState { app: sized, ..old(self)@ })
                    }
                },
                AppEvent::Render(RenderEvent::Failed { key, message }) => {
                    &&& r == Startup::Failed(message)
                    &&& final(self)@ == old(self)@
                },
                _ => r == Startup::Waiting && final(self)@ == old(self)@,
            },
            (final(self)@, r) == old(self)@.on_bootstrap(event),
    {
        match event {
            AppEvent::Render(RenderEvent::Ready { key, bitmap, page_count, page_size_points }) => {
                self.app.set_document(page_count, page_size_points);
                let expected = self.app.render_key(self.app.current_page);
                if key == expected {
                    self.app.insert_bitmap(key, bitmap);
                    Startup::Ready
                } else {
                    Startup::Waiting
                }
            },
            AppEvent::Render(RenderEvent::Failed { key: _, message }) => Startup::Failed(message),
            _ => Startup::Waiting,
        }
    }

    /// The page is on display: its neighbours come next.
    pub fn start(&mut self, now: u64)
        requires
            countable(now),
        ensures
            final(self)@ == old(self)@.prefetch_at(now),
    {
        self.prefetch_at(now);
    }

    fn on_key(&mut self, key: KeyEvent, now: u64) -> (r: Vec<Effect>)
        requires
            countable(now),
        ensures
            (final(self)@, r@) == old(self)@.on_key(key, now),
    {
        if self.deadlines.prefetch.is_some() {
            self.prefetch_at(now);
        }
        match self.app.handle_key(key) {
            Action::Nothing => Vec::new(),
            Action::Quit => {
                let mut effects: Vec<Effect> = Vec::new();
                effects.push(Effect::Quit);
                assert(effects@ =~= seq![Effect::Quit]);
                effects
            },
            Action::Redraw => redraw_effect(false),
            Action::ForceRedraw => redraw_effect(true),
            Action::Render => {
                let mut effects: Vec<Effect> = Vec::new();
                let request = self.current_request();
                if request.is_some() {
                    self.app.status = Some("rendering…".to_owned());
                }
                push_request(&mut effects, request);
                effects.push(Effect::Redraw { force: false });
                self.prefetch_at(now);
                assert(effects@ =~= as_effects(request) + seq![Effect::Redraw { force: false }]);
                effects
            },
        }
    }

    fn on_ready(
        &mut self,
        key: RenderKey,
        bitmap: Bitmap,
        page_count: usize,
        page_size_points: (Single, Single),
        now: u64,
    ) -> (r: Vec<Effect>)
        requires
            countable(now),
        ensures
            (final(self)@, r@) == old(self)@.on_ready(
                key,
                bitmap,
                page_count,
                page_size_points,
                now,
            ),
    {
        let mut effects: Vec<Effect> = Vec::new();
        if key.generation != self.app.generation {
            return effects;
        }
        let current = clamp_page(self.app.current_page, page_count);
        if key.page == self.app.current_page || key.page == current {
            self.app.set_document(page_count, page_size_points);
            let expected = self.app.render_key(self.app.current_page);
            if key != expected {
                let request = self.current_request();
                push_request(&mut effects, request);
                assert(effects@ =~= as_effects(request));
                return effects;
            }
            self.app.insert_bitmap(key, bitmap);
            self.retry_index = 0;
            self.prefetch_at(now);
            return redraw_effect(false);
        }
        self.app.page_count = page_count;
        self.app.insert_bitmap(key, bitmap);
        effects
    }

    fn on_failed(&mut self, key: RenderKey, message: String, now: u64) -> (r: Vec<Effect>)
        requires
            countable(now),
        ensures
            (final(self)@, r@) == old(self)@.on_failed(key, message@, now),
    {
        if key.generation != self.app.generation || key.page != self.app.current_page {
            return Vec::new();
        }
        self.app.status = Some(labelled("reload failed: ", message.as_str()));
        if self.retry_index < RETRY_DELAYS.len() {
            let delay: u64 = RETRY_DELAYS[self.retry_index];
            assert(RETRY_DELAYS@[0] == 50_000_000 && RETRY_DELAYS@[1] == 100_000_000
                && RETRY_DELAYS@[2] == 200_000_000);
            self.deadlines.retry = Some(now + delay);
            self.retry_index = self.retry_index + 1;
        }
        redraw_effect(false)
    }

    /// Takes in an event.
    pub fn handle_event(&mut self, event: AppEvent, now: u64) -> (r: Vec<Effect>)
        requires
            countable(now),
        ensures
            (final(self)@, r@) == old(self)@.on_event(event, now),
    {
        match event {
            AppEvent::Terminal(TerminalEvent::Key(key)) => self.on_key(key, now),
            AppEvent::Terminal(TerminalEvent::Resize(Some(size))) => {
                self.app.resize(size);
                self.deadlines.resize = Some(now + RESIZE_DEBOUNCE);
                self.deadlines.prefetch = None;
                redraw_effect(false)
            },
            AppEvent::Terminal(_) => Vec::new(),
            AppEvent::FileChanged => {
                self.deadlines.reload = Some(now + FILE_DEBOUNCE);
                self.deadlines.retry = None;
                self.deadlines.prefetch = None;
                Vec::new()
            },
            AppEvent::WatchError(message) => {
                self.app.status = Some(labelled("watch: ", message.as_str()));
                redraw_effect(false)
            },
            AppEvent::Render(RenderEvent::Ready { key, bitmap, page_count, page_size_points }) =>
                self.on_ready(key, bitmap, page_count, page_size_points, now),
            AppEvent::Render(RenderEvent::Failed { key, message }) => self.on_failed(
                key,
                message,
                now,
            ),
        }
    }

    /// Acts on the deadlines that are over.
    pub fn process_timers(&mut self, now: u64) -> (r: Vec<Effect>)
        ensures
            (final(self)@, r@) == old(self)@.on_timers(now),
    {
        let reload_due = is_due(self.deadlines.reload, now);
        let resize_due = is_due(self.deadlines.resize, now);
        let retry_due = is_due(self.deadlines.retry, now);
        let prefetch_due = is_due(self.deadlines.prefetch, now);
        if reload_due {
            self.deadlines.reload = None;
            self.app.reload();
            self.retry_index = 0;
        }
        if resize_due {
            self.deadlines.resize = None;
        }
        if retry_due {
            self.deadlines.retry = None;
        }
        if prefetch_due {
            self.deadlines.prefetch = None;
        }
        let mut effects: Vec<Effect> = Vec::new();
        if reload_due || resize_due || retry_due {
            let request = self.current_request();
            push_request(&mut effects, request);
            effects.push(Effect::Redraw { force: false });
        }
        if prefetch_due {
            let mut neighbors = request_neighbors(&self.path, &self.app);
            effects.append(&mut neighbors);
        }
        assert(effects@ =~= old(self)@.on_timers(now).1);
        effects
    }

    /// Draws the page and the status line. Afterwards nothing has changed since
    /// the last drawing.
    pub fn redraw(
        &mut self,
        session: &mut TerminalSession,
        filename: Option<&str>,
        force_transmit: bool,
    ) -> (r: Drawing)
        ensures
            final(self)@ == (ViewerState {
                app: AppState { dirty: false, ..old(self)@.app },
                ..old(self)@
            }),
            ({
                let app = old(self)@.app;
                let key = app.render_key(app.current_page);
                match r.image {
                    Some(frame) => {
                        &&& app.cached.contains_key(key)
                        &&& frame.bytes@ == encode_utf8(
                            old(session).kitty@.draw_sequence(
                                app.cached[key]@,
                                app.terminal,
                                app.offset_x,
                                app.offset_y,
                                force_transmit,
                            ),
                        )
                        &&& frame.sent == if old(session).kitty@.shows(app.cached[key]@)
                            && !force_transmit {
                            None
                        } else {
                            Some(sent_of(app.cached[key]@))
                        }
                        &&& frame.replaced == old(session).kitty@.replaced(
                            app.cached[key]@,
                            force_transmit,
                        )
                        &&& final(session).kitty@ == old(session).kitty@.draw(
                            app.cached[key]@,
                            force_transmit,
                        )
                    },
                    None => {
                        &&& !app.cached.contains_key(key)
                        &&& final(session).kitty@ == old(session).kitty@
                    },
                }
            }),
            final(self)@ == old(self)@.drawn(),
            match r.image {
                Some(frame) => old(self)@.image_text(old(session).kitty@, force_transmit) matches Some(
                    text,
                ) && frame.bytes@ == encode_utf8(text),
                None => old(self)@.image_text(old(session).kitty@, force_transmit) is None,
            },
            r.status@ == encode_utf8(
                status::status_sequence(
                    old(self)@.app,
                    match filename {
                        Some(name) => Some(name@),
                        None => None,
                    },
                ),
            ),
    {
        let image = match self.app.current_bitmap() {
            Some(bitmap) => Some(
                session.draw_image(
                    bitmap,
                    self.app.terminal,
                    self.app.offset_x,
                    self.app.offset_y,
                    force_transmit,
                ),
            ),
            None => None,
        };
        let status = status::draw(&self.app, filename);
        self.app.dirty = false;
        Drawing { image, status }
    }
}

} // verus!
