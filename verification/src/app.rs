//! Navigation, zoom, offsets and the bitmap cache.

use crate::cache::{near, BitmapCache};
use crate::event::{KeyCode, KeyEvent, KeyEventKind};
use crate::layout::{
    compute_extent, compute_fit_scale, compute_fixed_scale, compute_percent, fit_scale,
    fixed_scale, scale_percent, scaled_extent, Scale, Single,
};
use crate::float::Fraction;
use crate::pdf::renderer::Bitmap;
use crate::terminal::size::{at_least_one, less, smaller, TerminalSize};
use vstd::prelude::*;

verus! {

/// The percentages that zooming steps through.
pub const ZOOM_STEPS: [u16; 7] = [25, 50, 75, 100, 125, 150, 200];

#[derive(Clone, Copy, Debug, PartialEq, Eq, Hash, Structural)]
pub enum ZoomMode {
    /// The page is fitted to the pane.
    Fit,
    /// A percentage of 96 pixels to the inch.
    Fixed(u16),
}

/// The least zoom step above `current`, or the last step.
pub open spec fn step_above(current: u16) -> u16 {
    if current < 25 {
        25
    } else if current < 50 {
        50
    } else if current < 75 {
        75
    } else if current < 100 {
        100
    } else if current < 125 {
        125
    } else if current < 150 {
        150
    } else {
        200
    }
}

/// The greatest zoom step below `current`, or the first step.
pub open spec fn step_below(current: u16) -> u16 {
    if current > 200 {
        200
    } else if current > 150 {
        150
    } else if current > 125 {
        125
    } else if current > 100 {
        100
    } else if current > 75 {
        75
    } else if current > 50 {
        50
    } else {
        25
    }
}

impl ZoomMode {
    pub open spec fn spec_label(self, fit_percent: u16) -> u16 {
        match self {
            ZoomMode::Fit => fit_percent,
            ZoomMode::Fixed(percent) => percent,
        }
    }

    /// The percentage in force, where fitting comes to `fit_percent`.
    pub fn label(self, fit_percent: u16) -> (r: u16)
        ensures
            r == self.spec_label(fit_percent),
    {
        match self {
            ZoomMode::Fit => fit_percent,
            ZoomMode::Fixed(percent) => percent,
        }
    }

    pub fn zoom_in(&mut self, fit_percent: u16)
        ensures
            *final(self) == ZoomMode::Fixed(step_above(old(self).spec_label(fit_percent))),
    {
        let current = self.label(fit_percent);
        let mut i: usize = 0;
        while i < 6 && ZOOM_STEPS[i] <= current
            invariant
                0 <= i <= 6,
                forall|j: int| 0 <= j < i ==> #[trigger] ZOOM_STEPS@[j] <= current,
            decreases 6 - i,
        {
            i = i + 1;
        }
        assert(ZOOM_STEPS@[0] == 25 && ZOOM_STEPS@[1] == 50 && ZOOM_STEPS@[2] == 75
            && ZOOM_STEPS@[3] == 100 && ZOOM_STEPS@[4] == 125 && ZOOM_STEPS@[5] == 150
            && ZOOM_STEPS@[6] == 200);
        *self = ZoomMode::Fixed(ZOOM_STEPS[i]);
    }

    pub fn zoom_out(&mut self, fit_percent: u16)
        ensures
            *final(self) == ZoomMode::Fixed(step_below(old(self).spec_label(fit_percent))),
    {
        let current = self.label(fit_percent);
        let mut i: usize = 6;
        while i > 0 && ZOOM_STEPS[i] >= current
            invariant
                0 <= i <= 6,
                forall|j: int| i < j <= 6 ==> #[trigger] ZOOM_STEPS@[j] >= current,
            decreases i,
        {
            i = i - 1;
        }
        assert(ZOOM_STEPS@[0] == 25 && ZOOM_STEPS@[1] == 50 && ZOOM_STEPS@[2] == 75
            && ZOOM_STEPS@[3] == 100 && ZOOM_STEPS@[4] == 125 && ZOOM_STEPS@[5] == 150
            && ZOOM_STEPS@[6] == 200);
        *self = ZoomMode::Fixed(ZOOM_STEPS[i]);
    }
}

/// What a bitmap is a bitmap of.
#[derive(Clone, Copy, Debug, PartialEq, Eq, Hash, Structural)]
pub struct RenderKey {
    /// Counts the reloads of the document.
    pub generation: u64,
    pub page: usize,
    pub width: u32,
    pub height: u32,
}

/// What a key asks of the main loop.
#[derive(Clone, Copy, Debug, PartialEq, Eq, Structural)]
pub enum Action {
    Nothing,
    Quit,
    /// Show the page, rasterized anew where no bitmap of it is at hand.
    Render,
    /// Place the page anew.
    Redraw,
    /// Send the page to the terminal anew.
    ForceRedraw,
}

/// What a key is bound to.
#[derive(Clone, Copy, Debug, PartialEq, Eq, Structural)]
pub enum Command {
    Unbound,
    Quit,
    NextPage,
    PreviousPage,
    FirstPage,
    LastPage,
    ZoomIn,
    ZoomOut,
    Fit,
    ScrollLeft,
    ScrollRight,
    ForceRedraw,
}

/// The key bindings. The release of a key does nothing.
pub open spec fn bound_command(key: KeyEvent) -> Command {
    if key.kind == KeyEventKind::Release {
        Command::Unbound
    } else {
        match key.code {
            KeyCode::Down => Command::NextPage,
            KeyCode::PageDown => Command::NextPage,
            KeyCode::Up => Command::PreviousPage,
            KeyCode::PageUp => Command::PreviousPage,
            KeyCode::Home => Command::FirstPage,
            KeyCode::End => Command::LastPage,
            KeyCode::Other => Command::Unbound,
            KeyCode::Char(c) => if key.control {
                bound_to_control(c)
            } else {
                bound_to_char(c)
            },
        }
    }
}

pub open spec fn bound_to_control(c: char) -> Command {
    if c == 'c' {
        Command::Quit
    } else if c == 'd' {
        Command::NextPage
    } else if c == 'u' {
        Command::PreviousPage
    } else if c == 'h' {
        Command::ScrollLeft
    } else if c == 'l' {
        Command::ForceRedraw
    } else {
        Command::Unbound
    }
}

pub open spec fn bound_to_char(c: char) -> Command {
    if c == 'q' {
        Command::Quit
    } else if c == 'j' {
        Command::NextPage
    } else if c == 'k' {
        Command::PreviousPage
    } else if c == 'g' {
        Command::FirstPage
    } else if c == 'G' {
        Command::LastPage
    } else if c == '+' || c == '=' {
        Command::ZoomIn
    } else if c == '-' {
        Command::ZoomOut
    } else if c == '0' {
        Command::Fit
    } else if c == 'h' {
        Command::ScrollLeft
    } else if c == 'l' {
        Command::ScrollRight
    } else if c == 'r' {
        Command::ForceRedraw
    } else {
        Command::Unbound
    }
}

pub open spec fn action_of(command: Command) -> Action {
    match command {
        Command::Unbound => Action::Nothing,
        Command::Quit => Action::Quit,
        Command::ScrollLeft => Action::Redraw,
        Command::ScrollRight => Action::Redraw,
        Command::ForceRedraw => Action::ForceRedraw,
        _ => Action::Render,
    }
}

/// The command that a key is bound to.
pub fn command(key: KeyEvent) -> (r: Command)
    ensures
        r == bound_command(key),
{
    if key.kind == KeyEventKind::Release {
        return Command::Unbound;
    }
    match (key.code, key.control) {
        (KeyCode::Char('q'), false) | (KeyCode::Char('c'), true) => Command::Quit,
        (KeyCode::Char('j'), false)
        | (KeyCode::Down, _)
        | (KeyCode::PageDown, _)
        | (KeyCode::Char('d'), true) => Command::NextPage,
        (KeyCode::Char('k'), false)
        | (KeyCode::Up, _)
        | (KeyCode::PageUp, _)
        | (KeyCode::Char('u'), true) => Command::PreviousPage,
        (KeyCode::Char('g'), false) | (KeyCode::Home, _) => Command::FirstPage,
        (KeyCode::Char('G'), false) | (KeyCode::End, _) => Command::LastPage,
        (KeyCode::Char('+'), false) | (KeyCode::Char('='), false) => Command::ZoomIn,
        (KeyCode::Char('-'), false) => Command::ZoomOut,
        (KeyCode::Char('0'), false) => Command::Fit,
        (KeyCode::Char('h'), _) => Command::ScrollLeft,
        (KeyCode::Char('l'), false) => Command::ScrollRight,
        (KeyCode::Char('r'), false) | (KeyCode::Char('l'), true) => Command::ForceRedraw,
        _ => Command::Unbound,
    }
}

pub open spec fn spec_clamp_page(page: int, page_count: int) -> int {
    smaller(page, less(page_count, 1))
}

/// The page, or the last page where there are not so many.
pub fn clamp_page(page: usize, page_count: usize) -> (r: usize)
    ensures
        r == spec_clamp_page(page as int, page_count as int),
{
    let last = page_count.saturating_sub(1);
    if page < last {
        page
    } else {
        last
    }
}

/// The factor from points to pixels.
pub open spec fn zoom_scale(
    page_points: (Single, Single),
    viewport_pixels: (int, int),
    zoom: ZoomMode,
) -> Scale<Fraction> {
    match zoom {
        ZoomMode::Fit => fit_scale(
            (page_points.0@, page_points.1@),
            (viewport_pixels.0 as nat, viewport_pixels.1 as nat),
        ),
        ZoomMode::Fixed(percent) => fixed_scale(percent as nat),
    }
}

pub open spec fn spec_render_dimensions(
    page_points: (Single, Single),
    viewport_pixels: (int, int),
    zoom: ZoomMode,
) -> (int, int, int) {
    let scale = zoom_scale(page_points, viewport_pixels, zoom);
    (
        scaled_extent(page_points.0@, scale),
        scaled_extent(page_points.1@, scale),
        scale_percent(zoom_scale(page_points, viewport_pixels, ZoomMode::Fit)),
    )
}

/// Width and height of the raster of a page, and the percentage that fitting
/// comes to.
pub fn render_dimensions(
    page_points: (Single, Single),
    viewport_pixels: (u32, u32),
    zoom: ZoomMode,
) -> (r: (u32, u32, u16))
    ensures
        (r.0 as int, r.1 as int, r.2 as int) == spec_render_dimensions(
            page_points,
            (viewport_pixels.0 as int, viewport_pixels.1 as int),
            zoom,
        ),
{
    let page_w = page_points.0.number();
    let page_h = page_points.1.number();
    let fit = compute_fit_scale((&page_w, &page_h), viewport_pixels);
    let percent = compute_percent(&fit);
    let scale = match zoom {
        ZoomMode::Fit => fit,
        ZoomMode::Fixed(percent) => compute_fixed_scale(percent),
    };
    (compute_extent(&page_w, &scale), compute_extent(&page_h, &scale), percent)
}

/// 612 points, the width of a letter page, in single precision.
pub const DEFAULT_WIDTH_BITS: u32 = 0x4419_0000;

/// 792 points, the height of a letter page, in single precision.
pub const DEFAULT_HEIGHT_BITS: u32 = 0x4446_0000;

/// The state of the viewer.
#[verifier::ext_equal]
pub struct AppState {
    pub current_page: usize,
    pub page_count: usize,
    pub page_size_points: (Single, Single),
    pub zoom: ZoomMode,
    pub offset_x: u32,
    pub offset_y: u32,
    pub terminal: TerminalSize,
    pub generation: u64,
    pub dirty: bool,
    pub status: Option<Seq<char>>,
    pub cached: Map<RenderKey, Bitmap>,
}

impl AppState {
    /// Nothing is loaded yet.
    pub open spec fn initial(terminal: TerminalSize) -> Self {
        AppState {
            current_page: 0,
            page_count: 0,
            page_size_points: (
                Single { bits: DEFAULT_WIDTH_BITS },
                Single { bits: DEFAULT_HEIGHT_BITS },
            ),
            zoom: ZoomMode::Fit,
            offset_x: 0,
            offset_y: 0,
            terminal,
            generation: 0,
            dirty: true,
            status: None,
            cached: Map::empty(),
        }
    }

    pub open spec fn viewport(self) -> (int, int) {
        self.terminal.spec_viewport_pixels()
    }

    /// Width and height of the raster, and the percentage that fitting comes to.
    /// A fixed zoom is capped as the terminal asks.
    pub open spec fn dimensions(self) -> (int, int, int) {
        let (width, height, percent) = spec_render_dimensions(
            self.page_size_points,
            self.viewport(),
            self.zoom,
        );
        match self.zoom {
            ZoomMode::Fit => (width, height, percent),
            ZoomMode::Fixed(_) => {
                let capped = self.terminal.spec_cap_render_dimensions(width as u32, height as u32);
                (capped.0, capped.1, percent)
            },
        }
    }

    pub open spec fn render_key(self, page: usize) -> RenderKey {
        RenderKey {
            generation: self.generation,
            page,
            width: self.dimensions().0 as u32,
            height: self.dimensions().1 as u32,
        }
    }

    /// The bitmap of a page, as it would be drawn now, where it is at hand.
    pub open spec fn bitmap_of(self, page: usize) -> Option<Bitmap> {
        if self.cached.contains_key(self.render_key(page)) {
            Some(self.cached[self.render_key(page)])
        } else {
            None
        }
    }

    /// The offset at which the right edge of the page meets that of the pane.
    pub open spec fn max_offset_x(self) -> int {
        less(self.dimensions().0, self.viewport().0)
    }

    pub open spec fn max_offset_y(self) -> int {
        less(self.dimensions().1, self.viewport().1)
    }

    /// An eighth of the pane.
    pub open spec fn scroll_step(self) -> int {
        at_least_one(self.viewport().0 / 8)
    }

    /// No offset leaves the page.
    pub open spec fn clamp_offsets(self) -> Self {
        AppState {
            offset_x: smaller(self.offset_x as int, self.max_offset_x()) as u32,
            offset_y: smaller(self.offset_y as int, self.max_offset_y()) as u32,
            ..self
        }
    }

    pub open spec fn set_document(
        self,
        page_count: usize,
        page_size_points: (Single, Single),
    ) -> Self {
        AppState {
            page_count,
            current_page: spec_clamp_page(self.current_page as int, page_count as int) as usize,
            page_size_points,
            dirty: true,
            ..self
        }.clamp_offsets()
    }

    pub open spec fn has_next_page(self) -> bool {
        self.current_page + 1 < self.page_count
    }

    pub open spec fn has_previous_page(self) -> bool {
        self.current_page > 0
    }

    /// Shows another page from its top left corner.
    pub open spec fn turn_to(self, page: int) -> Self {
        AppState { current_page: page as usize, offset_x: 0, offset_y: 0, dirty: true, ..self }
    }

    pub open spec fn next_page(self) -> Self {
        if self.has_next_page() {
            self.turn_to(self.current_page + 1)
        } else {
            self
        }
    }

    pub open spec fn previous_page(self) -> Self {
        if self.has_previous_page() {
            self.turn_to(self.current_page - 1)
        } else {
            self
        }
    }

    pub open spec fn resize(self, terminal: TerminalSize) -> Self {
        if self.terminal != terminal {
            AppState { terminal, dirty: true, ..self }.clamp_offsets()
        } else {
            self
        }
    }

    /// Bitmaps of the document as it was are forgotten, and refused from now on.
    pub open spec fn reload(self) -> Self {
        AppState {
            generation: if self.generation == u64::MAX {
                0
            } else {
                (self.generation + 1) as u64
            },
            cached: Map::empty(),
            status: Some("reloading…"@),
            dirty: true,
            ..self
        }
    }

    /// The cache after `bitmap` came in: of the bitmaps for the generation and
    /// dimensions in force, those of the current page and its neighbours.
    pub open spec fn cached_with(self, key: RenderKey, bitmap: Bitmap) -> Map<RenderKey, Bitmap> {
        let active = self.render_key(self.current_page);
        self.cached.insert(key, bitmap).restrict(Set::new(|k: RenderKey| near(k, active)))
    }

    pub open spec fn insert_bitmap(self, key: RenderKey, bitmap: Bitmap) -> Self {
        let cached = self.cached_with(key, bitmap);
        if key.generation != self.generation {
            self
        } else if key.page != self.current_page {
            AppState { cached, ..self }
        } else {
            AppState { cached, status: None, dirty: true, ..self }.clamp_offsets()
        }
    }

    pub open spec fn run(self, command: Command) -> Self {
        match command {
            Command::Unbound => self,
            Command::Quit => self,
            Command::NextPage => self.next_page(),
            Command::PreviousPage => self.previous_page(),
            Command::FirstPage => AppState { current_page: 0, offset_x: 0, dirty: true, ..self },
            Command::LastPage => AppState {
                current_page: less(self.page_count as int, 1) as usize,
                offset_x: 0,
                dirty: true,
                ..self
            },
            Command::ZoomIn => AppState {
                zoom: ZoomMode::Fixed(step_above(self.zoom_label())),
                offset_x: 0,
                dirty: true,
                ..self
            },
            Command::ZoomOut => AppState {
                zoom: ZoomMode::Fixed(step_below(self.zoom_label())),
                offset_x: 0,
                dirty: true,
                ..self
            },
            Command::Fit => AppState {
                zoom: ZoomMode::Fit,
                offset_x: 0,
                offset_y: 0,
                dirty: true,
                ..self
            },
            Command::ScrollLeft => AppState {
                offset_x: less(self.offset_x as int, self.scroll_step()) as u32,
                dirty: true,
                ..self
            },
            Command::ScrollRight => AppState {
                offset_x: smaller(self.offset_x + self.scroll_step(), self.max_offset_x()) as u32,
                dirty: true,
                ..self
            },
            Command::ForceRedraw => AppState { dirty: true, ..self },
        }
    }

    /// The percentage in force.
    pub open spec fn zoom_label(self) -> u16 {
        self.zoom.spec_label(self.dimensions().2 as u16)
    }
}

/// What is shown, and how.
#[derive(Debug)]
pub struct App {
    /// Counted from zero.
    pub current_page: usize,
    pub page_count: usize,
    pub page_size_points: (Single, Single),
    pub zoom: ZoomMode,
    pub offset_x: u32,
    pub offset_y: u32,
    pub terminal: TerminalSize,
    pub generation: u64,
    /// Something changed since the last drawing.
    pub dirty: bool,
    pub status: Option<String>,
    /// The bitmaps at hand.
    pub cache: BitmapCache,
}

impl View for App {
    type V = AppState;

    open spec fn view(&self) -> AppState {
        AppState {
            current_page: self.current_page,
            page_count: self.page_count,
            page_size_points: self.page_size_points,
            zoom: self.zoom,
            offset_x: self.offset_x,
            offset_y: self.offset_y,
            terminal: self.terminal,
            generation: self.generation,
            dirty: self.dirty,
            status: match self.status {
                Some(text) => Some(text@),
                None => None,
            },
            cached: self.cache@,
        }
    }
}

impl App {
    pub fn new(terminal: TerminalSize) -> (r: Self)
        ensures
            r@ == AppState::initial(terminal),
    {
        App {
            current_page: 0,
            page_count: 0,
            page_size_points: (
                Single { bits: DEFAULT_WIDTH_BITS },
                Single { bits: DEFAULT_HEIGHT_BITS },
            ),
            zoom: ZoomMode::Fit,
            offset_x: 0,
            offset_y: 0,
            terminal,
            generation: 0,
            dirty: true,
            status: None,
            cache: BitmapCache::new(),
        }
    }

    /// Takes in what was learnt of the document, and stays on the page unless
    /// the document has become too short for it.
    pub fn set_document(&mut self, page_count: usize, page_size_points: (Single, Single))
        ensures
            final(self)@ == old(self)@.set_document(page_count, page_size_points),
    {
        self.page_count = page_count;
        self.current_page = clamp_page(self.current_page, page_count);
        self.page_size_points = page_size_points;
        self.dirty = true;
        self.clamp_offsets();
    }

    /// Turns to the next page, where there is one.
    pub fn next_page(&mut self) -> (r: bool)
        ensures
            r == old(self)@.has_next_page(),
            final(self)@ == old(self)@.next_page(),
    {
        if self.page_count > 0 && self.current_page < self.page_count - 1 {
            self.current_page = self.current_page + 1;
            self.offset_x = 0;
            self.offset_y = 0;
            self.dirty = true;
            true
        } else {
            false
        }
    }

    /// Turns to the previous page, where there is one.
    pub fn previous_page(&mut self) -> (r: bool)
        ensures
            r == old(self)@.has_previous_page(),
            final(self)@ == old(self)@.previous_page(),
    {
        if self.current_page > 0 {
            self.current_page = self.current_page - 1;
            self.offset_x = 0;
            self.offset_y = 0;
            self.dirty = true;
            true
        } else {
            false
        }
    }

    pub fn resize(&mut self, terminal: TerminalSize)
        ensures
            final(self)@ == old(self)@.resize(terminal),
    {
        if self.terminal != terminal {
            self.terminal = terminal;
            self.dirty = true;
            self.clamp_offsets();
        }
    }

    /// The document changed on disk.
    pub fn reload(&mut self)
        ensures
            final(self)@ == old(self)@.reload(),
    {
        self.generation = self.generation.wrapping_add(1);
        self.cache.clear();
        self.status = Some("reloading…".to_owned());
        self.dirty = true;
    }

    /// Width and height of the raster, and the percentage that fitting comes to.
    pub fn render_dimensions(&self) -> (r: (u32, u32, u16))
        ensures
            (r.0 as int, r.1 as int, r.2 as int) == self@.dimensions(),
    {
        let (width, height, percent) = render_dimensions(
            self.page_size_points,
            self.terminal.viewport_pixels(),
            self.zoom,
        );
        match self.zoom {
            ZoomMode::Fit => (width, height, percent),
            ZoomMode::Fixed(_) => {
                let (width, height) = self.terminal.cap_render_dimensions(width, height);
                (width, height, percent)
            },
        }
    }

    /// What a bitmap of the page would have to be a bitmap of, as things stand.
    pub fn render_key(&self, page: usize) -> (r: RenderKey)
        ensures
            r == self@.render_key(page),
    {
        let (width, height, _) = self.render_dimensions();
        RenderKey { generation: self.generation, page, width, height }
    }

    pub fn current_bitmap(&self) -> (r: Option<&Bitmap>)
        ensures
            match r {
                Some(bitmap) => {
                    &&& self@.cached.contains_key(self@.render_key(self.current_page))
                    &&& *bitmap == self@.cached[self@.render_key(self.current_page)]
                },
                None => !self@.cached.contains_key(self@.render_key(self.current_page)),
            },
            match r {
                Some(bitmap) => self@.bitmap_of(self.current_page) == Some(*bitmap),
                None => self@.bitmap_of(self.current_page) is None,
            },
    {
        self.cache.get(&self.render_key(self.current_page))
    }

    pub fn has_bitmap(&self, page: usize) -> (r: bool)
        ensures
            r == self@.cached.contains_key(self@.render_key(page)),
            r == self@.bitmap_of(page) is Some,
    {
        self.cache.get(&self.render_key(page)).is_some()
    }

    /// Takes in a bitmap, unless it is of an earlier generation.
    pub fn insert_bitmap(&mut self, key: RenderKey, bitmap: Bitmap)
        ensures
            final(self)@ == old(self)@.insert_bitmap(key, bitmap),
    {
        if key.generation != self.generation {
            return;
        }
        let active = self.render_key(self.current_page);
        self.cache.insert(key, bitmap);
        self.cache.retain_near(active);
        if key.page == self.current_page {
            self.status = None;
            self.dirty = true;
            self.clamp_offsets();
        }
    }

    /// Does what the key is bound to.
    pub fn handle_key(&mut self, key: KeyEvent) -> (r: Action)
        ensures
            r == action_of(bound_command(key)),
            final(self)@ == old(self)@.run(bound_command(key)),
    {
        match command(key) {
            Command::Unbound => Action::Nothing,
            Command::Quit => Action::Quit,
            Command::NextPage => {
                self.next_page();
                Action::Render
            },
            Command::PreviousPage => {
                self.previous_page();
                Action::Render
            },
            Command::FirstPage => {
                self.current_page = 0;
                self.offset_x = 0;
                self.dirty = true;
                Action::Render
            },
            Command::LastPage => {
                self.current_page = self.page_count.saturating_sub(1);
                self.offset_x = 0;
                self.dirty = true;
                Action::Render
            },
            Command::ZoomIn => {
                let fit = self.render_dimensions().2;
                self.zoom.zoom_in(fit);
                self.offset_x = 0;
                self.dirty = true;
                Action::Render
            },
            Command::ZoomOut => {
                let fit = self.render_dimensions().2;
                self.zoom.zoom_out(fit);
                self.offset_x = 0;
                self.dirty = true;
                Action::Render
            },
            Command::Fit => {
                self.zoom = ZoomMode::Fit;
                self.offset_x = 0;
                self.offset_y = 0;
                self.dirty = true;
                Action::Render
            },
            Command::ScrollLeft => {
                self.offset_x = self.offset_x.saturating_sub(self.scroll_step());
                self.dirty = true;
                Action::Redraw
            },
            Command::ScrollRight => {
                let target = self.offset_x.saturating_add(self.scroll_step());
                let max = self.max_offset_x();
                self.offset_x = if target < max {
                    target
                } else {
                    max
                };
                self.dirty = true;
                Action::Redraw
            },
            Command::ForceRedraw => {
                self.dirty = true;
                Action::ForceRedraw
            },
        }
    }

    fn scroll_step(&self) -> (r: u32)
        ensures
            r == self@.scroll_step(),
    {
        let step = self.terminal.viewport_pixels().0 / 8;
        if step > 1 {
            step
        } else {
            1
        }
    }

    fn max_offset_x(&self) -> (r: u32)
        ensures
            r == self@.max_offset_x(),
    {
        self.render_dimensions().0.saturating_sub(self.terminal.viewport_pixels().0)
    }

    fn clamp_offsets(&mut self)
        ensures
            final(self)@ == old(self)@.clamp_offsets(),
    {
        let max_x = self.max_offset_x();
        let max_y = self.render_dimensions().1.saturating_sub(self.terminal.viewport_pixels().1);
        if self.offset_x > max_x {
            self.offset_x = max_x;
        }
        if self.offset_y > max_y {
            self.offset_y = max_y;
        }
    }
}

} // verus!
