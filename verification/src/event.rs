//! What the main loop is told of.

use crate::pdf::renderer::RenderEvent;
use crate::terminal::size::TerminalSize;
use vstd::prelude::*;

verus! {

/// A key, as far as the bindings tell keys apart.
#[derive(Clone, Copy, Debug, PartialEq, Eq, Structural)]
pub enum KeyCode {
    Char(char),
    Up,
    Down,
    PageUp,
    PageDown,
    Home,
    End,
    Other,
}

#[derive(Clone, Copy, Debug, PartialEq, Eq, Structural)]
pub enum KeyEventKind {
    Press,
    Repeat,
    Release,
}

#[derive(Clone, Copy, Debug, PartialEq, Eq, Structural)]
pub struct KeyEvent {
    pub code: KeyCode,
    /// The control key is held.
    pub control: bool,
    pub kind: KeyEventKind,
}

/// What the terminal reports.
#[derive(Clone, Copy, Debug, PartialEq, Eq)]
pub enum TerminalEvent {
    Key(KeyEvent),
    /// The new size, where it could be read.
    Resize(Option<TerminalSize>),
    Other,
}

#[derive(Debug)]
pub enum AppEvent {
    Terminal(TerminalEvent),
    FileChanged,
    WatchError(String),
    Render(RenderEvent),
}

} // verus!
