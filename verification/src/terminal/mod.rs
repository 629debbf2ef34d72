//! The terminal: its size and the sequences written to it.

pub mod ansi;
pub mod kitty;
pub mod payload;
pub mod session;
pub mod size;
