//! The logic of a PDF viewer that draws inside the terminal.
//!
//! Pages are rasterized elsewhere. Here it is decided which page is wanted and
//! at which size, what is kept, and what is written to the terminal.

use vstd::prelude::*;

pub mod app;
pub mod cache;
pub mod event;
pub mod float;
pub mod laws;
pub mod layout;
pub mod pdf;
pub mod startup;
pub mod terminal;
pub mod text;
pub mod ui;
pub mod viewer;
pub mod watcher;

verus! {

} // verus!
