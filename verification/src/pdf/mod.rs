//! Documents and the rasterizing of their pages.

pub mod document;
pub mod renderer;
