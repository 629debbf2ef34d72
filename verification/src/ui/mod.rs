//! What is written beside the page.

pub mod status;
