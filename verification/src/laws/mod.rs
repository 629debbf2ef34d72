//! What holds of the parts taken together.

pub mod caching;
pub mod drawing;
pub mod events;
pub mod keys;
pub mod navigation;
pub mod panes;
pub mod protocol;
pub mod reading;
pub mod requests;
pub mod scaling;
pub mod starting;
pub mod status;
pub mod timing;
pub mod watching;
