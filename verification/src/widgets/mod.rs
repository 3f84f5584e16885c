//! Widget-level primitives: collection layouts with their scroll math,
//! and floating popups.

pub mod layout;
pub mod lines;
pub mod popup;
