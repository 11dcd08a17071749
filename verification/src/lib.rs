//! Core of a periodically refreshing terminal text viewer: escape-aware text
//! metrics, the scrollable viewport state over replaceable content, and the
//! drift-free refresh schedule.

pub mod content;
pub mod interval;
pub mod text;
pub mod viewport;
