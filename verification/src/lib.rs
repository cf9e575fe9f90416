//! A log viewer's core: a bounded buffer of log lines seen through stackable
//! regex filters, with search, bookmarks and scrolling, the classification
//! of lines for highlighting, and the key and render decisions of its
//! terminal front end.
pub mod pattern;
pub mod json;
pub mod text;
pub mod highlight;
pub mod app;
pub mod laws;
pub mod source;
pub mod input;
pub mod render;
pub mod screen;
