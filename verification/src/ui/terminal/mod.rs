//! The terminal application: its bars, its editor, its messages and its colours.
pub mod app;
pub mod editbar;
pub mod editor;
pub mod messages;
pub mod statusbar;
pub mod theme;
pub mod timeline;
