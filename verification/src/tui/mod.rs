//! The review screen's state and what it shows, apart from the terminal.

pub mod app;
pub mod render;
pub mod source_view;
pub mod diff_view;
pub mod screen;
pub mod keys;
