//! Terminal user-interface building blocks: a cell screen buffer with
//! diff-based rendering, widgets (input bar, sidebar, tool output, spinner,
//! status bar), text utilities and a line-based diff.

pub mod output;
pub mod style;
pub mod text;
pub mod tui;
pub mod unicode;
pub mod ui;
