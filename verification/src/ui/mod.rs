//! Line-oriented terminal output helpers: diffs, confirmation prompts and
//! command completion.

pub mod confirm;
pub mod diff;
pub mod input;
