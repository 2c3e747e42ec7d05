//! The widgets of the terminal interface.

pub mod conversation;
pub mod input_bar;
pub mod tool_output;
pub mod spinner;
pub mod status_bar;
pub mod sidebar;
