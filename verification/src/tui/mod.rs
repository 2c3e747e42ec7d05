//! The full-screen terminal interface: cells, screen buffer, layout,
//! events, widgets, and the application state machine.

pub mod agent;
pub mod app;
pub mod cell;
pub mod event;
pub mod layout;
pub mod screen;
pub mod terminal;
pub mod widget;
pub mod widgets;

pub use agent::{TuiAgentEvent, TuiUserAction};
