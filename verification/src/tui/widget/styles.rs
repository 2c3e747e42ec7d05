//! Colors and box-drawing characters shared by the widgets.

use vstd::prelude::*;
use crate::tui::cell::Color;

verus! {

/// Status bar text color.
pub fn status_bar_fg() -> (c: Color) ensures c == Color::Ansi(7) { Color::Ansi(7) }
/// Status bar background.
pub fn status_bar_bg() -> (c: Color) ensures c == Color::Ansi(236) { Color::Ansi(236) }
/// Input bar text color.
pub fn input_bar_fg() -> (c: Color) ensures c == Color::Ansi(7) { Color::Ansi(7) }
/// Input bar background.
pub fn input_bar_bg() -> (c: Color) ensures c == Color::Ansi(235) { Color::Ansi(235) }
/// Sidebar text color (light gray).
pub fn sidebar_fg() -> (c: Color) ensures c == Color::Ansi(252) { Color::Ansi(252) }
/// Sidebar background (dark gray).
pub fn sidebar_bg() -> (c: Color) ensures c == Color::Ansi(234) { Color::Ansi(234) }
/// Sidebar border (medium gray).
pub fn sidebar_border() -> (c: Color) ensures c == Color::Ansi(240) { Color::Ansi(240) }
/// User message text.
pub fn user_msg_fg() -> (c: Color) ensures c == Color::Ansi(2) { Color::Ansi(2) }
/// Assistant message text.
pub fn assistant_msg_fg() -> (c: Color) ensures c == Color::Ansi(7) { Color::Ansi(7) }
/// Tool message text (bright cyan).
pub fn tool_msg_fg() -> (c: Color) ensures c == Color::Ansi(14) { Color::Ansi(14) }
/// Thinking text (dim magenta).
pub fn thinking_fg() -> (c: Color) ensures c == Color::Ansi(97) { Color::Ansi(97) }
/// Scrollbar thumb.
pub fn scrollbar_fg() -> (c: Color) ensures c == Color::Ansi(244) { Color::Ansi(244) }
/// Scrollbar track.
pub fn scrollbar_bg() -> (c: Color) ensures c == Color::Default { Color::Default }
/// Label color of the casual mode.
pub fn mode_casual_fg() -> (c: Color) ensures c == Color::Ansi(2) { Color::Ansi(2) }
/// Label color of the planning mode.
pub fn mode_planning_fg() -> (c: Color) ensures c == Color::Ansi(3) { Color::Ansi(3) }
/// Label color of the agent mode.
pub fn mode_agent_fg() -> (c: Color) ensures c == Color::Ansi(6) { Color::Ansi(6) }
/// Label color of the research mode.
pub fn mode_research_fg() -> (c: Color) ensures c == Color::Ansi(208) { Color::Ansi(208) }

pub const BOX_HORIZONTAL: char = '─';
pub const BOX_VERTICAL: char = '│';
pub const BOX_TOP_LEFT: char = '┌';
pub const BOX_TOP_RIGHT: char = '┐';
pub const BOX_BOTTOM_LEFT: char = '└';
pub const BOX_BOTTOM_RIGHT: char = '┘';
pub const BOX_LEFT_TEE: char = '├';
pub const BOX_RIGHT_TEE: char = '┤';
pub const BOX_TOP_TEE: char = '┬';
pub const BOX_BOTTOM_TEE: char = '┴';
pub const BOX_CROSS: char = '┼';

} // verus!
