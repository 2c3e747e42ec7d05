//! ANSI escape sequences for terminal styling.

use vstd::prelude::*;

verus! {

pub const RESET: &'static str = "\x1b[0m";
pub const BOLD: &'static str = "\x1b[1m";
pub const DIM: &'static str = "\x1b[2m";
pub const ITALIC: &'static str = "\x1b[3m";
pub const UNDERLINE: &'static str = "\x1b[4m";

pub const RED: &'static str = "\x1b[31m";
pub const GREEN: &'static str = "\x1b[32m";
pub const YELLOW: &'static str = "\x1b[33m";
pub const BLUE: &'static str = "\x1b[34m";
pub const MAGENTA: &'static str = "\x1b[35m";
pub const CYAN: &'static str = "\x1b[36m";
pub const WHITE: &'static str = "\x1b[37m";

pub const GRAY: &'static str = "\x1b[90m";
pub const ORANGE: &'static str = "\x1b[38;5;208m";
pub const BRIGHT_YELLOW: &'static str = "\x1b[93m";
pub const BRIGHT_CYAN: &'static str = "\x1b[96m";

/// Magenta, for thinking text.
pub const THINK_COLOR: &'static str = "\x1b[35m";
/// Dimmer magenta.
pub const THINK_COLOR_DIM: &'static str = "\x1b[38;5;97m";

/// Dark gray background, for tool call results.
pub const BG_DIM: &'static str = "\x1b[48;5;236m";
/// Slightly lighter gray background, for tool headers.
pub const BG_TOOL: &'static str = "\x1b[48;5;237m";
/// Dark navy background, for confirmation and warning headers.
pub const BG_WARN: &'static str = "\x1b[48;5;17m";

/// Clear from the cursor to the end of the line in the current background.
pub const FILL_EOL: &'static str = "\x1b[K";

/// Titles and headers.
pub const TITLE_COLOR: &'static str = CYAN;
/// Box borders and frames.
pub const BOX_COLOR: &'static str = BLUE;
/// Warnings and alerts.
pub const WARNING_COLOR: &'static str = YELLOW;
/// Highlights and emphasis.
pub const ACCENT_COLOR: &'static str = MAGENTA;

/// Clear the screen and move the cursor home.
pub const CLEAR_SCREEN: &'static str = "\x1b[2J\x1b[H";

/// Clear the entire current line.
pub const CLEAR_LINE: &'static str = "\x1b[2K";

} // verus!
