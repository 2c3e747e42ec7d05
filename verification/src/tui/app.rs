//! Application-level state: which widget has focus, how focus cycles, and
//! the state shared with the agent loop.

use vstd::prelude::*;
use vstd::utf8::encode_utf8;
use crate::text::{chars_of, find_chars, first_occurrence, push_str, starts_with, string_push, strs_view};
use crate::tui::agent::{AgentEventView, TuiAgentEvent, TuiUserAction, UserActionView};
use crate::tui::cell::{blank_cell, plain_style, Cell, Color, Style};
use crate::tui::event::{Event, Key, KeyEvent, MouseButton, MouseEvent};
use crate::tui::layout::Rect;
use crate::tui::screen::{
    blank_view, boxed_view, fill_box, lemma_boxed_view, lemma_fill_box, lemma_same_rows_refl, lemma_same_rows_step, put,
    same_outside_rows, write_run, Screen, ScreenView,
};
use crate::tui::terminal::Size;
use crate::tui::widget::{byte_prefix_len, truncate_str, Action, ActionView, Widget};
use crate::tui::widgets::conversation::{
    closed_search, conv_event, conv_inv, conversation_drawn, drawn_state, sat_add, toggled_search, ContextWarningLevel, ConversationLine, ConversationState,
    ConversationWidget, LineView,
};
use crate::tui::widgets::input_bar::{
    click_cursor, ctrl_char, distinct_commands, initial_state, input_drawn, input_event, mode_color_of, move_to, prompt_width, rule_cell, state_inv, strs,
    subs_view, InputBarState, InputBarWidget,
};
use crate::tui::widgets::sidebar::{
    click_state, entered_structure, items_of, scrolled, sidebar_drawn, sidebar_event, text_width, ItemView, SidebarState,
    SidebarWidget,
};
use crate::tui::widgets::status_bar::{status_drawn, status_fill, StatusBarWidget};
use crate::tui::widgets::tool_output::{
    results_from, tool_event, uncollapsed, ResultView, ToolOutputState, ToolOutputWidget, ToolResult, ToolStatus, ToolStatusView,
};

verus! {

/// Which widget currently has keyboard focus.
#[derive(Clone, Copy, Debug, Default, PartialEq, Eq, Structural)]
pub enum Focus {
    #[default]
    InputBar,
    Conversation,
    ToolOutput,
    Sidebar,
    /// The interactive file browser in the sidebar.
    Structure,
}

/// The focus cycle: the input bar, the tool output (when shown), the file browser.
pub open spec fn focus_order(tool_output_visible: bool) -> Seq<Focus> {
    if tool_output_visible {
        seq![Focus::InputBar, Focus::ToolOutput, Focus::Structure]
    } else {
        seq![Focus::InputBar, Focus::Structure]
    }
}

/// The focus after one step forward or backward in the cycle from
/// `current`; a focus outside the cycle counts as the input bar.
pub open spec fn next_focus_spec(current: Focus, forward: bool, tool_output_visible: bool) -> Focus {
    if tool_output_visible {
        match current {
            Focus::ToolOutput => if forward { Focus::Structure } else { Focus::InputBar },
            Focus::Structure => if forward { Focus::InputBar } else { Focus::ToolOutput },
            _ => if forward { Focus::ToolOutput } else { Focus::Structure },
        }
    } else {
        match current {
            Focus::Structure => Focus::InputBar,
            _ => Focus::Structure,
        }
    }
}

/// One step of the focus cycle (see [`next_focus_spec`]).
pub fn next_focus(current: Focus, forward: bool, tool_output_visible: bool) -> (r: Focus)
    ensures
        r == next_focus_spec(current, forward, tool_output_visible),
{
    if tool_output_visible {
        let i: usize = if current == Focus::InputBar { 0 } else if current == Focus::ToolOutput { 1 } else if current == Focus::Structure { 2 } else { 0 };
        let j = if forward { (i + 1) % 3 } else { (i + 2) % 3 };
        if j == 0 { Focus::InputBar } else if j == 1 { Focus::ToolOutput } else { Focus::Structure }
    } else {
        let i: usize = if current == Focus::InputBar { 0 } else if current == Focus::Structure { 1 } else { 0 };
        let j = if forward { (i + 1) % 2 } else { (i + 1) % 2 };
        if j == 0 { Focus::InputBar } else { Focus::Structure }
    }
}

/// The status bar label of a focus.
pub open spec fn focus_label_spec(f: Focus) -> Seq<char> {
    match f {
        Focus::InputBar | Focus::Conversation => seq!['i', 'n', 'p', 'u', 't'],
        Focus::ToolOutput => seq!['t', 'o', 'o', 'l', 's'],
        Focus::Sidebar | Focus::Structure => seq!['f', 'i', 'l', 'e', 's'],
    }
}

/// The status bar label of a focus: "input", "tools" or "files".
pub fn focus_label(f: Focus) -> (r: &'static str)
    ensures
        r@ == focus_label_spec(f),
{
    proof {
        reveal_strlit("input");
        reveal_strlit("tools");
        reveal_strlit("files");
    }
    match f {
        Focus::InputBar | Focus::Conversation => "input",
        Focus::ToolOutput => "tools",
        Focus::Sidebar | Focus::Structure => "files",
    }
}

/// Whether the screen position `(row, col)` lies in `rect`.
pub fn rect_contains(rect: Rect, row: u16, col: u16) -> (r: bool)
    ensures
        r == (rect.y <= row < rect.y + rect.height && rect.x <= col < rect.x + rect.width),
{
    row >= rect.y && (row as u32) < rect.y as u32 + rect.height as u32 && col >= rect.x
        && (col as u32) < rect.x as u32 + rect.width as u32
}

/// Moving forward and then backward in the focus cycle returns to a focus
/// of the cycle.
pub proof fn lemma_focus_forward_back(f: Focus, tool_output_visible: bool)
    requires
        focus_order(tool_output_visible).contains(f),
    ensures
        next_focus_spec(next_focus_spec(f, true, tool_output_visible), false, tool_output_visible) == f,
        next_focus_spec(next_focus_spec(f, false, tool_output_visible), true, tool_output_visible) == f,
{
    let order = focus_order(tool_output_visible);
    let k = choose|k: int| 0 <= k < order.len() && order[k] == f;
    assert(order[k] == f);
    if tool_output_visible {
        assert(order == seq![Focus::InputBar, Focus::ToolOutput, Focus::Structure]);
        if k == 0 {
            assert(f == Focus::InputBar);
        } else if k == 1 {
            assert(f == Focus::ToolOutput);
        } else {
            assert(f == Focus::Structure);
        }
    } else {
        assert(order == seq![Focus::InputBar, Focus::Structure]);
        if k == 0 {
            assert(f == Focus::InputBar);
        } else {
            assert(f == Focus::Structure);
        }
    }
}


/// Cycling forward through all places of the cycle returns to the start.
pub proof fn lemma_focus_full_cycle(f: Focus, tool_output_visible: bool)
    requires
        focus_order(tool_output_visible).contains(f),
    ensures
        tool_output_visible ==> next_focus_spec(next_focus_spec(next_focus_spec(f, true, true), true, true), true, true) == f,
        !tool_output_visible ==> next_focus_spec(next_focus_spec(f, true, false), true, false) == f,
{
    let order = focus_order(tool_output_visible);
    let k = choose|k: int| 0 <= k < order.len() && order[k] == f;
    assert(order[k] == f);
    if tool_output_visible {
        assert(order == seq![Focus::InputBar, Focus::ToolOutput, Focus::Structure]);
        if k == 0 {
            assert(f == Focus::InputBar);
        } else if k == 1 {
            assert(f == Focus::ToolOutput);
        } else {
            assert(f == Focus::Structure);
        }
    } else {
        assert(order == seq![Focus::InputBar, Focus::Structure]);
        if k == 0 {
            assert(f == Focus::InputBar);
        } else {
            assert(f == Focus::Structure);
        }
    }
}


/// State shared with the agent loop.
#[derive(Clone, Debug)]
pub struct TuiState {
    /// Current agent mode label.
    pub mode: String,
    /// Current model name.
    pub model_name: String,
    /// Whether the sidebar is visible.
    pub sidebar_visible: bool,
    /// Whether a response is streaming.
    pub streaming: bool,
    /// Tokens used.
    pub token_count: Option<u64>,
    /// Token limit.
    pub token_limit: Option<u64>,
    /// Session name.
    pub session_name: String,
    /// Message count.
    pub message_count: usize,
}

impl Default for TuiState {
    fn default() -> (r: Self)
        ensures
            r.mode@ == seq!['a', 'g', 'e', 'n', 't'],
            r.model_name@.len() == 0,
            r.sidebar_visible,
            !r.streaming,
            r.token_count.is_none(),
            r.token_limit.is_none(),
            r.session_name@ == seq!['u', 'n', 'n', 'a', 'm', 'e', 'd'],
            r.message_count == 0,
    {
        proof {
            reveal_strlit("agent");
            reveal_strlit("unnamed");
        }
        TuiState {
            mode: "agent".to_owned(),
            model_name: String::new(),
            sidebar_visible: true,
            streaming: false,
            token_count: None,
            token_limit: None,
            session_name: "unnamed".to_owned(),
            message_count: 0,
        }
    }
}

// ── Help overlay ───────────────────────────────────────────────────────────

/// The keyboard shortcut help, one entry per line.
pub open spec fn help_text() -> Seq<Seq<char>> {
    seq![
        ""@,
        "  Keyboard Shortcuts"@,
        "  ─────────────────────────────────────────────────"@,
        ""@,
        "  Global:"@,
        "    Ctrl+C         Quit (or interrupt streaming)"@,
        "    Ctrl+D          Quit"@,
        "    Ctrl+S          Toggle sidebar"@,
        "    Ctrl+T          Toggle tool output panel"@,
        "    Ctrl+P          Focus file browser"@,
        "    Ctrl+F          Search in conversation"@,
        "    Ctrl+H / F1     Toggle this help"@,
        "    Tab             Cycle focus forward"@,
        "    Shift+Tab       Cycle focus backward"@,
        ""@,
        "  Input Bar:"@,
        "    Enter           Send message"@,
        "    Shift+Enter     Insert newline"@,
        "    Escape          Clear input / Quit if empty"@,
        "    Up/Down         History navigation"@,
        "    Ctrl+A          Move to start of line"@,
        "    Ctrl+E          Move to end of line"@,
        "    Ctrl+U          Clear line before cursor"@,
        "    Ctrl+K          Clear line after cursor"@,
        "    Ctrl+W          Delete word backward"@,
        "    Ctrl+Y          Yank (paste) from kill ring"@,
        "    Ctrl+Left/Right Move by word"@,
        "    Alt+B / Alt+F   Move back/forward by word"@,
        "    Alt+Backspace   Delete word backward"@,
        "    Tab             Complete / command or cycle focus"@,
        ""@,
        "  Navigation:"@,
        "    PageUp/Down     Scroll conversation by page"@,
        "    Alt+Up/Down     Scroll conversation by 3 lines"@,
        "    Home/End        Scroll to top/bottom of conversation"@,
        "    Ctrl+F          Search in conversation"@,
        "    Escape          Close search"@,
        ""@,
        "  File Browser (sidebar):"@,
        "    Up/Down         Move selection"@,
        "    Enter           Enter directory"@,
        "    Escape          Go back / exit"@,
        "    PageUp/Down     Scroll by page"@,
        "    Home/End         First/last entry"@,
        "    /               Filter files by name"@,
        ""@,
        "  Confirm Prompt:"@,
        "    y               Approve tool call"@,
        "    n               Deny tool call"@,
        "    a               Approve all future calls"@,
        "    Escape          Deny"@,
        ""@
    ]
}

/// The lines of the keyboard shortcut help (see [`help_text`]).
pub fn help_content() -> (r: Vec<&'static str>)
    ensures
        strs_view(r@) == help_text(),
{
    let r = vec![
        "",
        "  Keyboard Shortcuts",
        "  ─────────────────────────────────────────────────",
        "",
        "  Global:",
        "    Ctrl+C         Quit (or interrupt streaming)",
        "    Ctrl+D          Quit",
        "    Ctrl+S          Toggle sidebar",
        "    Ctrl+T          Toggle tool output panel",
        "    Ctrl+P          Focus file browser",
        "    Ctrl+F          Search in conversation",
        "    Ctrl+H / F1     Toggle this help",
        "    Tab             Cycle focus forward",
        "    Shift+Tab       Cycle focus backward",
        "",
        "  Input Bar:",
        "    Enter           Send message",
        "    Shift+Enter     Insert newline",
        "    Escape          Clear input / Quit if empty",
        "    Up/Down         History navigation",
        "    Ctrl+A          Move to start of line",
        "    Ctrl+E          Move to end of line",
        "    Ctrl+U          Clear line before cursor",
        "    Ctrl+K          Clear line after cursor",
        "    Ctrl+W          Delete word backward",
        "    Ctrl+Y          Yank (paste) from kill ring",
        "    Ctrl+Left/Right Move by word",
        "    Alt+B / Alt+F   Move back/forward by word",
        "    Alt+Backspace   Delete word backward",
        "    Tab             Complete / command or cycle focus",
        "",
        "  Navigation:",
        "    PageUp/Down     Scroll conversation by page",
        "    Alt+Up/Down     Scroll conversation by 3 lines",
        "    Home/End        Scroll to top/bottom of conversation",
        "    Ctrl+F          Search in conversation",
        "    Escape          Close search",
        "",
        "  File Browser (sidebar):",
        "    Up/Down         Move selection",
        "    Enter           Enter directory",
        "    Escape          Go back / exit",
        "    PageUp/Down     Scroll by page",
        "    Home/End         First/last entry",
        "    /               Filter files by name",
        "",
        "  Confirm Prompt:",
        "    y               Approve tool call",
        "    n               Deny tool call",
        "    a               Approve all future calls",
        "    Escape          Deny",
        ""
    ];
    proof {
        assert(strs_view(r@) =~= help_text());
    }
    r
}

/// The rows the help text can use in a terminal of `rows` rows: all but the
/// status bar, a three-row input bar, the two borders and the hint row.
pub open spec fn help_height(rows: u16) -> nat {
    let area = if rows >= 4 { rows - 4 } else { 0 };
    (if area >= 3 { area - 3 } else { 0 }) as nat
}

/// The rows the help text can use (see [`help_height`]).
pub fn help_content_height(rows: u16) -> (r: usize)
    ensures
        r == help_height(rows),
{
    let area = rows.saturating_sub(4);
    area.saturating_sub(3) as usize
}

/// The help overlay: whether it is shown, how far its text is scrolled, and
/// how many lines the text has (known once drawn).
#[derive(Clone, Copy, Debug, PartialEq, Eq, Structural)]
pub struct HelpOverlay {
    pub visible: bool,
    pub scroll: usize,
    pub line_count: usize,
}

/// `a - b`, stopping at zero.
pub open spec fn sub_floor(a: int, b: int) -> nat {
    if a >= b { (a - b) as nat } else { 0 }
}

/// `a + b`, saturating at `usize::MAX`.
pub open spec fn add_sat(a: int, b: int) -> nat {
    if a + b > usize::MAX { usize::MAX as nat } else { (a + b) as nat }
}

/// The overlay hidden, its scroll reset.
pub open spec fn help_dismissed(h: HelpOverlay) -> HelpOverlay {
    HelpOverlay { visible: false, scroll: 0, ..h }
}

/// The overlay with its scroll set to `n`.
pub open spec fn help_scrolled(h: HelpOverlay, n: nat) -> HelpOverlay {
    HelpOverlay { scroll: n as usize, ..h }
}

/// How the shown overlay answers a key in a terminal of `rows` rows: the new
/// overlay, and whether the key goes on to the global key bindings. Ctrl+H,
/// F1 and Escape close it; Ctrl+C and Ctrl+D close it and go on; Up/k and
/// Down/j scroll by a line, PageUp and PageDown by ten, Home and End to the
/// ends; any other key closes it.
pub open spec fn help_key(h: HelpOverlay, k: KeyEvent, rows: u16) -> (HelpOverlay, bool) {
    let plain = !k.modifiers.ctrl && !k.modifiers.alt;
    if k.key == Key::Char('h') && k.modifiers.ctrl {
        (help_dismissed(h), false)
    } else if k.key == Key::F(1) && plain {
        (help_dismissed(h), false)
    } else if k.key == Key::Escape {
        (help_dismissed(h), false)
    } else if (k.key == Key::Char('c') || k.key == Key::Char('d')) && k.modifiers.ctrl {
        (help_dismissed(h), true)
    } else if (k.key == Key::Up || k.key == Key::Char('k')) && plain {
        (help_scrolled(h, sub_floor(h.scroll as int, 1)), false)
    } else if (k.key == Key::Down || k.key == Key::Char('j')) && plain {
        (help_scrolled(h, add_sat(h.scroll as int, 1)), false)
    } else if k.key == Key::PageUp {
        (help_scrolled(h, sub_floor(h.scroll as int, 10)), false)
    } else if k.key == Key::PageDown {
        (help_scrolled(h, add_sat(h.scroll as int, 10)), false)
    } else if k.key == Key::Home {
        (help_scrolled(h, 0), false)
    } else if k.key == Key::End {
        (help_scrolled(h, sub_floor(h.line_count as int, help_height(rows) as int)), false)
    } else {
        (help_dismissed(h), false)
    }
}

/// Lines of help text shown in an area of `height` rows: the text fits
/// between the two borders with one row kept for the hint.
pub open spec fn help_visible_lines(height: u16) -> nat {
    if height < 4 {
        0
    } else {
        let content = if height - 3 <= help_text().len() { height - 3 } else { help_text().len() as int };
        sub_floor(content, 1)
    }
}

/// Whether `pat` occurs in `line`.
pub open spec fn help_contains(line: Seq<char>, pat: Seq<char>) -> bool {
    first_occurrence(line, pat, 0) is Some
}

/// The colors of a help line: the title yellow and bold, the rule gray,
/// section headers cyan and bold, lines naming keys white, others light gray.
pub open spec fn help_line_look(line: Seq<char>) -> (Color, Style) {
    if "  Keyboard Shortcuts"@.is_prefix_of(line) {
        (Color::Ansi(3), Style { bold: true, ..plain_style() })
    } else if "  ────"@.is_prefix_of(line) {
        (Color::Ansi(244), plain_style())
    } else if "  Global:"@.is_prefix_of(line) || "  Input Bar:"@.is_prefix_of(line) || "  Conversation:"@.is_prefix_of(line)
        || "  File Browser"@.is_prefix_of(line) || "  Confirm Prompt:"@.is_prefix_of(line) {
        (Color::Ansi(6), Style { bold: true, ..plain_style() })
    } else if help_contains(line, "Ctrl+"@) || help_contains(line, "Shift+"@) || help_contains(line, "Alt+"@)
        || help_contains(line, "Tab"@) || help_contains(line, "Enter"@) || help_contains(line, "Escape"@)
        || help_contains(line, "PageUp"@) || help_contains(line, "Home"@) || help_contains(line, "End"@)
        || help_contains(line, "Up/Down"@) || help_contains(line, "/"@) {
        (Color::Ansi(7), plain_style())
    } else {
        (Color::Ansi(252), plain_style())
    }
}

/// A help line as shown in the box: over 50 bytes, its first 49 bytes (in
/// whole characters) and an ellipsis.
pub open spec fn help_display(line: Seq<char>) -> Seq<char> {
    if encode_utf8(line).len() > 50 {
        line.take(byte_prefix_len(line, 49) as int).push('…')
    } else {
        line
    }
}

/// The help lines from the `i`-th shown one on, written from column `x` on
/// the rows below the box's top border, above the hint row.
pub open spec fn help_rows(v: ScreenView, i: int, count: int, scroll: int, box_y: int, hint_row: int, x: int) -> ScreenView
    decreases count - i,
{
    if i < 0 || i >= count || scroll + i >= help_text().len() || box_y + 1 + i >= hint_row {
        v
    } else {
        let line = help_text()[scroll + i];
        let look = help_line_look(line);
        help_rows(
            write_run(v, box_y + 1 + i, x, x, help_display(line), look.0, Color::Ansi(235), look.1),
            i + 1,
            count,
            scroll,
            box_y,
            hint_row,
            x,
        )
    }
}

/// The overlay drawn in `area` with its text scrolled by `scroll`: a box 52
/// columns wide, centered, filled dark gray and bordered, holding the help
/// lines that fit, a hint row, and an arrow at the right when the text
/// scrolls. Nothing is drawn when no line fits or the box would leave the
/// coordinate range.
pub open spec fn help_drawn(v: ScreenView, scroll: int, area: Rect) -> ScreenView {
    let n = help_text().len() as int;
    let vis = help_visible_lines(area.height) as int;
    if vis == 0 || area.x + 52 > u16::MAX {
        v
    } else {
        let box_height = vis + 3;
        let box_x = area.x + (if area.width > 52 { area.width - 52 } else { 0 }) / 2;
        let box_y = area.y + (area.height - box_height) / 2;
        let bg = Color::Ansi(235);
        let v1 = fill_box(v, box_y, box_y + box_height, box_x, box_x + 52, Cell {
            char: ' ',
            fg: Color::Ansi(252),
            bg,
            style: plain_style(),
            wide: false,
        });
        let v2 = boxed_view(v1, Rect { x: box_x as u16, y: box_y as u16, width: 52, height: box_height as u16 }, Color::Ansi(244), bg, plain_style());
        let hint_row = box_y + box_height - 2;
        let v3 = help_rows(v2, 0, vis, scroll, box_y, hint_row, box_x + 1);
        let up = scroll > 0;
        let down = scroll < n - vis;
        let hint = if up || down { "  ↑↓ scroll · Esc to close"@ } else { "  Press Esc to close"@ };
        let v4 = write_run(v3, hint_row, box_x + 1, box_x + 1, hint, Color::Ansi(244), bg, Style { dim: true, ..plain_style() });
        if up || down {
            put(v4, box_y + box_height / 2, box_x + 50, Cell {
                char: if up && down { '↕' } else if up { '↑' } else { '↓' },
                fg: Color::Ansi(244),
                bg,
                style: plain_style(),
                wide: false,
            })
        } else {
            v4
        }
    }
}

impl HelpOverlay {
    /// A hidden overlay.
    pub fn new() -> (r: Self)
        ensures
            r == (HelpOverlay { visible: false, scroll: 0, line_count: 0 }),
    {
        HelpOverlay { visible: false, scroll: 0, line_count: 0 }
    }

    /// Show or hide the overlay, scrolled to the top.
    pub fn toggle(&mut self)
        ensures
            *final(self) == (HelpOverlay { visible: !old(self).visible, scroll: 0, ..*old(self) }),
    {
        self.visible = !self.visible;
        self.scroll = 0;
    }

    /// Hide the overlay and reset its scroll.
    pub fn dismiss(&mut self)
        ensures
            *final(self) == help_dismissed(*old(self)),
    {
        self.visible = false;
        self.scroll = 0;
    }

    /// Answer a key while the overlay is shown (see [`help_key`]); returns
    /// whether the key goes on to the global key bindings.
    pub fn handle_key(&mut self, key: KeyEvent, rows: u16) -> (r: bool)
        ensures
            (*final(self), r) == help_key(*old(self), key, rows),
    {
        let plain = !key.modifiers.ctrl && !key.modifiers.alt;
        if key.key == Key::Char('h') && key.modifiers.ctrl {
            self.dismiss();
            false
        } else if key.key == Key::F(1) && plain {
            self.dismiss();
            false
        } else if key.key == Key::Escape {
            self.dismiss();
            false
        } else if (key.key == Key::Char('c') || key.key == Key::Char('d')) && key.modifiers.ctrl {
            self.dismiss();
            true
        } else if (key.key == Key::Up || key.key == Key::Char('k')) && plain {
            self.scroll = self.scroll.saturating_sub(1);
            false
        } else if (key.key == Key::Down || key.key == Key::Char('j')) && plain {
            self.scroll = self.scroll.saturating_add(1);
            false
        } else if key.key == Key::PageUp {
            self.scroll = self.scroll.saturating_sub(10);
            false
        } else if key.key == Key::PageDown {
            self.scroll = self.scroll.saturating_add(10);
            false
        } else if key.key == Key::Home {
            self.scroll = 0;
            false
        } else if key.key == Key::End {
            self.scroll = self.line_count.saturating_sub(help_content_height(rows));
            false
        } else {
            self.dismiss();
            false
        }
    }

    /// Scroll by three lines with the mouse wheel (`up` toward the top).
    pub fn wheel(&mut self, up: bool)
        ensures
            *final(self) == (if up {
                help_scrolled(*old(self), sub_floor(old(self).scroll as int, 3))
            } else {
                help_scrolled(*old(self), add_sat(old(self).scroll as int, 3))
            }),
    {
        if up {
            self.scroll = self.scroll.saturating_sub(3);
        } else {
            self.scroll = self.scroll.saturating_add(3);
        }
    }

    /// After a resize to `rows` rows, keep the scroll of a shown overlay
    /// within the text.
    pub fn clamp_for_rows(&mut self, rows: u16)
        ensures
            *final(self) == (if old(self).visible && old(self).scroll > sub_floor(old(self).line_count as int, help_height(rows) as int) {
                help_scrolled(*old(self), sub_floor(old(self).line_count as int, help_height(rows) as int))
            } else {
                *old(self)
            }),
    {
        if self.visible {
            let max_scroll = self.line_count.saturating_sub(help_content_height(rows));
            if self.scroll > max_scroll {
                self.scroll = max_scroll;
            }
        }
    }

    /// Draw the overlay centered in `area`: a bordered box with the scrolled
    /// help text, a hint row, and an arrow at the right when the text scrolls.
    /// Records the text's line count and keeps the scroll within the text.
    pub fn render(&mut self, screen: &mut Screen, area: Rect)
        requires
            old(screen).wf(),
            area.x + area.width <= u16::MAX,
            area.y + area.height <= u16::MAX,
        ensures
            final(screen).wf(),
            final(screen)@.width == old(screen)@.width,
            final(screen)@.height == old(screen)@.height,
            same_outside_rows(old(screen)@, final(screen)@, area.y as int, area.y + area.height),
            final(screen)@ == help_drawn(old(screen)@, final(self).scroll as int, area),
            final(self).visible == old(self).visible,
            final(self).line_count == help_text().len(),
            final(self).scroll == (if help_visible_lines(area.height) > 0
                && old(self).scroll > sub_floor(help_text().len() as int, help_visible_lines(area.height) as int) {
                sub_floor(help_text().len() as int, help_visible_lines(area.height) as int) as usize
            } else {
                old(self).scroll
            }),
    {
        proof {
            lemma_same_rows_refl(screen@, area.y as int, area.y + area.height);
        }
        let lines = help_content();
        let n = lines.len();
        self.line_count = n;
        assert(n == help_text().len());
        let box_width: u16 = 52;
        if area.height < 4 {
            return;
        }
        let max_content = (area.height - 3) as usize;
        let content_height = if max_content <= n { max_content } else { n };
        if content_height == 0 {
            return;
        }
        let visible_content_lines = content_height - 1;
        if visible_content_lines == 0 {
            return;
        }
        let max_scroll = n - visible_content_lines;
        if self.scroll > max_scroll {
            self.scroll = max_scroll;
        }
        if area.x as usize + box_width as usize > u16::MAX as usize {
            return;
        }
        let box_height = content_height as u16 + 2;
        let box_x = area.x + (area.width.saturating_sub(box_width)) / 2;
        let box_y = area.y + (area.height - box_height) / 2;
        let overlay_bg = Color::Ansi(235);
        let border_fg = Color::Ansi(244);
        let desc_fg = Color::Ansi(252);
        let box_rect = Rect::new(box_x, box_y, box_width, box_height);
        screen.fill_rect(box_rect, Cell { char: ' ', fg: desc_fg, bg: overlay_bg, style: Style::new(), wide: false });
        proof {
            lemma_same_rows_step(old(screen)@, old(screen)@, screen@, box_y as int, box_y + box_height, area.y as int, area.y + area.height);
            lemma_fill_box(old(screen)@, screen@, box_y as int, box_y + box_height, box_x as int, box_x + box_width, Cell {
                char: ' ',
                fg: desc_fg,
                bg: overlay_bg,
                style: plain_style(),
                wide: false,
            });
        }
        let ghost g0 = screen@;
        screen.draw_box(box_rect, border_fg, overlay_bg, Style::new());
        proof {
            lemma_same_rows_step(old(screen)@, g0, screen@, box_y as int, box_y + box_height, area.y as int, area.y + area.height);
            lemma_boxed_view(g0, screen@, box_rect, border_fg, overlay_bg, plain_style());
        }
        let ghost v2 = screen@;
        let content_x = box_x + 1;
        let content_width: usize = (box_width - 2) as usize;
        let hint_row = box_y + box_height - 2;
        let mut i: usize = 0;
        while i < visible_content_lines && self.scroll + i < n && (box_y as usize) + 1 + i < hint_row as usize
            invariant
                help_rows(screen@, i as int, visible_content_lines as int, self.scroll as int, box_y as int, hint_row as int, content_x as int)
                    == help_rows(v2, 0, visible_content_lines as int, self.scroll as int, box_y as int, hint_row as int, content_x as int),
                strs_view(lines@) == help_text(),
                content_x == box_x + 1,
                overlay_bg == Color::Ansi(235),
                screen.wf(),
                screen@.width == old(screen)@.width,
                screen@.height == old(screen)@.height,
                n == lines@.len(),
                self.scroll <= max_scroll,
                max_scroll + visible_content_lines == n,
                visible_content_lines < box_height,
                box_y + box_height <= u16::MAX,
                box_height >= 2,
                hint_row == box_y + box_height - 2,
                content_width == 50,
                area.y <= box_y,
                box_y + box_height <= area.y + area.height,
                same_outside_rows(old(screen)@, screen@, area.y as int, area.y + area.height),
            decreases visible_content_lines - i,
        {
            let row = box_y + 1 + i as u16;
            let line = lines[self.scroll + i];
            let (fg, style) = help_line_style(line);
            let mut display = String::new();
            if line.as_bytes().len() > content_width {
                push_str(&mut display, truncate_str(line, content_width - 1));
                string_push(&mut display, '…');
            } else {
                push_str(&mut display, line);
            }
            let ghost g1 = screen@;
            screen.write_str(row, content_x, display.as_str(), fg, overlay_bg, style);
            proof {
                lemma_same_rows_step(old(screen)@, g1, screen@, row as int, row + 1, area.y as int, area.y + area.height);
                assert(line@ == help_text()[self.scroll + i]);
                assert(display@ == help_display(line@));
            }
            i += 1;
        }
        let can_scroll_up = self.scroll > 0;
        let can_scroll_down = self.scroll < max_scroll;
        let hint = if can_scroll_up || can_scroll_down { "  ↑↓ scroll · Esc to close" } else { "  Press Esc to close" };
        let ghost g2 = screen@;
        screen.write_str(hint_row, content_x, hint, Color::Ansi(244), overlay_bg, Style::dim());
        proof {
            lemma_same_rows_step(old(screen)@, g2, screen@, hint_row as int, hint_row + 1, area.y as int, area.y + area.height);
        }
        if can_scroll_up || can_scroll_down {
            let scroll_char = if can_scroll_up && can_scroll_down {
                '↕'
            } else if can_scroll_up {
                '↑'
            } else {
                '↓'
            };
            let indicator_y = box_y + box_height / 2;
            let ghost g3 = screen@;
            screen.set_cell(
                indicator_y,
                box_x + box_width - 2,
                Cell { char: scroll_char, fg: border_fg, bg: overlay_bg, style: Style::new(), wide: false },
            );
            proof {
                lemma_same_rows_step(old(screen)@, g3, screen@, indicator_y as int, indicator_y + 1, area.y as int, area.y + area.height);
            }
        }
    }
}

/// Whether `line` contains `pat`.
fn contains(line: &[char], pat: &str) -> (r: bool)
    ensures
        r == help_contains(line@, pat@),
{
    find_chars(line, &chars_of(pat)).is_some()
}

/// The colors of a help line: the title yellow and bold, the rule gray,
/// section headers cyan and bold, lines naming keys white, others light gray.
fn help_line_style(line: &str) -> (r: (Color, Style))
    ensures
        r == help_line_look(line@),
{
    let cs = chars_of(line);
    if starts_with(&cs, &chars_of("  Keyboard Shortcuts")) {
        (Color::yellow(), Style::bold())
    } else if starts_with(&cs, &chars_of("  ────")) {
        (Color::Ansi(244), Style::new())
    } else if starts_with(&cs, &chars_of("  Global:"))
        || starts_with(&cs, &chars_of("  Input Bar:"))
        || starts_with(&cs, &chars_of("  Conversation:"))
        || starts_with(&cs, &chars_of("  File Browser"))
        || starts_with(&cs, &chars_of("  Confirm Prompt:"))
    {
        (Color::cyan(), Style::bold())
    } else if contains(&cs, "Ctrl+") || contains(&cs, "Shift+") || contains(&cs, "Alt+") || contains(&cs, "Tab")
        || contains(&cs, "Enter") || contains(&cs, "Escape") || contains(&cs, "PageUp") || contains(&cs, "Home")
        || contains(&cs, "End") || contains(&cs, "Up/Down") || contains(&cs, "/")
    {
        (Color::white(), Style::new())
    } else {
        (Color::Ansi(252), Style::new())
    }
}

// ── The application ──────────────────────────────────────────────────────────

/// The status bar with its texts as character sequences.
pub struct StatusView {
    pub mode_label: Seq<char>,
    pub mode_color: Color,
    pub model_name: Seq<char>,
    pub token_count: Option<(u32, u32)>,
    pub message_count: usize,
    pub pinned_file_count: usize,
    pub session_name: Seq<char>,
    pub is_streaming: bool,
    pub focus_label: Seq<char>,
}

/// The view of a status bar.
pub open spec fn status_view(w: StatusBarWidget) -> StatusView {
    StatusView {
        mode_label: w.mode_label@,
        mode_color: w.mode_color,
        model_name: w.model_name@,
        token_count: w.token_count,
        message_count: w.message_count,
        pinned_file_count: w.pinned_file_count,
        session_name: w.session_name@,
        is_streaming: w.is_streaming,
        focus_label: w.focus_label@,
    }
}

/// The shared state with its texts as character sequences.
pub struct StateView {
    pub mode: Seq<char>,
    pub model_name: Seq<char>,
    pub sidebar_visible: bool,
    pub streaming: bool,
    pub token_count: Option<u64>,
    pub token_limit: Option<u64>,
    pub session_name: Seq<char>,
    pub message_count: usize,
}

/// The view of the shared state.
pub open spec fn state_view(s: TuiState) -> StateView {
    StateView {
        mode: s.mode@,
        model_name: s.model_name@,
        sidebar_visible: s.sidebar_visible,
        streaming: s.streaming,
        token_count: s.token_count,
        token_limit: s.token_limit,
        session_name: s.session_name@,
        message_count: s.message_count,
    }
}

/// Where the widgets are drawn: the status bar, the conversation, the
/// sidebar (empty when hidden), the input bar and the tool output panel
/// (empty when hidden).
#[derive(Clone, Copy, Debug, PartialEq, Eq, Structural)]
pub struct AppLayout {
    pub status: Rect,
    pub conversation: Rect,
    pub sidebar: Rect,
    pub input: Rect,
    pub tool_output: Rect,
}

/// The state of the application: its widgets, the focus, the shared state,
/// the text of the response being streamed, the reasoning text being
/// streamed, whether a tool confirmation is awaited, the answers offered to
/// the pending question, the help overlay, whether the tool output panel is
/// shown, and the terminal size.
pub struct AppView {
    pub status: StatusView,
    pub conversation: ConversationState,
    pub sidebar: SidebarState,
    pub input: InputBarState,
    pub tools: ToolOutputState,
    pub focus: Focus,
    pub state: StateView,
    pub running: bool,
    pub streaming_text: Seq<char>,
    pub is_streaming: bool,
    pub is_thinking: bool,
    pub thinking_text: Seq<char>,
    pub confirming: bool,
    pub answers: Seq<Seq<char>>,
    pub help: HelpOverlay,
    pub tool_output_visible: bool,
    pub size: Size,
}

/// The application's well-formedness: that of the conversation and of the input bar.
pub open spec fn app_wf(v: AppView) -> bool {
    conv_inv(v.conversation) && state_inv(v.input)
}

/// Whether `(row, col)` lies in `r`.
pub open spec fn rect_has(r: Rect, row: int, col: int) -> bool {
    r.y <= row < r.y + r.height && r.x <= col < r.x + r.width
}

/// Streaming switched on or off, in the shared state and on the status bar.
pub open spec fn with_streaming(v: AppView, on: bool) -> AppView {
    AppView {
        state: StateView { streaming: on, ..v.state },
        status: StatusView { is_streaming: on, ..v.status },
        ..v
    }
}

/// Focus moved to `f`: the input bar is focused for the input bar and the
/// conversation, the status bar shows the focus, and focusing the sidebar
/// shows it and opens its file browser, while any other focus closes it.
pub open spec fn focus_set(v: AppView, f: Focus) -> AppView {
    let v1 = AppView {
        focus: f,
        input: InputBarState { focused: f == Focus::InputBar || f == Focus::Conversation, ..v.input },
        status: StatusView { focus_label: focus_label_spec(f), ..v.status },
        ..v
    };
    if f == Focus::Sidebar || f == Focus::Structure {
        AppView {
            sidebar: entered_structure(SidebarState { visible: true, ..v.sidebar }),
            state: StateView { sidebar_visible: true, ..v.state },
            ..v1
        }
    } else {
        AppView { sidebar: SidebarState { mode: false, ..v.sidebar }, ..v1 }
    }
}

/// Focus moved one step along the cycle.
pub open spec fn focus_cycled(v: AppView, forward: bool) -> AppView {
    focus_set(v, next_focus_spec(v.focus, forward, v.tool_output_visible))
}

/// The help overlay shown or hidden, scrolled to the top.
pub open spec fn help_toggled(v: AppView) -> AppView {
    AppView { help: HelpOverlay { visible: !v.help.visible, scroll: 0, ..v.help }, ..v }
}

/// Whether `k` is the character `c` pressed with Ctrl.
pub open spec fn ctrl_char_key(k: KeyEvent, c: char) -> bool {
    k.key == Key::Char(c) && k.modifiers.ctrl
}

/// The global key bindings: Ctrl+C interrupts a streaming response or quits,
/// Ctrl+D quits, Ctrl+S toggles the sidebar, Ctrl+P focuses the file browser
/// when the sidebar is shown, Ctrl+F toggles the search and focuses the
/// conversation while it is open, F1 and Ctrl+H toggle the help, Ctrl+T
/// toggles the tool output panel and expands its results when shown. `None`
/// for any other key.
pub open spec fn global_key(v: AppView, k: KeyEvent) -> Option<(AppView, ActionView)> {
    if ctrl_char_key(k, 'c') {
        if v.state.streaming {
            Some((with_streaming(v, false), ActionView::Interrupt))
        } else {
            Some((v, ActionView::Quit))
        }
    } else if ctrl_char_key(k, 'd') {
        Some((v, ActionView::Quit))
    } else if ctrl_char_key(k, 's') {
        Some((AppView { state: StateView { sidebar_visible: !v.state.sidebar_visible, ..v.state }, ..v }, ActionView::ToggleSidebar))
    } else if ctrl_char_key(k, 'p') {
        Some((if v.state.sidebar_visible { focus_set(v, Focus::Structure) } else { v }, ActionView::NoOp))
    } else if ctrl_char_key(k, 'f') {
        let c = toggled_search(v.conversation);
        Some((
            focus_set(AppView { conversation: c, ..v }, if c.search_active { Focus::Conversation } else { Focus::InputBar }),
            ActionView::NoOp,
        ))
    } else if k.key == Key::F(1) && !k.modifiers.ctrl && !k.modifiers.alt {
        Some((help_toggled(v), ActionView::NoOp))
    } else if ctrl_char_key(k, 'h') {
        Some((help_toggled(v), ActionView::NoOp))
    } else if ctrl_char_key(k, 't') {
        let shown = !v.tool_output_visible;
        Some((
            AppView { tool_output_visible: shown, tools: if shown { uncollapsed(v.tools) } else { v.tools }, ..v },
            ActionView::NoOp,
        ))
    } else {
        None
    }
}

/// The conversation scrolled up by `n` rows, no longer following the latest line.
pub open spec fn conv_up(c: ConversationState, n: nat) -> ConversationState {
    ConversationState {
        scroll_offset: (if c.scroll_offset >= n { c.scroll_offset - n } else { 0 }) as nat,
        auto_scroll: false,
        ..c
    }
}

/// The conversation scrolled down by `n` rows.
pub open spec fn conv_down(c: ConversationState, n: nat) -> ConversationState {
    ConversationState { scroll_offset: sat_add(c.scroll_offset as int, n as int) as nat, ..c }
}

/// The conversation following its latest line.
pub open spec fn conv_bottom(c: ConversationState) -> ConversationState {
    ConversationState { auto_scroll: true, ..c }
}

/// The scroll keys: PageUp and PageDown scroll the sidebar by 10 rows when
/// it has the focus and the conversation by 20 otherwise, Home scrolls it to
/// the top, End makes the conversation follow its latest line, Alt+Up and
/// Alt+Down scroll the conversation by 3. `None` for any other key.
pub open spec fn scroll_key(v: AppView, k: KeyEvent) -> Option<AppView> {
    let side = v.focus == Focus::Sidebar || v.focus == Focus::Structure;
    if k.key == Key::PageUp {
        Some(if side { AppView { sidebar: scrolled(v.sidebar, -10), ..v } } else { AppView { conversation: conv_up(v.conversation, 20), ..v } })
    } else if k.key == Key::PageDown {
        Some(if side { AppView { sidebar: scrolled(v.sidebar, 10), ..v } } else { AppView { conversation: conv_down(v.conversation, 20), ..v } })
    } else if k.key == Key::Home {
        Some(if side {
            AppView { sidebar: SidebarState { scroll_offset: 0, ..v.sidebar }, ..v }
        } else {
            AppView { conversation: ConversationState { scroll_offset: 0, auto_scroll: false, ..v.conversation }, ..v }
        })
    } else if k.key == Key::End {
        Some(if side { v } else { AppView { conversation: conv_bottom(v.conversation), ..v } })
    } else if k.key == Key::Up && k.modifiers.alt {
        Some(AppView { conversation: conv_up(v.conversation, 3), ..v })
    } else if k.key == Key::Down && k.modifiers.alt {
        Some(AppView { conversation: conv_down(v.conversation, 3), ..v })
    } else {
        None
    }
}

/// An event handled by the focused widget: a message sent from the input
/// bar makes the conversation follow its latest line; the conversation
/// handles events while its search is open and otherwise hands the focus
/// back to the input bar; Tab and Shift+Tab in the file browser close it
/// and move the focus along the cycle.
pub open spec fn routed(v: AppView, e: Event) -> (AppView, ActionView) {
    match v.focus {
        Focus::InputBar => {
            let (i, a) = input_event(v.input, e);
            let v1 = AppView { input: i, ..v };
            (if a is SendMessage { AppView { conversation: conv_bottom(v1.conversation), ..v1 } } else { v1 }, a)
        },
        Focus::Conversation => if v.conversation.search_active {
            let (c, a) = conv_event(v.conversation, e);
            (AppView { conversation: c, ..v }, a)
        } else {
            let v1 = focus_set(v, Focus::InputBar);
            let (i, a) = input_event(v1.input, e);
            (AppView { input: i, ..v1 }, a)
        },
        Focus::ToolOutput => (AppView { tools: tool_event(v.tools, e), ..v }, ActionView::NoOp),
        Focus::Sidebar => {
            let (sb, a) = sidebar_event(v.sidebar, e);
            (AppView { sidebar: sb, ..v }, a)
        },
        Focus::Structure => {
            let closed = AppView { sidebar: SidebarState { mode: false, ..v.sidebar }, ..v };
            if e matches Event::Key(k) && k.key == Key::Tab {
                (focus_cycled(closed, true), ActionView::NoOp)
            } else if e matches Event::Key(k) && k.key == Key::BackTab {
                (focus_cycled(closed, false), ActionView::NoOp)
            } else {
                let (sb, a) = sidebar_event(v.sidebar, e);
                (AppView { sidebar: sb, ..v }, a)
            }
        },
    }
}

/// Whether a click can be placed on an input bar drawn in `area`: the
/// prompt ends within the coordinate range.
pub open spec fn click_fits(s: InputBarState, area: Rect) -> bool {
    area.y < u16::MAX && area.x + prompt_width(s) <= u16::MAX
}

/// The input bar after a click at `(row, col)`: the cursor moves there,
/// unless a confirmation or a question is pending.
pub open spec fn clicked_input(s: InputBarState, row: int, col: int, area: Rect) -> InputBarState {
    if s.confirming || s.questioning {
        s
    } else {
        move_to(s, click_cursor(s, row, col, area))
    }
}

/// A mouse press at `(row, col)`: on the status bar nothing happens; on the
/// input bar it takes the focus and a left click places the cursor; on a
/// shown sidebar the file browser takes the focus and a left click selects
/// or opens an entry; on the conversation with its search open, the
/// conversation takes the focus.
pub open spec fn mouse_clicked(v: AppView, row: u16, col: u16, button: MouseButton, l: AppLayout) -> AppView {
    if rect_has(l.status, row as int, col as int) {
        v
    } else if rect_has(l.input, row as int, col as int) {
        let v1 = if v.focus != Focus::InputBar { focus_set(v, Focus::InputBar) } else { v };
        if button == MouseButton::Left && click_fits(v1.input, l.input) {
            AppView { input: clicked_input(v1.input, row as int, col as int, l.input), ..v1 }
        } else {
            v1
        }
    } else if v.state.sidebar_visible && !(l.sidebar.width == 0 || l.sidebar.height == 0) && rect_has(l.sidebar, row as int, col as int) {
        let v1 = if v.focus != Focus::Structure { focus_set(v, Focus::Structure) } else { v };
        if button == MouseButton::Left {
            AppView { sidebar: click_state(v1.sidebar, row as int, l.sidebar), ..v1 }
        } else {
            v1
        }
    } else if rect_has(l.conversation, row as int, col as int) {
        if v.conversation.search_active && v.focus != Focus::Conversation { focus_set(v, Focus::Conversation) } else { v }
    } else {
        v
    }
}

/// The mouse wheel turned on row `row` (`up` toward the top): it scrolls by
/// three rows the shown sidebar when the row's first column lies in it, or
/// else the conversation when that column lies in it.
pub open spec fn wheel_scrolled(v: AppView, row: u16, up: bool, l: AppLayout) -> AppView {
    if rect_has(l.sidebar, row as int, 0) && v.state.sidebar_visible {
        AppView { sidebar: scrolled(v.sidebar, if up { -3 } else { 3 }), ..v }
    } else if rect_has(l.conversation, row as int, 0) {
        AppView { conversation: if up { conv_up(v.conversation, 3) } else { conv_down(v.conversation, 3) }, ..v }
    } else {
        v
    }
}

/// The help overlay after a resize to `rows` rows.
pub open spec fn help_clamped(h: HelpOverlay, rows: u16) -> HelpOverlay {
    if h.visible && h.scroll > sub_floor(h.line_count as int, help_height(rows) as int) {
        help_scrolled(h, sub_floor(h.line_count as int, help_height(rows) as int))
    } else {
        h
    }
}

/// The help overlay after a turn of the mouse wheel.
pub open spec fn help_wheeled(h: HelpOverlay, up: bool) -> HelpOverlay {
    if up {
        help_scrolled(h, sub_floor(h.scroll as int, 3))
    } else {
        help_scrolled(h, add_sat(h.scroll as int, 3))
    }
}

/// An event once the help overlay has let it through: keys go to the global
/// bindings, then the scroll keys, then the focused widget; a resize records
/// the size and keeps the help scroll within its text; the wheel scrolls
/// the shown help or the widget under the pointer; a press is a click.
pub open spec fn after_help(v: AppView, e: Event, l: AppLayout) -> (AppView, ActionView) {
    match e {
        Event::Key(k) => match global_key(v, k) {
            Some(r) => r,
            None => match scroll_key(v, k) {
                Some(v2) => (v2, ActionView::NoOp),
                None => routed(v, e),
            },
        },
        Event::Resize { cols, rows } => (
            AppView { size: Size { cols, rows }, help: help_clamped(v.help, rows), ..v },
            ActionView::NoOp,
        ),
        Event::Mouse(MouseEvent::ScrollUp { row, col }) => (
            if v.help.visible { AppView { help: help_wheeled(v.help, true), ..v } } else { wheel_scrolled(v, row, true, l) },
            ActionView::NoOp,
        ),
        Event::Mouse(MouseEvent::ScrollDown { row, col }) => (
            if v.help.visible { AppView { help: help_wheeled(v.help, false), ..v } } else { wheel_scrolled(v, row, false, l) },
            ActionView::NoOp,
        ),
        Event::Mouse(MouseEvent::Press { row, col, button }) => (mouse_clicked(v, row, col, button, l), ActionView::NoOp),
        _ => routed(v, e),
    }
}

/// The application's response to an input event, with the widgets laid out
/// as `l`: while the help overlay is shown it takes the keys first (see
/// [`help_key`]), letting only Ctrl+C and Ctrl+D through.
pub open spec fn app_event(v: AppView, e: Event, l: AppLayout) -> (AppView, ActionView) {
    match e {
        Event::Key(k) => if v.help.visible {
            let (h, pass) = help_key(v.help, k, v.size.rows);
            let v1 = AppView { help: h, ..v };
            if pass { after_help(v1, e, l) } else { (v1, ActionView::NoOp) }
        } else {
            after_help(v, e, l)
        },
        _ => after_help(v, e, l),
    }
}

/// The terminal application: the widgets, the focus and the state shared
/// with the agent task. Input events and agent events come in; actions for
/// the agent task go out.
pub struct TuiApp {
    status_bar: StatusBarWidget,
    conversation: ConversationWidget,
    sidebar: SidebarWidget,
    input_bar: InputBarWidget,
    tool_output: ToolOutputWidget,
    focus: Focus,
    state: TuiState,
    running: bool,
    streaming_text: String,
    is_streaming: bool,
    is_thinking: bool,
    thinking_text: String,
    confirming: bool,
    pending_question_answers: Vec<String>,
    help: HelpOverlay,
    tool_output_visible: bool,
    size: Size,
}

impl View for TuiApp {
    type V = AppView;

    closed spec fn view(&self) -> AppView {
        AppView {
            status: status_view(self.status_bar),
            conversation: self.conversation@,
            sidebar: self.sidebar@,
            input: self.input_bar@,
            tools: self.tool_output@,
            focus: self.focus,
            state: state_view(self.state),
            running: self.running,
            streaming_text: self.streaming_text@,
            is_streaming: self.is_streaming,
            is_thinking: self.is_thinking,
            thinking_text: self.thinking_text@,
            confirming: self.confirming,
            answers: self.pending_question_answers@.map_values(|a: String| a@),
            help: self.help,
            tool_output_visible: self.tool_output_visible,
            size: self.size,
        }
    }
}

impl TuiApp {
    /// The application's well-formedness (see [`app_wf`]).
    pub open spec fn wf(&self) -> bool {
        app_wf(self@)
    }

    /// Switch streaming on or off (see [`with_streaming`]).
    pub fn set_streaming(&mut self, streaming: bool)
        ensures
            final(self)@ == with_streaming(old(self)@, streaming),
    {
        self.state.streaming = streaming;
        self.status_bar.set_streaming(streaming);
    }

    /// Move the focus (see [`focus_set`]).
    pub fn set_focus(&mut self, focus: Focus)
        requires
            old(self).wf(),
        ensures
            final(self)@ == focus_set(old(self)@, focus),
            final(self).wf(),
    {
        self.focus = focus;
        self.input_bar.set_focus(focus == Focus::InputBar || focus == Focus::Conversation);
        self.status_bar.set_focus_label(focus_label(focus));
        if focus == Focus::Sidebar || focus == Focus::Structure {
            self.sidebar.set_visible(true);
            self.state.sidebar_visible = true;
            self.sidebar.enter_structure_mode();
        } else {
            self.sidebar.exit_structure_mode();
        }
    }

    /// Move the focus one step along the cycle (see [`focus_cycled`]).
    pub fn cycle_focus(&mut self, forward: bool)
        requires
            old(self).wf(),
        ensures
            final(self)@ == focus_cycled(old(self)@, forward),
            final(self).wf(),
    {
        let f = next_focus(self.focus, forward, self.tool_output_visible);
        self.set_focus(f);
    }

    /// The global key bindings (see [`global_key`]).
    fn global_key(&mut self, k: KeyEvent) -> (r: Option<Action>)
        requires
            old(self).wf(),
        ensures
            final(self).wf(),
            match global_key(old(self)@, k) {
                Some(p) => r matches Some(a) && final(self)@ == p.0 && a@ == p.1,
                None => r is None && final(self)@ == old(self)@,
            },
    {
        let ctrl = k.modifiers.ctrl;
        if k.key == Key::Char('c') && ctrl {
            if self.state.streaming {
                self.set_streaming(false);
                return Some(Action::Interrupt);
            }
            return Some(Action::Quit);
        }
        if k.key == Key::Char('d') && ctrl {
            return Some(Action::Quit);
        }
        if k.key == Key::Char('s') && ctrl {
            self.state.sidebar_visible = !self.state.sidebar_visible;
            return Some(Action::ToggleSidebar);
        }
        if k.key == Key::Char('p') && ctrl {
            if self.state.sidebar_visible {
                self.set_focus(Focus::Structure);
            }
            return Some(Action::NoOp);
        }
        if k.key == Key::Char('f') && ctrl {
            self.conversation.toggle_search();
            let f = if self.conversation.is_search_active() { Focus::Conversation } else { Focus::InputBar };
            self.set_focus(f);
            return Some(Action::NoOp);
        }
        if k.key == Key::F(1) && !ctrl && !k.modifiers.alt {
            self.help.toggle();
            return Some(Action::NoOp);
        }
        if k.key == Key::Char('h') && ctrl {
            self.help.toggle();
            return Some(Action::NoOp);
        }
        if k.key == Key::Char('t') && ctrl {
            self.tool_output_visible = !self.tool_output_visible;
            if self.tool_output_visible {
                self.tool_output.un_collapse_all();
            }
            return Some(Action::NoOp);
        }
        None
    }

    /// The scroll keys (see [`scroll_key`]); returns whether the key was one.
    fn scroll_key(&mut self, k: KeyEvent) -> (r: bool)
        requires
            old(self).wf(),
        ensures
            final(self).wf(),
            match scroll_key(old(self)@, k) {
                Some(v) => r && final(self)@ == v,
                None => !r && final(self)@ == old(self)@,
            },
    {
        let side = self.focus == Focus::Sidebar || self.focus == Focus::Structure;
        if k.key == Key::PageUp {
            if side {
                self.sidebar.scroll_up(10);
            } else {
                self.conversation.scroll_up(20);
            }
            return true;
        }
        if k.key == Key::PageDown {
            if side {
                self.sidebar.scroll_down(10);
            } else {
                self.conversation.scroll_down(20);
            }
            return true;
        }
        if k.key == Key::Home {
            if side {
                self.sidebar.scroll_home();
            } else {
                self.conversation.scroll_home();
            }
            return true;
        }
        if k.key == Key::End {
            if !side {
                self.conversation.scroll_to_bottom();
            }
            return true;
        }
        if k.key == Key::Up && k.modifiers.alt {
            self.conversation.scroll_up(3);
            return true;
        }
        if k.key == Key::Down && k.modifiers.alt {
            self.conversation.scroll_down(3);
            return true;
        }
        false
    }

    /// Hand an event to the focused widget (see [`routed`]).
    #[verifier::rlimit(30)]
    #[verifier::spinoff_prover]
    fn route(&mut self, event: &Event) -> (r: Action)
        requires
            old(self).wf(),
        ensures
            final(self).wf(),
            (final(self)@, r@) == routed(old(self)@, *event),
    {
        match self.focus {
            Focus::InputBar => {
                let a = self.input_bar.handle_event(event);
                if let Action::SendMessage(_) = a {
                    self.conversation.scroll_to_bottom();
                }
                a
            },
            Focus::Conversation => {
                if self.conversation.is_search_active() {
                    self.conversation.handle_event(event)
                } else {
                    self.set_focus(Focus::InputBar);
                    self.input_bar.handle_event(event)
                }
            },
            Focus::ToolOutput => self.tool_output.handle_event(event),
            Focus::Sidebar => self.sidebar.handle_event(event),
            Focus::Structure => {
                if let Event::Key(k) = event {
                    if k.key == Key::Tab {
                        self.sidebar.exit_structure_mode();
                        self.cycle_focus(true);
                        return Action::NoOp;
                    }
                    if k.key == Key::BackTab {
                        self.sidebar.exit_structure_mode();
                        self.cycle_focus(false);
                        return Action::NoOp;
                    }
                }
                self.sidebar.handle_event(event)
            },
        }
    }

    /// A mouse press (see [`mouse_clicked`]).
    fn mouse_click(&mut self, row: u16, col: u16, button: MouseButton, layout: AppLayout)
        requires
            old(self).wf(),
        ensures
            final(self).wf(),
            final(self)@ == mouse_clicked(old(self)@, row, col, button, layout),
    {
        if rect_contains(layout.status, row, col) {
            return;
        }
        if rect_contains(layout.input, row, col) {
            if self.focus != Focus::InputBar {
                self.set_focus(Focus::InputBar);
            }
            if button == MouseButton::Left {
                let pw = self.input_bar.prompt_columns();
                if layout.input.y < u16::MAX && (layout.input.x as u32) + (pw as u32) <= 65535 {
                    self.input_bar.click_to_cursor(row, col, layout.input);
                }
            }
            return;
        }
        if self.state.sidebar_visible && !layout.sidebar.is_empty() && rect_contains(layout.sidebar, row, col) {
            if self.focus != Focus::Structure {
                self.set_focus(Focus::Structure);
            }
            if button == MouseButton::Left {
                self.sidebar.click_structure_entry(row, col, layout.sidebar);
            }
            return;
        }
        if rect_contains(layout.conversation, row, col) {
            if self.conversation.is_search_active() && self.focus != Focus::Conversation {
                self.set_focus(Focus::Conversation);
            }
        }
    }

    /// A turn of the mouse wheel (see [`wheel_scrolled`]).
    fn mouse_scroll(&mut self, row: u16, up: bool, layout: AppLayout)
        requires
            old(self).wf(),
        ensures
            final(self).wf(),
            final(self)@ == wheel_scrolled(old(self)@, row, up, layout),
    {
        if rect_contains(layout.sidebar, row, 0) && self.state.sidebar_visible {
            if up {
                self.sidebar.scroll_up(3);
            } else {
                self.sidebar.scroll_down(3);
            }
        } else if rect_contains(layout.conversation, row, 0) {
            if up {
                self.conversation.scroll_up(3);
            } else {
                self.conversation.scroll_down(3);
            }
        }
    }

    /// An event once the help overlay has let it through (see [`after_help`]).
    fn after_help(&mut self, event: &Event, layout: AppLayout) -> (r: Action)
        requires
            old(self).wf(),
        ensures
            final(self).wf(),
            (final(self)@, r@) == after_help(old(self)@, *event, layout),
    {
        match event {
            Event::Key(k) => {
                let g = self.global_key(*k);
                if let Some(a) = g {
                    return a;
                }
                if self.scroll_key(*k) {
                    return Action::NoOp;
                }
                self.route(event)
            },
            Event::Resize { cols, rows } => {
                self.size = Size { cols: *cols, rows: *rows };
                self.help.clamp_for_rows(*rows);
                Action::NoOp
            },
            Event::Mouse(MouseEvent::ScrollUp { row, .. }) => {
                if self.help.visible {
                    self.help.wheel(true);
                } else {
                    self.mouse_scroll(*row, true, layout);
                }
                Action::NoOp
            },
            Event::Mouse(MouseEvent::ScrollDown { row, .. }) => {
                if self.help.visible {
                    self.help.wheel(false);
                } else {
                    self.mouse_scroll(*row, false, layout);
                }
                Action::NoOp
            },
            Event::Mouse(MouseEvent::Press { row, col, button }) => {
                self.mouse_click(*row, *col, *button, layout);
                Action::NoOp
            },
            _ => self.route(event),
        }
    }

    /// Handle an input event with the widgets laid out as `layout` (see
    /// [`app_event`]), returning the action it requests.
    pub fn handle_event(&mut self, event: &Event, layout: AppLayout) -> (r: Action)
        requires
            old(self).wf(),
        ensures
            final(self).wf(),
            (final(self)@, r@) == app_event(old(self)@, *event, layout),
    {
        if let Event::Key(k) = event {
            if self.help.visible {
                let pass = self.help.handle_key(*k, self.size.rows);
                if !pass {
                    return Action::NoOp;
                }
            }
        }
        self.after_help(event, layout)
    }
}

/// The application state with the conversation lines and tool results taken
/// by their views (see [`deep`]).
pub struct AppDeep {
    /// The state with no conversation lines and no tool results.
    pub app: AppView,
    pub lines: Seq<LineView>,
    pub results: Seq<ResultView>,
}

/// The application state with its conversation lines and tool results
/// compared by their texts.
pub open spec fn deep(v: AppView) -> AppDeep {
    AppDeep {
        app: AppView {
            conversation: ConversationState { lines: Seq::empty(), ..v.conversation },
            tools: ToolOutputState { results: Seq::empty(), ..v.tools },
            ..v
        },
        lines: v.conversation.lines.map_values(|l: ConversationLine| l@),
        results: v.tools.results.map_values(|r: ToolResult| r@),
    }
}

/// A line added to the conversation.
pub open spec fn with_line(d: AppDeep, l: LineView) -> AppDeep {
    AppDeep { lines: d.lines.push(l), ..d }
}

/// A tool result as added to the tool output panel: collapsed, with no
/// argument summary, failed with the content as message or succeeded in no time.
pub open spec fn tool_result_view(name: Seq<char>, content: Seq<char>, is_error: bool) -> ResultView {
    ResultView {
        name,
        args_summary: Seq::empty(),
        content,
        is_error,
        collapsed: true,
        status: if is_error { ToolStatusView::Error(content) } else { ToolStatusView::Success(0) },
    }
}

/// The context size as kept by the status bar: both counts as 32 bits, none
/// when the size is unknown.
pub open spec fn token_pair(used: u64, total: Option<u64>) -> Option<(u32, u32)> {
    match total {
        Some(t) => Some((used as u32, t as u32)),
        None => None,
    }
}

/// The widgets brought in line with the shared state: the status bar and the
/// input bar show its mode and model, the status bar its session, message
/// count, token count (when known) and streaming flag, and the sidebar is
/// shown as the state says.
pub open spec fn synced(v: AppView) -> AppView {
    let s = v.state;
    AppView {
        status: StatusView {
            mode_label: s.mode,
            mode_color: mode_color_of(s.mode),
            model_name: s.model_name,
            session_name: s.session_name,
            message_count: s.message_count,
            token_count: match s.token_count {
                Some(c) => token_pair(c, s.token_limit),
                None => v.status.token_count,
            },
            is_streaming: s.streaming,
            ..v.status
        },
        input: InputBarState { mode_label: s.mode, mode_color: mode_color_of(s.mode), model_name: s.model_name, ..v.input },
        sidebar: SidebarState { visible: s.sidebar_visible, ..v.sidebar },
        ..v
    }
}

/// The value of a string of decimal digits.
pub open spec fn digits_value(s: Seq<char>) -> nat
    decreases s.len(),
{
    if s.len() == 0 {
        0
    } else {
        digits_value(s.drop_last()) * 10 + (s.last() as nat - '0' as nat) as nat
    }
}

/// Whether every character is a decimal digit.
pub open spec fn all_digits(s: Seq<char>) -> bool {
    forall|i: int| 0 <= i < s.len() ==> '0' <= #[trigger] s[i] <= '9'
}

/// A string read as an unsigned machine-size number: an optional `+` and
/// one or more decimal digits, of a value that fits.
pub open spec fn parsed_index(s: Seq<char>) -> Option<nat> {
    let d = if s.len() > 0 && s[0] == '+' { s.drop_first() } else { s };
    if d.len() > 0 && all_digits(d) && digits_value(d) <= usize::MAX {
        Some(digits_value(d))
    } else {
        None
    }
}

/// The answer given to a question: a number from 1 to the number of offered
/// answers picks that answer; anything else is the answer as typed.
pub open spec fn resolved_answer(answers: Seq<Seq<char>>, input: Seq<char>) -> Seq<char> {
    match parsed_index(input) {
        Some(n) => if 1 <= n <= answers.len() { answers[n - 1] } else { input },
        None => input,
    }
}

/// The state after a tool confirmation is answered.
pub open spec fn confirm_answered(v: AppView) -> AppView {
    AppView { confirming: false, input: InputBarState { confirming: false, ..v.input }, ..v }
}

/// The application's response to an action of a widget: the new state and
/// the request to send to the agent task, if any. A sent message is added
/// to the conversation and counted; the answer to a question is resolved
/// against the offered answers (see [`resolved_answer`]).
pub open spec fn app_action(v: AppView, a: Action) -> (AppView, Option<UserActionView>) {
    match a {
        Action::Quit => (AppView { running: false, ..v }, Some(UserActionView::Quit)),
        Action::SendMessage(t) => (
            AppView {
                conversation: ConversationState { lines: v.conversation.lines.push(ConversationLine::User { text: t }), ..v.conversation },
                state: StateView { message_count: add_sat(v.state.message_count as int, 1) as usize, ..v.state },
                ..v
            },
            Some(UserActionView::SendMessage(t@)),
        ),
        Action::ToggleSidebar => (AppView { state: StateView { sidebar_visible: !v.state.sidebar_visible, ..v.state }, ..v }, None),
        Action::SwitchMode(m) => (synced(AppView { state: StateView { mode: m@, ..v.state }, ..v }), None),
        Action::CycleFocusForward => (focus_cycled(v, true), None),
        Action::CycleFocusBackward => (focus_cycled(v, false), None),
        Action::ScrollUp => (AppView { conversation: conv_up(v.conversation, 3), ..v }, None),
        Action::ScrollDown => (AppView { conversation: conv_down(v.conversation, 3), ..v }, None),
        Action::PageUp => (AppView { conversation: conv_up(v.conversation, 20), ..v }, None),
        Action::PageDown => (AppView { conversation: conv_down(v.conversation, 20), ..v }, None),
        Action::ConfirmYes => (confirm_answered(v), Some(UserActionView::ConfirmResponse(true, false))),
        Action::ConfirmNo => (confirm_answered(v), Some(UserActionView::ConfirmResponse(false, false))),
        Action::ConfirmAll => (confirm_answered(v), Some(UserActionView::ConfirmResponse(true, true))),
        Action::AnswerQuestion(t) => (
            AppView { input: InputBarState { questioning: false, answer_count: 0, ..v.input }, answers: Seq::empty(), ..v },
            Some(UserActionView::QuestionAnswer(resolved_answer(v.answers, t@))),
        ),
        Action::Interrupt => (v, Some(UserActionView::Interrupt)),
        Action::ExitStructureMode => (focus_set(v, Focus::InputBar), None),
        Action::NoOp => (v, None),
    }
}

proof fn lemma_deep_push_line(v: AppView, l: ConversationLine)
    ensures
        deep(AppView { conversation: ConversationState { lines: v.conversation.lines.push(l), ..v.conversation }, ..v })
            == with_line(deep(v), l@),
{
    let w = AppView { conversation: ConversationState { lines: v.conversation.lines.push(l), ..v.conversation }, ..v };
    assert(w.conversation.lines.map_values(|x: ConversationLine| x@) =~= v.conversation.lines.map_values(|x: ConversationLine| x@).push(l@));
    assert(deep(w).app == deep(v).app);
}

proof fn lemma_deep_set_last(v: AppView, l: ConversationLine)
    requires
        v.conversation.lines.len() > 0,
    ensures
        deep(AppView {
            conversation: ConversationState {
                lines: v.conversation.lines.update(v.conversation.lines.len() - 1, l),
                ..v.conversation
            },
            ..v
        }) == (AppDeep { lines: deep(v).lines.update(deep(v).lines.len() - 1, l@), ..deep(v) }),
{
    let n = v.conversation.lines.len();
    let w = AppView { conversation: ConversationState { lines: v.conversation.lines.update(n - 1, l), ..v.conversation }, ..v };
    assert(w.conversation.lines.map_values(|x: ConversationLine| x@)
        =~= v.conversation.lines.map_values(|x: ConversationLine| x@).update(n - 1, l@));
    assert(deep(w).app == deep(v).app);
}

proof fn lemma_deep_push_result(v: AppView, r: ToolResult)
    ensures
        deep(AppView { tools: ToolOutputState { results: v.tools.results.push(r), ..v.tools }, ..v })
            == (AppDeep { results: deep(v).results.push(r@), ..deep(v) }),
{
    let w = AppView { tools: ToolOutputState { results: v.tools.results.push(r), ..v.tools }, ..v };
    assert(w.tools.results.map_values(|x: ToolResult| x@) =~= v.tools.results.map_values(|x: ToolResult| x@).push(r@));
    assert(deep(w).app == deep(v).app);
}

proof fn lemma_digits_step(s: Seq<char>, i: int)
    requires
        0 <= i < s.len(),
        all_digits(s),
    ensures
        digits_value(s.take(i + 1)) == digits_value(s.take(i)) * 10 + (s[i] as nat - '0' as nat),
        digits_value(s.take(i + 1)) >= digits_value(s.take(i)),
{
    assert(s.take(i + 1).drop_last() =~= s.take(i));
    assert('0' <= s[i] <= '9');
    let a = digits_value(s.take(i)) as int;
    assert(a * 10 >= a) by (nonlinear_arith)
        requires
            a >= 0,
    ;
}

proof fn lemma_digits_mono(s: Seq<char>, i: int, j: int)
    requires
        0 <= i <= j <= s.len(),
        all_digits(s),
    ensures
        digits_value(s.take(i)) <= digits_value(s.take(j)),
    decreases j - i,
{
    if i < j {
        lemma_digits_step(s, j - 1);
        lemma_digits_mono(s, i, j - 1);
    }
}

/// A string read as an unsigned machine-size number (see [`parsed_index`]).
fn parse_index(s: &str) -> (r: Option<usize>)
    ensures
        match parsed_index(s@) {
            Some(n) => r == Some(n as usize),
            None => r is None,
        },
{
    let cs = chars_of(s);
    let start: usize = if cs.len() > 0 && cs[0] == '+' { 1 } else { 0 };
    let ghost d = if s@.len() > 0 && s@[0] == '+' { s@.drop_first() } else { s@ };
    proof {
        assert(d =~= s@.skip(start as int));
    }
    if start >= cs.len() {
        return None;
    }
    let mut v: usize = 0;
    let mut i: usize = start;
    while i < cs.len()
        invariant
            start <= i <= cs@.len(),
            cs@ == s@,
            d == s@.skip(start as int),
            d == (if s@.len() > 0 && s@[0] == '+' { s@.drop_first() } else { s@ }),
            forall|j: int| 0 <= j < i - start ==> '0' <= #[trigger] d[j] <= '9',
            v == digits_value(d.take(i - start)),
        decreases cs@.len() - i,
    {
        let c = cs[i];
        if !('0' <= c && c <= '9') {
            proof {
                assert(d.len() == cs@.len() - start);
                assert(d[i - start] == c);
                if all_digits(d) {
                    assert('0' <= d[i - start] <= '9');
                }
            }
            return None;
        }
        let k = i - start;
        proof {
            assert(d[k as int] == c);
            assert(d.take(k + 1).drop_last() =~= d.take(k as int));
        }
        let dig: usize = (c as u32 - '0' as u32) as usize;
        if v > (usize::MAX - dig) / 10 {
            proof {
                assert(v * 10 + dig > usize::MAX) by (nonlinear_arith)
                    requires
                        v > (usize::MAX - dig) / 10,
                        dig <= 9,
                ;
                assert(d.len() == cs@.len() - start);
                if all_digits(d) {
                    lemma_digits_step(d, k as int);
                    lemma_digits_mono(d, k + 1, d.len() as int);
                    assert(d.take(d.len() as int) =~= d);
                    assert(digits_value(d) > usize::MAX);
                }
            }
            return None;
        }
        proof {
            assert(v * 10 + dig <= usize::MAX) by (nonlinear_arith)
                requires
                    v <= (usize::MAX - dig) / 10,
                    dig <= 9,
            ;
        }
        v = v * 10 + dig;
        i += 1;
    }
    proof {
        assert(d.take(d.len() as int) =~= d);
        assert(all_digits(d));
    }
    Some(v)
}

impl TuiApp {
    /// A new application for a terminal of the given size, browsing files
    /// from `workspace_root`: agent mode, unknown model, the input bar
    /// focused, nothing streaming, no help and no tool output panel.
    pub fn new(size: Size, workspace_root: &str) -> (r: Self)
        ensures
            r.wf(),
            r@.focus == Focus::InputBar,
            r@.running,
            !r@.is_streaming,
            !r@.is_thinking,
            !r@.confirming,
            r@.streaming_text.len() == 0,
            r@.thinking_text.len() == 0,
            r@.answers.len() == 0,
            r@.help == (HelpOverlay { visible: false, scroll: 0, line_count: 0 }),
            !r@.tool_output_visible,
            r@.size == size,
            r@.conversation.lines.len() == 0,
            r@.tools.results.len() == 0,
            r@.state.mode == seq!['a', 'g', 'e', 'n', 't'],
            r@.state.sidebar_visible,
            !r@.state.streaming,
            r@.sidebar.root == workspace_root@,
            r@.status == (StatusView {
                mode_label: seq!['a', 'g', 'e', 'n', 't'],
                mode_color: mode_color_of(seq!['a', 'g', 'e', 'n', 't']),
                model_name: seq!['u', 'n', 'k', 'n', 'o', 'w', 'n'],
                token_count: None,
                message_count: 0,
                pinned_file_count: 0,
                session_name: seq!['u', 'n', 'n', 'a', 'm', 'e', 'd'],
                is_streaming: false,
                focus_label: seq!['i', 'n', 'p', 'u', 't'],
            }),
            r@.input == initial_state(seq!['a', 'g', 'e', 'n', 't'], seq!['u', 'n', 'k', 'n', 'o', 'w', 'n'], Seq::empty(), Seq::empty()),
            r@.conversation == (ConversationState {
                lines: Seq::empty(),
                scroll_offset: 0,
                auto_scroll: true,
                warning: ContextWarningLevel::Normal,
                search_active: false,
                query: Seq::empty(),
                cursor: 0,
                match_rows: Seq::empty(),
                current_match: 0,
            }),
            r@.tools == (ToolOutputState { results: Seq::empty(), selected: None, scroll_offset: 0 }),
            r@.state == (StateView {
                mode: seq!['a', 'g', 'e', 'n', 't'],
                model_name: Seq::empty(),
                sidebar_visible: true,
                streaming: false,
                token_count: None,
                token_limit: None,
                session_name: seq!['u', 'n', 'n', 'a', 'm', 'e', 'd'],
                message_count: 0,
            }),
            r@.sidebar.visible && r@.sidebar.structure.len() == 0 && r@.sidebar.skills.len() == 0 && !r@.sidebar.mode
                && r@.sidebar.scroll_offset == 0 && r@.sidebar.cwd == workspace_root@,
    {
        proof {
            reveal_strlit("agent");
            reveal_strlit("unknown");
            assert("agent"@ =~= seq!['a', 'g', 'e', 'n', 't']);
            assert("unknown"@ =~= seq!['u', 'n', 'k', 'n', 'o', 'w', 'n']);
        }
        let status_bar = StatusBarWidget::new("agent", "unknown");
        let input_bar = InputBarWidget::new("agent", "unknown");
        let conversation = ConversationWidget::new();
        let state = TuiState::default();
        proof {
            assert(conversation@.lines =~= Seq::empty());
            assert(conversation@.query =~= Seq::empty());
            assert(conversation@.match_rows =~= Seq::empty());
            assert(state.model_name@ =~= Seq::empty());
        }
        TuiApp {
            status_bar,
            conversation,
            sidebar: SidebarWidget::new(workspace_root),
            input_bar,
            tool_output: ToolOutputWidget::new(),
            focus: Focus::InputBar,
            state,
            running: true,
            streaming_text: String::new(),
            is_streaming: false,
            is_thinking: false,
            thinking_text: String::new(),
            confirming: false,
            pending_question_answers: Vec::new(),
            help: HelpOverlay::new(),
            tool_output_visible: false,
            size,
        }
    }

    /// The shared state.
    pub fn state(&self) -> (r: &TuiState)
        ensures
            state_view(*r) == self@.state,
    {
        &self.state
    }

    /// The shared state, to change.
    pub fn state_mut(&mut self) -> (r: &mut TuiState)
        ensures
            state_view(*r) == old(self)@.state,
            final(self)@ == (AppView { state: state_view(*final(r)), ..old(self)@ }),
    {
        &mut self.state
    }

    /// The conversation pane.
    pub fn conversation(&self) -> (r: &ConversationWidget)
        ensures
            r@ == self@.conversation,
    {
        &self.conversation
    }

    /// The conversation pane, to change.
    pub fn conversation_mut(&mut self) -> (r: &mut ConversationWidget)
        ensures
            r@ == old(self)@.conversation,
            final(self)@ == (AppView { conversation: final(r)@, ..old(self)@ }),
    {
        &mut self.conversation
    }

    /// The sidebar, to change.
    pub fn sidebar_mut(&mut self) -> (r: &mut SidebarWidget)
        ensures
            r@ == old(self)@.sidebar,
            final(self)@ == (AppView { sidebar: final(r)@, ..old(self)@ }),
    {
        &mut self.sidebar
    }

    /// The tool output panel, to change.
    pub fn tool_output_mut(&mut self) -> (r: &mut ToolOutputWidget)
        ensures
            r@ == old(self)@.tools,
            final(self)@ == (AppView { tools: final(r)@, ..old(self)@ }),
    {
        &mut self.tool_output
    }

    /// The status bar, to change.
    pub fn status_bar_mut(&mut self) -> (r: &mut StatusBarWidget)
        ensures
            status_view(*r) == old(self)@.status,
            final(self)@ == (AppView { status: status_view(*final(r)), ..old(self)@ }),
    {
        &mut self.status_bar
    }

    /// The input bar.
    pub fn input_bar(&self) -> (r: &InputBarWidget)
        ensures
            r@ == self@.input,
    {
        &self.input_bar
    }

    /// The focused widget.
    pub fn focus(&self) -> (r: Focus)
        ensures
            r == self@.focus,
    {
        self.focus
    }

    /// Whether the application keeps running.
    pub fn is_running(&self) -> (r: bool)
        ensures
            r == self@.running,
    {
        self.running
    }

    /// Whether a tool confirmation is awaited.
    pub fn is_confirming(&self) -> (r: bool)
        ensures
            r == self@.confirming,
    {
        self.confirming
    }

    /// The help overlay.
    pub fn help(&self) -> (r: HelpOverlay)
        ensures
            r == self@.help,
    {
        self.help
    }

    /// The help overlay, to change.
    pub fn help_mut(&mut self) -> (r: &mut HelpOverlay)
        ensures
            *r == old(self)@.help,
            final(self)@ == (AppView { help: *final(r), ..old(self)@ }),
    {
        &mut self.help
    }

    /// Show or hide the tool output panel.
    pub fn set_tool_output_visible(&mut self, visible: bool)
        ensures
            final(self)@ == (AppView { tool_output_visible: visible, ..old(self)@ }),
    {
        self.tool_output_visible = visible;
    }

    /// Whether the tool output panel is shown.
    pub fn tool_output_visible(&self) -> (r: bool)
        ensures
            r == self@.tool_output_visible,
    {
        self.tool_output_visible
    }

    /// The terminal size.
    pub fn size(&self) -> (r: Size)
        ensures
            r == self@.size,
    {
        self.size
    }

    /// Set the command names and argument completions of the input bar.
    pub fn set_command_completions(&mut self, command_names: Vec<String>, subcommands: Vec<(String, Vec<String>)>)
        requires
            distinct_commands(subs_view(subcommands@)),
        ensures
            final(self)@ == (AppView {
                input: InputBarState {
                    commands: strs(command_names@),
                    subcommands: subs_view(subcommands@),
                    ..old(self)@.input
                },
                ..old(self)@
            }),
    {
        self.input_bar.set_command_completions(command_names, subcommands);
    }

    /// Bring the widgets in line with the shared state (see [`synced`]).
    pub fn sync_from_state(&mut self)
        ensures
            final(self)@ == synced(old(self)@),
    {
        self.status_bar.update_labels(self.state.mode.as_str(), self.state.model_name.as_str());
        self.status_bar.set_session_name(self.state.session_name.as_str());
        self.status_bar.set_message_count(self.state.message_count);
        if let Some(count) = self.state.token_count {
            self.status_bar.set_token_count(count, self.state.token_limit);
        }
        self.status_bar.set_streaming(self.state.streaming);
        self.input_bar.update_labels(self.state.mode.as_str(), self.state.model_name.as_str());
        self.sidebar.set_visible(self.state.sidebar_visible);
    }

    fn push_line(&mut self, line: ConversationLine)
        ensures
            final(self)@ == (AppView {
                conversation: ConversationState { lines: old(self)@.conversation.lines.push(line), ..old(self)@.conversation },
                ..old(self)@
            }),
            deep(final(self)@) == with_line(deep(old(self)@), line@),
    {
        proof {
            lemma_deep_push_line(self@, line);
        }
        self.conversation.push(line);
    }

    /// Add a user message to the conversation and count it.
    pub fn push_user_message(&mut self, text: &str)
        ensures
            deep(final(self)@) == with_line(
                deep(AppView { state: StateView { message_count: add_sat(old(self)@.state.message_count as int, 1) as usize, ..old(self)@.state }, ..old(self)@ }),
                LineView::User(text@),
            ),
    {
        self.state.message_count = self.state.message_count.saturating_add(1);
        self.push_line(ConversationLine::User { text: text.to_owned() });
    }

    /// Add an assistant message to the conversation.
    pub fn push_assistant_message(&mut self, text: &str)
        ensures
            deep(final(self)@) == with_line(deep(old(self)@), LineView::Assistant(text@)),
    {
        self.push_line(ConversationLine::Assistant { text: text.to_owned() });
    }

    /// Add a tool call to the conversation.
    pub fn push_tool_call(&mut self, name: &str, args_summary: &str)
        ensures
            deep(final(self)@) == with_line(deep(old(self)@), LineView::ToolCall(name@, args_summary@)),
    {
        self.push_line(ConversationLine::ToolCall { name: name.to_owned(), args_summary: args_summary.to_owned() });
    }

    /// Add a tool result to the conversation and, collapsed and with no
    /// argument summary, to the tool output panel: failed with the content
    /// as message, or succeeded in no time.
    pub fn push_tool_result(&mut self, name: &str, content: &str, is_error: bool)
        ensures
            deep(final(self)@) == (AppDeep {
                results: deep(old(self)@).results.push(tool_result_view(name@, content@, is_error)),
                ..with_line(deep(old(self)@), LineView::ToolResult(name@, content@, is_error))
            }),
    {
        self.push_line(ConversationLine::ToolResult { name: name.to_owned(), content: content.to_owned(), is_error });
        let r = ToolResult {
            name: name.to_owned(),
            args_summary: String::new(),
            content: content.to_owned(),
            is_error,
            collapsed: true,
            status: if is_error { ToolStatus::Error { message: content.to_owned() } } else { ToolStatus::Success { duration_ms: 0 } },
        };
        proof {
            lemma_deep_push_result(self@, r);
        }
        self.tool_output.push(r);
    }

    /// Add a system message to the conversation.
    pub fn push_system_message(&mut self, text: &str)
        ensures
            deep(final(self)@) == with_line(deep(old(self)@), LineView::System(text@)),
    {
        self.push_line(ConversationLine::System { text: text.to_owned() });
    }

    /// Add a reasoning text to the conversation.
    pub fn push_thinking(&mut self, text: &str)
        ensures
            deep(final(self)@) == with_line(deep(old(self)@), LineView::Thinking(text@)),
    {
        self.push_line(ConversationLine::Thinking { text: text.to_owned() });
    }

    /// Add a separator to the conversation.
    pub fn push_separator(&mut self)
        ensures
            deep(final(self)@) == with_line(deep(old(self)@), LineView::Separator),
    {
        self.push_line(ConversationLine::Separator);
    }

    /// Add a confirmation prompt, with no diff, to the conversation.
    pub fn push_confirm_prompt(&mut self, name: &str, args_summary: &str)
        ensures
            deep(final(self)@) == with_line(deep(old(self)@), LineView::ConfirmPrompt(name@, args_summary@, None)),
    {
        self.push_line(ConversationLine::ConfirmPrompt {
            name: name.to_owned(),
            args_summary: args_summary.to_owned(),
            diff_preview: None,
        });
    }

    /// Leave question mode and resolve the typed answer against the offered
    /// answers (see [`resolved_answer`]).
    fn answer_question(&mut self, input: String) -> (r: TuiUserAction)
        requires
            old(self).wf(),
        ensures
            final(self).wf(),
            final(self)@ == (AppView {
                input: InputBarState { questioning: false, answer_count: 0, ..old(self)@.input },
                answers: Seq::empty(),
                ..old(self)@
            }),
            r@ == UserActionView::QuestionAnswer(resolved_answer(old(self)@.answers, input@)),
    {
        self.input_bar.set_questioning(false, 0);
        let answer = match parse_index(input.as_str()) {
            Some(n) => if n >= 1 && n <= self.pending_question_answers.len() {
                self.pending_question_answers[n - 1].clone()
            } else {
                input
            },
            None => input,
        };
        self.pending_question_answers = Vec::new();
        proof {
            assert(self@.answers =~= Seq::<Seq<char>>::empty());
        }
        TuiUserAction::QuestionAnswer(answer)
    }

    /// Handle an action requested by a widget (see [`app_action`]): returns
    /// the request to send to the agent task, if any.
    #[verifier::rlimit(30)]
    #[verifier::spinoff_prover]
    pub fn handle_action(&mut self, action: Action) -> (r: Option<TuiUserAction>)
        requires
            old(self).wf(),
        ensures
            final(self).wf(),
            final(self)@ == app_action(old(self)@, action).0,
            match app_action(old(self)@, action).1 {
                Some(x) => r matches Some(y) && y@ == x,
                None => r is None,
            },
    {
        match action {
            Action::Quit => {
                self.running = false;
                Some(TuiUserAction::Quit)
            },
            Action::SendMessage(text) => {
                self.state.message_count = self.state.message_count.saturating_add(1);
                self.push_line(ConversationLine::User { text: text.clone() });
                Some(TuiUserAction::SendMessage(text))
            },
            Action::ToggleSidebar => {
                self.state.sidebar_visible = !self.state.sidebar_visible;
                None
            },
            Action::SwitchMode(mode) => {
                self.state.mode = mode;
                self.sync_from_state();
                None
            },
            Action::CycleFocusForward => {
                self.cycle_focus(true);
                None
            },
            Action::CycleFocusBackward => {
                self.cycle_focus(false);
                None
            },
            Action::ScrollUp => {
                self.conversation.scroll_up(3);
                None
            },
            Action::ScrollDown => {
                self.conversation.scroll_down(3);
                None
            },
            Action::PageUp => {
                self.conversation.scroll_up(20);
                None
            },
            Action::PageDown => {
                self.conversation.scroll_down(20);
                None
            },
            Action::ConfirmYes => {
                self.confirming = false;
                self.input_bar.set_confirming(false);
                Some(TuiUserAction::ConfirmResponse { approved: true, auto_accept: false })
            },
            Action::ConfirmNo => {
                self.confirming = false;
                self.input_bar.set_confirming(false);
                Some(TuiUserAction::ConfirmResponse { approved: false, auto_accept: false })
            },
            Action::ConfirmAll => {
                self.confirming = false;
                self.input_bar.set_confirming(false);
                Some(TuiUserAction::ConfirmResponse { approved: true, auto_accept: true })
            },
            Action::AnswerQuestion(input) => Some(self.answer_question(input)),
            Action::Interrupt => Some(TuiUserAction::Interrupt),
            Action::ExitStructureMode => {
                self.set_focus(Focus::InputBar);
                None
            },
            Action::NoOp => None,
        }
    }
}

/// The state with other application fields.
pub open spec fn with_app(d: AppDeep, v: AppView) -> AppDeep {
    AppDeep { app: v, ..d }
}

/// Streaming switched on or off.
pub open spec fn deep_streaming(d: AppDeep, on: bool) -> AppDeep {
    with_app(d, with_streaming(d.app, on))
}

/// The conversation following its latest line.
pub open spec fn deep_bottom(d: AppDeep) -> AppDeep {
    with_app(d, AppView { conversation: conv_bottom(d.app.conversation), ..d.app })
}

/// Whether the last conversation line shows reasoning.
pub open spec fn last_is_thinking(lines: Seq<LineView>) -> bool {
    lines.len() > 0 && lines.last() is Thinking
}

/// The reasoning phase closed: the last line, when it shows reasoning,
/// shows the whole reasoning text, which is then cleared.
pub open spec fn thinking_finalized(d: AppDeep) -> AppDeep {
    if d.app.is_thinking {
        AppDeep {
            app: AppView { is_thinking: false, thinking_text: Seq::empty(), ..d.app },
            lines: if last_is_thinking(d.lines) {
                d.lines.update(d.lines.len() - 1, LineView::Thinking(d.app.thinking_text))
            } else {
                d.lines
            },
            ..d
        }
    } else {
        d
    }
}

/// The reasoning shown while it streams: over 80 bytes, its first 78 bytes
/// (in whole characters) followed by an ellipsis.
pub open spec fn thinking_preview(t: Seq<char>) -> Seq<char> {
    if encode_utf8(t).len() > 80 {
        t.take(byte_prefix_len(t, 78) as int).push('…')
    } else {
        t
    }
}

/// The system line reporting an error.
pub open spec fn error_text(m: Seq<char>) -> Seq<char> {
    seq!['⚠', ' ', 'E', 'r', 'r', 'o', 'r', ':', ' '] + m
}

/// A chunk of response text: the reasoning phase closes, the text grows,
/// and the last line shows it while it is the response being streamed (a
/// new line otherwise); the conversation follows its latest line.
pub open spec fn streamed_text(d: AppDeep, t: Seq<char>) -> AppDeep {
    let d1 = thinking_finalized(d);
    let text = d1.app.streaming_text + t;
    let d2 = with_app(d1, AppView { streaming_text: text, ..d1.app });
    let d3 = if d2.lines.len() > 0 && d2.lines.last() is Assistant && d2.app.is_streaming {
        AppDeep { lines: d2.lines.update(d2.lines.len() - 1, LineView::Assistant(text)), ..d2 }
    } else {
        with_line(d2, LineView::Assistant(text))
    };
    deep_bottom(d3)
}

/// A chunk of reasoning text: the first one adds a separator and an empty
/// reasoning line; the text grows and the last line, when it shows
/// reasoning, shows its preview; the conversation follows its latest line.
pub open spec fn streamed_thinking(d: AppDeep, t: Seq<char>) -> AppDeep {
    let d1 = if !d.app.is_thinking {
        AppDeep {
            app: AppView { is_thinking: true, ..d.app },
            lines: d.lines.push(LineView::Separator).push(LineView::Thinking(Seq::empty())),
            ..d
        }
    } else {
        d
    };
    let tt = d1.app.thinking_text + t;
    let d2 = with_app(d1, AppView { thinking_text: tt, ..d1.app });
    let d3 = if last_is_thinking(d2.lines) {
        AppDeep { lines: d2.lines.update(d2.lines.len() - 1, LineView::Thinking(thinking_preview(tt))), ..d2 }
    } else {
        d2
    };
    deep_bottom(d3)
}

/// The end of a turn: the reasoning phase closes and streaming stops.
pub open spec fn turn_ended(d: AppDeep) -> AppDeep {
    let d1 = thinking_finalized(d);
    deep_streaming(with_app(d1, AppView { is_streaming: false, ..d1.app }), false)
}

/// The application's response to an agent event.
pub open spec fn agent_deep(d: AppDeep, e: AgentEventView) -> AppDeep {
    match e {
        AgentEventView::StreamingStarted => deep_streaming(
            with_app(d, AppView { is_streaming: true, streaming_text: Seq::empty(), is_thinking: false, thinking_text: Seq::empty(), ..d.app }),
            true,
        ),
        AgentEventView::StreamingText(t) => streamed_text(d, t),
        AgentEventView::StreamingThinking(t) => streamed_thinking(d, t),
        AgentEventView::StreamingDone => {
            let d1 = turn_ended(d);
            with_app(d1, AppView { streaming_text: Seq::empty(), ..d1.app })
        },
        AgentEventView::Error(m) => {
            let d1 = with_line(thinking_finalized(d), LineView::System(error_text(m)));
            deep_streaming(with_app(d1, AppView { is_streaming: false, ..d1.app }), false)
        },
        AgentEventView::ToolCall(n, a) => with_line(d, LineView::ToolCall(n, a)),
        AgentEventView::ToolResult(n, c, err) => AppDeep {
            results: d.results.push(tool_result_view(n, c, err)),
            ..with_line(d, LineView::ToolResult(n, c, err))
        },
        AgentEventView::ModeChanged(m) => with_app(d, synced(AppView { state: StateView { mode: m, ..d.app.state }, ..d.app })),
        AgentEventView::ModelChanged(m) => with_app(d, synced(AppView { state: StateView { model_name: m, ..d.app.state }, ..d.app })),
        AgentEventView::TokenUpdate(c, l) => with_app(d, AppView {
            state: StateView { token_count: Some(c), token_limit: l, ..d.app.state },
            status: StatusView { token_count: token_pair(c, l), ..d.app.status },
            ..d.app
        }),
        AgentEventView::ContextWarning(p, critical) => with_app(d, AppView {
            conversation: ConversationState {
                warning: if critical { ContextWarningLevel::Critical(p) } else { ContextWarningLevel::Warning(p) },
                ..d.app.conversation
            },
            ..d.app
        }),
        AgentEventView::SystemMessage(m) => with_line(d, LineView::System(m)),
        AgentEventView::ConfirmTool(n, a, _, preview) => {
            let d1 = with_line(d, LineView::ConfirmPrompt(n, a, preview));
            with_app(d1, focus_set(
                AppView { confirming: true, input: InputBarState { confirming: true, content: Seq::empty(), cursor: 0, ..d1.app.input }, ..d1.app },
                Focus::InputBar,
            ))
        },
        AgentEventView::Question(q, answers) => {
            let d1 = with_line(d, LineView::Question(q, answers));
            let v = focus_set(
                AppView {
                    input: InputBarState { questioning: true, answer_count: answers.len(), content: Seq::empty(), cursor: 0, ..d1.app.input },
                    ..d1.app
                },
                Focus::InputBar,
            );
            with_app(d1, AppView { answers, ..v })
        },
        AgentEventView::Done => turn_ended(d),
    }
}

impl TuiApp {
    /// Whether the last conversation line shows reasoning.
    fn last_line_thinking(&self) -> (r: bool)
        ensures
            r == last_is_thinking(deep(self@).lines),
    {
        let lines = self.conversation.lines();
        let n = lines.len();
        if n == 0 {
            return false;
        }
        match &lines[n - 1] {
            ConversationLine::Thinking { .. } => true,
            _ => false,
        }
    }

    /// Replace the last conversation line.
    fn set_last_line(&mut self, line: ConversationLine)
        requires
            old(self)@.conversation.lines.len() > 0,
        ensures
            final(self)@ == (AppView {
                conversation: ConversationState {
                    lines: old(self)@.conversation.lines.update(old(self)@.conversation.lines.len() - 1, line),
                    ..old(self)@.conversation
                },
                ..old(self)@
            }),
            deep(final(self)@) == (AppDeep {
                lines: deep(old(self)@).lines.update(deep(old(self)@).lines.len() - 1, line@),
                ..deep(old(self)@)
            }),
    {
        proof {
            lemma_deep_set_last(self@, line);
        }
        match self.conversation.last_mut() {
            Some(l) => {
                *l = line;
            },
            None => {},
        }
    }

    /// Close the reasoning phase (see [`thinking_finalized`]).
    fn finalize_thinking(&mut self)
        requires
            old(self).wf(),
        ensures
            final(self).wf(),
            deep(final(self)@) == thinking_finalized(deep(old(self)@)),
    {
        if self.is_thinking {
            self.is_thinking = false;
            if self.last_line_thinking() {
                let t = self.thinking_text.clone();
                self.set_last_line(ConversationLine::Thinking { text: t });
            }
            self.thinking_text = String::new();
        }
    }

    /// Add a chunk of response text (see [`streamed_text`]).
    fn stream_text(&mut self, text: &str)
        requires
            old(self).wf(),
        ensures
            final(self).wf(),
            deep(final(self)@) == streamed_text(deep(old(self)@), text@),
    {
        self.finalize_thinking();
        push_str(&mut self.streaming_text, text);
        let t = self.streaming_text.clone();
        if self.conversation.last_is_assistant() && self.is_streaming {
            self.set_last_line(ConversationLine::Assistant { text: t });
        } else {
            self.push_line(ConversationLine::Assistant { text: t });
        }
        self.conversation.scroll_to_bottom();
    }

    /// Add a chunk of reasoning text (see [`streamed_thinking`]).
    fn stream_thinking(&mut self, text: &str)
        requires
            old(self).wf(),
        ensures
            final(self).wf(),
            deep(final(self)@) == streamed_thinking(deep(old(self)@), text@),
    {
        if !self.is_thinking {
            self.is_thinking = true;
            self.push_line(ConversationLine::Separator);
            self.push_line(ConversationLine::Thinking { text: String::new() });
        }
        push_str(&mut self.thinking_text, text);
        if self.last_line_thinking() {
            let preview = if self.thinking_text.as_str().as_bytes().len() > 80 {
                let mut p = String::new();
                push_str(&mut p, truncate_str(self.thinking_text.as_str(), 78));
                string_push(&mut p, '…');
                p
            } else {
                self.thinking_text.clone()
            };
            self.set_last_line(ConversationLine::Thinking { text: preview });
        }
        self.conversation.scroll_to_bottom();
    }

    /// End the turn (see [`turn_ended`]).
    fn end_turn(&mut self)
        requires
            old(self).wf(),
        ensures
            final(self).wf(),
            deep(final(self)@) == turn_ended(deep(old(self)@)),
    {
        self.finalize_thinking();
        self.is_streaming = false;
        self.set_streaming(false);
    }

    /// Start streaming a response.
    fn start_streaming(&mut self)
        requires
            old(self).wf(),
        ensures
            final(self).wf(),
            deep(final(self)@) == agent_deep(deep(old(self)@), AgentEventView::StreamingStarted),
    {
        self.is_streaming = true;
        self.streaming_text = String::new();
        self.is_thinking = false;
        self.thinking_text = String::new();
        self.set_streaming(true);
    }

    /// Report a failed request.
    fn report_error(&mut self, msg: &str)
        requires
            old(self).wf(),
        ensures
            final(self).wf(),
            deep(final(self)@) == agent_deep(deep(old(self)@), AgentEventView::Error(msg@)),
    {
        self.finalize_thinking();
        let mut line = String::new();
        push_str(&mut line, "⚠ Error: ");
        push_str(&mut line, msg);
        proof {
            reveal_strlit("⚠ Error: ");
            assert(line@ == error_text(msg@));
        }
        self.push_line(ConversationLine::System { text: line });
        self.is_streaming = false;
        self.set_streaming(false);
    }

    /// Record new token counts.
    fn update_tokens(&mut self, count: u64, limit: Option<u64>)
        requires
            old(self).wf(),
        ensures
            final(self).wf(),
            deep(final(self)@) == agent_deep(deep(old(self)@), AgentEventView::TokenUpdate(count, limit)),
    {
        self.state.token_count = Some(count);
        self.state.token_limit = limit;
        self.status_bar.set_token_count(count, limit);
    }

    /// Ask for the confirmation of a tool call.
    fn ask_confirmation(&mut self, name: String, args_summary: String, needs_approval: bool, diff_preview: Option<String>)
        requires
            old(self).wf(),
        ensures
            final(self).wf(),
            deep(final(self)@) == agent_deep(
                deep(old(self)@),
                AgentEventView::ConfirmTool(name@, args_summary@, needs_approval, match diff_preview {
                    Some(d) => Some(d@),
                    None => None,
                }),
            ),
    {
        self.push_line(ConversationLine::ConfirmPrompt { name, args_summary, diff_preview });
        self.confirming = true;
        self.input_bar.set_confirming(true);
        self.set_focus(Focus::InputBar);
    }

    /// Ask a question with suggested answers.
    fn ask_question(&mut self, question: String, answers: Vec<String>)
        requires
            old(self).wf(),
        ensures
            final(self).wf(),
            deep(final(self)@) == agent_deep(
                deep(old(self)@),
                AgentEventView::Question(question@, answers@.map_values(|a: String| a@)),
            ),
    {
        let n = answers.len();
        let shown = answers.clone();
        proof {
            assert forall|i: int| 0 <= i < answers@.len() implies shown@[i] == answers@[i] by {
                assert(cloned::<String>(answers[i], shown[i]));
            }
            assert(shown@ =~= answers@);
        }
        self.push_line(ConversationLine::Question { question, answers: shown });
        self.input_bar.set_questioning(true, n);
        self.set_focus(Focus::InputBar);
        self.pending_question_answers = answers;
    }

    /// Close a streamed response.
    fn finish_streaming(&mut self)
        requires
            old(self).wf(),
        ensures
            final(self).wf(),
            deep(final(self)@) == agent_deep(deep(old(self)@), AgentEventView::StreamingDone),
    {
        self.end_turn();
        self.streaming_text = String::new();
    }

    /// Add a line that an agent event carries.
    fn add_line(&mut self, line: ConversationLine)
        requires
            old(self).wf(),
        ensures
            final(self).wf(),
            deep(final(self)@) == with_line(deep(old(self)@), line@),
    {
        self.push_line(line);
    }

    /// Change the agent mode and bring the widgets in line.
    fn change_mode(&mut self, mode: String)
        requires
            old(self).wf(),
        ensures
            final(self).wf(),
            deep(final(self)@) == agent_deep(deep(old(self)@), AgentEventView::ModeChanged(mode@)),
    {
        self.state.mode = mode;
        self.sync_from_state();
    }

    /// Change the model and bring the widgets in line.
    fn change_model(&mut self, model: String)
        requires
            old(self).wf(),
        ensures
            final(self).wf(),
            deep(final(self)@) == agent_deep(deep(old(self)@), AgentEventView::ModelChanged(model@)),
    {
        self.state.model_name = model;
        self.sync_from_state();
    }

    /// Show a context warning.
    fn warn_context(&mut self, percentage: u64, critical: bool)
        requires
            old(self).wf(),
        ensures
            final(self).wf(),
            deep(final(self)@) == agent_deep(deep(old(self)@), AgentEventView::ContextWarning(percentage, critical)),
    {
        let level = if critical {
            ContextWarningLevel::Critical(percentage)
        } else {
            ContextWarningLevel::Warning(percentage)
        };
        self.conversation.set_context_warning(level);
    }

    /// Handle an event reported by the agent task (see [`agent_deep`]).
    #[verifier::rlimit(30)]
    #[verifier::spinoff_prover]
    pub fn handle_agent_event(&mut self, event: TuiAgentEvent)
        requires
            old(self).wf(),
        ensures
            final(self).wf(),
            deep(final(self)@) == agent_deep(deep(old(self)@), event@),
    {
        match event {
            TuiAgentEvent::StreamingStarted => self.start_streaming(),
            TuiAgentEvent::StreamingText(text) => self.stream_text(text.as_str()),
            TuiAgentEvent::StreamingThinking(text) => self.stream_thinking(text.as_str()),
            TuiAgentEvent::StreamingDone => self.finish_streaming(),
            TuiAgentEvent::Error(msg) => self.report_error(msg.as_str()),
            TuiAgentEvent::ToolCall { name, args_summary } => self.add_line(ConversationLine::ToolCall { name, args_summary }),
            TuiAgentEvent::ToolResult { name, content, is_error } => self.push_tool_result(name.as_str(), content.as_str(), is_error),
            TuiAgentEvent::ModeChanged(mode) => self.change_mode(mode),
            TuiAgentEvent::ModelChanged(model) => self.change_model(model),
            TuiAgentEvent::TokenUpdate { count, limit } => self.update_tokens(count, limit),
            TuiAgentEvent::ContextWarning { percentage, critical } => self.warn_context(percentage, critical),
            TuiAgentEvent::SystemMessage(msg) => self.add_line(ConversationLine::System { text: msg }),
            TuiAgentEvent::ConfirmTool { name, args_summary, needs_approval, diff_preview } => {
                self.ask_confirmation(name, args_summary, needs_approval, diff_preview)
            },
            TuiAgentEvent::Question { question, answers } => self.ask_question(question, answers),
            TuiAgentEvent::Done => self.end_turn(),
        }
    }
}

/// Whether a rectangle lies within the coordinate range.
pub open spec fn rect_in_range(r: Rect) -> bool {
    r.x + r.width <= u16::MAX && r.y + r.height <= u16::MAX
}

/// Whether every area of a layout lies within the coordinate range.
pub open spec fn layout_in_range(l: AppLayout) -> bool {
    &&& rect_in_range(l.status)
    &&& rect_in_range(l.conversation)
    &&& rect_in_range(l.sidebar)
    &&& rect_in_range(l.input)
    &&& rect_in_range(l.tool_output)
}

/// A frame drawn over a screen `v` for the layout: the screen blanked, the
/// status bar, the conversation, the sidebar (over lines `items`) and the
/// tool output when shown, the input bar, and the help overlay (scrolled to
/// `help_scroll`) when it is open.
pub closed spec fn frame_drawn(
    v: ScreenView,
    app: TuiApp,
    layout: AppLayout,
    token_text: Seq<char>,
    items: Seq<ItemView>,
    help_scroll: int,
) -> ScreenView {
    let v0 = blank_view(v.width, v.height);
    let st = layout.status;
    let v1 = if st.width > 0 && st.height > 0 {
        status_drawn(fill_box(v0, st.y as int, st.y + st.height, st.x as int, st.x + st.width, status_fill()), app.status_bar, st,
            token_text)
    } else {
        v0
    };
    let v2 = conversation_drawn(v1, app.conversation@, layout.conversation);
    let sb = layout.sidebar;
    let v3 = if app.state.sidebar_visible && !(sb.width == 0 || sb.height == 0) && app.sidebar@.visible {
        sidebar_drawn(v2, app.sidebar@, sb, items).0
    } else {
        v2
    };
    let to = layout.tool_output;
    let v4 = if app.tool_output_visible && !(to.width == 0 || to.height == 0) && app.tool_output@.results.len() > 0 {
        results_from(fill_box(v3, to.y as int, to.y + to.height, to.x as int, to.x + to.width, blank_cell()),
            app.tool_output@.results, 0, to.y as int, to.y + to.height, to.width as int, app.tool_output@.scroll_offset as int)
    } else {
        v3
    };
    let ia = layout.input;
    let v5 = if ia.width > 0 && ia.height >= 2 {
        input_drawn(fill_box(v4, ia.y as int, ia.y + 1, ia.x as int, ia.x + ia.width, rule_cell()), app.input_bar@, ia)
    } else {
        v4
    };
    if app.help.visible { help_drawn(v5, help_scroll, layout.conversation) } else { v5 }
}

impl TuiApp {
    /// Draw a frame on a cleared screen: the status bar with `token_text` as
    /// its token count, the conversation, the sidebar and the tool output
    /// panel when shown, the input bar, and the help overlay over the
    /// conversation when shown. Drawing changes only the scrolling of the
    /// conversation (see [`drawn_state`]) and of the sidebar, and the help
    /// overlay's scroll and line count.
    #[verifier::rlimit(100)]
    #[verifier::spinoff_prover]
    pub fn render_frame(&mut self, layout: AppLayout, screen: &mut Screen, token_text: &str)
        requires
            old(self).wf(),
            old(screen).wf(),
            layout_in_range(layout),
        ensures
            final(self).wf(),
            final(screen).wf(),
            final(screen)@.width == old(screen)@.width,
            final(screen)@.height == old(screen)@.height,
            final(self)@ == (AppView {
                conversation: drawn_state(old(self)@.conversation, layout.conversation),
                sidebar: SidebarState { scroll_offset: final(self)@.sidebar.scroll_offset, ..old(self)@.sidebar },
                help: final(self)@.help,
                ..old(self)@
            }),
            final(self)@.help.visible == old(self)@.help.visible,
            old(self)@.state.sidebar_visible && !(layout.sidebar.width == 0 || layout.sidebar.height == 0)
                && old(self)@.sidebar.visible ==> exists|items: Seq<ItemView>|
                #[trigger] items_of(old(self)@.sidebar, text_width(layout.sidebar), items)
                && final(screen)@ == frame_drawn(old(screen)@, *old(self), layout, token_text@, items, final(self)@.help.scroll as int),
            !(old(self)@.state.sidebar_visible && !(layout.sidebar.width == 0 || layout.sidebar.height == 0)
                && old(self)@.sidebar.visible) ==> final(screen)@ == frame_drawn(old(screen)@, *old(self), layout, token_text@,
                Seq::empty(), final(self)@.help.scroll as int),
    {
        let ghost v0 = screen@;
        screen.clear();
        self.status_bar.render_with_tokens(layout.status, screen, token_text);
        self.conversation.render(layout.conversation, screen);
        let ghost v2 = screen@;
        let ghost sb0 = self.sidebar@;
        if self.state.sidebar_visible && !layout.sidebar.is_empty() {
            self.sidebar.render(layout.sidebar, screen);
        }
        let ghost v3 = screen@;
        let ghost sb_drawn = old(self)@.state.sidebar_visible && !(layout.sidebar.width == 0 || layout.sidebar.height == 0)
            && old(self)@.sidebar.visible;
        let ghost items: Seq<ItemView> = if sb_drawn {
            choose|items: Seq<ItemView>|
                #[trigger] items_of(sb0, text_width(layout.sidebar), items)
                && (v3, self@.sidebar.scroll_offset as int) == sidebar_drawn(v2, sb0, layout.sidebar, items)
        } else {
            Seq::empty()
        };
        if self.tool_output_visible && !layout.tool_output.is_empty() {
            self.tool_output.render(layout.tool_output, screen);
        }
        self.input_bar.render(layout.input, screen);
        if self.help.visible {
            self.help.render(screen, layout.conversation);
        }
        proof {
            if sb_drawn {
                assert(items_of(old(self)@.sidebar, text_width(layout.sidebar), items));
            }
            assert(screen@ == frame_drawn(v0, *old(self), layout, token_text@, items, self@.help.scroll as int));
        }
    }
}

// ── Laws ─────────────────────────────────────────────────────────────────────

/// With the help overlay hidden, Ctrl+C interrupts a streaming response and
/// otherwise quits; nothing streams afterwards.
pub proof fn lemma_ctrl_c_quits_or_interrupts(v: AppView, l: AppLayout)
    requires
        !v.help.visible,
    ensures
        app_event(v, ctrl_char('c'), l).1 == (if v.state.streaming { ActionView::Interrupt } else { ActionView::Quit }),
        !app_event(v, ctrl_char('c'), l).0.state.streaming,
        v.state.streaming ==> !app_event(v, ctrl_char('c'), l).0.status.is_streaming,
{
}

/// While the help overlay is shown, Ctrl+C closes it and then does what it
/// does without the overlay.
pub proof fn lemma_ctrl_c_through_help(v: AppView, l: AppLayout)
    requires
        v.help.visible,
    ensures
        app_event(v, ctrl_char('c'), l) == app_event(AppView { help: help_dismissed(v.help), ..v }, ctrl_char('c'), l),
{
}

/// Ctrl+H opens the help overlay and a second Ctrl+H closes it, leaving
/// everything else as it was.
pub proof fn lemma_help_toggle_twice(v: AppView, l: AppLayout)
    requires
        !v.help.visible,
    ensures
        app_event(app_event(v, ctrl_char('h'), l).0, ctrl_char('h'), l) == (
            AppView { help: help_dismissed(v.help), ..v },
            ActionView::NoOp,
        ),
{
}

/// Ctrl+T twice leaves the tool output panel shown or hidden as it was.
pub proof fn lemma_tool_panel_toggle_twice(v: AppView, l: AppLayout)
    requires
        !v.help.visible,
    ensures
        app_event(app_event(v, ctrl_char('t'), l).0, ctrl_char('t'), l).0.tool_output_visible == v.tool_output_visible,
{
}

/// Ctrl+F opens the conversation search and gives it the focus; Ctrl+F again
/// closes it with an empty query and gives the focus back to the input bar.
pub proof fn lemma_search_toggle_twice(v: AppView, l: AppLayout)
    requires
        !v.help.visible,
        !v.conversation.search_active,
    ensures
        app_event(v, ctrl_char('f'), l).0.conversation.search_active,
        app_event(v, ctrl_char('f'), l).0.focus == Focus::Conversation,
        app_event(app_event(v, ctrl_char('f'), l).0, ctrl_char('f'), l).0.conversation == closed_search(v.conversation),
        app_event(app_event(v, ctrl_char('f'), l).0, ctrl_char('f'), l).0.focus == Focus::InputBar,
{
}

/// After a response starts streaming and the turn ends, nothing streams
/// and no reasoning phase is open.
pub proof fn lemma_streaming_turn(d: AppDeep)
    ensures
        ({
            let e = agent_deep(agent_deep(d, AgentEventView::StreamingStarted), AgentEventView::Done);
            &&& !e.app.is_streaming
            &&& !e.app.state.streaming
            &&& !e.app.status.is_streaming
            &&& !e.app.is_thinking
        }),
{
}

/// Answering a tool confirmation, whichever the answer, ends the wait for it.
pub proof fn lemma_confirmation_answered(v: AppView)
    ensures
        !app_action(v, Action::ConfirmYes).0.confirming,
        !app_action(v, Action::ConfirmNo).0.confirming,
        !app_action(v, Action::ConfirmAll).0.confirming,
        !app_action(v, Action::ConfirmYes).0.input.confirming,
        !app_action(v, Action::ConfirmNo).0.input.confirming,
        !app_action(v, Action::ConfirmAll).0.input.confirming,
{
}

} // verus!
