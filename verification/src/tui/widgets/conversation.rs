//! The conversation pane: messages, tool calls, tool results and prompts,
//! scrolled in visual rows, with a search mode (Ctrl+F) and a context
//! warning banner.

use vstd::prelude::*;
use vstd::utf8::encode_utf8;
use crate::text::{
    chars_of, decimal, find_chars, first_occurrence, lines_of, lower_chars, lowercase, push_decimal, push_str,
    slice_chars, string_of, string_push, text_lines, vv,
};
use crate::tui::cell::{blank_cell, plain_style, Cell, Color, Style};
use crate::tui::event::{Event, Key, KeyEvent};
use crate::tui::layout::Rect;
use crate::tui::screen::{
    cell_at, clip_wrap_spec, lemma_put_pointwise, wf_view, fill_box, in_bounds, lemma_fill_box, lemma_same_rows_refl, put, recolored_from, lemma_same_rows_step, lemma_wrap_run_rows, same_outside_rows, wrap_run,
    wrap_start, write_run, Screen, ScreenView,
};
use crate::tui::widget::{styles, truncate_str_width, width_prefix_len, Action, ActionView, Widget};
use crate::ui::input::join;
use crate::unicode::{render_width, str_display_width, str_width, width_or_one};


verus! {

/// A single line in the conversation display.
#[derive(Clone, Debug)]
pub enum ConversationLine {
    /// A user message.
    User { text: String },
    /// An assistant message.
    Assistant { text: String },
    /// A tool call header (e.g., "── read").
    ToolCall { name: String, args_summary: String },
    /// A tool result.
    ToolResult { name: String, content: String, is_error: bool },
    /// A system message.
    System { text: String },
    /// Thinking/reasoning chain content.
    Thinking { text: String },
    /// A horizontal separator line.
    Separator,
    /// A confirmation prompt for a tool call, awaiting a y/n/a answer;
    /// `diff_preview` holds a plain-text unified diff to show.
    ConfirmPrompt { name: String, args_summary: String, diff_preview: Option<String> },
    /// A question with numbered answers.
    Question { question: String, answers: Vec<String> },
}

/// A conversation line with its texts as character sequences.
pub enum LineView {
    User(Seq<char>),
    Assistant(Seq<char>),
    ToolCall(Seq<char>, Seq<char>),
    ToolResult(Seq<char>, Seq<char>, bool),
    System(Seq<char>),
    Thinking(Seq<char>),
    Separator,
    ConfirmPrompt(Seq<char>, Seq<char>, Option<Seq<char>>),
    Question(Seq<char>, Seq<Seq<char>>),
}

impl View for ConversationLine {
    type V = LineView;

    open spec fn view(&self) -> LineView {
        match self {
            ConversationLine::User { text } => LineView::User(text@),
            ConversationLine::Assistant { text } => LineView::Assistant(text@),
            ConversationLine::ToolCall { name, args_summary } => LineView::ToolCall(name@, args_summary@),
            ConversationLine::ToolResult { name, content, is_error } => LineView::ToolResult(name@, content@, *is_error),
            ConversationLine::System { text } => LineView::System(text@),
            ConversationLine::Thinking { text } => LineView::Thinking(text@),
            ConversationLine::Separator => LineView::Separator,
            ConversationLine::ConfirmPrompt { name, args_summary, diff_preview } => LineView::ConfirmPrompt(
                name@,
                args_summary@,
                match diff_preview {
                    Some(d) => Some(d@),
                    None => None,
                },
            ),
            ConversationLine::Question { question, answers } => LineView::Question(
                question@,
                answers@.map_values(|a: String| a@),
            ),
        }
    }
}

/// Context warning level for the banner at the top of the conversation.
#[derive(Clone, Copy, Debug, PartialEq, Eq, Structural)]
pub enum ContextWarningLevel {
    /// No banner.
    Normal,
    /// 70%+ of the context window used (the percentage, rounded).
    Warning(u64),
    /// 90%+ of the context window used (the percentage, rounded).
    Critical(u64),
}

impl Default for ContextWarningLevel {
    fn default() -> (r: Self)
        ensures
            r == ContextWarningLevel::Normal,
    {
        ContextWarningLevel::Normal
    }
}

/// Search mode: the query being typed, the cursor in it (a character
/// index), the rows of the matching lines and the one navigated to.
struct SearchState {
    active: bool,
    query: Vec<char>,
    cursor: usize,
    match_rows: Vec<usize>,
    current_match: usize,
}

/// Scrollable conversation pane.
pub struct ConversationWidget {
    lines: Vec<ConversationLine>,
    /// Scroll offset in visual rows.
    scroll_offset: usize,
    auto_scroll: bool,
    context_warning: ContextWarningLevel,
    search: SearchState,
}

/// The state of a conversation pane.
pub struct ConversationState {
    pub lines: Seq<ConversationLine>,
    pub scroll_offset: nat,
    pub auto_scroll: bool,
    pub warning: ContextWarningLevel,
    pub search_active: bool,
    pub query: Seq<char>,
    pub cursor: nat,
    pub match_rows: Seq<usize>,
    pub current_match: nat,
}

impl View for ConversationWidget {
    type V = ConversationState;

    closed spec fn view(&self) -> ConversationState {
        ConversationState {
            lines: self.lines@,
            scroll_offset: self.scroll_offset as nat,
            auto_scroll: self.auto_scroll,
            warning: self.context_warning,
            search_active: self.search.active,
            query: self.search.query@,
            cursor: self.search.cursor as nat,
            match_rows: self.search.match_rows@,
            current_match: self.search.current_match as nat,
        }
    }
}

/// The pane's well-formedness: the search cursor lies within the query and
/// the current match, when there are matches, is one of them.
pub open spec fn conv_inv(s: ConversationState) -> bool {
    &&& s.cursor <= s.query.len()
    &&& s.match_rows.len() > 0 ==> s.current_match < s.match_rows.len()
}

// ── Layout arithmetic ──────────────────────────────────────────────────────

/// `n + 1`, saturating at `usize::MAX`.
pub open spec fn sat_inc(n: nat) -> nat {
    if n < usize::MAX { n + 1 } else { n }
}

/// `a + b`, saturating at `usize::MAX`.
pub open spec fn sat_add(a: int, b: int) -> int {
    if a + b > usize::MAX { usize::MAX as int } else { a + b }
}

/// The row count and the column reached after laying out `text` from column
/// `start`: a character that does not fit before column `wrap` starts a new
/// row at column `indent`, as does a newline; zero-width characters take no
/// room. Counts saturate at `usize::MAX`.
pub open spec fn wrap_layout(text: Seq<char>, wrap: int, start: int, indent: int) -> (nat, int)
    decreases text.len(),
{
    if text.len() == 0 {
        (1, start)
    } else {
        let st = wrap_layout(text.drop_last(), wrap, start, indent);
        let ch = text.last();
        let w = render_width(ch) as int;
        if w == 0 {
            st
        } else if ch == '\n' {
            (sat_inc(st.0), indent)
        } else if st.1 + w > wrap {
            (sat_inc(st.0), sat_add(indent, w))
        } else {
            (st.0, st.1 + w)
        }
    }
}

/// The number of visual rows `text` takes in a pane `width` columns wide,
/// starting at column `start` and continuing at column `indent`.
pub open spec fn text_rows(text: Seq<char>, width: int, start: int, indent: int) -> nat {
    if width == 0 || text.len() == 0 {
        1
    } else {
        wrap_layout(text, width, start, indent).0
    }
}

/// The column where `text` ends when laid out from column `start`, every
/// character that does not fit before `wrap` (a newline included) starting
/// a new row at `start`.
pub open spec fn end_col(text: Seq<char>, wrap: int, start: int) -> int
    decreases text.len(),
{
    if text.len() == 0 {
        start
    } else {
        let col = end_col(text.drop_last(), wrap, start);
        let w = render_width(text.last()) as int;
        if w == 0 {
            col
        } else if col + w > wrap {
            sat_add(start, w)
        } else {
            col + w
        }
    }
}

/// `c` without its trailing newlines (`trim_end_matches('\n')`).
pub open spec fn trim_newlines(c: Seq<char>) -> Seq<char>
    decreases c.len(),
{
    if c.len() > 0 && c.last() == '\n' {
        trim_newlines(c.drop_last())
    } else {
        c
    }
}

/// Most output lines a tool result shows.
pub const TOOL_RESULT_MAX_LINES: usize = 20;

/// The rows of a tool result: its lines (after trailing newlines) clamped to
/// 1..=20, plus one row for the truncation mark beyond 20.
pub open spec fn tool_result_rows(content: Seq<char>) -> nat {
    let n = text_lines(trim_newlines(content)).len();
    if n > TOOL_RESULT_MAX_LINES { (TOOL_RESULT_MAX_LINES + 1) as nat } else if n < 1 { 1 } else { n }
}

/// The header of a tool call: `  ── <name>`.
pub open spec fn tool_call_header(name: Seq<char>) -> Seq<char> {
    seq![' ', ' ', '─', '─', ' '] + name
}

/// The rows of the answers of a question, each laid out after its label.
pub open spec fn answers_rows(answers: Seq<String>, width: int, label: int) -> nat
    decreases answers.len(),
{
    if answers.len() == 0 {
        0
    } else {
        sat_add(answers_rows(answers.drop_last(), width, label) as int, text_rows(answers.last()@, width, label, label) as int) as nat
    }
}

/// The label width of each answer: room for a two-digit number from ten answers on.
pub open spec fn answer_label_len(n: nat) -> int {
    if n >= 10 { 7 } else { 6 }
}

/// The text of a confirmation prompt: `<name> <args>`.
pub open spec fn prompt_text(name: Seq<char>, args: Seq<char>) -> Seq<char> {
    name + seq![' '] + args
}

/// The number of visual rows a conversation line takes in a pane `width`
/// columns wide.
pub open spec fn line_rows(line: ConversationLine, width: int) -> nat {
    match line {
        ConversationLine::User { text } => text_rows(text@, width, 7, 7),
        ConversationLine::Assistant { text } => text_rows(text@, width, 7, 7),
        ConversationLine::System { text } => text_rows(text@, width, 2, 2),
        ConversationLine::Thinking { text } => text_rows(text@, width, 13, 13),
        ConversationLine::ToolResult { content, .. } => tool_result_rows(content@),
        ConversationLine::ToolCall { name, args_summary } => if args_summary@.len() == 0 {
            1
        } else {
            let hw = str_width(tool_call_header(name@)) as int;
            text_rows(args_summary@, width, hw, hw)
        },
        ConversationLine::Question { question, answers } => {
            let qw = str_width("  ❓ "@) as int;
            sat_add(
                text_rows(question@, width, qw, qw) as int,
                answers_rows(answers@, width, answer_label_len(answers@.len())) as int,
            ) as nat
        },
        ConversationLine::Separator => 1,
        ConversationLine::ConfirmPrompt { name, args_summary, diff_preview } => {
            let pw = str_width("  ⚠ Confirm "@) as int;
            let t = prompt_text(name@, args_summary@);
            let rows = text_rows(t, width, pw, pw);
            let used = end_col(t, width, pw);
            let rows2 = if used + str_width(" [y/n/a]?"@) > width { sat_inc(rows) } else { rows };
            match diff_preview {
                Some(d) => if d@.len() > 0 { sat_add(rows2 as int, text_lines(d@).len() as int) as nat } else { rows2 },
                None => rows2,
            }
        },
    }
}

/// The total visual height of the lines, saturating at `usize::MAX`.
pub open spec fn total_rows(lines: Seq<ConversationLine>, width: int) -> nat
    decreases lines.len(),
{
    if lines.len() == 0 {
        0
    } else {
        sat_add(total_rows(lines.drop_last(), width) as int, line_rows(lines.last(), width) as int) as nat
    }
}

// ── Search ─────────────────────────────────────────────────────────────────

/// The text that search looks in for a line.
pub open spec fn search_text(line: ConversationLine) -> Seq<char> {
    match line {
        ConversationLine::User { text } => text@,
        ConversationLine::Assistant { text } => text@,
        ConversationLine::System { text } => text@,
        ConversationLine::Thinking { text } => text@,
        ConversationLine::ToolResult { content, .. } => content@,
        ConversationLine::ToolCall { name, args_summary } => name@ + seq![' '] + args_summary@,
        ConversationLine::ConfirmPrompt { name, args_summary, .. } => name@ + seq![' '] + args_summary@,
        ConversationLine::Question { question, answers } =>
            question@ + seq![' '] + join(answers@.map_values(|a: String| a@), seq![' ']),
        ConversationLine::Separator => Seq::empty(),
    }
}

/// Whether a line matches a query, ignoring case.
pub open spec fn line_matches(line: ConversationLine, query: Seq<char>) -> bool {
    first_occurrence(lowercase(search_text(line)), lowercase(query), 0) is Some
}

/// The positions of the lines that match a query, in order.
pub open spec fn hits(lines: Seq<ConversationLine>, query: Seq<char>) -> Seq<usize>
    decreases lines.len(),
{
    if lines.len() == 0 {
        Seq::empty()
    } else if line_matches(lines.last(), query) {
        hits(lines.drop_last(), query).push((lines.len() - 1) as usize)
    } else {
        hits(lines.drop_last(), query)
    }
}

/// The rows that search navigates to for a query: the positions of the
/// matching lines (one row each), none for an empty query.
pub open spec fn search_hits(lines: Seq<ConversationLine>, query: Seq<char>) -> Seq<usize> {
    if query.len() == 0 { Seq::empty() } else { hits(lines, query) }
}

/// Search mode closed, with an empty query.
pub open spec fn closed_search(s: ConversationState) -> ConversationState {
    ConversationState { search_active: false, query: Seq::empty(), cursor: 0, match_rows: Seq::empty(), current_match: 0, ..s }
}

/// Search mode toggled: opened with an empty query, or closed.
pub open spec fn toggled_search(s: ConversationState) -> ConversationState {
    if s.search_active {
        closed_search(s)
    } else {
        ConversationState { search_active: true, query: Seq::empty(), cursor: 0, match_rows: Seq::empty(), current_match: 0, ..s }
    }
}

/// The query replaced, with its matches recomputed and the first one current.
pub open spec fn with_query(s: ConversationState, q: Seq<char>, cursor: nat) -> ConversationState {
    ConversationState { query: q, cursor, match_rows: search_hits(s.lines, q), current_match: 0, ..s }
}

/// A character typed at the search cursor.
pub open spec fn typed_char(s: ConversationState, ch: char) -> ConversationState {
    with_query(s, s.query.take(s.cursor as int) + seq![ch] + s.query.skip(s.cursor as int), s.cursor + 1)
}

/// The character before the search cursor deleted.
pub open spec fn backspaced(s: ConversationState) -> ConversationState {
    if s.cursor > 0 {
        with_query(s, s.query.take(s.cursor - 1) + s.query.skip(s.cursor as int), (s.cursor - 1) as nat)
    } else {
        s
    }
}

/// The next match made current (cyclically) and scrolled to.
pub open spec fn next_match(s: ConversationState) -> ConversationState {
    if s.match_rows.len() > 0 {
        let i = ((s.current_match + 1) % s.match_rows.len()) as nat;
        ConversationState { current_match: i, scroll_offset: s.match_rows[i as int] as nat, auto_scroll: false, ..s }
    } else {
        s
    }
}

/// The previous match made current (cyclically) and scrolled to.
pub open spec fn prev_match(s: ConversationState) -> ConversationState {
    if s.match_rows.len() > 0 {
        let i = if s.current_match == 0 { (s.match_rows.len() - 1) as nat } else { (s.current_match - 1) as nat };
        ConversationState { current_match: i, scroll_offset: s.match_rows[i as int] as nat, auto_scroll: false, ..s }
    } else {
        s
    }
}

/// No Ctrl or Alt held.
pub open spec fn plain(k: KeyEvent) -> bool {
    !k.modifiers.ctrl && !k.modifiers.alt
}

/// The pane's response to an event. In search mode keys edit the query
/// (Escape closes, Enter and Shift+Enter move between matches) and nothing
/// else happens; otherwise Ctrl+F opens search and Tab / BackTab move focus.
pub open spec fn conv_event(s: ConversationState, e: Event) -> (ConversationState, ActionView) {
    if s.search_active {
        match e {
            Event::Key(k) => {
                let s2 = match k.key {
                    Key::Escape => if plain(k) { closed_search(s) } else { s },
                    Key::Enter => if k.modifiers.shift { prev_match(s) } else if plain(k) { next_match(s) } else { s },
                    Key::Char(ch) => if plain(k) { typed_char(s, ch) } else { s },
                    Key::Backspace => backspaced(s),
                    Key::Left => if plain(k) && s.cursor > 0 {
                        ConversationState { cursor: (s.cursor - 1) as nat, ..s }
                    } else {
                        s
                    },
                    Key::Right => if plain(k) && s.cursor < s.query.len() {
                        ConversationState { cursor: s.cursor + 1, ..s }
                    } else {
                        s
                    },
                    _ => s,
                };
                (s2, ActionView::NoOp)
            },
            _ => (s, ActionView::NoOp),
        }
    } else {
        match e {
            Event::Key(k) => if k.key == Key::Char('f') && k.modifiers.ctrl {
                (toggled_search(s), ActionView::NoOp)
            } else if k.key == Key::Tab && !k.modifiers.shift && !k.modifiers.alt && !k.modifiers.ctrl {
                (s, ActionView::CycleFocusForward)
            } else if k.key == Key::BackTab {
                (s, ActionView::CycleFocusBackward)
            } else {
                (s, ActionView::NoOp)
            },
            _ => (s, ActionView::NoOp),
        }
    }
}

/// `a + b`, saturating.
fn sat_add_exec(a: usize, b: usize) -> (r: usize)
    ensures
        r == sat_add(a as int, b as int),
{
    a.saturating_add(b)
}

/// Rows of `text` (see [`text_rows`]).
fn text_rows_exec(text: &str, width: u16, start: usize, indent: usize) -> (r: usize)
    ensures
        r == text_rows(text@, width as int, start as int, indent as int),
{
    let cs = chars_of(text);
    if width == 0 || cs.len() == 0 {
        return 1;
    }
    let wrap = width as usize;
    let mut rows: usize = 1;
    let mut col: usize = start;
    let mut i: usize = 0;
    proof {
        assert(cs@.take(0) =~= Seq::<char>::empty());
    }
    while i < cs.len()
        invariant
            i <= cs@.len(),
            cs@ == text@,
            wrap == width,
            (rows as nat, col as int) == wrap_layout(cs@.take(i as int), wrap as int, start as int, indent as int),
        decreases cs@.len() - i,
    {
        proof {
            assert(cs@.take(i + 1).drop_last() =~= cs@.take(i as int));
        }
        let ch = cs[i];
        let w = width_or_one(ch);
        if w == 0 {
        } else if ch == '\n' {
            rows = if rows < usize::MAX { rows + 1 } else { rows };
            col = indent;
        } else if col > wrap || wrap - col < w {
            rows = if rows < usize::MAX { rows + 1 } else { rows };
            col = indent.saturating_add(w);
        } else {
            col = col + w;
        }
        i += 1;
    }
    proof {
        assert(cs@.take(cs@.len() as int) =~= cs@);
    }
    rows
}

/// The column where `text` ends (see [`end_col`]).
fn end_col_exec(text: &[char], wrap: usize, start: usize) -> (r: usize)
    ensures
        r == end_col(text@, wrap as int, start as int),
{
    let mut col: usize = start;
    let mut i: usize = 0;
    proof {
        assert(text@.take(0) =~= Seq::<char>::empty());
    }
    while i < text.len()
        invariant
            i <= text@.len(),
            col == end_col(text@.take(i as int), wrap as int, start as int),
        decreases text@.len() - i,
    {
        proof {
            assert(text@.take(i + 1).drop_last() =~= text@.take(i as int));
        }
        let w = width_or_one(text[i]);
        if w == 0 {
        } else if col > wrap || wrap - col < w {
            col = start.saturating_add(w);
        } else {
            col = col + w;
        }
        i += 1;
    }
    proof {
        assert(text@.take(text@.len() as int) =~= text@);
    }
    col
}

/// The number of characters left once trailing newlines are dropped.
fn trimmed_len(cs: &[char]) -> (n: usize)
    ensures
        n <= cs@.len(),
        cs@.take(n as int) == trim_newlines(cs@),
{
    let mut n = cs.len();
    proof {
        assert(cs@.take(n as int) =~= cs@);
    }
    while n > 0 && cs[n - 1] == '\n'
        invariant
            n <= cs@.len(),
            trim_newlines(cs@.take(n as int)) == trim_newlines(cs@),
        decreases n,
    {
        proof {
            assert(cs@.take(n as int).drop_last() =~= cs@.take(n - 1));
        }
        n -= 1;
    }
    n
}

/// The rows of a tool result (see [`tool_result_rows`]).
fn tool_result_rows_exec(content: &str) -> (r: usize)
    ensures
        r == tool_result_rows(content@),
{
    let cs = chars_of(content);
    let n = trimmed_len(&cs);
    let t = slice_chars(&cs, 0, n);
    proof {
        assert(t@ =~= cs@.take(n as int));
    }
    let ls = lines_of(&t);
    proof {
        assert(vv(ls@).len() == ls@.len());
    }
    let count = ls.len();
    if count > TOOL_RESULT_MAX_LINES {
        TOOL_RESULT_MAX_LINES + 1
    } else if count < 1 {
        1
    } else {
        count
    }
}

impl ConversationWidget {
    /// An empty pane following the latest line.
    pub fn new() -> (r: Self)
        ensures
            r@.lines.len() == 0,
            r@.scroll_offset == 0,
            r@.auto_scroll,
            r@.warning == ContextWarningLevel::Normal,
            !r@.search_active,
            r@.query.len() == 0,
            r@.cursor == 0,
            r@.match_rows.len() == 0,
            r@.current_match == 0,
            conv_inv(r@),
    {
        ConversationWidget {
            lines: Vec::new(),
            scroll_offset: 0,
            auto_scroll: true,
            context_warning: ContextWarningLevel::Normal,
            search: SearchState { active: false, query: Vec::new(), cursor: 0, match_rows: Vec::new(), current_match: 0 },
        }
    }

    /// Add a line to the conversation (following it when the pane follows
    /// the latest line).
    pub fn push(&mut self, line: ConversationLine)
        ensures
            final(self)@ == (ConversationState { lines: old(self)@.lines.push(line), ..old(self)@ }),
    {
        self.lines.push(line);
        if self.auto_scroll {
            self.scroll_to_bottom();
        }
    }

    /// Add several lines at once.
    pub fn extend(&mut self, lines: Vec<ConversationLine>)
        ensures
            final(self)@ == (ConversationState { lines: old(self)@.lines + lines@, ..old(self)@ }),
    {
        let mut more = lines;
        self.lines.append(&mut more);
        if self.auto_scroll {
            self.scroll_to_bottom();
        }
    }

    /// Remove every line and scroll to the top.
    pub fn clear(&mut self)
        ensures
            final(self)@ == (ConversationState { lines: Seq::empty(), scroll_offset: 0, ..old(self)@ }),
    {
        self.lines.clear();
        self.scroll_offset = 0;
    }

    /// The number of lines.
    pub fn len(&self) -> (r: usize)
        ensures
            r == self@.lines.len(),
    {
        self.lines.len()
    }

    /// Whether there are no lines.
    pub fn is_empty(&self) -> (r: bool)
        ensures
            r == (self@.lines.len() == 0),
    {
        self.lines.len() == 0
    }

    /// The lines, in order.
    pub fn lines(&self) -> (r: &Vec<ConversationLine>)
        ensures
            r@ == self@.lines,
    {
        &self.lines
    }

    /// The last line, to change in place, if any.
    pub fn last_mut(&mut self) -> (r: Option<&mut ConversationLine>)
        ensures
            r is None <==> old(self)@.lines.len() == 0,
            r is None ==> final(self)@ == old(self)@,
            r matches Some(l) ==> *l == old(self)@.lines.last() && final(self)@ == (ConversationState {
                lines: old(self)@.lines.update(old(self)@.lines.len() - 1, *final(l)),
                ..old(self)@
            }),
    {
        let n = self.lines.len();
        if n == 0 {
            None
        } else {
            Some(&mut self.lines[n - 1])
        }
    }

    /// Whether the last line is an assistant message.
    pub fn last_is_assistant(&self) -> (r: bool)
        ensures
            r == (self@.lines.len() > 0 && self@.lines.last() is Assistant),
    {
        let n = self.lines.len();
        if n == 0 {
            return false;
        }
        match &self.lines[n - 1] {
            ConversationLine::Assistant { .. } => true,
            _ => false,
        }
    }

    /// Set the context warning level.
    pub fn set_context_warning(&mut self, level: ContextWarningLevel)
        ensures
            final(self)@ == (ConversationState { warning: level, ..old(self)@ }),
    {
        self.context_warning = level;
    }

    /// The context warning level.
    pub fn context_warning(&self) -> (r: &ContextWarningLevel)
        ensures
            *r == self@.warning,
    {
        &self.context_warning
    }

    /// Whether the pane follows the latest line.
    pub fn auto_scroll(&self) -> (r: bool)
        ensures
            r == self@.auto_scroll,
    {
        self.auto_scroll
    }

    /// The scroll offset, in visual rows.
    pub fn scroll_offset(&self) -> (r: usize)
        ensures
            r == self@.scroll_offset,
    {
        self.scroll_offset
    }

    /// Scroll to a visual row and stop following the latest line.
    pub fn set_scroll_offset(&mut self, offset: usize)
        ensures
            final(self)@ == (ConversationState { scroll_offset: offset as nat, auto_scroll: false, ..old(self)@ }),
    {
        self.scroll_offset = offset;
        self.auto_scroll = false;
    }

    /// Open search mode with an empty query, or close it.
    pub fn toggle_search(&mut self)
        ensures
            final(self)@ == toggled_search(old(self)@),
    {
        if self.search.active {
            self.close_search();
        } else {
            self.search.active = true;
            self.search.query.clear();
            self.search.cursor = 0;
            self.search.match_rows.clear();
            self.search.current_match = 0;
        }
    }

    /// Close search mode and clear the query.
    pub fn close_search(&mut self)
        ensures
            final(self)@ == closed_search(old(self)@),
    {
        self.search.active = false;
        self.search.query.clear();
        self.search.cursor = 0;
        self.search.match_rows.clear();
        self.search.current_match = 0;
    }

    /// Whether search mode is active.
    pub fn is_search_active(&self) -> (r: bool)
        ensures
            r == self@.search_active,
    {
        self.search.active
    }

    /// The search query.
    pub fn search_query(&self) -> (r: String)
        ensures
            r@ == self@.query,
    {
        string_of(&self.search.query)
    }

    /// The search cursor, as a byte offset into the query.
    pub fn search_cursor(&self) -> (r: usize)
        requires
            conv_inv(self@),
        ensures
            r == encode_utf8(self@.query.take(self@.cursor as int)).len(),
    {
        let before = slice_chars(&self.search.query, 0, self.search.cursor);
        let s = string_of(&before);
        proof {
            assert(before@ =~= self.search.query@.take(self.search.cursor as int));
        }
        s.as_str().as_bytes().len()
    }

    /// The rows of the lines matching the search query.
    pub fn search_matches(&self) -> (r: &Vec<usize>)
        ensures
            r@ == self@.match_rows,
    {
        &self.search.match_rows
    }

    /// The index of the current match.
    pub fn current_match(&self) -> (r: usize)
        ensures
            r == self@.current_match,
    {
        self.search.current_match
    }

    /// The text search looks in for a line (see [`search_text`]).
    fn search_text_of(line: &ConversationLine) -> (r: String)
        ensures
            r@ == search_text(*line),
    {
        let mut s = String::new();
        match line {
            ConversationLine::User { text } => push_str(&mut s, text),
            ConversationLine::Assistant { text } => push_str(&mut s, text),
            ConversationLine::System { text } => push_str(&mut s, text),
            ConversationLine::Thinking { text } => push_str(&mut s, text),
            ConversationLine::ToolResult { content, .. } => push_str(&mut s, content),
            ConversationLine::ToolCall { name, args_summary } => {
                push_str(&mut s, name);
                string_push(&mut s, ' ');
                push_str(&mut s, args_summary);
            },
            ConversationLine::ConfirmPrompt { name, args_summary, .. } => {
                push_str(&mut s, name);
                string_push(&mut s, ' ');
                push_str(&mut s, args_summary);
            },
            ConversationLine::Question { question, answers } => {
                push_str(&mut s, question);
                string_push(&mut s, ' ');
                let ghost base = s@;
                let mut i: usize = 0;
                while i < answers.len()
                    invariant
                        i <= answers@.len(),
                        s@ == base + join(answers@.map_values(|a: String| a@).take(i as int), seq![' ']),
                    decreases answers@.len() - i,
                {
                    let ghost prev = s@;
                    proof {
                        let v = answers@.map_values(|a: String| a@);
                        assert(v.take(i + 1).drop_last() =~= v.take(i as int));
                        assert(v.take(i + 1).last() == answers@[i as int]@);
                        if i == 0 {
                            assert(v.take(0) =~= Seq::<Seq<char>>::empty());
                        }
                    }
                    if i > 0 {
                        string_push(&mut s, ' ');
                    }
                    push_str(&mut s, &answers[i]);
                    proof {
                        let v = answers@.map_values(|a: String| a@);
                        if i == 0 {
                            assert(join(v.take(1), seq![' ']) == v.take(1)[0]);
                            assert(s@ =~= base + join(v.take(1), seq![' ']));
                        } else {
                            assert(s@ =~= base + join(v.take(i + 1), seq![' ']));
                        }
                    }
                    i += 1;
                }
                proof {
                    assert(answers@.map_values(|a: String| a@).take(answers@.len() as int)
                        =~= answers@.map_values(|a: String| a@));
                }
            },
            ConversationLine::Separator => {},
        }
        proof {
            assert(s@ =~= search_text(*line));
        }
        s
    }

    /// The positions of the lines matching a non-empty query.
    fn find_hits(lines: &Vec<ConversationLine>, query: &[char]) -> (r: Vec<usize>)
        ensures
            r@ == hits(lines@, query@),
    {
        let q = lower_chars(query);
        let mut r: Vec<usize> = Vec::new();
        let mut i: usize = 0;
        proof {
            assert(lines@.take(0) =~= Seq::<ConversationLine>::empty());
        }
        while i < lines.len()
            invariant
                i <= lines@.len(),
                q@ == lowercase(query@),
                r@ == hits(lines@.take(i as int), query@),
            decreases lines@.len() - i,
        {
            proof {
                assert(lines@.take(i + 1).drop_last() =~= lines@.take(i as int));
                assert(lines@.take(i + 1).last() == lines@[i as int]);
            }
            let text = Self::search_text_of(&lines[i]);
            let lowered = lower_chars(&chars_of(text.as_str()));
            if find_chars(&lowered, &q).is_some() {
                r.push(i);
            }
            i += 1;
        }
        proof {
            assert(lines@.take(lines@.len() as int) =~= lines@);
        }
        r
    }

    /// Replace the query and recompute its matches, the first one current.
    fn set_query(&mut self, q: Vec<char>, cursor: usize)
        ensures
            final(self)@ == with_query(old(self)@, q@, cursor as nat),
    {
        let rows = if q.len() == 0 { Vec::new() } else { Self::find_hits(&self.lines, &q) };
        self.search.query = q;
        self.search.cursor = cursor;
        self.search.match_rows = rows;
        self.search.current_match = 0;
    }

    /// Type a character at the search cursor.
    pub fn search_type_char(&mut self, ch: char)
        requires
            conv_inv(old(self)@),
        ensures
            final(self)@ == typed_char(old(self)@, ch),
            conv_inv(final(self)@),
    {
        let c = self.search.cursor;
        let mut q: Vec<char> = slice_chars(&self.search.query, 0, c);
        q.push(ch);
        let n = self.search.query.len();
        let mut i = c;
        while i < n
            invariant
                c <= i <= n == self.search.query@.len(),
                q@ == self.search.query@.take(c as int) + seq![ch] + self.search.query@.subrange(c as int, i as int),
            decreases n - i,
        {
            q.push(self.search.query[i]);
            proof {
                assert(self.search.query@.subrange(c as int, i + 1) =~= self.search.query@.subrange(c as int, i as int).push(self.search.query@[i as int]));
            }
            i += 1;
        }
        proof {
            assert(self.search.query@.subrange(c as int, n as int) =~= self.search.query@.skip(c as int));
        }
        let total = q.len();
        assert(total == n + 1);
        self.set_query(q, c + 1);
    }

    /// Delete the character before the search cursor.
    pub fn search_backspace(&mut self)
        requires
            conv_inv(old(self)@),
        ensures
            final(self)@ == backspaced(old(self)@),
            conv_inv(final(self)@),
    {
        let c = self.search.cursor;
        if c == 0 {
            return;
        }
        let n = self.search.query.len();
        let mut q: Vec<char> = slice_chars(&self.search.query, 0, c - 1);
        let mut i = c;
        while i < n
            invariant
                c <= i <= n == self.search.query@.len(),
                q@ == self.search.query@.take(c - 1) + self.search.query@.subrange(c as int, i as int),
            decreases n - i,
        {
            q.push(self.search.query[i]);
            proof {
                assert(self.search.query@.subrange(c as int, i + 1) =~= self.search.query@.subrange(c as int, i as int).push(self.search.query@[i as int]));
            }
            i += 1;
        }
        proof {
            assert(self.search.query@.subrange(c as int, n as int) =~= self.search.query@.skip(c as int));
        }
        self.set_query(q, c - 1);
    }

    /// Move the search cursor one character left.
    pub fn search_cursor_left(&mut self)
        ensures
            final(self)@ == (if old(self)@.cursor > 0 {
                ConversationState { cursor: (old(self)@.cursor - 1) as nat, ..old(self)@ }
            } else {
                old(self)@
            }),
    {
        if self.search.cursor > 0 {
            self.search.cursor = self.search.cursor - 1;
        }
    }

    /// Move the search cursor one character right.
    pub fn search_cursor_right(&mut self)
        ensures
            final(self)@ == (if old(self)@.cursor < old(self)@.query.len() {
                ConversationState { cursor: old(self)@.cursor + 1, ..old(self)@ }
            } else {
                old(self)@
            }),
    {
        if self.search.cursor < self.search.query.len() {
            self.search.cursor = self.search.cursor + 1;
        }
    }

    /// Make the next match current and scroll to it.
    pub fn search_next(&mut self)
        requires
            conv_inv(old(self)@),
        ensures
            final(self)@ == next_match(old(self)@),
            conv_inv(final(self)@),
    {
        let n = self.search.match_rows.len();
        if n > 0 {
            self.search.current_match = (self.search.current_match + 1) % n;
            self.scroll_offset = self.search.match_rows[self.search.current_match];
            self.auto_scroll = false;
        }
    }

    /// Make the previous match current and scroll to it.
    pub fn search_prev(&mut self)
        requires
            conv_inv(old(self)@),
        ensures
            final(self)@ == prev_match(old(self)@),
            conv_inv(final(self)@),
    {
        let n = self.search.match_rows.len();
        if n > 0 {
            if self.search.current_match == 0 {
                self.search.current_match = n - 1;
            } else {
                self.search.current_match = self.search.current_match - 1;
            }
            self.scroll_offset = self.search.match_rows[self.search.current_match];
            self.auto_scroll = false;
        }
    }

    /// The visual rows a line takes in a pane `area_width` columns wide.
    pub fn line_height(&self, line: &ConversationLine, area_width: u16) -> (r: usize)
        ensures
            r == line_rows(*line, area_width as int),
    {
        Self::rows_of(line, area_width)
    }

    /// The visual rows of a line (see [`line_rows`]).
    fn rows_of(line: &ConversationLine, area_width: u16) -> (r: usize)
        ensures
            r == line_rows(*line, area_width as int),
    {
        match line {
            ConversationLine::User { text } => text_rows_exec(text, area_width, 7, 7),
            ConversationLine::Assistant { text } => text_rows_exec(text, area_width, 7, 7),
            ConversationLine::System { text } => text_rows_exec(text, area_width, 2, 2),
            ConversationLine::Thinking { text } => text_rows_exec(text, area_width, 13, 13),
            ConversationLine::ToolResult { content, .. } => tool_result_rows_exec(content),
            ConversationLine::ToolCall { name, args_summary } => {
                if args_summary.as_str().is_empty() {
                    return 1;
                }
                let mut header = String::new();
                string_push(&mut header, ' ');
                string_push(&mut header, ' ');
                string_push(&mut header, '─');
                string_push(&mut header, '─');
                string_push(&mut header, ' ');
                push_str(&mut header, name);
                proof {
                    assert(header@ =~= tool_call_header(name@));
                }
                let hw = str_display_width(header.as_str());
                text_rows_exec(args_summary, area_width, hw, hw)
            },
            ConversationLine::Question { question, answers } => {
                let qw = str_display_width("  ❓ ");
                let q_rows = text_rows_exec(question, area_width, qw, qw);
                let label: usize = if answers.len() >= 10 { 7 } else { 6 };
                let mut total: usize = 0;
                let mut i: usize = 0;
                proof {
                    assert(answers@.take(0) =~= Seq::<String>::empty());
                }
                while i < answers.len()
                    invariant
                        i <= answers@.len(),
                        label == answer_label_len(answers@.len()),
                        total == answers_rows(answers@.take(i as int), area_width as int, label as int),
                    decreases answers@.len() - i,
                {
                    proof {
                        assert(answers@.take(i + 1).drop_last() =~= answers@.take(i as int));
                    }
                    let a = text_rows_exec(&answers[i], area_width, label, label);
                    total = sat_add_exec(total, a);
                    i += 1;
                }
                proof {
                    assert(answers@.take(answers@.len() as int) =~= answers@);
                }
                sat_add_exec(q_rows, total)
            },
            ConversationLine::Separator => 1,
            ConversationLine::ConfirmPrompt { name, args_summary, diff_preview } => {
                let pw = str_display_width("  ⚠ Confirm ");
                let mut t = String::new();
                push_str(&mut t, name);
                string_push(&mut t, ' ');
                push_str(&mut t, args_summary);
                proof {
                    assert(t@ =~= prompt_text(name@, args_summary@));
                }
                let rows = text_rows_exec(t.as_str(), area_width, pw, pw);
                let used = end_col_exec(&chars_of(t.as_str()), area_width as usize, pw);
                let sw = str_display_width(" [y/n/a]?");
                let aw = area_width as usize;
                let rows2 = if used > aw || aw - used < sw {
                    if rows < usize::MAX { rows + 1 } else { rows }
                } else {
                    rows
                };
                match diff_preview {
                    Some(d) => {
                        let dc = chars_of(d);
                        if dc.len() > 0 {
                            let ls = lines_of(&dc);
                            proof {
                                assert(vv(ls@).len() == ls@.len());
                            }
                            sat_add_exec(rows2, ls.len())
                        } else {
                            rows2
                        }
                    },
                    None => rows2,
                }
            },
        }
    }

    /// The total visual height of the lines in a pane `width` columns wide.
    pub fn total_visual_height(&self, width: u16) -> (r: usize)
        ensures
            r == total_rows(self@.lines, width as int),
    {
        let mut total: usize = 0;
        let mut i: usize = 0;
        proof {
            assert(self.lines@.take(0) =~= Seq::<ConversationLine>::empty());
        }
        while i < self.lines.len()
            invariant
                i <= self.lines@.len(),
                total == total_rows(self.lines@.take(i as int), width as int),
            decreases self.lines@.len() - i,
        {
            proof {
                assert(self.lines@.take(i + 1).drop_last() =~= self.lines@.take(i as int));
            }
            let h = Self::rows_of(&self.lines[i], width);
            total = sat_add_exec(total, h);
            i += 1;
        }
        proof {
            assert(self.lines@.take(self.lines@.len() as int) =~= self.lines@);
        }
        total
    }

    /// Scroll to `max_scroll` when following the latest line, and never past it.
    fn clamp_scroll(&mut self, max_scroll: usize)
        ensures
            final(self)@ == (ConversationState {
                scroll_offset: (if old(self)@.auto_scroll || old(self)@.scroll_offset > max_scroll {
                    max_scroll as nat
                } else {
                    old(self)@.scroll_offset
                }),
                ..old(self)@
            }),
    {
        if self.auto_scroll {
            self.scroll_offset = max_scroll;
        }
        if self.scroll_offset > max_scroll {
            self.scroll_offset = max_scroll;
        }
    }

    /// Follow the latest line.
    pub fn scroll_to_bottom(&mut self)
        ensures
            final(self)@ == (ConversationState { auto_scroll: true, ..old(self)@ }),
    {
        self.auto_scroll = true;
    }

    /// Scroll up by `n` visual rows and stop following the latest line.
    pub fn scroll_up(&mut self, n: usize)
        ensures
            final(self)@ == (ConversationState {
                scroll_offset: (if old(self)@.scroll_offset >= n { old(self)@.scroll_offset - n } else { 0 }) as nat,
                auto_scroll: false,
                ..old(self)@
            }),
    {
        self.scroll_offset = self.scroll_offset.saturating_sub(n);
        self.auto_scroll = false;
    }

    /// Scroll down by `n` visual rows (saturating).
    pub fn scroll_down(&mut self, n: usize)
        ensures
            final(self)@ == (ConversationState {
                scroll_offset: sat_add(old(self)@.scroll_offset as int, n as int) as nat,
                ..old(self)@
            }),
    {
        self.scroll_offset = self.scroll_offset.saturating_add(n);
    }

    /// Scroll to the very top and stop following the latest line.
    pub fn scroll_home(&mut self)
        ensures
            final(self)@ == (ConversationState { scroll_offset: 0, auto_scroll: false, ..old(self)@ }),
    {
        self.scroll_offset = 0;
        self.auto_scroll = false;
    }

    /// Handle an event (see [`conv_event`]).
    pub fn handle_conv_event(&mut self, event: &Event) -> (r: Action)
        requires
            conv_inv(old(self)@),
        ensures
            (final(self)@, r@) == conv_event(old(self)@, *event),
            conv_inv(final(self)@),
    {
        if self.search.active {
            if let Event::Key(k) = event {
                let plain = !k.modifiers.ctrl && !k.modifiers.alt;
                match k.key {
                    Key::Escape => {
                        if plain {
                            self.close_search();
                        }
                    },
                    Key::Enter => {
                        if k.modifiers.shift {
                            self.search_prev();
                        } else if plain {
                            self.search_next();
                        }
                    },
                    Key::Char(ch) => {
                        if plain {
                            self.search_type_char(ch);
                        }
                    },
                    Key::Backspace => {
                        self.search_backspace();
                    },
                    Key::Left => {
                        if plain {
                            self.search_cursor_left();
                        }
                    },
                    Key::Right => {
                        if plain {
                            self.search_cursor_right();
                        }
                    },
                    _ => {},
                }
            }
            return Action::NoOp;
        }
        if let Event::Key(k) = event {
            if k.key == Key::Char('f') && k.modifiers.ctrl {
                self.toggle_search();
                return Action::NoOp;
            }
            if k.key == Key::Tab && !k.modifiers.shift && !k.modifiers.alt && !k.modifiers.ctrl {
                return Action::CycleFocusForward;
            }
            if k.key == Key::BackTab {
                return Action::CycleFocusBackward;
            }
        }
        Action::NoOp
    }
}


// ── Laws ───────────────────────────────────────────────────────────────────

/// Opening search on a pane and toggling again closes it with an empty
/// query, leaving the rest of the pane as it was.
pub proof fn lemma_toggle_search_twice(s: ConversationState)
    requires
        !s.search_active,
    ensures
        toggled_search(toggled_search(s)) == closed_search(s),
{
}

/// Backspace right after typing a character in the search query restores
/// the query and the cursor.
pub proof fn lemma_type_then_backspace(s: ConversationState, ch: char)
    requires
        conv_inv(s),
    ensures
        backspaced(typed_char(s, ch)).query == s.query,
        backspaced(typed_char(s, ch)).cursor == s.cursor,
{
    let t = typed_char(s, ch);
    assert(t.query.take(t.cursor - 1) + t.query.skip(t.cursor as int) =~= s.query);
}

/// Moving to the next match and back returns to the same match.
pub proof fn lemma_next_then_prev_match(s: ConversationState)
    requires
        conv_inv(s),
    ensures
        prev_match(next_match(s)).current_match == s.current_match,
{
    if s.match_rows.len() > 0 {
        let n = s.match_rows.len() as int;
        let c = s.current_match as int;
        if c + 1 < n {
            assert((c + 1) % n == c + 1) by (nonlinear_arith)
                requires
                    0 <= c + 1 < n;
        } else {
            assert((c + 1) % n == 0) by (nonlinear_arith)
                requires
                    c + 1 == n,
                    n > 0;
        }
    }
}

/// Moving to the next match as many times as there are matches comes back
/// to the match it started from.
pub proof fn lemma_next_match_cycles(s: ConversationState, k: nat)
    requires
        conv_inv(s),
        s.match_rows.len() > 0,
        k <= s.match_rows.len(),
    ensures
        next_matches(s, k).current_match as int == (s.current_match + k) as int % (s.match_rows.len() as int),
        next_matches(s, k).match_rows == s.match_rows,
    decreases k,
{
    let n = s.match_rows.len() as int;
    let c = s.current_match as int;
    if k == 0 {
        assert(c % n == c) by (nonlinear_arith)
            requires
                0 <= c < n;
    } else {
        lemma_next_match_cycles(s, (k - 1) as nat);
        assert(((c + (k - 1)) % n + 1) % n == (c + k) % n) by (nonlinear_arith)
            requires
                n > 0,
                0 <= c < n,
                k >= 1;
    }
}

/// A tool result matches a query exactly when the lowercased query occurs
/// in its lowercased output; the tool's name plays no part.
pub proof fn lemma_tool_result_matches(name: String, content: String, is_error: bool, query: Seq<char>)
    ensures
        line_matches(ConversationLine::ToolResult { name, content, is_error }, query)
            <==> first_occurrence(lowercase(content@), lowercase(query), 0) is Some,
{
}

/// A user, assistant, system or thinking line matches a query exactly when
/// the lowercased query occurs in its lowercased text.
pub proof fn lemma_text_line_matches(line: ConversationLine, text: String, query: Seq<char>)
    requires
        line == (ConversationLine::User { text }) || line == (ConversationLine::Assistant { text })
            || line == (ConversationLine::System { text }) || line == (ConversationLine::Thinking { text }),
    ensures
        line_matches(line, query) <==> first_occurrence(lowercase(text@), lowercase(query), 0) is Some,
{
}

/// The matches of a query are the positions of the matching lines: each
/// position is listed exactly when its line matches, in increasing order.
pub proof fn lemma_hits_are_matching_lines(lines: Seq<ConversationLine>, query: Seq<char>)
    requires
        lines.len() <= usize::MAX,
    ensures
        forall|k: int| 0 <= k < hits(lines, query).len() ==> #[trigger] hits(lines, query)[k] < lines.len(),
        forall|a: int, b: int| 0 <= a < b < hits(lines, query).len()
            ==> #[trigger] hits(lines, query)[a] < #[trigger] hits(lines, query)[b],
        forall|i: int| 0 <= i < lines.len()
            ==> (hits(lines, query).contains(i as usize) <==> line_matches(#[trigger] lines[i], query)),
    decreases lines.len(),
{
    if lines.len() > 0 {
        let rest = lines.drop_last();
        lemma_hits_are_matching_lines(rest, query);
        let h0 = hits(rest, query);
        let n = lines.len() - 1;
        assert forall|i: int| 0 <= i < lines.len() implies (hits(lines, query).contains(i as usize)
            <==> line_matches(#[trigger] lines[i], query)) by {
            if i < n {
                assert(rest[i] == lines[i]);
                if line_matches(lines.last(), query) {
                    let h = h0.push(n as usize);
                    if h.contains(i as usize) {
                        let j = choose|j: int| 0 <= j < h.len() && h[j] == i as usize;
                        if j < h0.len() {
                            assert(h0[j] == i as usize);
                        }
                    }
                    if h0.contains(i as usize) {
                        let j = choose|j: int| 0 <= j < h0.len() && h0[j] == i as usize;
                        assert(h[j] == i as usize);
                    }
                }
            } else {
                if line_matches(lines.last(), query) {
                    assert(hits(lines, query)[h0.len() as int] == i as usize);
                } else {
                    if h0.contains(i as usize) {
                        let j = choose|j: int| 0 <= j < h0.len() && h0[j] == i as usize;
                        assert(h0[j] < rest.len());
                    }
                }
            }
        }
    }
}

/// A tool result is among the search matches exactly when the query is not
/// empty and, ignoring case, occurs in the tool's output.
pub proof fn lemma_tool_result_found(lines: Seq<ConversationLine>, query: Seq<char>, i: int)
    requires
        lines.len() <= usize::MAX,
        0 <= i < lines.len(),
        lines[i] is ToolResult,
    ensures
        search_hits(lines, query).contains(i as usize) <==> (query.len() > 0
            && first_occurrence(lowercase(lines[i]->ToolResult_content@), lowercase(query), 0) is Some),
{
    lemma_hits_are_matching_lines(lines, query);
    assert(line_matches(lines[i], query) <==> first_occurrence(
        lowercase(lines[i]->ToolResult_content@),
        lowercase(query),
        0,
    ) is Some);
}

/// `k` moves to the next match.
pub open spec fn next_matches(s: ConversationState, k: nat) -> ConversationState
    decreases k,
{
    if k == 0 { s } else { next_match(next_matches(s, (k - 1) as nat)) }
}

/// A tool result never takes more than 21 rows: 20 output lines and the
/// truncation mark.
pub proof fn lemma_tool_result_rows_bound(content: Seq<char>)
    ensures
        1 <= tool_result_rows(content) <= TOOL_RESULT_MAX_LINES + 1,
{
}

// ── Drawing ────────────────────────────────────────────────────────────────


/// `a + b` for a column or row, saturating at the largest coordinate.
fn coord_add(a: u16, b: usize) -> (r: u16)
    ensures
        r == (if a + b > u16::MAX { u16::MAX as int } else { a + b }),
{
    let room = (u16::MAX - a) as usize;
    if b > room { u16::MAX } else { a + b as u16 }
}

/// Set the background of one cell, if it is on the screen.
fn recolor_bg(screen: &mut Screen, row: u16, col: u16, bg: Color)
    requires
        old(screen).wf(),
    ensures
        final(screen)@ == (if in_bounds(old(screen)@, row as int, col as int) {
            put(old(screen)@, row as int, col as int, Cell { bg, ..cell_at(old(screen)@, row as int, col as int) })
        } else {
            old(screen)@
        }),
        final(screen).wf(),
        final(screen)@.width == old(screen)@.width,
        final(screen)@.height == old(screen)@.height,
        same_outside_rows(old(screen)@, final(screen)@, row as int, row + 1),
{
    proof {
        lemma_same_rows_refl(screen@, row as int, row + 1);
    }
    if let Some(c) = screen.get(row, col) {
        let mut cell = *c;
        cell.bg = bg;
        screen.set_cell(row, col, cell);
    }
}

/// Clear one cell to a space on background `bg`, if it is on the screen.
fn clear_cell_bg(screen: &mut Screen, row: u16, col: u16, bg: Color)
    requires
        old(screen).wf(),
    ensures
        final(screen)@ == (if in_bounds(old(screen)@, row as int, col as int) {
            put(old(screen)@, row as int, col as int, Cell { bg, char: ' ', wide: false, ..cell_at(old(screen)@, row as int, col as int) })
        } else {
            old(screen)@
        }),
        final(screen).wf(),
        final(screen)@.width == old(screen)@.width,
        final(screen)@.height == old(screen)@.height,
        same_outside_rows(old(screen)@, final(screen)@, row as int, row + 1),
{
    proof {
        lemma_same_rows_refl(screen@, row as int, row + 1);
    }
    if let Some(c) = screen.get(row, col) {
        let mut cell = *c;
        cell.bg = bg;
        cell.char = ' ';
        cell.wide = false;
        screen.set_cell(row, col, cell);
    }
}

/// Set the background of the cells `from..to` of a row.
fn recolor_span(screen: &mut Screen, row: u16, from: u16, to: u16, bg: Color)
    requires
        old(screen).wf(),
    ensures
        final(screen)@ == recolored_from(old(screen)@, row as int, from as int, to as int, bg),
        final(screen).wf(),
        final(screen)@.width == old(screen)@.width,
        final(screen)@.height == old(screen)@.height,
        same_outside_rows(old(screen)@, final(screen)@, row as int, row + 1),
{
    let mut c = from;
    proof {
        lemma_same_rows_refl(screen@, row as int, row + 1);
    }
    while c < to
        invariant
            screen.wf(),
            screen@.width == old(screen)@.width,
            screen@.height == old(screen)@.height,
            same_outside_rows(old(screen)@, screen@, row as int, row + 1),
            recolored_from(screen@, row as int, c as int, to as int, bg)
                == recolored_from(old(screen)@, row as int, from as int, to as int, bg),
        decreases to - c,
    {
        let ghost before = screen@;
        recolor_bg(screen, row, c, bg);
        proof {
            lemma_same_rows_step(old(screen)@, before, screen@, row as int, row + 1, row as int, row + 1);
        }
        c += 1;
    }
}

/// How a message line is drawn: its prefix with color and style, the column
/// its body starts at, and the body with color and style (drawn only when
/// `has_body` holds).
pub struct MessageLook {
    pub prefix: Seq<char>,
    pub prefix_fg: Color,
    pub prefix_style: Style,
    pub indent: int,
    pub body: Seq<char>,
    pub body_fg: Color,
    pub body_style: Style,
    pub has_body: bool,
}

/// `a + b` as a coordinate, saturating at the largest one.
pub open spec fn coord_sum(a: int, b: int) -> int {
    if a + b > 0xFFFF { 0xFFFF } else { a + b }
}

/// The look of a message-like line at the left edge `x`; `None` for the
/// lines drawn otherwise (tool results, separators, prompts, questions).
pub open spec fn message_look(line: LineView, x: int) -> Option<MessageLook> {
    let bold = Style { bold: true, ..plain_style() };
    let dim = Style { dim: true, ..plain_style() };
    match line {
        LineView::User(t) => Some(MessageLook {
            prefix: "  You: "@, prefix_fg: Color::Ansi(2), prefix_style: bold, indent: coord_sum(x, 7),
            body: t, body_fg: Color::Ansi(2), body_style: plain_style(), has_body: true,
        }),
        LineView::Assistant(t) => Some(MessageLook {
            prefix: "  AI:  "@, prefix_fg: Color::Ansi(6), prefix_style: bold, indent: coord_sum(x, 7),
            body: t, body_fg: Color::Ansi(7), body_style: plain_style(), has_body: true,
        }),
        LineView::ToolCall(name, args) => {
            let header = "  ── "@ + name;
            Some(MessageLook {
                prefix: header, prefix_fg: Color::Ansi(14), prefix_style: plain_style(),
                indent: coord_sum(x, str_width(header) as int), body: args, body_fg: Color::Ansi(96), body_style: dim,
                has_body: args.len() > 0,
            })
        },
        LineView::System(t) => Some(MessageLook {
            prefix: "  "@, prefix_fg: Color::Default, prefix_style: plain_style(), indent: coord_sum(x, 2),
            body: t, body_fg: Color::Ansi(3), body_style: plain_style(), has_body: true,
        }),
        LineView::Thinking(t) => Some(MessageLook {
            prefix: "  [thinking] "@, prefix_fg: Color::Ansi(97), prefix_style: dim, indent: coord_sum(x, 13),
            body: if t.len() == 0 { "⋯"@ } else { t }, body_fg: Color::Ansi(97), body_style: dim, has_body: true,
        }),
        _ => None,
    }
}

/// The screen after drawing a message from `start_row`: when its top is in
/// view, the prefix at column `x` and the body wrapped from `indent` up to
/// column `wrap_col` and down to row `max_clip`; when its first `skip_top`
/// visual rows are scrolled away, only the rest of the body.
pub open spec fn message_drawn(
    v: ScreenView,
    x: int,
    start_row: int,
    max_clip: int,
    wrap_col: int,
    skip_top: int,
    look: MessageLook,
) -> ScreenView {
    if skip_top == 0 && start_row <= max_clip {
        let v1 = write_run(v, start_row, x, x, look.prefix, look.prefix_fg, Color::Default, look.prefix_style);
        if look.has_body {
            wrap_run(
                clip_wrap_spec(look.indent, max_clip, wrap_col, 0), look.indent, wrap_start(v1, start_row, look.indent),
                look.body, look.body_fg, Color::Default, look.body_style,
            ).v
        } else {
            v1
        }
    } else if skip_top > 0 && look.has_body {
        wrap_run(
            clip_wrap_spec(look.indent, max_clip, wrap_col, skip_top), look.indent, wrap_start(v, start_row, look.indent),
            look.body, look.body_fg, Color::Default, look.body_style,
        ).v
    } else {
        v
    }
}

/// The screen after a separator at `start_row`: a gray `─` rule from two
/// columns in to four columns before the right edge, drawn only when the
/// row is not scrolled away.
pub open spec fn separator_drawn(v: ScreenView, area: Rect, start_row: int, skip_top: int) -> ScreenView {
    if skip_top == 0 {
        let x = area.x as int;
        let from = coord_sum(x, 2);
        let to = coord_sum(x, if area.width >= 4 { area.width - 4 } else { 0 });
        fill_box(v, start_row, start_row + 1, from, to + 1, Cell { char: '─', fg: Color::Ansi(240), bg: Color::Default, style: plain_style(), wide: false })
    } else {
        v
    }
}

/// The cells of `row` from column `c` up to `end` cleared to blanks on the
/// background `bg`, keeping their color and style.
pub open spec fn cleared_from(v: ScreenView, row: int, c: int, end: int, bg: Color) -> ScreenView
    decreases end - c,
{
    if c >= end {
        v
    } else {
        let v1 = if in_bounds(v, row, c) { put(v, row, c, Cell { bg, char: ' ', wide: false, ..cell_at(v, row, c) }) } else { v };
        cleared_from(v1, row, c + 1, end, bg)
    }
}

/// Column `col` from row `r` up to `end` drawn with `ch` in `fg` (and on
/// `bg`, when given), the cells keeping their style.
pub open spec fn column_marked(v: ScreenView, col: int, r: int, end: int, ch: char, fg: Color, bg: Option<Color>) -> ScreenView
    decreases end - r,
{
    if r >= end {
        v
    } else {
        let v1 = if in_bounds(v, r, col) {
            let c = cell_at(v, r, col);
            put(v, r, col, Cell {
                char: ch,
                wide: false,
                fg,
                bg: match bg {
                    Some(b) => b,
                    None => c.bg,
                },
                ..c
            })
        } else {
            v
        };
        column_marked(v1, col, r + 1, end, ch, fg, bg)
    }
}

/// The rows of the scrollbar thumb for `total` rows of content shown in `h`
/// rows: `h * h / total`, at least one.
pub open spec fn thumb_rows(h: int, total: int) -> int {
    let raw = h * h / total;
    if raw >= 1 { raw } else { 1 }
}

/// The first row of the thumb (from the top of the bar) at scroll offset
/// `scroll`: the offset scaled from `0..=total - h` to the rows the thumb
/// can move over.
pub open spec fn thumb_start(h: int, total: int, scroll: int) -> int {
    let room = h - thumb_rows(h, total);
    let p = scroll * room / (total - h);
    if p > room { room } else { p }
}

/// The scrollbar in the right column of `area`, drawn only when the content
/// is taller than the area: a gray `│` track, then the `█` thumb (see
/// [`thumb_rows`] and [`thumb_start`]).
pub open spec fn scrollbar_drawn(v: ScreenView, scroll: int, area: Rect, total: int) -> ScreenView {
    let h = area.height as int;
    if total <= h || h == 0 {
        v
    } else {
        let x = area.x + area.width - 1;
        let v1 = column_marked(v, x, area.y as int, area.y + h, '│', Color::Ansi(244), Some(Color::Default));
        let t0 = area.y + thumb_start(h, total, scroll);
        column_marked(v1, x, t0, t0 + thumb_rows(h, total), '█', Color::Ansi(244), None)
    }
}

/// The column a line's text starts at when searched for matches.
pub open spec fn search_prefix(line: ConversationLine) -> int {
    match line {
        ConversationLine::User { .. } => 7,
        ConversationLine::Assistant { .. } => 7,
        ConversationLine::System { .. } => 2,
        ConversationLine::Thinking { .. } => 13,
        _ => 4,
    }
}

/// The columns a character advances a highlight or a match's place: its
/// rendering width, at least one.
pub open spec fn step_width(c: char) -> int {
    if render_width(c) == 0 { 1 } else { render_width(c) as int }
}

/// The row offset and column where position `plen` of a text lands, counted
/// from character `k` at `(row, col)`: each character advances its width,
/// and one passing column `wrap` moves to the next row after `prefix`.
pub open spec fn match_place(tcs: Seq<char>, k: int, plen: int, row: int, col: int, prefix: int, wrap: int) -> (int, int)
    decreases plen - k,
{
    if k >= plen || k < 0 {
        (row, col)
    } else {
        let w = step_width(tcs[k]);
        let c1 = sat_add(col, w);
        if c1 > wrap {
            match_place(tcs, k + 1, plen, sat_add(row, 1), prefix + w, prefix, wrap)
        } else {
            match_place(tcs, k + 1, plen, row, c1, prefix, wrap)
        }
    }
}

/// The cells of `row` from `col` on recolored, one per character of `q`
/// from `k` on (each advancing its width), until column `last_col`.
pub open spec fn highlighted(v: ScreenView, row: int, col: int, q: Seq<char>, k: int, last_col: int, fg: Color, bg: Color) -> ScreenView
    decreases q.len() - k,
{
    if k >= q.len() || k < 0 || col >= last_col {
        v
    } else {
        let v1 = if in_bounds(v, row, col) { put(v, row, col, Cell { fg, bg, ..cell_at(v, row, col) }) } else { v };
        highlighted(v1, row, coord_sum(col, step_width(q[k])), q, k + 1, last_col, fg, bg)
    }
}

/// What the highlighting of one line's matches works with.
pub struct MatchCtx {
    /// The line's search text, and that text lowercased.
    pub text: Seq<char>,
    pub lower: Seq<char>,
    /// The query lowercased, and as typed.
    pub query_lower: Seq<char>,
    pub query: Seq<char>,
    pub prefix: int,
    pub wrap: int,
    pub visual_row: int,
    pub screen_row: int,
    pub skip_top: int,
    pub visible_start: int,
    pub visible_end: int,
    pub x: int,
    pub last_col: int,
    pub match_rows: Seq<usize>,
}

/// The matches of the query in a line's lowercased text from position
/// `start` on, each highlighted where it lands (see [`match_place`]) while
/// in view: the current match (the next of `match_rows`, when it is this
/// line's row) black on orange, the others white on olive. Also gives the
/// count of highlighted matches, from `midx`.
pub open spec fn matches_highlighted(v: ScreenView, c: MatchCtx, start: int, midx: int) -> (ScreenView, int)
    decreases c.lower.len() + 1 - start,
{
    if start > c.lower.len() || start < 0 || c.query_lower.len() == 0 {
        (v, midx)
    } else {
        match first_occurrence(c.lower.subrange(start, c.lower.len() as int), c.query_lower, 0) {
            None => (v, midx),
            Some(pos) => if pos < 0 {
                (v, midx)
            } else {
                let abs = start + pos;
                let next = abs + c.query_lower.len();
                let plen = if abs <= c.text.len() { abs } else { c.text.len() as int };
                let (roff, col) = match_place(c.text, 0, plen, 0, c.prefix, c.prefix, c.wrap);
                let avr = sat_add(c.visual_row, roff);
                if avr >= c.visible_end {
                    (v, midx)
                } else if avr < c.visible_start || (c.skip_top > 0 && roff < c.skip_top) {
                    if next > c.lower.len() { (v, midx) } else { matches_highlighted(v, c, next, midx) }
                } else {
                    let cur = 0 <= midx < c.match_rows.len() && c.match_rows[midx] == c.visual_row;
                    let fg = if cur { Color::Ansi(0) } else { Color::Ansi(7) };
                    let bg = if cur { Color::Ansi(208) } else { Color::Ansi(58) };
                    let v1 = highlighted(v, coord_sum(c.screen_row, roff), coord_sum(c.x, col), c.query, 0, c.last_col, fg, bg);
                    if next > c.lower.len() { (v1, sat_add(midx, 1)) } else { matches_highlighted(v1, c, next, sat_add(midx, 1)) }
                }
            },
        }
    }
}

/// The context for highlighting line `line` drawn from `screen_row` at
/// visual row `visual_row`.
pub open spec fn match_ctx(s: ConversationState, line: ConversationLine, area: Rect, content_width: int, visual_row: int, screen_row: int) -> MatchCtx {
    let vs = s.scroll_offset as int;
    let t = search_text(line);
    MatchCtx {
        text: t,
        lower: lowercase(t),
        query_lower: lowercase(s.query),
        query: s.query,
        prefix: search_prefix(line),
        wrap: content_width,
        visual_row,
        screen_row,
        skip_top: if vs > visual_row { vs - visual_row } else { 0 },
        visible_start: vs,
        visible_end: sat_add(vs, area.height as int),
        x: area.x as int,
        last_col: area.x + (if area.width >= 1 { area.width - 1 } else { 0 }),
        match_rows: s.match_rows,
    }
}

/// The matches highlighted in the lines from `li` on, the lines scrolled out
/// of view above skipped and stopping below the area (see [`matches_highlighted`]).
pub open spec fn lines_highlighted(
    v: ScreenView,
    s: ConversationState,
    li: int,
    visual_row: int,
    screen_row: int,
    midx: int,
    area: Rect,
    content_width: int,
) -> ScreenView
    decreases s.lines.len() - li,
{
    if li >= s.lines.len() || li < 0 {
        v
    } else {
        let line = s.lines[li];
        let h = line_rows(line, content_width) as int;
        let vs = s.scroll_offset as int;
        let bottom = area.y + area.height;
        if sat_add(visual_row, h) <= vs {
            lines_highlighted(v, s, li + 1, sat_add(visual_row, h), screen_row, midx, area, content_width)
        } else if visual_row >= sat_add(vs, area.height as int) || bottom - screen_row == 0 {
            v
        } else {
            let c = match_ctx(s, line, area, content_width, visual_row, screen_row);
            let (v1, m1) = if c.text.len() > 0 { matches_highlighted(v, c, 0, midx) } else { (v, midx) };
            let adv = if h > c.skip_top { h - c.skip_top } else { 0 };
            let next = coord_sum(screen_row, adv);
            lines_highlighted(v1, s, li + 1, sat_add(visual_row, h), if next < bottom { next } else { bottom as int }, m1, area,
                content_width)
        }
    }
}

/// The search matches highlighted in the lines in view, when there is a query.
pub open spec fn highlight_drawn(v: ScreenView, s: ConversationState, area: Rect, content_width: int) -> ScreenView {
    if s.query.len() == 0 || lowercase(s.query).len() == 0 {
        v
    } else {
        lines_highlighted(v, s, 0, 0, area.y as int, 0, area, content_width)
    }
}

/// `w` has the size of `v` and the character of every cell of `v`: drawing
/// that led from `v` to `w` changed colors or styles only.
pub open spec fn same_chars(v: ScreenView, w: ScreenView) -> bool {
    &&& w.width == v.width
    &&& w.height == v.height
    &&& forall|r: int, k: int| #![trigger cell_at(w, r, k)] in_bounds(v, r, k) ==> cell_at(w, r, k).char == cell_at(v, r, k).char
}

proof fn lemma_highlighted_chars(v: ScreenView, row: int, col: int, q: Seq<char>, k: int, last_col: int, fg: Color, bg: Color)
    requires
        wf_view(v),
    ensures
        wf_view(highlighted(v, row, col, q, k, last_col, fg, bg)),
        same_chars(v, highlighted(v, row, col, q, k, last_col, fg, bg)),
    decreases q.len() - k,
{
    if !(k >= q.len() || k < 0 || col >= last_col) {
        let v1 = if in_bounds(v, row, col) { put(v, row, col, Cell { fg, bg, ..cell_at(v, row, col) }) } else { v };
        lemma_put_pointwise(v, row, col, Cell { fg, bg, ..cell_at(v, row, col) });
        lemma_highlighted_chars(v1, row, coord_sum(col, step_width(q[k])), q, k + 1, last_col, fg, bg);
        let w = highlighted(v, row, col, q, k, last_col, fg, bg);
        assert forall|r: int, j: int| #![trigger cell_at(w, r, j)] in_bounds(v, r, j) implies cell_at(w, r, j).char == cell_at(v, r, j).char by {
            assert(in_bounds(v1, r, j));
            assert(cell_at(v1, r, j).char == cell_at(v, r, j).char);
        }
    }
}

proof fn lemma_matches_chars(v: ScreenView, c: MatchCtx, start: int, midx: int)
    requires
        wf_view(v),
    ensures
        wf_view(matches_highlighted(v, c, start, midx).0),
        same_chars(v, matches_highlighted(v, c, start, midx).0),
    decreases c.lower.len() + 1 - start,
{
    if !(start > c.lower.len() || start < 0 || c.query_lower.len() == 0) {
        match first_occurrence(c.lower.subrange(start, c.lower.len() as int), c.query_lower, 0) {
            None => {},
            Some(pos) => if pos >= 0 {
                let abs = start + pos;
                let next = abs + c.query_lower.len();
                let plen = if abs <= c.text.len() { abs } else { c.text.len() as int };
                let (roff, col) = match_place(c.text, 0, plen, 0, c.prefix, c.prefix, c.wrap);
                let avr = sat_add(c.visual_row, roff);
                if avr >= c.visible_end {
                } else if avr < c.visible_start || (c.skip_top > 0 && roff < c.skip_top) {
                    if next <= c.lower.len() {
                        lemma_matches_chars(v, c, next, midx);
                    }
                } else {
                    let cur = 0 <= midx < c.match_rows.len() && c.match_rows[midx] == c.visual_row;
                    let fg = if cur { Color::Ansi(0) } else { Color::Ansi(7) };
                    let bg = if cur { Color::Ansi(208) } else { Color::Ansi(58) };
                    let v1 = highlighted(v, coord_sum(c.screen_row, roff), coord_sum(c.x, col), c.query, 0, c.last_col, fg, bg);
                    lemma_highlighted_chars(v, coord_sum(c.screen_row, roff), coord_sum(c.x, col), c.query, 0, c.last_col, fg, bg);
                    if next <= c.lower.len() {
                        lemma_matches_chars(v1, c, next, sat_add(midx, 1));
                        let w = matches_highlighted(v, c, start, midx).0;
                        assert forall|r: int, j: int| #![trigger cell_at(w, r, j)] in_bounds(v, r, j) implies cell_at(w, r, j).char == cell_at(v, r, j).char by {
                            assert(in_bounds(v1, r, j));
                            assert(cell_at(v1, r, j).char == cell_at(v, r, j).char);
                        }
                    }
                }
            },
        }
    }
}

proof fn lemma_lines_highlighted_chars(v: ScreenView, s: ConversationState, li: int, visual_row: int, screen_row: int, midx: int, area: Rect, cw: int)
    requires
        wf_view(v),
    ensures
        same_chars(v, lines_highlighted(v, s, li, visual_row, screen_row, midx, area, cw)),
    decreases s.lines.len() - li,
{
    if !(li >= s.lines.len() || li < 0) {
        let line = s.lines[li];
        let h = line_rows(line, cw) as int;
        let vs = s.scroll_offset as int;
        let bottom = area.y + area.height;
        if sat_add(visual_row, h) <= vs {
            lemma_lines_highlighted_chars(v, s, li + 1, sat_add(visual_row, h), screen_row, midx, area, cw);
        } else if visual_row >= sat_add(vs, area.height as int) || bottom - screen_row == 0 {
        } else {
            let c = match_ctx(s, line, area, cw, visual_row, screen_row);
            let (v1, m1) = if c.text.len() > 0 { matches_highlighted(v, c, 0, midx) } else { (v, midx) };
            if c.text.len() > 0 {
                lemma_matches_chars(v, c, 0, midx);
            }
            let adv = if h > c.skip_top { h - c.skip_top } else { 0 };
            let next = coord_sum(screen_row, adv);
            let row = if next < bottom { next } else { bottom as int };
            lemma_lines_highlighted_chars(v1, s, li + 1, sat_add(visual_row, h), row, m1, area, cw);
            let w = lines_highlighted(v, s, li, visual_row, screen_row, midx, area, cw);
            assert forall|r: int, j: int| #![trigger cell_at(w, r, j)] in_bounds(v, r, j) implies cell_at(w, r, j).char == cell_at(v, r, j).char by {
                assert(in_bounds(v1, r, j));
                assert(cell_at(v1, r, j).char == cell_at(v, r, j).char);
            }
        }
    }
}

/// The search cursor at `(row, col)` underlined (a blank under it shown
/// white), when it lies before `end` on the screen.
pub open spec fn search_cursor_marked(v: ScreenView, row: int, col: int, end: int) -> ScreenView {
    if col < end && in_bounds(v, row, col) {
        let c = cell_at(v, row, col);
        put(v, row, col, Cell {
            style: Style { underline: true, ..c.style },
            fg: if c.char == ' ' { Color::Ansi(7) } else { c.fg },
            ..c
        })
    } else {
        v
    }
}

/// The match count of the search bar: `" i/n "` with the current match and
/// the number of matches, `" No matches "` for a query that matches nothing,
/// nothing for an empty query.
pub open spec fn match_count_text(s: ConversationState) -> Seq<char> {
    if s.match_rows.len() > 0 {
        seq![' '] + decimal(s.current_match + 1) + seq!['/'] + decimal(s.match_rows.len()) + seq![' ']
    } else if s.query.len() > 0 {
        " No matches "@
    } else {
        Seq::empty()
    }
}

/// The search bar on `row`: the row cleared to the status bar background, a
/// bold yellow ` Search: ` label, the query after it (cut to leave room for
/// the count), the cursor marked (see [`search_cursor_marked`]), and the
/// match count (see [`match_count_text`]) dim at the right edge.
pub open spec fn search_bar_drawn(v: ScreenView, s: ConversationState, row: int, area: Rect) -> ScreenView {
    let bg = Color::Ansi(236);
    let x = area.x as int;
    let end = area.x + area.width;
    let v1 = cleared_from(v, row, x, end, bg);
    let v2 = write_run(v1, row, x, x, " Search: "@, Color::Ansi(3), bg, Style { bold: true, ..plain_style() });
    let qcol = coord_sum(x, 9);
    let maxw = if area.width >= 29 { area.width - 29 } else { 0 };
    let q = s.query;
    let shown = if str_width(q) <= maxw { q } else { q.take(width_prefix_len(q, maxw as int) as int) };
    let v3 = write_run(v2, row, qcol, qcol, shown, Color::Ansi(7), bg, plain_style());
    let offset = str_width(q.subrange(0, s.cursor as int)) as int;
    let v4 = search_cursor_marked(v3, row, coord_sum(qcol, if offset > maxw { maxw } else { offset }), end);
    let count = match_count_text(s);
    let clen = encode_utf8(count).len() as int;
    if clen > 0 {
        let back = if clen > 0xFFFF { 0xFFFF } else { clen };
        let start = if end >= back { end - back } else { 0 };
        write_run(v4, row, start, start, count, Color::Ansi(244), bg, Style { dim: true, ..plain_style() })
    } else {
        v4
    }
}

/// The text of the context warning banner.
pub open spec fn warning_text(level: ContextWarningLevel) -> Seq<char> {
    match level {
        ContextWarningLevel::Normal => Seq::empty(),
        ContextWarningLevel::Warning(pct) => " ⚠ Context "@ + decimal(pct as nat) + "% full — consider /compact to free space "@,
        ContextWarningLevel::Critical(pct) => " ⚠ Context "@ + decimal(pct as nat) + "% — exceeded! Use /compact now "@,
    }
}

/// The colors of the context warning banner: yellow on dark blue for a
/// warning, white on dark red when critical.
pub open spec fn warning_colors(level: ContextWarningLevel) -> (Color, Color) {
    match level {
        ContextWarningLevel::Critical(_) => (Color::Ansi(7), Color::Ansi(52)),
        _ => (Color::Ansi(3), Color::Ansi(17)),
    }
}

/// The context warning banner on the top row of `area`: nothing for the
/// normal level, else the row cleared to the banner's background and the
/// text in bold, cut to the area's width.
pub open spec fn warning_drawn(v: ScreenView, level: ContextWarningLevel, area: Rect) -> ScreenView {
    match level {
        ContextWarningLevel::Normal => v,
        _ => {
            let (fg, bg) = warning_colors(level);
            let v1 = cleared_from(v, area.y as int, area.x as int, area.x + area.width, bg);
            let t = warning_text(level);
            let shown = if str_width(t) <= area.width { t } else { t.take(width_prefix_len(t, area.width as int) as int) };
            write_run(v1, area.y as int, area.x as int, area.x as int, shown, fg, bg, Style { bold: true, ..plain_style() })
        },
    }
}

/// A conversation line drawn from `start_row` in the content area `area`,
/// its first `skip_top` visual rows scrolled away and `rows_available` rows
/// left: a message (see [`message_look`]), a tool result, a separator, a
/// confirmation prompt or a question.
pub open spec fn line_drawn(v: ScreenView, line: LineView, start_row: int, area: Rect, skip_top: int, rows_available: int) -> ScreenView {
    let max_clip = area.y + area.height - 1;
    let wrap_col = area.x + area.width - 1;
    match line {
        LineView::ToolResult(_, content, is_error) => tool_result_drawn(v, content, is_error, start_row, area, skip_top, max_clip),
        LineView::Separator => separator_drawn(v, area, start_row, skip_top),
        LineView::ConfirmPrompt(name, args, diff) => confirm_drawn(v, name, args, diff, start_row, area, skip_top, rows_available,
            max_clip, wrap_col),
        LineView::Question(question, answers) => answers_from(
            question_top(v, question, start_row, area, skip_top, rows_available, max_clip, max_clip, wrap_col),
            answers, 0, area, max_clip, wrap_col, if answers.len() >= 10 { 7 } else { 6 },
        ),
        _ => match message_look(line, area.x as int) {
            Some(look) => message_drawn(v, area.x as int, start_row, max_clip, wrap_col, skip_top, look),
            None => v,
        },
    }
}

/// The lines from `i` on drawn in the content area from `screen_row`, at
/// visual row `visual_row`, the first `skip` visual rows scrolled away, until
/// the area is full.
pub open spec fn lines_drawn(
    v: ScreenView,
    lines: Seq<ConversationLine>,
    i: int,
    visual_row: int,
    screen_row: int,
    skip: int,
    area: Rect,
) -> ScreenView
    decreases lines.len() - i,
{
    if i >= lines.len() || i < 0 {
        v
    } else {
        let h = line_rows(lines[i], area.width - 1) as int;
        let bottom = area.y + area.height;
        if sat_add(visual_row, h) <= skip {
            lines_drawn(v, lines, i + 1, sat_add(visual_row, h), screen_row, skip, area)
        } else if bottom - screen_row == 0 {
            v
        } else {
            let skip_top = if skip > visual_row { skip - visual_row } else { 0 };
            let v1 = line_drawn(v, lines[i]@, screen_row, area, skip_top, bottom - screen_row);
            let adv = if h > skip_top { h - skip_top } else { 0 };
            let next = coord_sum(screen_row, adv);
            let row = if next < bottom { next } else { bottom as int };
            if row >= bottom { v1 } else { lines_drawn(v1, lines, i + 1, sat_add(visual_row, h), row, skip, area) }
        }
    }
}

/// The pane drawn into `area`: the area blanked, the context warning banner
/// on its top row, the search bar on its bottom row while searching, the
/// lines in the rows between from the scroll offset (see [`drawn_state`]),
/// the scrollbar in their right column, and the search matches highlighted.
pub open spec fn conversation_drawn(v: ScreenView, s: ConversationState, area: Rect) -> ScreenView {
    if area.width == 0 || area.height == 0 {
        v
    } else {
        let v1 = fill_box(v, area.y as int, area.y + area.height, area.x as int, area.x + area.width, blank_cell());
        let banner = if s.warning is Normal { 0int } else { 1int };
        let bar = if s.search_active { 1int } else { 0int };
        let v2 = if banner > 0 { warning_drawn(v1, s.warning, area) } else { v1 };
        let v3 = if s.search_active { search_bar_drawn(v2, s, area.y + area.height - 1, area) } else { v2 };
        let reserved = banner + bar;
        let rows = if area.height >= reserved { area.height - reserved } else { 0 };
        let content = Rect { x: area.x, y: (area.y + banner) as u16, width: area.width, height: rows as u16 };
        let t = drawn_state(s, area);
        let v4 = lines_drawn(v3, s.lines, 0, 0, content.y as int, t.scroll_offset as int, content);
        let v5 = scrollbar_drawn(v4, t.scroll_offset as int, content, total_rows(s.lines, area.width - 1) as int);
        if s.search_active && s.query.len() > 0 { highlight_drawn(v5, t, content, area.width - 1) } else { v5 }
    }
}

/// A prefixed message: the prefix at the left edge, then `body` wrapped from
/// column `indent` down to row `max_clip` at most; when `skip_top` rows are
/// scrolled away only the rest of the body is drawn.
fn draw_message(
    screen: &mut Screen,
    area: Rect,
    start_row: u16,
    max_clip: u16,
    wrap_col: u16,
    skip_top: usize,
    prefix: &str,
    prefix_fg: Color,
    prefix_style: Style,
    indent: u16,
    body: &str,
    body_fg: Color,
    body_style: Style,
    has_body: bool,
)
    requires
        old(screen).wf(),
        start_row <= max_clip < u16::MAX,
    ensures
        final(screen).wf(),
        final(screen)@.width == old(screen)@.width,
        final(screen)@.height == old(screen)@.height,
        same_outside_rows(old(screen)@, final(screen)@, start_row as int, max_clip + 1),
        final(screen)@ == message_drawn(
            old(screen)@, area.x as int, start_row as int, max_clip as int, wrap_col as int, skip_top as int,
            MessageLook {
                prefix: prefix@, prefix_fg, prefix_style, indent: indent as int, body: body@, body_fg, body_style,
                has_body,
            },
        ),
{
    let ghost top = start_row as int;
    let ghost bottom = max_clip + 1;
    proof {
        lemma_same_rows_refl(screen@, top, bottom);
    }
    if skip_top == 0 && start_row <= max_clip {
        screen.write_str(start_row, area.x, prefix, prefix_fg, Color::Default, prefix_style);
        proof {
            lemma_same_rows_step(old(screen)@, old(screen)@, screen@, top, top + 1, top, bottom);
        }
        if has_body {
            let ghost before = screen@;
            screen.write_str_wrapped_clipped(
                start_row, indent, body, body_fg, Color::Default, body_style, indent, max_clip, wrap_col,
            );
            proof {
                lemma_same_rows_step(old(screen)@, before, screen@, top, bottom, top, bottom);
            }
        }
    } else if skip_top > 0 && has_body {
        screen.write_str_wrapped_skip_clipped(
            start_row, indent, body, body_fg, Color::Default, body_style, indent, max_clip, wrap_col, skip_top,
        );
    }
}

/// The colors of a line of diff-like output: hunk headers (`@@`) cyan, file
/// headers (`---`, `+++`) white, removals red on dark red, additions green on
/// dark green, other lines in the given colors.
pub open spec fn diff_look(cs: Seq<char>, other_fg: Color, other_bg: Color) -> (Color, Color) {
    let n = cs.len();
    if n >= 2 && cs[0] == '@' && cs[1] == '@' {
        (Color::Ansi(6), Color::Default)
    } else if n >= 3 && ((cs[0] == '-' && cs[1] == '-' && cs[2] == '-') || (cs[0] == '+' && cs[1] == '+' && cs[2] == '+')) {
        (Color::Ansi(7), Color::Default)
    } else if n >= 1 && cs[0] == '-' {
        (Color::Ansi(1), Color::Ansi(52))
    } else if n >= 1 && cs[0] == '+' {
        (Color::Ansi(2), Color::Ansi(22))
    } else {
        (other_fg, other_bg)
    }
}

/// One output line behind a `  │ ` gutter, cut past `max_width` columns to
/// a prefix at most `max_width - 1` wide followed by `…`.
pub open spec fn gutter_text(line: Seq<char>, max_width: int) -> Seq<char> {
    "  │ "@ + (if line.len() == 0 {
        Seq::empty()
    } else if str_width(line) > max_width {
        line.take(width_prefix_len(line, if max_width > 0 { max_width - 1 } else { 0 }) as int) + seq!['…']
    } else {
        line
    })
}

/// A gutter line written at `(row, area.x)` and, when `fill` holds, the rest
/// of the row up to the scrollbar column given the background `fill_bg`.
pub open spec fn gutter_row_drawn(
    v: ScreenView,
    row: int,
    area: Rect,
    display: Seq<char>,
    fg: Color,
    bg: Color,
    fill: bool,
    fill_bg: Color,
) -> ScreenView {
    let v1 = write_run(v, row, area.x as int, area.x as int, display, fg, bg, plain_style());
    let fill_end = area.x + area.width - 1;
    let dw = str_width(display) as int;
    let used = if dw < area.width - 1 { dw } else { area.width - 1 };
    let end_col = area.x + used;
    if fill && end_col < fill_end {
        recolored_from(v1, row, end_col, fill_end, fill_bg)
    } else {
        v1
    }
}

/// The output lines of a tool result from line `i` (of the first `visible`)
/// on, drawn from `row` down to `max_clip` behind a gutter, the first `skip`
/// lines scrolled away: red on dark red for an error (the whole row), else
/// light gray with diff lines colored (see [`diff_look`]) and filled when
/// their background is colored. Also gives the row after the last one drawn.
pub open spec fn result_rows_from(
    v: ScreenView,
    lines: Seq<Seq<char>>,
    i: int,
    visible: int,
    row: int,
    skip: int,
    max_clip: int,
    area: Rect,
    is_error: bool,
) -> (ScreenView, int)
    decreases visible - i,
{
    if i >= visible || i < 0 {
        (v, row)
    } else if i < skip {
        result_rows_from(v, lines, i + 1, visible, row, skip, max_clip, area, is_error)
    } else if row > max_clip {
        (v, row)
    } else {
        let default_color = if is_error { Color::Ansi(1) } else { Color::Ansi(252) };
        let bg = if is_error { Color::Ansi(52) } else { Color::Default };
        let (fg, lbg) = if !is_error { diff_look(lines[i], default_color, bg) } else { (default_color, bg) };
        let fill = lbg != Color::Default || is_error;
        let fill_bg = if lbg != Color::Default { lbg } else { bg };
        let max_width = if area.width >= 5 { area.width - 5 } else { 0 };
        let v1 = gutter_row_drawn(v, row, area, gutter_text(lines[i], max_width), fg, lbg, fill, fill_bg);
        result_rows_from(v1, lines, i + 1, visible, row + 1, skip, max_clip, area, is_error)
    }
}

/// A tool result drawn from `start_row` (see [`result_rows_from`]) over
/// its lines without trailing newlines, at most 20 of them; when it has more
/// and a row is left, a dim `  │ …` mark follows (the rest of its row on
/// dark red for an error).
pub open spec fn tool_result_drawn(
    v: ScreenView,
    content: Seq<char>,
    is_error: bool,
    start_row: int,
    area: Rect,
    skip_top: int,
    max_clip: int,
) -> ScreenView {
    let lines = text_lines(trim_newlines(content));
    let visible = if lines.len() > TOOL_RESULT_MAX_LINES { TOOL_RESULT_MAX_LINES as int } else { lines.len() as int };
    let (v1, row) = result_rows_from(v, lines, 0, visible, start_row, skip_top, max_clip, area, is_error);
    if lines.len() > TOOL_RESULT_MAX_LINES && skip_top <= TOOL_RESULT_MAX_LINES && row <= max_clip {
        let bg = if is_error { Color::Ansi(52) } else { Color::Default };
        let v2 = write_run(v1, row, area.x as int, area.x as int, "  │ …"@, Color::Ansi(244), bg, Style { dim: true, ..plain_style() });
        if is_error { recolored_from(v2, row, coord_sum(area.x as int, encode_utf8("  │ …"@).len() as int), area.x + area.width - 1, bg) } else { v2 }
    } else {
        v1
    }
}

/// The column reached on the last row of wrapped text, counted from `col`:
/// each character adds its rendering width, a character that does not fit
/// before `wrap` starts a new row at `pw` (zero-width characters add nothing).
pub open spec fn last_line_col(cs: Seq<char>, k: int, col: int, pw: int, wrap: int) -> int
    decreases cs.len() - k,
{
    if k >= cs.len() || k < 0 {
        col
    } else {
        let w = render_width(cs[k]) as int;
        let c1 = if w == 0 { col } else if col > wrap || wrap - col < w { sat_add(pw, w) } else { col + w };
        last_line_col(cs, k + 1, c1, pw, wrap)
    }
}

/// The prompt of a confirmation: a bold yellow `  ⚠ Confirm ` then the tool
/// name and arguments wrapped after it, and ` [y/n/a]?` after them on their
/// last row when it fits before `wrap_col`, else on the next row. Also gives
/// the row after the prompt and the rows left of `remaining`.
pub open spec fn confirm_header(
    v: ScreenView,
    name: Seq<char>,
    args: Seq<char>,
    start_row: int,
    area: Rect,
    remaining: int,
    max_clip: int,
    wrap_col: int,
) -> (ScreenView, int, int) {
    let x = area.x as int;
    let prefix = "  ⚠ Confirm "@;
    let pw = str_width(prefix) as int;
    let indent = coord_sum(x, pw);
    let text = name + seq![' '] + args;
    let bold = Style { bold: true, ..plain_style() };
    let v1 = write_run(v, start_row, x, x, prefix, Color::Ansi(3), Color::Default, bold);
    let w = wrap_run(clip_wrap_spec(indent, max_clip, wrap_col, 0), indent, wrap_start(v1, start_row, indent), text, Color::Ansi(3), Color::Default, bold);
    let last_row = w.screen_row;
    let tw = if text.len() == 0 { 0 } else { let c = last_line_col(text, 0, pw, pw, wrap_col); if c > pw { c - pw } else { 0 } };
    let suffix = " [y/n/a]?"@;
    let end_col = coord_sum(indent, tw);
    let fits = sat_add(end_col, str_width(suffix) as int) <= wrap_col;
    if fits && last_row <= max_clip {
        let used = last_row - start_row + 1;
        (write_run(w.v, last_row, end_col, end_col, suffix, Color::Ansi(3), Color::Default, plain_style()), last_row + 1,
            if remaining > used { remaining - used } else { 0 })
    } else if last_row < max_clip && remaining > 1 {
        let used = last_row - start_row + 2;
        (write_run(w.v, last_row + 1, x, x, suffix, Color::Ansi(3), Color::Default, plain_style()), last_row + 2,
            if remaining > used { remaining - used } else { 0 })
    } else {
        let used = last_row - start_row + 1;
        (w.v, coord_sum(last_row, 1), if remaining > used { remaining - used } else { 0 })
    }
}

/// The lines of a diff preview from line `i` on, each behind a gutter on its
/// row from `row`, while rows remain (`remaining` of them, down to
/// `max_clip`), colored by [`diff_look`] and filled when their background is.
pub open spec fn diff_rows_from(
    v: ScreenView,
    lines: Seq<Seq<char>>,
    i: int,
    row: int,
    remaining: int,
    max_clip: int,
    area: Rect,
) -> ScreenView
    decreases lines.len() - i,
{
    if i >= lines.len() || i < 0 || remaining <= 0 || row > max_clip {
        v
    } else {
        let (fg, bg) = diff_look(lines[i], Color::Ansi(252), Color::Default);
        let max_width = if area.width >= 5 { area.width - 5 } else { 0 };
        let v1 = gutter_row_drawn(v, row, area, gutter_text(lines[i], max_width), fg, bg, bg != Color::Default, bg);
        diff_rows_from(v1, lines, i + 1, row + 1, remaining - 1, max_clip, area)
    }
}

/// A confirmation prompt drawn from `start_row`: the prompt (see
/// [`confirm_header`]) when its top is in view, then the lines of the diff
/// preview, if any (see [`diff_rows_from`]).
pub open spec fn confirm_drawn(
    v: ScreenView,
    name: Seq<char>,
    args: Seq<char>,
    diff: Option<Seq<char>>,
    start_row: int,
    area: Rect,
    skip_top: int,
    rows_available: int,
    max_clip: int,
    wrap_col: int,
) -> ScreenView {
    let (v1, row, remaining) = if skip_top == 0 && rows_available > 0 {
        confirm_header(v, name, args, start_row, area, rows_available, max_clip, wrap_col)
    } else {
        (v, start_row, rows_available)
    };
    match diff {
        Some(d) => if d.len() > 0 { diff_rows_from(v1, text_lines(d), 0, row, remaining, max_clip, area) } else { v1 },
        None => v1,
    }
}

/// The part of a question drawn before its answers: when its top is in
/// view, a bold yellow `  ❓ ` and the question wrapped after it; when
/// `skip` rows are scrolled away, the question's rows past them, or nothing
/// when all of them are. Gives the screen, the next row, the rows left and
/// the rows still to skip.
pub open spec fn question_top(
    v: ScreenView,
    question: Seq<char>,
    start_row: int,
    area: Rect,
    skip: int,
    remaining: int,
    max_row: int,
    max_clip: int,
    wrap_col: int,
) -> (ScreenView, int, int, int) {
    let x = area.x as int;
    let prefix = "  ❓ "@;
    let qw = str_width(prefix) as int;
    let indent = coord_sum(x, qw);
    let bold = Style { bold: true, ..plain_style() };
    if skip == 0 && start_row <= max_row && remaining > 0 {
        let v1 = write_run(v, start_row, x, x, prefix, Color::Ansi(3), Color::Default, bold);
        let w = wrap_run(clip_wrap_spec(indent, max_clip, wrap_col, 0), indent, wrap_start(v1, start_row, indent), question, Color::Ansi(3), Color::Default, plain_style());
        let used = w.screen_row - start_row + 1;
        (w.v, coord_sum(w.screen_row, 1), if remaining > used { remaining - used } else { 0 }, 0)
    } else if skip > 0 {
        let h = text_rows(question, area.width as int, qw, qw) as int;
        if skip >= h {
            (v, start_row, remaining, skip - h)
        } else if start_row <= max_clip && remaining > 0 {
            let v1 = write_run(v, start_row, x, x, prefix, Color::Ansi(3), Color::Default, bold);
            let v2 = wrap_run(clip_wrap_spec(indent, max_clip, wrap_col, skip), indent, wrap_start(v1, start_row, indent), question, Color::Ansi(3), Color::Default, plain_style()).v;
            let rows = h - skip;
            (v2, coord_sum(start_row, rows), if remaining > rows { remaining - rows } else { 0 }, 0)
        } else {
            (v, start_row, remaining, 0)
        }
    } else {
        (v, start_row, remaining, skip)
    }
}

/// The label of answer `i`: `    {i + 1}. `.
pub open spec fn answer_label(i: int) -> Seq<char> {
    "    "@ + decimal((i + 1) as nat) + seq!['.', ' ']
}

/// The answers from `i` on, each as a bold cyan label and the answer wrapped
/// after it in white, the rows still to skip scrolled away and drawing only
/// while rows remain down to `max_clip`; `apl` is the label width the
/// answers' heights are counted with.
pub open spec fn answers_from(
    st: (ScreenView, int, int, int),
    answers: Seq<Seq<char>>,
    i: int,
    area: Rect,
    max_clip: int,
    wrap_col: int,
    apl: int,
) -> ScreenView
    decreases answers.len() - i,
{
    if i >= answers.len() || i < 0 {
        st.0
    } else {
        let (v, row, remaining, skip) = st;
        let x = area.x as int;
        let label = answer_label(i);
        let indent = coord_sum(x, str_width(label) as int);
        let a = answers[i];
        let h = text_rows(a, area.width as int, apl, apl) as int;
        let bold = Style { bold: true, ..plain_style() };
        let next = if skip > 0 {
            if h <= skip {
                (v, row, remaining, skip - h)
            } else if row <= max_clip && remaining > 0 {
                let v1 = write_run(v, row, x, x, label, Color::Ansi(6), Color::Default, bold);
                let v2 = wrap_run(clip_wrap_spec(indent, max_clip, wrap_col, skip), indent, wrap_start(v1, row, indent), a, Color::Ansi(7), Color::Default, plain_style()).v;
                let rows = h - skip;
                (v2, coord_sum(row, rows), if remaining > rows { remaining - rows } else { 0 }, 0)
            } else {
                (v, row, remaining, 0)
            }
        } else if row <= max_clip && remaining > 0 {
            let v1 = write_run(v, row, x, x, label, Color::Ansi(6), Color::Default, bold);
            let w = wrap_run(clip_wrap_spec(indent, max_clip, wrap_col, 0), indent, wrap_start(v1, row, indent), a, Color::Ansi(7), Color::Default, plain_style());
            (w.v, coord_sum(w.screen_row, 1), if remaining > h { remaining - h } else { 0 }, skip)
        } else {
            (v, row, remaining, skip)
        };
        answers_from(next, answers, i + 1, area, max_clip, wrap_col, apl)
    }
}

/// The colors of a line of diff-like output: hunk headers cyan, file headers
/// white, removals red on dark red, additions green on dark green, other
/// lines in the given colors.
fn diff_colors(cs: &[char], other_fg: Color, other_bg: Color) -> (r: (Color, Color))
    ensures
        r == diff_look(cs@, other_fg, other_bg),
{
    let n = cs.len();
    if n >= 2 && cs[0] == '@' && cs[1] == '@' {
        (Color::cyan(), Color::Default)
    } else if n >= 3 && ((cs[0] == '-' && cs[1] == '-' && cs[2] == '-') || (cs[0] == '+' && cs[1] == '+' && cs[2] == '+')) {
        (Color::white(), Color::Default)
    } else if n >= 1 && cs[0] == '-' {
        (Color::red(), Color::Ansi(52))
    } else if n >= 1 && cs[0] == '+' {
        (Color::green(), Color::Ansi(22))
    } else {
        (other_fg, other_bg)
    }
}

/// One output line behind a `  │ ` gutter, cut with `…` past `max_width`.
fn gutter_line(line: &str, max_width: usize) -> (r: String)
    ensures
        r@ == gutter_text(line@, max_width as int),
{
    let mut s = String::new();
    push_str(&mut s, "  │ ");
    if line.is_empty() {
        proof {
            assert(s@ =~= gutter_text(line@, max_width as int));
        }
        return s;
    }
    if str_display_width(line) > max_width {
        let keep = if max_width > 0 { max_width - 1 } else { 0 };
        push_str(&mut s, truncate_str_width(line, keep));
        string_push(&mut s, '…');
    } else {
        push_str(&mut s, line);
    }
    proof {
        assert(s@ =~= gutter_text(line@, max_width as int));
    }
    s
}

/// Draw a gutter line at `row` and, when `fill` holds, paint the rest of the
/// row (up to the scrollbar column) with `fill_bg`.
fn draw_gutter_row(
    screen: &mut Screen,
    row: u16,
    area: Rect,
    display: &str,
    fg: Color,
    bg: Color,
    fill: bool,
    fill_bg: Color,
)
    requires
        old(screen).wf(),
        area.width >= 1,
        area.x + area.width <= u16::MAX,
    ensures
        final(screen).wf(),
        final(screen)@.width == old(screen)@.width,
        final(screen)@.height == old(screen)@.height,
        same_outside_rows(old(screen)@, final(screen)@, row as int, row + 1),
        final(screen)@ == gutter_row_drawn(old(screen)@, row as int, area, display@, fg, bg, fill, fill_bg),
{
    screen.write_str(row, area.x, display, fg, bg, Style::new());
    if fill {
        let fill_end = area.x + (area.width - 1);
        let dw = str_display_width(display);
        let used: u16 = if dw < (area.width - 1) as usize { dw as u16 } else { area.width - 1 };
        let end_col = area.x + used;
        if end_col < fill_end {
            let ghost before = screen@;
            recolor_span(screen, row, end_col, fill_end, fill_bg);
            proof {
                lemma_same_rows_step(old(screen)@, before, screen@, row as int, row + 1, row as int, row + 1);
            }
        }
    }
}

impl ConversationWidget {
    /// Draw a tool result: up to 20 output lines (the first `skip_top`
    /// scrolled away), diff lines colored, then a `…` mark when cut.
    fn render_tool_result(
        screen: &mut Screen,
        content: &str,
        is_error: bool,
        start_row: u16,
        area: Rect,
        skip_top: usize,
        max_clip: u16,
    )
        requires
            old(screen).wf(),
            area.width >= 1,
            area.x + area.width <= u16::MAX,
            start_row <= max_clip < u16::MAX,
        ensures
            final(screen).wf(),
            final(screen)@.width == old(screen)@.width,
            final(screen)@.height == old(screen)@.height,
            same_outside_rows(old(screen)@, final(screen)@, start_row as int, max_clip + 1),
            final(screen)@ == tool_result_drawn(old(screen)@, content@, is_error, start_row as int, area, skip_top as int, max_clip as int),
    {
        proof {
            lemma_same_rows_refl(screen@, start_row as int, max_clip + 1);
        }
        let default_color = if is_error { Color::red() } else { Color::Ansi(252) };
        let bg = if is_error { Color::Ansi(52) } else { Color::Default };
        let cs = chars_of(content);
        let n = trimmed_len(&cs);
        let trimmed = slice_chars(&cs, 0, n);
        let all_lines = lines_of(&trimmed);
        let ghost ls = text_lines(trim_newlines(content@));
        proof {
            assert(trimmed@ =~= cs@.take(n as int));
            assert(vv(all_lines@) == ls);
            assert(ls.len() == all_lines@.len());
        }
        let total_lines = all_lines.len();
        let visible = if total_lines > TOOL_RESULT_MAX_LINES { TOOL_RESULT_MAX_LINES } else { total_lines };
        let mut current_row = start_row;
        let max_content_width = if area.width >= 5 { (area.width - 5) as usize } else { 0 };
        let ghost v0 = screen@;
        let mut i: usize = 0;
        while i < visible
            invariant
                screen.wf(),
                screen@.width == old(screen)@.width,
                screen@.height == old(screen)@.height,
                visible <= all_lines@.len(),
                vv(all_lines@) == ls,
                start_row <= current_row <= max_clip + 1,
                max_clip < u16::MAX,
                area.width >= 1,
                area.x + area.width <= u16::MAX,
                same_outside_rows(old(screen)@, screen@, start_row as int, max_clip + 1),
                default_color == (if is_error { Color::Ansi(1) } else { Color::Ansi(252) }),
                bg == (if is_error { Color::Ansi(52) } else { Color::Default }),
                max_content_width == (if area.width >= 5 { area.width - 5 } else { 0 }),
                result_rows_from(screen@, ls, i as int, visible as int, current_row as int, skip_top as int, max_clip as int, area, is_error)
                    == result_rows_from(v0, ls, 0, visible as int, start_row as int, skip_top as int, max_clip as int, area, is_error),
            ensures
                start_row <= current_row <= max_clip + 1,
                screen.wf(),
                screen@.width == old(screen)@.width,
                screen@.height == old(screen)@.height,
                same_outside_rows(old(screen)@, screen@, start_row as int, max_clip + 1),
                (screen@, current_row as int)
                    == result_rows_from(v0, ls, 0, visible as int, start_row as int, skip_top as int, max_clip as int, area, is_error),
            decreases visible - i,
        {
            if i >= skip_top {
                if current_row > max_clip {
                    break;
                }
                let line = string_of(&all_lines[i]);
                let lcs = &all_lines[i];
                let (line_color, line_bg) = if !is_error {
                    diff_colors(lcs, default_color, bg)
                } else {
                    (default_color, bg)
                };
                let display = gutter_line(line.as_str(), max_content_width);
                let fill = line_bg != Color::Default || is_error;
                let fill_bg = if line_bg != Color::Default { line_bg } else { bg };
                let ghost before = screen@;
                draw_gutter_row(screen, current_row, area, display.as_str(), line_color, line_bg, fill, fill_bg);
                proof {
                    lemma_same_rows_step(
                        old(screen)@, before, screen@, current_row as int, current_row + 1, start_row as int, max_clip + 1,
                    );
                }
                current_row = current_row + 1;
            }
            i += 1;
        }
        let ghost v1 = screen@;
        if total_lines > TOOL_RESULT_MAX_LINES && skip_top <= TOOL_RESULT_MAX_LINES && current_row <= max_clip {
            let truncation = "  │ …";
            let trunc_bg = if is_error { bg } else { Color::Default };
            let ghost before = screen@;
            screen.write_str(current_row, area.x, truncation, Color::Ansi(244), trunc_bg, Style::dim());
            proof {
                lemma_same_rows_step(
                    old(screen)@, before, screen@, current_row as int, current_row + 1, start_row as int, max_clip + 1,
                );
            }
            if is_error {
                let fill_end = area.x + (area.width - 1);
                let from = coord_add(area.x, truncation.as_bytes().len());
                let ghost before2 = screen@;
                recolor_span(screen, current_row, from, fill_end, bg);
                proof {
                    lemma_same_rows_step(
                        old(screen)@, before2, screen@, current_row as int, current_row + 1, start_row as int, max_clip + 1,
                    );
                }
            }
        }
    }

    /// Draw a confirmation prompt: `⚠ Confirm <name> <args>` wrapped, the
    /// ` [y/n/a]?` suffix after it (or on the next row when it does not fit),
    /// then the lines of the diff preview.
    fn render_confirm_prompt(
        screen: &mut Screen,
        name: &str,
        args_summary: &str,
        diff_preview: &Option<String>,
        start_row: u16,
        area: Rect,
        skip_top: usize,
        rows_available: usize,
        max_clip: u16,
        wrap_col: u16,
    )
        requires
            old(screen).wf(),
            area.width >= 1,
            area.x + area.width <= u16::MAX,
            start_row <= max_clip < u16::MAX,
        ensures
            final(screen).wf(),
            final(screen)@.width == old(screen)@.width,
            final(screen)@.height == old(screen)@.height,
            same_outside_rows(old(screen)@, final(screen)@, start_row as int, max_clip + 1),
            final(screen)@ == confirm_drawn(
                old(screen)@, name@, args_summary@, match diff_preview {
                    Some(d) => Some(d@),
                    None => None,
                }, start_row as int, area, skip_top as int, rows_available as int, max_clip as int, wrap_col as int,
            ),
    {
        proof {
            lemma_same_rows_refl(screen@, start_row as int, max_clip + 1);
        }
        let mut current_row = start_row;
        let mut lines_remaining = rows_available;
        if skip_top == 0 && lines_remaining > 0 {
            let prompt_prefix = "  ⚠ Confirm ";
            let pw = str_display_width(prompt_prefix);
            let indent = coord_add(area.x, pw);
            let mut prompt_text = String::new();
            push_str(&mut prompt_text, name);
            string_push(&mut prompt_text, ' ');
            push_str(&mut prompt_text, args_summary);
            let suffix = " [y/n/a]?";
            let ghost s0 = screen@;
            screen.write_str(current_row, area.x, prompt_prefix, Color::yellow(), Color::Default, Style::bold());
            proof {
                lemma_same_rows_step(old(screen)@, s0, screen@, current_row as int, current_row + 1, start_row as int, max_clip + 1);
            }
            let ghost before = screen@;
            let fg = Color::yellow();
            let st = Style::bold();
            let last_row = screen.write_str_wrapped_clipped(
                current_row, indent, prompt_text.as_str(), fg, Color::Default, st, indent,
                max_clip, wrap_col,
            );
            proof {
                lemma_wrap_run_rows(
                    crate::tui::screen::clip_wrap_spec(indent as int, max_clip as int, wrap_col as int, 0),
                    indent as int,
                    wrap_start(before, current_row as int, indent as int),
                    prompt_text@,
                    fg,
                    Color::Default,
                    st,
                );
                lemma_same_rows_step(old(screen)@, before, screen@, start_row as int, max_clip + 1, start_row as int, max_clip + 1);
            }
            let pcs = chars_of(prompt_text.as_str());
            let text_width_on_last_line: usize = if pcs.len() == 0 {
                0
            } else {
                let mut col: usize = pw;
                let wrap = wrap_col as usize;
                let mut k: usize = 0;
                while k < pcs.len()
                    invariant
                        k <= pcs@.len(),
                        pcs@ == prompt_text@,
                        wrap == wrap_col,
                        last_line_col(pcs@, k as int, col as int, pw as int, wrap as int)
                            == last_line_col(pcs@, 0, pw as int, pw as int, wrap as int),
                    decreases pcs@.len() - k,
                {
                    let w = width_or_one(pcs[k]);
                    if w == 0 {
                    } else if col > wrap || wrap - col < w {
                        col = pw.saturating_add(w);
                    } else {
                        col = col + w;
                    }
                    k += 1;
                }
                col.saturating_sub(pw)
            };
            let suffix_width = str_display_width(suffix);
            let prompt_end_col = coord_add(indent, text_width_on_last_line);
            proof {
                assert(prompt_text@ =~= name@ + seq![' '] + args_summary@);
            }
            let fits = (prompt_end_col as usize).saturating_add(suffix_width) <= wrap_col as usize;
            if fits && last_row <= max_clip {
                let ghost s1 = screen@;
                screen.write_str(last_row, prompt_end_col, suffix, Color::yellow(), Color::Default, Style::new());
                proof {
                    lemma_same_rows_step(old(screen)@, s1, screen@, last_row as int, last_row + 1, start_row as int, max_clip + 1);
                }
                current_row = last_row + 1;
                lines_remaining = lines_remaining.saturating_sub((last_row - start_row + 1) as usize);
            } else if last_row < max_clip && lines_remaining > 1 {
                let ghost s1 = screen@;
                screen.write_str(last_row + 1, area.x, suffix, Color::yellow(), Color::Default, Style::new());
                proof {
                    lemma_same_rows_step(old(screen)@, s1, screen@, last_row + 1, last_row + 2, start_row as int, max_clip + 1);
                }
                current_row = last_row + 2;
                lines_remaining = lines_remaining.saturating_sub((last_row - start_row + 2) as usize);
            } else {
                current_row = coord_add(last_row, 1);
                lines_remaining = lines_remaining.saturating_sub((last_row - start_row) as usize + 1);
            }
        }
        proof {
            assert((screen@, current_row as int, lines_remaining as int) == (if skip_top == 0 && rows_available > 0 {
                confirm_header(old(screen)@, name@, args_summary@, start_row as int, area, rows_available as int, max_clip as int, wrap_col as int)
            } else {
                (old(screen)@, start_row as int, rows_available as int)
            }));
        }
        if let Some(diff) = diff_preview {
            let dcs = chars_of(diff.as_str());
            if dcs.len() > 0 {
                let max_content_width = if area.width >= 5 { (area.width - 5) as usize } else { 0 };
                let dlines = lines_of(&dcs);
                let ghost dl = text_lines(diff@);
                let ghost v1 = screen@;
                let ghost r1 = current_row as int;
                let ghost n1 = lines_remaining as int;
                proof {
                    assert(vv(dlines@) == dl);
                    assert(dl.len() == dlines@.len());
                }
                let mut i: usize = 0;
                while i < dlines.len()
                    invariant
                        screen.wf(),
                        screen@.width == old(screen)@.width,
                        screen@.height == old(screen)@.height,
                        max_clip < u16::MAX,
                        area.width >= 1,
                        area.x + area.width <= u16::MAX,
                        start_row <= current_row,
                        same_outside_rows(old(screen)@, screen@, start_row as int, max_clip + 1),
                        vv(dlines@) == dl,
                        dl.len() == dlines@.len(),
                        max_content_width == (if area.width >= 5 { area.width - 5 } else { 0 }),
                        diff_rows_from(screen@, dl, i as int, current_row as int, lines_remaining as int, max_clip as int, area)
                            == diff_rows_from(v1, dl, 0, r1, n1, max_clip as int, area),
                    ensures
                        screen.wf(),
                        screen@.width == old(screen)@.width,
                        screen@.height == old(screen)@.height,
                        same_outside_rows(old(screen)@, screen@, start_row as int, max_clip + 1),
                        screen@ == diff_rows_from(v1, dl, 0, r1, n1, max_clip as int, area),
                    decreases dlines@.len() - i,
                {
                    if lines_remaining == 0 || current_row > max_clip {
                        break;
                    }
                    let (line_color, line_bg) = diff_colors(&dlines[i], Color::Ansi(252), Color::Default);
                    let line = string_of(&dlines[i]);
                    let display = gutter_line(line.as_str(), max_content_width);
                    let fill = line_bg != Color::Default;
                    let ghost s2 = screen@;
                    draw_gutter_row(screen, current_row, area, display.as_str(), line_color, line_bg, fill, line_bg);
                    proof {
                        lemma_same_rows_step(old(screen)@, s2, screen@, current_row as int, current_row + 1, start_row as int, max_clip + 1);
                    }
                    current_row = current_row + 1;
                    lines_remaining = lines_remaining - 1;
                    i += 1;
                }
            }
        }
    }

    /// Draw a question and its numbered answers, the first `skip_top` visual
    /// rows scrolled away.
    fn render_question(
        screen: &mut Screen,
        question: &str,
        answers: &Vec<String>,
        start_row: u16,
        area: Rect,
        skip_top: usize,
        rows_available: usize,
        max_row: u16,
        max_clip: u16,
        wrap_col: u16,
    )
        requires
            old(screen).wf(),
            area.x + area.width <= u16::MAX,
            start_row <= max_clip < u16::MAX,
            max_clip <= max_row,
        ensures
            final(screen).wf(),
            final(screen)@.width == old(screen)@.width,
            final(screen)@.height == old(screen)@.height,
            same_outside_rows(old(screen)@, final(screen)@, start_row as int, max_clip + 1),
            final(screen)@ == answers_from(
                question_top(old(screen)@, question@, start_row as int, area, skip_top as int, rows_available as int,
                    max_row as int, max_clip as int, wrap_col as int),
                answers@.map_values(|a: String| a@), 0, area, max_clip as int, wrap_col as int,
                if answers.len() >= 10 { 7 } else { 6 },
            ),
    {
        proof {
            lemma_same_rows_refl(screen@, start_row as int, max_clip + 1);
        }
        let question_prefix = "  ❓ ";
        let qw = str_display_width(question_prefix);
        let q_indent = coord_add(area.x, qw);
        let answer_prefix_len: usize = if answers.len() >= 10 { 7 } else { 6 };
        let mut current_row = start_row;
        let mut lines_remaining = rows_available;
        let mut skip_remaining = skip_top;
        if skip_remaining == 0 && current_row <= max_row && lines_remaining > 0 {
            let ghost s0 = screen@;
            screen.write_str(current_row, area.x, question_prefix, Color::yellow(), Color::Default, Style::bold());
            proof {
                lemma_same_rows_step(old(screen)@, s0, screen@, current_row as int, current_row + 1, start_row as int, max_clip + 1);
            }
            let ghost before = screen@;
            let fg = Color::yellow();
            let st = Style::new();
            let last_row = screen.write_str_wrapped_clipped(
                current_row, q_indent, question, fg, Color::Default, st, q_indent, max_clip,
                wrap_col,
            );
            proof {
                lemma_wrap_run_rows(
                    crate::tui::screen::clip_wrap_spec(q_indent as int, max_clip as int, wrap_col as int, 0),
                    q_indent as int,
                    wrap_start(before, current_row as int, q_indent as int),
                    question@,
                    fg,
                    Color::Default,
                    st,
                );
                lemma_same_rows_step(old(screen)@, before, screen@, current_row as int, max_clip + 1, start_row as int, max_clip + 1);
            }
            current_row = coord_add(last_row, 1);
            lines_remaining = lines_remaining.saturating_sub((last_row - start_row) as usize + 1);
        } else if skip_remaining > 0 {
            let q_height = text_rows_exec(question, area.width, qw, qw);
            if skip_remaining >= q_height {
                skip_remaining = skip_remaining - q_height;
            } else {
                if current_row <= max_clip && lines_remaining > 0 {
                    let ghost s0 = screen@;
                    screen.write_str(current_row, area.x, question_prefix, Color::yellow(), Color::Default, Style::bold());
                    proof {
                        lemma_same_rows_step(old(screen)@, s0, screen@, current_row as int, current_row + 1, start_row as int, max_clip + 1);
                    }
                    let ghost s1 = screen@;
                    screen.write_str_wrapped_skip_clipped(
                        current_row, q_indent, question, Color::yellow(), Color::Default, Style::new(), q_indent,
                        max_clip, wrap_col, skip_remaining,
                    );
                    proof {
                        lemma_same_rows_step(old(screen)@, s1, screen@, current_row as int, max_clip + 1, start_row as int, max_clip + 1);
                    }
                    let q_rows = q_height - skip_remaining;
                    current_row = coord_add(current_row, q_rows);
                    lines_remaining = lines_remaining.saturating_sub(q_rows);
                }
                skip_remaining = 0;
            }
        }
        let ghost top = (screen@, current_row as int, lines_remaining as int, skip_remaining as int);
        let ghost avs = answers@.map_values(|a: String| a@);
        proof {
            assert(top == question_top(old(screen)@, question@, start_row as int, area, skip_top as int, rows_available as int,
                max_row as int, max_clip as int, wrap_col as int));
        }
        let mut i: usize = 0;
        while i < answers.len()
            invariant
                screen.wf(),
                screen@.width == old(screen)@.width,
                screen@.height == old(screen)@.height,
                max_clip < u16::MAX,
                area.x + area.width <= u16::MAX,
                start_row <= current_row,
                same_outside_rows(old(screen)@, screen@, start_row as int, max_clip + 1),
                avs == answers@.map_values(|a: String| a@),
                answer_prefix_len == (if answers.len() >= 10 { 7usize } else { 6 }),
                answers_from((screen@, current_row as int, lines_remaining as int, skip_remaining as int), avs, i as int, area,
                    max_clip as int, wrap_col as int, answer_prefix_len as int)
                    == answers_from(top, avs, 0, area, max_clip as int, wrap_col as int, answer_prefix_len as int),
            decreases answers@.len() - i,
        {
            let answer = &answers[i];
            let mut label = String::new();
            push_str(&mut label, "    ");
            push_decimal(&mut label, (i as u64) + 1);
            string_push(&mut label, '.');
            string_push(&mut label, ' ');
            proof {
                assert(label@ =~= answer_label(i as int));
                assert(answer@ == avs[i as int]);
            }
            let label_width = str_display_width(label.as_str());
            let a_indent = coord_add(area.x, label_width);
            let a_height = text_rows_exec(answer, area.width, answer_prefix_len, answer_prefix_len);
            if skip_remaining > 0 {
                if a_height <= skip_remaining {
                    skip_remaining = skip_remaining - a_height;
                } else {
                    if current_row <= max_clip && lines_remaining > 0 {
                        let ghost s0 = screen@;
                        screen.write_str(current_row, area.x, label.as_str(), Color::cyan(), Color::Default, Style::bold());
                        proof {
                            lemma_same_rows_step(old(screen)@, s0, screen@, current_row as int, current_row + 1, start_row as int, max_clip + 1);
                        }
                        let ghost s1 = screen@;
                        screen.write_str_wrapped_skip_clipped(
                            current_row, a_indent, answer, Color::white(), Color::Default, Style::new(), a_indent,
                            max_clip, wrap_col, skip_remaining,
                        );
                        proof {
                            lemma_same_rows_step(old(screen)@, s1, screen@, current_row as int, max_clip + 1, start_row as int, max_clip + 1);
                        }
                        let a_rows = a_height - skip_remaining;
                        current_row = coord_add(current_row, a_rows);
                        lines_remaining = lines_remaining.saturating_sub(a_rows);
                    }
                    skip_remaining = 0;
                }
            } else if current_row <= max_clip && lines_remaining > 0 {
                let ghost s0 = screen@;
                screen.write_str(current_row, area.x, label.as_str(), Color::cyan(), Color::Default, Style::bold());
                proof {
                    lemma_same_rows_step(old(screen)@, s0, screen@, current_row as int, current_row + 1, start_row as int, max_clip + 1);
                }
                let ghost before = screen@;
                let fg = Color::white();
                let st = Style::new();
                let last_row = screen.write_str_wrapped_clipped(
                    current_row, a_indent, answer, fg, Color::Default, st, a_indent, max_clip,
                    wrap_col,
                );
                proof {
                    lemma_wrap_run_rows(
                        crate::tui::screen::clip_wrap_spec(a_indent as int, max_clip as int, wrap_col as int, 0),
                        a_indent as int,
                        wrap_start(before, current_row as int, a_indent as int),
                        answer@,
                        fg,
                        Color::Default,
                        st,
                    );
                    lemma_same_rows_step(old(screen)@, before, screen@, current_row as int, max_clip + 1, start_row as int, max_clip + 1);
                }
                current_row = coord_add(last_row, 1);
                lines_remaining = lines_remaining.saturating_sub(a_height);
            }
            i += 1;
        }
    }

    /// Draw one conversation line from `start_row`, with its first
    /// `skip_top` visual rows scrolled away and `rows_available` rows left in
    /// the area.
    fn render_line_clipped(
        &self,
        line: &ConversationLine,
        start_row: u16,
        screen: &mut Screen,
        area: Rect,
        skip_top: usize,
        rows_available: usize,
    )
        requires
            old(screen).wf(),
            area.width >= 1,
            area.x + area.width <= u16::MAX,
            area.y + area.height <= u16::MAX,
            area.y <= start_row,
            rows_available >= 1,
            start_row + rows_available == area.y + area.height,
        ensures
            final(screen).wf(),
            final(screen)@.width == old(screen)@.width,
            final(screen)@.height == old(screen)@.height,
            same_outside_rows(old(screen)@, final(screen)@, start_row as int, area.y + area.height),
            message_look(line@, area.x as int) matches Some(look) ==> final(screen)@ == message_drawn(
                old(screen)@, area.x as int, start_row as int, area.y + area.height - 1, area.x + area.width - 1,
                skip_top as int, look,
            ),
            line@ is Separator ==> final(screen)@ == separator_drawn(old(screen)@, area, start_row as int, skip_top as int),
            final(screen)@ == line_drawn(old(screen)@, line@, start_row as int, area, skip_top as int, rows_available as int),
            line@ matches LineView::ToolResult(_, content, is_error) ==> final(screen)@ == tool_result_drawn(
                old(screen)@, content, is_error, start_row as int, area, skip_top as int, area.y + area.height - 1,
            ),
            line@ matches LineView::ConfirmPrompt(name, args, diff) ==> final(screen)@ == confirm_drawn(
                old(screen)@, name, args, diff, start_row as int, area, skip_top as int, rows_available as int,
                area.y + area.height - 1, area.x + area.width - 1,
            ),
            line@ matches LineView::Question(question, answers) ==> final(screen)@ == answers_from(
                question_top(old(screen)@, question, start_row as int, area, skip_top as int, rows_available as int,
                    area.y + area.height - 1, area.y + area.height - 1, area.x + area.width - 1),
                answers, 0, area, area.y + area.height - 1, area.x + area.width - 1,
                if answers.len() >= 10 { 7 } else { 6 },
            ),
    {
        proof {
            lemma_same_rows_refl(screen@, start_row as int, area.y + area.height);
        }
        let bottom = area.y + area.height;
        let max_row = bottom - 1;
        let max_clip = max_row;
        let wrap_col = area.x + (area.width - 1);
        match line {
            ConversationLine::User { text } => {
                let indent = coord_add(area.x, 7);
                draw_message(
                    screen, area, start_row, max_clip, wrap_col, skip_top, "  You: ", Color::green(),
                    Style::bold(), indent, text, Color::green(), Style::new(), true,
                );
            },
            ConversationLine::Assistant { text } => {
                let indent = coord_add(area.x, 7);
                draw_message(
                    screen, area, start_row, max_clip, wrap_col, skip_top, "  AI:  ", Color::cyan(),
                    Style::bold(), indent, text, Color::white(), Style::new(), true,
                );
            },
            ConversationLine::ToolCall { name, args_summary } => {
                let mut header = String::new();
                push_str(&mut header, "  ── ");
                push_str(&mut header, name);
                let hw = str_display_width(header.as_str());
                let indent = coord_add(area.x, hw);
                let has_args = !args_summary.as_str().is_empty();
                draw_message(
                    screen, area, start_row, max_clip, wrap_col, skip_top, header.as_str(),
                    styles::tool_msg_fg(), Style::new(), indent, args_summary, Color::Ansi(96), Style::dim(), has_args,
                );
            },
            ConversationLine::ToolResult { content, is_error, .. } => {
                Self::render_tool_result(screen, content, *is_error, start_row, area, skip_top, max_clip);
            },
            ConversationLine::System { text } => {
                let indent = coord_add(area.x, 2);
                draw_message(
                    screen, area, start_row, max_clip, wrap_col, skip_top, "  ", Color::Default,
                    Style::new(), indent, text, Color::yellow(), Style::new(), true,
                );
            },
            ConversationLine::Thinking { text } => {
                let indent = coord_add(area.x, 13);
                let display_text = if text.as_str().is_empty() {
                    let mut d = String::new();
                    push_str(&mut d, "⋯");
                    d
                } else {
                    text.clone()
                };
                draw_message(
                    screen, area, start_row, max_clip, wrap_col, skip_top, "  [thinking] ",
                    styles::thinking_fg(), Style::dim(), indent, display_text.as_str(), styles::thinking_fg(),
                    Style::dim(), true,
                );
            },
            ConversationLine::Separator => {
                if skip_top == 0 {
                    let from = coord_add(area.x, 2);
                    let to = coord_add(area.x, if area.width >= 4 { (area.width - 4) as usize } else { 0 });
                    screen.hline(start_row, from, to, '─', Color::Ansi(240), Color::Default);
                    proof {
                        lemma_fill_box(old(screen)@, screen@, start_row as int, start_row + 1, from as int, to + 1,
                            Cell { char: '─', fg: Color::Ansi(240), bg: Color::Default, style: plain_style(), wide: false });
                        lemma_same_rows_step(
                            old(screen)@, old(screen)@, screen@, start_row as int, start_row + 1, start_row as int, bottom as int,
                        );
                    }
                }
            },
            ConversationLine::ConfirmPrompt { name, args_summary, diff_preview } => {
                Self::render_confirm_prompt(
                    screen, name, args_summary, diff_preview, start_row, area, skip_top, rows_available, max_clip,
                    wrap_col,
                );
            },
            ConversationLine::Question { question, answers } => {
                Self::render_question(
                    screen, question, answers, start_row, area, skip_top, rows_available, max_row, max_clip, wrap_col,
                );
            },
        }
    }

    /// Draw the context warning banner on the top row of `area`.
    fn render_context_warning(&self, area: Rect, screen: &mut Screen)
        requires
            old(screen).wf(),
            area.x + area.width <= u16::MAX,
        ensures
            final(screen).wf(),
            final(screen)@.width == old(screen)@.width,
            final(screen)@.height == old(screen)@.height,
            same_outside_rows(old(screen)@, final(screen)@, area.y as int, area.y + 1),
            final(screen)@ == warning_drawn(old(screen)@, self@.warning, area),
    {
        proof {
            lemma_same_rows_refl(screen@, area.y as int, area.y + 1);
        }
        let row = area.y;
        let mut msg = String::new();
        let (fg, bg) = match self.context_warning {
            ContextWarningLevel::Normal => {
                return;
            },
            ContextWarningLevel::Warning(pct) => {
                push_str(&mut msg, " ⚠ Context ");
                push_decimal(&mut msg, pct);
                push_str(&mut msg, "% full — consider /compact to free space ");
                (Color::yellow(), Color::Ansi(17))
            },
            ContextWarningLevel::Critical(pct) => {
                push_str(&mut msg, " ⚠ Context ");
                push_decimal(&mut msg, pct);
                push_str(&mut msg, "% — exceeded! Use /compact now ");
                (Color::white(), Color::Ansi(52))
            },
        };
        proof {
            assert(msg@ =~= warning_text(self@.warning));
            assert((fg, bg) == warning_colors(self@.warning));
        }
        let end = area.x + area.width;
        let mut col = area.x;
        while col < end
            invariant
                screen.wf(),
                screen@.width == old(screen)@.width,
                screen@.height == old(screen)@.height,
                row == area.y,
                same_outside_rows(old(screen)@, screen@, area.y as int, area.y + 1),
                area.x <= col,
                cleared_from(screen@, row as int, col as int, end as int, bg)
                    == cleared_from(old(screen)@, row as int, area.x as int, end as int, bg),
            decreases end - col,
        {
            let ghost before = screen@;
            clear_cell_bg(screen, row, col, bg);
            proof {
                lemma_same_rows_step(old(screen)@, before, screen@, row as int, row + 1, area.y as int, area.y + 1);
            }
            col += 1;
        }
        let display = truncate_str_width(msg.as_str(), area.width as usize);
        let ghost before = screen@;
        screen.write_str(row, area.x, display, fg, bg, Style::bold());
        proof {
            lemma_same_rows_step(old(screen)@, before, screen@, row as int, row + 1, area.y as int, area.y + 1);
        }
    }

    /// Draw the search bar on `row`: the label, the query with its cursor
    /// underlined, and the match count at the right.
    fn render_search_bar(&self, row: u16, area: Rect, screen: &mut Screen)
        requires
            old(screen).wf(),
            area.x + area.width <= u16::MAX,
            conv_inv(self@),
        ensures
            final(screen).wf(),
            final(screen)@.width == old(screen)@.width,
            final(screen)@.height == old(screen)@.height,
            same_outside_rows(old(screen)@, final(screen)@, row as int, row + 1),
            final(screen)@ == search_bar_drawn(old(screen)@, self@, row as int, area),
    {
        proof {
            lemma_same_rows_refl(screen@, row as int, row + 1);
        }
        let bar_bg = styles::status_bar_bg();
        let end = area.x + area.width;
        let mut col = area.x;
        while col < end
            invariant
                screen.wf(),
                screen@.width == old(screen)@.width,
                screen@.height == old(screen)@.height,
                same_outside_rows(old(screen)@, screen@, row as int, row + 1),
                area.x <= col,
                bar_bg == Color::Ansi(236),
                cleared_from(screen@, row as int, col as int, end as int, bar_bg)
                    == cleared_from(old(screen)@, row as int, area.x as int, end as int, bar_bg),
            decreases end - col,
        {
            let ghost before = screen@;
            clear_cell_bg(screen, row, col, bar_bg);
            proof {
                lemma_same_rows_step(old(screen)@, before, screen@, row as int, row + 1, row as int, row + 1);
            }
            col += 1;
        }
        let label = " Search: ";
        let ghost s0 = screen@;
        screen.write_str(row, area.x, label, Color::yellow(), bar_bg, Style::bold());
        proof {
            lemma_same_rows_step(old(screen)@, s0, screen@, row as int, row + 1, row as int, row + 1);
        }
        let label_len: usize = 9;
        let query_col = coord_add(area.x, label_len);
        let query_text = string_of(&self.search.query);
        let max_query_width: usize = if area.width >= 29 { (area.width - 29) as usize } else { 0 };
        let display_query = truncate_str_width(query_text.as_str(), max_query_width);
        let ghost s1 = screen@;
        proof {
            assert(query_text@ == self@.query);
        }
        screen.write_str(row, query_col, display_query, Color::white(), bar_bg, Style::new());
        proof {
            lemma_same_rows_step(old(screen)@, s1, screen@, row as int, row + 1, row as int, row + 1);
        }
        let before = string_of(&slice_chars(&self.search.query, 0, self.search.cursor));
        let offset = str_display_width(before.as_str());
        let cursor_col_in_display = if offset > max_query_width { max_query_width } else { offset };
        let cursor_screen_col = coord_add(query_col, cursor_col_in_display);
        proof {
            assert(before@ == self@.query.subrange(0, self@.cursor as int));
        }
        let ghost s4 = screen@;
        if cursor_screen_col < end {
            if let Some(c) = screen.get(row, cursor_screen_col) {
                let mut cell = *c;
                cell.style.underline = true;
                if cell.char == ' ' {
                    cell.fg = Color::white();
                }
                let ghost s2 = screen@;
                screen.set_cell(row, cursor_screen_col, cell);
                proof {
                    lemma_same_rows_step(old(screen)@, s2, screen@, row as int, row + 1, row as int, row + 1);
                }
            }
        }
        proof {
            assert(screen@ == search_cursor_marked(s4, row as int, cursor_screen_col as int, end as int));
        }
        let ghost s5 = screen@;
        let mut match_count = String::new();
        if self.search.match_rows.len() > 0 {
            string_push(&mut match_count, ' ');
            push_decimal(&mut match_count, (self.search.current_match as u64) + 1);
            string_push(&mut match_count, '/');
            push_decimal(&mut match_count, self.search.match_rows.len() as u64);
            string_push(&mut match_count, ' ');
        } else if self.search.query.len() > 0 {
            push_str(&mut match_count, " No matches ");
        }
        proof {
            assert(match_count@ =~= match_count_text(self@));
        }
        let count_len = match_count.as_str().as_bytes().len();
        if count_len > 0 {
            let back: u16 = if count_len > u16::MAX as usize { u16::MAX } else { count_len as u16 };
            let match_start = if end >= back { end - back } else { 0 };
            let ghost s3 = screen@;
            screen.write_str(row, match_start, match_count.as_str(), Color::Ansi(244), bar_bg, Style::dim());
            proof {
                lemma_same_rows_step(old(screen)@, s3, screen@, row as int, row + 1, row as int, row + 1);
            }
        }
    }

    /// Highlight the occurrences of the search query in the visible lines;
    /// the current match in black on orange, others in white on olive.
    #[verifier::rlimit(40)]
    fn highlight_search_matches(&self, area: Rect, screen: &mut Screen, content_width: u16)
        requires
            old(screen).wf(),
            area.x + area.width <= u16::MAX,
            area.y + area.height <= u16::MAX,
        ensures
            final(screen).wf(),
            final(screen)@.width == old(screen)@.width,
            final(screen)@.height == old(screen)@.height,
            final(screen)@ == highlight_drawn(old(screen)@, self@, area, content_width as int),
            same_chars(old(screen)@, final(screen)@),
    {
        proof {
            if !(self@.query.len() == 0 || lowercase(self@.query).len() == 0) {
                lemma_lines_highlighted_chars(old(screen)@, self@, 0, 0, area.y as int, 0, area, content_width as int);
            }
        }
        if self.search.query.len() == 0 {
            return;
        }
        let query_lower = lower_chars(&self.search.query);
        let qn = query_lower.len();
        if qn == 0 {
            return;
        }
        let ghost cw = content_width as int;
        let visible_start = self.scroll_offset;
        let visible_end = visible_start.saturating_add(area.height as usize);
        let bottom = area.y + area.height;
        let last_col = area.x + if area.width >= 1 { area.width - 1 } else { 0 };
        let mut visual_row: usize = 0;
        let mut screen_row: u16 = area.y;
        let mut match_idx: usize = 0;
        let mut li: usize = 0;
        while li < self.lines.len()
            invariant
                screen.wf(),
                screen@.width == old(screen)@.width,
                screen@.height == old(screen)@.height,
                area.y <= screen_row <= bottom,
                bottom == area.y + area.height,
                bottom <= u16::MAX,
                qn == query_lower@.len(),
                qn > 0,
                query_lower@ == lowercase(self@.query),
                visible_start == self@.scroll_offset,
                visible_end == sat_add(visible_start as int, area.height as int),
                cw == content_width as int,
                last_col == area.x + (if area.width >= 1 { area.width - 1 } else { 0 }),
                self@.lines == self.lines@,
                lines_highlighted(screen@, self@, li as int, visual_row as int, screen_row as int, match_idx as int, area, cw)
                    == lines_highlighted(old(screen)@, self@, 0, 0, area.y as int, 0, area, cw),
            ensures
                screen.wf(),
                screen@.width == old(screen)@.width,
                screen@.height == old(screen)@.height,
                screen@ == lines_highlighted(old(screen)@, self@, 0, 0, area.y as int, 0, area, cw),
            decreases self.lines@.len() - li,
        {
            let line = &self.lines[li];
            let height = Self::rows_of(line, content_width);
            proof {
                assert(self@.lines[li as int] == *line);
            }
            if visual_row.saturating_add(height) <= visible_start {
                visual_row = visual_row.saturating_add(height);
                li += 1;
                continue;
            }
            if visual_row >= visible_end {
                break;
            }
            let skip_top = visible_start.saturating_sub(visual_row);
            let rows_available = bottom - screen_row;
            if rows_available == 0 {
                break;
            }
            let ghost c = match_ctx(self@, *line, area, cw, visual_row as int, screen_row as int);
            let ghost vl = screen@;
            let ghost m0 = match_idx as int;
            let text = Self::search_text_of(line);
            let tcs = chars_of(text.as_str());
            if tcs.len() > 0 {
                let text_lower = lower_chars(&tcs);
                let line_prefix_len: usize = match line {
                    ConversationLine::User { .. } => 7,
                    ConversationLine::Assistant { .. } => 7,
                    ConversationLine::System { .. } => 2,
                    ConversationLine::Thinking { .. } => 13,
                    _ => 4,
                };
                let wrap_at = content_width as usize;
                proof {
                    assert(c.wrap == content_width as int);
                    assert(c.prefix == line_prefix_len as int);
                    assert(c.text == tcs@);
                }
                let mut search_start: usize = 0;
                while search_start <= text_lower.len()
                    invariant_except_break
                        matches_highlighted(screen@, c, search_start as int, match_idx as int) == matches_highlighted(vl, c, 0, m0),
                    invariant
                        line_prefix_len <= 13,
                        screen.wf(),
                        screen@.width == old(screen)@.width,
                        screen@.height == old(screen)@.height,
                        qn == query_lower@.len(),
                        qn > 0,
                        text_lower@ == c.lower,
                        tcs@ == c.text,
                        query_lower@ == c.query_lower,
                        self.search.query@ == c.query,
                        line_prefix_len == c.prefix,
                        wrap_at == c.wrap,
                        visual_row == c.visual_row,
                        screen_row == c.screen_row,
                        skip_top == c.skip_top,
                        visible_start == c.visible_start,
                        visible_end == c.visible_end,
                        area.x == c.x,
                        last_col == c.last_col,
                        self.search.match_rows@ == c.match_rows,
                    ensures
                        screen.wf(),
                        screen@.width == old(screen)@.width,
                        screen@.height == old(screen)@.height,
                        (screen@, match_idx as int) == matches_highlighted(vl, c, 0, m0),
                    decreases text_lower@.len() + 1 - search_start,
                {
                    let ghost st0 = search_start as int;
                    let rest = slice_chars(&text_lower, search_start, text_lower.len());
                    proof {
                        assert(rest@ == c.lower.subrange(search_start as int, c.lower.len() as int));
                        assert(c.query_lower.len() > 0);
                    }
                    let found = find_chars(&rest, &query_lower);
                    let pos = match found {
                        Some(p) => p,
                        None => {
                            break;
                        },
                    };
                    proof {
                        crate::text::lemma_first_occurrence(rest@, query_lower@, 0);
                    }
                    let abs_pos = search_start + pos;
                    search_start = abs_pos + qn;
                    let plen = if abs_pos <= tcs.len() { abs_pos } else { tcs.len() };
                    let mut row_offset: usize = 0;
                    let mut col: usize = line_prefix_len;
                    let mut k: usize = 0;
                    while k < plen
                        invariant
                            plen <= tcs@.len(),
                            line_prefix_len <= 13,
                            match_place(tcs@, k as int, plen as int, row_offset as int, col as int, line_prefix_len as int, wrap_at as int)
                                == match_place(tcs@, 0, plen as int, 0, line_prefix_len as int, line_prefix_len as int, wrap_at as int),
                        decreases plen - k,
                    {
                        let w0 = width_or_one(tcs[k]);
                        let w = if w0 == 0 { 1 } else { w0 };
                        col = col.saturating_add(w);
                        if col > wrap_at {
                            row_offset = row_offset.saturating_add(1);
                            col = line_prefix_len + w;
                        }
                        k += 1;
                    }
                    let start_col = col;
                    let actual_visual_row = visual_row.saturating_add(row_offset);
                    if actual_visual_row >= visible_end {
                        proof {
                            assert(matches_highlighted(screen@, c, st0, match_idx as int) == (screen@, match_idx as int));
                        }
                        break;
                    }
                    if actual_visual_row < visible_start {
                        continue;
                    }
                    if skip_top > 0 && row_offset < skip_top {
                        continue;
                    }
                    let match_screen_row = coord_add(screen_row, row_offset);
                    let is_current = match_idx < self.search.match_rows.len()
                        && self.search.match_rows[match_idx] == visual_row;
                    let highlight_fg = if is_current { Color::black() } else { Color::white() };
                    let highlight_bg = if is_current { Color::orange() } else { Color::Ansi(58) };
                    let mut highlight_col = coord_add(area.x, start_col);
                    let ghost vh = screen@;
                    let ghost hc0 = highlight_col as int;
                    let mut q: usize = 0;
                    while q < self.search.query.len()
                        invariant
                            screen.wf(),
                            screen@.width == old(screen)@.width,
                            screen@.height == old(screen)@.height,
                            highlighted(screen@, match_screen_row as int, highlight_col as int, self.search.query@, q as int,
                                last_col as int, highlight_fg, highlight_bg)
                                == highlighted(vh, match_screen_row as int, hc0, self.search.query@, 0, last_col as int, highlight_fg,
                                highlight_bg),
                        ensures
                            screen.wf(),
                            screen@.width == old(screen)@.width,
                            screen@.height == old(screen)@.height,
                            screen@ == highlighted(vh, match_screen_row as int, hc0, self.search.query@, 0, last_col as int,
                                highlight_fg, highlight_bg),
                        decreases self.search.query@.len() - q,
                    {
                        if highlight_col >= last_col {
                            break;
                        }
                        if let Some(c) = screen.get(match_screen_row, highlight_col) {
                            let mut cell = *c;
                            cell.fg = highlight_fg;
                            cell.bg = highlight_bg;
                            screen.set_cell(match_screen_row, highlight_col, cell);
                        }
                        let w0 = width_or_one(self.search.query[q]);
                        let w = if w0 == 0 { 1 } else { w0 };
                        highlight_col = coord_add(highlight_col, w);
                        q += 1;
                    }
                    match_idx = match_idx.saturating_add(1);
                }
            }
            let advance = height.saturating_sub(skip_top);
            let next = coord_add(screen_row, advance);
            screen_row = if next < bottom { next } else { bottom };
            visual_row = visual_row.saturating_add(height);
            li += 1;
        }
    }

    /// Draw a scrollbar on the right edge of `area` when the content is taller
    /// than the area; the thumb's size and position follow the visible part.
    fn render_scrollbar(&self, area: Rect, screen: &mut Screen, total_lines: usize)
        requires
            old(screen).wf(),
            area.width >= 1,
            area.x + area.width <= u16::MAX,
            area.y + area.height <= u16::MAX,
        ensures
            final(screen).wf(),
            final(screen)@.width == old(screen)@.width,
            final(screen)@.height == old(screen)@.height,
            same_outside_rows(old(screen)@, final(screen)@, area.y as int, area.y + area.height),
            final(screen)@ == scrollbar_drawn(old(screen)@, self@.scroll_offset as int, area, total_lines as int),
    {
        proof {
            lemma_same_rows_refl(screen@, area.y as int, area.y + area.height);
        }
        let h = area.height as usize;
        if total_lines <= h || h == 0 {
            return;
        }
        let h64 = h as u64;
        assert(h64 * h64 <= 65535 * 65535) by (nonlinear_arith)
            requires
                h64 <= 65535;
        let sq = h64 * h64;
        let raw = sq / (total_lines as u64);
        assert(raw <= h) by (nonlinear_arith)
            requires
                raw == sq / (total_lines as u64),
                sq == h64 * h64,
                h64 == h,
                total_lines > h;
        let thumb_size: u16 = if raw >= 1 { raw as u16 } else { 1 };
        let span = (total_lines - h) as u128;
        let room = (area.height - thumb_size) as u128;
        let so = self.scroll_offset as u128;
        assert(so * room <= 0xFFFF_FFFF_FFFF_FFFF * 0xFFFF) by (nonlinear_arith)
            requires
                so <= 0xFFFF_FFFF_FFFF_FFFF,
                room <= 0xFFFF;
        let pos_raw = so * room / span;
        let thumb_position: u16 = if pos_raw > room { room as u16 } else { pos_raw as u16 };
        proof {
            assert(thumb_size == thumb_rows(h as int, total_lines as int));
            assert(thumb_position == thumb_start(h as int, total_lines as int, self@.scroll_offset as int));
        }
        let x = area.x + (area.width - 1);
        let end = area.y + area.height;
        let mut row = area.y;
        while row < end
            invariant
                screen.wf(),
                screen@.width == old(screen)@.width,
                screen@.height == old(screen)@.height,
                area.y <= row,
                end == area.y + area.height,
                same_outside_rows(old(screen)@, screen@, area.y as int, area.y + area.height),
                column_marked(screen@, x as int, row as int, end as int, '│', Color::Ansi(244), Some(Color::Default))
                    == column_marked(old(screen)@, x as int, area.y as int, end as int, '│', Color::Ansi(244), Some(Color::Default)),
            decreases end - row,
        {
            if let Some(c) = screen.get(row, x) {
                let mut cell = *c;
                cell.char = '│';
                cell.wide = false;
                cell.fg = styles::scrollbar_fg();
                cell.bg = styles::scrollbar_bg();
                let ghost before = screen@;
                screen.set_cell(row, x, cell);
                proof {
                    lemma_same_rows_step(old(screen)@, before, screen@, row as int, row + 1, area.y as int, area.y + area.height);
                }
            }
            row += 1;
        }
        let ghost v1 = screen@;
        let ghost t0 = area.y + thumb_position;
        let mut i: u16 = 0;
        while i < thumb_size
            invariant
                screen.wf(),
                screen@.width == old(screen)@.width,
                screen@.height == old(screen)@.height,
                thumb_position as int + thumb_size as int <= area.height,
                area.y + area.height <= u16::MAX,
                end == area.y + area.height,
                same_outside_rows(old(screen)@, screen@, area.y as int, area.y + area.height),
                i <= thumb_size,
                t0 == area.y + thumb_position,
                column_marked(screen@, x as int, t0 + i, t0 + thumb_size, '█', Color::Ansi(244), None)
                    == column_marked(v1, x as int, t0, t0 + thumb_size, '█', Color::Ansi(244), None),
            decreases thumb_size - i,
        {
            let r = area.y + thumb_position + i;
            if r < end {
                if let Some(c) = screen.get(r, x) {
                    let mut cell = *c;
                    cell.char = '█';
                    cell.wide = false;
                    cell.fg = styles::scrollbar_fg();
                    let ghost before = screen@;
                    screen.set_cell(r, x, cell);
                    proof {
                        lemma_same_rows_step(old(screen)@, before, screen@, r as int, r + 1, area.y as int, area.y + area.height);
                    }
                }
            }
            i += 1;
        }
    }
}

/// The pane after drawing in `area`: the scroll offset goes to the last
/// screenful when the pane follows the latest line or is scrolled past it;
/// the content is as wide as the area but for the scrollbar column and as
/// tall as the area but for the warning banner and the search bar.
pub open spec fn drawn_state(s: ConversationState, area: Rect) -> ConversationState {
    if area.width == 0 || area.height == 0 {
        s
    } else {
        let reserved = (if s.warning is Normal { 0int } else { 1int }) + (if s.search_active { 1int } else { 0int });
        let rows = if area.height >= reserved { area.height - reserved } else { 0 };
        let total = total_rows(s.lines, area.width - 1);
        let max = if total > rows { total - rows } else { 0 };
        ConversationState { scroll_offset: (if s.auto_scroll || s.scroll_offset > max { max } else { s.scroll_offset as int }) as nat, ..s }
    }
}

impl Widget for ConversationWidget {
    open spec fn inv(&self) -> bool {
        conv_inv(self@)
    }

    /// Draw the pane: the warning banner on top, the search bar at the
    /// bottom, the visible part of the lines between, and the scrollbar.
    /// Without search highlighting, nothing outside the area's rows changes.
    /// The scroll offset is kept within the content (see [`drawn_state`]).
    #[verifier::rlimit(40)]
    fn render(&mut self, area: Rect, screen: &mut Screen)
        ensures
            final(self)@ == drawn_state(old(self)@, area),
            final(screen)@ == conversation_drawn(old(screen)@, old(self)@, area),
            forall|r: int, k: int|
                #![trigger cell_at(final(screen)@, r, k)]
                in_bounds(old(screen)@, r, k) && !(area.y <= r < area.y + area.height) ==> cell_at(final(screen)@, r, k).char
                    == cell_at(old(screen)@, r, k).char,
            !old(self)@.search_active || old(self)@.query.len() == 0 ==> same_outside_rows(
                old(screen)@,
                final(screen)@,
                area.y as int,
                area.y + area.height,
            ),
    {
        proof {
            lemma_same_rows_refl(screen@, area.y as int, area.y + area.height);
        }
        if area.is_empty() {
            return;
        }
        screen.fill_rect(area, Cell::blank());
        proof {
            lemma_fill_box(old(screen)@, screen@, area.y as int, area.y + area.height, area.x as int, area.x + area.width, blank_cell());
        }
        let search_active = self.search.active;
        let search_bar_rows: u16 = if search_active { 1 } else { 0 };
        let warning_banner_rows: u16 = match self.context_warning {
            ContextWarningLevel::Normal => 0,
            _ => 1,
        };
        let reserved = warning_banner_rows + search_bar_rows;
        let content_height = if area.height >= reserved { area.height - reserved } else { 0 };
        let content_area = Rect::new(area.x, area.y + warning_banner_rows, area.width, content_height);
        if warning_banner_rows > 0 {
            let ghost before = screen@;
            self.render_context_warning(area, screen);
            proof {
                lemma_same_rows_step(old(screen)@, before, screen@, area.y as int, area.y + 1, area.y as int, area.y + area.height);
            }
        }
        if search_active {
            let search_row = area.y + (area.height - 1);
            let ghost before = screen@;
            self.render_search_bar(search_row, area, screen);
            proof {
                lemma_same_rows_step(old(screen)@, before, screen@, search_row as int, search_row + 1, area.y as int, area.y + area.height);
            }
        }
        let visible_rows = content_area.height as usize;
        let content_width = content_area.width - 1;
        let total_height = self.total_visual_height(content_width);
        let max_scroll = total_height.saturating_sub(visible_rows);
        self.clamp_scroll(max_scroll);
        let bottom = content_area.y + content_area.height;
        let mut visual_row: usize = 0;
        let mut screen_row: u16 = content_area.y;
        let skip_rows = self.scroll_offset;
        let ghost v3 = screen@;
        let mut i: usize = 0;
        while i < self.lines.len()
            invariant
                lines_drawn(screen@, self@.lines, i as int, visual_row as int, screen_row as int, skip_rows as int, content_area)
                    == lines_drawn(v3, self@.lines, 0, 0, content_area.y as int, skip_rows as int, content_area),
                self@.lines == self.lines@,
                content_width == content_area.width - 1,
                screen.wf(),
                screen@.width == old(screen)@.width,
                screen@.height == old(screen)@.height,
                content_area.y <= screen_row <= bottom,
                bottom == content_area.y + content_area.height,
                bottom <= u16::MAX,
                content_area.width >= 1,
                content_area.x + content_area.width <= u16::MAX,
                area.y <= content_area.y,
                content_area.y + content_area.height <= area.y + area.height,
                same_outside_rows(old(screen)@, screen@, area.y as int, area.y + area.height),
            ensures
                screen@ == lines_drawn(v3, self@.lines, 0, 0, content_area.y as int, skip_rows as int, content_area),
                screen.wf(),
                screen@.width == old(screen)@.width,
                screen@.height == old(screen)@.height,
                same_outside_rows(old(screen)@, screen@, area.y as int, area.y + area.height),
            decreases self.lines@.len() - i,
        {
            proof {
                assert(self@.lines[i as int] == self.lines@[i as int]);
            }
            let height = Self::rows_of(&self.lines[i], content_width);
            if visual_row.saturating_add(height) <= skip_rows {
                visual_row = visual_row.saturating_add(height);
                i += 1;
                continue;
            }
            let skip_top = skip_rows.saturating_sub(visual_row);
            let rows_available = (bottom - screen_row) as usize;
            if rows_available == 0 {
                break;
            }
            let ghost before = screen@;
            self.render_line_clipped(&self.lines[i], screen_row, screen, content_area, skip_top, rows_available);
            proof {
                lemma_same_rows_step(old(screen)@, before, screen@, screen_row as int, bottom as int, area.y as int, area.y + area.height);
            }
            let advance = height.saturating_sub(skip_top);
            let next = coord_add(screen_row, advance);
            screen_row = if next < bottom { next } else { bottom };
            visual_row = visual_row.saturating_add(height);
            if screen_row >= bottom {
                break;
            }
            i += 1;
        }
        let ghost before = screen@;
        self.render_scrollbar(content_area, screen, total_height);
        proof {
            lemma_same_rows_step(
                old(screen)@, before, screen@, content_area.y as int, content_area.y + content_area.height, area.y as int, area.y + area.height,
            );
        }
        let ghost v5 = screen@;
        if self.search.active && self.search.query.len() > 0 {
            self.highlight_search_matches(content_area, screen, content_width);
        }
        proof {
            assert(same_outside_rows(old(screen)@, v5, area.y as int, area.y + area.height));
            assert forall|r: int, k: int|
                #![trigger cell_at(screen@, r, k)]
                in_bounds(old(screen)@, r, k) && !(area.y <= r < area.y + area.height) implies cell_at(screen@, r, k).char
                    == cell_at(old(screen)@, r, k).char by {
                assert(cell_at(v5, r, k) == cell_at(old(screen)@, r, k));
                assert(in_bounds(v5, r, k));
            }
        }
    }

    fn handle_event(&mut self, event: &Event) -> (r: Action)
        ensures
            (final(self)@, r@) == conv_event(old(self)@, *event),
    {
        self.handle_conv_event(event)
    }
}

} // verus!
