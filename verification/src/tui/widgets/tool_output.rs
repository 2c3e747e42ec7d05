//! Tool results in a collapsible list: each result shows a one-line header
//! when collapsed and its output lines when expanded.

use vstd::prelude::*;
use crate::text::{vv, chars_of, decimal, lines_of, push_decimal, push_str, string_of, string_push, text_lines};
use crate::tui::cell::{blank_cell, plain_style, Cell, Color, Style};
use crate::tui::event::{Event, Key, MouseEvent};
use crate::tui::layout::Rect;
use crate::tui::screen::{
    fill_box, lemma_fill_box, lemma_same_rows_refl, lemma_same_rows_step, recolored_from, same_outside_rows, write_run, Screen,
    ScreenView,
};
use vstd::utf8::encode_utf8;
use crate::tui::widget::{Action, ActionView, Widget, truncate_str_width, width_prefix_len};
use crate::unicode::{str_display_width, str_width};

verus! {

/// Status of a tool call.
#[derive(Clone, Debug, PartialEq)]
pub enum ToolStatus {
    /// The tool is running.
    Running,
    /// The tool completed, in `duration_ms` milliseconds.
    Success { duration_ms: u64 },
    /// The tool failed with an error message.
    Error { message: String },
}

/// A single tool result entry.
#[derive(Clone, Debug)]
pub struct ToolResult {
    /// Tool name (e.g. "read", "run", "write").
    pub name: String,
    /// Brief summary of the arguments (e.g. "src/main.rs:42-58").
    pub args_summary: String,
    /// The output content.
    pub content: String,
    /// Whether the result is an error.
    pub is_error: bool,
    /// Whether the result is collapsed.
    pub collapsed: bool,
    /// Tool execution status.
    pub status: ToolStatus,
}

/// A tool status with its message as a character sequence.
pub enum ToolStatusView {
    Running,
    Success(u64),
    Error(Seq<char>),
}

/// A tool result with its texts as character sequences.
pub struct ResultView {
    pub name: Seq<char>,
    pub args_summary: Seq<char>,
    pub content: Seq<char>,
    pub is_error: bool,
    pub collapsed: bool,
    pub status: ToolStatusView,
}

impl View for ToolResult {
    type V = ResultView;

    open spec fn view(&self) -> ResultView {
        ResultView {
            name: self.name@,
            args_summary: self.args_summary@,
            content: self.content@,
            is_error: self.is_error,
            collapsed: self.collapsed,
            status: match self.status {
                ToolStatus::Running => ToolStatusView::Running,
                ToolStatus::Success { duration_ms } => ToolStatusView::Success(duration_ms),
                ToolStatus::Error { message } => ToolStatusView::Error(message@),
            },
        }
    }
}

/// Collapsible list of tool results.
pub struct ToolOutputWidget {
    results: Vec<ToolResult>,
    selected: Option<usize>,
    scroll_offset: usize,
}

/// The state of a tool output list.
pub struct ToolOutputState {
    pub results: Seq<ToolResult>,
    pub selected: Option<nat>,
    pub scroll_offset: nat,
}

impl View for ToolOutputWidget {
    type V = ToolOutputState;

    closed spec fn view(&self) -> ToolOutputState {
        ToolOutputState {
            results: self.results@,
            selected: match self.selected {
                Some(i) => Some(i as nat),
                None => None,
            },
            scroll_offset: self.scroll_offset as nat,
        }
    }
}

/// Every result expanded.
pub open spec fn uncollapsed(s: ToolOutputState) -> ToolOutputState {
    ToolOutputState { results: s.results.map_values(|r: ToolResult| ToolResult { collapsed: false, ..r }), ..s }
}

/// Flip result `i` between collapsed and expanded; expanding selects it and
/// scrolls its content to the top. Out-of-range indices change nothing.
pub open spec fn toggle_state(s: ToolOutputState, i: int) -> ToolOutputState {
    if 0 <= i < s.results.len() {
        let r = s.results[i];
        let flipped = ToolResult { collapsed: !r.collapsed, ..r };
        let s1 = ToolOutputState { results: s.results.update(i, flipped), ..s };
        if !flipped.collapsed {
            ToolOutputState { selected: Some(i as nat), scroll_offset: 0, ..s1 }
        } else {
            s1
        }
    } else {
        s
    }
}

/// The rows a result takes in the click layout: one when collapsed; its
/// line count (as a 16-bit number) plus two when expanded.
pub open spec fn result_rows(r: ToolResult) -> int {
    if r.collapsed {
        1
    } else {
        (text_lines(r.content@).len() % 65536) as int + 2
    }
}

/// The result whose header is at `row`, scanning from result `i` whose
/// header is at `cur`; results are separated by one blank row.
pub open spec fn click_hit(results: Seq<ToolResult>, i: int, cur: int, row: int) -> Option<nat>
    decreases results.len() - i,
{
    if i < 0 || i >= results.len() {
        None
    } else if row == cur {
        Some(i as nat)
    } else {
        click_hit(results, i + 1, cur + result_rows(results[i]) + 1, row)
    }
}

/// The list's response to an event: Enter toggles the selected result (or
/// the first); Alt+Up and Alt+Down move the selection; a click on a header
/// toggles and selects that result.
pub open spec fn tool_event(s: ToolOutputState, e: Event) -> ToolOutputState {
    match e {
        Event::Key(k) => if k.key == Key::Enter && !k.modifiers.ctrl && !k.modifiers.alt && !k.modifiers.shift {
            match s.selected {
                Some(i) => toggle_state(s, i as int),
                None => if s.results.len() > 0 { toggle_state(s, 0) } else { s },
            }
        } else if k.key == Key::Up && k.modifiers.alt {
            match s.selected {
                Some(i) => if i > 0 { ToolOutputState { selected: Some((i - 1) as nat), ..s } } else { s },
                None => if s.results.len() > 0 {
                    ToolOutputState { selected: Some((s.results.len() - 1) as nat), ..s }
                } else {
                    s
                },
            }
        } else if k.key == Key::Down && k.modifiers.alt {
            match s.selected {
                Some(i) => if i + 1 < s.results.len() { ToolOutputState { selected: Some(i + 1), ..s } } else { s },
                None => if s.results.len() > 0 { ToolOutputState { selected: Some(0), ..s } } else { s },
            }
        } else {
            s
        },
        Event::Mouse(MouseEvent::Press { row, col: _, button: _ }) => match click_hit(s.results, 0, 0, row as int) {
            Some(i) => ToolOutputState { selected: Some(i), ..toggle_state(s, i as int) },
            None => s,
        },
        _ => s,
    }
}

proof fn lemma_click_past(results: Seq<ToolResult>, i: int, cur: int, row: int)
    requires
        cur > row,
        i >= 0,
    ensures
        click_hit(results, i, cur, row) is None,
    decreases results.len() - i,
{
    if i < results.len() {
        lemma_click_past(results, i + 1, cur + result_rows(results[i]) + 1, row);
    }
}

fn line_count(s: &String) -> (n: usize)
    ensures
        n == text_lines(s@).len(),
{
    let cs = chars_of(s.as_str());
    let lines = lines_of(&cs);
    lines.len()
}

impl ToolOutputWidget {
    /// An empty list.
    pub fn new() -> (r: Self)
        ensures
            r@ == (ToolOutputState { results: Seq::empty(), selected: None, scroll_offset: 0 }),
    {
        ToolOutputWidget { results: Vec::new(), selected: None, scroll_offset: 0 }
    }

    /// Add a result at the end.
    pub fn push(&mut self, result: ToolResult)
        ensures
            final(self)@ == (ToolOutputState { results: old(self)@.results.push(result), ..old(self)@ }),
    {
        self.results.push(result);
    }

    /// Remove all results.
    pub fn clear(&mut self)
        ensures
            final(self)@ == (ToolOutputState { results: Seq::empty(), selected: None, scroll_offset: 0 }),
    {
        self.results.clear();
        self.selected = None;
        self.scroll_offset = 0;
    }

    /// The number of results.
    pub fn len(&self) -> (n: usize)
        ensures
            n == self@.results.len(),
    {
        self.results.len()
    }

    /// Whether there are no results.
    pub fn is_empty(&self) -> (r: bool)
        ensures
            r == (self@.results.len() == 0),
    {
        self.results.len() == 0
    }

    /// Result `i`, if there is one.
    pub fn result(&self, i: usize) -> (r: Option<&ToolResult>)
        ensures
            r.is_some() == (i < self@.results.len()),
            r matches Some(x) ==> *x == self@.results[i as int],
    {
        if i < self.results.len() {
            Some(&self.results[i])
        } else {
            None
        }
    }

    /// Flip result `index` between collapsed and expanded (see [`toggle_state`]).
    pub fn toggle(&mut self, index: usize)
        ensures
            final(self)@ == toggle_state(old(self)@, index as int),
    {
        if index < self.results.len() {
            let flag = !self.results[index].collapsed;
            self.results[index].collapsed = flag;
            if !flag {
                self.selected = Some(index);
                self.scroll_offset = 0;
            }
        }
    }

    /// Expand every result.
    pub fn un_collapse_all(&mut self)
        ensures
            final(self)@ == uncollapsed(old(self)@),
            final(self)@.results.len() == old(self)@.results.len(),
            forall|j: int| 0 <= j < old(self)@.results.len() ==>
                #[trigger] final(self)@.results[j] == (ToolResult { collapsed: false, ..old(self)@.results[j] }),
            final(self)@.selected == old(self)@.selected,
            final(self)@.scroll_offset == old(self)@.scroll_offset,
    {
        let n = self.results.len();
        for i in 0..n
            invariant
                n == old(self)@.results.len(),
                self@.results.len() == n,
                self@.selected == old(self)@.selected,
                self@.scroll_offset == old(self)@.scroll_offset,
                forall|j: int| 0 <= j < i ==>
                    #[trigger] self@.results[j] == (ToolResult { collapsed: false, ..old(self)@.results[j] }),
                forall|j: int| i <= j < n ==> #[trigger] self@.results[j] == old(self)@.results[j],
        {
            self.results[i].collapsed = false;
        }
        proof {
            assert(self@.results =~= uncollapsed(old(self)@).results);
        }
    }
}

/// The status icon of a result and its color: a yellow `⟳` while running,
/// a green `✓` on success, a red `✗` on error.
pub open spec fn status_icon(status: ToolStatus) -> (Seq<char>, Color) {
    match status {
        ToolStatus::Running => ("⟳"@, Color::Ansi(3)),
        ToolStatus::Success { .. } => ("✓"@, Color::Ansi(2)),
        ToolStatus::Error { .. } => ("✗"@, Color::Ansi(1)),
    }
}

/// The header of a result: `"  {icon} Tool: {name}"`, followed by
/// `" {args}"` when there are arguments.
pub open spec fn result_header(r: ResultView, icon: Seq<char>) -> Seq<char> {
    "  "@ + icon + " Tool: "@ + r.name + (if r.args_summary.len() > 0 { seq![' '] + r.args_summary } else { Seq::empty() })
}

/// `text`, or, when it is wider than `max`, its prefix of display width at
/// most `max - 1` followed by `…`.
pub open spec fn fitted(text: Seq<char>, max: int) -> Seq<char> {
    if str_width(text) > max {
        text.take(width_prefix_len(text, if max > 0 { max - 1 } else { 0 }) as int) + seq!['…']
    } else {
        text
    }
}

/// The status icon and color of a result.
fn status_look(status: &ToolStatus) -> (r: (&'static str, Color))
    ensures
        (r.0@, r.1) == status_icon(*status),
{
    match status {
        ToolStatus::Running => ("⟳", Color::Ansi(3)),
        ToolStatus::Success { .. } => ("✓", Color::Ansi(2)),
        ToolStatus::Error { .. } => ("✗", Color::Ansi(1)),
    }
}

/// `"  {icon} Tool: {name}"`, followed by `" {args}"` when there are arguments.
fn header_text(result: &ToolResult, icon: &str) -> (r: String)
    ensures
        r@ == result_header(result@, icon@),
{
    let mut h = String::new();
    push_str(&mut h, "  ");
    push_str(&mut h, icon);
    push_str(&mut h, " Tool: ");
    push_str(&mut h, result.name.as_str());
    if !result.args_summary.as_str().is_empty() {
        string_push(&mut h, ' ');
        push_str(&mut h, result.args_summary.as_str());
        proof {
            assert(h@ =~= result_header(result@, icon@));
        }
    } else {
        proof {
            assert(h@ =~= result_header(result@, icon@));
        }
    }
    h
}

/// `text`, or its prefix of display width `max - 1` followed by `…` when it is wider than `max`.
fn fit_line(text: &str, max: usize) -> (r: String)
    ensures
        r@ == fitted(text@, max as int),
{
    if str_display_width(text) > max {
        let keep = truncate_str_width(text, if max > 0 { max - 1 } else { 0 });
        let mut s = String::new();
        push_str(&mut s, keep);
        string_push(&mut s, '…');
        s
    } else {
        let mut s = String::new();
        push_str(&mut s, text);
        proof {
            assert(s@ =~= text@);
        }
        s
    }
}

/// The header of a collapsed result: [`result_header`] with the status icon,
/// followed on success by `" {duration}ms"`.
pub open spec fn collapsed_header(result: ToolResult) -> Seq<char> {
    let h = result_header(result@, status_icon(result.status).0);
    match result.status {
        ToolStatus::Success { duration_ms } => h + seq![' '] + decimal(duration_ms as nat) + "ms"@,
        _ => h,
    }
}

/// The first line of a text, or the empty text when it has none.
pub open spec fn first_line(c: Seq<char>) -> Seq<char> {
    let ls = text_lines(c);
    if ls.len() > 0 { ls[0] } else { Seq::empty() }
}

/// A collapsed result drawn on `row` of a screen `width` columns wide: the
/// header (bold, in the status color) from column 0; when there is output and
/// more than ten columns remain after the header (the preview starting two
/// columns after it, but at most 20 columns before the right edge), a dim gray
/// preview of the first output line, cut with `…` to leave three columns;
/// then a dim `" ▶"` three columns before the right edge.
pub open spec fn collapsed_drawn(v: ScreenView, result: ToolResult, row: int, width: int) -> ScreenView {
    let header = collapsed_header(result);
    let v1 = write_run(v, row, 0, 0, header, status_icon(result.status).1, Color::Default, Style { bold: true, ..plain_style() });
    let c3 = if width > 3 { width - 3 } else { 0 };
    write_run(collapsed_preview(v1, result, row, width), row, c3, c3, " ▶"@, Color::Ansi(240), Color::Default, Style { dim: true, ..plain_style() })
}

/// The preview part of [`collapsed_drawn`].
pub open spec fn collapsed_preview(v1: ScreenView, result: ToolResult, row: int, width: int) -> ScreenView {
    let hw = str_width(collapsed_header(result)) as int;
    let limit = if width > 20 { width - 20 } else { 0 };
    let wanted = if hw < 0xFFFF { hw + 2 } else { 0x10001 };
    let col = if wanted < limit { wanted } else { limit };
    let available = if width > col { width - col } else { 0 };
    if result.content@.len() > 0 && available > 10 {
        let first = first_line(result.content@);
        let m = available - 3;
        let preview = if str_width(first) > m { first.take(width_prefix_len(first, m) as int) + seq!['…'] } else { first };
        write_run(v1, row, col, col, preview, Color::Ansi(244), Color::Default, Style { dim: true, ..plain_style() })
    } else {
        v1
    }
}

/// The output lines of an expanded result from line `i` on, drawn from row
/// `current` while rows remain before `end`: the first `scroll` lines are
/// skipped; each line is drawn behind a gray `  │` gutter from column 3, cut
/// with `…` past `width - 4` columns, red on dark red for an error (the rest
/// of the row then also on dark red), light gray otherwise. Also gives the
/// row after the last one drawn.
pub open spec fn expanded_lines_from(
    v: ScreenView,
    lines: Seq<Seq<char>>,
    i: int,
    current: int,
    end: int,
    scroll: int,
    width: int,
    is_error: bool,
) -> (ScreenView, int)
    decreases lines.len() - i,
{
    if i >= lines.len() || i < 0 {
        (v, current)
    } else if i < scroll {
        expanded_lines_from(v, lines, i + 1, current, end, scroll, width, is_error)
    } else if current >= end {
        (v, current)
    } else {
        let fg = if is_error { Color::Ansi(1) } else { Color::Ansi(252) };
        let bg = if is_error { Color::Ansi(52) } else { Color::Default };
        let v1 = write_run(v, current, 0, 0, "  │"@, Color::Ansi(240), bg, plain_style());
        let display = fitted(lines[i], if width >= 4 { width - 4 } else { 0 });
        let v2 = write_run(v1, current, 3, 3, display, fg, bg, plain_style());
        let dlen = encode_utf8(display).len() as int;
        let v3 = if is_error && dlen < 0xFFFF { recolored_from(v2, current, 3 + dlen, width, bg) } else { v2 };
        expanded_lines_from(v3, lines, i + 1, current + 1, end, scroll, width, is_error)
    }
}

/// An expanded result drawn from `row` in at most `max_rows` rows: the
/// header (bold, in the status color) with a dim `" ▼"` three columns before
/// the right edge, the output lines (see [`expanded_lines_from`]), and, when a
/// row remains, a closing `  └───` rule up to four columns before the right
/// edge. Also gives the number of rows used.
pub open spec fn expanded_drawn(
    v: ScreenView,
    result: ToolResult,
    row: int,
    width: int,
    max_rows: int,
    scroll: int,
) -> (ScreenView, int) {
    let (icon, color) = status_icon(result.status);
    let v1 = write_run(v, row, 0, 0, result_header(result@, icon), color, Color::Default, Style { bold: true, ..plain_style() });
    let c3 = if width > 3 { width - 3 } else { 0 };
    let v2 = write_run(v1, row, c3, c3, " ▼"@, Color::Ansi(240), Color::Default, Style { dim: true, ..plain_style() });
    let end = row + max_rows;
    let (v3, current) = expanded_lines_from(v2, text_lines(result.content@), 0, row + 1, end, scroll, width, result.is_error);
    if current < end {
        let v4 = write_run(v3, current, 0, 0, "  └"@, Color::Ansi(240), Color::Default, plain_style());
        let c4 = if width > 4 { width - 4 } else { 0 };
        let rule = Cell { char: '─', fg: Color::Ansi(240), bg: Color::Default, style: plain_style(), wide: false };
        (fill_box(v4, current, current + 1, 3, c4 + 1, rule), current + 1 - row)
    } else {
        (v3, current - row)
    }
}

/// The results from `i` on drawn from `row` while rows remain before
/// `bottom`: a collapsed one on one row, an expanded one on as many rows as
/// it uses, with a blank row after each result but the last.
pub open spec fn results_from(
    v: ScreenView,
    results: Seq<ToolResult>,
    i: int,
    row: int,
    bottom: int,
    width: int,
    scroll: int,
) -> ScreenView
    decreases results.len() - i,
{
    if i >= results.len() || i < 0 || row >= bottom {
        v
    } else {
        let (v1, next) = if results[i].collapsed {
            (collapsed_drawn(v, results[i], row, width), row + 1)
        } else {
            let (w, used) = expanded_drawn(v, results[i], row, width, bottom - row, scroll);
            (w, row + used)
        };
        let after = if i < results.len() - 1 && next < bottom { next + 1 } else { next };
        results_from(v1, results, i + 1, after, bottom, width, scroll)
    }
}

/// `a - b`, or 0 when `b > a`.
pub open spec fn sub_or_zero_spec(a: int, b: int) -> int {
    if a > b { a - b } else { 0 }
}

/// `a - b`, or 0 when `b > a`.
fn sub_or_zero(a: u16, b: u16) -> (r: u16)
    ensures
        r == (if a > b { a - b } else { 0 }),
{
    if a > b { a - b } else { 0 }
}

impl ToolOutputWidget {
    fn render_collapsed(result: &ToolResult, row: u16, screen: &mut Screen, width: u16)
        requires
            old(screen).wf(),
        ensures
            final(screen).wf(),
            final(screen)@.width == old(screen)@.width,
            final(screen)@.height == old(screen)@.height,
            same_outside_rows(old(screen)@, final(screen)@, row as int, row + 1),
            final(screen)@ == collapsed_drawn(old(screen)@, *result, row as int, width as int),
    {
        let (icon, color) = status_look(&result.status);
        let mut header = header_text(result, icon);
        if let ToolStatus::Success { duration_ms } = &result.status {
            string_push(&mut header, ' ');
            push_decimal(&mut header, *duration_ms);
            push_str(&mut header, "ms");
        }
        proof {
            assert(header@ =~= collapsed_header(*result));
        }
        let header_width = str_display_width(header.as_str());
        screen.write_str(row, 0, header.as_str(), color, Color::Default, Style::bold());
        let ghost s1 = screen@;
        if !result.content.as_str().is_empty() {
            let limit = sub_or_zero(width, 20) as usize;
            let wanted: usize = if header_width < 0xFFFF { header_width + 2 } else { 0x10001 };
            let preview_col: usize = if wanted < limit { wanted } else { limit };
            let available: usize = if (width as usize) > preview_col { width as usize - preview_col } else { 0 };
            if available > 10 {
                let cs = chars_of(result.content.as_str());
                let lines = lines_of(&cs);
                let first = if lines.len() > 0 { string_of(&lines[0]) } else { String::new() };
                proof {
                    assert(first@ =~= first_line(result.content@));
                }
                let preview = if str_display_width(first.as_str()) > available - 3 {
                    let keep = truncate_str_width(first.as_str(), available - 3);
                    let mut p = String::new();
                    push_str(&mut p, keep);
                    string_push(&mut p, '…');
                    p
                } else {
                    first
                };
                proof {
                    let m = available - 3;
                    let f = first_line(result.content@);
                    assert(preview@ == (if str_width(f) > m { f.take(width_prefix_len(f, m as int) as int) + seq!['…'] } else { f }));
                    assert(preview_col as int == {
                        let hw = str_width(collapsed_header(*result)) as int;
                        let limit = if width > 20 { width - 20 } else { 0 };
                        let wanted = if hw < 0xFFFF { hw + 2 } else { 0x10001 };
                        if wanted < limit { wanted } else { limit }
                    });
                }
                screen.write_str(row, preview_col as u16, preview.as_str(), Color::Ansi(244), Color::Default, Style::dim());
                proof {
                    lemma_same_rows_step(old(screen)@, s1, screen@, row as int, row + 1, row as int, row + 1);
                }
            }
        }
        proof {
            assert(screen@ == collapsed_preview(s1, *result, row as int, width as int));
        }
        let ghost s3 = screen@;
        screen.write_str(row, sub_or_zero(width, 3), " ▶", Color::Ansi(240), Color::Default, Style::dim());
        proof {
            lemma_same_rows_step(old(screen)@, s3, screen@, row as int, row + 1, row as int, row + 1);
        }
    }

    fn render_expanded(&self, result: &ToolResult, row: u16, screen: &mut Screen, width: u16, max_rows: u16) -> (used: u16)
        requires
            old(screen).wf(),
            row + max_rows <= u16::MAX,
            max_rows >= 1,
        ensures
            final(screen).wf(),
            final(screen)@.width == old(screen)@.width,
            final(screen)@.height == old(screen)@.height,
            used <= max_rows,
            same_outside_rows(old(screen)@, final(screen)@, row as int, row + max_rows),
            (final(screen)@, used as int) == expanded_drawn(
                old(screen)@, *result, row as int, width as int, max_rows as int, self.scroll_offset as int,
            ),
    {
        let (icon, color) = status_look(&result.status);
        let header = header_text(result, icon);
        screen.write_str(row, 0, header.as_str(), color, Color::Default, Style::bold());
        proof {
            lemma_same_rows_step(old(screen)@, old(screen)@, screen@, row as int, row + 1, row as int, row + max_rows);
        }
        let ghost s0 = screen@;
        screen.write_str(row, sub_or_zero(width, 3), " ▼", Color::Ansi(240), Color::Default, Style::dim());
        proof {
            lemma_same_rows_step(old(screen)@, s0, screen@, row as int, row + 1, row as int, row + max_rows);
        }
        let ghost v2 = screen@;
        let content_color = if result.is_error { Color::Ansi(1) } else { Color::Ansi(252) };
        let content_bg = if result.is_error { Color::Ansi(52) } else { Color::Default };
        let cs = chars_of(result.content.as_str());
        let lines = lines_of(&cs);
        let ghost ls = text_lines(result.content@);
        let ghost scroll = self.scroll_offset as int;
        let end: u32 = row as u32 + max_rows as u32;
        let mut current: u32 = row as u32 + 1;
        let mut i: usize = 0;
        proof {
            assert(ls.len() == lines@.len());
        }
        while i < lines.len()
            invariant
                screen.wf(),
                screen@.width == old(screen)@.width,
                screen@.height == old(screen)@.height,
                end == row + max_rows,
                end <= u16::MAX,
                row + 1 <= current <= end,
                same_outside_rows(old(screen)@, screen@, row as int, row + max_rows),
                vv(lines@) == ls,
                ls == text_lines(result.content@),
                scroll == self.scroll_offset,
                content_color == (if result.is_error { Color::Ansi(1) } else { Color::Ansi(252) }),
                content_bg == (if result.is_error { Color::Ansi(52) } else { Color::Default }),
                expanded_lines_from(screen@, ls, i as int, current as int, end as int, scroll, width as int, result.is_error)
                    == expanded_lines_from(v2, ls, 0, row + 1, end as int, scroll, width as int, result.is_error),
                ls.len() == lines@.len(),
            ensures
                i >= lines@.len() || (i >= self.scroll_offset && current >= end),
                row + 1 <= current <= end,
                same_outside_rows(old(screen)@, screen@, row as int, row + max_rows),
                screen.wf(),
                screen@.width == old(screen)@.width,
                screen@.height == old(screen)@.height,
                expanded_lines_from(screen@, ls, i as int, current as int, end as int, scroll, width as int, result.is_error)
                    == expanded_lines_from(v2, ls, 0, row + 1, end as int, scroll, width as int, result.is_error),
            decreases lines@.len() - i,
        {
            if i < self.scroll_offset {
                i += 1;
                continue;
            }
            if current >= end {
                break;
            }
            let ghost s1 = screen@;
            screen.write_str(current as u16, 0, "  │", Color::Ansi(240), content_bg, Style::new());
            proof {
                lemma_same_rows_step(old(screen)@, s1, screen@, current as int, current + 1, row as int, row + max_rows);
            }
            let available: usize = if width >= 4 { (width - 4) as usize } else { 0 };
            let line = string_of(&lines[i]);
            let display = fit_line(line.as_str(), available);
            let ghost s2 = screen@;
            screen.write_str(current as u16, 3, display.as_str(), content_color, content_bg, Style::new());
            proof {
                lemma_same_rows_step(old(screen)@, s2, screen@, current as int, current + 1, row as int, row + max_rows);
            }
            let ghost w2 = screen@;
            if result.is_error {
                let dlen = display.as_str().as_bytes().len();
                if dlen < 0xFFFF {
                    let mut c: usize = 3 + dlen;
                    while c < width as usize
                        invariant
                            screen.wf(),
                            screen@.width == old(screen)@.width,
                            screen@.height == old(screen)@.height,
                            current < end,
                            end <= u16::MAX,
                            end == row + max_rows,
                            row + 1 <= current,
                            same_outside_rows(old(screen)@, screen@, row as int, row + max_rows),
                            recolored_from(screen@, current as int, c as int, width as int, content_bg)
                                == recolored_from(w2, current as int, 3 + dlen, width as int, content_bg),
                        decreases width as usize - c,
                    {
                        let found = match screen.get(current as u16, c as u16) {
                            Some(x) => Some(*x),
                            None => None,
                        };
                        if let Some(cell) = found {
                            let mut cell = cell;
                            cell.bg = content_bg;
                            let ghost s3 = screen@;
                            screen.set_cell(current as u16, c as u16, cell);
                            proof {
                                lemma_same_rows_step(old(screen)@, s3, screen@, current as int, current + 1, row as int, row + max_rows);
                            }
                        }
                        c += 1;
                    }
                }
            }
            current += 1;
            i += 1;
        }
        let ghost v3 = screen@;
        let ghost c3 = current as int;
        proof {
            assert(expanded_lines_from(v3, ls, i as int, c3, end as int, scroll, width as int, result.is_error) == (v3, c3));
            assert(v2 == write_run(
                write_run(old(screen)@, row as int, 0, 0, result_header(result@, status_icon(result.status).0),
                    status_icon(result.status).1, Color::Default, Style { bold: true, ..plain_style() }),
                row as int, sub_or_zero_spec(width as int, 3), sub_or_zero_spec(width as int, 3), " ▼"@, Color::Ansi(240),
                Color::Default, Style { dim: true, ..plain_style() }));
        }
        if current < end {
            let ghost s4 = screen@;
            screen.write_str(current as u16, 0, "  └", Color::Ansi(240), Color::Default, Style::new());
            proof {
                lemma_same_rows_step(old(screen)@, s4, screen@, current as int, current + 1, row as int, row + max_rows);
            }
            let ghost s5 = screen@;
            screen.hline(current as u16, 3, sub_or_zero(width, 4), '─', Color::Ansi(240), Color::Default);
            proof {
                lemma_same_rows_step(old(screen)@, s5, screen@, current as int, current + 1, row as int, row + max_rows);
                lemma_fill_box(s5, screen@, current as int, current + 1, 3, sub_or_zero_spec(width as int, 4) + 1,
                    Cell { char: '─', fg: Color::Ansi(240), bg: Color::Default, style: plain_style(), wide: false });
            }
            current += 1;
        }
        (current - row as u32) as u16
    }
}

impl Widget for ToolOutputWidget {
    open spec fn inv(&self) -> bool {
        true
    }

    /// Draw the results from the top of the area, each collapsed one as a
    /// header row and each expanded one with its output lines, one blank row
    /// between results. Nothing outside the area's rows changes.
    fn render(&mut self, area: Rect, screen: &mut Screen)
        ensures
            same_outside_rows(old(screen)@, final(screen)@, area.y as int, area.y + area.height),
            final(self)@ == old(self)@,
            area.width == 0 || area.height == 0 || old(self)@.results.len() == 0 ==> final(screen)@ == old(screen)@,
            !(area.width == 0 || area.height == 0 || old(self)@.results.len() == 0) ==> final(screen)@ == results_from(
                fill_box(old(screen)@, area.y as int, area.y + area.height, area.x as int, area.x + area.width, blank_cell()),
                old(self)@.results, 0, area.y as int, area.y + area.height, area.width as int, old(self)@.scroll_offset as int,
            ),
    {
        proof {
            lemma_same_rows_refl(screen@, area.y as int, area.y + area.height);
        }
        if area.is_empty() || self.results.len() == 0 {
            return;
        }
        screen.fill_rect(area, Cell::blank());
        proof {
            lemma_fill_box(old(screen)@, screen@, area.y as int, area.y + area.height, area.x as int, area.x + area.width, blank_cell());
        }
        let ghost filled = screen@;
        let bottom: u16 = area.y + area.height;
        let mut row: u16 = area.y;
        let width = area.width;
        let n = self.results.len();
        let mut i: usize = 0;
        while i < n
            invariant
                screen.wf(),
                screen@.width == old(screen)@.width,
                screen@.height == old(screen)@.height,
                n == self.results@.len(),
                area.y <= row,
                bottom == area.y + area.height,
                bottom <= u16::MAX,
                same_outside_rows(old(screen)@, screen@, area.y as int, area.y + area.height),
                self@ == old(self)@,
                results_from(screen@, self@.results, i as int, row as int, bottom as int, width as int, self@.scroll_offset as int)
                    == results_from(filled, self@.results, 0, area.y as int, bottom as int, width as int, self@.scroll_offset as int),
            ensures
                i >= n || row >= bottom,
                results_from(screen@, self@.results, i as int, row as int, bottom as int, width as int, self@.scroll_offset as int)
                    == results_from(filled, self@.results, 0, area.y as int, bottom as int, width as int, self@.scroll_offset as int),
                same_outside_rows(old(screen)@, screen@, area.y as int, area.y + area.height),
                screen.wf(),
                screen@.width == old(screen)@.width,
                screen@.height == old(screen)@.height,
            decreases n - i,
        {
            if row >= bottom {
                break;
            }
            let ghost before = screen@;
            if self.results[i].collapsed {
                Self::render_collapsed(&self.results[i], row, screen, width);
                proof {
                    lemma_same_rows_step(old(screen)@, before, screen@, row as int, row + 1, area.y as int, area.y + area.height);
                }
                row = row + 1;
            } else {
                let remaining = bottom - row;
                let used = self.render_expanded(&self.results[i], row, screen, width, remaining);
                proof {
                    lemma_same_rows_step(old(screen)@, before, screen@, row as int, row + remaining, area.y as int, area.y + area.height);
                }
                row = row + used;
            }
            if i < n - 1 && row < bottom {
                row = row + 1;
            }
            i += 1;
        }
    }

    fn handle_event(&mut self, event: &Event) -> (r: Action)
        ensures
            final(self)@ == tool_event(old(self)@, *event),
            r@ == ActionView::NoOp,
    {
        match event {
            Event::Key(k) => {
                if k.key == Key::Enter && !k.modifiers.ctrl && !k.modifiers.alt && !k.modifiers.shift {
                    match self.selected {
                        Some(idx) => self.toggle(idx),
                        None => {
                            if self.results.len() > 0 {
                                self.toggle(0);
                            }
                        },
                    }
                } else if k.key == Key::Up && k.modifiers.alt {
                    match self.selected {
                        Some(idx) => {
                            if idx > 0 {
                                self.selected = Some(idx - 1);
                            }
                        },
                        None => {
                            if self.results.len() > 0 {
                                self.selected = Some(self.results.len() - 1);
                            }
                        },
                    }
                } else if k.key == Key::Down && k.modifiers.alt {
                    match self.selected {
                        Some(idx) => {
                            if idx < self.results.len() && idx + 1 < self.results.len() {
                                self.selected = Some(idx + 1);
                            }
                        },
                        None => {
                            if self.results.len() > 0 {
                                self.selected = Some(0);
                            }
                        },
                    }
                }
                Action::NoOp
            },
            Event::Mouse(MouseEvent::Press { row, col, button }) => {
                let target = *row as usize;
                proof {
                    assert(tool_event(old(self)@, *event) == (match click_hit(old(self)@.results, 0, 0, *row as int) {
                        Some(i) => ToolOutputState { selected: Some(i), ..toggle_state(old(self)@, i as int) },
                        None => old(self)@,
                    }));
                }
                let n = self.results.len();
                let mut current: usize = 0;
                let mut i: usize = 0;
                while i < n
                    invariant
                        n == self.results@.len(),
                        self@ == old(self)@,
                        current <= 0x30000,
                        target == *row,
                        tool_event(old(self)@, *event) == (match click_hit(old(self)@.results, 0, 0, target as int) {
                            Some(j) => ToolOutputState { selected: Some(j), ..toggle_state(old(self)@, j as int) },
                            None => old(self)@,
                        }),
                        click_hit(self@.results, 0, 0, target as int)
                            == click_hit(self@.results, i as int, current as int, target as int),
                    decreases n - i,
                {
                    if target == current {
                        proof {
                            assert(click_hit(self@.results, i as int, current as int, target as int) == Some(i as nat));
                        }
                        self.toggle(i);
                        self.selected = Some(i);
                        return Action::NoOp;
                    }
                    if current > target {
                        proof {
                            lemma_click_past(self@.results, i as int, current as int, target as int);
                        }
                        return Action::NoOp;
                    }
                    let step: usize = if self.results[i].collapsed {
                        1
                    } else {
                        line_count(&self.results[i].content) % 65536 + 2
                    };
                    current = current + step + 1;
                    i += 1;
                }
                Action::NoOp
            },
            _ => Action::NoOp,
        }
    }
}

/// Toggling a result twice leaves the list of results as it was.
pub proof fn lemma_toggle_twice(s: ToolOutputState, i: int)
    ensures
        toggle_state(toggle_state(s, i), i).results == s.results,
{
    if 0 <= i < s.results.len() {
        let t = toggle_state(toggle_state(s, i), i);
        assert(t.results =~= s.results);
    }
}

/// Toggling an existing result flips its collapsed flag and changes no other result.
pub proof fn lemma_toggle_flips(s: ToolOutputState, i: int)
    requires
        0 <= i < s.results.len(),
    ensures
        toggle_state(s, i).results[i].collapsed == !s.results[i].collapsed,
        forall|j: int| 0 <= j < s.results.len() && j != i ==> toggle_state(s, i).results[j] == s.results[j],
{
}

} // verus!
