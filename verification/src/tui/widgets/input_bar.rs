//! The input bar: multi-line text entry with a cursor, history, an
//! emacs-style kill ring, tab completion of slash commands, and the
//! confirmation and question prompts.
//!
//! The text is held as characters and the cursor is a character index.

use vstd::prelude::*;
use crate::text::{
    find_line_end, lemma_line_end, line_end, lines_of, text_lines, vv,
    chars_of, concat_chars, copy_chars, is_white, is_whitespace, lower_chars, lowercase,
    skip_ws_forward, slice_chars, starts_with, string_of, trim, trim_chars, trim_start,
};
use crate::text::decimal;
use crate::tui::cell::{plain_style, Cell, Color, Style};
use crate::tui::event::{Event, Key, KeyEvent, Modifiers};
use crate::tui::layout::Rect;
use crate::tui::screen::{
    cell_at, fill_box, in_bounds, lemma_fill_box, lemma_same_rows_refl, lemma_same_rows_step, put, recolored_from,
    same_outside_rows, write_run, Screen, ScreenView,
};
use crate::tui::widget::{Action, ActionView, Widget};
use crate::tui::widget::styles;

verus! {

// ── The model ────────────────────────────────────────────────────────────────

/// The mathematical state of an input bar.
pub struct InputBarState {
    pub content: Seq<char>,
    pub cursor: nat,
    pub scroll_offset: nat,
    pub history: Seq<Seq<char>>,
    pub history_index: Option<nat>,
    pub mode_label: Seq<char>,
    pub mode_color: Color,
    pub model_name: Seq<char>,
    pub focused: bool,
    pub tab_index: Option<nat>,
    pub tab_prefix: Seq<char>,
    pub tab_subcommand: bool,
    pub confirming: bool,
    pub questioning: bool,
    pub answer_count: nat,
    pub kill_ring: Seq<char>,
    pub commands: Seq<Seq<char>>,
    pub subcommands: Seq<(Seq<char>, Seq<Seq<char>>)>,
}

/// Whether no two entries of a completion table name the same command (the
/// table is a map from command to completions).
pub open spec fn distinct_commands(subs: Seq<(Seq<char>, Seq<Seq<char>>)>) -> bool {
    forall|i: int, j: int| 0 <= i < j < subs.len() ==> #[trigger] subs[i].0 != #[trigger] subs[j].0
}

/// The invariant of an input bar state: the cursor lies within the text, a
/// history position names an entry, and the completion table names each
/// command once.
pub open spec fn state_inv(s: InputBarState) -> bool {
    &&& s.cursor <= s.content.len()
    &&& (s.history_index matches Some(i) ==> i < s.history.len())
    &&& distinct_commands(s.subcommands)
}

/// The label color of a mode: casual green, planning yellow, agent cyan,
/// research orange, anything else white.
pub open spec fn mode_color_of(label: Seq<char>) -> Color {
    if label == seq!['c', 'a', 's', 'u', 'a', 'l'] {
        Color::Ansi(2)
    } else if label == seq!['p', 'l', 'a', 'n', 'n', 'i', 'n', 'g'] {
        Color::Ansi(3)
    } else if label == seq!['a', 'g', 'e', 'n', 't'] {
        Color::Ansi(6)
    } else if label == seq!['r', 'e', 's', 'e', 'a', 'r', 'c', 'h'] {
        Color::Ansi(208)
    } else {
        Color::Ansi(7)
    }
}

/// Start of the line holding position `k`: just after the last newline before `k`.
pub open spec fn line_start(c: Seq<char>, k: int) -> int
    decreases k,
{
    if k <= 0 {
        0
    } else if c[k - 1] == '\n' {
        k
    } else {
        line_start(c, k - 1)
    }
}

/// `k` moved back over blanks (whitespace other than newline).
pub open spec fn trim_back(c: Seq<char>, k: int) -> int
    decreases k,
{
    if k <= 0 {
        0
    } else if is_white(c[k - 1]) && c[k - 1] != '\n' {
        trim_back(c, k - 1)
    } else {
        k
    }
}

/// Just after the last whitespace character before `k`, or 0.
pub open spec fn after_sep(c: Seq<char>, k: int) -> int
    decreases k,
{
    if k <= 0 {
        0
    } else if is_white(c[k - 1]) {
        k
    } else {
        after_sep(c, k - 1)
    }
}

/// The start of the word before `k`: blanks just before `k` are skipped,
/// then the word runs back to the previous whitespace.
pub open spec fn word_start(c: Seq<char>, k: int) -> int {
    after_sep(c, trim_back(c, k))
}

/// The first whitespace character at or after `k`, or the end.
pub open spec fn next_ws(c: Seq<char>, k: int) -> int
    decreases c.len() - k,
{
    if k >= c.len() {
        c.len() as int
    } else if is_white(c[k]) {
        k
    } else {
        next_ws(c, k + 1)
    }
}

/// The first position at or after `k` that is not a blank.
pub open spec fn skip_blanks(c: Seq<char>, k: int) -> int
    decreases c.len() - k,
{
    if k >= c.len() {
        c.len() as int
    } else if is_white(c[k]) && c[k] != '\n' {
        skip_blanks(c, k + 1)
    } else {
        k
    }
}

/// The position after the word at `k` and the blanks that follow it.
pub open spec fn word_forward(c: Seq<char>, k: int) -> int {
    skip_blanks(c, next_ws(c, k))
}

/// The first space at or after `k`, or the end.
pub open spec fn first_space(c: Seq<char>, k: int) -> int
    decreases c.len() - k,
{
    if k >= c.len() {
        c.len() as int
    } else if c[k] == ' ' {
        k
    } else {
        first_space(c, k + 1)
    }
}

/// The text with `t` inserted at `k`.
pub open spec fn insert_at(c: Seq<char>, k: int, t: Seq<char>) -> Seq<char> {
    c.take(k) + t + c.skip(k)
}

/// The text with `c[a..b]` removed.
pub open spec fn remove_range(c: Seq<char>, a: int, b: int) -> Seq<char> {
    c.take(a) + c.skip(b)
}

/// The completions listed for a command (the first entry with that name).
pub open spec fn lookup_subs(subs: Seq<(Seq<char>, Seq<Seq<char>>)>, cmd: Seq<char>) -> Seq<Seq<char>>
    decreases subs.len(),
{
    if subs.len() == 0 {
        Seq::empty()
    } else if subs[0].0 == cmd {
        subs[0].1
    } else {
        lookup_subs(subs.drop_first(), cmd)
    }
}

/// The names that start with `p`, in their order.
pub open spec fn prefix_matches(names: Seq<Seq<char>>, p: Seq<char>) -> Seq<Seq<char>>
    decreases names.len(),
{
    if names.len() == 0 {
        Seq::empty()
    } else {
        let m = prefix_matches(names.drop_last(), p);
        if p.is_prefix_of(names.last()) {
            m.push(names.last())
        } else {
            m
        }
    }
}

/// `line_start` lies between 0 and `k`, just after a newline (or at 0),
/// with no newline from it to `k`.
pub proof fn lemma_line_start(c: Seq<char>, k: int)
    requires
        0 <= k <= c.len(),
    ensures
        0 <= line_start(c, k) <= k,
        line_start(c, k) > 0 ==> c[line_start(c, k) - 1] == '\n',
        forall|j: int| line_start(c, k) <= j < k ==> c[j] != '\n',
    decreases k,
{
    if k > 0 && c[k - 1] != '\n' {
        lemma_line_start(c, k - 1);
    }
}

/// The answer given for an empty or dismissed question.
pub open spec fn skipped_answer() -> Seq<char> {
    seq!['S', 'k', 'i', 'p', 'p', 'e', 'd', ' ', '(', 'n', 'o', ' ', 'a', 'n', 's', 'w', 'e', 'r', ' ',
        'p', 'r', 'o', 'v', 'i', 'd', 'e', 'd', ')']
}

/// Tab-cycling state cleared.
pub open spec fn reset_tab(s: InputBarState) -> InputBarState {
    InputBarState { tab_index: None, tab_prefix: Seq::empty(), tab_subcommand: false, ..s }
}

/// The state after the text is taken: a non-empty text is appended to the
/// history; text, cursor, scroll and history position are reset.
pub open spec fn take_input_state(s: InputBarState) -> InputBarState {
    InputBarState {
        history: if s.content.len() > 0 { s.history.push(s.content) } else { s.history },
        content: Seq::empty(),
        cursor: 0,
        scroll_offset: 0,
        history_index: None,
        ..s
    }
}

/// Insert text at the cursor and move the cursor after it.
pub open spec fn insert_text(s: InputBarState, t: Seq<char>) -> InputBarState {
    InputBarState { content: insert_at(s.content, s.cursor as int, t), cursor: s.cursor + t.len(), ..s }
}

/// Delete `c[from..cursor]` into the kill ring (when not empty) and move the cursor to `from`.
pub open spec fn kill_before(s: InputBarState, from: int) -> InputBarState {
    let killed = s.content.subrange(from, s.cursor as int);
    InputBarState {
        kill_ring: if killed.len() > 0 { killed } else { s.kill_ring },
        content: remove_range(s.content, from, s.cursor as int),
        cursor: from as nat,
        ..s
    }
}

/// Delete `c[cursor..to]` into the kill ring (when not empty); the cursor stays.
pub open spec fn kill_after(s: InputBarState, to: int) -> InputBarState {
    let killed = s.content.subrange(s.cursor as int, to);
    InputBarState {
        kill_ring: if killed.len() > 0 { killed } else { s.kill_ring },
        content: remove_range(s.content, s.cursor as int, to),
        ..s
    }
}

/// Backspace: delete the character before the cursor.
pub open spec fn backspace(s: InputBarState) -> InputBarState {
    if s.cursor > 0 {
        InputBarState {
            content: s.content.remove(s.cursor - 1),
            cursor: (s.cursor - 1) as nat,
            ..s
        }
    } else {
        s
    }
}

/// Move the cursor.
pub open spec fn move_to(s: InputBarState, k: int) -> InputBarState {
    InputBarState { cursor: k as nat, ..s }
}

/// Show history entry `i`.
pub open spec fn show_history(s: InputBarState, i: nat) -> InputBarState {
    InputBarState {
        history_index: Some(i),
        content: s.history[i as int],
        cursor: s.history[i as int].len(),
        ..s
    }
}

/// Up arrow: step back in the history (from the end when not navigating).
pub open spec fn history_up(s: InputBarState) -> InputBarState {
    if s.history.len() == 0 {
        s
    } else {
        let idx = match s.history_index {
            Some(i) => i,
            None => s.history.len(),
        };
        if idx > 0 { show_history(s, (idx - 1) as nat) } else { s }
    }
}

/// Down arrow: step forward in the history; past the newest entry the text is cleared.
pub open spec fn history_down(s: InputBarState) -> InputBarState {
    match s.history_index {
        Some(i) => if i + 1 < s.history.len() {
            show_history(s, i + 1)
        } else {
            InputBarState { history_index: None, content: Seq::empty(), cursor: 0, ..s }
        },
        None => s,
    }
}

/// Tab completion of a slash command or of a command's argument; the
/// boolean tells whether a completion was applied.
pub open spec fn tab_complete(s: InputBarState) -> (InputBarState, bool) {
    let c = s.content;
    if !seq!['/'].is_prefix_of(c) {
        (s, false)
    } else {
        let sp = first_space(c, 0);
        if sp < c.len() {
            let cmd = lowercase(c.take(sp));
            let arg = lowercase(trim_start(c.skip(sp + 1)));
            let subs = lookup_subs(s.subcommands, cmd);
            if subs.len() == 0 {
                (s, false)
            } else {
                let s1 = if s.tab_index is None || s.tab_prefix != arg || !s.tab_subcommand {
                    InputBarState { tab_prefix: arg, tab_index: Some(0), tab_subcommand: true, ..s }
                } else {
                    s
                };
                let m = prefix_matches(subs, s1.tab_prefix);
                if m.len() == 0 {
                    (InputBarState { tab_index: None, ..s1 }, false)
                } else {
                    let idx = s1.tab_index.unwrap() % m.len();
                    let text = cmd + seq![' '] + m[idx as int];
                    (InputBarState { content: text, cursor: text.len(), tab_index: Some(idx + 1), ..s1 }, true)
                }
            }
        } else {
            let cur = lowercase(c);
            let s1 = if s.tab_index is None || s.tab_subcommand {
                InputBarState { tab_prefix: cur, tab_index: Some(0), tab_subcommand: false, ..s }
            } else {
                s
            };
            let m = prefix_matches(s.commands, s1.tab_prefix);
            if m.len() == 0 {
                (InputBarState { tab_index: None, ..s1 }, false)
            } else {
                let idx = s1.tab_index.unwrap() % m.len();
                let text = m[idx as int];
                (InputBarState { content: text, cursor: text.len(), tab_index: Some(idx + 1), ..s1 }, true)
            }
        }
    }
}

/// A Ctrl+key shortcut: c and d quit, a and e go to the start and end of
/// the line, u and k delete to them, w deletes the word before the cursor,
/// y inserts the kill ring.
pub open spec fn ctrl_key(s: InputBarState, ch: char) -> (InputBarState, ActionView) {
    let c = s.content;
    let k = s.cursor as int;
    if ch == 'c' || ch == 'd' {
        (s, ActionView::Quit)
    } else if ch == 'a' {
        (reset_tab(move_to(s, line_start(c, k))), ActionView::NoOp)
    } else if ch == 'e' {
        (reset_tab(move_to(s, line_end(c, k))), ActionView::NoOp)
    } else if ch == 'u' {
        (reset_tab(kill_before(s, line_start(c, k))), ActionView::NoOp)
    } else if ch == 'k' {
        (reset_tab(kill_after(s, line_end(c, k))), ActionView::NoOp)
    } else if ch == 'w' {
        (reset_tab(if k > 0 { kill_before(s, word_start(c, k)) } else { s }), ActionView::NoOp)
    } else if ch == 'y' {
        (reset_tab(if s.kill_ring.len() > 0 { insert_text(s, s.kill_ring) } else { s }), ActionView::NoOp)
    } else {
        (s, ActionView::NoOp)
    }
}

/// An Alt+key shortcut: b and f move by words, Backspace deletes the word
/// before the cursor.
pub open spec fn alt_key(s: InputBarState, ch: char) -> (InputBarState, ActionView) {
    let c = s.content;
    let k = s.cursor as int;
    if ch == 'b' {
        (reset_tab(if k > 0 { move_to(s, word_start(c, k)) } else { s }), ActionView::NoOp)
    } else if ch == 'f' {
        (reset_tab(if k < c.len() { move_to(s, word_forward(c, k)) } else { s }), ActionView::NoOp)
    } else if ch == '\x08' || ch == '\x7f' {
        (reset_tab(if k > 0 { kill_before(s, word_start(c, k)) } else { s }), ActionView::NoOp)
    } else {
        (s, ActionView::NoOp)
    }
}

/// A key in normal editing mode.
pub open spec fn normal_key(s: InputBarState, key: KeyEvent) -> (InputBarState, ActionView) {
    let c = s.content;
    let k = s.cursor as int;
    let m = key.modifiers;
    match key.key {
        Key::Enter => if m.shift {
            (reset_tab(insert_text(s, seq!['\n'])), ActionView::NoOp)
        } else {
            let a = if trim(c).len() == 0 { ActionView::NoOp } else { ActionView::SendMessage(c) };
            (reset_tab(take_input_state(s)), a)
        },
        Key::Backspace => (reset_tab(backspace(s)), ActionView::NoOp),
        Key::Delete => (
            reset_tab(if k < c.len() { InputBarState { content: c.remove(k), ..s } } else { s }),
            ActionView::NoOp,
        ),
        Key::Left => (
            reset_tab(if m.ctrl {
                if k > 0 { move_to(s, word_start(c, k)) } else { s }
            } else if k > 0 {
                move_to(s, k - 1)
            } else {
                s
            }),
            ActionView::NoOp,
        ),
        Key::Right => (
            reset_tab(if m.ctrl {
                if k < c.len() { move_to(s, word_forward(c, k)) } else { s }
            } else if k < c.len() {
                move_to(s, k + 1)
            } else {
                s
            }),
            ActionView::NoOp,
        ),
        Key::Home => (reset_tab(move_to(s, line_start(c, k))), ActionView::NoOp),
        Key::End => (reset_tab(move_to(s, line_end(c, k))), ActionView::NoOp),
        Key::Up => if !m.alt && !m.ctrl {
            (reset_tab(history_up(s)), ActionView::NoOp)
        } else {
            (s, ActionView::NoOp)
        },
        Key::Down => if !m.alt && !m.ctrl {
            (reset_tab(history_down(s)), ActionView::NoOp)
        } else {
            (s, ActionView::NoOp)
        },
        Key::Tab => if !m.shift {
            if seq!['/'].is_prefix_of(c) {
                (tab_complete(s).0, ActionView::NoOp)
            } else {
                (s, ActionView::CycleFocusForward)
            }
        } else {
            (s, ActionView::NoOp)
        },
        Key::BackTab => (s, ActionView::CycleFocusBackward),
        Key::Char(ch) => if m.ctrl {
            ctrl_key(s, ch)
        } else if m.alt {
            alt_key(s, ch)
        } else {
            (reset_tab(insert_text(s, seq![ch])), ActionView::NoOp)
        },
        Key::Escape => if c.len() == 0 {
            (s, ActionView::Quit)
        } else {
            (reset_tab(InputBarState { content: Seq::empty(), cursor: 0, ..s }), ActionView::NoOp)
        },
        _ => (s, ActionView::NoOp),
    }
}

/// A key while a tool confirmation is pending: y, n and a (without Ctrl or
/// Alt) answer it, Escape denies; anything else is ignored.
pub open spec fn confirm_key(s: InputBarState, key: KeyEvent) -> (InputBarState, ActionView) {
    let plain = !key.modifiers.ctrl && !key.modifiers.alt;
    let done = InputBarState { confirming: false, ..s };
    match key.key {
        Key::Char(ch) => if plain && ch == 'y' {
            (done, ActionView::ConfirmYes)
        } else if plain && ch == 'n' {
            (done, ActionView::ConfirmNo)
        } else if plain && ch == 'a' {
            (done, ActionView::ConfirmAll)
        } else {
            (s, ActionView::NoOp)
        },
        Key::Escape => (done, ActionView::ConfirmNo),
        _ => (s, ActionView::NoOp),
    }
}

/// A key while a question is pending: Enter answers with the trimmed text
/// (or the skipped answer when it is blank), Escape skips, characters and
/// Backspace edit.
pub open spec fn question_key(s: InputBarState, key: KeyEvent) -> (InputBarState, ActionView) {
    let m = key.modifiers;
    match key.key {
        Key::Enter => if !m.shift {
            let t = trim(s.content);
            (
                InputBarState { questioning: false, ..take_input_state(s) },
                ActionView::AnswerQuestion(if t.len() == 0 { skipped_answer() } else { t }),
            )
        } else {
            (s, ActionView::NoOp)
        },
        Key::Escape => (InputBarState { questioning: false, ..s }, ActionView::AnswerQuestion(skipped_answer())),
        Key::Char(ch) => if !m.ctrl && !m.alt {
            (reset_tab(insert_text(s, seq![ch])), ActionView::NoOp)
        } else {
            (s, ActionView::NoOp)
        },
        Key::Backspace => (reset_tab(backspace(s)), ActionView::NoOp),
        _ => (s, ActionView::NoOp),
    }
}

/// The input bar's response to an event: the next state and the action.
pub open spec fn input_event(s: InputBarState, e: Event) -> (InputBarState, ActionView) {
    match e {
        Event::Paste(t) => if !s.confirming && !s.questioning {
            (reset_tab(insert_text(s, t@)), ActionView::NoOp)
        } else {
            (s, ActionView::NoOp)
        },
        Event::Key(key) => if s.confirming {
            confirm_key(s, key)
        } else if s.questioning {
            question_key(s, key)
        } else {
            normal_key(s, key)
        },
        _ => (s, ActionView::NoOp),
    }
}

// ── Scanning the text ────────────────────────────────────────────────────────

fn find_line_start(c: &[char], k: usize) -> (r: usize)
    requires
        k <= c@.len(),
    ensures
        r == line_start(c@, k as int),
{
    let mut j = k;
    while j > 0 && c[j - 1] != '\n'
        invariant
            j <= k <= c@.len(),
            line_start(c@, k as int) == line_start(c@, j as int),
        decreases j,
    {
        j -= 1;
    }
    j
}

fn find_word_start(c: &[char], k: usize) -> (r: usize)
    requires
        k <= c@.len(),
    ensures
        r == word_start(c@, k as int),
        r <= k,
{
    let mut j = k;
    while j > 0 && is_whitespace(c[j - 1]) && c[j - 1] != '\n'
        invariant
            j <= k <= c@.len(),
            trim_back(c@, k as int) == trim_back(c@, j as int),
        decreases j,
    {
        j -= 1;
    }
    let t = j;
    while j > 0 && !is_whitespace(c[j - 1])
        invariant
            j <= t <= k <= c@.len(),
            t == trim_back(c@, k as int),
            after_sep(c@, t as int) == after_sep(c@, j as int),
        decreases j,
    {
        j -= 1;
    }
    j
}

fn find_word_forward(c: &[char], k: usize) -> (r: usize)
    requires
        k <= c@.len(),
    ensures
        r == word_forward(c@, k as int),
        k <= r <= c@.len(),
{
    let mut j = k;
    while j < c.len() && !is_whitespace(c[j])
        invariant
            k <= j <= c@.len(),
            next_ws(c@, k as int) == next_ws(c@, j as int),
        decreases c@.len() - j,
    {
        j += 1;
    }
    let n = j;
    while j < c.len() && is_whitespace(c[j]) && c[j] != '\n'
        invariant
            k <= n <= j <= c@.len(),
            n == next_ws(c@, k as int),
            skip_blanks(c@, n as int) == skip_blanks(c@, j as int),
        decreases c@.len() - j,
    {
        j += 1;
    }
    j
}

pub(crate) fn find_first_space(c: &[char]) -> (r: usize)
    ensures
        r == first_space(c@, 0),
        r <= c@.len(),
{
    let mut j: usize = 0;
    while j < c.len() && c[j] != ' '
        invariant
            j <= c@.len(),
            first_space(c@, 0) == first_space(c@, j as int),
        decreases c@.len() - j,
    {
        j += 1;
    }
    j
}

/// `c[..a]`, then `t`, then `c[b..]`.
fn splice(c: &[char], a: usize, b: usize, t: &[char]) -> (r: Vec<char>)
    requires
        a <= b <= c@.len(),
    ensures
        r@ == c@.take(a as int) + t@ + c@.skip(b as int),
{
    let head = slice_chars(c, 0, a);
    let tail = slice_chars(c, b, c.len());
    let mid = concat_chars(&head, t);
    let r = concat_chars(&mid, &tail);
    proof {
        assert(c@.subrange(0, a as int) =~= c@.take(a as int));
        assert(c@.subrange(b as int, c@.len() as int) =~= c@.skip(b as int));
    }
    r
}

/// The character sequences of a list of strings.
pub open spec fn strs(v: Seq<String>) -> Seq<Seq<char>> {
    v.map_values(|x: String| x@)
}

/// The completion table as character sequences.
pub open spec fn subs_view(v: Seq<(String, Vec<String>)>) -> Seq<(Seq<char>, Seq<Seq<char>>)> {
    v.map_values(|p: (String, Vec<String>)| (p.0@, strs(p.1@)))
}

fn strings_to_chars(v: &Vec<String>) -> (r: Vec<Vec<char>>)
    ensures
        vv(r@) == strs(v@),
{
    let mut r: Vec<Vec<char>> = Vec::new();
    for i in 0..v.len()
        invariant
            vv(r@) == strs(v@.take(i as int)),
    {
        let cs = chars_of(v[i].as_str());
        let ghost prev = r@;
        r.push(cs);
        proof {
            assert(vv(prev.push(cs)) =~= vv(prev).push(cs@));
            assert(strs(v@.take(i + 1)) =~= strs(v@.take(i as int)).push(v@[i as int]@));
        }
    }
    proof {
        assert(v@.take(v@.len() as int) =~= v@);
    }
    r
}

fn table_to_chars(v: &Vec<(String, Vec<String>)>) -> (r: Vec<(Vec<char>, Vec<Vec<char>>)>)
    ensures
        r@.map_values(|p: (Vec<char>, Vec<Vec<char>>)| (p.0@, vv(p.1@))) == subs_view(v@),
{
    let mut r: Vec<(Vec<char>, Vec<Vec<char>>)> = Vec::new();
    for i in 0..v.len()
        invariant
            r@.map_values(|p: (Vec<char>, Vec<Vec<char>>)| (p.0@, vv(p.1@))) == subs_view(v@.take(i as int)),
    {
        let name = chars_of(v[i].0.as_str());
        let list = strings_to_chars(&v[i].1);
        let ghost prev = r@;
        r.push((name, list));
        proof {
            assert(prev.push((name, list)).map_values(|p: (Vec<char>, Vec<Vec<char>>)| (p.0@, vv(p.1@)))
                =~= prev.map_values(|p: (Vec<char>, Vec<Vec<char>>)| (p.0@, vv(p.1@))).push((name@, vv(list@))));
            assert(subs_view(v@.take(i + 1)) =~= subs_view(v@.take(i as int)).push((v@[i as int].0@, strs(v@[i as int].1@))));
        }
    }
    proof {
        assert(v@.take(v@.len() as int) =~= v@);
    }
    r
}

pub(crate) fn mode_color_for(label: &[char]) -> (c: Color)
    ensures
        c == mode_color_of(label@),
{
    if crate::text::chars_eq(label, &['c', 'a', 's', 'u', 'a', 'l']) {
        proof { assert(seq!['c', 'a', 's', 'u', 'a', 'l'] =~= ['c', 'a', 's', 'u', 'a', 'l']@); }
        styles::mode_casual_fg()
    } else if crate::text::chars_eq(label, &['p', 'l', 'a', 'n', 'n', 'i', 'n', 'g']) {
        proof {
            assert(seq!['c', 'a', 's', 'u', 'a', 'l'] != label@) by {
                if seq!['c', 'a', 's', 'u', 'a', 'l'] == label@ {
                    assert(['c', 'a', 's', 'u', 'a', 'l']@ =~= label@);
                }
            }
            assert(seq!['p', 'l', 'a', 'n', 'n', 'i', 'n', 'g'] =~= ['p', 'l', 'a', 'n', 'n', 'i', 'n', 'g']@);
        }
        styles::mode_planning_fg()
    } else if crate::text::chars_eq(label, &['a', 'g', 'e', 'n', 't']) {
        proof {
            assert(seq!['c', 'a', 's', 'u', 'a', 'l'] != label@) by {
                if seq!['c', 'a', 's', 'u', 'a', 'l'] == label@ {
                    assert(['c', 'a', 's', 'u', 'a', 'l']@ =~= label@);
                }
            }
            assert(seq!['p', 'l', 'a', 'n', 'n', 'i', 'n', 'g'] != label@) by {
                if seq!['p', 'l', 'a', 'n', 'n', 'i', 'n', 'g'] == label@ {
                    assert(['p', 'l', 'a', 'n', 'n', 'i', 'n', 'g']@ =~= label@);
                }
            }
            assert(seq!['a', 'g', 'e', 'n', 't'] =~= ['a', 'g', 'e', 'n', 't']@);
        }
        styles::mode_agent_fg()
    } else if crate::text::chars_eq(label, &['r', 'e', 's', 'e', 'a', 'r', 'c', 'h']) {
        proof {
            assert(seq!['c', 'a', 's', 'u', 'a', 'l'] != label@) by {
                if seq!['c', 'a', 's', 'u', 'a', 'l'] == label@ {
                    assert(['c', 'a', 's', 'u', 'a', 'l']@ =~= label@);
                }
            }
            assert(seq!['p', 'l', 'a', 'n', 'n', 'i', 'n', 'g'] != label@) by {
                if seq!['p', 'l', 'a', 'n', 'n', 'i', 'n', 'g'] == label@ {
                    assert(['p', 'l', 'a', 'n', 'n', 'i', 'n', 'g']@ =~= label@);
                }
            }
            assert(seq!['a', 'g', 'e', 'n', 't'] != label@) by {
                if seq!['a', 'g', 'e', 'n', 't'] == label@ {
                    assert(['a', 'g', 'e', 'n', 't']@ =~= label@);
                }
            }
            assert(seq!['r', 'e', 's', 'e', 'a', 'r', 'c', 'h'] =~= ['r', 'e', 's', 'e', 'a', 'r', 'c', 'h']@);
        }
        styles::mode_research_fg()
    } else {
        proof {
            assert(seq!['c', 'a', 's', 'u', 'a', 'l'] != label@) by {
                if seq!['c', 'a', 's', 'u', 'a', 'l'] == label@ {
                    assert(['c', 'a', 's', 'u', 'a', 'l']@ =~= label@);
                }
            }
            assert(seq!['p', 'l', 'a', 'n', 'n', 'i', 'n', 'g'] != label@) by {
                if seq!['p', 'l', 'a', 'n', 'n', 'i', 'n', 'g'] == label@ {
                    assert(['p', 'l', 'a', 'n', 'n', 'i', 'n', 'g']@ =~= label@);
                }
            }
            assert(seq!['a', 'g', 'e', 'n', 't'] != label@) by {
                if seq!['a', 'g', 'e', 'n', 't'] == label@ {
                    assert(['a', 'g', 'e', 'n', 't']@ =~= label@);
                }
            }
            assert(seq!['r', 'e', 's', 'e', 'a', 'r', 'c', 'h'] != label@) by {
                if seq!['r', 'e', 's', 'e', 'a', 'r', 'c', 'h'] == label@ {
                    assert(['r', 'e', 's', 'e', 'a', 'r', 'c', 'h']@ =~= label@);
                }
            }
        }
        Color::Ansi(7)
    }
}

// ── The widget ───────────────────────────────────────────────────────────────

/// The input bar at the bottom of the screen.
///
/// Shows a `[mode] ` prompt and accepts multi-line text. Enter submits,
/// Shift+Enter inserts a newline, Tab completes slash commands. In
/// confirmation mode it shows `[y/n/a]? ` and accepts only those keys; in
/// question mode it takes a typed answer.
pub struct InputBarWidget {
    content: Vec<char>,
    cursor: usize,
    scroll_offset: usize,
    history: Vec<Vec<char>>,
    history_index: Option<usize>,
    mode_label: Vec<char>,
    mode_color: Color,
    model_name: Vec<char>,
    focused: bool,
    tab_cycle_index: Option<usize>,
    tab_cycle_prefix: Vec<char>,
    tab_cycle_subcommand: bool,
    confirming: bool,
    questioning: bool,
    question_answer_count: usize,
    kill_ring: Vec<char>,
    command_names: Vec<Vec<char>>,
    subcommands: Vec<(Vec<char>, Vec<Vec<char>>)>,
}

/// An optional index as a natural number.
pub open spec fn opt_nat(o: Option<usize>) -> Option<nat> {
    match o {
        Some(i) => Some(i as nat),
        None => None,
    }
}

impl View for InputBarWidget {
    type V = InputBarState;

    closed spec fn view(&self) -> InputBarState {
        InputBarState {
            content: self.content@,
            cursor: self.cursor as nat,
            scroll_offset: self.scroll_offset as nat,
            history: vv(self.history@),
            history_index: opt_nat(self.history_index),
            mode_label: self.mode_label@,
            mode_color: self.mode_color,
            model_name: self.model_name@,
            focused: self.focused,
            tab_index: opt_nat(self.tab_cycle_index),
            tab_prefix: self.tab_cycle_prefix@,
            tab_subcommand: self.tab_cycle_subcommand,
            confirming: self.confirming,
            questioning: self.questioning,
            answer_count: self.question_answer_count as nat,
            kill_ring: self.kill_ring@,
            commands: vv(self.command_names@),
            subcommands: self.subcommands@.map_values(|p: (Vec<char>, Vec<Vec<char>>)| (p.0@, vv(p.1@))),
        }
    }
}

/// The state of a new input bar.
pub open spec fn initial_state(
    mode_label: Seq<char>,
    model_name: Seq<char>,
    commands: Seq<Seq<char>>,
    subcommands: Seq<(Seq<char>, Seq<Seq<char>>)>,
) -> InputBarState {
    InputBarState {
        content: Seq::empty(),
        cursor: 0,
        scroll_offset: 0,
        history: Seq::empty(),
        history_index: None,
        mode_label,
        mode_color: mode_color_of(mode_label),
        model_name,
        focused: true,
        tab_index: None,
        tab_prefix: Seq::empty(),
        tab_subcommand: false,
        confirming: false,
        questioning: false,
        answer_count: 0,
        kill_ring: Seq::empty(),
        commands,
        subcommands,
    }
}

impl InputBarWidget {
    /// An input bar with the given mode and model labels and no command completions.
    pub fn new(mode_label: &str, model_name: &str) -> (r: Self)
        ensures
            r@ == initial_state(mode_label@, model_name@, Seq::empty(), Seq::empty()),
            state_inv(r@),
    {
        proof {
            assert(subs_view(Seq::<(String, Vec<String>)>::empty()) =~= Seq::empty());
        }
        let r = Self::with_commands(mode_label, model_name, Vec::new(), Vec::new());
        proof {
            assert(strs(Seq::<String>::empty()) =~= Seq::empty());
            assert(subs_view(Seq::<(String, Vec<String>)>::empty()) =~= Seq::empty());
        }
        r
    }

    /// An input bar with command names and the completions of each command's
    /// argument, for tab completion.
    pub fn with_commands(
        mode_label: &str,
        model_name: &str,
        command_names: Vec<String>,
        subcommands: Vec<(String, Vec<String>)>,
    ) -> (r: Self)
        requires
            distinct_commands(subs_view(subcommands@)),
        ensures
            r@ == initial_state(mode_label@, model_name@, strs(command_names@), subs_view(subcommands@)),
            state_inv(r@),
    {
        let label = chars_of(mode_label);
        let mode_color = mode_color_for(&label);
        let names = strings_to_chars(&command_names);
        let subs = table_to_chars(&subcommands);
        let r = InputBarWidget {
            content: Vec::new(),
            cursor: 0,
            scroll_offset: 0,
            history: Vec::new(),
            history_index: None,
            mode_label: label,
            mode_color,
            model_name: chars_of(model_name),
            focused: true,
            tab_cycle_index: None,
            tab_cycle_prefix: Vec::new(),
            tab_cycle_subcommand: false,
            confirming: false,
            questioning: false,
            question_answer_count: 0,
            kill_ring: Vec::new(),
            command_names: names,
            subcommands: subs,
        };
        proof {
            assert(vv(Seq::<Vec<char>>::empty()) =~= Seq::empty());
        }
        r
    }

    /// The current text.
    pub fn content(&self) -> (r: String)
        ensures
            r@ == self@.content,
    {
        string_of(&self.content)
    }

    /// The cursor position, as a character index into the text.
    pub fn cursor(&self) -> (r: usize)
        ensures
            r == self@.cursor,
    {
        self.cursor
    }

    /// Move the cursor to character position `pos`, or to the end of the
    /// text when `pos` is past it.
    pub fn set_cursor(&mut self, pos: usize)
        requires
            state_inv(old(self)@),
        ensures
            state_inv(final(self)@),
            final(self)@ == move_to(old(self)@, if pos <= old(self)@.content.len() { pos as int } else { old(self)@.content.len() as int }),
    {
        if pos <= self.content.len() {
            self.cursor = pos;
        } else {
            self.cursor = self.content.len();
        }
    }

    /// The text last deleted by Ctrl+K, Ctrl+U, Ctrl+W or Alt+Backspace.
    pub fn kill_ring(&self) -> (r: String)
        ensures
            r@ == self@.kill_ring,
    {
        string_of(&self.kill_ring)
    }

    /// The submitted texts, oldest first.
    pub fn history(&self) -> (r: Vec<String>)
        ensures
            strs(r@) == self@.history,
    {
        let mut r: Vec<String> = Vec::new();
        for i in 0..self.history.len()
            invariant
                strs(r@) == vv(self.history@.take(i as int)),
        {
            let s = string_of(&self.history[i]);
            let ghost prev = r@;
            r.push(s);
            proof {
                assert(strs(prev.push(s)) =~= strs(prev).push(s@));
                assert(vv(self.history@.take(i + 1)) =~= vv(self.history@.take(i as int)).push(self.history@[i as int]@));
            }
        }
        proof {
            assert(self.history@.take(self.history@.len() as int) =~= self.history@);
        }
        r
    }

    fn reset_tab_cycle(&mut self)
        ensures
            final(self)@ == reset_tab(old(self)@),
    {
        self.tab_cycle_index = None;
        self.tab_cycle_prefix = Vec::new();
        self.tab_cycle_subcommand = false;
    }

    /// Take the current text, clearing the input; a non-empty text is added
    /// to the history.
    pub fn take_input(&mut self) -> (r: String)
        requires
            state_inv(old(self)@),
        ensures
            r@ == old(self)@.content,
            final(self)@ == take_input_state(old(self)@),
            state_inv(final(self)@),
    {
        let text = string_of(&self.content);
        if self.content.len() > 0 {
            let entry = copy_chars(&self.content);
            let ghost prev = self.history@;
            self.history.push(entry);
            proof {
                assert(vv(prev.push(entry)) =~= vv(prev).push(entry@));
            }
        }
        self.content = Vec::new();
        self.cursor = 0;
        self.scroll_offset = 0;
        self.history_index = None;
        proof {
            assert(self@.content =~= Seq::<char>::empty());
        }
        text
    }

    /// Replace the text and put the cursor at its end.
    pub fn set_input(&mut self, text: &str)
        requires
            state_inv(old(self)@),
        ensures
            final(self)@ == (InputBarState { content: text@, cursor: text@.len(), ..old(self)@ }),
            state_inv(final(self)@),
    {
        self.content = chars_of(text);
        self.cursor = self.content.len();
    }

    /// Replace the mode label (and its color) and the model name.
    pub fn update_labels(&mut self, mode_label: &str, model_name: &str)
        ensures
            final(self)@ == (InputBarState {
                mode_label: mode_label@,
                mode_color: mode_color_of(mode_label@),
                model_name: model_name@,
                ..old(self)@
            }),
    {
        self.mode_label = chars_of(mode_label);
        self.mode_color = mode_color_for(&self.mode_label);
        self.model_name = chars_of(model_name);
    }

    /// Replace the command names and the argument completions.
    pub fn set_command_completions(&mut self, command_names: Vec<String>, subcommands: Vec<(String, Vec<String>)>)
        requires
            distinct_commands(subs_view(subcommands@)),
        ensures
            final(self)@ == (InputBarState {
                commands: strs(command_names@),
                subcommands: subs_view(subcommands@),
                ..old(self)@
            }),
    {
        self.command_names = strings_to_chars(&command_names);
        self.subcommands = table_to_chars(&subcommands);
    }

    /// Whether the text starts with a slash.
    pub fn is_command_input(&self) -> (r: bool)
        ensures
            r == seq!['/'].is_prefix_of(self@.content),
    {
        let r = self.content.len() > 0 && self.content[0] == '/';
        proof {
            if self.content@.len() > 0 {
                if self.content@[0] == '/' {
                    assert(seq!['/'] =~= self.content@.subrange(0, 1));
                } else {
                    assert(seq!['/'][0] != self.content@.subrange(0, 1)[0]);
                }
            }
        }
        r
    }

    /// Enter or leave confirmation mode; entering it clears the text.
    pub fn set_confirming(&mut self, confirming: bool)
        requires
            state_inv(old(self)@),
        ensures
            final(self)@ == (if confirming {
                InputBarState { confirming, content: Seq::empty(), cursor: 0, ..old(self)@ }
            } else {
                InputBarState { confirming, ..old(self)@ }
            }),
            state_inv(final(self)@),
    {
        self.confirming = confirming;
        if confirming {
            self.content = Vec::new();
            self.cursor = 0;
            proof {
                assert(self@.content =~= Seq::<char>::empty());
            }
        }
    }

    /// Whether a tool confirmation is pending.
    pub fn is_confirming(&self) -> (r: bool)
        ensures
            r == self@.confirming,
    {
        self.confirming
    }

    /// Enter or leave question mode with the number of predefined answers;
    /// entering it clears the text.
    pub fn set_questioning(&mut self, questioning: bool, answer_count: usize)
        requires
            state_inv(old(self)@),
        ensures
            final(self)@ == (if questioning {
                InputBarState { questioning, answer_count: answer_count as nat, content: Seq::empty(), cursor: 0, ..old(self)@ }
            } else {
                InputBarState { questioning, answer_count: answer_count as nat, ..old(self)@ }
            }),
            state_inv(final(self)@),
    {
        self.questioning = questioning;
        self.question_answer_count = answer_count;
        if questioning {
            self.content = Vec::new();
            self.cursor = 0;
            proof {
                assert(self@.content =~= Seq::<char>::empty());
            }
        }
    }

    /// Whether a question is pending.
    pub fn is_questioning(&self) -> (r: bool)
        ensures
            r == self@.questioning,
    {
        self.questioning
    }
}

// ── Editing ──────────────────────────────────────────────────────────────────

pub(crate) fn matches_with_prefix(names: &Vec<Vec<char>>, p: &[char]) -> (m: Vec<Vec<char>>)
    ensures
        vv(m@) == prefix_matches(vv(names@), p@),
{
    let mut m: Vec<Vec<char>> = Vec::new();
    proof {
        assert(vv(names@.take(0)) =~= Seq::<Seq<char>>::empty());
    }
    for i in 0..names.len()
        invariant
            vv(m@) == prefix_matches(vv(names@.take(i as int)), p@),
    {
        proof {
            assert(vv(names@.take(i + 1)).drop_last() =~= vv(names@.take(i as int)));
            assert(vv(names@.take(i + 1)).last() == names@[i as int]@);
        }
        if starts_with(&names[i], p) {
            let entry = copy_chars(&names[i]);
            let ghost prev = m@;
            m.push(entry);
            proof {
                assert(vv(prev.push(entry)) =~= vv(prev).push(entry@));
            }
        }
    }
    proof {
        assert(names@.take(names@.len() as int) =~= names@);
    }
    m
}

fn find_subcommands(table: &Vec<(Vec<char>, Vec<Vec<char>>)>, cmd: &[char]) -> (r: Option<usize>)
    ensures
        match r {
            Some(i) => i < table@.len()
                && lookup_subs(table@.map_values(|p: (Vec<char>, Vec<Vec<char>>)| (p.0@, vv(p.1@))), cmd@)
                    == vv(table@[i as int].1@),
            None => lookup_subs(table@.map_values(|p: (Vec<char>, Vec<Vec<char>>)| (p.0@, vv(p.1@))), cmd@)
                == Seq::<Seq<char>>::empty(),
        },
{
    let ghost tv = table@.map_values(|p: (Vec<char>, Vec<Vec<char>>)| (p.0@, vv(p.1@)));
    let mut i: usize = 0;
    proof {
        assert(tv.skip(0) =~= tv);
    }
    while i < table.len()
        invariant
            i <= table@.len(),
            tv == table@.map_values(|p: (Vec<char>, Vec<Vec<char>>)| (p.0@, vv(p.1@))),
            lookup_subs(tv, cmd@) == lookup_subs(tv.skip(i as int), cmd@),
        decreases table@.len() - i,
    {
        proof {
            assert(tv.skip(i as int)[0] == tv[i as int]);
            assert(tv.skip(i as int).drop_first() =~= tv.skip(i + 1));
        }
        if crate::text::chars_eq(&table[i].0, cmd) {
            return Some(i);
        }
        i += 1;
    }
    proof {
        assert(tv.skip(i as int).len() == 0);
    }
    None
}

impl InputBarWidget {
    fn insert_at_cursor(&mut self, t: &[char])
        requires
            state_inv(old(self)@),
        ensures
            final(self)@ == insert_text(old(self)@, t@),
            state_inv(final(self)@),
    {
        let c = splice(&self.content, self.cursor, self.cursor, t);
        let n = c.len();
        proof {
            assert(c@.len() == self.content@.len() + t@.len());
        }
        self.content = c;
        self.cursor = self.cursor + t.len();
    }

    fn kill_before_cursor(&mut self, from: usize)
        requires
            state_inv(old(self)@),
            from <= old(self)@.cursor,
        ensures
            final(self)@ == kill_before(old(self)@, from as int),
            state_inv(final(self)@),
    {
        let killed = slice_chars(&self.content, from, self.cursor);
        if killed.len() > 0 {
            self.kill_ring = killed;
        }
        self.content = splice(&self.content, from, self.cursor, &[]);
        self.cursor = from;
        proof {
            assert(self@.content =~= remove_range(old(self)@.content, from as int, old(self)@.cursor as int));
        }
    }

    fn kill_after_cursor(&mut self, to: usize)
        requires
            state_inv(old(self)@),
            old(self)@.cursor <= to <= old(self)@.content.len(),
        ensures
            final(self)@ == kill_after(old(self)@, to as int),
            state_inv(final(self)@),
    {
        let killed = slice_chars(&self.content, self.cursor, to);
        if killed.len() > 0 {
            self.kill_ring = killed;
        }
        self.content = splice(&self.content, self.cursor, to, &[]);
        proof {
            assert(self@.content =~= remove_range(old(self)@.content, old(self)@.cursor as int, to as int));
        }
    }

    fn backspace(&mut self)
        requires
            state_inv(old(self)@),
        ensures
            final(self)@ == backspace(old(self)@),
            state_inv(final(self)@),
    {
        if self.cursor > 0 {
            self.content.remove(self.cursor - 1);
            self.cursor = self.cursor - 1;
        }
    }

    fn delete_forward(&mut self)
        requires
            state_inv(old(self)@),
        ensures
            final(self)@ == (if old(self)@.cursor < old(self)@.content.len() {
                InputBarState { content: old(self)@.content.remove(old(self)@.cursor as int), ..old(self)@ }
            } else {
                old(self)@
            }),
            state_inv(final(self)@),
    {
        if self.cursor < self.content.len() {
            self.content.remove(self.cursor);
        }
    }

    fn show_history_entry(&mut self, i: usize)
        requires
            state_inv(old(self)@),
            i < old(self)@.history.len(),
        ensures
            final(self)@ == show_history(old(self)@, i as nat),
            state_inv(final(self)@),
    {
        self.history_index = Some(i);
        self.content = copy_chars(&self.history[i]);
        self.cursor = self.content.len();
    }

    fn history_up(&mut self)
        requires
            state_inv(old(self)@),
        ensures
            final(self)@ == history_up(old(self)@),
            state_inv(final(self)@),
    {
        if self.history.len() > 0 {
            let idx = match self.history_index {
                Some(i) => i,
                None => self.history.len(),
            };
            if idx > 0 {
                self.show_history_entry(idx - 1);
            }
        }
    }

    fn history_down(&mut self)
        requires
            state_inv(old(self)@),
        ensures
            final(self)@ == history_down(old(self)@),
            state_inv(final(self)@),
    {
        match self.history_index {
            Some(i) => {
                let hl = self.history.len();
                proof {
                    assert(i < self.history@.len());
                }
                if i + 1 < hl {
                    self.show_history_entry(i + 1);
                } else {
                    self.history_index = None;
                    self.content = Vec::new();
                    self.cursor = 0;
                    proof {
                        assert(self@.content =~= Seq::<char>::empty());
                    }
                }
            },
            None => {},
        }
    }

    fn complete_from(&mut self, m: Vec<Vec<char>>, head: &[char])
        requires
            state_inv(old(self)@),
            old(self)@.tab_index is Some,
            m@.len() > 0,
        ensures
            ({
                let idx = old(self)@.tab_index.unwrap() % m@.len();
                let text = head@ + vv(m@)[idx as int];
                final(self)@ == (InputBarState {
                    content: text,
                    cursor: text.len(),
                    tab_index: Some(idx + 1),
                    ..old(self)@
                })
            }),
            state_inv(final(self)@),
    {
        let idx = match self.tab_cycle_index {
            Some(i) => i % m.len(),
            None => 0,
        };
        let text = concat_chars(head, &m[idx]);
        self.content = text;
        self.cursor = self.content.len();
        self.tab_cycle_index = Some(idx + 1);
    }

    fn tab_complete(&mut self) -> (r: bool)
        requires
            state_inv(old(self)@),
        ensures
            (final(self)@, r) == tab_complete(old(self)@),
            state_inv(final(self)@),
    {
        if !self.is_command_input() {
            return false;
        }
        let len = self.content.len();
        let sp = find_first_space(&self.content);
        if sp < len {
            let head = slice_chars(&self.content, 0, sp);
            let cmd = lower_chars(&head);
            let rest = slice_chars(&self.content, sp + 1, len);
            let st = skip_ws_forward(&rest, 0);
            let trimmed = slice_chars(&rest, st, rest.len());
            let arg = lower_chars(&trimmed);
            proof {
                assert(head@ =~= self@.content.take(sp as int));
                assert(rest@ =~= self@.content.skip(sp + 1));
                assert(rest@.skip(0) =~= rest@);
                assert(trimmed@ =~= trim_start(rest@));
            }
            let found = find_subcommands(&self.subcommands, &cmd);
            let i = match found {
                Some(i) => i,
                None => {
                    return false;
                },
            };
            if self.subcommands[i].1.len() == 0 {
                proof {
                    assert(vv(self.subcommands@[i as int].1@) =~= Seq::<Seq<char>>::empty());
                }
                return false;
            }
            if self.tab_cycle_index.is_none() || !crate::text::chars_eq(&self.tab_cycle_prefix, &arg)
                || !self.tab_cycle_subcommand {
                self.tab_cycle_prefix = arg;
                self.tab_cycle_index = Some(0);
                self.tab_cycle_subcommand = true;
            }
            let m = matches_with_prefix(&self.subcommands[i].1, &self.tab_cycle_prefix);
            if m.len() == 0 {
                self.tab_cycle_index = None;
                return false;
            }
            let mut lead = cmd;
            lead.push(' ');
            let ghost s1 = self@;
            self.complete_from(m, &lead);
            proof {
                assert(lead@ =~= lowercase(old(self)@.content.take(sp as int)) + seq![' ']);
                assert(s1.tab_prefix == (if old(self)@.tab_index is None || old(self)@.tab_prefix != arg@ || !old(self)@.tab_subcommand { arg@ } else { old(self)@.tab_prefix }));
            }
            true
        } else {
            let cur = lower_chars(&self.content);
            if self.tab_cycle_index.is_none() || self.tab_cycle_subcommand {
                self.tab_cycle_prefix = cur;
                self.tab_cycle_index = Some(0);
                self.tab_cycle_subcommand = false;
            }
            let m = matches_with_prefix(&self.command_names, &self.tab_cycle_prefix);
            if m.len() == 0 {
                self.tab_cycle_index = None;
                return false;
            }
            self.complete_from(m, &[]);
            proof {
                assert(Seq::<char>::empty() + vv(m@)[(old(self)@.tab_index.unwrap_or(0) % m@.len()) as int]
                    =~= vv(m@)[(old(self)@.tab_index.unwrap_or(0) % m@.len()) as int]);
            }
            true
        }
    }
}

// ── Keys ─────────────────────────────────────────────────────────────────────

proof fn lemma_word_start_bound(c: Seq<char>, k: int)
    requires
        0 <= k <= c.len(),
    ensures
        0 <= trim_back(c, k) <= k,
        0 <= word_start(c, k) <= trim_back(c, k),
{
    lemma_trim_back(c, k);
    lemma_after_sep(c, trim_back(c, k));
}

proof fn lemma_trim_back(c: Seq<char>, k: int)
    requires
        0 <= k <= c.len(),
    ensures
        0 <= trim_back(c, k) <= k,
    decreases k,
{
    if k > 0 && is_white(c[k - 1]) && c[k - 1] != '\n' {
        lemma_trim_back(c, k - 1);
    }
}

proof fn lemma_after_sep(c: Seq<char>, k: int)
    requires
        0 <= k <= c.len(),
    ensures
        0 <= after_sep(c, k) <= k,
    decreases k,
{
    if k > 0 && !is_white(c[k - 1]) {
        lemma_after_sep(c, k - 1);
    }
}

impl InputBarWidget {
    fn handle_ctrl(&mut self, ch: char) -> (r: Action)
        requires
            state_inv(old(self)@),
        ensures
            (final(self)@, r@) == ctrl_key(old(self)@, ch),
            state_inv(final(self)@),
    {
        proof {
            lemma_line_start(self@.content, self@.cursor as int);
            lemma_line_end(self@.content, self@.cursor as int);
            lemma_word_start_bound(self@.content, self@.cursor as int);
        }
        if ch == 'c' || ch == 'd' {
            Action::Quit
        } else if ch == 'a' {
            self.cursor = find_line_start(&self.content, self.cursor);
            self.reset_tab_cycle();
            Action::NoOp
        } else if ch == 'e' {
            self.cursor = find_line_end(&self.content, self.cursor);
            self.reset_tab_cycle();
            Action::NoOp
        } else if ch == 'u' {
            let from = find_line_start(&self.content, self.cursor);
            self.kill_before_cursor(from);
            self.reset_tab_cycle();
            Action::NoOp
        } else if ch == 'k' {
            let to = find_line_end(&self.content, self.cursor);
            self.kill_after_cursor(to);
            self.reset_tab_cycle();
            Action::NoOp
        } else if ch == 'w' {
            if self.cursor > 0 {
                let from = find_word_start(&self.content, self.cursor);
                self.kill_before_cursor(from);
            }
            self.reset_tab_cycle();
            Action::NoOp
        } else if ch == 'y' {
            if self.kill_ring.len() > 0 {
                let ring = copy_chars(&self.kill_ring);
                self.insert_at_cursor(&ring);
            }
            self.reset_tab_cycle();
            Action::NoOp
        } else {
            Action::NoOp
        }
    }

    fn handle_alt(&mut self, ch: char) -> (r: Action)
        requires
            state_inv(old(self)@),
        ensures
            (final(self)@, r@) == alt_key(old(self)@, ch),
            state_inv(final(self)@),
    {
        proof {
            lemma_word_start_bound(self@.content, self@.cursor as int);
        }
        if ch == 'b' {
            if self.cursor > 0 {
                self.cursor = find_word_start(&self.content, self.cursor);
            }
            self.reset_tab_cycle();
            Action::NoOp
        } else if ch == 'f' {
            if self.cursor < self.content.len() {
                self.cursor = find_word_forward(&self.content, self.cursor);
            }
            self.reset_tab_cycle();
            Action::NoOp
        } else if ch == '\x08' || ch == '\x7f' {
            if self.cursor > 0 {
                let from = find_word_start(&self.content, self.cursor);
                self.kill_before_cursor(from);
            }
            self.reset_tab_cycle();
            Action::NoOp
        } else {
            Action::NoOp
        }
    }

    fn handle_normal_key(&mut self, key: &KeyEvent) -> (r: Action)
        requires
            state_inv(old(self)@),
        ensures
            (final(self)@, r@) == normal_key(old(self)@, *key),
            state_inv(final(self)@),
    {
        proof {
            lemma_line_start(self@.content, self@.cursor as int);
            lemma_line_end(self@.content, self@.cursor as int);
            lemma_word_start_bound(self@.content, self@.cursor as int);
        }
        let m = key.modifiers;
        match key.key {
            Key::Enter => {
                if m.shift {
                    self.insert_at_cursor(&['\n']);
                    self.reset_tab_cycle();
                    proof {
                        assert(['\n']@ =~= seq!['\n']);
                    }
                    Action::NoOp
                } else {
                    let blank = trim_chars(&self.content).len() == 0;
                    let text = self.take_input();
                    self.reset_tab_cycle();
                    if blank {
                        Action::NoOp
                    } else {
                        Action::SendMessage(text)
                    }
                }
            },
            Key::Backspace => {
                self.backspace();
                self.reset_tab_cycle();
                Action::NoOp
            },
            Key::Delete => {
                self.delete_forward();
                self.reset_tab_cycle();
                Action::NoOp
            },
            Key::Left => {
                if m.ctrl {
                    if self.cursor > 0 {
                        self.cursor = find_word_start(&self.content, self.cursor);
                    }
                } else if self.cursor > 0 {
                    self.cursor = self.cursor - 1;
                }
                self.reset_tab_cycle();
                Action::NoOp
            },
            Key::Right => {
                if m.ctrl {
                    if self.cursor < self.content.len() {
                        self.cursor = find_word_forward(&self.content, self.cursor);
                    }
                } else if self.cursor < self.content.len() {
                    self.cursor = self.cursor + 1;
                }
                self.reset_tab_cycle();
                Action::NoOp
            },
            Key::Home => {
                self.cursor = find_line_start(&self.content, self.cursor);
                self.reset_tab_cycle();
                Action::NoOp
            },
            Key::End => {
                self.cursor = find_line_end(&self.content, self.cursor);
                self.reset_tab_cycle();
                Action::NoOp
            },
            Key::Up => {
                if !m.alt && !m.ctrl {
                    self.history_up();
                    self.reset_tab_cycle();
                }
                Action::NoOp
            },
            Key::Down => {
                if !m.alt && !m.ctrl {
                    self.history_down();
                    self.reset_tab_cycle();
                }
                Action::NoOp
            },
            Key::Tab => {
                if !m.shift {
                    if self.is_command_input() {
                        self.tab_complete();
                        Action::NoOp
                    } else {
                        Action::CycleFocusForward
                    }
                } else {
                    Action::NoOp
                }
            },
            Key::BackTab => Action::CycleFocusBackward,
            Key::Char(ch) => {
                if m.ctrl {
                    self.handle_ctrl(ch)
                } else if m.alt {
                    self.handle_alt(ch)
                } else {
                    self.insert_at_cursor(&[ch]);
                    self.reset_tab_cycle();
                    proof {
                        assert([ch]@ =~= seq![ch]);
                    }
                    Action::NoOp
                }
            },
            Key::Escape => {
                if self.content.len() == 0 {
                    Action::Quit
                } else {
                    self.content = Vec::new();
                    self.cursor = 0;
                    self.reset_tab_cycle();
                    proof {
                        assert(self@.content =~= Seq::<char>::empty());
                    }
                    Action::NoOp
                }
            },
            _ => Action::NoOp,
        }
    }

    fn handle_confirm_key(&mut self, key: &KeyEvent) -> (r: Action)
        requires
            state_inv(old(self)@),
        ensures
            (final(self)@, r@) == confirm_key(old(self)@, *key),
            state_inv(final(self)@),
    {
        let plain = !key.modifiers.ctrl && !key.modifiers.alt;
        match key.key {
            Key::Char(ch) => {
                if plain && ch == 'y' {
                    self.confirming = false;
                    Action::ConfirmYes
                } else if plain && ch == 'n' {
                    self.confirming = false;
                    Action::ConfirmNo
                } else if plain && ch == 'a' {
                    self.confirming = false;
                    Action::ConfirmAll
                } else {
                    Action::NoOp
                }
            },
            Key::Escape => {
                self.confirming = false;
                Action::ConfirmNo
            },
            _ => Action::NoOp,
        }
    }

    fn handle_question_key(&mut self, key: &KeyEvent) -> (r: Action)
        requires
            state_inv(old(self)@),
        ensures
            (final(self)@, r@) == question_key(old(self)@, *key),
            state_inv(final(self)@),
    {
        let m = key.modifiers;
        match key.key {
            Key::Enter => {
                if !m.shift {
                    let trimmed = trim_chars(&self.content);
                    let _text = self.take_input();
                    self.questioning = false;
                    if trimmed.len() == 0 {
                        Action::AnswerQuestion(skipped_text())
                    } else {
                        Action::AnswerQuestion(string_of(&trimmed))
                    }
                } else {
                    Action::NoOp
                }
            },
            Key::Escape => {
                self.questioning = false;
                Action::AnswerQuestion(skipped_text())
            },
            Key::Char(ch) => {
                if !m.ctrl && !m.alt {
                    self.insert_at_cursor(&[ch]);
                    self.reset_tab_cycle();
                    proof {
                        assert([ch]@ =~= seq![ch]);
                    }
                    Action::NoOp
                } else {
                    Action::NoOp
                }
            },
            Key::Backspace => {
                self.backspace();
                self.reset_tab_cycle();
                Action::NoOp
            },
            _ => Action::NoOp,
        }
    }
}

fn skipped_text() -> (r: String)
    ensures
        r@ == skipped_answer(),
{
    let lit = "Skipped (no answer provided)";
    proof {
        reveal_strlit("Skipped (no answer provided)");
    }
    let r = lit.to_owned();
    proof {
        assert(r@ =~= skipped_answer());
    }
    r
}

// ── Rendering and events ─────────────────────────────────────────────────────

/// Underline the cell at `(row, col)`, if it is on the screen.
// ── Drawing ──────────────────────────────────────────────────────────────────

/// The cell at `(row, col)` underlined, when it is on the screen.
pub open spec fn underlined(v: ScreenView, row: int, col: int) -> ScreenView {
    if in_bounds(v, row, col) {
        let c = cell_at(v, row, col);
        put(v, row, col, Cell { style: Style { underline: true, ..c.style }, ..c })
    } else {
        v
    }
}


/// The lines of the text from line `i` on, each written on its row below
/// the first input row, while rows of the area remain.
pub open spec fn lines_from(v: ScreenView, lines: Seq<Seq<char>>, i: int, input_row: int, area: Rect) -> ScreenView
    decreases lines.len() - i,
{
    if i >= lines.len() || i < 1 || i >= area.y + area.height - input_row {
        v
    } else {
        let v1 = write_run(v, input_row + i, area.x as int, area.x as int, lines[i], Color::Ansi(7), Color::Ansi(235), plain_style());
        lines_from(v1, lines, i + 1, input_row, area)
    }
}

/// The rule drawn on the top row of the input bar.
pub open spec fn rule_cell() -> Cell {
    Cell { char: '─', fg: Color::Ansi(240), bg: Color::Default, style: plain_style(), wide: false }
}

/// The prompt of the input row: the question prompt, or the mode in brackets.
pub open spec fn input_prompt(s: InputBarState) -> Seq<char> {
    if s.questioning {
        "[1-"@ + decimal(s.answer_count as u64 as nat) + " or type]: "@
    } else {
        seq!['['] + s.mode_label + "] "@
    }
}

/// The input bar drawn below its rule (on a screen where the rule is
/// drawn). Awaiting a confirmation: `[y/n/a]? ` in bold yellow, a blinking
/// block cursor after it when focused, and the rest of the row on the bar's
/// background. Otherwise: the prompt in bold (cyan for a question, else the
/// mode's color), the end of the text's first row that fits after it, the
/// cursor underlined when focused, and (but for a question) the text's
/// further lines on the rows below, as far as the area reaches.
pub open spec fn input_drawn(f: ScreenView, s: InputBarState, area: Rect) -> ScreenView {
    let row = area.y + 1;
    let end = area.x + area.width;
    let bg = Color::Ansi(235);
    if s.confirming {
        let v1 = write_run(f, row, area.x as int, area.x as int, "[y/n/a]? "@, Color::Ansi(3), bg, Style { bold: true, ..plain_style() });
        let col = area.x + 9;
        let v2 = if s.focused && col < end && in_bounds(v1, row, col) {
            put(v1, row, col, Cell { char: '█', fg: Color::Ansi(3), style: Style { blink: true, ..plain_style() }, ..cell_at(v1, row, col) })
        } else {
            v1
        };
        recolored_from(v2, row, col + 1, end, bg)
    } else {
        let prompt = input_prompt(s);
        let color = if s.questioning { Color::Ansi(6) } else { s.mode_color };
        let v1 = write_run(f, row, area.x as int, area.x as int, prompt, color, bg, Style { bold: true, ..plain_style() });
        let plen = vstd::utf8::encode_utf8(prompt).len();
        let col = if plen < 0x10000 { area.x + plen } else { end };
        let used = col - area.x;
        let available = if area.width > used { area.width - used } else { 0 };
        let display = if s.content.len() > available { s.content.skip(s.content.len() - available) } else { s.content };
        let v2 = if col < end { write_run(v1, row, col, col, display, Color::Ansi(7), bg, plain_style()) } else { v1 };
        let shown = if s.cursor < display.len() { s.cursor as int } else { display.len() as int };
        let v3 = if s.focused && shown < end && col < end - shown { underlined(v2, row, col + shown) } else { v2 };
        if !s.questioning { lines_from(v3, text_lines(s.content), 1, row, area) } else { v3 }
    }
}

fn underline_at(screen: &mut Screen, row: u16, col: u16)
    requires
        old(screen).wf(),
    ensures
        final(screen)@ == underlined(old(screen)@, row as int, col as int),
        final(screen).wf(),
        final(screen)@.width == old(screen)@.width,
        final(screen)@.height == old(screen)@.height,
        same_outside_rows(old(screen)@, final(screen)@, row as int, row + 1),
{
    proof {
        lemma_same_rows_refl(screen@, row as int, row + 1);
    }
    let found = match screen.get(row, col) {
        Some(c) => Some(*c),
        None => None,
    };
    if let Some(cell) = found {
        let mut cell = cell;
        cell.style.underline = true;
        screen.set_cell(row, col, cell);
    }
}

/// The last `n` characters of `c` (all of it when shorter).
fn tail_chars(c: &[char], n: usize) -> (r: Vec<char>)
    ensures
        r@ == (if c@.len() > n { c@.skip(c@.len() - n) } else { c@ }),
{
    if c.len() > n {
        let r = slice_chars(c, c.len() - n, c.len());
        proof {
            assert(r@ =~= c@.skip(c@.len() - n));
        }
        r
    } else {
        copy_chars(c)
    }
}

impl Widget for InputBarWidget {
    open spec fn inv(&self) -> bool {
        state_inv(self@)
    }

    /// Draw the bar: a gray rule on the area's top row, then the prompt and
    /// the input (or the confirmation / question prompt) below it (see
    /// [`input_drawn`]). Nothing outside the area's rows changes.
    fn render(&mut self, area: Rect, screen: &mut Screen)
        ensures
            same_outside_rows(old(screen)@, final(screen)@, area.y as int, area.y + area.height),
            area.width == 0 || area.height < 2 ==> final(screen)@ == old(screen)@,
            area.width > 0 && area.height >= 2 ==> final(screen)@ == input_drawn(
                fill_box(old(screen)@, area.y as int, area.y + 1, area.x as int, area.x + area.width, rule_cell()),
                old(self)@,
                area,
            ),
            final(self)@ == old(self)@,
    {
        proof {
            lemma_same_rows_refl(screen@, area.y as int, area.y + area.height);
        }
        if area.is_empty() || area.height < 2 {
            return;
        }
        let row = area.y;
        let end = area.x + area.width;
        screen.hline(row, area.x, end - 1, '─', Color::Ansi(240), Color::Default);
        let ghost f = screen@;
        proof {
            lemma_same_rows_step(old(screen)@, old(screen)@, screen@, row as int, row + 1, area.y as int, area.y + area.height);
            lemma_fill_box(old(screen)@, f, area.y as int, area.y + 1, area.x as int, area.x + area.width, rule_cell());
        }
        let input_row = row + 1;
        let bg = styles::input_bar_bg();
        if self.confirming {
            let prompt = "[y/n/a]? ";
            let ghost s0 = screen@;
            screen.write_str(input_row, area.x, prompt, Color::Ansi(3), bg, Style::bold());
            proof {
                lemma_same_rows_step(old(screen)@, s0, screen@, input_row as int, input_row + 1, area.y as int, area.y + area.height);
            }
            let ghost v1 = screen@;
            let col: u32 = area.x as u32 + 9;
            if self.focused && col < end as u32 {
                let found = match screen.get(input_row, col as u16) {
                    Some(c) => Some(*c),
                    None => None,
                };
                if let Some(cell) = found {
                    let mut cell = cell;
                    cell.char = '█';
                    cell.fg = Color::Ansi(3);
                    cell.style = Style::blink();
                    let ghost s1 = screen@;
                    screen.set_cell(input_row, col as u16, cell);
                    proof {
                        lemma_same_rows_step(old(screen)@, s1, screen@, input_row as int, input_row + 1, area.y as int, area.y + area.height);
                    }
                }
            }
            let ghost v2 = screen@;
            let mut c: u32 = col + 1;
            while c < end as u32
                invariant
                    screen.wf(),
                    screen@.width == old(screen)@.width,
                    screen@.height == old(screen)@.height,
                    end as u32 <= u16::MAX,
                    input_row == area.y + 1,
                    area.height >= 2,
                    area.y + area.height <= u16::MAX,
                    c <= end + 10,
                    same_outside_rows(old(screen)@, screen@, area.y as int, area.y + area.height),
                    recolored_from(screen@, input_row as int, c as int, end as int, bg)
                        == recolored_from(v2, input_row as int, col + 1, end as int, bg),
                decreases end as u32 - c,
            {
                let found = match screen.get(input_row, c as u16) {
                    Some(x) => Some(*x),
                    None => None,
                };
                if let Some(cell) = found {
                    let mut cell = cell;
                    cell.bg = bg;
                    let ghost s2 = screen@;
                    screen.set_cell(input_row, c as u16, cell);
                    proof {
                        lemma_same_rows_step(old(screen)@, s2, screen@, input_row as int, input_row + 1, area.y as int, area.y + area.height);
                    }
                }
                c += 1;
            }
            proof {
                assert(screen@ == input_drawn(f, self@, area));
            }
        } else {
            let mut prompt = String::new();
            let prompt_color;
            if self.questioning {
                crate::text::push_str(&mut prompt, "[1-");
                crate::text::push_decimal(&mut prompt, self.question_answer_count as u64);
                crate::text::push_str(&mut prompt, " or type]: ");
                prompt_color = Color::Ansi(6);
            } else {
                crate::text::string_push(&mut prompt, '[');
                let label = string_of(&self.mode_label);
                crate::text::push_str(&mut prompt, label.as_str());
                crate::text::push_str(&mut prompt, "] ");
                prompt_color = self.mode_color;
            }
            proof {
                assert(prompt@ =~= input_prompt(self@));
            }
            let ghost s3 = screen@;
            screen.write_str(input_row, area.x, prompt.as_str(), prompt_color, bg, Style::bold());
            proof {
                lemma_same_rows_step(old(screen)@, s3, screen@, input_row as int, input_row + 1, area.y as int, area.y + area.height);
            }
            let plen = prompt.as_str().as_bytes().len();
            let col: usize = if plen < 0x10000 { area.x as usize + plen } else { end as usize };
            let used = col - area.x as usize;
            let available: usize = if (area.width as usize) > used { area.width as usize - used } else { 0 };
            let display = tail_chars(&self.content, available);
            if col < end as usize {
                let text = string_of(&display);
                let ghost s4 = screen@;
                screen.write_str(input_row, col as u16, text.as_str(), Color::Ansi(7), bg, Style::new());
                proof {
                    lemma_same_rows_step(old(screen)@, s4, screen@, input_row as int, input_row + 1, area.y as int, area.y + area.height);
                }
            }
            if self.focused {
                let shown = if self.cursor < display.len() { self.cursor } else { display.len() };
                if shown < end as usize && col < end as usize - shown {
                    let ghost s5 = screen@;
                    underline_at(screen, input_row, (col + shown) as u16);
                    proof {
                        lemma_same_rows_step(old(screen)@, s5, screen@, input_row as int, input_row + 1, area.y as int, area.y + area.height);
                    }
                }
            }
            let ghost v3 = screen@;
            if !self.questioning {
                let lines = lines_of(&self.content);
                let limit: usize = (area.y + area.height - input_row) as usize;
                let mut i: usize = 1;
                while i < lines.len() && i < limit
                    invariant
                        screen.wf(),
                        screen@.width == old(screen)@.width,
                        screen@.height == old(screen)@.height,
                        area.y + area.height <= u16::MAX,
                        area.height >= 2,
                        input_row == area.y + 1,
                        limit == area.y + area.height - input_row,
                        1 <= i,
                        bg == Color::Ansi(235),
                        vv(lines@) == text_lines(self@.content),
                        same_outside_rows(old(screen)@, screen@, area.y as int, area.y + area.height),
                        lines_from(screen@, vv(lines@), i as int, input_row as int, area)
                            == lines_from(v3, text_lines(self@.content), 1, input_row as int, area),
                    decreases lines@.len() - i,
                {
                    let line_row = input_row + i as u16;
                    let text = string_of(&lines[i]);
                    let ghost s6 = screen@;
                    screen.write_str(line_row, area.x, text.as_str(), Color::Ansi(7), bg, Style::new());
                    proof {
                        lemma_same_rows_step(old(screen)@, s6, screen@, line_row as int, line_row + 1, area.y as int, area.y + area.height);
                        assert(vv(lines@)[i as int] == text@);
                        assert(line_row as int == input_row + i);
                        assert(lines_from(s6, vv(lines@), i as int, input_row as int, area)
                            == lines_from(screen@, vv(lines@), i + 1, input_row as int, area));
                    }
                    i += 1;
                }
            }
            proof {
                assert(screen@ == input_drawn(f, self@, area));
            }
        }
    }

    /// Handle an event (see [`input_event`]): a paste inserts its text at
    /// the cursor; keys go to the confirmation, the question or the editor.
    fn handle_event(&mut self, event: &Event) -> (r: Action)
        ensures
            (final(self)@, r@) == input_event(old(self)@, *event),
            event matches Event::Key(k) && k.key == Key::Enter && !k.modifiers.shift && !old(self)@.confirming
                && !old(self)@.questioning ==> {
                &&& final(self)@.content.len() == 0
                &&& final(self)@.cursor == 0
                &&& final(self)@.history_index is None
                &&& final(self)@.history == (if old(self)@.content.len() > 0 {
                    old(self)@.history.push(old(self)@.content)
                } else {
                    old(self)@.history
                })
                &&& r@ == (if trim(old(self)@.content).len() > 0 {
                    ActionView::SendMessage(old(self)@.content)
                } else {
                    ActionView::NoOp
                })
            },
            *event == ctrl_char('k') && !old(self)@.confirming && !old(self)@.questioning ==> {
                let c = old(self)@.content;
                let k = old(self)@.cursor as int;
                let e = line_end(c, k);
                &&& final(self)@.content == c.take(k) + c.skip(e)
                &&& final(self)@.cursor == old(self)@.cursor
                &&& final(self)@.kill_ring == (if k < e { c.subrange(k, e) } else { old(self)@.kill_ring })
                &&& r@ == ActionView::NoOp
            },
            *event == ctrl_char('y') && !old(self)@.confirming && !old(self)@.questioning ==> {
                let c = old(self)@.content;
                let k = old(self)@.cursor as int;
                let y = old(self)@.kill_ring;
                &&& final(self)@.content == c.take(k) + y + c.skip(k)
                &&& final(self)@.cursor == k + y.len()
                &&& final(self)@.kill_ring == y
                &&& r@ == ActionView::NoOp
            },
    {
        proof {
            if let Event::Key(k) = *event {
                if k.key == Key::Enter && !k.modifiers.shift && !old(self)@.confirming && !old(self)@.questioning {
                    lemma_enter_submits(old(self)@, k.modifiers);
                }
            }
            if *event == ctrl_char('k') && !old(self)@.confirming && !old(self)@.questioning {
                let c = old(self)@.content;
                let k = old(self)@.cursor as int;
                lemma_line_end(c, k);
                assert(remove_range(c, k, line_end(c, k)) =~= c.take(k) + c.skip(line_end(c, k)));
            }
        }
        match event {
            Event::Paste(text) => {
                if !self.confirming && !self.questioning {
                    let t = chars_of(text.as_str());
                    self.insert_at_cursor(&t);
                    self.reset_tab_cycle();
                }
                Action::NoOp
            },
            Event::Key(key) => {
                if self.confirming {
                    self.handle_confirm_key(key)
                } else if self.questioning {
                    self.handle_question_key(key)
                } else {
                    self.handle_normal_key(key)
                }
            },
            _ => Action::NoOp,
        }
    }

    fn focused(&self) -> (r: bool)
        ensures
            r == self@.focused,
    {
        self.focused
    }

    fn set_focus(&mut self, focused: bool)
        ensures
            final(self)@ == (InputBarState { focused, ..old(self)@ }),
    {
        self.focused = focused;
    }
}

// ── Mouse ────────────────────────────────────────────────────────────────────

/// Where line `i` starts when each earlier line is counted with one
/// separator character.
pub open spec fn offset_before(lines: Seq<Seq<char>>, i: int) -> int
    decreases i,
{
    if i <= 0 {
        0
    } else {
        offset_before(lines, i - 1) + lines[i - 1].len() + 1
    }
}

/// `a - b`, or 0 when `b > a`.
pub open spec fn sat_sub(a: int, b: int) -> int {
    if a > b { a - b } else { 0 }
}

/// The smaller of two integers.
pub open spec fn min_of(a: int, b: int) -> int {
    if a <= b { a } else { b }
}

/// The width of the `[mode] ` prompt, in bytes, as a 16-bit column count.
pub open spec fn prompt_width(s: InputBarState) -> int {
    ((vstd::utf8::encode_utf8(s.mode_label).len() + 3) % 65536) as int
}

/// The cursor position for a click at `(row, col)` on an input bar drawn
/// in `area`: on the first text row, the column after the prompt within the
/// first line; on a later row, that line's start plus the column, within
/// the line; below the last line, the end of the text.
pub open spec fn click_cursor(s: InputBarState, row: int, col: int, area: Rect) -> int {
    let lines = text_lines(s.content);
    let len = s.content.len() as int;
    let line_offset = sat_sub(row, area.y + 1);
    if line_offset == 0 {
        let first = if lines.len() > 0 { lines[0].len() as int } else { 0 };
        min_of(min_of(sat_sub(col, area.x + prompt_width(s)), first), len)
    } else if line_offset < lines.len() {
        min_of(
            offset_before(lines, line_offset) + min_of(sat_sub(col, area.x as int), lines[line_offset].len() as int),
            len,
        )
    } else {
        len
    }
}

proof fn lemma_offset_cons(l0: Seq<char>, rest: Seq<Seq<char>>, i: int)
    requires
        1 <= i <= rest.len() + 1,
    ensures
        offset_before(seq![l0] + rest, i) == l0.len() + 1 + offset_before(rest, i - 1),
    decreases i,
{
    if i > 1 {
        lemma_offset_cons(l0, rest, i - 1);
        assert((seq![l0] + rest)[i - 1] == rest[i - 2]);
    } else {
        assert((seq![l0] + rest)[0] == l0);
        assert(offset_before(seq![l0] + rest, 0) == 0);
        assert(offset_before(rest, 0) == 0);
    }
}

proof fn lemma_line_offsets(c: Seq<char>, i: int)
    requires
        0 <= i < text_lines(c).len(),
    ensures
        offset_before(text_lines(c), i) + text_lines(c)[i].len() <= c.len(),
        offset_before(text_lines(c), i) >= 0,
    decreases c.len(),
{
    lemma_line_end(c, 0);
    let e = line_end(c, 0);
    if i > 0 {
        let rest = c.skip(e + 1);
        let l0 = if e > 0 && c[e - 1] == '\r' { c.take(e - 1) } else { c.take(e) };
        assert(text_lines(c) == seq![l0] + text_lines(rest));
        lemma_line_offsets(rest, i - 1);
        lemma_offset_cons(l0, text_lines(rest), i);
    }
}

impl InputBarWidget {
    /// The width of the `[mode] ` prompt (see [`prompt_width`]).
    pub fn prompt_columns(&self) -> (r: u16)
        ensures
            r == prompt_width(self@),
    {
        let label = string_of(&self.mode_label);
        let blen = label.as_str().as_bytes().len();
        proof {
            assert(label@ == self@.mode_label);
            assert((blen % 65536 + 3) % 65536 == (blen + 3) % 65536) by (nonlinear_arith);
        }
        ((blen % 65536 + 3) % 65536) as u16
    }

    /// Move the cursor to where the user clicked on the input bar drawn in
    /// `area` (see [`click_cursor`]); ignored while a confirmation or a
    /// question is pending.
    pub fn click_to_cursor(&mut self, click_row: u16, click_col: u16, area: Rect)
        requires
            state_inv(old(self)@),
            area.y < u16::MAX,
            area.x + prompt_width(old(self)@) <= u16::MAX,
        ensures
            state_inv(final(self)@),
            final(self)@.content == old(self)@.content,
            final(self)@.cursor <= final(self)@.content.len(),
            old(self)@.confirming || old(self)@.questioning ==> final(self)@ == old(self)@,
            !old(self)@.confirming && !old(self)@.questioning ==> final(self)@ == move_to(
                old(self)@,
                click_cursor(old(self)@, click_row as int, click_col as int, area),
            ),
    {
        if self.confirming || self.questioning {
            return;
        }
        let label = string_of(&self.mode_label);
        let blen = label.as_str().as_bytes().len();
        let prompt_len: u16 = ((blen % 65536 + 3) % 65536) as u16;
        proof {
            assert(label@ == self@.mode_label);
            assert((blen % 65536 + 3) % 65536 == (blen + 3) % 65536) by (nonlinear_arith);
        }
        let first_input_row = area.y + 1;
        let line_offset: usize = if click_row > first_input_row { (click_row - first_input_row) as usize } else { 0 };
        let lines = lines_of(&self.content);
        let len = self.content.len();
        if line_offset == 0 {
            let start = area.x + prompt_len;
            let co: usize = if click_col > start { (click_col - start) as usize } else { 0 };
            let first: usize = if lines.len() > 0 { lines[0].len() } else { 0 };
            proof {
                if lines@.len() > 0 {
                    lemma_line_offsets(self@.content, 0);
                }
            }
            let np = if co <= first { co } else { first };
            self.cursor = if np <= len { np } else { len };
        } else if line_offset < lines.len() {
            let mut off: usize = 0;
            let mut i: usize = 0;
            while i < line_offset
                invariant
                    i <= line_offset < lines@.len(),
                    vv(lines@) == text_lines(self@.content),
                    len == self@.content.len(),
                    off == offset_before(vv(lines@), i as int),
                decreases line_offset - i,
            {
                proof {
                    lemma_line_offsets(self@.content, i as int);
                    lemma_line_offsets(self@.content, i + 1);
                }
                off = off + lines[i].len() + 1;
                i += 1;
            }
            proof {
                lemma_line_offsets(self@.content, line_offset as int);
            }
            let co: usize = if click_col > area.x { (click_col - area.x) as usize } else { 0 };
            let ll = lines[line_offset].len();
            let np = off + if co <= ll { co } else { ll };
            self.cursor = if np <= len { np } else { len };
        } else {
            self.cursor = len;
        }
    }
}

// ── Laws ─────────────────────────────────────────────────────────────────────

/// The key event of `ch` pressed with Ctrl.
pub open spec fn ctrl_char(ch: char) -> Event {
    Event::Key(KeyEvent { key: Key::Char(ch), modifiers: Modifiers { ctrl: true, alt: false, shift: false } })
}

/// A key pressed without modifiers.
pub open spec fn plain(key: Key) -> Event {
    Event::Key(KeyEvent { key, modifiers: Modifiers { ctrl: false, alt: false, shift: false } })
}

/// Ctrl+K then Ctrl+Y gives the text back, with the cursor at the end of
/// the line, when the cursor was not already at the end of its line.
pub proof fn lemma_kill_to_end_then_yank(s: InputBarState)
    requires
        state_inv(s),
        !s.confirming,
        !s.questioning,
        s.cursor < line_end(s.content, s.cursor as int),
    ensures
        ({
            let (s2, a) = input_event(input_event(s, ctrl_char('k')).0, ctrl_char('y'));
            &&& s2.content == s.content
            &&& s2.cursor == line_end(s.content, s.cursor as int)
            &&& s2.kill_ring == s.content.subrange(s.cursor as int, line_end(s.content, s.cursor as int))
            &&& a == ActionView::NoOp
        }),
{
    let c = s.content;
    let k = s.cursor as int;
    lemma_line_end(c, k);
    let e = line_end(c, k);
    let s1 = input_event(s, ctrl_char('k')).0;
    assert(s1.kill_ring =~= c.subrange(k, e));
    assert(s1.content =~= c.take(k) + c.skip(e));
    let s2 = input_event(s1, ctrl_char('y')).0;
    assert(s2.content =~= c);
}

/// Ctrl+E (and End) moves the cursor forward to the end of its line: not
/// before where it was, with no newline passed over, and onto a newline or
/// the end of the text; the text is unchanged.
pub proof fn lemma_ctrl_e_to_line_end(s: InputBarState)
    requires
        state_inv(s),
        !s.confirming,
        !s.questioning,
    ensures
        ({
            let (t, a) = input_event(s, ctrl_char('e'));
            let u = input_event(s, plain(Key::End)).0;
            &&& s.cursor <= t.cursor <= s.content.len()
            &&& forall|j: int| s.cursor <= j < t.cursor ==> s.content[j] != '\n'
            &&& (t.cursor == s.content.len() || s.content[t.cursor as int] == '\n')
            &&& t.content == s.content
            &&& a == ActionView::NoOp
            &&& u.cursor == t.cursor
            &&& u.content == s.content
        }),
{
    lemma_line_end(s.content, s.cursor as int);
}

/// Ctrl+A (and Home) moves the cursor back to the start of its line: not
/// after where it was, with no newline passed over, and just after a
/// newline or at the start of the text; the text is unchanged.
pub proof fn lemma_ctrl_a_to_line_start(s: InputBarState)
    requires
        state_inv(s),
        !s.confirming,
        !s.questioning,
    ensures
        ({
            let (t, a) = input_event(s, ctrl_char('a'));
            let u = input_event(s, plain(Key::Home)).0;
            &&& t.cursor <= s.cursor
            &&& forall|j: int| t.cursor <= j < s.cursor ==> s.content[j] != '\n'
            &&& (t.cursor == 0 || s.content[t.cursor - 1] == '\n')
            &&& t.content == s.content
            &&& a == ActionView::NoOp
            &&& u.cursor == t.cursor
            &&& u.content == s.content
        }),
{
    lemma_line_start(s.content, s.cursor as int);
}

/// `trim_back` stops after a run of blanks that reaches back to a
/// non-blank or the start.
proof fn lemma_trim_back_run(c: Seq<char>, k: int)
    requires
        0 <= k <= c.len(),
    ensures
        0 <= trim_back(c, k) <= k,
        forall|j: int| trim_back(c, k) <= j < k ==> is_white(#[trigger] c[j]) && c[j] != '\n',
        trim_back(c, k) == 0 || !(is_white(c[trim_back(c, k) - 1]) && c[trim_back(c, k) - 1] != '\n'),
    decreases k,
{
    if k > 0 && is_white(c[k - 1]) && c[k - 1] != '\n' {
        lemma_trim_back_run(c, k - 1);
    }
}

/// `after_sep` stops after a run of non-whitespace that reaches back to a
/// whitespace character or the start.
proof fn lemma_after_sep_run(c: Seq<char>, k: int)
    requires
        0 <= k <= c.len(),
    ensures
        0 <= after_sep(c, k) <= k,
        forall|j: int| after_sep(c, k) <= j < k ==> !is_white(#[trigger] c[j]),
        after_sep(c, k) == 0 || is_white(c[after_sep(c, k) - 1]),
    decreases k,
{
    if k > 0 && !is_white(c[k - 1]) {
        lemma_after_sep_run(c, k - 1);
    }
}

/// `next_ws` stops at the first whitespace character from `k` on.
proof fn lemma_next_ws_run(c: Seq<char>, k: int)
    requires
        0 <= k <= c.len(),
    ensures
        k <= next_ws(c, k) <= c.len(),
        forall|j: int| k <= j < next_ws(c, k) ==> !is_white(#[trigger] c[j]),
        next_ws(c, k) == c.len() || is_white(c[next_ws(c, k)]),
    decreases c.len() - k,
{
    if k < c.len() && !is_white(c[k]) {
        lemma_next_ws_run(c, k + 1);
    }
}

/// `skip_blanks` stops at the first character from `k` on that is not a blank.
proof fn lemma_skip_blanks_run(c: Seq<char>, k: int)
    requires
        0 <= k <= c.len(),
    ensures
        k <= skip_blanks(c, k) <= c.len(),
        forall|j: int| k <= j < skip_blanks(c, k) ==> is_white(#[trigger] c[j]) && c[j] != '\n',
        skip_blanks(c, k) == c.len() || !(is_white(c[skip_blanks(c, k)]) && c[skip_blanks(c, k)] != '\n'),
    decreases c.len() - k,
{
    if k < c.len() && is_white(c[k]) && c[k] != '\n' {
        lemma_skip_blanks_run(c, k + 1);
    }
}

/// Whether `c[a..b]` holds only blanks (whitespace other than newline).
pub open spec fn blanks_between(c: Seq<char>, a: int, b: int) -> bool {
    forall|j: int| a <= j < b ==> is_white(#[trigger] c[j]) && c[j] != '\n'
}

/// Whether `c[a..b]` holds no whitespace.
pub open spec fn word_between(c: Seq<char>, a: int, b: int) -> bool {
    forall|j: int| a <= j < b ==> !is_white(#[trigger] c[j])
}

/// Whether `t` is the start of the word before `k` in `c`: going back from
/// `k` over all blanks (whitespace other than newline) reaches `m`, and
/// going back from `m` over all non-whitespace characters reaches `t`.
pub open spec fn word_back_from(c: Seq<char>, k: int, t: int) -> bool {
    exists|m: int| #![trigger blanks_between(c, m, k)] {
        &&& 0 <= t <= m <= k
        &&& blanks_between(c, m, k)
        &&& m == 0 || !(is_white(c[m - 1]) && c[m - 1] != '\n')
        &&& word_between(c, t, m)
        &&& t == 0 || is_white(c[t - 1])
    }
}

/// Whether `t` is past the word at `k` in `c`: going forward from `k` over
/// all non-whitespace characters reaches `m`, and going on over all blanks
/// reaches `t`.
pub open spec fn word_ahead_from(c: Seq<char>, k: int, t: int) -> bool {
    exists|m: int| #![trigger word_between(c, k, m)] {
        &&& k <= m <= t <= c.len()
        &&& word_between(c, k, m)
        &&& m == c.len() || is_white(c[m])
        &&& blanks_between(c, m, t)
        &&& t == c.len() || !(is_white(c[t]) && c[t] != '\n')
    }
}

/// Alt+B and Ctrl+Left move the cursor back to the start of the word
/// before it (over the blanks just before it, then over the word), and
/// Alt+F and Ctrl+Right move it past the word at it and the blanks after;
/// at the start (or end) of the text they do nothing. The text is unchanged.
pub proof fn lemma_word_moves(s: InputBarState)
    requires
        state_inv(s),
        !s.confirming,
        !s.questioning,
    ensures
        ({
            let c = s.content;
            let k = s.cursor as int;
            let back = input_event(s, Event::Key(KeyEvent { key: Key::Char('b'), modifiers: Modifiers { ctrl: false, alt: true, shift: false } })).0;
            let left = input_event(s, Event::Key(KeyEvent { key: Key::Left, modifiers: Modifiers { ctrl: true, alt: false, shift: false } })).0;
            let fwd = input_event(s, Event::Key(KeyEvent { key: Key::Char('f'), modifiers: Modifiers { ctrl: false, alt: true, shift: false } })).0;
            let right = input_event(s, Event::Key(KeyEvent { key: Key::Right, modifiers: Modifiers { ctrl: true, alt: false, shift: false } })).0;
            &&& back.content == c && left.content == c && fwd.content == c && right.content == c
            &&& back.cursor == left.cursor && fwd.cursor == right.cursor
            &&& k > 0 ==> word_back_from(c, k, back.cursor as int)
            &&& k == 0 ==> back.cursor == 0
            &&& k < c.len() ==> word_ahead_from(c, k, fwd.cursor as int)
            &&& k == c.len() ==> fwd.cursor == k
        }),
{
    let c = s.content;
    let k = s.cursor as int;
    lemma_trim_back_run(c, k);
    let m = trim_back(c, k);
    lemma_after_sep_run(c, m);
    if k > 0 {
        assert(blanks_between(c, m, k));
        assert(word_between(c, word_start(c, k), m));
        assert(word_back_from(c, k, word_start(c, k)));
    }
    lemma_next_ws_run(c, k);
    let m2 = next_ws(c, k);
    lemma_skip_blanks_run(c, m2);
    if k < c.len() {
        assert(word_between(c, k, m2));
        assert(blanks_between(c, m2, word_forward(c, k)));
        assert(word_ahead_from(c, k, word_forward(c, k)));
    }
}

/// Ctrl+K deletes from the cursor to the end of its line (not the
/// newline), Ctrl+U from the start of its line to the cursor, and Ctrl+W
/// the word before the cursor with the blanks after it; what is deleted, when
/// anything is, goes to the kill ring.
pub proof fn lemma_kill_commands(s: InputBarState)
    requires
        state_inv(s),
        !s.confirming,
        !s.questioning,
    ensures
        ({
            let c = s.content;
            let k = s.cursor as int;
            let tk = input_event(s, ctrl_char('k')).0;
            let tu = input_event(s, ctrl_char('u')).0;
            let tw = input_event(s, ctrl_char('w')).0;
            &&& exists|e: int| #![trigger c.skip(e)] {
                &&& k <= e <= c.len()
                &&& forall|j: int| k <= j < e ==> c[j] != '\n'
                &&& (e == c.len() || c[e] == '\n')
                &&& tk.content == c.take(k) + c.skip(e)
                &&& tk.cursor == k
                &&& tk.kill_ring == (if e > k { c.subrange(k, e) } else { s.kill_ring })
            }
            &&& exists|b: int| #![trigger c.take(b)] {
                &&& 0 <= b <= k
                &&& forall|j: int| b <= j < k ==> c[j] != '\n'
                &&& (b == 0 || c[b - 1] == '\n')
                &&& tu.content == c.take(b) + c.skip(k)
                &&& tu.cursor == b
                &&& tu.kill_ring == (if b < k { c.subrange(b, k) } else { s.kill_ring })
            }
            &&& k == 0 ==> tw.content == c && tw.cursor == 0
            &&& k > 0 ==> exists|t: int| #![trigger c.subrange(t, k)] {
                &&& word_back_from(c, k, t)
                &&& tw.content == c.take(t) + c.skip(k)
                &&& tw.cursor == t
                &&& tw.kill_ring == (if t < k { c.subrange(t, k) } else { s.kill_ring })
            }
        }),
{
    let c = s.content;
    let k = s.cursor as int;
    lemma_line_end(c, k);
    lemma_line_start(c, k);
    let e = line_end(c, k);
    let b = line_start(c, k);
    let tk = input_event(s, ctrl_char('k')).0;
    let tu = input_event(s, ctrl_char('u')).0;
    assert(tk.content == c.take(k) + c.skip(e));
    assert(tu.content == c.take(b) + c.skip(k));
    lemma_word_moves(s);
    if k > 0 {
        lemma_trim_back_run(c, k);
        lemma_after_sep_run(c, trim_back(c, k));
        let t = word_start(c, k);
        assert(blanks_between(c, trim_back(c, k), k));
        assert(word_between(c, t, trim_back(c, k)));
        assert(word_back_from(c, k, t));
        let tw = input_event(s, ctrl_char('w')).0;
        assert(tw.content == c.take(t) + c.skip(k));
        assert(c.subrange(t, k) == c.subrange(t, k));
    }
}

/// Ctrl+U then Ctrl+Y gives the text and the cursor back, when the cursor
/// was not at the start of its line.
pub proof fn lemma_kill_to_start_then_yank(s: InputBarState)
    requires
        state_inv(s),
        !s.confirming,
        !s.questioning,
        line_start(s.content, s.cursor as int) < s.cursor,
    ensures
        ({
            let s2 = input_event(input_event(s, ctrl_char('u')).0, ctrl_char('y')).0;
            s2.content == s.content && s2.cursor == s.cursor
        }),
{
    let c = s.content;
    let k = s.cursor as int;
    lemma_line_start(c, k);
    let b = line_start(c, k);
    let s1 = input_event(s, ctrl_char('u')).0;
    assert(s1.kill_ring =~= c.subrange(b, k));
    assert(s1.content =~= c.take(b) + c.skip(k));
    let s2 = input_event(s1, ctrl_char('y')).0;
    assert(s2.content =~= c);
}

/// Ctrl+W then Ctrl+Y gives the text and the cursor back, when there is a
/// word (or blanks) before the cursor to delete.
pub proof fn lemma_kill_word_then_yank(s: InputBarState)
    requires
        state_inv(s),
        !s.confirming,
        !s.questioning,
        word_start(s.content, s.cursor as int) < s.cursor,
    ensures
        ({
            let s2 = input_event(input_event(s, ctrl_char('w')).0, ctrl_char('y')).0;
            s2.content == s.content && s2.cursor == s.cursor
        }),
{
    let c = s.content;
    let k = s.cursor as int;
    lemma_word_start_bound(c, k);
    let b = word_start(c, k);
    let s1 = input_event(s, ctrl_char('w')).0;
    assert(s1.kill_ring =~= c.subrange(b, k));
    assert(s1.content =~= c.take(b) + c.skip(k));
    let s2 = input_event(s1, ctrl_char('y')).0;
    assert(s2.content =~= c);
}

/// After a non-empty text is taken, Up brings it back into the input.
pub proof fn lemma_up_recalls_taken_text(s: InputBarState)
    requires
        state_inv(s),
        !s.confirming,
        !s.questioning,
        s.content.len() > 0,
    ensures
        ({
            let t = input_event(take_input_state(s), plain(Key::Up)).0;
            t.content == s.content && t.cursor == s.content.len()
                && t.history_index == Some(s.history.len())
        }),
{
    let t0 = take_input_state(s);
    assert(t0.history[s.history.len() as int] == s.content);
}

/// Enter (without Shift) submits the text and clears the input: the
/// action carries the text unless it is blank, and a non-empty text is
/// added to the history.
pub proof fn lemma_enter_submits(s: InputBarState, m: Modifiers)
    requires
        state_inv(s),
        !s.confirming,
        !s.questioning,
        !m.shift,
    ensures
        ({
            let (t, a) = input_event(s, Event::Key(KeyEvent { key: Key::Enter, modifiers: m }));
            &&& t.content.len() == 0
            &&& t.cursor == 0
            &&& (trim(s.content).len() > 0 ==> a == ActionView::SendMessage(s.content))
            &&& (trim(s.content).len() == 0 ==> a == ActionView::NoOp)
            &&& t.history_index is None
            &&& t.history == (if s.content.len() > 0 { s.history.push(s.content) } else { s.history })
        }),
{
}

/// Tab on a command name cycles through the names that start with what
/// was typed: the first Tab shows the first match, the second the next one
/// (when the first match is itself a slash command without spaces).
pub proof fn lemma_tab_cycles(s: InputBarState)
    requires
        state_inv(s),
        !s.confirming,
        !s.questioning,
        s.tab_index is None,
        seq!['/'].is_prefix_of(s.content),
        forall|j: int| 0 <= j < s.content.len() ==> s.content[j] != ' ',
        prefix_matches(s.commands, lowercase(s.content)).len() > 0,
        seq!['/'].is_prefix_of(prefix_matches(s.commands, lowercase(s.content))[0]),
        forall|j: int| 0 <= j < prefix_matches(s.commands, lowercase(s.content))[0].len()
            ==> prefix_matches(s.commands, lowercase(s.content))[0][j] != ' ',
    ensures
        ({
            let m = prefix_matches(s.commands, lowercase(s.content));
            let t1 = input_event(s, plain(Key::Tab)).0;
            let t2 = input_event(t1, plain(Key::Tab)).0;
            &&& t1.content == m[0]
            &&& t2.content == m[1int % (m.len() as int)]
        }),
{
    let m = prefix_matches(s.commands, lowercase(s.content));
    lemma_no_space(s.content, 0);
    let t1 = input_event(s, plain(Key::Tab)).0;
    assert(t1.content == m[0]);
    lemma_no_space(m[0], 0);
}

proof fn lemma_no_space(c: Seq<char>, k: int)
    requires
        0 <= k <= c.len(),
        forall|j: int| 0 <= j < c.len() ==> c[j] != ' ',
    ensures
        first_space(c, k) == c.len(),
    decreases c.len() - k,
{
    if k < c.len() {
        lemma_no_space(c, k + 1);
    }
}

} // verus!
