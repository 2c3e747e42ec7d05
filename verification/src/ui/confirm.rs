//! Tool confirmation: the answer read from the user, which arguments are
//! listed, how argument values are shortened, and how a shell command is
//! laid out over lines of limited width.

use vstd::prelude::*;
use vstd::utf8::*;
use vstd::string::StringSliceAdditionalSpecFns;
use crate::style::{BG_WARN, BOLD, BRIGHT_CYAN, BRIGHT_YELLOW, DIM, FILL_EOL, GREEN, RESET, WHITE};
use crate::text::{
    char_utf8_len, chars_eq, chars_of, lemma_encode_len_push, lower_chars, lowercase, push_decimal,
    push_str, skip_ws_forward, slice_chars, string_of, string_push, trim, trim_chars, trim_start, utf8_len,
    decimal,
};
use crate::tui::widget::byte_prefix_len;

verus! {

/// The width of an output line.
pub const MAX_LINE_WIDTH: usize = 100;

/// Bytes of a command on its first line, after the 4-column indent and `$ `.
pub const CMD_FIRST_AVAIL: usize = 94;

/// Bytes of a command on a continuation line, after the indent and `> `.
pub const CMD_CONT_AVAIL: usize = 94;

/// The answer to a tool confirmation prompt.
#[derive(Clone, Copy, Debug, PartialEq, Eq, Structural)]
pub enum Confirmation {
    /// This tool call is approved.
    Yes,
    /// This tool call is denied.
    No,
    /// This and all remaining tool calls of the current loop are approved.
    AutoAccept,
}

/// The answer for a typed line: `y` or `yes` approve, `a` or `auto`
/// approve all, anything else denies (after trimming, ignoring case).
pub open spec fn confirmation_of(input: Seq<char>) -> Confirmation {
    let t = lowercase(trim(input));
    if t == seq!['y'] || t == seq!['y', 'e', 's'] {
        Confirmation::Yes
    } else if t == seq!['a'] || t == seq!['a', 'u', 't', 'o'] {
        Confirmation::AutoAccept
    } else {
        Confirmation::No
    }
}

/// The answer for a typed line (see [`confirmation_of`]).
pub fn parse_confirmation(input: &str) -> (r: Confirmation)
    ensures
        r == confirmation_of(input@),
{
    let cs = chars_of(input);
    let t = lower_chars(&trim_chars(&cs));
    proof {
        assert(['y']@ =~= seq!['y']);
        assert(['y', 'e', 's']@ =~= seq!['y', 'e', 's']);
        assert(['a']@ =~= seq!['a']);
        assert(['a', 'u', 't', 'o']@ =~= seq!['a', 'u', 't', 'o']);
    }
    if chars_eq(&t, &['y']) || chars_eq(&t, &['y', 'e', 's']) {
        Confirmation::Yes
    } else if chars_eq(&t, &['a']) || chars_eq(&t, &['a', 'u', 't', 'o']) {
        Confirmation::AutoAccept
    } else {
        Confirmation::No
    }
}

/// The arguments not listed for a tool, because its diff or preview shows them.
pub open spec fn skipped_keys(tool: Seq<char>) -> Seq<Seq<char>> {
    if tool == "edit"@ {
        seq!["old_str"@, "new_str"@, "content"@]
    } else if tool == "write"@ {
        seq!["content"@]
    } else if tool == "run"@ {
        seq!["command"@]
    } else {
        Seq::empty()
    }
}

/// The arguments not listed for a tool (see [`skipped_keys`]).
pub fn skip_keys(tool: &str) -> (r: Vec<&'static str>)
    ensures
        r@.map_values(|s: &str| s@) == skipped_keys(tool@),
{
    let t = chars_of(tool);
    let mut r: Vec<&'static str> = Vec::new();
    if chars_eq(&t, &chars_of("edit")) {
        r.push("old_str");
        r.push("new_str");
        r.push("content");
    } else if chars_eq(&t, &chars_of("write")) {
        r.push("content");
    } else if chars_eq(&t, &chars_of("run")) {
        r.push("command");
    }
    proof {
        assert(r@.map_values(|s: &str| s@) =~= skipped_keys(tool@));
    }
    r
}

/// How an argument value is listed: values over 100 bytes are cut to their
/// first 97 bytes, followed by `... (N chars)` with N their byte length.
pub open spec fn value_display(s: Seq<char>) -> Seq<char> {
    let n = encode_utf8(s).len();
    if n > 100 {
        s.take(byte_prefix_len(s, 97) as int) + seq!['.', '.', '.', ' ', '('] + decimal(n)
            + seq![' ', 'c', 'h', 'a', 'r', 's', ')']
    } else {
        s
    }
}

/// How an argument value is listed (see [`value_display`]); a value over
/// 100 bytes must have a character boundary at byte 97.
pub fn format_arg_value(s: &str) -> (r: String)
    requires
        s.spec_bytes().len() > 100 ==> is_char_boundary(s.spec_bytes(), 97),
    ensures
        r@ == value_display(s@),
{
    let n = s.as_bytes().len();
    if n > 100 {
        let head = crate::tui::widget::truncate_str(s, 97);
        let mut r = String::new();
        push_str(&mut r, head);
        push_str(&mut r, "... (");
        push_decimal(&mut r, n as u64);
        push_str(&mut r, " chars)");
        proof {
            reveal_strlit("... (");
            reveal_strlit(" chars)");
            assert(r@ =~= value_display(s@));
        }
        r
    } else {
        s.to_owned()
    }
}

/// The prefix of the first line of a command.
pub open spec fn first_prefix() -> Seq<char> {
    BG_WARN@ + "    "@ + BOLD@ + WHITE@ + "$ "@
}

/// The prefix of a continuation line of a command.
pub open spec fn cont_prefix() -> Seq<char> {
    BG_WARN@ + "    "@ + DIM@ + ">"@ + WHITE@ + " "@
}

/// A command line: the prefix, the text in bright cyan, the line filled to its end.
pub open spec fn command_line(prefix: Seq<char>, text: Seq<char>) -> Seq<char> {
    prefix + BRIGHT_CYAN@ + text + FILL_EOL@ + RESET@
}

/// The last space in `c` before position `k`, or -1.
pub open spec fn last_space(c: Seq<char>, k: int) -> int
    decreases k,
{
    if k <= 0 {
        -1
    } else if c[k - 1] == ' ' {
        k - 1
    } else {
        last_space(c, k - 1)
    }
}

pub proof fn lemma_last_space(c: Seq<char>, k: int)
    requires
        0 <= k <= c.len(),
    ensures
        -1 <= last_space(c, k) < k,
    decreases k,
{
    if k > 0 && c[k - 1] != ' ' {
        lemma_last_space(c, k - 1);
    }
}

pub proof fn lemma_trim_start_len(c: Seq<char>)
    ensures
        trim_start(c).len() <= c.len(),
{
    crate::text::lemma_leading_ws_bound(c);
}

pub proof fn lemma_byte_prefix_positive(c: Seq<char>, max: int)
    requires
        c.len() > 0,
        max >= 4,
    ensures
        1 <= byte_prefix_len(c, max) <= c.len(),
{
    lemma_byte_prefix_bound(c, max);
    assert(char_utf8_len(c[0]) <= 4) by {
        char_is_scalar(c[0]);
    }
}

pub proof fn lemma_byte_prefix_bound(c: Seq<char>, max: int)
    ensures
        byte_prefix_len(c, max) <= c.len(),
    decreases c.len(),
{
    if c.len() > 0 && char_utf8_len(c[0]) <= max {
        lemma_byte_prefix_bound(c.drop_first(), max - char_utf8_len(c[0]));
    }
}

/// The lines of a shell command at most 94 bytes of command each: a line
/// breaks at the last space within the limit (the space and the spaces
/// after it are not shown), or at the limit itself when there is no such
/// space; the first line has the `$` prefix, the others the `>` prefix.
pub open spec fn command_lines(rem: Seq<char>, first: bool) -> Seq<Seq<char>>
    decreases rem.len(),
{
    if rem.len() == 0 {
        Seq::empty()
    } else {
        let prefix = if first { first_prefix() } else { cont_prefix() };
        if encode_utf8(rem).len() <= 94 {
            seq![command_line(prefix, rem)]
        } else {
            let k = byte_prefix_len(rem, 94) as int;
            let chunk = rem.take(k);
            let sp = last_space(chunk, k);
            proof {
                lemma_byte_prefix_positive(rem, 94);
                lemma_last_space(chunk, k);
                lemma_trim_start_len(rem.skip(sp));
                lemma_trim_start_len(rem.skip(k));
            }
            if sp > 0 {
                seq![command_line(prefix, chunk.take(sp))] + command_lines(trim_start(rem.skip(sp)), false)
            } else {
                seq![command_line(prefix, chunk)] + command_lines(trim_start(rem.skip(k)), false)
            }
        }
    }
}

fn line_text(prefix: &str, text: &[char]) -> (r: String)
    ensures
        r@ == command_line(prefix@, text@),
{
    let mut r = String::new();
    push_str(&mut r, prefix);
    push_str(&mut r, BRIGHT_CYAN);
    let t = string_of(text);
    push_str(&mut r, t.as_str());
    push_str(&mut r, FILL_EOL);
    push_str(&mut r, RESET);
    proof {
        assert(r@ =~= command_line(prefix@, text@));
    }
    r
}

fn prefix_text(first: bool) -> (r: String)
    ensures
        r@ == (if first { first_prefix() } else { cont_prefix() }),
{
    let mut r = String::new();
    push_str(&mut r, BG_WARN);
    push_str(&mut r, "    ");
    if first {
        push_str(&mut r, BOLD);
        push_str(&mut r, WHITE);
        push_str(&mut r, "$ ");
    } else {
        push_str(&mut r, DIM);
        push_str(&mut r, ">");
        push_str(&mut r, WHITE);
        push_str(&mut r, " ");
    }
    proof {
        if first {
            assert(r@ =~= first_prefix());
        } else {
            assert(r@ =~= cont_prefix());
        }
    }
    r
}

/// The number of leading characters of `c` within `max` bytes, and their byte count.
fn fit_bytes(c: &[char], max: usize) -> (r: (usize, usize))
    ensures
        r.0 == byte_prefix_len(c@, max as int),
        r.1 == encode_utf8(c@.take(r.0 as int)).len(),
        r.1 <= max,
        r.0 <= c@.len(),
        r.0 < c@.len() ==> char_utf8_len(c@[r.0 as int]) > max - r.1,
{
    let mut i: usize = 0;
    let mut bytes: usize = 0;
    proof {
        assert(c@.skip(0) =~= c@);
        assert(c@.take(0) =~= Seq::<char>::empty());
    }
    while i < c.len()
        invariant
            i <= c@.len(),
            bytes <= max,
            bytes == encode_utf8(c@.take(i as int)).len(),
            byte_prefix_len(c@, max as int) == i + byte_prefix_len(c@.skip(i as int), max - bytes),
        ensures
            i < c@.len() ==> char_utf8_len(c@[i as int]) > max - bytes,
        decreases c@.len() - i,
    {
        let n = utf8_len(c[i]);
        proof {
            assert(c@.skip(i as int)[0] == c@[i as int]);
            assert(c@.skip(i as int).drop_first() =~= c@.skip(i + 1));
        }
        if n > max - bytes {
            break;
        }
        proof {
            lemma_encode_len_push(c@.take(i as int), c@[i as int]);
            assert(c@.take(i as int).push(c@[i as int]) =~= c@.take(i + 1));
        }
        bytes = bytes + n;
        i += 1;
    }
    proof {
        if i < c@.len() {
            assert(c@.skip(i as int)[0] == c@[i as int]);
        } else {
            assert(c@.skip(i as int).len() == 0);
        }
    }
    (i, bytes)
}

/// The lines of a shell command (see [`command_lines`]).
pub fn command_line_texts(cmd: &str) -> (r: Vec<String>)
    ensures
        r@.map_values(|s: String| s@) == command_lines(cmd@, true),
{
    let mut rem = chars_of(cmd);
    let mut first = true;
    let mut out: Vec<String> = Vec::new();
    proof {
        assert(out@.map_values(|s: String| s@) + command_lines(rem@, first) =~= command_lines(cmd@, true));
    }
    while rem.len() > 0
        invariant
            out@.map_values(|s: String| s@) + command_lines(rem@, first) == command_lines(cmd@, true),
        decreases rem@.len(),
    {
        let prefix = prefix_text(first);
        let (k, b) = fit_bytes(&rem, CMD_FIRST_AVAIL);
        proof {
            lemma_byte_prefix_bound(rem@, 94);
            if k == rem@.len() {
                assert(rem@.take(k as int) =~= rem@);
            }
        }
        let ghost prev_out = out@;
        let ghost old_rem = rem@;
        let ghost old_first = first;
        if k == rem.len() {
            let line = line_text(prefix.as_str(), &rem);
            out.push(line);
            proof {
                assert(encode_utf8(old_rem).len() <= 94);
                assert(prev_out.push(line).map_values(|s: String| s@) =~= prev_out.map_values(|s: String| s@).push(line@));
                assert(command_lines(old_rem, old_first) == seq![line@]);
                assert(command_lines(Seq::<char>::empty(), false) == Seq::<Seq<char>>::empty());
                assert(out@.map_values(|s: String| s@) + command_lines(Seq::<char>::empty(), false)
                    =~= prev_out.map_values(|s: String| s@) + command_lines(old_rem, old_first));
            }
            rem = Vec::new();
            first = false;
        } else {
            proof {
                assert(encode_utf8(old_rem).len() > 94) by {
                    lemma_encode_len_push(old_rem.take(k as int), old_rem[k as int]);
                    assert(old_rem.take(k as int).push(old_rem[k as int]) =~= old_rem.take(k + 1));
                    crate::text::lemma_encode_append(old_rem.take(k + 1), old_rem.skip(k + 1));
                    assert(old_rem.take(k + 1) + old_rem.skip(k + 1) =~= old_rem);
                }
                lemma_byte_prefix_positive(old_rem, 94);
            }
            let mut sp: usize = k;
            while sp > 0 && rem[sp - 1] != ' '
                invariant
                    sp <= k <= rem@.len(),
                    last_space(rem@.take(k as int), k as int) == last_space(rem@.take(k as int), sp as int),
                decreases sp,
            {
                sp -= 1;
            }
            let ghost chunk = rem@.take(k as int);
            proof {
                lemma_last_space(chunk, k as int);
                if sp > 0 {
                    assert(chunk[sp - 1] == ' ');
                }
            }
            let (shown, cut) = if sp > 1 {
                let ghost ls = (sp - 1) as int;
                (slice_chars(&rem, 0, sp - 1), sp - 1)
            } else {
                (slice_chars(&rem, 0, k), k)
            };
            proof {
                let ls = last_space(chunk, k as int);
                if sp > 1 {
                    assert(ls == sp - 1);
                    assert(shown@ =~= chunk.take(ls));
                } else {
                    assert(ls <= 0);
                    assert(shown@ =~= chunk);
                }
            }
            let line = line_text(prefix.as_str(), &shown);
            out.push(line);
            let tail = slice_chars(&rem, cut, rem.len());
            let st = skip_ws_forward(&tail, 0);
            let next = slice_chars(&tail, st, tail.len());
            proof {
                assert(tail@ =~= old_rem.skip(cut as int));
                assert(tail@.skip(0) =~= tail@);
                assert(next@ =~= trim_start(tail@));
                lemma_trim_start_len(tail@);
                assert(prev_out.push(line).map_values(|s: String| s@) =~= prev_out.map_values(|s: String| s@).push(line@));
                assert(command_lines(old_rem, old_first) == seq![line@] + command_lines(next@, false));
                assert(out@.map_values(|s: String| s@) + command_lines(next@, false)
                    =~= prev_out.map_values(|s: String| s@) + command_lines(old_rem, old_first));
            }
            rem = next;
            first = false;
        }
    }
    proof {
        assert(command_lines(rem@, first) == Seq::<Seq<char>>::empty());
        assert(out@.map_values(|s: String| s@) =~= command_lines(cmd@, true));
    }
    out
}


// ── Prompt layout ──────────────────────────────────────────────────────────

/// The header of a confirmation prompt: `─── ⚠ <name> ───` on the warning
/// background.
pub open spec fn header_text(name: Seq<char>) -> Seq<char> {
    BG_WARN@ + seq![' ', ' '] + WHITE@ + seq!['─', '─', '─', ' '] + BRIGHT_YELLOW@ + seq!['⚠', ' '] + WHITE@ + name
        + WHITE@ + seq![' ', '─', '─', '─'] + FILL_EOL@ + RESET@
}

/// The header line of a confirmation prompt (see [`header_text`]).
pub fn confirmation_header(name: &str) -> (r: String)
    ensures
        r@ == header_text(name@),
{
    let mut s = String::new();
    push_str(&mut s, BG_WARN);
    string_push(&mut s, ' ');
    string_push(&mut s, ' ');
    push_str(&mut s, WHITE);
    string_push(&mut s, '─');
    string_push(&mut s, '─');
    string_push(&mut s, '─');
    string_push(&mut s, ' ');
    push_str(&mut s, BRIGHT_YELLOW);
    string_push(&mut s, '⚠');
    string_push(&mut s, ' ');
    push_str(&mut s, WHITE);
    push_str(&mut s, name);
    push_str(&mut s, WHITE);
    string_push(&mut s, ' ');
    string_push(&mut s, '─');
    string_push(&mut s, '─');
    string_push(&mut s, '─');
    push_str(&mut s, FILL_EOL);
    push_str(&mut s, RESET);
    proof {
        assert(s@ =~= header_text(name@));
    }
    s
}

/// An argument line: `<key>: <value>` on the warning background.
pub open spec fn argument_text(key: Seq<char>, value: Seq<char>) -> Seq<char> {
    BG_WARN@ + seq![' ', ' '] + BRIGHT_CYAN@ + key + seq![':', ' '] + WHITE@ + value + FILL_EOL@ + RESET@
}

/// An argument line of a confirmation prompt (see [`argument_text`]).
pub fn argument_line(key: &str, value: &str) -> (r: String)
    ensures
        r@ == argument_text(key@, value@),
{
    let mut s = String::new();
    push_str(&mut s, BG_WARN);
    string_push(&mut s, ' ');
    string_push(&mut s, ' ');
    push_str(&mut s, BRIGHT_CYAN);
    push_str(&mut s, key);
    string_push(&mut s, ':');
    string_push(&mut s, ' ');
    push_str(&mut s, WHITE);
    push_str(&mut s, value);
    push_str(&mut s, FILL_EOL);
    push_str(&mut s, RESET);
    proof {
        assert(s@ =~= argument_text(key@, value@));
    }
    s
}

/// The rule that closes a confirmation prompt.
pub open spec fn footer_text() -> Seq<char> {
    BG_WARN@ + seq![' ', ' '] + DIM@ + crate::text::repeat_char('─', 31) + FILL_EOL@ + RESET@
}

/// The closing rule of a confirmation prompt (see [`footer_text`]).
pub fn confirmation_footer() -> (r: String)
    ensures
        r@ == footer_text(),
{
    let mut s = String::new();
    push_str(&mut s, BG_WARN);
    string_push(&mut s, ' ');
    string_push(&mut s, ' ');
    push_str(&mut s, DIM);
    crate::text::push_repeat(&mut s, '─', 31);
    push_str(&mut s, FILL_EOL);
    push_str(&mut s, RESET);
    proof {
        assert(s@ =~= footer_text());
    }
    s
}

/// The question asked after the prompt (no newline): `Allow? y/n/a: `.
pub open spec fn question_text() -> Seq<char> {
    seq![' ', ' '] + BOLD@ + seq!['A', 'l', 'l', 'o', 'w', '?', ' '] + GREEN@ + seq!['y'] + BOLD@ + seq!['/', 'n', '/', 'a']
        + RESET@ + seq![':', ' ']
}

/// The question of a confirmation prompt (see [`question_text`]).
pub fn confirmation_question() -> (r: String)
    ensures
        r@ == question_text(),
{
    let mut s = String::new();
    string_push(&mut s, ' ');
    string_push(&mut s, ' ');
    push_str(&mut s, BOLD);
    string_push(&mut s, 'A');
    string_push(&mut s, 'l');
    string_push(&mut s, 'l');
    string_push(&mut s, 'o');
    string_push(&mut s, 'w');
    string_push(&mut s, '?');
    string_push(&mut s, ' ');
    push_str(&mut s, GREEN);
    string_push(&mut s, 'y');
    push_str(&mut s, BOLD);
    string_push(&mut s, '/');
    string_push(&mut s, 'n');
    string_push(&mut s, '/');
    string_push(&mut s, 'a');
    push_str(&mut s, RESET);
    string_push(&mut s, ':');
    string_push(&mut s, ' ');
    proof {
        assert(s@ =~= question_text());
    }
    s
}

/// What a confirmation prompt shows below the arguments.
#[derive(Clone, Copy, Debug, PartialEq, Eq, Structural)]
pub enum ConfirmPreview {
    /// The diff of an edit.
    EditDiff,
    /// The shell command of a run.
    Command,
    /// The preview of a write.
    WritePreview,
    /// Nothing.
    Nothing,
}

/// The preview for a tool: an edit with a path and a text to replace shows
/// its diff, a run with a command shows the command, a write with a path and
/// content shows its preview (a path counts when it is more than whitespace).
pub open spec fn preview_for(tool: Seq<char>, path: Seq<char>, old_str: Seq<char>, command: Seq<char>, content: Seq<char>) -> ConfirmPreview {
    if tool == seq!['e', 'd', 'i', 't'] && trim(path).len() > 0 && old_str.len() > 0 {
        ConfirmPreview::EditDiff
    } else if tool == seq!['r', 'u', 'n'] && command.len() > 0 {
        ConfirmPreview::Command
    } else if tool == seq!['w', 'r', 'i', 't', 'e'] && trim(path).len() > 0 && content.len() > 0 {
        ConfirmPreview::WritePreview
    } else {
        ConfirmPreview::Nothing
    }
}

/// The preview for a tool call (see [`preview_for`]).
pub fn confirm_preview(tool: &str, path: &str, old_str: &str, command: &str, content: &str) -> (r: ConfirmPreview)
    ensures
        r == preview_for(tool@, path@, old_str@, command@, content@),
{
    let t = chars_of(tool);
    let has_path = trim_chars(&chars_of(path)).len() > 0;
    if chars_eq(&t, &['e', 'd', 'i', 't']) && has_path && chars_of(old_str).len() > 0 {
        proof {
            assert(['e', 'd', 'i', 't']@ =~= seq!['e', 'd', 'i', 't']);
        }
        return ConfirmPreview::EditDiff;
    }
    proof {
        assert(['e', 'd', 'i', 't']@ =~= seq!['e', 'd', 'i', 't']);
        assert(['r', 'u', 'n']@ =~= seq!['r', 'u', 'n']);
        assert(['w', 'r', 'i', 't', 'e']@ =~= seq!['w', 'r', 'i', 't', 'e']);
    }
    if chars_eq(&t, &['r', 'u', 'n']) && chars_of(command).len() > 0 {
        return ConfirmPreview::Command;
    }
    if chars_eq(&t, &['w', 'r', 'i', 't', 'e']) && has_path && chars_of(content).len() > 0 {
        return ConfirmPreview::WritePreview;
    }
    ConfirmPreview::Nothing
}

} // verus!
