//! Line-editor support for slash commands: completion candidates, inline
//! hints, highlighting, and whether an input line is complete.

use vstd::prelude::*;
use crate::style::{GRAY, RESET, TITLE_COLOR};
use crate::text::{
    chars_eq, chars_of, lower_chars, lowercase, push_str, skip_ws_forward, slice_chars, string_of,
    trailing_ws, trim_end, trim_start, vv,
};
use crate::tui::widget::{byte_prefix_len, truncate_str};
use crate::tui::widgets::input_bar::{first_space, matches_with_prefix, prefix_matches};

verus! {

/// The known command names (primary names and aliases).
pub open spec fn command_list() -> Seq<Seq<char>> {
    seq!["/add"@, "/agent"@, "/apikey"@, "/audit"@, "/autoaccept"@, "/casual"@, "/clear"@, "/command"@, "/compact"@, "/context"@, "/contextlimit"@, "/drop"@, "/dropall"@, "/exit"@, "/files"@, "/help"@, "/init"@, "/mode"@, "/model"@, "/plan"@, "/quit"@, "/refresh"@, "/rename"@, "/retries"@, "/research"@, "/session"@, "/sessions"@, "/settings"@, "/showthink"@, "/skill"@, "/skills"@, "/think"@, "/timeout"@, "/unload"@, "/use"@]
}

/// The argument completions of a command (none for most).
pub open spec fn subcommand_list(cmd: Seq<char>) -> Seq<Seq<char>> {
    if cmd == "/command"@ {
        seq!["add"@, "deny"@, "help"@, "list"@, "rm"@, "reset"@, "resetdeny"@, "undeny"@]
    } else if cmd == "/session"@ {
        seq!["delete"@]
    } else if cmd == "/mode"@ {
        seq!["agent"@, "casual"@, "planning"@, "research"@]
    } else if cmd == "/settings"@ {
        seq!["all"@]
    } else if cmd == "/autoaccept"@ {
        seq!["off"@, "on"@]
    } else if cmd == "/apikey"@ {
        seq!["clear"@]
    } else if cmd == "/showthink"@ {
        seq!["off"@, "on"@]
    } else if cmd == "/think"@ {
        seq!["high"@, "low"@, "medium"@, "off"@]
    } else {
        Seq::empty()
    }
}

fn command_names() -> (r: Vec<Vec<char>>)
    ensures
        vv(r@) == command_list(),
{
    let mut r: Vec<Vec<char>> = Vec::new();
    r.push(chars_of("/add"));
    r.push(chars_of("/agent"));
    r.push(chars_of("/apikey"));
    r.push(chars_of("/audit"));
    r.push(chars_of("/autoaccept"));
    r.push(chars_of("/casual"));
    r.push(chars_of("/clear"));
    r.push(chars_of("/command"));
    r.push(chars_of("/compact"));
    r.push(chars_of("/context"));
    r.push(chars_of("/contextlimit"));
    r.push(chars_of("/drop"));
    r.push(chars_of("/dropall"));
    r.push(chars_of("/exit"));
    r.push(chars_of("/files"));
    r.push(chars_of("/help"));
    r.push(chars_of("/init"));
    r.push(chars_of("/mode"));
    r.push(chars_of("/model"));
    r.push(chars_of("/plan"));
    r.push(chars_of("/quit"));
    r.push(chars_of("/refresh"));
    r.push(chars_of("/rename"));
    r.push(chars_of("/retries"));
    r.push(chars_of("/research"));
    r.push(chars_of("/session"));
    r.push(chars_of("/sessions"));
    r.push(chars_of("/settings"));
    r.push(chars_of("/showthink"));
    r.push(chars_of("/skill"));
    r.push(chars_of("/skills"));
    r.push(chars_of("/think"));
    r.push(chars_of("/timeout"));
    r.push(chars_of("/unload"));
    r.push(chars_of("/use"));
    proof {
        assert(vv(r@) =~= command_list());
    }
    r
}

fn subcommand_completions(cmd: &[char]) -> (r: Vec<Vec<char>>)
    ensures
        vv(r@) == subcommand_list(cmd@),
{
    let mut r: Vec<Vec<char>> = Vec::new();
    if chars_eq(cmd, &chars_of("/command")) {
        r.push(chars_of("add"));
        r.push(chars_of("deny"));
        r.push(chars_of("help"));
        r.push(chars_of("list"));
        r.push(chars_of("rm"));
        r.push(chars_of("reset"));
        r.push(chars_of("resetdeny"));
        r.push(chars_of("undeny"));
    } else if chars_eq(cmd, &chars_of("/session")) {
        r.push(chars_of("delete"));
    } else if chars_eq(cmd, &chars_of("/mode")) {
        r.push(chars_of("agent"));
        r.push(chars_of("casual"));
        r.push(chars_of("planning"));
        r.push(chars_of("research"));
    } else if chars_eq(cmd, &chars_of("/settings")) {
        r.push(chars_of("all"));
    } else if chars_eq(cmd, &chars_of("/autoaccept")) {
        r.push(chars_of("off"));
        r.push(chars_of("on"));
    } else if chars_eq(cmd, &chars_of("/apikey")) {
        r.push(chars_of("clear"));
    } else if chars_eq(cmd, &chars_of("/showthink")) {
        r.push(chars_of("off"));
        r.push(chars_of("on"));
    } else if chars_eq(cmd, &chars_of("/think")) {
        r.push(chars_of("high"));
        r.push(chars_of("low"));
        r.push(chars_of("medium"));
        r.push(chars_of("off"));
    }
    proof {
        assert(vv(r@) =~= subcommand_list(cmd@));
    }
    r
}

/// The first `n` items of `v` (all of them when there are fewer).
pub open spec fn first_n(v: Seq<Seq<char>>, n: int) -> Seq<Seq<char>> {
    if v.len() > n { v.take(n) } else { v }
}

/// The items of `v` separated by `sep`.
pub open spec fn join(v: Seq<Seq<char>>, sep: Seq<char>) -> Seq<char>
    decreases v.len(),
{
    if v.len() == 0 {
        Seq::empty()
    } else if v.len() == 1 {
        v[0]
    } else {
        join(v.drop_last(), sep) + sep + v.last()
    }
}

/// Completion candidates for the text before the cursor (`prefix`) of a
/// line: for `/cmd arg` with a known argument list, up to five `"/cmd arg"`
/// forms whose argument starts with the typed one (ignoring case);
/// otherwise up to three command names starting with the prefix.
pub open spec fn completions(line: Seq<char>, prefix: Seq<char>, pos: int) -> Seq<Seq<char>> {
    if !seq!['/'].is_prefix_of(line) || pos == 0 {
        Seq::empty()
    } else {
        let sp = first_space(prefix, 0);
        let cmd = lowercase(prefix.take(sp));
        if sp < prefix.len() && subcommand_list(cmd).len() > 0 {
            let arg = lowercase(trim_start(prefix.skip(sp + 1)));
            first_n(prefix_matches(subcommand_list(cmd), arg), 5).map_values(|s: Seq<char>| cmd + seq![' '] + s)
        } else {
            first_n(prefix_matches(command_list(), lowercase(prefix)), 3)
        }
    }
}

/// The inline hint for a line with the cursor at its end (`pos` bytes): the
/// rest of the only matching command, a single argument completion, or the
/// list of matches in parentheses; nothing when nothing matches or the
/// argument is already complete.
pub open spec fn hint_for(line: Seq<char>, pos: int) -> Option<Seq<char>> {
    if !seq!['/'].is_prefix_of(line) || pos == 0 || vstd::utf8::encode_utf8(line).len() != pos {
        None
    } else {
        let sp = first_space(line, 0);
        let cmd = lowercase(line.take(sp));
        if sp < line.len() && subcommand_list(cmd).len() > 0 {
            let arg = lowercase(trim_start(line.skip(sp + 1)));
            let m = first_n(prefix_matches(subcommand_list(cmd), arg), 5);
            if m.len() == 0 {
                None
            } else if m.len() == 1 && arg.len() == 0 {
                Some(seq![' '] + m[0])
            } else if m.len() == 1 && arg == m[0] {
                None
            } else {
                Some(seq![' ', ' ', '('] + join(m, seq![' ', '|', ' ']) + seq![')'])
            }
        } else {
            let m = first_n(prefix_matches(command_list(), lowercase(line)), 3);
            if m.len() == 0 {
                None
            } else if m.len() == 1 && line.len() < m[0].len() {
                Some(m[0].skip(line.len() as int))
            } else {
                Some(seq![' ', ' ', '('] + join(m, seq![' ', ' ']) + seq![')'])
            }
        }
    }
}

/// The number of non-overlapping runs of three backticks, scanning from the left.
pub open spec fn fence_count(s: Seq<char>) -> nat
    decreases s.len(),
{
    if s.len() < 3 {
        0
    } else if s[0] == '`' && s[1] == '`' && s[2] == '`' {
        1 + fence_count(s.skip(3))
    } else {
        fence_count(s.skip(1))
    }
}

/// The number of backticks.
pub open spec fn backtick_count(s: Seq<char>) -> nat
    decreases s.len(),
{
    if s.len() == 0 {
        0
    } else {
        backtick_count(s.drop_last()) + (if s.last() == '`' { 1nat } else { 0nat })
    }
}

/// Whether an input line is complete: it does not end (before trailing
/// whitespace) with a backslash, and has no open code fence or code span.
pub open spec fn input_complete(s: Seq<char>) -> bool {
    let t = trim_end(s);
    &&& !(t.len() > 0 && t.last() == '\\')
    &&& fence_count(s) % 2 == 0
    &&& backtick_count(s) % 2 == 0
}

/// Whether a line needs more input, or is complete.
#[derive(Clone, Copy, Debug, PartialEq, Eq, Structural)]
pub enum LineStatus {
    Incomplete,
    Valid,
}

fn first_n_exec(v: Vec<Vec<char>>, n: usize) -> (r: Vec<Vec<char>>)
    ensures
        vv(r@) == first_n(vv(v@), n as int),
{
    if v.len() > n {
        let mut r: Vec<Vec<char>> = Vec::new();
        for i in 0..n
            invariant
                n < v@.len(),
                vv(r@) == vv(v@).take(i as int),
        {
            let e = crate::text::copy_chars(&v[i]);
            let ghost prev = r@;
            r.push(e);
            proof {
                assert(vv(prev.push(e)) =~= vv(prev).push(e@));
                assert(vv(v@).take(i + 1) =~= vv(v@).take(i as int).push(v@[i as int]@));
            }
        }
        r
    } else {
        v
    }
}

fn join_exec(v: &Vec<Vec<char>>, sep: &[char]) -> (r: Vec<char>)
    ensures
        r@ == join(vv(v@), sep@),
{
    let mut r: Vec<char> = Vec::new();
    for i in 0..v.len()
        invariant
            r@ == join(vv(v@).take(i as int), sep@),
    {
        proof {
            assert(vv(v@).take(i + 1).drop_last() =~= vv(v@).take(i as int));
            assert(vv(v@).take(i + 1).last() == v@[i as int]@);
            if i == 0 {
                assert(vv(v@).take(1)[0] == v@[0]@);
            }
        }
        if i > 0 {
            r = crate::text::concat_chars(&r, sep);
        }
        r = crate::text::concat_chars(&r, &v[i]);
    }
    proof {
        assert(vv(v@).take(v@.len() as int) =~= vv(v@));
    }
    r
}

fn strings_of(v: &Vec<Vec<char>>) -> (r: Vec<String>)
    ensures
        r@.map_values(|s: String| s@) == vv(v@),
{
    let mut r: Vec<String> = Vec::new();
    for i in 0..v.len()
        invariant
            r@.map_values(|s: String| s@) == vv(v@).take(i as int),
    {
        let s = string_of(&v[i]);
        let ghost prev = r@;
        r.push(s);
        proof {
            assert(prev.push(s).map_values(|s: String| s@) =~= prev.map_values(|s: String| s@).push(s@));
            assert(vv(v@).take(i + 1) =~= vv(v@).take(i as int).push(v@[i as int]@));
        }
    }
    proof {
        assert(vv(v@).take(v@.len() as int) =~= vv(v@));
    }
    r
}

/// Completion candidates for `line` with the cursor at byte `pos` (see
/// [`completions`]); the candidates replace the line from its start.
pub fn complete(line: &str, pos: usize) -> (r: (usize, Vec<String>))
    ensures
        r.0 == 0,
        r.1@.map_values(|s: String| s@) == completions(line@, line@.take(byte_prefix_len(line@, pos as int) as int), pos as int),
{
    let lc = chars_of(line);
    if !(lc.len() > 0 && lc[0] == '/') || pos == 0 {
        proof {
            if lc@.len() > 0 && lc@[0] != '/' {
                assert(seq!['/'][0] != line@.subrange(0, 1)[0]);
            }
        }
        let empty: Vec<String> = Vec::new();
        proof {
            assert(empty@.map_values(|s: String| s@) =~= Seq::<Seq<char>>::empty());
        }
        return (0, empty);
    }
    proof {
        assert(seq!['/'] =~= line@.subrange(0, 1));
    }
    let prefix = chars_of(truncate_str(line, pos));
    let sp = crate::tui::widgets::input_bar::find_first_space(&prefix);
    let head = slice_chars(&prefix, 0, sp);
    let cmd = lower_chars(&head);
    proof {
        assert(head@ =~= prefix@.take(sp as int));
    }
    let subs = subcommand_completions(&cmd);
    if sp < prefix.len() && subs.len() > 0 {
        let rest = slice_chars(&prefix, sp + 1, prefix.len());
        let st = skip_ws_forward(&rest, 0);
        let trimmed = slice_chars(&rest, st, rest.len());
        let arg = lower_chars(&trimmed);
        proof {
            assert(rest@ =~= prefix@.skip(sp + 1));
            assert(rest@.skip(0) =~= rest@);
            assert(trimmed@ =~= trim_start(rest@));
        }
        let m = first_n_exec(matches_with_prefix(&subs, &arg), 5);
        let mut out: Vec<String> = Vec::new();
        let mut lead = crate::text::copy_chars(&cmd);
        lead.push(' ');
        for i in 0..m.len()
            invariant
                lead@ == cmd@ + seq![' '],
                out@.map_values(|s: String| s@) == vv(m@).take(i as int).map_values(|s: Seq<char>| cmd@ + seq![' '] + s),
        {
            let full = crate::text::concat_chars(&lead, &m[i]);
            let s = string_of(&full);
            let ghost prev = out@;
            out.push(s);
            proof {
                assert(prev.push(s).map_values(|s: String| s@) =~= prev.map_values(|s: String| s@).push(s@));
                assert(vv(m@).take(i + 1).map_values(|s: Seq<char>| cmd@ + seq![' '] + s)
                    =~= vv(m@).take(i as int).map_values(|s: Seq<char>| cmd@ + seq![' '] + s).push(cmd@ + seq![' '] + m@[i as int]@));
            }
        }
        proof {
            assert(vv(m@).take(m@.len() as int) =~= vv(m@));
        }
        return (0, out);
    }
    let lp = lower_chars(&prefix);
    let m = first_n_exec(matches_with_prefix(&command_names(), &lp), 3);
    (0, strings_of(&m))
}

/// The inline hint for `line` with the cursor at byte `pos` (see [`hint_for`]).
pub fn hint(line: &str, pos: usize) -> (r: Option<String>)
    ensures
        match r {
            Some(h) => hint_for(line@, pos as int) == Some(h@),
            None => hint_for(line@, pos as int) is None,
        },
{
    let lc = chars_of(line);
    let blen = line.as_bytes().len();
    if !(lc.len() > 0 && lc[0] == '/') || pos == 0 || blen != pos {
        proof {
            if lc@.len() > 0 && lc@[0] != '/' {
                assert(seq!['/'][0] != line@.subrange(0, 1)[0]);
            }
        }
        return None;
    }
    proof {
        assert(seq!['/'] =~= line@.subrange(0, 1));
    }
    let sp = crate::tui::widgets::input_bar::find_first_space(&lc);
    let head = slice_chars(&lc, 0, sp);
    let cmd = lower_chars(&head);
    proof {
        assert(head@ =~= line@.take(sp as int));
    }
    let subs = subcommand_completions(&cmd);
    if sp < lc.len() && subs.len() > 0 {
        let rest = slice_chars(&lc, sp + 1, lc.len());
        let st = skip_ws_forward(&rest, 0);
        let trimmed = slice_chars(&rest, st, rest.len());
        let arg = lower_chars(&trimmed);
        proof {
            assert(rest@ =~= line@.skip(sp + 1));
            assert(rest@.skip(0) =~= rest@);
            assert(trimmed@ =~= trim_start(rest@));
        }
        let m = first_n_exec(matches_with_prefix(&subs, &arg), 5);
        if m.len() == 0 {
            return None;
        }
        if m.len() == 1 && arg.len() == 0 {
            let h = crate::text::concat_chars(&[' '], &m[0]);
            proof {
                assert([' ']@ =~= seq![' ']);
            }
            return Some(string_of(&h));
        }
        if m.len() == 1 && chars_eq(&arg, &m[0]) {
            return None;
        }
        let joined = join_exec(&m, &[' ', '|', ' ']);
        let h1 = crate::text::concat_chars(&[' ', ' ', '('], &joined);
        let h2 = crate::text::concat_chars(&h1, &[')']);
        proof {
            assert([' ', '|', ' ']@ =~= seq![' ', '|', ' ']);
            assert([' ', ' ', '(']@ =~= seq![' ', ' ', '(']);
            assert([')']@ =~= seq![')']);
        }
        return Some(string_of(&h2));
    }
    let lp = lower_chars(&lc);
    let m = first_n_exec(matches_with_prefix(&command_names(), &lp), 3);
    if m.len() == 0 {
        return None;
    }
    if m.len() == 1 && lc.len() < m[0].len() {
        let tail = slice_chars(&m[0], lc.len(), m[0].len());
        proof {
            assert(tail@ =~= m@[0]@.skip(line@.len() as int));
        }
        return Some(string_of(&tail));
    }
    let joined = join_exec(&m, &[' ', ' ']);
    let h1 = crate::text::concat_chars(&[' ', ' ', '('], &joined);
    let h2 = crate::text::concat_chars(&h1, &[')']);
    proof {
        assert([' ', ' ']@ =~= seq![' ', ' ']);
        assert([' ', ' ', '(']@ =~= seq![' ', ' ', '(']);
        assert([')']@ =~= seq![')']);
    }
    Some(string_of(&h2))
}

/// Whether `input` is complete or needs another line (see [`input_complete`]).
pub fn validate(input: &str) -> (r: LineStatus)
    ensures
        (r == LineStatus::Valid) == input_complete(input@),
{
    let cs = chars_of(input);
    let mut end = cs.len();
    proof {
        assert(cs@.take(cs@.len() as int) =~= cs@);
    }
    while end > 0 && crate::text::is_whitespace(cs[end - 1])
        invariant
            end <= cs@.len(),
            trailing_ws(cs@) == (cs@.len() - end) + trailing_ws(cs@.take(end as int)),
        decreases end,
    {
        proof {
            assert(cs@.take(end as int).drop_last() =~= cs@.take(end - 1));
        }
        end -= 1;
    }
    proof {
        assert(cs@.take(cs@.len() as int) =~= cs@);
        assert(trim_end(cs@) =~= cs@.take(end as int));
    }
    if end > 0 && cs[end - 1] == '\\' {
        return LineStatus::Incomplete;
    }
    let mut fences: usize = 0;
    let mut i: usize = 0;
    proof {
        assert(cs@.skip(0) =~= cs@);
    }
    while i < cs.len()
        invariant
            i <= cs@.len(),
            fences <= i,
            fence_count(cs@) == fences + fence_count(cs@.skip(i as int)),
        decreases cs@.len() - i,
    {
        if cs.len() - i >= 3 && cs[i] == '`' && cs[i + 1] == '`' && cs[i + 2] == '`' {
            proof {
                assert(cs@.skip(i as int).skip(3) =~= cs@.skip(i + 3));
            }
            fences += 1;
            i += 3;
        } else {
            proof {
                assert(cs@.skip(i as int).skip(1) =~= cs@.skip(i + 1));
            }
            i += 1;
        }
    }
    if fences % 2 == 1 {
        return LineStatus::Incomplete;
    }
    let mut ticks: usize = 0;
    for j in 0..cs.len()
        invariant
            ticks <= j,
            backtick_count(cs@.take(j as int)) == ticks,
    {
        proof {
            assert(cs@.take(j + 1).drop_last() =~= cs@.take(j as int));
        }
        if cs[j] == '`' {
            ticks += 1;
        }
    }
    if ticks % 2 == 1 {
        return LineStatus::Incomplete;
    }
    LineStatus::Valid
}

/// The line as drawn: slash commands in the title color.
pub fn highlight(line: &str) -> (r: String)
    ensures
        seq!['/'].is_prefix_of(line@) ==> r@ == TITLE_COLOR@ + line@ + RESET@,
        !seq!['/'].is_prefix_of(line@) ==> r@ == line@,
{
    let lc = chars_of(line);
    if lc.len() > 0 && lc[0] == '/' {
        proof {
            assert(seq!['/'] =~= line@.subrange(0, 1));
        }
        let mut r = String::new();
        push_str(&mut r, TITLE_COLOR);
        push_str(&mut r, line);
        push_str(&mut r, RESET);
        r
    } else {
        proof {
            if lc@.len() > 0 {
                assert(seq!['/'][0] != line@.subrange(0, 1)[0]);
            }
        }
        line.to_owned()
    }
}

/// A hint as drawn: in gray.
pub fn highlight_hint(hint: &str) -> (r: String)
    ensures
        r@ == GRAY@ + hint@ + RESET@,
{
    let mut r = String::new();
    push_str(&mut r, GRAY);
    push_str(&mut r, hint);
    push_str(&mut r, RESET);
    r
}

/// A completion candidate as drawn: in the title color.
pub fn highlight_candidate(candidate: &str) -> (r: String)
    ensures
        r@ == TITLE_COLOR@ + candidate@ + RESET@,
{
    let mut r = String::new();
    push_str(&mut r, TITLE_COLOR);
    push_str(&mut r, candidate);
    push_str(&mut r, RESET);
    r
}

/// Completes slash commands.
pub struct CommandCompleter;

/// Hints slash commands.
pub struct CommandHinter;

/// Highlights slash commands.
pub struct CommandHighlighter;

/// The line-editor helper: completer, hinter and highlighter.
pub struct CommandHelper {
    pub completer: CommandCompleter,
    pub hinter: CommandHinter,
    pub highlighter: CommandHighlighter,
}

impl CommandHelper {
    pub fn new() -> (r: Self) {
        CommandHelper { completer: CommandCompleter, hinter: CommandHinter, highlighter: CommandHighlighter }
    }
}

// ── Laws ─────────────────────────────────────────────────────────────────────

/// The names matching a prefix are exactly the names that start with it:
/// each one listed starts with the prefix and is a name, and each name that
/// starts with the prefix is listed.
pub proof fn lemma_prefix_matches(names: Seq<Seq<char>>, p: Seq<char>)
    ensures
        prefix_matches(names, p).len() <= names.len(),
        forall|k: int| 0 <= k < prefix_matches(names, p).len()
            ==> p.is_prefix_of(#[trigger] prefix_matches(names, p)[k]) && names.contains(prefix_matches(names, p)[k]),
        forall|j: int| 0 <= j < names.len() && p.is_prefix_of(#[trigger] names[j])
            ==> prefix_matches(names, p).contains(names[j]),
    decreases names.len(),
{
    if names.len() > 0 {
        let rest = names.drop_last();
        lemma_prefix_matches(rest, p);
        let m = prefix_matches(rest, p);
        let r = prefix_matches(names, p);
        assert forall|k: int| 0 <= k < r.len() implies p.is_prefix_of(#[trigger] r[k]) && names.contains(r[k]) by {
            if k < m.len() {
                assert(r[k] == m[k]);
                let j = choose|j: int| 0 <= j < rest.len() && rest[j] == m[k];
                assert(names[j] == rest[j]);
            } else {
                assert(names[names.len() - 1] == names.last());
            }
        }
        assert forall|j: int| 0 <= j < names.len() && p.is_prefix_of(#[trigger] names[j]) implies r.contains(names[j]) by {
            if j < rest.len() {
                assert(rest[j] == names[j]);
                let k = choose|k: int| 0 <= k < m.len() && m[k] == rest[j];
                assert(r[k] == m[k]);
            } else {
                assert(r[r.len() - 1] == names.last());
            }
        }
    }
}

/// Without a space from `k` on, `first_space` is the end.
proof fn lemma_first_space_none(c: Seq<char>, k: int)
    requires
        0 <= k,
        forall|j: int| 0 <= j < c.len() ==> c[j] != ' ',
    ensures
        first_space(c, k) == c.len(),
    decreases c.len() - k,
{
    if k < c.len() {
        lemma_first_space_none(c, k + 1);
    }
}

/// Completing a slash command name (no space typed yet) offers at most
/// three known command names, each starting with what was typed (ignoring
/// case); when fewer than three are offered, every command that starts with
/// it is among them.
pub proof fn lemma_command_completions(line: Seq<char>, prefix: Seq<char>, pos: int)
    requires
        seq!['/'].is_prefix_of(line),
        pos != 0,
        forall|j: int| 0 <= j < prefix.len() ==> prefix[j] != ' ',
    ensures
        ({
            let r = completions(line, prefix, pos);
            let typed = lowercase(prefix);
            &&& r.len() <= 3
            &&& forall|k: int| 0 <= k < r.len() ==> command_list().contains(#[trigger] r[k]) && typed.is_prefix_of(r[k])
            &&& r.len() < 3 ==> forall|j: int| 0 <= j < command_list().len() && typed.is_prefix_of(#[trigger] command_list()[j])
                ==> r.contains(command_list()[j])
        }),
{
    lemma_first_space_none(prefix, 0);
    let typed = lowercase(prefix);
    let m = prefix_matches(command_list(), typed);
    lemma_prefix_matches(command_list(), typed);
    let r = completions(line, prefix, pos);
    assert(r == first_n(m, 3));
    if m.len() > 3 {
        assert forall|k: int| 0 <= k < r.len() implies command_list().contains(#[trigger] r[k]) && typed.is_prefix_of(r[k]) by {
            assert(r[k] == m[k]);
        }
    }
}

/// Completing the argument of a command that has argument completions
/// offers at most five `"/cmd arg"` forms: the command (lowercased), a
/// space, and an argument of that command starting with the typed argument
/// (ignoring case); when fewer than five are offered, every such argument
/// is among them.
pub proof fn lemma_argument_completions(line: Seq<char>, prefix: Seq<char>, pos: int)
    requires
        seq!['/'].is_prefix_of(line),
        pos != 0,
        first_space(prefix, 0) < prefix.len(),
        subcommand_list(lowercase(prefix.take(first_space(prefix, 0)))).len() > 0,
    ensures
        ({
            let r = completions(line, prefix, pos);
            let sp = first_space(prefix, 0);
            let cmd = lowercase(prefix.take(sp));
            let arg = lowercase(trim_start(prefix.skip(sp + 1)));
            let subs = subcommand_list(cmd);
            &&& r.len() <= 5
            &&& forall|k: int| 0 <= k < r.len() ==> (cmd + seq![' ']).is_prefix_of(#[trigger] r[k])
                && subs.contains(r[k].skip(cmd.len() as int + 1)) && arg.is_prefix_of(r[k].skip(cmd.len() as int + 1))
            &&& r.len() < 5 ==> forall|j: int| 0 <= j < subs.len() && arg.is_prefix_of(#[trigger] subs[j])
                ==> r.contains(cmd + seq![' '] + subs[j])
        }),
{
    let sp = first_space(prefix, 0);
    let cmd = lowercase(prefix.take(sp));
    let arg = lowercase(trim_start(prefix.skip(sp + 1)));
    let subs = subcommand_list(cmd);
    let m = prefix_matches(subs, arg);
    lemma_prefix_matches(subs, arg);
    let f = first_n(m, 5);
    let r = completions(line, prefix, pos);
    assert(r == f.map_values(|s: Seq<char>| cmd + seq![' '] + s));
    assert forall|k: int| 0 <= k < r.len() implies (cmd + seq![' ']).is_prefix_of(#[trigger] r[k])
        && subs.contains(r[k].skip(cmd.len() as int + 1)) && arg.is_prefix_of(r[k].skip(cmd.len() as int + 1)) by {
        assert(f[k] == m[k]);
        assert(subs.contains(m[k]));
        assert(r[k] == cmd + seq![' '] + m[k]);
        assert(r[k].skip(cmd.len() as int + 1) =~= m[k]);
        assert(r[k].take(cmd.len() as int + 1) =~= cmd + seq![' ']);
    }
    if r.len() < 5 {
        assert(f == m);
        assert forall|j: int| 0 <= j < subs.len() && arg.is_prefix_of(#[trigger] subs[j])
            implies r.contains(cmd + seq![' '] + subs[j]) by {
            let k = choose|k: int| 0 <= k < m.len() && m[k] == subs[j];
            assert(r[k] == cmd + seq![' '] + subs[j]);
        }
    }
}

/// A text without backticks has no code fence.
proof fn lemma_no_backtick_fences(t: Seq<char>)
    requires
        forall|j: int| 0 <= j < t.len() ==> t[j] != '`',
    ensures
        fence_count(t) == 0,
        backtick_count(t) == 0,
    decreases t.len(),
{
    if t.len() > 0 {
        assert forall|j: int| 0 <= j < t.skip(1).len() implies t.skip(1)[j] != '`' by {
            assert(t.skip(1)[j] == t[j + 1]);
        }
        lemma_no_backtick_fences(t.skip(1));
        assert forall|j: int| 0 <= j < t.drop_last().len() implies t.drop_last()[j] != '`' by {
            assert(t.drop_last()[j] == t[j]);
        }
        lemma_no_backtick_fences(t.drop_last());
    }
}

/// Backticks of a concatenation add up.
proof fn lemma_backtick_count_concat(a: Seq<char>, b: Seq<char>)
    ensures
        backtick_count(a + b) == backtick_count(a) + backtick_count(b),
    decreases b.len(),
{
    if b.len() > 0 {
        assert((a + b).drop_last() =~= a + b.drop_last());
        lemma_backtick_count_concat(a, b.drop_last());
    }
}

/// An input that ends (before trailing whitespace) with a backslash is not
/// complete; an input without backticks that does not is complete; an
/// opened code fence or code span with no backtick after it is not.
pub proof fn lemma_validate_cases(s: Seq<char>, t: Seq<char>)
    requires
        forall|j: int| 0 <= j < t.len() ==> t[j] != '`',
    ensures
        trim_end(s).len() > 0 && trim_end(s).last() == '\\' ==> !input_complete(s),
        (forall|j: int| 0 <= j < s.len() ==> s[j] != '`') && !(trim_end(s).len() > 0 && trim_end(s).last() == '\\')
            ==> input_complete(s),
        !input_complete(seq!['`', '`', '`'] + t),
        !input_complete(seq!['`'] + t),
{
    if forall|j: int| 0 <= j < s.len() ==> s[j] != '`' {
        lemma_no_backtick_fences(s);
    }
    lemma_no_backtick_fences(t);
    let f = seq!['`', '`', '`'] + t;
    assert(f.skip(3) =~= t);
    lemma_backtick_count_concat(seq!['`', '`', '`'], t);
    lemma_backtick_count_concat(seq!['`'], t);
    assert(seq!['`', '`', '`'].drop_last() =~= seq!['`', '`']);
    assert(seq!['`', '`'].drop_last() =~= seq!['`']);
    assert(seq!['`'].drop_last() =~= Seq::<char>::empty());
    assert(backtick_count(Seq::<char>::empty()) == 0);
    assert(seq!['`'].last() == '`');
    assert(backtick_count(seq!['`']) == 1);
    assert(backtick_count(seq!['`', '`']) == 2);
    assert(backtick_count(seq!['`', '`', '`']) == 3);
}

} // verus!
