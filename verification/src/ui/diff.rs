//! Line-level diff computed with a longest-common-subsequence table.

use vstd::prelude::*;

use crate::style::{BOLD, BOX_COLOR, DIM, GREEN, RED, RESET};
use crate::text::{
    chars_of, decimal, decimal_len, find_chars, first_occurrence, lemma_first_occurrence, lemma_text_lines_len, push_decimal, push_repeat, push_str,
    repeat_char, str_lines, string_push, strings_view, strs_view, text_lines,
};

verus! {

/// A single line in a diff — either kept, removed, or added.
#[derive(Debug, Clone, Copy, PartialEq)]
pub enum DiffLine<'a> {
    /// Line present in both old and new (unchanged).
    Keep(&'a str),
    /// Line present only in old (removed).
    Remove(&'a str),
    /// Line present only in new (added).
    Add(&'a str),
}

/// The mathematical meaning of a [`DiffLine`]: which edit, on which text.
pub enum LineEdit {
    Keep(Seq<char>),
    Remove(Seq<char>),
    Add(Seq<char>),
}

impl<'a> View for DiffLine<'a> {
    type V = LineEdit;

    open spec fn view(&self) -> LineEdit {
        match self {
            DiffLine::Keep(s) => LineEdit::Keep(s@),
            DiffLine::Remove(s) => LineEdit::Remove(s@),
            DiffLine::Add(s) => LineEdit::Add(s@),
        }
    }
}

/// The text of each line of a slice of string slices.
pub open spec fn lines_view(lines: Seq<&str>) -> Seq<Seq<char>> {
    lines.map_values(|s: &str| s@)
}

/// The edits of a diff.
pub open spec fn diff_view(d: Seq<DiffLine>) -> Seq<LineEdit> {
    d.map_values(|l: DiffLine| l@)
}

pub open spec fn max_nat(x: nat, y: nat) -> nat {
    if x >= y { x } else { y }
}

/// Length of a longest common subsequence of `a` and `b`.
pub open spec fn lcs(a: Seq<Seq<char>>, b: Seq<Seq<char>>) -> nat
    decreases a.len() + b.len(),
{
    if a.len() == 0 || b.len() == 0 {
        0
    } else if a.last() == b.last() {
        lcs(a.drop_last(), b.drop_last()) + 1
    } else {
        max_nat(lcs(a.drop_last(), b), lcs(a, b.drop_last()))
    }
}

/// The edit script for `a[..i]` → `b[..j]` obtained by walking the LCS table
/// back from `(i, j)`: a common last line is kept; otherwise an addition is
/// preferred whenever dropping the last new line loses no common line.
pub open spec fn edit_script(a: Seq<Seq<char>>, b: Seq<Seq<char>>, i: nat, j: nat) -> Seq<LineEdit>
    decreases i + j,
{
    if i == 0 && j == 0 {
        Seq::empty()
    } else if i > 0 && j > 0 && a[i - 1] == b[j - 1] {
        edit_script(a, b, (i - 1) as nat, (j - 1) as nat).push(LineEdit::Keep(a[i - 1]))
    } else if j > 0 && (i == 0 || lcs(a.take(i as int), b.take(j - 1)) >= lcs(a.take(i - 1), b.take(j as int))) {
        edit_script(a, b, i, (j - 1) as nat).push(LineEdit::Add(b[j - 1]))
    } else {
        edit_script(a, b, (i - 1) as nat, j).push(LineEdit::Remove(a[i - 1]))
    }
}

/// The diff that [`compute_diff`] returns for the line sequences `a` and `b`.
pub open spec fn spec_diff(a: Seq<Seq<char>>, b: Seq<Seq<char>>) -> Seq<LineEdit> {
    edit_script(a, b, a.len(), b.len())
}

/// The lines of the old text that an edit script reads (kept and removed lines).
pub open spec fn old_side(d: Seq<LineEdit>) -> Seq<Seq<char>>
    decreases d.len(),
{
    if d.len() == 0 {
        Seq::empty()
    } else {
        match d.last() {
            LineEdit::Keep(l) => old_side(d.drop_last()).push(l),
            LineEdit::Remove(l) => old_side(d.drop_last()).push(l),
            LineEdit::Add(_) => old_side(d.drop_last()),
        }
    }
}

/// The lines of the new text that an edit script writes (kept and added lines).
pub open spec fn new_side(d: Seq<LineEdit>) -> Seq<Seq<char>>
    decreases d.len(),
{
    if d.len() == 0 {
        Seq::empty()
    } else {
        match d.last() {
            LineEdit::Keep(l) => new_side(d.drop_last()).push(l),
            LineEdit::Add(l) => new_side(d.drop_last()).push(l),
            LineEdit::Remove(_) => new_side(d.drop_last()),
        }
    }
}

/// Number of kept lines in an edit script.
pub open spec fn keep_count(d: Seq<LineEdit>) -> nat
    decreases d.len(),
{
    if d.len() == 0 {
        0
    } else {
        match d.last() {
            LineEdit::Keep(_) => keep_count(d.drop_last()) + 1,
            _ => keep_count(d.drop_last()),
        }
    }
}

/// Whether two string slices hold the same characters.
fn str_eq(a: &str, b: &str) -> (r: bool)
    ensures
        r == (a@ == b@),
{
    crate::text::chars_eq(&crate::text::chars_of(a), &crate::text::chars_of(b))
}

proof fn lemma_take_drop_last(s: Seq<Seq<char>>, i: int)
    requires
        0 < i <= s.len(),
    ensures
        s.take(i).drop_last() == s.take(i - 1),
        s.take(i).last() == s[i - 1],
{
    assert(s.take(i).drop_last() =~= s.take(i - 1));
}

/// The edit script of an empty old text adds every new line.
proof fn lemma_script_from_empty(a: Seq<Seq<char>>, b: Seq<Seq<char>>, j: nat)
    requires
        0 <= j <= b.len(),
    ensures
        edit_script(a, b, 0, j).len() == j,
        forall|k: int| 0 <= k < j ==> edit_script(a, b, 0, j)[k] == LineEdit::Add(b[k]),
    decreases j,
{
    if j > 0 {
        lemma_script_from_empty(a, b, (j - 1) as nat);
    }
}

/// The edit script onto an empty new text removes every old line.
proof fn lemma_script_to_empty(a: Seq<Seq<char>>, b: Seq<Seq<char>>, i: nat)
    requires
        0 <= i <= a.len(),
    ensures
        edit_script(a, b, i, 0).len() == i,
        forall|k: int| 0 <= k < i ==> edit_script(a, b, i, 0)[k] == LineEdit::Remove(a[k]),
    decreases i,
{
    if i > 0 {
        lemma_script_to_empty(a, b, (i - 1) as nat);
    }
}

/// The edit script between equal texts keeps every line.
proof fn lemma_script_identical(a: Seq<Seq<char>>, i: nat)
    requires
        0 <= i <= a.len(),
    ensures
        edit_script(a, a, i, i).len() == i,
        forall|k: int| 0 <= k < i ==> edit_script(a, a, i, i)[k] == LineEdit::Keep(a[k]),
    decreases i,
{
    if i > 0 {
        lemma_script_identical(a, (i - 1) as nat);
    }
}

/// LCS length does not depend on the order of its arguments.
proof fn lemma_lcs_symmetric(a: Seq<Seq<char>>, b: Seq<Seq<char>>)
    ensures
        lcs(a, b) == lcs(b, a),
    decreases a.len() + b.len(),
{
    if a.len() == 0 || b.len() == 0 {
    } else if a.last() == b.last() {
        lemma_lcs_symmetric(a.drop_last(), b.drop_last());
    } else {
        lemma_lcs_symmetric(a.drop_last(), b);
        lemma_lcs_symmetric(a, b.drop_last());
    }
}

/// Dropping the last line of the first text loses at most one common line.
proof fn lemma_lcs_grow(a: Seq<Seq<char>>, b: Seq<Seq<char>>)
    requires
        a.len() > 0,
    ensures
        lcs(a.drop_last(), b) <= lcs(a, b) <= lcs(a.drop_last(), b) + 1,
    decreases a.len() + b.len(),
{
    let a1 = a.drop_last();
    if b.len() == 0 {
    } else {
        let b1 = b.drop_last();
        lemma_lcs_symmetric(a1, b);
        lemma_lcs_symmetric(a1, b1);
        lemma_lcs_grow(b, a1);
        if a.last() == b.last() {
        } else {
            lemma_lcs_grow(a, b1);
        }
    }
}

/// An edit script keeps at most as many lines as a longest common subsequence
/// of the texts it reads and writes.
proof fn lemma_keep_count_le_lcs(d: Seq<LineEdit>)
    ensures
        keep_count(d) <= lcs(old_side(d), new_side(d)),
    decreases d.len(),
{
    if d.len() > 0 {
        let d1 = d.drop_last();
        lemma_keep_count_le_lcs(d1);
        let os = old_side(d1);
        let ns = new_side(d1);
        match d.last() {
            LineEdit::Keep(l) => {
                assert(os.push(l).drop_last() =~= os);
                assert(ns.push(l).drop_last() =~= ns);
            },
            LineEdit::Remove(l) => {
                assert(os.push(l).drop_last() =~= os);
                lemma_lcs_grow(os.push(l), ns);
            },
            LineEdit::Add(l) => {
                assert(ns.push(l).drop_last() =~= ns);
                lemma_lcs_grow(ns.push(l), os);
                lemma_lcs_symmetric(ns.push(l), os);
                lemma_lcs_symmetric(ns, os);
            },
        }
    }
}

/// What the table walk from `(i, j)` reads, writes and keeps.
proof fn lemma_script_prefix(a: Seq<Seq<char>>, b: Seq<Seq<char>>, i: nat, j: nat)
    requires
        i <= a.len(),
        j <= b.len(),
    ensures
        old_side(edit_script(a, b, i, j)) == a.take(i as int),
        new_side(edit_script(a, b, i, j)) == b.take(j as int),
        keep_count(edit_script(a, b, i, j)) == lcs(a.take(i as int), b.take(j as int)),
    decreases i + j,
{
    let e = edit_script(a, b, i, j);
    if i == 0 && j == 0 {
        assert(a.take(0) =~= Seq::<Seq<char>>::empty());
        assert(b.take(0) =~= Seq::<Seq<char>>::empty());
    } else if i > 0 && j > 0 && a[i - 1] == b[j - 1] {
        lemma_script_prefix(a, b, (i - 1) as nat, (j - 1) as nat);
        lemma_take_drop_last(a, i as int);
        lemma_take_drop_last(b, j as int);
        assert(e.drop_last() =~= edit_script(a, b, (i - 1) as nat, (j - 1) as nat));
        assert(a.take(i - 1).push(a[i - 1]) =~= a.take(i as int));
        assert(b.take(j - 1).push(b[j - 1]) =~= b.take(j as int));
    } else if j > 0 && (i == 0 || lcs(a.take(i as int), b.take(j - 1)) >= lcs(
        a.take(i - 1),
        b.take(j as int),
    )) {
        lemma_script_prefix(a, b, i, (j - 1) as nat);
        lemma_take_drop_last(b, j as int);
        assert(e.drop_last() =~= edit_script(a, b, i, (j - 1) as nat));
        assert(b.take(j - 1).push(b[j - 1]) =~= b.take(j as int));
        if i > 0 {
            lemma_take_drop_last(a, i as int);
        }
    } else {
        lemma_script_prefix(a, b, (i - 1) as nat, j);
        lemma_take_drop_last(a, i as int);
        assert(e.drop_last() =~= edit_script(a, b, (i - 1) as nat, j));
        assert(a.take(i - 1).push(a[i - 1]) =~= a.take(i as int));
        if j > 0 {
            lemma_take_drop_last(b, j as int);
        }
    }
}

/// The diff turns the old lines into the new ones: its kept and removed lines
/// are exactly the old lines, its kept and added lines exactly the new ones.
pub proof fn lemma_diff_sides(a: Seq<Seq<char>>, b: Seq<Seq<char>>)
    ensures
        old_side(spec_diff(a, b)) == a,
        new_side(spec_diff(a, b)) == b,
{
    lemma_script_prefix(a, b, a.len(), b.len());
    assert(a.take(a.len() as int) =~= a);
    assert(b.take(b.len() as int) =~= b);
}

/// The diff keeps a longest common subsequence of the two texts.
pub proof fn lemma_diff_keeps_lcs(a: Seq<Seq<char>>, b: Seq<Seq<char>>)
    ensures
        keep_count(spec_diff(a, b)) == lcs(a, b),
{
    lemma_script_prefix(a, b, a.len(), b.len());
    assert(a.take(a.len() as int) =~= a);
    assert(b.take(b.len() as int) =~= b);
}

/// The diff is minimal: no edit script from the old lines to the new lines
/// keeps more lines (equivalently, none removes or adds fewer).
pub proof fn lemma_diff_minimal(a: Seq<Seq<char>>, b: Seq<Seq<char>>, d: Seq<LineEdit>)
    requires
        old_side(d) == a,
        new_side(d) == b,
    ensures
        keep_count(d) <= keep_count(spec_diff(a, b)),
{
    lemma_keep_count_le_lcs(d);
    lemma_diff_keeps_lcs(a, b);
}

/// Diffing a text against itself keeps every line.
pub proof fn lemma_diff_identical(a: Seq<Seq<char>>)
    ensures
        spec_diff(a, a) == a.map_values(|l: Seq<char>| LineEdit::Keep(l)),
{
    lemma_script_identical(a, a.len());
    assert(spec_diff(a, a) =~= a.map_values(|l: Seq<char>| LineEdit::Keep(l)));
}

/// Compute the shortest edit script between `old` and `new`.
///
/// A longest-common-subsequence table is filled, then walked back from the
/// end to produce the diff (see [`spec_diff`]).
pub fn compute_diff<'a>(old: &'a [&str], new: &'a [&str]) -> (result: Vec<DiffLine<'a>>)
    requires
        old@.len() < usize::MAX,
        new@.len() < usize::MAX,
    ensures
        diff_view(result@) == spec_diff(lines_view(old@), lines_view(new@)),
{
    let ghost a = lines_view(old@);
    let ghost b = lines_view(new@);
    let n = old.len();
    let m = new.len();

    if n == 0 && m == 0 {
        let result: Vec<DiffLine<'a>> = Vec::new();
        proof {
            assert(diff_view(result@) =~= spec_diff(a, b));
        }
        return result;
    }
    if n == 0 {
        let mut result: Vec<DiffLine<'a>> = Vec::new();
        for k in 0..m
            invariant
                m == new@.len(),
                result@.len() == k,
                forall|t: int| 0 <= t < k ==> result@[t]@ == LineEdit::Add(b[t]),
                b == lines_view(new@),
        {
            result.push(DiffLine::Add(new[k]));
        }
        proof {
            lemma_script_from_empty(a, b, m as nat);
            assert(diff_view(result@) =~= spec_diff(a, b));
        }
        return result;
    }
    if m == 0 {
        let mut result: Vec<DiffLine<'a>> = Vec::new();
        for k in 0..n
            invariant
                n == old@.len(),
                result@.len() == k,
                forall|t: int| 0 <= t < k ==> result@[t]@ == LineEdit::Remove(a[t]),
                a == lines_view(old@),
        {
            result.push(DiffLine::Remove(old[k]));
        }
        proof {
            lemma_script_to_empty(a, b, n as nat);
            assert(diff_view(result@) =~= spec_diff(a, b));
        }
        return result;
    }
    // Equal inputs: every line is kept.
    let mut same = true;
    let mut k: usize = 0;
    if n == m {
        while k < n && same
            invariant
                n == old@.len(),
                m == new@.len(),
                n == m,
                k <= n,
                a == lines_view(old@),
                b == lines_view(new@),
                same ==> forall|t: int| 0 <= t < k ==> a[t] == b[t],
                !same ==> a != b,
            decreases n - k + (if same { 1int } else { 0int }),
        {
            if !str_eq(old[k], new[k]) {
                same = false;
                proof {
                    assert(a[k as int] != b[k as int]);
                }
            } else {
                k += 1;
            }
        }
    } else {
        same = false;
    }
    if same {
        proof {
            assert(a =~= b);
        }
        let mut result: Vec<DiffLine<'a>> = Vec::new();
        for t in 0..n
            invariant
                n == old@.len(),
                result@.len() == t,
                forall|u: int| 0 <= u < t ==> result@[u]@ == LineEdit::Keep(a[u]),
                a == lines_view(old@),
        {
            result.push(DiffLine::Keep(old[t]));
        }
        proof {
            lemma_script_identical(a, n as nat);
            assert(diff_view(result@) =~= spec_diff(a, b));
        }
        return result;
    }
    let table = lcs_table(old, new);
    backtrack(old, new, &table)
}

/// The table of LCS lengths: `table[i][j] == lcs(a[..i], b[..j])`.
fn lcs_table(old: &[&str], new: &[&str]) -> (table: Vec<Vec<usize>>)
    requires
        old@.len() < usize::MAX,
        new@.len() < usize::MAX,
    ensures
        table@.len() == old@.len() + 1,
        forall|i: int| 0 <= i <= old@.len() ==> #[trigger] table@[i]@.len() == new@.len() + 1,
        forall|i: int, j: int|
            0 <= i <= old@.len() && 0 <= j <= new@.len() ==> #[trigger] table@[i]@[j] == lcs(
                lines_view(old@).take(i),
                lines_view(new@).take(j),
            ),
{
    let ghost a = lines_view(old@);
    let ghost b = lines_view(new@);
    let n = old.len();
    let m = new.len();
    let mut table: Vec<Vec<usize>> = Vec::new();
    let mut first: Vec<usize> = Vec::new();
    for j in 0..m + 1
        invariant
            first@.len() == j,
            forall|t: int| 0 <= t < j ==> first@[t] == 0,
    {
        first.push(0);
    }
    proof {
        assert forall|j: int| 0 <= j <= m implies #[trigger] first@[j] == lcs(a.take(0), b.take(j)) by {
            assert(a.take(0).len() == 0);
        }
    }
    table.push(first);
    let mut i: usize = 1;
    while i <= n
        invariant
            n == old@.len(),
            m == new@.len(),
            n < usize::MAX,
            m < usize::MAX,
            a == lines_view(old@),
            b == lines_view(new@),
            1 <= i <= n + 1,
            table@.len() == i,
            forall|r: int| 0 <= r < i ==> #[trigger] table@[r]@.len() == m + 1,
            forall|r: int, j: int|
                0 <= r < i && 0 <= j <= m ==> #[trigger] table@[r]@[j] == lcs(a.take(r), b.take(j)),
        decreases n + 1 - i,
    {
        let mut row: Vec<usize> = Vec::new();
        row.push(0);
        proof {
            assert(b.take(0).len() == 0);
            assert(row@[0] == lcs(a.take(i as int), b.take(0)));
        }
        let mut j: usize = 1;
        while j <= m
            invariant
                n == old@.len(),
                m == new@.len(),
                n < usize::MAX,
                m < usize::MAX,
                a == lines_view(old@),
                b == lines_view(new@),
                1 <= i <= n,
                1 <= j <= m + 1,
                table@.len() == i,
                row@.len() == j,
                forall|r: int| 0 <= r < i ==> #[trigger] table@[r]@.len() == m + 1,
                forall|r: int, c: int|
                    0 <= r < i && 0 <= c <= m ==> #[trigger] table@[r]@[c] == lcs(a.take(r), b.take(c)),
                forall|c: int| 0 <= c < j ==> #[trigger] row@[c] == lcs(a.take(i as int), b.take(c)),
                forall|c: int| 0 <= c < j ==> #[trigger] row@[c] <= i,
            decreases m + 1 - j,
        {
            let ghost ai = a.take(i as int);
            let ghost bj = b.take(j as int);
            proof {
                lemma_take_drop_last(a, i as int);
                lemma_take_drop_last(b, j as int);
                lemma_lcs_le_len(a.take(i - 1), bj);
            }
            let v: usize;
            if str_eq(old[i - 1], new[j - 1]) {
                proof {
                    lemma_lcs_le_len(a.take(i - 1), b.take(j - 1));
                }
                v = table[i - 1][j - 1] + 1;
            } else {
                let left = row[j - 1];
                let up = table[i - 1][j];
                v = if left >= up { left } else { up };
            }
            row.push(v);
            j += 1;
        }
        table.push(row);
        i += 1;
    }
    table
}

/// LCS length is bounded by the length of the first sequence.
proof fn lemma_lcs_le_len(a: Seq<Seq<char>>, b: Seq<Seq<char>>)
    ensures
        lcs(a, b) <= a.len(),
    decreases a.len() + b.len(),
{
    if a.len() == 0 || b.len() == 0 {
    } else if a.last() == b.last() {
        lemma_lcs_le_len(a.drop_last(), b.drop_last());
    } else {
        lemma_lcs_le_len(a.drop_last(), b);
        lemma_lcs_le_len(a, b.drop_last());
    }
}

/// Walk the LCS table back from the end, producing the edit script.
fn backtrack<'a>(old: &'a [&str], new: &'a [&str], table: &Vec<Vec<usize>>) -> (result: Vec<DiffLine<'a>>)
    requires
        table@.len() == old@.len() + 1,
        forall|i: int| 0 <= i <= old@.len() ==> #[trigger] table@[i]@.len() == new@.len() + 1,
        forall|i: int, j: int|
            0 <= i <= old@.len() && 0 <= j <= new@.len() ==> #[trigger] table@[i]@[j] == lcs(
                lines_view(old@).take(i),
                lines_view(new@).take(j),
            ),
    ensures
        diff_view(result@) == spec_diff(lines_view(old@), lines_view(new@)),
{
    let ghost a = lines_view(old@);
    let ghost b = lines_view(new@);
    let ghost full = spec_diff(a, b);
    let n = old.len();
    let m = new.len();
    let mut rev: Vec<DiffLine<'a>> = Vec::new();
    let mut i = n;
    let mut j = m;
    while i > 0 || j > 0
        invariant
            n == old@.len(),
            m == new@.len(),
            a == lines_view(old@),
            b == lines_view(new@),
            full == spec_diff(a, b),
            i <= n,
            j <= m,
            table@.len() == n + 1,
            forall|r: int| 0 <= r <= n ==> #[trigger] table@[r]@.len() == m + 1,
            forall|r: int, c: int|
                0 <= r <= n && 0 <= c <= m ==> #[trigger] table@[r]@[c] == lcs(a.take(r), b.take(c)),
            full.len() == edit_script(a, b, i as nat, j as nat).len() + rev@.len(),
            forall|k: int|
                0 <= k < edit_script(a, b, i as nat, j as nat).len() ==> #[trigger] full[k]
                    == edit_script(a, b, i as nat, j as nat)[k],
            forall|k: int| 0 <= k < rev@.len() ==> full[full.len() - 1 - k] == #[trigger] rev@[k]@,
        decreases i + j,
    {
        let ghost prev = edit_script(a, b, i as nat, j as nat);
        if i > 0 && j > 0 && str_eq(old[i - 1], new[j - 1]) {
            rev.push(DiffLine::Keep(old[i - 1]));
            i -= 1;
            j -= 1;
        } else if j > 0 && (i == 0 || table[i][j - 1] >= table[i - 1][j]) {
            rev.push(DiffLine::Add(new[j - 1]));
            j -= 1;
        } else {
            rev.push(DiffLine::Remove(old[i - 1]));
            i -= 1;
        }
        proof {
            let cur = edit_script(a, b, i as nat, j as nat);
            assert(prev.len() == cur.len() + 1);
            assert(prev.drop_last() =~= cur);
            assert forall|k: int| 0 <= k < cur.len() implies #[trigger] full[k] == cur[k] by {
                assert(prev[k] == cur[k]);
            }
        }
    }
    let mut result: Vec<DiffLine<'a>> = Vec::new();
    let len = rev.len();
    let mut k: usize = 0;
    while k < len
        invariant
            len == rev@.len(),
            k <= len,
            full.len() == len,
            result@.len() == k,
            forall|t: int| 0 <= t < len ==> full[full.len() - 1 - t] == #[trigger] rev@[t]@,
            forall|t: int| 0 <= t < k ==> #[trigger] result@[t]@ == full[t],
        decreases len - k,
    {
        result.push(rev[len - 1 - k]);
        proof {
            assert(rev@[len - 1 - k]@ == full[full.len() - 1 - (len - 1 - k)]);
        }
        k += 1;
    }
    proof {
        assert(diff_view(result@) =~= full);
    }
    result
}

// ── Unified-diff rendering ─────────────────────────────────────────────────

/// Whether an edit changes the text (a removal or an addition).
pub open spec fn is_change(e: LineEdit) -> bool {
    !(e is Keep)
}

/// The positions of the changed lines of an edit script, in order.
pub open spec fn change_positions(d: Seq<LineEdit>) -> Seq<int>
    decreases d.len(),
{
    if d.len() == 0 {
        Seq::empty()
    } else if is_change(d.last()) {
        change_positions(d.drop_last()).push(d.len() - 1)
    } else {
        change_positions(d.drop_last())
    }
}

/// Context lines shown around each change in unified diff output.
pub const DIFF_CONTEXT_LINES: usize = 3;

/// The lines shown for the change at position `i` of a script of `len`
/// lines: [`DIFF_CONTEXT_LINES`] on each side of it, clipped to the script.
pub open spec fn context_window(i: int, len: int) -> (int, int) {
    (
        if i >= DIFF_CONTEXT_LINES { i - DIFF_CONTEXT_LINES } else { 0 },
        if i + DIFF_CONTEXT_LINES + 1 <= len { i + DIFF_CONTEXT_LINES + 1 } else { len },
    )
}

/// The hunks shown for changes at positions `idx`: their context windows in
/// order, each window that starts at or before the end of the hunk so far
/// merged into it.
pub open spec fn merge_windows(idx: Seq<int>, len: int) -> Seq<(int, int)>
    decreases idx.len(),
{
    if idx.len() == 0 {
        Seq::empty()
    } else {
        let prev = merge_windows(idx.drop_last(), len);
        let w = context_window(idx.last(), len);
        if prev.len() > 0 && w.0 <= prev.last().1 {
            prev.update(
                prev.len() - 1,
                (prev.last().0, if w.1 > prev.last().1 { w.1 } else { prev.last().1 }),
            )
        } else {
            prev.push(w)
        }
    }
}

/// The hunks (ranges of script positions) that unified output shows.
pub open spec fn diff_hunks(d: Seq<LineEdit>) -> Seq<(int, int)> {
    merge_windows(change_positions(d), d.len() as int)
}

/// Number of old-text lines (kept or removed) in an edit script.
pub open spec fn old_count(d: Seq<LineEdit>) -> nat
    decreases d.len(),
{
    if d.len() == 0 {
        0
    } else {
        old_count(d.drop_last()) + if d.last() is Add { 0nat } else { 1nat }
    }
}

/// Number of removed lines in an edit script.
pub open spec fn remove_count(d: Seq<LineEdit>) -> nat
    decreases d.len(),
{
    if d.len() == 0 {
        0
    } else {
        remove_count(d.drop_last()) + if d.last() is Remove { 1nat } else { 0nat }
    }
}

/// Number of added lines in an edit script.
pub open spec fn add_count(d: Seq<LineEdit>) -> nat
    decreases d.len(),
{
    if d.len() == 0 {
        0
    } else {
        add_count(d.drop_last()) + if d.last() is Add { 1nat } else { 0nat }
    }
}

/// `n` spaces (none for `n <= 0`).
pub open spec fn spaces(n: int) -> Seq<char> {
    repeat_char(' ', if n > 0 { n as nat } else { 0 })
}

/// `s` right-aligned in a field of `w` columns (`{:>w}`).
pub open spec fn pad_left(s: Seq<char>, w: nat) -> Seq<char> {
    spaces(w - s.len()) + s
}

/// `s` left-aligned in a field of `w` columns (`{:<w}`).
pub open spec fn pad_right(s: Seq<char>, w: nat) -> Seq<char> {
    s + spaces(w - s.len())
}

/// Width of the line-number column for texts of `old_len` and `new_len`
/// lines: the digits of the larger count (at least 1), at least 2.
pub open spec fn number_width(old_len: nat, new_len: nat) -> nat {
    let m = if old_len >= new_len { old_len } else { new_len };
    let l = decimal(if m >= 1 { m } else { 1 }).len();
    if l >= 2 { l } else { 2 }
}

/// A context line: its number right-aligned in `w` columns, then the text.
pub open spec fn numbered_keep(l: Seq<char>, num: nat, w: nat) -> Seq<char> {
    spaces(2) + pad_left(decimal(num), w) + seq![' '] + DIM@ + seq![' '] + l
}

/// A removed (`sign == '-'`, red) or added (`'+'`, green) line with a
/// `w`-column sign field.
pub open spec fn numbered_change(color: Seq<char>, sign: char, l: Seq<char>, w: nat) -> Seq<char> {
    color + spaces(2) + pad_right(seq![sign], w) + seq![' '] + RESET@ + color + seq![' '] + l
}

/// One line of unified output for an edit whose old-text line number is
/// `num`, with or without a line-number column of width `w`.
pub open spec fn diff_line_text(e: LineEdit, num: nat, numbers: bool, w: nat) -> Seq<char> {
    match e {
        LineEdit::Keep(l) => if numbers {
            numbered_keep(l, num, w)
        } else {
            spaces(2) + DIM@ + seq![' '] + l + RESET@
        },
        LineEdit::Remove(l) => if numbers {
            numbered_change(RED@, '-', l, w)
        } else {
            RED@ + seq![' ', ' ', '-', ' '] + RESET@ + l
        },
        LineEdit::Add(l) => if numbers {
            numbered_change(GREEN@, '+', l, w)
        } else {
            GREEN@ + seq![' ', ' ', '+', ' '] + RESET@ + l
        },
    }
}

/// The dotted line printed between two hunks.
pub open spec fn hunk_separator(numbers: bool, w: nat) -> Seq<char> {
    DIM@ + spaces(2) + BOX_COLOR@ + repeat_char('·', if numbers { w + 64 } else { 63 }) + RESET@
}

/// The output lines of one hunk `h` of script `d`.
pub open spec fn hunk_text(d: Seq<LineEdit>, h: (int, int), numbers: bool, w: nat) -> Seq<Seq<char>> {
    Seq::new(
        (h.1 - h.0) as nat,
        |k: int| diff_line_text(d[h.0 + k], old_count(d.take(h.0 + k)) + 1, numbers, w),
    )
}

/// The output lines of the hunks `hs` of script `d`, separated by
/// [`hunk_separator`] lines.
pub open spec fn hunks_text(d: Seq<LineEdit>, hs: Seq<(int, int)>, numbers: bool, w: nat) -> Seq<Seq<char>>
    decreases hs.len(),
{
    if hs.len() == 0 {
        Seq::empty()
    } else {
        hunks_text(d, hs.drop_last(), numbers, w) + (if hs.len() > 1 {
            seq![hunk_separator(numbers, w)]
        } else {
            Seq::empty()
        }) + hunk_text(d, hs.last(), numbers, w)
    }
}

/// The unified-diff lines for script `d` of texts with `old_len` and
/// `new_len` lines: every hunk of changes with its context.
pub open spec fn rendered_diff(d: Seq<LineEdit>, old_len: nat, new_len: nat, numbers: bool) -> Seq<Seq<char>> {
    hunks_text(d, diff_hunks(d), numbers, if numbers { number_width(old_len, new_len) } else { 0 })
}

/// The integer pairs of a list of `usize` pairs.
pub open spec fn ranges_view(v: Seq<(usize, usize)>) -> Seq<(int, int)> {
    v.map_values(|p: (usize, usize)| (p.0 as int, p.1 as int))
}

/// Every hunk is a range within the script.
pub open spec fn ranges_within(v: Seq<(usize, usize)>, len: int) -> bool {
    forall|k: int| #![trigger v[k]] 0 <= k < v.len() ==> v[k].0 <= v[k].1 <= len
}

/// The hunks of a diff (see [`diff_hunks`]).
pub fn hunk_ranges(diff: &[DiffLine]) -> (r: Vec<(usize, usize)>)
    ensures
        ranges_view(r@) == diff_hunks(diff_view(diff@)),
        ranges_within(r@, diff@.len() as int),
{
    let ghost d = diff_view(diff@);
    let len = diff.len();
    let mut r: Vec<(usize, usize)> = Vec::new();
    let mut i: usize = 0;
    while i < len
        invariant
            i <= len == diff@.len() == d.len(),
            d == diff_view(diff@),
            ranges_view(r@) == merge_windows(change_positions(d.take(i as int)), len as int),
            ranges_within(r@, len as int),
            r@.len() > 0 ==> r@.last().1 <= i + DIFF_CONTEXT_LINES + 1,
        decreases len - i,
    {
        proof {
            assert(d.take(i + 1).drop_last() =~= d.take(i as int));
            assert(d.take(i + 1).last() == d[i as int]);
        }
        let change = match diff[i] {
            DiffLine::Keep(_) => false,
            _ => true,
        };
        if change {
            let ghost idx = change_positions(d.take(i as int));
            proof {
                assert(idx.push(i as int).drop_last() =~= idx);
            }
            let start = if i >= DIFF_CONTEXT_LINES { i - DIFF_CONTEXT_LINES } else { 0 };
            let end = if len - i >= DIFF_CONTEXT_LINES + 1 { i + DIFF_CONTEXT_LINES + 1 } else { len };
            let n = r.len();
            let ghost prev = r@;
            if n > 0 && start <= r[n - 1].1 {
                let (s0, e0) = r[n - 1];
                assert(s0 <= e0 <= len) by {
                    assert(prev[n - 1].0 <= prev[n - 1].1 <= len);
                }
                let e1 = if end > e0 { end } else { e0 };
                r.set(n - 1, (s0, e1));
                proof {
                    assert(ranges_view(r@) =~= ranges_view(prev).update(n - 1, (s0 as int, e1 as int)));
                    assert forall|k: int| 0 <= k < r@.len() implies #[trigger] r@[k].0 <= r@[k].1 <= len by {
                        if k < n - 1 {
                            assert(r@[k] == prev[k]);
                            assert(prev[k].0 <= prev[k].1 <= len);
                        }
                    }
                }
            } else {
                r.push((start, end));
                proof {
                    assert(ranges_view(r@) =~= ranges_view(prev).push((start as int, end as int)));
                    assert forall|k: int| 0 <= k < r@.len() implies #[trigger] r@[k].0 <= r@[k].1 <= len by {
                        if k < n {
                            assert(r@[k] == prev[k]);
                            assert(prev[k].0 <= prev[k].1 <= len);
                        }
                    }
                }
            }
        }
        i += 1;
    }
    proof {
        assert(d.take(len as int) =~= d);
    }
    r
}


/// The change positions of a script are increasing positions of changes,
/// and every change is among them.
proof fn lemma_change_positions(d: Seq<LineEdit>)
    ensures
        forall|k: int| 0 <= k < change_positions(d).len() ==> 0 <= #[trigger] change_positions(d)[k] < d.len()
            && is_change(d[change_positions(d)[k]]),
        forall|a: int, b: int| 0 <= a < b < change_positions(d).len()
            ==> #[trigger] change_positions(d)[a] < #[trigger] change_positions(d)[b],
        forall|i: int| 0 <= i < d.len() && is_change(#[trigger] d[i]) ==> change_positions(d).contains(i),
    decreases d.len(),
{
    if d.len() > 0 {
        let rest = d.drop_last();
        lemma_change_positions(rest);
        let c0 = change_positions(rest);
        let c = change_positions(d);
        assert forall|k: int| 0 <= k < c.len() implies 0 <= #[trigger] c[k] < d.len() && is_change(d[c[k]]) by {
            if k < c0.len() {
                assert(c[k] == c0[k]);
                assert(rest[c0[k]] == d[c0[k]]);
            }
        }
        assert forall|i: int| 0 <= i < d.len() && is_change(#[trigger] d[i]) implies c.contains(i) by {
            if i < rest.len() {
                assert(rest[i] == d[i]);
                let k = choose|k: int| 0 <= k < c0.len() && c0[k] == i;
                assert(c[k] == c0[k]);
            } else {
                assert(c[c.len() - 1] == i);
            }
        }
    }
}

/// Whether `p` lies within the context of one of the positions `idx`.
spec fn near_index(idx: Seq<int>, p: int) -> bool {
    exists|a: int| 0 <= a < idx.len() && #[trigger] idx[a] - DIFF_CONTEXT_LINES <= p <= idx[a] + DIFF_CONTEXT_LINES
}

/// Whether line `p` of script `d` is within the context of a change.
pub open spec fn near_change(d: Seq<LineEdit>, p: int) -> bool {
    exists|j: int| 0 <= j < d.len() && is_change(#[trigger] d[j]) && j - DIFF_CONTEXT_LINES <= p <= j + DIFF_CONTEXT_LINES
}

/// The merged windows of increasing change positions `idx` (all below
/// `len`): non-empty ranges within `0..len`, each ending before the next
/// starts; every change lies in one; every line in one is within the
/// context of some change; the last starts at or before the last change.
proof fn lemma_merge_windows(idx: Seq<int>, len: int)
    requires
        forall|k: int| 0 <= k < idx.len() ==> 0 <= #[trigger] idx[k] < len,
        forall|a: int, b: int| 0 <= a < b < idx.len() ==> #[trigger] idx[a] < #[trigger] idx[b],
    ensures
        forall|k: int| 0 <= k < merge_windows(idx, len).len()
            ==> 0 <= (#[trigger] merge_windows(idx, len)[k]).0 < merge_windows(idx, len)[k].1 <= len,
        forall|k: int| 0 <= k < merge_windows(idx, len).len() - 1
            ==> (#[trigger] merge_windows(idx, len)[k]).1 < merge_windows(idx, len)[k + 1].0,
        forall|a: int| 0 <= a < idx.len() ==> exists|k: int| 0 <= k < merge_windows(idx, len).len()
            && (#[trigger] merge_windows(idx, len)[k]).0 <= #[trigger] idx[a] < merge_windows(idx, len)[k].1,
        forall|k: int, p: int| #![trigger merge_windows(idx, len)[k], near_index(idx, p)]
            0 <= k < merge_windows(idx, len).len()
            && merge_windows(idx, len)[k].0 <= p < merge_windows(idx, len)[k].1 ==> near_index(idx, p),
        idx.len() > 0 ==> merge_windows(idx, len).len() > 0 && merge_windows(idx, len).last().0 <= idx.last(),
        idx.len() == 0 ==> merge_windows(idx, len).len() == 0,
    decreases idx.len(),
{
    if idx.len() > 0 {
        let idx0 = idx.drop_last();
        assert forall|a: int, b: int| 0 <= a < b < idx0.len() implies #[trigger] idx0[a] < #[trigger] idx0[b] by {
            assert(idx0[a] == idx[a] && idx0[b] == idx[b]);
        }
        assert forall|k: int| 0 <= k < idx0.len() implies 0 <= #[trigger] idx0[k] < len by {
            assert(idx0[k] == idx[k]);
        }
        lemma_merge_windows(idx0, len);
        let prev = merge_windows(idx0, len);
        let x = idx.last();
        let w = context_window(x, len);
        let hs = merge_windows(idx, len);
        assert(idx[idx.len() - 1] == x);
        if prev.len() > 0 && w.0 <= prev.last().1 {
            let e = if w.1 > prev.last().1 { w.1 } else { prev.last().1 };
            assert(hs == prev.update(prev.len() - 1, (prev.last().0, e)));
            assert(prev.last().0 <= idx0.last());
            assert(idx0.last() == idx[idx.len() - 2]);
            assert forall|k: int| 0 <= k < hs.len() implies 0 <= (#[trigger] hs[k]).0 < hs[k].1 <= len by {
                if k < hs.len() - 1 {
                    assert(hs[k] == prev[k]);
                } else {
                    assert(prev[prev.len() - 1] == prev.last());
                }
            }
            assert forall|k: int| 0 <= k < hs.len() - 1 implies (#[trigger] hs[k]).1 < hs[k + 1].0 by {
                assert(hs[k] == prev[k]);
                if k + 1 < hs.len() - 1 {
                    assert(hs[k + 1] == prev[k + 1]);
                } else {
                    assert(prev[prev.len() - 1] == prev.last());
                    assert(prev[k].1 < prev[k + 1].0);
                }
            }
            assert forall|a: int| 0 <= a < idx.len() implies exists|k: int| 0 <= k < hs.len()
                && (#[trigger] hs[k]).0 <= #[trigger] idx[a] < hs[k].1 by {
                if a < idx.len() - 1 {
                    assert(idx0[a] == idx[a]);
                    let k = choose|k: int| 0 <= k < prev.len() && (#[trigger] prev[k]).0 <= idx0[a] < prev[k].1;
                    if k < prev.len() - 1 {
                        assert(hs[k] == prev[k]);
                    } else {
                        assert(prev[prev.len() - 1] == prev.last());
                        assert(hs[k].0 <= idx[a] < hs[k].1);
                    }
                } else {
                    assert(hs[hs.len() - 1].0 <= idx[a] < hs[hs.len() - 1].1);
                }
            }
            assert forall|k: int, p: int| #![trigger hs[k], near_index(idx, p)] 0 <= k < hs.len() && hs[k].0 <= p < hs[k].1
                implies near_index(idx, p) by {
                if k < hs.len() - 1 {
                    assert(hs[k] == prev[k]);
                    assert(near_index(idx0, p));
                    let a = choose|a: int| 0 <= a < idx0.len() && #[trigger] idx0[a] - DIFF_CONTEXT_LINES <= p <= idx0[a] + DIFF_CONTEXT_LINES;
                    assert(idx0[a] == idx[a]);
                } else if p < prev.last().1 {
                    assert(prev[prev.len() - 1] == prev.last());
                    assert(near_index(idx0, p));
                    let a = choose|a: int| 0 <= a < idx0.len() && #[trigger] idx0[a] - DIFF_CONTEXT_LINES <= p <= idx0[a] + DIFF_CONTEXT_LINES;
                    assert(idx0[a] == idx[a]);
                } else {
                    assert(idx[idx.len() - 1] - DIFF_CONTEXT_LINES <= p <= idx[idx.len() - 1] + DIFF_CONTEXT_LINES);
                }
            }
        } else {
            assert(hs == prev.push(w));
            assert forall|k: int| 0 <= k < hs.len() implies 0 <= (#[trigger] hs[k]).0 < hs[k].1 <= len by {
                if k < prev.len() {
                    assert(hs[k] == prev[k]);
                }
            }
            assert forall|k: int| 0 <= k < hs.len() - 1 implies (#[trigger] hs[k]).1 < hs[k + 1].0 by {
                assert(hs[k] == prev[k]);
                if k + 1 < prev.len() {
                    assert(hs[k + 1] == prev[k + 1]);
                } else {
                    assert(prev[prev.len() - 1] == prev.last());
                }
            }
            assert forall|a: int| 0 <= a < idx.len() implies exists|k: int| 0 <= k < hs.len()
                && (#[trigger] hs[k]).0 <= #[trigger] idx[a] < hs[k].1 by {
                if a < idx.len() - 1 {
                    assert(idx0[a] == idx[a]);
                    let k = choose|k: int| 0 <= k < prev.len() && (#[trigger] prev[k]).0 <= idx0[a] < prev[k].1;
                    assert(hs[k] == prev[k]);
                } else {
                    assert(hs[hs.len() - 1].0 <= idx[a] < hs[hs.len() - 1].1);
                }
            }
            assert forall|k: int, p: int| #![trigger hs[k], near_index(idx, p)] 0 <= k < hs.len() && hs[k].0 <= p < hs[k].1
                implies near_index(idx, p) by {
                if k < prev.len() {
                    assert(hs[k] == prev[k]);
                    assert(near_index(idx0, p));
                    let a = choose|a: int| 0 <= a < idx0.len() && #[trigger] idx0[a] - DIFF_CONTEXT_LINES <= p <= idx0[a] + DIFF_CONTEXT_LINES;
                    assert(idx0[a] == idx[a]);
                } else {
                    assert(idx[idx.len() - 1] - DIFF_CONTEXT_LINES <= p <= idx[idx.len() - 1] + DIFF_CONTEXT_LINES);
                }
            }
        }
    }
}

/// The hunks of a unified diff are non-empty ranges of the script in order,
/// with a gap between any two; every changed line lies in a hunk, and every
/// line of a hunk is within three lines of a change.
pub proof fn lemma_hunks_cover_changes(d: Seq<LineEdit>)
    ensures
        forall|k: int| 0 <= k < diff_hunks(d).len() ==> 0 <= (#[trigger] diff_hunks(d)[k]).0 < diff_hunks(d)[k].1 <= d.len(),
        forall|k: int| 0 <= k < diff_hunks(d).len() - 1 ==> (#[trigger] diff_hunks(d)[k]).1 < diff_hunks(d)[k + 1].0,
        forall|i: int| 0 <= i < d.len() && is_change(#[trigger] d[i]) ==> exists|k: int| 0 <= k < diff_hunks(d).len()
            && (#[trigger] diff_hunks(d)[k]).0 <= i < diff_hunks(d)[k].1,
        forall|k: int, p: int| #![trigger diff_hunks(d)[k], near_change(d, p)]
            0 <= k < diff_hunks(d).len() && diff_hunks(d)[k].0 <= p < diff_hunks(d)[k].1 ==> near_change(d, p),
{
    let idx = change_positions(d);
    lemma_change_positions(d);
    lemma_merge_windows(idx, d.len() as int);
    let hs = diff_hunks(d);
    assert forall|i: int| 0 <= i < d.len() && is_change(#[trigger] d[i]) implies exists|k: int| 0 <= k < hs.len()
        && (#[trigger] hs[k]).0 <= i < hs[k].1 by {
        let a = choose|a: int| 0 <= a < idx.len() && idx[a] == i;
        assert(idx[a] == i);
    }
    assert forall|k: int, p: int| #![trigger hs[k], near_change(d, p)] 0 <= k < hs.len() && hs[k].0 <= p < hs[k].1
        implies near_change(d, p) by {
        assert(near_index(idx, p));
        let a = choose|a: int| 0 <= a < idx.len() && #[trigger] idx[a] - DIFF_CONTEXT_LINES <= p <= idx[a] + DIFF_CONTEXT_LINES;
        assert(is_change(d[idx[a]]));
    }
}

/// An edit script has no more old-text lines than edits.
pub proof fn lemma_old_count_bound(d: Seq<LineEdit>)
    ensures
        old_count(d) <= d.len(),
    decreases d.len(),
{
    if d.len() > 0 {
        lemma_old_count_bound(d.drop_last());
    }
}

/// The old-text line count of a script is the number of its edits that
/// are not additions.
proof fn lemma_old_count_filter(d: Seq<LineEdit>)
    ensures
        old_count(d) == d.filter(|e: LineEdit| !(e is Add)).len(),
    decreases d.len(),
{
    reveal(Seq::filter);
    if d.len() > 0 {
        lemma_old_count_filter(d.drop_last());
    }
}

/// Each kept line of a hunk shows its old-text line number: one plus the
/// number of kept and removed lines before it in the whole script.
pub proof fn lemma_hunk_keep_number(d: Seq<LineEdit>, h: (int, int), w: nat, k: int)
    requires
        0 <= h.0,
        0 <= k < h.1 - h.0,
        h.1 <= d.len(),
        d[h.0 + k] is Keep,
    ensures
        hunk_text(d, h, true, w)[k] == numbered_keep(
            d[h.0 + k]->Keep_0,
            d.take(h.0 + k).filter(|e: LineEdit| !(e is Add)).len() + 1,
            w,
        ),
{
    lemma_old_count_filter(d.take(h.0 + k));
}

/// Every line of hunk `hi` is among the lines of the hunks.
proof fn lemma_hunks_text_has_hunk(d: Seq<LineEdit>, hs: Seq<(int, int)>, numbers: bool, w: nat, hi: int, k: int)
    requires
        0 <= hi < hs.len(),
        0 <= k < hunk_text(d, hs[hi], numbers, w).len(),
    ensures
        hunks_text(d, hs, numbers, w).contains(hunk_text(d, hs[hi], numbers, w)[k]),
    decreases hs.len(),
{
    let sep: Seq<Seq<char>> = if hs.len() > 1 { seq![hunk_separator(numbers, w)] } else { Seq::empty() };
    let front = hunks_text(d, hs.drop_last(), numbers, w);
    let last = hunk_text(d, hs.last(), numbers, w);
    let all = hunks_text(d, hs, numbers, w);
    assert(all == front + sep + last);
    if hi == hs.len() - 1 {
        assert(all[front.len() + sep.len() + k] == last[k]);
    } else {
        assert(hs.drop_last()[hi] == hs[hi]);
        lemma_hunks_text_has_hunk(d, hs.drop_last(), numbers, w, hi, k);
        let j = choose|j: int| 0 <= j < front.len() && front[j] == hunk_text(d, hs[hi], numbers, w)[k];
        assert(all[j] == front[j]);
    }
}

/// Every kept line that a numbered unified diff shows carries its old-text
/// line number: one plus the number of kept and removed lines before it in
/// the whole script, not only in its hunk.
pub proof fn lemma_rendered_keep_number(d: Seq<LineEdit>, old_len: nat, new_len: nat, hi: int, i: int)
    requires
        0 <= hi < diff_hunks(d).len(),
        0 <= diff_hunks(d)[hi].0 <= i < diff_hunks(d)[hi].1,
        i < d.len(),
        d[i] is Keep,
    ensures
        rendered_diff(d, old_len, new_len, true).contains(numbered_keep(
            d[i]->Keep_0,
            d.take(i).filter(|e: LineEdit| !(e is Add)).len() + 1,
            number_width(old_len, new_len),
        )),
{
    let hs = diff_hunks(d);
    let h = hs[hi];
    let w = number_width(old_len, new_len);
    let k = i - h.0;
    lemma_old_count_filter(d.take(i));
    assert(hunk_text(d, h, true, w)[k] == numbered_keep(d[i]->Keep_0, old_count(d.take(i)) + 1, w));
    lemma_hunks_text_has_hunk(d, hs, true, w, hi, k);
}

/// Append `n` in decimal, right-aligned in a field of `w` columns.
fn push_padded_number(s: &mut String, n: usize, w: usize)
    ensures
        final(s)@ == old(s)@ + pad_left(decimal(n as nat), w as nat),
{
    let l = decimal_len(n as u64);
    let ghost s0 = s@;
    if w > l {
        push_repeat(s, ' ', w - l);
    }
    push_decimal(s, n as u64);
    proof {
        assert(s@ =~= s0 + pad_left(decimal(n as nat), w as nat));
    }
}

/// Append `s` left-aligned in a field of `w` columns, for a one-character `s`.
fn push_padded_sign(s: &mut String, sign: char, w: usize)
    ensures
        final(s)@ == old(s)@ + pad_right(seq![sign], w as nat),
{
    let ghost s0 = s@;
    string_push(s, sign);
    if w > 1 {
        push_repeat(s, ' ', w - 1);
    }
    proof {
        assert(s@ =~= s0 + pad_right(seq![sign], w as nat));
    }
}

/// One line of unified output (see [`diff_line_text`]).
fn diff_line_string(e: &DiffLine, num: usize, numbers: bool, w: usize) -> (r: String)
    ensures
        r@ == diff_line_text(e@, num as nat, numbers, w as nat),
{
    let mut s = String::new();
    match e {
        DiffLine::Keep(l) => {
            if numbers {
                push_repeat(&mut s, ' ', 2);
                push_padded_number(&mut s, num, w);
                string_push(&mut s, ' ');
                push_str(&mut s, DIM);
                string_push(&mut s, ' ');
                push_str(&mut s, l);
            } else {
                push_repeat(&mut s, ' ', 2);
                push_str(&mut s, DIM);
                string_push(&mut s, ' ');
                push_str(&mut s, l);
                push_str(&mut s, RESET);
            }
        },
        DiffLine::Remove(l) => {
            push_str(&mut s, RED);
            if numbers {
                push_repeat(&mut s, ' ', 2);
                push_padded_sign(&mut s, '-', w);
                string_push(&mut s, ' ');
                push_str(&mut s, RESET);
                push_str(&mut s, RED);
                string_push(&mut s, ' ');
            } else {
                string_push(&mut s, ' ');
                string_push(&mut s, ' ');
                string_push(&mut s, '-');
                string_push(&mut s, ' ');
                push_str(&mut s, RESET);
            }
            push_str(&mut s, l);
        },
        DiffLine::Add(l) => {
            push_str(&mut s, GREEN);
            if numbers {
                push_repeat(&mut s, ' ', 2);
                push_padded_sign(&mut s, '+', w);
                string_push(&mut s, ' ');
                push_str(&mut s, RESET);
                push_str(&mut s, GREEN);
                string_push(&mut s, ' ');
            } else {
                string_push(&mut s, ' ');
                string_push(&mut s, ' ');
                string_push(&mut s, '+');
                string_push(&mut s, ' ');
                push_str(&mut s, RESET);
            }
            push_str(&mut s, l);
        },
    }
    proof {
        assert(s@ =~= diff_line_text(e@, num as nat, numbers, w as nat));
    }
    s
}

/// The line printed between two hunks (see [`hunk_separator`]).
fn separator_string(numbers: bool, w: usize) -> (r: String)
    requires
        w <= 20,
    ensures
        r@ == hunk_separator(numbers, w as nat),
{
    let mut s = String::new();
    push_str(&mut s, DIM);
    push_repeat(&mut s, ' ', 2);
    push_str(&mut s, BOX_COLOR);
    push_repeat(&mut s, '·', if numbers { w + 64 } else { 63 });
    push_str(&mut s, RESET);
    proof {
        assert(s@ =~= hunk_separator(numbers, w as nat));
    }
    s
}

/// The width of the line-number column (see [`number_width`]).
fn line_number_width(old_len: usize, new_len: usize) -> (w: usize)
    ensures
        w == number_width(old_len as nat, new_len as nat),
        2 <= w <= 20,
{
    let m = if old_len >= new_len { old_len } else { new_len };
    let m1 = if m >= 1 { m } else { 1 };
    let l = decimal_len(m1 as u64);
    if l >= 2 { l } else { 2 }
}

/// Render a diff as unified-diff-style lines: each hunk of changes with up to
/// [`DIFF_CONTEXT_LINES`] lines of context on each side, hunks separated by a
/// dotted line, and, when `show_line_numbers` holds, the old-text number of
/// each context line. Only the lengths of `old_lines` and `new_lines` matter:
/// they size the number column.
pub fn render_diff_lines(
    diff: &[DiffLine],
    old_lines: &[&str],
    new_lines: &[&str],
    show_line_numbers: bool,
) -> (r: Vec<String>)
    ensures
        strings_view(r@) == rendered_diff(
            diff_view(diff@),
            old_lines@.len(),
            new_lines@.len(),
            show_line_numbers,
        ),
{
    let ghost d = diff_view(diff@);
    let hunks = hunk_ranges(diff);
    let ghost hs = ranges_view(hunks@);
    let w: usize = if show_line_numbers {
        line_number_width(old_lines.len(), new_lines.len())
    } else {
        0
    };
    let mut out: Vec<String> = Vec::new();
    let mut hk: usize = 0;
    while hk < hunks.len()
        invariant
            hk <= hunks@.len() == hs.len(),
            d == diff_view(diff@),
            d.len() == diff@.len(),
            hs == ranges_view(hunks@),
            hs == diff_hunks(d),
            ranges_within(hunks@, d.len() as int),
            w <= 20,
            w == (if show_line_numbers { number_width(old_lines@.len(), new_lines@.len()) } else { 0 }),
            strings_view(out@) == hunks_text(d, hs.take(hk as int), show_line_numbers, w as nat),
        decreases hunks@.len() - hk,
    {
        proof {
            assert(hs.take(hk + 1).drop_last() =~= hs.take(hk as int));
            assert(hs.take(hk + 1).last() == hs[hk as int]);
        }
        if hk > 0 {
            let sep = separator_string(show_line_numbers, w);
            out.push(sep);
        }
        let ghost base = strings_view(out@);
        proof {
            assert(base =~= hunks_text(d, hs.take(hk as int), show_line_numbers, w as nat)
                + (if hk + 1 > 1 { seq![hunk_separator(show_line_numbers, w as nat)] } else { Seq::empty() }));
        }
        let (start, end) = hunks[hk];
        assert(start <= end <= d.len()) by {
            assert(hunks@[hk as int].0 <= hunks@[hk as int].1 <= d.len());
        }
        let ghost h = hs[hk as int];
        let mut old_num: usize = 0;
        let mut i: usize = 0;
        while i < start
            invariant
                i <= start <= diff@.len(),
                d == diff_view(diff@),
                old_num == old_count(d.take(i as int)),
            decreases start - i,
        {
            proof {
                assert(d.take(i + 1).drop_last() =~= d.take(i as int));
                lemma_old_count_bound(d.take(i as int));
            }
            match diff[i] {
                DiffLine::Add(_) => {},
                _ => {
                    old_num += 1;
                },
            }
            i += 1;
        }
        while i < end
            invariant
                start <= i <= end <= diff@.len(),
                h == (start as int, end as int),
                d == diff_view(diff@),
                d.len() == diff@.len(),
                w <= 20,
                old_num == old_count(d.take(i as int)),
                strings_view(out@) == base + hunk_text(d, h, show_line_numbers, w as nat).take(i - start),
            decreases end - i,
        {
            proof {
                assert(d.take(i + 1).drop_last() =~= d.take(i as int));
                lemma_old_count_bound(d.take(i as int));
            }
            let line = diff_line_string(&diff[i], old_num + 1, show_line_numbers, w);
            let ghost prev = out@;
            out.push(line);
            proof {
                assert(hunk_text(d, h, show_line_numbers, w as nat).take(i + 1 - start)
                    =~= hunk_text(d, h, show_line_numbers, w as nat).take(i - start).push(line@));
                assert(strings_view(out@) =~= strings_view(prev).push(line@));
            }
            match diff[i] {
                DiffLine::Add(_) => {},
                _ => {
                    old_num += 1;
                },
            }
            i += 1;
        }
        proof {
            assert(hunk_text(d, h, show_line_numbers, w as nat).take(end - start)
                =~= hunk_text(d, h, show_line_numbers, w as nat));
            assert(hs.take(hk + 1).len() == hk + 1);
        }
        hk += 1;
    }
    proof {
        assert(hs.take(hs.len() as int) =~= hs);
    }
    out
}


// ── Write and edit previews ────────────────────────────────────────────────

/// A bold title line: `── <label><path> ──` followed by `tail`.
pub open spec fn title_line(label: Seq<char>, path: Seq<char>, tail: Seq<char>) -> Seq<char> {
    BOLD@ + seq![' ', ' ', '─', '─', ' '] + BOX_COLOR@ + label + path + BOLD@ + seq![' ', '─', '─'] + tail
}

/// The dashed rule above and below a numbered diff, indented past a number
/// column of width `w`.
pub open spec fn framed_rule(w: nat) -> Seq<char> {
    DIM@ + spaces(2) + BOX_COLOR@ + spaces(w as int) + seq![' '] + repeat_char('┄', 60) + seq![' '] + RESET@
}

/// The dashed rule above (`box_color`) and below a new file's preview.
pub open spec fn preview_rule(box_color: bool) -> Seq<char> {
    DIM@ + spaces(5) + (if box_color { BOX_COLOR@ } else { Seq::empty() }) + repeat_char('┄', 60) + seq![' '] + RESET@
}

/// A line of a new file's preview.
pub open spec fn new_file_line(l: Seq<char>) -> Seq<char> {
    GREEN@ + seq![' ', ' ', '+', ' '] + RESET@ + l
}

/// The preview shown before writing `new_content` to `path`, whose current
/// content is `existing` (`None` when the file cannot be read): for a new file
/// every line marked added; for an unchanged file a note; otherwise a header
/// with the numbers of removed and added lines and the numbered unified diff.
pub open spec fn write_preview(path: Seq<char>, existing: Option<Seq<char>>, new_content: Seq<char>) -> Seq<Seq<char>> {
    match existing {
        None => seq![
            Seq::empty(),
            title_line("New file: "@, path, RESET@),
            preview_rule(true),
        ] + text_lines(new_content).map_values(|l: Seq<char>| new_file_line(l)) + seq![preview_rule(false)],
        Some(old) => {
            let a = text_lines(old);
            let b = text_lines(new_content);
            let d = spec_diff(a, b);
            if change_positions(d).len() == 0 {
                seq![Seq::empty(), title_line("No changes in "@, path, RESET@)]
            } else {
                let w = number_width(a.len(), b.len());
                seq![
                    Seq::empty(),
                    title_line(
                        "Diff for "@,
                        path,
                        seq![' '] + RED@ + decimal(remove_count(d)) + seq!['-'] + GREEN@ + decimal(add_count(d))
                            + seq!['+'] + RESET@ + RESET@,
                    ),
                    framed_rule(w),
                ] + rendered_diff(d, a.len(), b.len(), true) + seq![framed_rule(w)]
            }
        },
    }
}

/// The characters of an optional string slice.
pub open spec fn opt_str_view(o: Option<&str>) -> Option<Seq<char>> {
    match o {
        Some(s) => Some(s@),
        None => None,
    }
}

/// The changes of a diff: its numbers of removed and added lines, and
/// whether it changes anything.
fn change_counts(diff: &[DiffLine]) -> (r: (usize, usize, bool))
    ensures
        r.0 == remove_count(diff_view(diff@)),
        r.1 == add_count(diff_view(diff@)),
        r.2 == (change_positions(diff_view(diff@)).len() > 0),
{
    let ghost d = diff_view(diff@);
    let mut removals: usize = 0;
    let mut additions: usize = 0;
    let mut any = false;
    let mut i: usize = 0;
    while i < diff.len()
        invariant
            i <= diff@.len() == d.len(),
            d == diff_view(diff@),
            removals == remove_count(d.take(i as int)),
            additions == add_count(d.take(i as int)),
            removals + additions <= i,
            any == (change_positions(d.take(i as int)).len() > 0),
        decreases diff@.len() - i,
    {
        proof {
            assert(d.take(i + 1).drop_last() =~= d.take(i as int));
        }
        match diff[i] {
            DiffLine::Keep(_) => {},
            DiffLine::Remove(_) => {
                removals += 1;
                any = true;
            },
            DiffLine::Add(_) => {
                additions += 1;
                any = true;
            },
        }
        i += 1;
    }
    proof {
        assert(d.take(diff@.len() as int) =~= d);
    }
    (removals, additions, any)
}

/// The rule around a numbered diff (see [`framed_rule`]).
fn framed_rule_string(w: usize) -> (r: String)
    ensures
        r@ == framed_rule(w as nat),
{
    let mut s = String::new();
    push_str(&mut s, DIM);
    push_repeat(&mut s, ' ', 2);
    push_str(&mut s, BOX_COLOR);
    push_repeat(&mut s, ' ', w);
    string_push(&mut s, ' ');
    push_repeat(&mut s, '┄', 60);
    string_push(&mut s, ' ');
    push_str(&mut s, RESET);
    proof {
        assert(s@ =~= framed_rule(w as nat));
    }
    s
}

/// The rule around a new file's preview (see [`preview_rule`]).
fn preview_rule_string(box_color: bool) -> (r: String)
    ensures
        r@ == preview_rule(box_color),
{
    let mut s = String::new();
    push_str(&mut s, DIM);
    push_repeat(&mut s, ' ', 5);
    if box_color {
        push_str(&mut s, BOX_COLOR);
    }
    push_repeat(&mut s, '┄', 60);
    string_push(&mut s, ' ');
    push_str(&mut s, RESET);
    proof {
        assert(s@ =~= preview_rule(box_color));
    }
    s
}

/// A title line (see [`title_line`]) whose tail is `RESET`.
fn title_string(label: &str, path: &str) -> (r: String)
    ensures
        r@ == title_line(label@, path@, RESET@),
{
    let mut s = String::new();
    push_str(&mut s, BOLD);
    push_repeat(&mut s, ' ', 2);
    string_push(&mut s, '─');
    string_push(&mut s, '─');
    string_push(&mut s, ' ');
    push_str(&mut s, BOX_COLOR);
    push_str(&mut s, label);
    push_str(&mut s, path);
    push_str(&mut s, BOLD);
    string_push(&mut s, ' ');
    string_push(&mut s, '─');
    string_push(&mut s, '─');
    push_str(&mut s, RESET);
    proof {
        assert(s@ =~= title_line(label@, path@, RESET@));
    }
    s
}

/// The lines of the preview shown before writing `new_content` to `path`
/// (see [`write_preview`]); `existing` is the file's current content, `None`
/// when it cannot be read.
pub fn write_preview_lines(path: &str, existing: Option<&str>, new_content: &str) -> (r: Vec<String>)
    requires
        existing is Some ==> existing->0@.len() < usize::MAX,
        new_content@.len() < usize::MAX,
    ensures
        strings_view(r@) == write_preview(path@, opt_str_view(existing), new_content@),
{
    let new_lines = str_lines(new_content);
    let mut out: Vec<String> = Vec::new();
    match existing {
        None => {
            out.push(String::new());
            out.push(title_string("New file: ", path));
            out.push(preview_rule_string(true));
            let mut i: usize = 0;
            while i < new_lines.len()
                invariant
                    i <= new_lines@.len(),
                    strs_view(new_lines@) == text_lines(new_content@),
                    strings_view(out@) == seq![
                        Seq::<char>::empty(),
                        title_line("New file: "@, path@, RESET@),
                        preview_rule(true),
                    ] + text_lines(new_content@).take(i as int).map_values(|l: Seq<char>| new_file_line(l)),
                decreases new_lines@.len() - i,
            {
                let mut s = String::new();
                push_str(&mut s, GREEN);
                string_push(&mut s, ' ');
                string_push(&mut s, ' ');
                string_push(&mut s, '+');
                string_push(&mut s, ' ');
                push_str(&mut s, RESET);
                push_str(&mut s, new_lines[i]);
                let ghost prev = out@;
                out.push(s);
                proof {
                    assert(s@ =~= new_file_line(text_lines(new_content@)[i as int]));
                    assert(text_lines(new_content@).take(i + 1).map_values(|l: Seq<char>| new_file_line(l))
                        =~= text_lines(new_content@).take(i as int).map_values(|l: Seq<char>| new_file_line(l)).push(s@));
                    assert(strings_view(out@) =~= strings_view(prev).push(s@));
                }
                i += 1;
            }
            out.push(preview_rule_string(false));
            proof {
                assert(text_lines(new_content@).take(new_lines@.len() as int) =~= text_lines(new_content@));
                assert(strings_view(out@) =~= write_preview(path@, opt_str_view(existing), new_content@));
            }
        },
        Some(old_content) => {
            let old_lines = str_lines(old_content);
            proof {
                lemma_text_lines_len(old_content@);
                lemma_text_lines_len(new_content@);
                assert(lines_view(old_lines@) =~= strs_view(old_lines@));
                assert(lines_view(new_lines@) =~= strs_view(new_lines@));
            }
            let diff = compute_diff(&old_lines, &new_lines);
            let (removals, additions, any) = change_counts(&diff);
            if !any {
                out.push(String::new());
                out.push(title_string("No changes in ", path));
                proof {
                    assert(strings_view(out@) =~= write_preview(path@, opt_str_view(existing), new_content@));
                }
            } else {
                let w = line_number_width(old_lines.len(), new_lines.len());
                out.push(String::new());
                let mut h = String::new();
                push_str(&mut h, BOLD);
                push_repeat(&mut h, ' ', 2);
                string_push(&mut h, '─');
                string_push(&mut h, '─');
                string_push(&mut h, ' ');
                push_str(&mut h, BOX_COLOR);
                push_str(&mut h, "Diff for ");
                push_str(&mut h, path);
                push_str(&mut h, BOLD);
                string_push(&mut h, ' ');
                string_push(&mut h, '─');
                string_push(&mut h, '─');
                string_push(&mut h, ' ');
                push_str(&mut h, RED);
                push_decimal(&mut h, removals as u64);
                string_push(&mut h, '-');
                push_str(&mut h, GREEN);
                push_decimal(&mut h, additions as u64);
                string_push(&mut h, '+');
                push_str(&mut h, RESET);
                push_str(&mut h, RESET);
                let ghost hv = h@;
                out.push(h);
                let rule = framed_rule_string(w);
                let rule2 = framed_rule_string(w);
                out.push(rule);
                let body = render_diff_lines(&diff, &old_lines, &new_lines, true);
                let ghost before = out@;
                assert(strings_view(before) =~= seq![Seq::<char>::empty(), hv, framed_rule(w as nat)]);
                let mut i: usize = 0;
                while i < body.len()
                    invariant
                        i <= body@.len(),
                        strings_view(out@) == strings_view(before) + strings_view(body@).take(i as int),
                    decreases body@.len() - i,
                {
                    let ghost prev = out@;
                    out.push(body[i].clone());
                    proof {
                        assert(strings_view(body@).take(i + 1) =~= strings_view(body@).take(i as int).push(body@[i as int]@));
                        assert(strings_view(out@) =~= strings_view(prev).push(body@[i as int]@));
                    }
                    i += 1;
                }
                out.push(rule2);
                proof {
                    let a = text_lines(old_content@);
                    let b = text_lines(new_content@);
                    let d = spec_diff(a, b);
                    assert(diff_view(diff@) == d);
                    assert(a.len() == old_lines@.len());
                    assert(b.len() == new_lines@.len());
                    assert(strings_view(body@).take(body@.len() as int) =~= strings_view(body@));
                    assert(hv =~= title_line(
                        "Diff for "@,
                        path@,
                        seq![' '] + RED@ + decimal(remove_count(d)) + seq!['-'] + GREEN@ + decimal(add_count(d))
                            + seq!['+'] + RESET@ + RESET@,
                    ));
                    assert(strings_view(out@) =~= write_preview(path@, opt_str_view(existing), new_content@));
                }
            }
        },
    }
    out
}


/// Number of newlines in a text.
pub open spec fn newline_count(c: Seq<char>) -> nat
    decreases c.len(),
{
    if c.len() == 0 {
        0
    } else {
        newline_count(c.drop_last()) + if c.last() == '\n' { 1nat } else { 0nat }
    }
}

/// The preview shown before replacing `old` by `new` in the file `path` whose
/// content is `content`: an error line when `old` does not occur; otherwise
/// the numbered lines around the first occurrence (two before, two after the
/// replaced lines), the old lines marked removed and the new ones added.
pub open spec fn edit_diff(path: Seq<char>, content: Seq<char>, old: Seq<char>, new: Seq<char>) -> Seq<Seq<char>> {
    match first_occurrence(content, old, 0) {
        None => seq![spaces(2) + RED@ + "[diff error: 'old_str' not found in file]"@ + RESET@],
        Some(off) => edit_diff_at(path, content, newline_count(content.take(off)) as int, old, new),
    }
}

/// The preview of an edit whose replaced text starts on line `ln` (from 0)
/// of `content` (see [`edit_diff`]).
pub open spec fn edit_diff_at(path: Seq<char>, content: Seq<char>, ln: int, old: Seq<char>, new: Seq<char>) -> Seq<Seq<char>> {
    let lines = text_lines(content);
    let ol = text_lines(old);
    let nl = text_lines(new);
    let start = if ln >= 2 { ln - 2 } else { 0 };
    let end = if ln + ol.len() + 2 <= lines.len() { ln + ol.len() + 2 } else { lines.len() as int };
    let l = decimal((end + 1) as nat).len();
    let w = if l >= 2 { l } else { 2 };
    let before_end = if ln <= lines.len() { ln } else { lines.len() as int };
    let after = ln + ol.len();
    seq![Seq::empty(), title_line("Diff for "@, path, RESET@), framed_rule(w)]
        + Seq::new(
            if before_end > start { (before_end - start) as nat } else { 0 },
            |k: int| numbered_keep(lines[start + k], (start + k + 1) as nat, w),
        )
        + ol.map_values(|x: Seq<char>| numbered_change(RED@, '-', x, w))
        + nl.map_values(|x: Seq<char>| numbered_change(GREEN@, '+', x, w))
        + Seq::new(
            if end > after { (end - after) as nat } else { 0 },
            |k: int| numbered_keep(lines[after + k], (after + k + 1) as nat, w),
        )
        + seq![framed_rule(w)]
}

/// Number of newlines among the first `n` characters of `c`.
fn count_newlines(c: &[char], n: usize) -> (r: usize)
    requires
        n <= c@.len(),
    ensures
        r == newline_count(c@.take(n as int)),
        r <= n,
{
    let mut k: usize = 0;
    let mut i: usize = 0;
    while i < n
        invariant
            i <= n <= c@.len(),
            k == newline_count(c@.take(i as int)),
            k <= i,
        decreases n - i,
    {
        proof {
            assert(c@.take(i + 1).drop_last() =~= c@.take(i as int));
        }
        if c[i] == '\n' {
            k += 1;
        }
        i += 1;
    }
    k
}

/// Append the numbered context lines `lines[from..to]`.
fn push_context(out: &mut Vec<String>, lines: &[&str], from: usize, to: usize, w: usize)
    requires
        from <= to <= lines@.len(),
        to < usize::MAX,
    ensures
        strings_view(final(out)@) == strings_view(old(out)@) + Seq::new(
            (to - from) as nat,
            |k: int| numbered_keep(lines@[from + k]@, (from + k + 1) as nat, w as nat),
        ),
{
    let ghost start = strings_view(out@);
    let mut i = from;
    while i < to
        invariant
            from <= i <= to <= lines@.len(),
            to < usize::MAX,
            strings_view(out@) == start + Seq::new(
                (i - from) as nat,
                |k: int| numbered_keep(lines@[from + k]@, (from + k + 1) as nat, w as nat),
            ),
        decreases to - i,
    {
        let line = diff_line_string(&DiffLine::Keep(lines[i]), i + 1, true, w);
        let ghost prev = strings_view(out@);
        out.push(line);
        proof {
            assert(strings_view(out@) =~= prev.push(line@));
            assert(start + Seq::new(
                (i + 1 - from) as nat,
                |k: int| numbered_keep(lines@[from + k]@, (from + k + 1) as nat, w as nat),
            ) =~= prev.push(line@));
        }
        i += 1;
    }
}

/// Append each of `lines` marked removed (`add` false) or added.
fn push_changes(out: &mut Vec<String>, lines: &[&str], add: bool, w: usize)
    ensures
        strings_view(final(out)@) == strings_view(old(out)@) + strs_view(lines@).map_values(
            |x: Seq<char>| if add { numbered_change(GREEN@, '+', x, w as nat) } else { numbered_change(RED@, '-', x, w as nat) },
        ),
{
    let ghost start = strings_view(out@);
    let ghost f = |x: Seq<char>| if add { numbered_change(GREEN@, '+', x, w as nat) } else { numbered_change(RED@, '-', x, w as nat) };
    let mut i: usize = 0;
    while i < lines.len()
        invariant
            i <= lines@.len(),
            f == (|x: Seq<char>| if add { numbered_change(GREEN@, '+', x, w as nat) } else { numbered_change(RED@, '-', x, w as nat) }),
            strings_view(out@) == start + strs_view(lines@).take(i as int).map_values(f),
        decreases lines@.len() - i,
    {
        let line = if add {
            diff_line_string(&DiffLine::Add(lines[i]), 0, true, w)
        } else {
            diff_line_string(&DiffLine::Remove(lines[i]), 0, true, w)
        };
        let ghost prev = strings_view(out@);
        out.push(line);
        proof {
            assert(strings_view(out@) =~= prev.push(line@));
            assert(strs_view(lines@).take(i + 1).map_values(f) =~= strs_view(lines@).take(i as int).map_values(f).push(line@));
        }
        i += 1;
    }
    proof {
        assert(strs_view(lines@).take(lines@.len() as int) =~= strs_view(lines@));
    }
}

/// The preview lines of an edit whose replaced text starts on line `ln` (see
/// [`edit_diff_at`]).
#[verifier::rlimit(40)]
#[verifier::spinoff_prover]
fn edit_lines_at(path: &str, content: &str, ln: usize, old_str: &str, new_str: &str) -> (r: Vec<String>)
    requires
        ln + old_str@.len() <= content@.len(),
        content@.len() < usize::MAX,
    ensures
        strings_view(r@) == edit_diff_at(path@, content@, ln as int, old_str@, new_str@),
{
    let mut out: Vec<String> = Vec::new();
    let lines = str_lines(content);
    let old_lines = str_lines(old_str);
    let new_lines = str_lines(new_str);
    proof {
        lemma_text_lines_len(content@);
        lemma_text_lines_len(old_str@);
    }
    let ghost tl = text_lines(content@);
    let t = ln + old_lines.len();
    let end = if t <= lines.len() && lines.len() - t >= 2 { t + 2 } else { lines.len() };
    let start = if ln >= 2 { ln - 2 } else { 0 };
    let l = decimal_len((end + 1) as u64);
    let w = if l >= 2 { l } else { 2 };
    let before_end = if ln <= lines.len() { ln } else { lines.len() };
    out.push(String::new());
    out.push(title_string("Diff for ", path));
    out.push(framed_rule_string(w));
    let ghost head = strings_view(out@);
    let from = if start <= before_end { start } else { before_end };
    push_context(&mut out, &lines, from, before_end, w);
    let ghost s1 = strings_view(out@);
    push_changes(&mut out, &old_lines, false, w);
    let ghost s2 = strings_view(out@);
    push_changes(&mut out, &new_lines, true, w);
    let ghost s3 = strings_view(out@);
    let after_from = if t <= end { t } else { end };
    push_context(&mut out, &lines, after_from, end, w);
    let ghost s4 = strings_view(out@);
    out.push(framed_rule_string(w));
    proof {
        let ol = text_lines(old_str@);
        let nl = text_lines(new_str@);
        assert(strs_view(lines@) == tl);
        assert(lines@.len() == tl.len());
        assert(head =~= seq![Seq::<char>::empty(), title_line("Diff for "@, path@, RESET@), framed_rule(w as nat)]);
        assert(Seq::new(
            (before_end - from) as nat,
            |k: int| numbered_keep(lines@[from + k]@, (from + k + 1) as nat, w as nat),
        ) =~= Seq::new(
            if before_end > start { (before_end - start) as nat } else { 0 },
            |k: int| numbered_keep(tl[start + k], (start + k + 1) as nat, w as nat),
        ));
        assert(strs_view(old_lines@).map_values(
            |x: Seq<char>| if false { numbered_change(GREEN@, '+', x, w as nat) } else { numbered_change(RED@, '-', x, w as nat) },
        ) =~= ol.map_values(|x: Seq<char>| numbered_change(RED@, '-', x, w as nat)));
        assert(strs_view(new_lines@).map_values(
            |x: Seq<char>| if true { numbered_change(GREEN@, '+', x, w as nat) } else { numbered_change(RED@, '-', x, w as nat) },
        ) =~= nl.map_values(|x: Seq<char>| numbered_change(GREEN@, '+', x, w as nat)));
        assert(Seq::new(
            (end - after_from) as nat,
            |k: int| numbered_keep(lines@[after_from + k]@, (after_from + k + 1) as nat, w as nat),
        ) =~= Seq::new(
            if end > t { (end - t) as nat } else { 0 },
            |k: int| numbered_keep(tl[t + k], (t + k + 1) as nat, w as nat),
        ));
        let ctx1 = Seq::new(
            if before_end > start { (before_end - start) as nat } else { 0 },
            |k: int| numbered_keep(tl[start + k], (start + k + 1) as nat, w as nat),
        );
        let rem = ol.map_values(|x: Seq<char>| numbered_change(RED@, '-', x, w as nat));
        let add = nl.map_values(|x: Seq<char>| numbered_change(GREEN@, '+', x, w as nat));
        let ctx2 = Seq::new(
            if end > t { (end - t) as nat } else { 0 },
            |k: int| numbered_keep(tl[t + k], (t + k + 1) as nat, w as nat),
        );
        assert(s1 == head + ctx1);
        assert(s2 == s1 + rem);
        assert(s3 == s2 + add);
        assert(s4 == s3 + ctx2);
        assert(strings_view(out@) =~= s4.push(framed_rule(w as nat)));
        assert(edit_diff_at(path@, content@, ln as int, old_str@, new_str@)
            == head + ctx1 + rem + add + ctx2 + seq![framed_rule(w as nat)]);
        assert(strings_view(out@) =~= edit_diff_at(path@, content@, ln as int, old_str@, new_str@));
    }
    out
}

/// Whether the preview lines `out` close, before their final rule of width
/// `w`, with the lines of `old` marked removed, the lines of `new` marked
/// added, and then the (up to two) lines of `content` that follow the whole
/// replaced text, which starts on line `ln` (from 0): those are numbered
/// from `ln` plus the number of replaced lines, plus one.
pub open spec fn closes_after_replaced(
    out: Seq<Seq<char>>,
    content: Seq<char>,
    ln: int,
    old: Seq<char>,
    new: Seq<char>,
    w: nat,
) -> bool {
    let lines = text_lines(content);
    let ol = text_lines(old);
    let nl = text_lines(new);
    let a = ln + ol.len();
    let m: int = if a + 2 <= lines.len() { 2 } else if a <= lines.len() { lines.len() - a } else { 0 };
    let n = out.len() as int;
    &&& n >= 1 + m + nl.len() + ol.len()
    &&& out.last() == framed_rule(w)
    &&& out.subrange(n - 1 - m, n - 1) == Seq::new(
        m as nat,
        |k: int| numbered_keep(lines[a + k], (a + k + 1) as nat, w),
    )
    &&& out.subrange(n - 1 - m - nl.len() - ol.len(), n - 1 - m) == ol.map_values(
        |x: Seq<char>| numbered_change(RED@, '-', x, w),
    ) + nl.map_values(|x: Seq<char>| numbered_change(GREEN@, '+', x, w))
}

/// Whether the preview lines `out` open with a blank line, the title for
/// `path` and a rule of width `w`, then the (up to two) lines of `content`
/// before line `ln` (from 0), each numbered by its line, then the lines of
/// `old` marked removed.
pub open spec fn opens_before_replaced(
    out: Seq<Seq<char>>,
    path: Seq<char>,
    content: Seq<char>,
    ln: int,
    old: Seq<char>,
    w: nat,
) -> bool {
    let lines = text_lines(content);
    let ol = text_lines(old);
    let first = if ln >= 2 { ln - 2 } else { 0 };
    let b: int = if ln <= lines.len() { ln - first } else if lines.len() > first { lines.len() - first } else { 0 };
    &&& out.len() >= 3 + b + ol.len()
    &&& out.take(3) == seq![Seq::<char>::empty(), title_line("Diff for "@, path, RESET@), framed_rule(w)]
    &&& out.subrange(3, 3 + b) == Seq::new(b as nat, |k: int| numbered_keep(lines[first + k], (first + k + 1) as nat, w))
    &&& out.subrange(3 + b, 3 + b + ol.len()) == ol.map_values(|x: Seq<char>| numbered_change(RED@, '-', x, w))
}

/// The width of the line-number column of an edit preview (see
/// [`edit_diff_at`]).
spec fn preview_width(content: Seq<char>, ln: int, old: Seq<char>) -> nat {
    let lines = text_lines(content);
    let ol = text_lines(old);
    let end = if ln + ol.len() + 2 <= lines.len() { ln + ol.len() + 2 } else { lines.len() as int };
    let l = decimal((end + 1) as nat).len();
    if l >= 2 { l } else { 2 }
}

/// An edit preview in its six parts.
proof fn lemma_edit_parts(path: Seq<char>, content: Seq<char>, ln: int, old: Seq<char>, new: Seq<char>)
    ensures
        ({
            let lines = text_lines(content);
            let ol = text_lines(old);
            let nl = text_lines(new);
            let w = preview_width(content, ln, old);
            let start = if ln >= 2 { ln - 2 } else { 0 };
            let end = if ln + ol.len() + 2 <= lines.len() { ln + ol.len() + 2 } else { lines.len() as int };
            let before_end = if ln <= lines.len() { ln } else { lines.len() as int };
            let a = ln + ol.len();
            edit_diff_at(path, content, ln, old, new) == seq![Seq::<char>::empty(), title_line("Diff for "@, path, RESET@), framed_rule(w)]
                + Seq::new(
                    if before_end > start { (before_end - start) as nat } else { 0 },
                    |k: int| numbered_keep(lines[start + k], (start + k + 1) as nat, w),
                )
                + ol.map_values(|x: Seq<char>| numbered_change(RED@, '-', x, w))
                + nl.map_values(|x: Seq<char>| numbered_change(GREEN@, '+', x, w))
                + Seq::new(
                    if end > a { (end - a) as nat } else { 0 },
                    |k: int| numbered_keep(lines[a + k], (a + k + 1) as nat, w),
                )
                + seq![framed_rule(w)]
        }),
{
}

proof fn lemma_edit_closes(path: Seq<char>, content: Seq<char>, ln: int, old: Seq<char>, new: Seq<char>)
    requires
        0 <= ln,
    ensures
        closes_after_replaced(edit_diff_at(path, content, ln, old, new), content, ln, old, new, preview_width(content, ln, old)),
{
    lemma_edit_parts(path, content, ln, old, new);
    let out = edit_diff_at(path, content, ln, old, new);
    let lines = text_lines(content);
    let ol = text_lines(old);
    let nl = text_lines(new);
    let w = preview_width(content, ln, old);
    let end = if ln + ol.len() + 2 <= lines.len() { ln + ol.len() + 2 } else { lines.len() as int };
    let a = ln + ol.len();
    let m: int = if a + 2 <= lines.len() { 2 } else if a <= lines.len() { lines.len() - a } else { 0 };
    let rem = ol.map_values(|x: Seq<char>| numbered_change(RED@, '-', x, w));
    let add = nl.map_values(|x: Seq<char>| numbered_change(GREEN@, '+', x, w));
    let ctx2 = Seq::new(
        if end > a { (end - a) as nat } else { 0 },
        |k: int| numbered_keep(lines[a + k], (a + k + 1) as nat, w),
    );
    assert(ctx2.len() == m);
    let n = out.len() as int;
    assert(out.subrange(n - 1 - m, n - 1) =~= ctx2);
    assert(out.subrange(n - 1 - m - nl.len() - ol.len(), n - 1 - m) =~= rem + add);
}

proof fn lemma_edit_opens(path: Seq<char>, content: Seq<char>, ln: int, old: Seq<char>, new: Seq<char>)
    requires
        0 <= ln,
    ensures
        opens_before_replaced(edit_diff_at(path, content, ln, old, new), path, content, ln, old, preview_width(content, ln, old)),
{
    lemma_edit_parts(path, content, ln, old, new);
    let out = edit_diff_at(path, content, ln, old, new);
    let lines = text_lines(content);
    let ol = text_lines(old);
    let w = preview_width(content, ln, old);
    let start = if ln >= 2 { ln - 2 } else { 0 };
    let before_end = if ln <= lines.len() { ln } else { lines.len() as int };
    let head = seq![Seq::<char>::empty(), title_line("Diff for "@, path, RESET@), framed_rule(w)];
    let ctx1 = Seq::new(
        if before_end > start { (before_end - start) as nat } else { 0 },
        |k: int| numbered_keep(lines[start + k], (start + k + 1) as nat, w),
    );
    let rem = ol.map_values(|x: Seq<char>| numbered_change(RED@, '-', x, w));
    let b = ctx1.len() as int;
    assert(b == (if ln <= lines.len() { ln - start } else if lines.len() > start { lines.len() - start } else { 0 }));
    assert(out.take(3) =~= head);
    assert(out.subrange(3, 3 + b) =~= ctx1);
    assert(out.subrange(3 + b, 3 + b + ol.len()) =~= rem);
}

/// The preview of an edit whose replaced text starts on line `ln` shows
/// the two file lines before it, then the removed and added lines, then the
/// file lines that follow the whole replaced text: none of the replaced
/// lines comes back as context.
pub proof fn lemma_edit_context_after(path: Seq<char>, content: Seq<char>, ln: int, old: Seq<char>, new: Seq<char>)
    requires
        0 <= ln,
    ensures
        exists|w: nat| closes_after_replaced(edit_diff_at(path, content, ln, old, new), content, ln, old, new, w)
            && opens_before_replaced(edit_diff_at(path, content, ln, old, new), path, content, ln, old, w),
{
    lemma_edit_closes(path, content, ln, old, new);
    lemma_edit_opens(path, content, ln, old, new);
    let w = preview_width(content, ln, old);
    assert(closes_after_replaced(edit_diff_at(path, content, ln, old, new), content, ln, old, new, w)
        && opens_before_replaced(edit_diff_at(path, content, ln, old, new), path, content, ln, old, w));
}

/// The preview shown before replacing the first occurrence of `old` shows
/// the file lines just before the line where it starts, then the removed
/// and added lines, then the file lines that follow the whole replaced
/// text, numbered from the replaced text's first line plus the number of
/// its lines, plus one.
pub proof fn lemma_edit_preview_context_after(path: Seq<char>, content: Seq<char>, old: Seq<char>, new: Seq<char>)
    requires
        first_occurrence(content, old, 0) is Some,
    ensures
        exists|w: nat| closes_after_replaced(
            edit_diff(path, content, old, new),
            content,
            newline_count(content.take(first_occurrence(content, old, 0)->0)) as int,
            old,
            new,
            w,
        ) && opens_before_replaced(
            edit_diff(path, content, old, new),
            path,
            content,
            newline_count(content.take(first_occurrence(content, old, 0)->0)) as int,
            old,
            w,
        ),
{
    let ln = newline_count(content.take(first_occurrence(content, old, 0)->0)) as int;
    lemma_edit_context_after(path, content, ln, old, new);
    let w = choose|w: nat| closes_after_replaced(edit_diff_at(path, content, ln, old, new), content, ln, old, new, w)
        && opens_before_replaced(edit_diff_at(path, content, ln, old, new), path, content, ln, old, w);
    assert(edit_diff(path, content, old, new) == edit_diff_at(path, content, ln, old, new));
    assert(closes_after_replaced(edit_diff(path, content, old, new), content, ln, old, new, w));
    assert(opens_before_replaced(edit_diff(path, content, old, new), path, content, ln, old, w));
}

/// The lines of the preview shown before replacing `old_str` by `new_str` in
/// the file `path` whose content is `content` (see [`edit_diff`]).
pub fn edit_diff_lines(path: &str, content: &str, old_str: &str, new_str: &str) -> (r: Vec<String>)
    requires
        content@.len() < usize::MAX,
    ensures
        strings_view(r@) == edit_diff(path@, content@, old_str@, new_str@),
{
    let cs = chars_of(content);
    let ps = chars_of(old_str);
    let mut out: Vec<String> = Vec::new();
    let found = find_chars(&cs, &ps);
    match found {
        None => {
            let mut s = String::new();
            push_repeat(&mut s, ' ', 2);
            push_str(&mut s, RED);
            push_str(&mut s, "[diff error: 'old_str' not found in file]");
            push_str(&mut s, RESET);
            out.push(s);
            proof {
                assert(strings_view(out@) =~= edit_diff(path@, content@, old_str@, new_str@));
            }
            out
        },
        Some(off) => {
            proof {
                lemma_first_occurrence(cs@, ps@, 0);
            }
            let ln = count_newlines(&cs, off);
            proof {
                assert(cs@.take(off as int) =~= content@.take(off as int));
            }
            edit_lines_at(path, content, ln, old_str, new_str)
        },
    }
}

} // verus!
