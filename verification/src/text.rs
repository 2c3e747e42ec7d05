//! Text helpers shared by the widgets: conversions between `str`/`String`
//! and character vectors, and small character-sequence predicates.

use vstd::prelude::*;
use vstd::utf8::*;

verus! {

/// Append one character to a `String` (std `String::push`).
/// Trusted: the pushed string's characters are the old ones followed by `c`.
#[verifier::external_body]
pub(crate) fn string_push(s: &mut String, c: char)
    ensures
        final(s)@ == old(s)@.push(c),
{
    s.push(c);
}

/// The characters of a string slice, in order.
pub fn chars_of(s: &str) -> (v: Vec<char>)
    ensures
        v@ == s@,
{
    let mut v: Vec<char> = Vec::new();
    for c in it: s.chars()
        invariant
            v@ == it.seq().take(it.index() as int),
            it.seq() == s@,
    {
        v.push(c);
    }
    v
}

/// Build a `String` from a character slice.
pub fn string_of(cs: &[char]) -> (s: String)
    ensures
        s@ == cs@,
{
    let mut s = String::new();
    let mut i: usize = 0;
    while i < cs.len()
        invariant
            i <= cs.len(),
            s@ == cs@.take(i as int),
        decreases cs.len() - i,
    {
        string_push(&mut s, cs[i]);
        proof {
            assert(cs@.take(i + 1) =~= cs@.take(i as int).push(cs@[i as int]));
        }
        i += 1;
    }
    proof {
        assert(cs@.take(cs@.len() as int) =~= cs@);
    }
    s
}

/// The decimal digit character for `d < 10`.
pub open spec fn digit_char(d: nat) -> char {
    ((d + 48) as u32) as char
}

/// The decimal representation of `n` (no leading zeros; `"0"` for zero).
pub open spec fn decimal(n: nat) -> Seq<char>
    decreases n,
{
    if n < 10 {
        seq![digit_char(n)]
    } else {
        decimal(n / 10).push(digit_char(n % 10))
    }
}

fn digit(d: u32) -> (c: char)
    requires
        d < 10,
    ensures
        c == digit_char(d as nat),
{
    if d == 0 { '0' }
    else if d == 1 { '1' }
    else if d == 2 { '2' }
    else if d == 3 { '3' }
    else if d == 4 { '4' }
    else if d == 5 { '5' }
    else if d == 6 { '6' }
    else if d == 7 { '7' }
    else if d == 8 { '8' }
    else { '9' }
}

/// Append the decimal representation of `n`.
pub fn push_decimal(s: &mut String, n: u64)
    ensures
        final(s)@ == old(s)@ + decimal(n as nat),
    decreases n,
{
    if n < 10 {
        string_push(s, digit(n as u32));
        proof {
            assert(decimal(n as nat) == seq![digit_char(n as nat)]);
            assert(old(s)@.push(digit_char(n as nat)) =~= old(s)@ + decimal(n as nat));
        }
    } else {
        push_decimal(s, n / 10);
        string_push(s, digit((n % 10) as u32));
        proof {
            assert(old(s)@ + decimal((n / 10) as nat) + seq![digit_char((n % 10) as nat)]
                =~= old(s)@ + decimal(n as nat));
        }
    }
}

/// Append a string slice.
pub(crate) fn push_str(s: &mut String, t: &str)
    ensures
        final(s)@ == old(s)@ + t@,
{
    s.append(t);
}

/// Number of UTF-8 bytes encoding `c` (what std's `char::len_utf8` returns).
pub open spec fn char_utf8_len(c: char) -> nat {
    encode_scalar(c as u32).len()
}

/// The number of UTF-8 bytes that encode `c`.
pub fn utf8_len(c: char) -> (n: usize)
    ensures
        n == char_utf8_len(c),
        1 <= n <= 4,
{
    proof {
        char_is_scalar(c);
    }
    let v = c as u32;
    if v <= 0x7F {
        1
    } else if v <= 0x7FF {
        2
    } else if v <= 0xFFFF {
        3
    } else {
        4
    }
}

/// UTF-8 encoding distributes over concatenation.
pub proof fn lemma_encode_append(a: Seq<char>, b: Seq<char>)
    ensures
        encode_utf8(a + b) == encode_utf8(a) + encode_utf8(b),
    decreases a.len(),
{
    if a.len() == 0 {
        assert(a + b =~= b);
        assert(encode_utf8(a) =~= Seq::<u8>::empty());
        assert(Seq::<u8>::empty() + encode_utf8(b) =~= encode_utf8(b));
    } else {
        assert((a + b)[0] == a[0]);
        assert((a + b).drop_first() =~= a.drop_first() + b);
        lemma_encode_append(a.drop_first(), b);
        assert(encode_utf8(a + b) =~= encode_utf8(a) + encode_utf8(b));
    }
}

/// The byte length of a character sequence's encoding.
pub proof fn lemma_encode_len_push(a: Seq<char>, c: char)
    ensures
        encode_utf8(a.push(c)).len() == encode_utf8(a).len() + char_utf8_len(c),
{
    lemma_encode_append(a, seq![c]);
    assert(a + seq![c] =~= a.push(c));
    assert(seq![c].drop_first() =~= Seq::<char>::empty());
    assert(encode_utf8(seq![c]) =~= encode_scalar(c as u32) + encode_utf8(Seq::<char>::empty()));
}

/// The end of the encoding of any prefix of a character sequence is a
/// character boundary of the sequence's encoding.
pub proof fn lemma_prefix_boundary(cs: Seq<char>, k: int)
    requires
        0 <= k <= cs.len(),
    ensures
        is_char_boundary(encode_utf8(cs), encode_utf8(cs.take(k)).len() as int),
    decreases k,
{
    let bytes = encode_utf8(cs);
    encode_utf8_valid_utf8(cs);
    if k == 0 {
        assert(cs.take(0) =~= Seq::<char>::empty());
    } else {
        encode_utf8_first_scalar(cs);
        let rest = cs.drop_first();
        lemma_prefix_boundary(rest, k - 1);
        assert(cs.take(k) =~= seq![cs[0]] + rest.take(k - 1));
        lemma_encode_append(seq![cs[0]], rest.take(k - 1));
        assert(seq![cs[0]].drop_first() =~= Seq::<char>::empty());
        assert(encode_utf8(seq![cs[0]]) =~= encode_scalar(cs[0] as u32) + encode_utf8(Seq::<char>::empty()));
        assert(pop_first_scalar(bytes) =~= encode_utf8(rest));
        lemma_encode_append(cs.take(k), cs.skip(k));
        assert(cs.take(k) + cs.skip(k) =~= cs);
    }
}

/// The prefix of `s` made of its first `k` characters, whose encoding is
/// `b` bytes long.
pub(crate) fn prefix_str(s: &str, k: Ghost<int>, b: usize) -> (r: &str)
    requires
        0 <= k@ <= s@.len(),
        b == encode_utf8(s@.take(k@)).len(),
    ensures
        r@ == s@.take(k@),
{
    proof {
        lemma_prefix_boundary(s@, k@);
        lemma_encode_append(s@.take(k@), s@.skip(k@));
        assert(s@.take(k@) + s@.skip(k@) =~= s@);
        assert(encode_utf8(s@).subrange(0, b as int) =~= encode_utf8(s@.take(k@)));
    }
    let (r, _) = s.split_at(b);
    proof {
        encode_utf8_decode_utf8(r@);
        encode_utf8_decode_utf8(s@.take(k@));
    }
    r
}

/// The Unicode `White_Space` property, which std's `char::is_whitespace`
/// tests: U+0009..U+000D, U+0020, U+0085, U+00A0, U+1680, U+2000..U+200A,
/// U+2028, U+2029, U+202F, U+205F and U+3000.
pub open spec fn is_white(c: char) -> bool {
    let v = c as u32;
    (0x09 <= v <= 0x0D) || v == 0x20 || v == 0x85 || v == 0xA0 || v == 0x1680
        || (0x2000 <= v <= 0x200A) || v == 0x2028 || v == 0x2029 || v == 0x202F
        || v == 0x205F || v == 0x3000
}

/// Whether `c` is whitespace (the `White_Space` property).
pub fn is_whitespace(c: char) -> (r: bool)
    ensures
        r == is_white(c),
{
    let v = c as u32;
    (0x09 <= v && v <= 0x0D) || v == 0x20 || v == 0x85 || v == 0xA0 || v == 0x1680
        || (0x2000 <= v && v <= 0x200A) || v == 0x2028 || v == 0x2029 || v == 0x202F
        || v == 0x205F || v == 0x3000
}

/// Number of leading whitespace characters.
pub open spec fn leading_ws(cs: Seq<char>) -> nat
    decreases cs.len(),
{
    if cs.len() == 0 || !is_white(cs[0]) {
        0
    } else {
        1 + leading_ws(cs.drop_first())
    }
}

/// Number of trailing whitespace characters.
pub open spec fn trailing_ws(cs: Seq<char>) -> nat
    decreases cs.len(),
{
    if cs.len() == 0 || !is_white(cs.last()) {
        0
    } else {
        1 + trailing_ws(cs.drop_last())
    }
}

/// `str::trim_start`: the text without its leading whitespace.
pub open spec fn trim_start(cs: Seq<char>) -> Seq<char> {
    cs.skip(leading_ws(cs) as int)
}

/// `str::trim_end`: the text without its trailing whitespace.
pub open spec fn trim_end(cs: Seq<char>) -> Seq<char> {
    cs.take(cs.len() - trailing_ws(cs))
}

/// `str::trim`: the text without leading and trailing whitespace.
pub open spec fn trim(cs: Seq<char>) -> Seq<char> {
    trim_end(trim_start(cs))
}

pub proof fn lemma_leading_ws_bound(cs: Seq<char>)
    ensures
        leading_ws(cs) <= cs.len(),
        forall|i: int| 0 <= i < leading_ws(cs) ==> is_white(#[trigger] cs[i]),
        leading_ws(cs) < cs.len() ==> !is_white(cs[leading_ws(cs) as int]),
    decreases cs.len(),
{
    if cs.len() > 0 && is_white(cs[0]) {
        lemma_leading_ws_bound(cs.drop_first());
        assert forall|i: int| 0 <= i < leading_ws(cs) implies is_white(#[trigger] cs[i]) by {
            if i > 0 {
                assert(cs[i] == cs.drop_first()[i - 1]);
            }
        }
    }
}

pub proof fn lemma_trailing_ws_bound(cs: Seq<char>)
    ensures
        trailing_ws(cs) <= cs.len(),
        forall|i: int| cs.len() - trailing_ws(cs) <= i < cs.len() ==> is_white(#[trigger] cs[i]),
        trailing_ws(cs) < cs.len() ==> !is_white(cs[cs.len() - trailing_ws(cs) - 1]),
    decreases cs.len(),
{
    if cs.len() > 0 && is_white(cs.last()) {
        lemma_trailing_ws_bound(cs.drop_last());
        assert forall|i: int| cs.len() - trailing_ws(cs) <= i < cs.len() implies is_white(#[trigger] cs[i]) by {
            if i < cs.len() - 1 {
                assert(cs[i] == cs.drop_last()[i]);
            }
        }
    }
}

/// Index of the first non-whitespace character at or after `from`
/// (`cs.len()` when there is none).
pub fn skip_ws_forward(cs: &[char], from: usize) -> (r: usize)
    requires
        from <= cs@.len(),
    ensures
        from <= r <= cs@.len(),
        r == from + leading_ws(cs@.skip(from as int)),
{
    let mut i = from;
    while i < cs.len() && is_whitespace(cs[i])
        invariant
            from <= i <= cs@.len(),
            leading_ws(cs@.skip(from as int)) == (i - from) + leading_ws(cs@.skip(i as int)),
        decreases cs@.len() - i,
    {
        proof {
            assert(cs@.skip(i as int).drop_first() =~= cs@.skip(i + 1));
        }
        i += 1;
    }
    i
}

/// The characters of `cs` with leading and trailing whitespace removed.
pub fn trim_chars(cs: &[char]) -> (r: Vec<char>)
    ensures
        r@ == trim(cs@),
{
    let start = skip_ws_forward(cs, 0);
    let mut end = cs.len();
    proof {
        assert(cs@.skip(0) =~= cs@);
        assert(cs@.skip(start as int).take(cs@.len() - start) =~= cs@.skip(start as int));
    }
    while end > start && is_whitespace(cs[end - 1])
        invariant
            start <= end <= cs@.len(),
            trailing_ws(cs@.skip(start as int)) == (cs@.len() - end) + trailing_ws(cs@.subrange(start as int, end as int)),
        decreases end,
    {
        proof {
            assert(cs@.subrange(start as int, end as int).drop_last() =~= cs@.subrange(start as int, end - 1));
        }
        end -= 1;
    }
    proof {
        assert(cs@.subrange(start as int, cs@.len() as int) =~= cs@.skip(start as int));
    }
    let mut r: Vec<char> = Vec::new();
    let mut i = start;
    while i < end
        invariant
            start <= i <= end <= cs@.len(),
            r@ == cs@.subrange(start as int, i as int),
        decreases end - i,
    {
        r.push(cs[i]);
        proof {
            assert(r@ =~= cs@.subrange(start as int, i + 1));
        }
        i += 1;
    }
    proof {
        assert(trim(cs@) =~= cs@.subrange(start as int, end as int));
    }
    r
}

/// Whether `p` is a prefix of `cs` (`str::starts_with`).
pub fn starts_with(cs: &[char], p: &[char]) -> (r: bool)
    ensures
        r == p@.is_prefix_of(cs@),
{
    if p.len() > cs.len() {
        return false;
    }
    let mut i: usize = 0;
    while i < p.len()
        invariant
            p@.len() <= cs@.len(),
            i <= p@.len(),
            forall|j: int| 0 <= j < i ==> p@[j] == cs@[j],
        decreases p@.len() - i,
    {
        if p[i] != cs[i] {
            return false;
        }
        i += 1;
    }
    proof {
        assert(p@ =~= cs@.subrange(0, p@.len() as int));
    }
    true
}

/// Whether two character slices are equal.
pub fn chars_eq(a: &[char], b: &[char]) -> (r: bool)
    ensures
        r == (a@ == b@),
{
    if a.len() != b.len() {
        return false;
    }
    let r = starts_with(a, b);
    proof {
        if r {
            assert(a@ =~= b@);
        }
    }
    r
}

/// What std's `str::to_lowercase` returns for a string.
pub uninterp spec fn lowercase(s: Seq<char>) -> Seq<char>;

/// Lowercase a string (std `str::to_lowercase`).
/// Trusted: the result is `lowercase(s@)`, a function of the characters alone
/// (Unicode case mapping; not stated further here).
#[verifier::external_body]
pub(crate) fn to_lower(s: &str) -> (r: String)
    ensures
        r@ == lowercase(s@),
{
    s.to_lowercase()
}

/// The lowercase form of a character sequence.
pub fn lower_chars(cs: &[char]) -> (r: Vec<char>)
    ensures
        r@ == lowercase(cs@),
{
    let s = string_of(cs);
    let l = to_lower(s.as_str());
    chars_of(l.as_str())
}

/// A copy of a character slice.
pub fn copy_chars(cs: &[char]) -> (r: Vec<char>)
    ensures
        r@ == cs@,
{
    let mut r: Vec<char> = Vec::new();
    for i in 0..cs.len()
        invariant
            r@ == cs@.take(i as int),
    {
        r.push(cs[i]);
        proof {
            assert(r@ =~= cs@.take(i + 1));
        }
    }
    proof {
        assert(cs@.take(cs@.len() as int) =~= cs@);
    }
    r
}

/// `a` followed by `b`.
pub fn concat_chars(a: &[char], b: &[char]) -> (r: Vec<char>)
    ensures
        r@ == a@ + b@,
{
    let mut r = copy_chars(a);
    for i in 0..b.len()
        invariant
            r@ == a@ + b@.take(i as int),
    {
        r.push(b[i]);
        proof {
            assert(r@ =~= a@ + b@.take(i + 1));
        }
    }
    proof {
        assert(b@.take(b@.len() as int) =~= b@);
    }
    r
}

/// The characters `cs[from..to]`.
pub fn slice_chars(cs: &[char], from: usize, to: usize) -> (r: Vec<char>)
    requires
        from <= to <= cs@.len(),
    ensures
        r@ == cs@.subrange(from as int, to as int),
{
    let mut r: Vec<char> = Vec::new();
    let mut i = from;
    while i < to
        invariant
            from <= i <= to <= cs@.len(),
            r@ == cs@.subrange(from as int, i as int),
        decreases to - i,
    {
        r.push(cs[i]);
        proof {
            assert(r@ =~= cs@.subrange(from as int, i + 1));
        }
        i += 1;
    }
    r
}

/// The character sequences of a list of character vectors.
pub open spec fn vv(v: Seq<Vec<char>>) -> Seq<Seq<char>> {
    v.map_values(|x: Vec<char>| x@)
}


/// End of the line holding position `k`: the first newline at or after `k`,
/// or the end of the text.
pub open spec fn line_end(c: Seq<char>, k: int) -> int
    decreases c.len() - k,
{
    if k >= c.len() {
        c.len() as int
    } else if c[k] == '\n' {
        k
    } else {
        line_end(c, k + 1)
    }
}


/// `line_end` lies between `k` and the end of the text, and no newline
/// stands before it from `k`.
pub proof fn lemma_line_end(c: Seq<char>, k: int)
    requires
        0 <= k <= c.len(),
    ensures
        k <= line_end(c, k) <= c.len(),
        line_end(c, k) < c.len() ==> c[line_end(c, k)] == '\n',
        forall|j: int| k <= j < line_end(c, k) ==> c[j] != '\n',
    decreases c.len() - k,
{
    if k < c.len() && c[k] != '\n' {
        lemma_line_end(c, k + 1);
    }
}


/// The lines of a text as std's `str::lines` gives them: split at `\n`, a
/// `\r` before the `\n` dropped, no final empty line after a trailing `\n`.
pub open spec fn text_lines(c: Seq<char>) -> Seq<Seq<char>>
    decreases c.len(),
{
    if c.len() == 0 {
        Seq::empty()
    } else {
        let e = line_end(c, 0);
        proof {
            lemma_line_end(c, 0);
        }
        if e >= c.len() {
            seq![c]
        } else {
            let line = if e > 0 && c[e - 1] == '\r' { c.take(e - 1) } else { c.take(e) };
            seq![line] + text_lines(c.skip(e + 1))
        }
    }
}


pub fn find_line_end(c: &[char], k: usize) -> (r: usize)
    requires
        k <= c@.len(),
    ensures
        r == line_end(c@, k as int),
{
    let mut j = k;
    while j < c.len() && c[j] != '\n'
        invariant
            k <= j <= c@.len(),
            line_end(c@, k as int) == line_end(c@, j as int),
        decreases c@.len() - j,
    {
        j += 1;
    }
    j
}


/// The lines of a text (std `str::lines`).
pub fn lines_of(c: &[char]) -> (r: Vec<Vec<char>>)
    ensures
        vv(r@) == text_lines(c@),
    decreases c@.len(),
{
    if c.len() == 0 {
        proof {
            assert(vv(Seq::<Vec<char>>::empty()) =~= Seq::<Seq<char>>::empty());
        }
        return Vec::new();
    }
    let e = find_line_end(c, 0);
    proof {
        lemma_line_end(c@, 0);
    }
    if e >= c.len() {
        let line = copy_chars(c);
        let mut r: Vec<Vec<char>> = Vec::new();
        r.push(line);
        proof {
            assert(vv(r@) =~= seq![c@]);
        }
        r
    } else {
        let line = if e > 0 && c[e - 1] == '\r' { slice_chars(c, 0, e - 1) } else { slice_chars(c, 0, e) };
        let rest = slice_chars(c, e + 1, c.len());
        let tail = lines_of(&rest);
        let mut r: Vec<Vec<char>> = Vec::new();
        r.push(line);
        for i in 0..tail.len()
            invariant
                r@.len() == i + 1,
                r@[0]@ == line@,
                forall|j: int| 0 <= j < i ==> r@[j + 1]@ == tail@[j]@,
        {
            let item = copy_chars(&tail[i]);
            r.push(item);
        }
        proof {
            assert(rest@ =~= c@.skip(e + 1));
            assert(line@ =~= (if e > 0 && c@[e - 1] == '\r' { c@.take(e - 1) } else { c@.take(e as int) }));
            assert(vv(r@) =~= seq![line@] + vv(tail@));
        }
        r
    }
}


/// `n` copies of `c`.
pub open spec fn repeat_char(c: char, n: nat) -> Seq<char> {
    Seq::new(n, |_i: int| c)
}

/// Append `n` copies of `c`.
pub fn push_repeat(s: &mut String, c: char, n: usize)
    ensures
        final(s)@ == old(s)@ + repeat_char(c, n as nat),
{
    let mut i: usize = 0;
    while i < n
        invariant
            i <= n,
            s@ == old(s)@ + repeat_char(c, i as nat),
        decreases n - i,
    {
        string_push(s, c);
        proof {
            assert(old(s)@ + repeat_char(c, (i + 1) as nat) =~= (old(s)@ + repeat_char(c, i as nat)).push(c));
        }
        i += 1;
    }
}

/// Ten to the power `k`.
pub open spec fn pow10(k: nat) -> nat
    decreases k,
{
    if k == 0 { 1 } else { 10 * pow10((k - 1) as nat) }
}

/// A number below `10^k` has at most `k` decimal digits.
pub proof fn lemma_decimal_len_bound(n: nat, k: nat)
    requires
        1 <= k,
        n < pow10(k),
    ensures
        decimal(n).len() <= k,
    decreases k,
{
    if n >= 10 {
        if k == 1 {
            assert(pow10(1) == 10 * pow10(0));
        } else {
            assert(pow10(k) == 10 * pow10((k - 1) as nat));
            lemma_decimal_len_bound(n / 10, (k - 1) as nat);
        }
    }
}

/// The number of decimal digits of `n`.
pub fn decimal_len(n: u64) -> (r: usize)
    ensures
        r == decimal(n as nat).len(),
        1 <= r <= 20,
    decreases n,
{
    if n < 10 {
        1
    } else {
        let k = decimal_len(n / 10);
        proof {
            reveal_with_fuel(pow10, 21);
            assert(pow10(20) == 100000000000000000000nat);
            lemma_decimal_len_bound(n as nat, 20);
        }
        k + 1
    }
}

/// The characters of each of a list of string slices.
pub open spec fn strs_view(v: Seq<&str>) -> Seq<Seq<char>> {
    v.map_values(|x: &str| x@)
}

/// The characters of each of a list of strings.
pub open spec fn strings_view(v: Seq<String>) -> Seq<Seq<char>> {
    v.map_values(|x: String| x@)
}

/// Split `s` after its first `k` characters, whose encoding is `b` bytes long.
pub(crate) fn split_chars(s: &str, k: Ghost<int>, b: usize) -> (r: (&str, &str))
    requires
        0 <= k@ <= s@.len(),
        b == encode_utf8(s@.take(k@)).len(),
    ensures
        r.0@ == s@.take(k@),
        r.1@ == s@.skip(k@),
{
    proof {
        lemma_prefix_boundary(s@, k@);
        lemma_encode_append(s@.take(k@), s@.skip(k@));
        assert(s@.take(k@) + s@.skip(k@) =~= s@);
        assert(encode_utf8(s@).subrange(0, b as int) =~= encode_utf8(s@.take(k@)));
        assert(encode_utf8(s@).subrange(b as int, encode_utf8(s@).len() as int) =~= encode_utf8(s@.skip(k@)));
    }
    let (r0, r1) = s.split_at(b);
    proof {
        encode_utf8_decode_utf8(r0@);
        encode_utf8_decode_utf8(s@.take(k@));
        encode_utf8_decode_utf8(r1@);
        encode_utf8_decode_utf8(s@.skip(k@));
    }
    (r0, r1)
}

/// A text has no more lines than characters.
pub proof fn lemma_text_lines_len(c: Seq<char>)
    ensures
        text_lines(c).len() <= c.len(),
    decreases c.len(),
{
    if c.len() > 0 {
        let e = line_end(c, 0);
        lemma_line_end(c, 0);
        if e < c.len() {
            lemma_text_lines_len(c.skip(e + 1));
        }
    }
}

/// The lines of a string slice (std `str::lines`), as slices of it.
pub fn str_lines(s: &str) -> (r: Vec<&str>)
    ensures
        strs_view(r@) == text_lines(s@),
        r@.len() <= s@.len(),
    decreases s@.len(),
{
    proof {
        lemma_text_lines_len(s@);
    }
    let cs = chars_of(s);
    if cs.len() == 0 {
        proof {
            assert(strs_view(Seq::<&str>::empty()) =~= Seq::<Seq<char>>::empty());
        }
        return Vec::new();
    }
    let nbytes = s.as_bytes().len();
    let mut e: usize = 0;
    let mut b: usize = 0;
    while e < cs.len() && cs[e] != '\n'
        invariant
            0 <= e <= cs@.len(),
            cs@ == s@,
            nbytes == encode_utf8(s@).len(),
            line_end(s@, 0) == line_end(s@, e as int),
            b == encode_utf8(s@.take(e as int)).len(),
            b <= nbytes,
        decreases cs@.len() - e,
    {
        proof {
            lemma_encode_len_push(s@.take(e as int), s@[e as int]);
            assert(s@.take(e as int).push(s@[e as int]) =~= s@.take(e + 1));
            lemma_encode_append(s@.take(e + 1), s@.skip(e + 1));
            assert(s@.take(e + 1) + s@.skip(e + 1) =~= s@);
        }
        b = b + utf8_len(cs[e]);
        e += 1;
    }
    proof {
        lemma_line_end(s@, 0);
    }
    if e >= cs.len() {
        let mut r: Vec<&str> = Vec::new();
        r.push(s);
        proof {
            assert(strs_view(r@) =~= seq![s@]);
        }
        return r;
    }
    let (head, tail) = split_chars(s, Ghost(e as int), b);
    let line = if e > 0 && cs[e - 1] == '\r' {
        proof {
            lemma_encode_len_push(s@.take(e - 1), s@[e - 1]);
            assert(s@.take(e - 1).push(s@[e - 1]) =~= s@.take(e as int));
            assert(head@.take(e - 1) =~= s@.take(e - 1));
        }
        let (l, _) = split_chars(head, Ghost(e - 1), b - 1);
        l
    } else {
        head
    };
    proof {
        lemma_encode_len_push(s@.take(e as int), '\n');
        assert(s@.take(e as int).push('\n') =~= s@.take(e + 1));
        assert(tail@.skip(1) =~= s@.skip(e + 1));
        assert(tail@.take(1) =~= seq!['\n']);
        assert(encode_utf8(seq!['\n']).len() == 1) by {
            lemma_encode_len_push(Seq::<char>::empty(), '\n');
            assert(Seq::<char>::empty().push('\n') =~= seq!['\n']);
        }
    }
    let (_, rest) = split_chars(tail, Ghost(1), 1);
    let more = str_lines(rest);
    let mut r: Vec<&str> = Vec::new();
    r.push(line);
    let mut i: usize = 0;
    while i < more.len()
        invariant
            i <= more@.len(),
            r@.len() == i + 1,
            r@[0] == line,
            forall|j: int| 0 <= j < i ==> r@[j + 1] == more@[j],
        decreases more@.len() - i,
    {
        r.push(more[i]);
        i += 1;
    }
    proof {
        assert(strs_view(r@) =~= seq![line@] + strs_view(more@));
        lemma_text_lines_len(s@.skip(e + 1));
    }
    r
}


/// Whether `p` occurs in `c` at position `i`.
pub open spec fn occurs_at(c: Seq<char>, p: Seq<char>, i: int) -> bool {
    0 <= i && i + p.len() <= c.len() && c.subrange(i, i + p.len()) == p
}

/// The first position at or after `from` where `p` occurs in `c`
/// (what `str::find` locates).
pub open spec fn first_occurrence(c: Seq<char>, p: Seq<char>, from: int) -> Option<int>
    decreases c.len() - from,
{
    if from < 0 || from + p.len() > c.len() {
        None
    } else if occurs_at(c, p, from) {
        Some(from)
    } else if from < c.len() {
        first_occurrence(c, p, from + 1)
    } else {
        None
    }
}

/// A found position is an occurrence at or after the start of the search.
pub proof fn lemma_first_occurrence(c: Seq<char>, p: Seq<char>, from: int)
    ensures
        first_occurrence(c, p, from) matches Some(i) ==> from <= i && occurs_at(c, p, i),
    decreases c.len() - from,
{
    if from >= 0 && from + p.len() <= c.len() && !occurs_at(c, p, from) && from < c.len() {
        lemma_first_occurrence(c, p, from + 1);
    }
}

/// Whether `p` occurs in `c` at position `i`.
fn occurs_at_exec(c: &[char], p: &[char], i: usize) -> (r: bool)
    requires
        i <= c@.len(),
    ensures
        r == occurs_at(c@, p@, i as int),
{
    if p.len() > c.len() - i {
        return false;
    }
    let mut j: usize = 0;
    while j < p.len()
        invariant
            i + p@.len() <= c@.len(),
            c@.len() == c.len(),
            j <= p@.len(),
            forall|k: int| 0 <= k < j ==> c@[i + k] == p@[k],
        decreases p@.len() - j,
    {
        if c[i + j] != p[j] {
            proof {
                assert(c@.subrange(i as int, i + p@.len())[j as int] != p@[j as int]);
            }
            return false;
        }
        j += 1;
    }
    proof {
        assert(c@.subrange(i as int, i + p@.len()) =~= p@);
    }
    true
}

/// The first position where `p` occurs in `c` (see [`first_occurrence`]).
pub fn find_chars(c: &[char], p: &[char]) -> (r: Option<usize>)
    ensures
        match r {
            Some(i) => first_occurrence(c@, p@, 0) == Some(i as int),
            None => first_occurrence(c@, p@, 0) is None,
        },
{
    let mut i: usize = 0;
    while i <= c.len() && p.len() <= c.len() - i
        invariant
            i <= c@.len(),
            first_occurrence(c@, p@, 0) == first_occurrence(c@, p@, i as int),
        decreases c@.len() - i,
    {
        if occurs_at_exec(c, p, i) {
            return Some(i);
        }
        if i == c.len() {
            proof {
                assert(c@.subrange(i as int, i as int) =~= p@);
            }
            return None;
        }
        i += 1;
    }
    None
}

} // verus!
