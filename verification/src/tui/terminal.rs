//! Terminal size, the Windows console size record, and the escape
//! sequences that switch terminal modes on and off (each sent only when
//! the mode actually changes).

use vstd::prelude::*;
use crate::text::decimal;

verus! {

/// Terminal size in columns and rows.
#[derive(Clone, Copy, Debug, PartialEq, Eq, Structural)]
pub struct Size {
    pub cols: u16,
    pub rows: u16,
}

/// A console coordinate.
#[allow(non_snake_case)]
#[derive(Clone, Copy, Debug, Default, PartialEq, Eq, Structural)]
pub struct COORD {
    pub X: i16,
    pub Y: i16,
}

/// A console rectangle, its corners inclusive.
#[allow(non_snake_case)]
#[derive(Clone, Copy, Debug, Default, PartialEq, Eq, Structural)]
pub struct SMALL_RECT {
    pub Left: i16,
    pub Top: i16,
    pub Right: i16,
    pub Bottom: i16,
}

/// The console screen buffer record of the Windows console API.
#[allow(non_snake_case)]
#[derive(Clone, Copy, Debug, PartialEq, Eq, Structural)]
pub struct CONSOLE_SCREEN_BUFFER_INFO {
    pub dwSize: COORD,
    pub dwCursorPosition: COORD,
    pub wAttributes: u16,
    pub srWindow: SMALL_RECT,
    pub dwMaximumWindowSize: COORD,
}

/// The value of a run of decimal digits.
pub open spec fn digits_value(cs: Seq<char>) -> int
    decreases cs.len(),
{
    if cs.len() == 0 {
        0
    } else {
        digits_value(cs.drop_last()) * 10 + (cs.last() as int - '0' as int)
    }
}

/// Whether every character is a decimal digit.
pub open spec fn all_digits(cs: Seq<char>) -> bool {
    forall|i: int| 0 <= i < cs.len() ==> '0' <= #[trigger] cs[i] <= '9'
}

/// A 16-bit unsigned number written in decimal: an optional `+`, then one
/// or more digits of value at most 65535; `None` for anything else.
pub open spec fn parsed_u16(cs: Seq<char>) -> Option<u16> {
    let d = if cs.len() > 0 && cs[0] == '+' { cs.drop_first() } else { cs };
    if d.len() > 0 && all_digits(d) && digits_value(d) <= 0xFFFF {
        Some(digits_value(d) as u16)
    } else {
        None
    }
}

proof fn lemma_digits_value_nonneg(cs: Seq<char>)
    requires
        forall|i: int| 0 <= i < cs.len() ==> '0' <= #[trigger] cs[i] <= '9',
    ensures
        digits_value(cs) >= 0,
        cs.len() > 0 ==> digits_value(cs) >= digits_value(cs.drop_last()),
    decreases cs.len(),
{
    if cs.len() > 0 {
        lemma_digits_value_nonneg(cs.drop_last());
    }
}

/// Parse a 16-bit unsigned decimal number (see [`parsed_u16`]).
pub fn parse_u16(s: &str) -> (r: Option<u16>)
    ensures
        r == parsed_u16(s@),
{
    let cs = crate::text::chars_of(s);
    let start: usize = if cs.len() > 0 && cs[0] == '+' { 1 } else { 0 };
    let ghost d = if s@.len() > 0 && s@[0] == '+' { s@.drop_first() } else { s@ };
    proof {
        assert(d =~= cs@.skip(start as int));
        assert(parsed_u16(s@) == (if d.len() > 0 && all_digits(d) && digits_value(d) <= 0xFFFF {
            Some(digits_value(d) as u16)
        } else {
            None
        }));
    }
    if start >= cs.len() {
        return None;
    }
    let mut value: u32 = 0;
    let mut i: usize = start;
    while i < cs.len()
        invariant
            start <= i <= cs@.len(),
            cs@ == s@,
            d == cs@.skip(start as int),
            d.len() > 0,
            parsed_u16(s@) == (if all_digits(d) && digits_value(d) <= 0xFFFF { Some(digits_value(d) as u16) } else { None }),
            forall|j: int| start <= j < i ==> '0' <= #[trigger] cs@[j] <= '9',
            value == digits_value(cs@.subrange(start as int, i as int)),
            value <= 0xFFFF,
        decreases cs@.len() - i,
    {
        let c = cs[i];
        if c < '0' || c > '9' {
            proof {
                assert(d[i - start] == c);
                assert(!all_digits(d));
                assert(parsed_u16(s@) is None);
            }
            return None;
        }
        let digit = (c as u32) - ('0' as u32);
        let next = value * 10 + digit;
        proof {
            assert(cs@.subrange(start as int, i + 1).drop_last() =~= cs@.subrange(start as int, i as int));
        }
        if next > 0xFFFF {
            proof {
                assert forall|j: int| 0 <= j < (i + 1 - start) implies '0' <= #[trigger] cs@.subrange(start as int, i + 1)[j] <= '9' by {
                    assert(cs@.subrange(start as int, i + 1)[j] == cs@[start + j]);
                }
                let rest = cs@.subrange(i + 1, cs@.len() as int);
                lemma_digits_prefix_bound(d, i + 1 - start);
                let sub = cs@.subrange(start as int, i + 1);
                assert(sub.last() == c);
                assert(digits_value(sub) == next);
                if all_digits(d) {
                    assert(d.take(i + 1 - start) =~= sub);
                    assert(digits_value(d) > 0xFFFF);
                }
                assert(parsed_u16(s@) is None);
            }
            return None;
        }
        value = next;
        i += 1;
    }
    proof {
        assert(cs@.subrange(start as int, i as int) =~= d);
        assert forall|j: int| 0 <= j < d.len() implies '0' <= #[trigger] d[j] <= '9' by {
            assert(d[j] == cs@[start + j]);
        }
        assert(all_digits(d));
    }
    Some(value as u16)
}

/// A prefix of a run of digits is worth no more than the whole run.
proof fn lemma_digits_prefix_bound(d: Seq<char>, n: int)
    requires
        0 <= n <= d.len(),
    ensures
        (forall|j: int| 0 <= j < d.len() ==> '0' <= #[trigger] d[j] <= '9') ==> digits_value(d.take(n)) <= digits_value(d),
    decreases d.len() - n,
{
    if forall|j: int| 0 <= j < d.len() ==> '0' <= #[trigger] d[j] <= '9' {
        if n < d.len() {
            lemma_digits_prefix_bound(d, n + 1);
            assert(d.take(n + 1).drop_last() =~= d.take(n));
            assert forall|j: int| 0 <= j < n + 1 implies '0' <= #[trigger] d.take(n + 1)[j] <= '9' by {
                assert(d.take(n + 1)[j] == d[j]);
            }
            lemma_digits_value_nonneg(d.take(n + 1));
        } else {
            assert(d.take(n) =~= d);
        }
    }
}

impl Size {
    /// The size given by the COLUMNS and LINES values, when both are
    /// 16-bit decimal numbers (see [`parsed_u16`]).
    pub fn from_vars(cols: &str, rows: &str) -> (r: Option<Size>)
        ensures
            r == (match (parsed_u16(cols@), parsed_u16(rows@)) {
                (Some(c), Some(l)) => Some(Size { cols: c, rows: l }),
                _ => None,
            }),
    {
        let c = parse_u16(cols);
        let l = parse_u16(rows);
        match (c, l) {
            (Some(c), Some(l)) => Some(Size { cols: c, rows: l }),
            _ => None,
        }
    }

    pub fn new(cols: u16, rows: u16) -> (s: Self)
        ensures
            s == (Size { cols, rows }),
    {
        Size { cols, rows }
    }

    /// The size used when detection fails: 80 columns, 24 rows.
    pub fn default_size() -> (s: Self)
        ensures
            s == (Size { cols: 80, rows: 24 }),
    {
        Size { cols: 80, rows: 24 }
    }

    /// The size of the visible console window: the window rectangle's
    /// width and height (its corners are inclusive), as 16-bit counts.
    pub fn from_console_info(info: &CONSOLE_SCREEN_BUFFER_INFO) -> (s: Self)
        requires
            -0x8000 <= info.srWindow.Right - info.srWindow.Left,
            info.srWindow.Right - info.srWindow.Left + 1 <= 0x7FFF,
            -0x8000 <= info.srWindow.Bottom - info.srWindow.Top,
            info.srWindow.Bottom - info.srWindow.Top + 1 <= 0x7FFF,
        ensures
            s.cols == (info.srWindow.Right - info.srWindow.Left + 1) as i16 as u16,
            s.rows == (info.srWindow.Bottom - info.srWindow.Top + 1) as i16 as u16,
    {
        let w = info.srWindow;
        Size { cols: (w.Right - w.Left + 1) as u16, rows: (w.Bottom - w.Top + 1) as u16 }
    }
}

/// An in-memory terminal: what was written, and its size.
pub struct TestBackend {
    pub buffer: Vec<u8>,
    pub size: Size,
}

impl TestBackend {
    pub fn new(size: Size) -> (r: Self)
        ensures
            r.buffer@.len() == 0,
            r.size == size,
    {
        TestBackend { buffer: Vec::new(), size }
    }

    /// Append bytes to the buffer; all of them are taken.
    pub fn write(&mut self, buf: &[u8]) -> (n: usize)
        ensures
            n == buf@.len(),
            final(self).buffer@ == old(self).buffer@ + buf@,
            final(self).size == old(self).size,
    {
        for i in 0..buf.len()
            invariant
                self.buffer@ == old(self).buffer@ + buf@.take(i as int),
                self.size == old(self).size,
        {
            self.buffer.push(buf[i]);
            proof {
                assert(self.buffer@ =~= old(self).buffer@ + buf@.take(i + 1));
            }
        }
        proof {
            assert(buf@.take(buf@.len() as int) =~= buf@);
        }
        buf.len()
    }
}

/// A terminal mode that is switched with escape sequences.
#[derive(Clone, Copy, Debug, PartialEq, Eq, Structural)]
pub enum TermMode {
    /// The alternate screen buffer.
    AlternateScreen,
    /// The cursor hidden.
    HiddenCursor,
    /// Mouse tracking: presses, drags, SGR coordinates.
    Mouse,
    /// Bracketed paste.
    BracketedPaste,
}

/// `ESC [ ?` followed by `body`.
pub open spec fn private_seq(body: Seq<u8>) -> Seq<u8> {
    seq![0x1bu8, 0x5bu8, 0x3fu8] + body
}

/// The bytes that switch a mode on.
pub open spec fn on_bytes(m: TermMode) -> Seq<u8> {
    match m {
        TermMode::AlternateScreen => private_seq(seq![0x31u8, 0x30, 0x34, 0x39, 0x68]),
        TermMode::HiddenCursor => private_seq(seq![0x32u8, 0x35, 0x6c]),
        TermMode::Mouse => private_seq(seq![0x31u8, 0x30, 0x30, 0x30, 0x68]) + private_seq(seq![0x31u8, 0x30, 0x30, 0x32, 0x68])
            + private_seq(seq![0x31u8, 0x30, 0x30, 0x36, 0x68]),
        TermMode::BracketedPaste => private_seq(seq![0x32u8, 0x30, 0x30, 0x34, 0x68]),
    }
}

/// The bytes that switch a mode off (mouse modes in reverse order).
pub open spec fn off_bytes(m: TermMode) -> Seq<u8> {
    match m {
        TermMode::AlternateScreen => private_seq(seq![0x31u8, 0x30, 0x34, 0x39, 0x6c]),
        TermMode::HiddenCursor => private_seq(seq![0x32u8, 0x35, 0x68]),
        TermMode::Mouse => private_seq(seq![0x31u8, 0x30, 0x30, 0x36, 0x6c]) + private_seq(seq![0x31u8, 0x30, 0x30, 0x32, 0x6c])
            + private_seq(seq![0x31u8, 0x30, 0x30, 0x30, 0x6c]),
        TermMode::BracketedPaste => private_seq(seq![0x32u8, 0x30, 0x30, 0x34, 0x6c]),
    }
}

/// Which terminal modes are on.
pub struct TerminalModes {
    pub alternate_screen: bool,
    pub cursor_hidden: bool,
    pub mouse: bool,
    pub bracketed_paste: bool,
}

/// Whether mode `m` is on.
pub open spec fn mode_on(t: TerminalModes, m: TermMode) -> bool {
    match m {
        TermMode::AlternateScreen => t.alternate_screen,
        TermMode::HiddenCursor => t.cursor_hidden,
        TermMode::Mouse => t.mouse,
        TermMode::BracketedPaste => t.bracketed_paste,
    }
}

/// The bytes that bring mode `m` to `on`: nothing when it already is.
pub open spec fn switch_bytes(t: TerminalModes, m: TermMode, on: bool) -> Seq<u8> {
    if mode_on(t, m) == on {
        Seq::empty()
    } else if on {
        on_bytes(m)
    } else {
        off_bytes(m)
    }
}

fn push_all(v: &mut Vec<u8>, s: &[u8])
    ensures
        final(v)@ == old(v)@ + s@,
{
    for i in 0..s.len()
        invariant
            v@ == old(v)@ + s@.take(i as int),
    {
        v.push(s[i]);
        proof {
            assert(v@ =~= old(v)@ + s@.take(i + 1));
        }
    }
    proof {
        assert(s@.take(s@.len() as int) =~= s@);
    }
}

fn push_private(v: &mut Vec<u8>, body: &[u8])
    ensures
        final(v)@ == old(v)@ + private_seq(body@),
{
    v.push(0x1b);
    v.push(0x5b);
    v.push(0x3f);
    push_all(v, body);
    proof {
        assert(final(v)@ =~= old(v)@ + private_seq(body@));
    }
}

impl TerminalModes {
    /// All modes off.
    pub fn new() -> (r: Self)
        ensures
            !r.alternate_screen && !r.cursor_hidden && !r.mouse && !r.bracketed_paste,
    {
        TerminalModes { alternate_screen: false, cursor_hidden: false, mouse: false, bracketed_paste: false }
    }

    /// Whether mode `m` is on.
    pub fn is_on(&self, m: TermMode) -> (r: bool)
        ensures
            r == mode_on(*self, m),
    {
        match m {
            TermMode::AlternateScreen => self.alternate_screen,
            TermMode::HiddenCursor => self.cursor_hidden,
            TermMode::Mouse => self.mouse,
            TermMode::BracketedPaste => self.bracketed_paste,
        }
    }

    /// Append the bytes that bring mode `m` to `on` (nothing when it already is).
    pub fn push_switch(&self, out: &mut Vec<u8>, m: TermMode, on: bool)
        ensures
            final(out)@ == old(out)@ + switch_bytes(*self, m, on),
    {
        if self.is_on(m) == on {
            proof {
                assert(final(out)@ =~= old(out)@ + switch_bytes(*self, m, on));
            }
            return;
        }
        let flag: u8 = if on { 0x68 } else { 0x6c };
        match m {
            TermMode::AlternateScreen => push_private(out, &[0x31, 0x30, 0x34, 0x39, flag]),
            TermMode::HiddenCursor => push_private(out, &[0x32, 0x35, if on { 0x6c } else { 0x68 }]),
            TermMode::Mouse => {
                if on {
                    push_private(out, &[0x31, 0x30, 0x30, 0x30, flag]);
                    push_private(out, &[0x31, 0x30, 0x30, 0x32, flag]);
                    push_private(out, &[0x31, 0x30, 0x30, 0x36, flag]);
                } else {
                    push_private(out, &[0x31, 0x30, 0x30, 0x36, flag]);
                    push_private(out, &[0x31, 0x30, 0x30, 0x32, flag]);
                    push_private(out, &[0x31, 0x30, 0x30, 0x30, flag]);
                }
            },
            TermMode::BracketedPaste => push_private(out, &[0x32, 0x30, 0x30, 0x34, flag]),
        }
        proof {
            assert(final(out)@ =~= old(out)@ + switch_bytes(*self, m, on));
        }
    }

    /// Record that mode `m` is now `on`.
    pub fn set(&mut self, m: TermMode, on: bool)
        ensures
            mode_on(*final(self), m) == on,
            forall|o: TermMode| o != m ==> mode_on(*final(self), o) == mode_on(*old(self), o),
    {
        match m {
            TermMode::AlternateScreen => self.alternate_screen = on,
            TermMode::HiddenCursor => self.cursor_hidden = on,
            TermMode::Mouse => self.mouse = on,
            TermMode::BracketedPaste => self.bracketed_paste = on,
        }
    }
}

/// Once a mode is recorded as switched, switching it again sends nothing.
pub proof fn lemma_switch_idempotent(t: TerminalModes, t2: TerminalModes, m: TermMode, on: bool)
    requires
        mode_on(t2, m) == on,
    ensures
        switch_bytes(t2, m, on) == Seq::<u8>::empty(),
{
}

/// Switching a mode on from off sends its on sequence, and back off its off sequence.
pub proof fn lemma_switch_on_off(t: TerminalModes, t2: TerminalModes, m: TermMode)
    requires
        !mode_on(t, m),
        mode_on(t2, m),
    ensures
        switch_bytes(t, m, true) == on_bytes(m),
        switch_bytes(t2, m, false) == off_bytes(m),
{
}

/// The cursor-position sequence `ESC [ row ; col H` (1-based).
pub open spec fn cursor_pos_bytes(row: u16, col: u16) -> Seq<u8> {
    vstd::utf8::encode_utf8(seq!['\x1b', '['] + decimal(row as nat) + seq![';'] + decimal(col as nat) + seq!['H'])
}

/// The cursor-position sequence for `(row, col)`.
pub fn cursor_pos(row: u16, col: u16) -> (r: Vec<u8>)
    ensures
        r@ == cursor_pos_bytes(row, col),
{
    let mut s = String::new();
    crate::text::string_push(&mut s, '\x1b');
    crate::text::string_push(&mut s, '[');
    crate::text::push_decimal(&mut s, row as u64);
    crate::text::string_push(&mut s, ';');
    crate::text::push_decimal(&mut s, col as u64);
    crate::text::string_push(&mut s, 'H');
    proof {
        assert(s@ =~= seq!['\x1b', '['] + decimal(row as nat) + seq![';'] + decimal(col as nat) + seq!['H']);
    }
    let b = s.as_str().as_bytes();
    let mut r: Vec<u8> = Vec::new();
    push_all(&mut r, b);
    proof {
        assert(r@ =~= b@);
    }
    r
}

} // verus!
