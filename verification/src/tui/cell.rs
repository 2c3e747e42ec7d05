//! Colors, text styles and screen cells, with their ANSI escape sequences.

use vstd::prelude::*;
use crate::text::{decimal, push_decimal, string_push};

verus! {

/// Terminal color representation.
///
/// - `Default`: use the terminal's default foreground/background
/// - `Ansi(n)`: 4-bit (0–15) or 8-bit (16–255) indexed color
/// - `Rgb(r, g, b)`: 24-bit true color
#[derive(Clone, Copy, Debug, PartialEq, Eq, Structural)]
pub enum Color {
    /// Terminal default color (inherits from terminal theme).
    Default,
    /// 4-bit (0–15) or 8-bit (16–255) indexed color.
    Ansi(u8),
    /// 24-bit true color.
    Rgb(u8, u8, u8),
}

/// `ESC [` followed by `body` and `m`: an SGR escape sequence.
pub open spec fn sgr(body: Seq<char>) -> Seq<char> {
    seq!['\x1b', '['] + body + seq!['m']
}

/// The SGR body selecting color `c` in the given layer: `base` is 30 for the
/// foreground and 40 for the background; bright colors use `base + 60`,
/// indexed colors `base + 8;5;n`, true colors `base + 8;2;r;g;b`.
pub open spec fn color_body(c: Color, base: nat) -> Seq<char> {
    match c {
        Color::Default => decimal(base + 9),
        Color::Ansi(n) => if n < 8 {
            decimal((base + n) as nat)
        } else if n < 16 {
            decimal((base + 60 + n - 8) as nat)
        } else {
            decimal(base + 8) + seq![';', '5', ';'] + decimal(n as nat)
        },
        Color::Rgb(r, g, b) => decimal(base + 8) + seq![';', '2', ';'] + decimal(r as nat) + seq![';']
            + decimal(g as nat) + seq![';'] + decimal(b as nat),
    }
}

impl Color {
    /// Standard black, `Ansi(0)`.
    pub fn black() -> (c: Color) ensures c == Color::Ansi(0) { Color::Ansi(0) }
    /// Standard red, `Ansi(1)`.
    pub fn red() -> (c: Color) ensures c == Color::Ansi(1) { Color::Ansi(1) }
    /// Standard green, `Ansi(2)`.
    pub fn green() -> (c: Color) ensures c == Color::Ansi(2) { Color::Ansi(2) }
    /// Standard yellow, `Ansi(3)`.
    pub fn yellow() -> (c: Color) ensures c == Color::Ansi(3) { Color::Ansi(3) }
    /// Standard blue, `Ansi(4)`.
    pub fn blue() -> (c: Color) ensures c == Color::Ansi(4) { Color::Ansi(4) }
    /// Standard magenta, `Ansi(5)`.
    pub fn magenta() -> (c: Color) ensures c == Color::Ansi(5) { Color::Ansi(5) }
    /// Standard cyan, `Ansi(6)`.
    pub fn cyan() -> (c: Color) ensures c == Color::Ansi(6) { Color::Ansi(6) }
    /// Standard white, `Ansi(7)`.
    pub fn white() -> (c: Color) ensures c == Color::Ansi(7) { Color::Ansi(7) }
    /// Gray (bright black), `Ansi(8)`.
    pub fn gray() -> (c: Color) ensures c == Color::Ansi(8) { Color::Ansi(8) }
    /// Bright red, `Ansi(9)`.
    pub fn bright_red() -> (c: Color) ensures c == Color::Ansi(9) { Color::Ansi(9) }
    /// Bright green, `Ansi(10)`.
    pub fn bright_green() -> (c: Color) ensures c == Color::Ansi(10) { Color::Ansi(10) }
    /// Bright yellow, `Ansi(11)`.
    pub fn bright_yellow() -> (c: Color) ensures c == Color::Ansi(11) { Color::Ansi(11) }
    /// Bright blue, `Ansi(12)`.
    pub fn bright_blue() -> (c: Color) ensures c == Color::Ansi(12) { Color::Ansi(12) }
    /// Bright magenta, `Ansi(13)`.
    pub fn bright_magenta() -> (c: Color) ensures c == Color::Ansi(13) { Color::Ansi(13) }
    /// Bright cyan, `Ansi(14)`.
    pub fn bright_cyan() -> (c: Color) ensures c == Color::Ansi(14) { Color::Ansi(14) }
    /// Bright white, `Ansi(15)`.
    pub fn bright_white() -> (c: Color) ensures c == Color::Ansi(15) { Color::Ansi(15) }
    /// Orange, `Ansi(208)`.
    pub fn orange() -> (c: Color) ensures c == Color::Ansi(208) { Color::Ansi(208) }
    /// Dark gray background for tool results, `Ansi(236)`.
    pub fn bg_dim() -> (c: Color) ensures c == Color::Ansi(236) { Color::Ansi(236) }
    /// Slightly lighter gray background for tool headers, `Ansi(237)`.
    pub fn bg_tool() -> (c: Color) ensures c == Color::Ansi(237) { Color::Ansi(237) }
    /// Dark navy background for warnings, `Ansi(17)`.
    pub fn bg_warn() -> (c: Color) ensures c == Color::Ansi(17) { Color::Ansi(17) }

    /// Append the SGR body for this color in the layer starting at `base`.
    fn push_body(&self, s: &mut String, base: u64)
        requires
            base == 30 || base == 40,
        ensures
            final(s)@ == old(s)@ + color_body(*self, base as nat),
    {
        match self {
            Color::Default => {
                push_decimal(s, base + 9);
            },
            Color::Ansi(n) => {
                if *n < 8 {
                    push_decimal(s, base + *n as u64);
                } else if *n < 16 {
                    push_decimal(s, base + 60 + (*n - 8) as u64);
                } else {
                    push_decimal(s, base + 8);
                    string_push(s, ';');
                    string_push(s, '5');
                    string_push(s, ';');
                    push_decimal(s, *n as u64);
                    proof {
                        assert(final(s)@ =~= old(s)@ + color_body(*self, base as nat));
                    }
                }
            },
            Color::Rgb(r, g, b) => {
                push_decimal(s, base + 8);
                string_push(s, ';');
                string_push(s, '2');
                string_push(s, ';');
                push_decimal(s, *r as u64);
                string_push(s, ';');
                push_decimal(s, *g as u64);
                string_push(s, ';');
                push_decimal(s, *b as u64);
                proof {
                    assert(final(s)@ =~= old(s)@ + color_body(*self, base as nat));
                }
            },
        }
    }

    fn escape_in_layer(&self, base: u64) -> (r: String)
        requires
            base == 30 || base == 40,
        ensures
            r@ == sgr(color_body(*self, base as nat)),
    {
        let mut s = String::new();
        string_push(&mut s, '\x1b');
        string_push(&mut s, '[');
        self.push_body(&mut s, base);
        string_push(&mut s, 'm');
        proof {
            assert(s@ =~= sgr(color_body(*self, base as nat)));
        }
        s
    }

    /// The ANSI escape sequence that sets this color as the foreground:
    /// `ESC[39m`, `ESC[30–37m`, `ESC[90–97m`, `ESC[38;5;Nm` or `ESC[38;2;R;G;Bm`.
    pub fn fg_escape(&self) -> (r: String)
        ensures
            r@ == sgr(color_body(*self, 30)),
    {
        self.escape_in_layer(30)
    }

    /// The ANSI escape sequence that sets this color as the background:
    /// `ESC[49m`, `ESC[40–47m`, `ESC[100–107m`, `ESC[48;5;Nm` or `ESC[48;2;R;G;Bm`.
    pub fn bg_escape(&self) -> (r: String)
        ensures
            r@ == sgr(color_body(*self, 40)),
    {
        self.escape_in_layer(40)
    }
}

/// Text style attributes that can be combined.
#[derive(Clone, Copy, Debug, Default, PartialEq, Eq, Structural)]
pub struct Style {
    pub bold: bool,
    pub dim: bool,
    pub italic: bool,
    pub underline: bool,
    pub blink: bool,
}

/// The SGR sequence for one attribute code if it is set, else nothing.
pub open spec fn flag_escape(set: bool, code: char) -> Seq<char> {
    if set { sgr(seq![code]) } else { Seq::empty() }
}

/// The escape sequences of a style: bold (1), dim (2), italic (3),
/// underline (4) and blink (5), each present when its flag is set, in that order.
pub open spec fn style_escape(s: Style) -> Seq<char> {
    flag_escape(s.bold, '1') + flag_escape(s.dim, '2') + flag_escape(s.italic, '3')
        + flag_escape(s.underline, '4') + flag_escape(s.blink, '5')
}

/// A style with no attribute set.
pub open spec fn plain_style() -> Style {
    Style { bold: false, dim: false, italic: false, underline: false, blink: false }
}

fn push_flag(s: &mut String, set: bool, code: char)
    ensures
        final(s)@ == old(s)@ + flag_escape(set, code),
{
    if set {
        string_push(s, '\x1b');
        string_push(s, '[');
        string_push(s, code);
        string_push(s, 'm');
        proof {
            assert(final(s)@ =~= old(s)@ + flag_escape(set, code));
        }
    } else {
        proof {
            assert(final(s)@ =~= old(s)@ + flag_escape(set, code));
        }
    }
}

impl Style {
    /// No attributes.
    pub fn new() -> (s: Self)
        ensures
            s == plain_style(),
    {
        Style { bold: false, dim: false, italic: false, underline: false, blink: false }
    }

    /// Bold only.
    pub fn bold() -> (s: Self)
        ensures
            s == (Style { bold: true, ..plain_style() }),
    {
        Style { bold: true, dim: false, italic: false, underline: false, blink: false }
    }

    /// Dim only.
    pub fn dim() -> (s: Self)
        ensures
            s == (Style { dim: true, ..plain_style() }),
    {
        Style { bold: false, dim: true, italic: false, underline: false, blink: false }
    }

    /// Bold and dim.
    pub fn bold_dim() -> (s: Self)
        ensures
            s == (Style { bold: true, dim: true, ..plain_style() }),
    {
        Style { bold: true, dim: true, italic: false, underline: false, blink: false }
    }

    /// Blink only.
    pub fn blink() -> (s: Self)
        ensures
            s == (Style { blink: true, ..plain_style() }),
    {
        Style { bold: false, dim: false, italic: false, underline: false, blink: true }
    }

    /// The ANSI escape sequences for this style (empty for no attributes).
    pub fn escape(&self) -> (r: String)
        ensures
            r@ == style_escape(*self),
    {
        let mut s = String::new();
        push_flag(&mut s, self.bold, '1');
        push_flag(&mut s, self.dim, '2');
        push_flag(&mut s, self.italic, '3');
        push_flag(&mut s, self.underline, '4');
        push_flag(&mut s, self.blink, '5');
        proof {
            assert(s@ =~= style_escape(*self));
        }
        s
    }

    /// The ANSI reset sequence `ESC[0m`, which clears all styles.
    pub fn reset() -> (r: &'static str)
        ensures
            r@ == sgr(seq!['0']),
    {
        let r = "\x1b[0m";
        proof {
            reveal_strlit("\x1b[0m");
            assert(r@ =~= sgr(seq!['0']));
        }
        r
    }
}

/// A single cell in the screen buffer.
///
/// For wide (CJK/fullwidth) characters that occupy 2 columns, the first
/// column holds the character and `wide` is false; the second column is a
/// continuation cell with `wide = true`, skipped by the renderer.
#[derive(Clone, Copy, Debug, PartialEq, Eq, Structural)]
pub struct Cell {
    pub char: char,
    pub fg: Color,
    pub bg: Color,
    pub style: Style,
    /// Whether this cell is the continuation (second column) of a wide character.
    pub wide: bool,
}

/// The blank cell: a space in default colors, no style.
pub open spec fn blank_cell() -> Cell {
    Cell { char: ' ', fg: Color::Default, bg: Color::Default, style: plain_style(), wide: false }
}

impl Default for Cell {
    fn default() -> (c: Self)
        ensures
            c == blank_cell(),
    {
        Cell { char: ' ', fg: Color::Default, bg: Color::Default, style: Style::new(), wide: false }
    }
}

impl Cell {
    /// A blank cell (space, default colors, no style).
    pub fn blank() -> (c: Self)
        ensures
            c == blank_cell(),
    {
        Cell { char: ' ', fg: Color::Default, bg: Color::Default, style: Style::new(), wide: false }
    }

    /// A cell holding `ch` with default styling.
    pub fn char(ch: char) -> (c: Self)
        ensures
            c == (Cell { char: ch, ..blank_cell() }),
    {
        Cell { char: ch, fg: Color::Default, bg: Color::Default, style: Style::new(), wide: false }
    }

    /// A styled cell.
    pub fn styled(ch: char, fg: Color, bg: Color, style: Style) -> (c: Self)
        ensures
            c == (Cell { char: ch, fg, bg, style, wide: false }),
    {
        Cell { char: ch, fg, bg, style, wide: false }
    }

    /// The continuation cell for a wide character's second column: a space
    /// marked `wide`, skipped during rendering.
    pub fn wide_continuation(fg: Color, bg: Color, style: Style) -> (c: Self)
        ensures
            c == (Cell { char: ' ', fg, bg, style, wide: true }),
    {
        Cell { char: ' ', fg, bg, style, wide: true }
    }
}

} // verus!
