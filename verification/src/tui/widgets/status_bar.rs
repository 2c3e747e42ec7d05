//! The status bar: mode, model, token usage, message and file counts,
//! focus indicator and session name on one line.

use vstd::prelude::*;
use vstd::utf8::encode_utf8;
use crate::text::{chars_of, decimal, push_decimal, push_str, string_push};
use crate::tui::cell::{plain_style, Cell, Color, Style};
use crate::tui::layout::Rect;
use crate::tui::screen::{
    fill_box, lemma_fill_box, lemma_same_rows_refl, lemma_same_rows_step, same_outside_rows, write_run, Screen, ScreenView,
};
use crate::tui::widget::styles;
use crate::tui::widgets::input_bar::{mode_color_for, mode_color_of};

verus! {

/// The status bar at the top of the screen.
pub struct StatusBarWidget {
    pub mode_label: String,
    pub mode_color: Color,
    pub model_name: String,
    /// Tokens used and the context size.
    pub token_count: Option<(u32, u32)>,
    pub message_count: usize,
    pub pinned_file_count: usize,
    pub session_name: String,
    pub is_streaming: bool,
    /// Label of the focused widget ("input", "chat", "sidebar", "files").
    pub focus_label: String,
}

/// The color of the token count: red above 90% of the context, yellow above
/// 70%, green otherwise; gray when the context size is unknown or zero.
pub open spec fn token_color_of(tokens: Option<(u32, u32)>) -> Color {
    match tokens {
        Some((used, total)) => if total > 0 {
            if 10 * used > 9 * total {
                Color::Ansi(1)
            } else if 10 * used > 7 * total {
                Color::Ansi(3)
            } else {
                Color::Ansi(2)
            }
        } else {
            Color::Ansi(8)
        },
        None => Color::Ansi(8),
    }
}

fn owned(s: &str) -> (r: String)
    ensures
        r@ == s@,
{
    s.to_owned()
}

impl StatusBarWidget {
    /// A status bar for the given mode and model, session "unnamed", focus "input".
    pub fn new(mode_label: &str, model_name: &str) -> (r: Self)
        ensures
            r.mode_label@ == mode_label@,
            r.mode_color == mode_color_of(mode_label@),
            r.model_name@ == model_name@,
            r.token_count.is_none(),
            r.message_count == 0,
            r.pinned_file_count == 0,
            r.session_name@ == seq!['u', 'n', 'n', 'a', 'm', 'e', 'd'],
            !r.is_streaming,
            r.focus_label@ == seq!['i', 'n', 'p', 'u', 't'],
    {
        let label = chars_of(mode_label);
        let session = "unnamed";
        let focus = "input";
        proof {
            reveal_strlit("unnamed");
            reveal_strlit("input");
        }
        StatusBarWidget {
            mode_label: owned(mode_label),
            mode_color: mode_color_for(&label),
            model_name: owned(model_name),
            token_count: None,
            message_count: 0,
            pinned_file_count: 0,
            session_name: owned(session),
            is_streaming: false,
            focus_label: owned(focus),
        }
    }

    /// Replace the mode label (and its color) and the model name.
    pub fn update_labels(&mut self, mode_label: &str, model_name: &str)
        ensures
            final(self).mode_label@ == mode_label@,
            final(self).mode_color == mode_color_of(mode_label@),
            final(self).model_name@ == model_name@,
            final(self).token_count == old(self).token_count,
            final(self).message_count == old(self).message_count,
            final(self).pinned_file_count == old(self).pinned_file_count,
            final(self).session_name == old(self).session_name,
            final(self).is_streaming == old(self).is_streaming,
            final(self).focus_label == old(self).focus_label,
    {
        let label = chars_of(mode_label);
        self.mode_label = owned(mode_label);
        self.mode_color = mode_color_for(&label);
        self.model_name = owned(model_name);
    }

    /// Set the session name.
    pub fn set_session_name(&mut self, name: &str)
        ensures
            final(self).session_name@ == name@,
            final(self).mode_label == old(self).mode_label,
            final(self).mode_color == old(self).mode_color,
            final(self).model_name == old(self).model_name,
            final(self).token_count == old(self).token_count,
            final(self).message_count == old(self).message_count,
            final(self).pinned_file_count == old(self).pinned_file_count,
            final(self).is_streaming == old(self).is_streaming,
            final(self).focus_label == old(self).focus_label,
    {
        self.session_name = owned(name);
    }

    /// Set the message count.
    pub fn set_message_count(&mut self, count: usize)
        ensures
            *final(self) == (StatusBarWidget { message_count: count, ..*old(self) }),
    {
        self.message_count = count;
    }

    /// Set the token count: the used count and the context size, each kept
    /// as 32 bits; no count when the context size is unknown.
    pub fn set_token_count(&mut self, used: u64, total: Option<u64>)
        ensures
            *final(self) == (StatusBarWidget {
                token_count: match total {
                    Some(t) => Some((used as u32, t as u32)),
                    None => None,
                },
                ..*old(self)
            }),
    {
        self.token_count = match total {
            Some(t) => Some((used as u32, t as u32)),
            None => None,
        };
    }

    /// Set whether a response is streaming.
    pub fn set_streaming(&mut self, streaming: bool)
        ensures
            *final(self) == (StatusBarWidget { is_streaming: streaming, ..*old(self) }),
    {
        self.is_streaming = streaming;
    }

    /// Set the focus indicator label.
    pub fn set_focus_label(&mut self, label: &str)
        ensures
            final(self).focus_label@ == label@,
            final(self).mode_label == old(self).mode_label,
            final(self).mode_color == old(self).mode_color,
            final(self).model_name == old(self).model_name,
            final(self).token_count == old(self).token_count,
            final(self).message_count == old(self).message_count,
            final(self).pinned_file_count == old(self).pinned_file_count,
            final(self).session_name == old(self).session_name,
            final(self).is_streaming == old(self).is_streaming,
    {
        self.focus_label = owned(label);
    }

    /// The color in which the token count is drawn (see [`token_color_of`]).
    pub fn token_color(&self) -> (c: Color)
        ensures
            c == token_color_of(self.token_count),
    {
        match self.token_count {
            Some((used, total)) => {
                if total > 0 {
                    let u = used as u64;
                    let t = total as u64;
                    if 10 * u > 9 * t {
                        Color::Ansi(1)
                    } else if 10 * u > 7 * t {
                        Color::Ansi(3)
                    } else {
                        Color::Ansi(2)
                    }
                } else {
                    Color::Ansi(8)
                }
            },
            None => Color::Ansi(8),
        }
    }

    /// Draw the status bar in `area` (see [`status_drawn`]), with
    /// `token_text` as the token count (its formatting uses floating point
    /// and is done by the caller).
    pub fn render_with_tokens(&self, area: Rect, screen: &mut Screen, token_text: &str)
        requires
            old(screen).wf(),
            area.x + area.width <= u16::MAX,
            area.y + area.height <= u16::MAX,
        ensures
            final(screen).wf(),
            final(screen)@.width == old(screen)@.width,
            final(screen)@.height == old(screen)@.height,
            same_outside_rows(old(screen)@, final(screen)@, area.y as int, area.y + area.height),
            area.width == 0 || area.height == 0 ==> final(screen)@ == old(screen)@,
            area.width > 0 && area.height > 0 ==> final(screen)@ == status_drawn(
                fill_box(old(screen)@, area.y as int, area.y + area.height, area.x as int, area.x + area.width, status_fill()),
                *self,
                area,
                token_text@,
            ),
    {
        proof {
            lemma_same_rows_refl(screen@, area.y as int, area.y + area.height);
        }
        if area.is_empty() || area.height < 1 {
            return;
        }
        let bg = styles::status_bar_bg();
        screen.fill_rect(area, Cell { char: ' ', fg: styles::status_bar_fg(), bg, style: Style::new(), wide: false });
        let ghost f = screen@;
        proof {
            lemma_fill_box(old(screen)@, f, area.y as int, area.y + area.height, area.x as int, area.x + area.width, status_fill());
        }
        let row = area.y;
        let end: u64 = area.x as u64 + area.width as u64;

        let mut mode_text = String::new();
        string_push(&mut mode_text, ' ');
        push_str(&mut mode_text, self.mode_label.as_str());
        string_push(&mut mode_text, ' ');
        proof {
            assert(mode_text@ =~= seq![' '] + self.mode_label@ + seq![' ']);
        }
        let ghost g1 = screen@;
        screen.write_str(row, area.x, mode_text.as_str(), self.mode_color, bg, Style::bold());
        proof {
            lemma_same_rows_step(old(screen)@, g1, screen@, row as int, row + 1, area.y as int, area.y + area.height);
        }
        let mut col: u64 = area.x as u64 + byte_len(&mode_text);

        let ghost g2 = screen@;
        put(screen, row, col, " │ ", Color::Ansi(240), bg, Style::new());
        proof {
            lemma_same_rows_step(old(screen)@, g2, screen@, row as int, row + 1, area.y as int, area.y + area.height);
        }
        col = col + 3;
        let ghost g3 = screen@;
        put(screen, row, col, self.model_name.as_str(), Color::Ansi(7), bg, Style::new());
        proof {
            lemma_same_rows_step(old(screen)@, g3, screen@, row as int, row + 1, area.y as int, area.y + area.height);
        }
        col = col + byte_len(&self.model_name);
        let ghost g4 = screen@;
        put(screen, row, col, " │ ", Color::Ansi(240), bg, Style::new());
        proof {
            lemma_same_rows_step(old(screen)@, g4, screen@, row as int, row + 1, area.y as int, area.y + area.height);
        }
        col = col + 3;
        let ghost g5 = screen@;
        put(screen, row, col, token_text, self.token_color(), bg, Style::new());
        proof {
            lemma_same_rows_step(old(screen)@, g5, screen@, row as int, row + 1, area.y as int, area.y + area.height);
        }
        col = col + byte_len_str(token_text);
        let ghost g6 = screen@;
        put(screen, row, col, " │ ", Color::Ansi(240), bg, Style::new());
        proof {
            lemma_same_rows_step(old(screen)@, g6, screen@, row as int, row + 1, area.y as int, area.y + area.height);
        }
        col = col + 3;

        let mut msg_text = String::new();
        push_decimal(&mut msg_text, self.message_count as u64);
        push_str(&mut msg_text, " msgs");
        proof {
            assert(msg_text@ =~= decimal(self.message_count as nat) + " msgs"@);
        }
        let ghost g7 = screen@;
        put(screen, row, col, msg_text.as_str(), Color::Ansi(7), bg, Style::dim());
        proof {
            lemma_same_rows_step(old(screen)@, g7, screen@, row as int, row + 1, area.y as int, area.y + area.height);
        }
        col = col + byte_len(&msg_text);

        if self.pinned_file_count > 0 {
            let ghost g8 = screen@;
            put(screen, row, col, " │ ", Color::Ansi(240), bg, Style::new());
            proof {
                lemma_same_rows_step(old(screen)@, g8, screen@, row as int, row + 1, area.y as int, area.y + area.height);
            }
            col = col + 3;
            let mut file_text = String::new();
            push_decimal(&mut file_text, self.pinned_file_count as u64);
            push_str(&mut file_text, " files");
            proof {
                assert(file_text@ =~= decimal(self.pinned_file_count as nat) + " files"@);
            }
            let ghost g9 = screen@;
            put(screen, row, col, file_text.as_str(), Color::Ansi(7), bg, Style::dim());
            proof {
                lemma_same_rows_step(old(screen)@, g9, screen@, row as int, row + 1, area.y as int, area.y + area.height);
            }
            col = col + byte_len(&file_text);
        }

        let ghost left = (screen@, col as int);
        proof {
            assert(left == status_left(f, *self, row as int, area.x as int, token_text@));
        }
        let mut focus_text = String::new();
        push_str(&mut focus_text, " ▸ ");
        push_str(&mut focus_text, self.focus_label.as_str());
        string_push(&mut focus_text, ' ');
        let mut session_text = String::new();
        string_push(&mut session_text, ' ');
        push_str(&mut session_text, self.session_name.as_str());
        string_push(&mut session_text, ' ');
        proof {
            assert(focus_text@ =~= " ▸ "@ + self.focus_label@ + seq![' ']);
            assert(session_text@ =~= seq![' '] + self.session_name@ + seq![' ']);
        }
        let slen = byte_len(&session_text);
        let session_start: u64 = area.x as u64 + if (area.width as u64) > slen { area.width as u64 - slen } else { 0 };
        let flen = byte_len(&focus_text);
        let focus_start: u64 = if session_start > flen { session_start - flen } else { 0 };
        if focus_start > col {
            let ghost g10 = screen@;
            put(screen, row, focus_start, focus_text.as_str(), Color::Ansi(178), bg, Style::bold());
            proof {
                lemma_same_rows_step(old(screen)@, g10, screen@, row as int, row + 1, area.y as int, area.y + area.height);
            }
        }
        if session_start > col {
            let ghost g11 = screen@;
            put(screen, row, session_start, session_text.as_str(), Color::Ansi(240), bg, Style::new());
            proof {
                lemma_same_rows_step(old(screen)@, g11, screen@, row as int, row + 1, area.y as int, area.y + area.height);
            }
        }
        if self.is_streaming && col + 4 < end {
            let ghost g12 = screen@;
            put(screen, row, col, " ⋯", Color::Ansi(208), bg, Style::new());
            proof {
                lemma_same_rows_step(old(screen)@, g12, screen@, row as int, row + 1, area.y as int, area.y + area.height);
            }
        }
        proof {
            assert(screen@ == status_drawn(f, *self, area, token_text@));
        }
    }
}

/// The length of a text in bytes, counted up to `u32::MAX`.
pub open spec fn sat_bytes(t: Seq<char>) -> int {
    let n = encode_utf8(t).len();
    if n > 0xFFFF_FFFF { 0xFFFF_FFFF } else { n as int }
}

/// The screen after writing `text` at `(row, col)` when the column lies on
/// the 16-bit grid; unchanged otherwise.
pub open spec fn put_text(v: ScreenView, row: int, col: int, text: Seq<char>, fg: Color, bg: Color, style: Style) -> ScreenView {
    if col <= 0xFFFF {
        write_run(v, row, col, col, text, fg, bg, style)
    } else {
        v
    }
}

/// The separator between status bar fields.
pub open spec fn sep_text() -> Seq<char> {
    " │ "@
}

/// The cell the status bar is filled with.
pub open spec fn status_fill() -> Cell {
    Cell { char: ' ', fg: Color::Ansi(7), bg: Color::Ansi(236), style: plain_style(), wide: false }
}

/// The left part of the status bar drawn on `row` from column `x`: the mode
/// (bold, in its color), the model, the token text (in its color), the
/// message count (dim) and, when files are pinned, their count (dim), the
/// fields separated by gray bars. Also gives the column after the last field.
pub open spec fn status_left(v: ScreenView, w: StatusBarWidget, row: int, x: int, token_text: Seq<char>) -> (ScreenView, int) {
    let bg = Color::Ansi(236);
    let mode_text = seq![' '] + w.mode_label@ + seq![' '];
    let v1 = write_run(v, row, x, x, mode_text, w.mode_color, bg, Style { bold: true, ..plain_style() });
    let c1 = x + sat_bytes(mode_text);
    let v2 = put_text(v1, row, c1, sep_text(), Color::Ansi(240), bg, plain_style());
    let v3 = put_text(v2, row, c1 + 3, w.model_name@, Color::Ansi(7), bg, plain_style());
    let c3 = c1 + 3 + sat_bytes(w.model_name@);
    let v4 = put_text(v3, row, c3, sep_text(), Color::Ansi(240), bg, plain_style());
    let v5 = put_text(v4, row, c3 + 3, token_text, token_color_of(w.token_count), bg, plain_style());
    let c5 = c3 + 3 + sat_bytes(token_text);
    let v6 = put_text(v5, row, c5, sep_text(), Color::Ansi(240), bg, plain_style());
    let msgs = decimal(w.message_count as nat) + " msgs"@;
    let v7 = put_text(v6, row, c5 + 3, msgs, Color::Ansi(7), bg, Style { dim: true, ..plain_style() });
    let c7 = c5 + 3 + sat_bytes(msgs);
    if w.pinned_file_count > 0 {
        let v8 = put_text(v7, row, c7, sep_text(), Color::Ansi(240), bg, plain_style());
        let files = decimal(w.pinned_file_count as nat) + " files"@;
        (put_text(v8, row, c7 + 3, files, Color::Ansi(7), bg, Style { dim: true, ..plain_style() }), c7 + 3 + sat_bytes(files))
    } else {
        (v7, c7)
    }
}

/// The status bar drawn on the top row of `area` over a screen already
/// filled with [`status_fill`]: the left part (see [`status_left`]), then,
/// right-aligned, the focus (bold, yellow) and the session name (gray), each
/// only where it starts past the left part, and a streaming mark after the
/// left part when a response streams and it fits.
pub open spec fn status_drawn(v: ScreenView, w: StatusBarWidget, area: Rect, token_text: Seq<char>) -> ScreenView {
    let bg = Color::Ansi(236);
    let row = area.y as int;
    let (v9, c9) = status_left(v, w, row, area.x as int, token_text);
    let focus = " ▸ "@ + w.focus_label@ + seq![' '];
    let session = seq![' '] + w.session_name@ + seq![' '];
    let slen = sat_bytes(session);
    let session_start = area.x + (if area.width > slen { area.width - slen } else { 0 });
    let flen = sat_bytes(focus);
    let focus_start = if session_start > flen { session_start - flen } else { 0 };
    let v10 = if focus_start > c9 { put_text(v9, row, focus_start, focus, Color::Ansi(178), bg, Style { bold: true, ..plain_style() }) } else { v9 };
    let v11 = if session_start > c9 { put_text(v10, row, session_start, session, Color::Ansi(240), bg, plain_style()) } else { v10 };
    if w.is_streaming && c9 + 4 < area.x + area.width {
        put_text(v11, row, c9, " ⋯"@, Color::Ansi(208), bg, plain_style())
    } else {
        v11
    }
}

/// The length of a string in bytes (at most `u32::MAX` is told apart).
fn byte_len(s: &String) -> (n: u64)
    ensures
        n <= 0xFFFF_FFFF,
        n == sat_bytes(s@),
{
    byte_len_str(s.as_str())
}

fn byte_len_str(s: &str) -> (n: u64)
    ensures
        n <= 0xFFFF_FFFF,
        n == sat_bytes(s@),
{
    let n = s.as_bytes().len();
    if n > 0xFFFF_FFFF { 0xFFFF_FFFF } else { n as u64 }
}

/// Write `text` at `(row, col)` when the column is on the 16-bit grid.
fn put(screen: &mut Screen, row: u16, col: u64, text: &str, fg: Color, bg: Color, style: Style)
    requires
        old(screen).wf(),
    ensures
        final(screen).wf(),
        final(screen)@ == put_text(old(screen)@, row as int, col as int, text@, fg, bg, style),
        final(screen)@.width == old(screen)@.width,
        final(screen)@.height == old(screen)@.height,
        same_outside_rows(old(screen)@, final(screen)@, row as int, row + 1),
{
    proof {
        lemma_same_rows_refl(screen@, row as int, row + 1);
    }
    if col <= 0xFFFF {
        screen.write_str(row, col as u16, text, fg, bg, style);
    }
}

/// The token count's color only grows more alarming as more of the context
/// is used: green, then yellow, then red. It is gray exactly when the
/// context size is unknown or zero.
pub proof fn lemma_token_color_monotone(used1: u32, used2: u32, total: u32)
    requires
        used1 <= used2,
    ensures
        token_color_of(Some((used1, total))) == Color::Ansi(1) ==> token_color_of(Some((used2, total))) == Color::Ansi(1),
        token_color_of(Some((used1, total))) == Color::Ansi(3) ==> token_color_of(Some((used2, total))) == Color::Ansi(3)
            || token_color_of(Some((used2, total))) == Color::Ansi(1),
        total > 0 ==> token_color_of(Some((used1, total))) == Color::Ansi(2) || token_color_of(Some((used1, total))) == Color::Ansi(3)
            || token_color_of(Some((used1, total))) == Color::Ansi(1),
        total == 0 ==> token_color_of(Some((used1, total))) == Color::Ansi(8),
        token_color_of(None) == Color::Ansi(8),
        total > 0 && 10 * used1 <= 7 * total ==> token_color_of(Some((used1, total))) == Color::Ansi(2),
        total > 0 && 10 * used1 > 9 * total ==> token_color_of(Some((used1, total))) == Color::Ansi(1),
{
}

} // verus!
