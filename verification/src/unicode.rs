//! Display widths of characters and strings, as computed by the
//! `unicode-width` crate.

use vstd::prelude::*;

verus! {

/// The display width that `unicode_width::UnicodeWidthChar::width` gives a
/// character (`None` for control characters).
pub uninterp spec fn char_width(c: char) -> Option<usize>;

/// The display width that `unicode_width::UnicodeWidthStr::width` gives a string.
pub uninterp spec fn str_width(s: Seq<char>) -> usize;

/// Width of a character (`unicode_width::UnicodeWidthChar::width`).
///
/// Trusted: the result is `char_width(c)`; as the crate's source shows, it is
/// `None` below U+0020 and in U+007F..U+009F, `Some(1)` for printable ASCII,
/// and `Some(w)` with `w <= 3` from U+00A0 on.
#[verifier::external_body]
pub(crate) fn char_display_width(c: char) -> (r: Option<usize>)
    ensures
        r == char_width(c),
        (c as u32) < 0x20 ==> r.is_none(),
        0x20 <= (c as u32) < 0x7F ==> r == Some(1usize),
        0x7F <= (c as u32) < 0xA0 ==> r.is_none(),
        0xA0 <= (c as u32) ==> r.is_some() && r.unwrap() <= 3,
{
    unicode_width::UnicodeWidthChar::width(c)
}

/// Width of a string (`unicode_width::UnicodeWidthStr::width`).
///
/// Trusted: the result is `str_width(s@)`; nothing more is stated, since the
/// crate applies ligature and emoji-sequence rules beyond per-character widths.
#[verifier::external_body]
pub(crate) fn str_display_width(s: &str) -> (r: usize)
    ensures
        r == str_width(s@),
{
    unicode_width::UnicodeWidthStr::width(s)
}

/// The width a renderer gives a character: its display width, or 1 for
/// control characters.
pub open spec fn render_width(c: char) -> nat {
    match char_width(c) {
        Some(w) => w as nat,
        None => 1,
    }
}

/// `char_width(c).unwrap_or(1)`, bounded by 3.
pub fn width_or_one(c: char) -> (w: usize)
    ensures
        w == render_width(c),
        w <= 3,
        0x20 <= (c as u32) < 0x7F ==> w == 1,
{
    match char_display_width(c) {
        Some(w) => w,
        None => 1,
    }
}

} // verus!
