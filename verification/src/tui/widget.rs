//! The widget interface (render into a screen area, handle events), the
//! actions a widget can request, and string truncation helpers.

use vstd::prelude::*;
use vstd::utf8::*;
use crate::text::{char_utf8_len, chars_of, lemma_encode_len_push, prefix_str, utf8_len};
use crate::tui::event::Event;
use crate::tui::layout::Rect;
use crate::tui::screen::Screen;
use crate::unicode::{char_display_width, char_width, str_display_width, str_width};

pub mod styles;

verus! {

/// Actions that a widget can request from the application.
#[derive(Clone, Debug)]
pub enum Action {
    /// Send a message (Enter in the input bar).
    SendMessage(String),
    /// Switch to a different agent mode.
    SwitchMode(String),
    /// Scroll the conversation up.
    ScrollUp,
    /// Scroll the conversation down.
    ScrollDown,
    /// Scroll the conversation up by a page.
    PageUp,
    /// Scroll the conversation down by a page.
    PageDown,
    /// Toggle sidebar visibility.
    ToggleSidebar,
    /// Cycle focus forward.
    CycleFocusForward,
    /// Cycle focus backward.
    CycleFocusBackward,
    /// Quit the application.
    Quit,
    /// Tool confirmation approved ('y').
    ConfirmYes,
    /// Tool confirmation denied ('n').
    ConfirmNo,
    /// All future tool confirmations approved ('a').
    ConfirmAll,
    /// Leave the file browser (Escape at its root).
    ExitStructureMode,
    /// The answer to a question.
    AnswerQuestion(String),
    /// Interrupt the current generation.
    Interrupt,
    /// The event was handled internally.
    NoOp,
}

/// The mathematical form of an [`Action`], with text payloads as character sequences.
pub enum ActionView {
    SendMessage(Seq<char>),
    SwitchMode(Seq<char>),
    ScrollUp,
    ScrollDown,
    PageUp,
    PageDown,
    ToggleSidebar,
    CycleFocusForward,
    CycleFocusBackward,
    Quit,
    ConfirmYes,
    ConfirmNo,
    ConfirmAll,
    ExitStructureMode,
    AnswerQuestion(Seq<char>),
    Interrupt,
    NoOp,
}

impl View for Action {
    type V = ActionView;

    open spec fn view(&self) -> ActionView {
        match self {
            Action::SendMessage(s) => ActionView::SendMessage(s@),
            Action::SwitchMode(s) => ActionView::SwitchMode(s@),
            Action::ScrollUp => ActionView::ScrollUp,
            Action::ScrollDown => ActionView::ScrollDown,
            Action::PageUp => ActionView::PageUp,
            Action::PageDown => ActionView::PageDown,
            Action::ToggleSidebar => ActionView::ToggleSidebar,
            Action::CycleFocusForward => ActionView::CycleFocusForward,
            Action::CycleFocusBackward => ActionView::CycleFocusBackward,
            Action::Quit => ActionView::Quit,
            Action::ConfirmYes => ActionView::ConfirmYes,
            Action::ConfirmNo => ActionView::ConfirmNo,
            Action::ConfirmAll => ActionView::ConfirmAll,
            Action::ExitStructureMode => ActionView::ExitStructureMode,
            Action::AnswerQuestion(s) => ActionView::AnswerQuestion(s@),
            Action::Interrupt => ActionView::Interrupt,
            Action::NoOp => ActionView::NoOp,
        }
    }
}

/// A UI widget that renders itself into a screen area and handles events.
///
/// `inv` is the widget's own well-formedness; rendering and event handling
/// keep it and keep the screen well formed.
pub trait Widget {
    /// The widget's internal invariant.
    spec fn inv(&self) -> bool;

    /// Render the widget into the given area of the screen buffer; the area
    /// lies within the coordinate range.
    fn render(&mut self, area: Rect, screen: &mut Screen)
        requires
            old(self).inv(),
            old(screen).wf(),
            area.x + area.width <= u16::MAX,
            area.y + area.height <= u16::MAX,
        ensures
            final(self).inv(),
            final(screen).wf(),
            final(screen)@.width == old(screen)@.width,
            final(screen)@.height == old(screen)@.height,
    ;

    /// Handle an event and return the action it requests.
    fn handle_event(&mut self, event: &Event) -> (r: Action)
        requires
            old(self).inv(),
        ensures
            final(self).inv(),
    {
        Action::NoOp
    }

    /// Whether this widget currently has keyboard focus.
    fn focused(&self) -> bool {
        false
    }

    /// Set whether this widget has keyboard focus.
    fn set_focus(&mut self, focused: bool)
        requires
            old(self).inv(),
        ensures
            final(self).inv(),
    {
    }
}

/// Number of leading characters of `cs` whose UTF-8 encoding fits in `max` bytes.
pub open spec fn byte_prefix_len(cs: Seq<char>, max: int) -> nat
    decreases cs.len(),
{
    if cs.len() == 0 || char_utf8_len(cs[0]) > max {
        0
    } else {
        1 + byte_prefix_len(cs.drop_first(), max - char_utf8_len(cs[0]))
    }
}

/// Number of leading characters of `cs` kept when truncating to display
/// width `max`: zero-width characters (and control characters, counted as
/// zero) are always kept; a character is dropped, with all after it, once
/// the widths so far would exceed `max`.
pub open spec fn width_prefix_len(cs: Seq<char>, max: int) -> nat
    decreases cs.len(),
{
    if cs.len() == 0 {
        0
    } else {
        let w = match char_width(cs[0]) {
            Some(w) => w as int,
            None => 0,
        };
        if w == 0 {
            1 + width_prefix_len(cs.drop_first(), max)
        } else if w > max {
            0
        } else {
            1 + width_prefix_len(cs.drop_first(), max - w)
        }
    }
}

proof fn lemma_byte_prefix_all(cs: Seq<char>, max: int)
    requires
        encode_utf8(cs).len() <= max,
    ensures
        byte_prefix_len(cs, max) == cs.len(),
    decreases cs.len(),
{
    if cs.len() > 0 {
        crate::text::lemma_encode_append(seq![cs[0]], cs.drop_first());
        assert(seq![cs[0]] + cs.drop_first() =~= cs);
        assert(seq![cs[0]].drop_first() =~= Seq::<char>::empty());
        assert(encode_utf8(seq![cs[0]]) =~= encode_scalar(cs[0] as u32) + encode_utf8(Seq::<char>::empty()));
        lemma_byte_prefix_all(cs.drop_first(), max - char_utf8_len(cs[0]));
    }
}

proof fn lemma_encode_cons_len(c: char, t: Seq<char>)
    ensures
        encode_utf8(seq![c] + t).len() == char_utf8_len(c) + encode_utf8(t).len(),
{
    crate::text::lemma_encode_append(seq![c], t);
    crate::text::lemma_encode_len_push(Seq::<char>::empty(), c);
    assert(Seq::<char>::empty().push(c) =~= seq![c]);
    assert(encode_utf8(Seq::<char>::empty()) =~= Seq::<u8>::empty());
}

/// Truncating to `max` bytes keeps a prefix of whole characters that takes
/// at most `max` bytes, and the longest such one: one more character would
/// take more.
pub proof fn lemma_byte_prefix_longest(cs: Seq<char>, max: int)
    requires
        max >= 0,
    ensures
        byte_prefix_len(cs, max) <= cs.len(),
        encode_utf8(cs.take(byte_prefix_len(cs, max) as int)).len() <= max,
        byte_prefix_len(cs, max) < cs.len() ==> encode_utf8(cs.take(byte_prefix_len(cs, max) + 1int)).len() > max,
    decreases cs.len(),
{
    if cs.len() == 0 {
        assert(cs.take(0) =~= Seq::<char>::empty());
        assert(encode_utf8(Seq::<char>::empty()) =~= Seq::<u8>::empty());
    } else {
        let c0 = cs[0];
        let rest = cs.drop_first();
        if char_utf8_len(c0) > max {
            assert(cs.take(0) =~= Seq::<char>::empty());
            assert(encode_utf8(Seq::<char>::empty()) =~= Seq::<u8>::empty());
            assert(cs.take(1) =~= seq![c0] + Seq::<char>::empty());
            lemma_encode_cons_len(c0, Seq::<char>::empty());
        } else {
            let m = max - char_utf8_len(c0);
            lemma_byte_prefix_longest(rest, m);
            let n1 = byte_prefix_len(rest, m) as int;
            assert(cs.take(n1 + 1) =~= seq![c0] + rest.take(n1));
            lemma_encode_cons_len(c0, rest.take(n1));
            if n1 < rest.len() {
                assert(cs.take(n1 + 2) =~= seq![c0] + rest.take(n1 + 1));
                lemma_encode_cons_len(c0, rest.take(n1 + 1));
            }
        }
    }
}

/// Truncate a string to at most `max_len` bytes without splitting a
/// character: the longest prefix, in whole characters, of at most `max_len` bytes.
pub fn truncate_str(s: &str, max_len: usize) -> (r: &str)
    ensures
        r@ == s@.take(byte_prefix_len(s@, max_len as int) as int),
        r@.is_prefix_of(s@),
        encode_utf8(r@).len() <= max_len,
        r@.len() < s@.len() ==> encode_utf8(s@.take(r@.len() + 1int)).len() > max_len,
        encode_utf8(s@).len() <= max_len ==> r@ == s@,
{
    proof {
        lemma_byte_prefix_longest(s@, max_len as int);
        if encode_utf8(s@).len() <= max_len {
            lemma_byte_prefix_all(s@, max_len as int);
            assert(s@.take(s@.len() as int) =~= s@);
        }
    }
    let total = s.as_bytes().len();
    if total <= max_len {
        proof {
            lemma_byte_prefix_all(s@, max_len as int);
            assert(s@.take(s@.len() as int) =~= s@);
        }
        return s;
    }
    let cs = chars_of(s);
    let mut i: usize = 0;
    let mut bytes: usize = 0;
    proof {
        assert(cs@.skip(0) =~= cs@);
        assert(cs@.take(0) =~= Seq::<char>::empty());
    }
    while i < cs.len()
        invariant
            i <= cs@.len(),
            cs@ == s@,
            bytes == encode_utf8(s@.take(i as int)).len(),
            bytes <= max_len,
            byte_prefix_len(s@, max_len as int) == i + byte_prefix_len(s@.skip(i as int), max_len - bytes),
        ensures
            i < cs@.len() ==> char_utf8_len(cs@[i as int]) > max_len - bytes,
        decreases cs@.len() - i,
    {
        let n = utf8_len(cs[i]);
        proof {
            assert(s@.skip(i as int)[0] == cs@[i as int]);
            assert(s@.skip(i as int).drop_first() =~= s@.skip(i + 1));
        }
        if n > max_len - bytes {
            break;
        }
        proof {
            lemma_encode_len_push(s@.take(i as int), cs@[i as int]);
            assert(s@.take(i as int).push(cs@[i as int]) =~= s@.take(i + 1));
        }
        bytes = bytes + n;
        i += 1;
    }
    proof {
        if i == cs.len() {
            assert(s@.take(i as int) =~= s@);
        } else {
            assert(s@.skip(i as int)[0] == cs@[i as int]);
        }
    }
    prefix_str(s, Ghost(i as int), bytes)
}

/// Truncate a string to `max_width` columns: the string itself when its
/// display width already fits, else the prefix of [`width_prefix_len`]
/// characters. The bound holds for the sum of the characters' widths; a
/// sequence that renders wider than its characters (an emoji presentation
/// sequence, say) can make the prefix's display width exceed it.
pub fn truncate_str_width(s: &str, max_width: usize) -> (r: &str)
    ensures
        str_width(s@) <= max_width ==> r@ == s@,
        str_width(s@) > max_width ==> r@ == s@.take(width_prefix_len(s@, max_width as int) as int),
{
    if str_display_width(s) <= max_width {
        return s;
    }
    let total = s.as_bytes().len();
    let cs = chars_of(s);
    let mut i: usize = 0;
    let mut acc: usize = 0;
    let mut bytes: usize = 0;
    proof {
        assert(cs@.skip(0) =~= cs@);
        assert(cs@.take(0) =~= Seq::<char>::empty());
    }
    while i < cs.len()
        invariant
            i <= cs@.len(),
            cs@ == s@,
            acc <= max_width,
            total == encode_utf8(s@).len(),
            bytes == encode_utf8(s@.take(i as int)).len(),
            width_prefix_len(s@, max_width as int) == i + width_prefix_len(s@.skip(i as int), max_width - acc),
        ensures
            i < cs@.len() ==> (match char_width(cs@[i as int]) { Some(w) => w as int, None => 0int }) > max_width - acc,
            i < cs@.len() ==> (match char_width(cs@[i as int]) { Some(w) => w as int, None => 0int }) != 0,
        decreases cs@.len() - i,
    {
        let ch = cs[i];
        let w = match char_display_width(ch) {
            Some(w) => w,
            None => 0,
        };
        proof {
            assert(s@.skip(i as int)[0] == ch);
            assert(s@.skip(i as int).drop_first() =~= s@.skip(i + 1));
            lemma_encode_len_push(s@.take(i as int), ch);
            assert(s@.take(i as int).push(ch) =~= s@.take(i + 1));
            crate::text::lemma_encode_append(s@.take(i + 1), s@.skip(i + 1));
            assert(s@.take(i + 1) + s@.skip(i + 1) =~= s@);
        }
        if w != 0 {
            if w > max_width - acc {
                break;
            }
            acc = acc + w;
        }
        bytes = bytes + utf8_len(ch);
        i += 1;
    }
    if i == cs.len() {
        proof {
            assert(s@.skip(i as int).len() == 0);
            assert(s@.take(i as int) =~= s@);
        }
        return s;
    }
    proof {
        assert(s@.skip(i as int)[0] == cs@[i as int]);
    }
    prefix_str(s, Ghost(i as int), bytes)
}

} // verus!
