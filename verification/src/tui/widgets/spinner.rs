//! An animated spinner with a label, shown while a response streams in.

use vstd::prelude::*;
use crate::text::{push_str, string_push};
use crate::tui::cell::{plain_style, Color, Style};
use crate::tui::layout::Rect;
use crate::tui::screen::{lemma_same_rows_refl, lemma_same_rows_step, same_outside_rows, write_run, Screen, ScreenView};
use crate::tui::widget::{byte_prefix_len, Widget, truncate_str};

verus! {

/// The number of animation frames.
pub const SPINNER_FRAME_COUNT: usize = 10;

/// The animation frames, in order (Braille dots).
pub open spec fn frame_text(i: int) -> Seq<char> {
    if i == 0 {
        "⠋"@
    } else if i == 1 {
        "⠙"@
    } else if i == 2 {
        "⠹"@
    } else if i == 3 {
        "⠸"@
    } else if i == 4 {
        "⠼"@
    } else if i == 5 {
        "⠴"@
    } else if i == 6 {
        "⠦"@
    } else if i == 7 {
        "⠧"@
    } else if i == 8 {
        "⠇"@
    } else {
        "⠏"@
    }
}

/// The animation frame `i` (see [`frame_text`]).
pub fn spinner_frame(i: usize) -> (r: &'static str)
    requires
        i < SPINNER_FRAME_COUNT,
    ensures
        r@ == frame_text(i as int),
{
    if i == 0 { "⠋" }
    else if i == 1 { "⠙" }
    else if i == 2 { "⠹" }
    else if i == 3 { "⠸" }
    else if i == 4 { "⠼" }
    else if i == 5 { "⠴" }
    else if i == 6 { "⠦" }
    else if i == 7 { "⠧" }
    else if i == 8 { "⠇" }
    else { "⠏" }
}

/// A screen with a running spinner drawn on the area's top row: the frame
/// in orange at the first column, then from the third column the label and
/// an ellipsis, dim gray, cut to the columns left.
pub open spec fn spinner_drawn(v: ScreenView, s: SpinnerState, area: Rect) -> ScreenView {
    if !s.active || area.width == 0 || area.height == 0 {
        v
    } else {
        let v1 = write_run(v, area.y as int, area.x as int, area.x as int, frame_text(s.frame as int), Color::Ansi(208),
            Color::Default, plain_style());
        if area.x + 2 < area.x + area.width {
            let label = s.label.push('…');
            let avail = area.x + area.width - (area.x + 2);
            write_run(v1, area.y as int, area.x + 2, area.x + 2, label.take(byte_prefix_len(label, avail) as int),
                Color::Ansi(8), Color::Default, Style { dim: true, ..plain_style() })
        } else {
            v1
        }
    }
}

/// An animated spinner.
pub struct SpinnerWidget {
    frame: usize,
    label: String,
    active: bool,
}

/// The state of a spinner: its frame, label and whether it runs.
pub struct SpinnerState {
    pub frame: nat,
    pub label: Seq<char>,
    pub active: bool,
}

impl View for SpinnerWidget {
    type V = SpinnerState;

    closed spec fn view(&self) -> SpinnerState {
        SpinnerState { frame: self.frame as nat, label: self.label@, active: self.active }
    }
}

/// One tick: a running spinner moves to the next frame, wrapping after the last.
pub open spec fn tick_state(s: SpinnerState) -> SpinnerState {
    if s.active {
        SpinnerState { frame: ((s.frame + 1) % 10) as nat, ..s }
    } else {
        s
    }
}

/// `n` ticks.
pub open spec fn ticks(s: SpinnerState, n: nat) -> SpinnerState
    decreases n,
{
    if n == 0 { s } else { ticks(tick_state(s), (n - 1) as nat) }
}

impl SpinnerWidget {
    /// A stopped spinner with the given label.
    pub fn new(label: &str) -> (r: Self)
        ensures
            r@ == (SpinnerState { frame: 0, label: label@, active: false }),
    {
        SpinnerWidget { frame: 0, label: label.to_owned(), active: false }
    }

    /// Advance a running spinner to the next frame.
    pub fn tick(&mut self)
        requires
            old(self)@.frame < 10,
        ensures
            final(self)@ == tick_state(old(self)@),
            final(self)@.frame < 10,
    {
        if self.active {
            self.frame = (self.frame + 1) % SPINNER_FRAME_COUNT;
        }
    }

    /// Start the spinner from its first frame.
    pub fn start(&mut self)
        ensures
            final(self)@ == (SpinnerState { active: true, frame: 0, ..old(self)@ }),
    {
        self.active = true;
        self.frame = 0;
    }

    /// Stop the spinner.
    pub fn stop(&mut self)
        ensures
            final(self)@ == (SpinnerState { active: false, ..old(self)@ }),
    {
        self.active = false;
    }

    /// Replace the label.
    pub fn set_label(&mut self, label: &str)
        ensures
            final(self)@ == (SpinnerState { label: label@, ..old(self)@ }),
    {
        self.label = label.to_owned();
    }

    /// Whether the spinner runs.
    pub fn is_active(&self) -> (r: bool)
        ensures
            r == self@.active,
    {
        self.active
    }

    /// The current frame index.
    pub fn frame(&self) -> (r: usize)
        ensures
            r == self@.frame,
    {
        self.frame
    }

    /// The label.
    pub fn label(&self) -> (r: &str)
        ensures
            r@ == self@.label,
    {
        self.label.as_str()
    }
}

impl Widget for SpinnerWidget {
    open spec fn inv(&self) -> bool {
        self@.frame < 10
    }

    /// Draw the frame and the label on the area's top row.
    fn render(&mut self, area: Rect, screen: &mut Screen)
        ensures
            same_outside_rows(old(screen)@, final(screen)@, area.y as int, area.y + area.height),
            final(screen)@ == spinner_drawn(old(screen)@, old(self)@, area),
            final(self)@ == old(self)@,
    {
        proof {
            lemma_same_rows_refl(screen@, area.y as int, area.y + area.height);
        }
        if !self.active || area.is_empty() {
            return;
        }
        let row = area.y;
        let col = area.x;
        let max_col = area.x + area.width;
        let frame = spinner_frame(self.frame);
        if col < max_col {
            screen.write_str(row, col, frame, Color::Ansi(208), Color::Default, Style::new());
            proof {
                lemma_same_rows_step(old(screen)@, old(screen)@, screen@, row as int, row + 1, area.y as int, area.y + area.height);
            }
        }
        if (col as u32) + 2 < max_col as u32 {
            let label_col = col + 2;
            let available = (max_col - label_col) as usize;
            let mut label = String::new();
            push_str(&mut label, self.label.as_str());
            string_push(&mut label, '…');
            let clipped = truncate_str(label.as_str(), available);
            let ghost before = screen@;
            screen.write_str(row, label_col, clipped, Color::Ansi(8), Color::Default, Style::dim());
            proof {
                lemma_same_rows_step(old(screen)@, before, screen@, row as int, row + 1, area.y as int, area.y + area.height);
            }
        }
    }
}

/// Ten ticks bring a running spinner back to the frame it showed.
pub proof fn lemma_ten_ticks_cycle(s: SpinnerState)
    requires
        s.frame < 10,
    ensures
        ticks(s, 10) == s,
{
    if s.active {
        lemma_ticks_active(s, 10);
        assert((s.frame + 10) % 10 == s.frame);
    } else {
        lemma_stopped_spinner_still(s, 10);
    }
}

/// `n` ticks of a running spinner advance its frame by `n`, modulo ten.
pub proof fn lemma_ticks_active(s: SpinnerState, n: nat)
    requires
        s.active,
    ensures
        n > 0 ==> ticks(s, n) == (SpinnerState { frame: ((s.frame + n) % 10) as nat, ..s }),
    decreases n,
{
    if n > 0 {
        let t = tick_state(s);
        lemma_ticks_active(t, (n - 1) as nat);
        let f = s.frame as int;
        let m = (n - 1) as int;
        assert(((f + 1) % 10 + m) % 10 == (f + 1 + m) % 10) by {
            vstd::arithmetic::div_mod::lemma_add_mod_noop(f + 1, m, 10);
            vstd::arithmetic::div_mod::lemma_add_mod_noop_right((f + 1) % 10, m, 10);
        }
        if n == 1 {
            assert(ticks(t, 0) == t);
        }
    }
}

/// A stopped spinner does not move.
pub proof fn lemma_stopped_spinner_still(s: SpinnerState, n: nat)
    requires
        !s.active,
    ensures
        ticks(s, n) == s,
    decreases n,
{
    if n > 0 {
        lemma_stopped_spinner_still(tick_state(s), (n - 1) as nat);
    }
}

} // verus!
