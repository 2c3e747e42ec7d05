//! Input events: keys with modifiers, mouse actions, pastes and resizes.

use vstd::prelude::*;

verus! {

/// Modifier keys held during a key press.
#[derive(Clone, Copy, Debug, Default, PartialEq, Eq, Structural)]
pub struct Modifiers {
    pub ctrl: bool,
    pub alt: bool,
    pub shift: bool,
}

impl Modifiers {
    /// No modifier.
    pub fn new() -> (m: Self)
        ensures
            m == (Modifiers { ctrl: false, alt: false, shift: false }),
    {
        Modifiers { ctrl: false, alt: false, shift: false }
    }

    /// Shift only.
    pub fn shift() -> (m: Self)
        ensures
            m == (Modifiers { ctrl: false, alt: false, shift: true }),
    {
        Modifiers { ctrl: false, alt: false, shift: true }
    }

    /// Ctrl only.
    pub fn ctrl() -> (m: Self)
        ensures
            m == (Modifiers { ctrl: true, alt: false, shift: false }),
    {
        Modifiers { ctrl: true, alt: false, shift: false }
    }

    /// Alt only.
    pub fn alt() -> (m: Self)
        ensures
            m == (Modifiers { ctrl: false, alt: true, shift: false }),
    {
        Modifiers { ctrl: false, alt: true, shift: false }
    }
}

/// A key on the keyboard.
#[derive(Clone, Copy, Debug, PartialEq, Eq, Structural)]
pub enum Key {
    Char(char),
    Enter,
    Tab,
    BackTab,
    Backspace,
    Delete,
    Left,
    Right,
    Up,
    Down,
    Home,
    End,
    PageUp,
    PageDown,
    Escape,
    F(u8),
}

/// A key press with its modifiers.
#[derive(Clone, Copy, Debug, PartialEq, Eq, Structural)]
pub struct KeyEvent {
    pub key: Key,
    pub modifiers: Modifiers,
}

/// A mouse button.
#[derive(Clone, Copy, Debug, PartialEq, Eq, Structural)]
pub enum MouseButton {
    Left,
    Right,
    Middle,
}

/// A mouse action at a screen position (0-based row and column).
#[derive(Clone, Copy, Debug, PartialEq, Eq, Structural)]
pub enum MouseEvent {
    Press { row: u16, col: u16, button: MouseButton },
    Release { row: u16, col: u16 },
    ScrollUp { row: u16, col: u16 },
    ScrollDown { row: u16, col: u16 },
}

/// An input event.
#[derive(Clone, Debug, PartialEq, Eq)]
pub enum Event {
    Key(KeyEvent),
    Mouse(MouseEvent),
    /// Text pasted in bracketed-paste mode.
    Paste(String),
    /// The terminal was resized.
    Resize { cols: u16, rows: u16 },
}

} // verus!
