//! Keys and mouse events.

use vstd::prelude::*;

verus! {

#[derive(Clone, Copy, Debug, PartialEq, Eq, Structural)]
pub enum KeyCode {
    Char(char),
    Esc,
    Enter,
    Tab,
    Backspace,
    Delete,
    Up,
    Down,
    Left,
    Right,
    Home,
    End,
    PageUp,
    PageDown,
    Other,
}

/// The keys that are held down with another.
#[derive(Clone, Copy, Debug, PartialEq, Eq, Structural)]
pub struct Modifiers {
    pub shift: bool,
    pub control: bool,
    pub alt: bool,
    pub super_key: bool,
}

#[derive(Clone, Copy, Debug, PartialEq, Eq, Structural)]
pub struct KeyEvent {
    pub code: KeyCode,
    pub modifiers: Modifiers,
}

#[derive(Clone, Copy, Debug, PartialEq, Eq, Structural)]
pub enum MouseEventKind {
    Down,
    Up,
    Drag,
    Moved,
    ScrollUp,
    ScrollDown,
    ScrollLeft,
    ScrollRight,
}

#[derive(Clone, Copy, Debug, PartialEq, Eq, Structural)]
pub struct MouseEvent {
    pub kind: MouseEventKind,
    pub column: u16,
    pub row: u16,
    pub modifiers: Modifiers,
}

#[derive(Debug)]
pub enum InputEvent {
    Key(KeyEvent),
    Mouse(MouseEvent),
    Paste(String),
    Other,
}

impl Modifiers {
    pub open spec fn none() -> Modifiers {
        Modifiers { shift: false, control: false, alt: false, super_key: false }
    }

    pub open spec fn only_control() -> Modifiers {
        Modifiers { shift: false, control: true, alt: false, super_key: false }
    }

    pub open spec fn only_alt() -> Modifiers {
        Modifiers { shift: false, control: false, alt: true, super_key: false }
    }
}

impl KeyEvent {
    /// A key pressed on its own.
    pub open spec fn is_plain(self, code: KeyCode) -> bool {
        self.code == code && self.modifiers == Modifiers::none()
    }

    /// A character typed together with the control key.
    pub open spec fn is_ctrl(self, c: char) -> bool {
        self.code == KeyCode::Char(c) && self.modifiers == Modifiers::only_control()
    }

    pub fn plain(self, code: KeyCode) -> (b: bool)
        ensures
            b == self.is_plain(code),
    {
        self.code == code && !self.modifiers.shift && !self.modifiers.control
            && !self.modifiers.alt && !self.modifiers.super_key
    }

    pub fn ctrl(self, c: char) -> (b: bool)
        ensures
            b == self.is_ctrl(c),
    {
        self.code == KeyCode::Char(c) && !self.modifiers.shift && self.modifiers.control
            && !self.modifiers.alt && !self.modifiers.super_key
    }
}

} // verus!
