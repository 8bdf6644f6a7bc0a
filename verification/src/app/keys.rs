//! Keys as they come from the terminal.

use vstd::prelude::*;

verus! {

/// A key.
#[derive(Debug, Clone, Copy, PartialEq, Eq, Structural)]
pub enum KeyCode {
    Enter,
    Esc,
    Tab,
    Backspace,
    Delete,
    Left,
    Right,
    Up,
    Down,
    Home,
    End,
    PageUp,
    PageDown,
    Char(char),
    /// Any key without a meaning here.
    Other,
}

/// The modifiers held with a key.
#[derive(Debug, Clone, Copy, PartialEq, Eq, Structural)]
pub struct KeyModifiers {
    pub shift: bool,
    pub ctrl: bool,
    pub alt: bool,
}

impl KeyModifiers {
    /// No modifier.
    pub fn none() -> (r: Self)
        ensures
            r == (KeyModifiers { shift: false, ctrl: false, alt: false }),
    {
        KeyModifiers { shift: false, ctrl: false, alt: false }
    }

    /// Shift alone.
    pub fn shift() -> (r: Self)
        ensures
            r == (KeyModifiers { shift: true, ctrl: false, alt: false }),
    {
        KeyModifiers { shift: true, ctrl: false, alt: false }
    }

    /// Control alone.
    pub fn ctrl() -> (r: Self)
        ensures
            r == (KeyModifiers { shift: false, ctrl: true, alt: false }),
    {
        KeyModifiers { shift: false, ctrl: true, alt: false }
    }

    /// Alt alone.
    pub fn alt() -> (r: Self)
        ensures
            r == (KeyModifiers { shift: false, ctrl: false, alt: true }),
    {
        KeyModifiers { shift: false, ctrl: false, alt: true }
    }
}

/// A key with its modifiers.
#[derive(Debug, Clone, Copy, PartialEq, Eq, Structural)]
pub struct KeyEvent {
    pub code: KeyCode,
    pub modifiers: KeyModifiers,
}

impl KeyEvent {
    pub fn new(code: KeyCode, modifiers: KeyModifiers) -> (r: Self)
        ensures
            r.code == code,
            r.modifiers == modifiers,
    {
        KeyEvent { code, modifiers }
    }
}

} // verus!
