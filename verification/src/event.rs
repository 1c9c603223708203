//! The values the listener moves: decoded keystrokes and the application
//! events that wrap them.

use vstd::prelude::*;

verus! {

/// One decoded user keystroke: a printable character, a control chord, or a
/// named function key. The listener never inspects a key; it is an opaque
/// payload handed through from the terminal to the event channel.
#[derive(Clone, Copy, PartialEq, Eq, Structural, Debug)]
pub enum Key {
    Char(char),
    Ctrl(char),
    Enter,
    Tab,
    Backspace,
    Delete,
    Esc,
    Up,
    Down,
    Left,
    Right,
    Home,
    End,
    PageUp,
    PageDown,
}

/// An application-level event. The wider application may dispatch many kinds
/// of event; the input listener only ever constructs the key-wrapping one,
/// so that is the only variant this core defines.
#[derive(Clone, Copy, PartialEq, Eq, Structural, Debug)]
pub enum Event {
    Key(Key),
}

} // verus!
