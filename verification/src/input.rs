//! Keyboard input events.

use vstd::prelude::*;

verus! {

/// The keys the groovebox reacts to.
#[derive(Clone, Copy, Debug, PartialEq, Eq, Structural, Hash)]
pub enum Key {
    A,
    S,
    D,
    F,
    G,
    H,
    J,
    K,
    L,
    Semicolon,
    Apostrophe,
    W,
    E,
    T,
    Y,
    U,
    O,
    P,
    I,
    R,
    X,
    Z,
    One,
    Two,
    Three,
    Four,
    Five,
    Six,
    Enter,
    Escape,
    Backspace,
    Space,
    Equal,
    Minus,
    LeftBracket,
    RightBracket,
}

/// Whether a key went down or came up.
#[derive(Clone, Copy, Debug, PartialEq, Eq, Structural)]
pub enum EventType {
    KeyPress,
    KeyRelease,
}

/// One key event.
#[derive(Clone, Copy, Debug, PartialEq, Eq, Structural)]
pub struct Event {
    pub ty: EventType,
    pub key: Key,
}

} // verus!
