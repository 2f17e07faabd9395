//! Keyboard input as the simulation sees it.

use vstd::prelude::*;

verus! {

/// The key an event is about.
#[derive(Clone, Copy, Debug, PartialEq, Eq, Structural)]
pub enum Key {
    /// A key that produces a character.
    Char(char),
    /// Any key without a character of its own.
    Unknown,
}

/// A key changing state.
#[derive(Clone, Copy, Debug, PartialEq, Eq, Structural)]
pub enum KeyboardEvent {
    /// The key was pressed.
    Down(Key),
    /// The key was released.
    Up(Key),
}

} // verus!
