//! What the interactive components share: the key events they react to,
//! whether a component consumed an event, and the conversion from a
//! component's per-draw frame back to its persistent state.

use vstd::prelude::*;

use crate::commands::Command;

verus! {

/// A key press, as the components read it. The terminal layer converts
/// its own event type into this one.
#[derive(Debug, Clone, Copy, PartialEq, Eq, Structural)]
pub enum KeyCode {
    Backspace,
    Delete,
    Enter,
    Char(char),
    Up,
    Down,
    Left,
    Right,
    End,
    Home,
    PageUp,
    PageDown,
    Esc,
    Tab,
    Other,
}

/// A key press together with whether a control or alt modifier was held.
#[derive(Debug, Clone, Copy, PartialEq, Eq, Structural)]
pub struct KeyEvent {
    pub code: KeyCode,
    pub ctrl: bool,
    pub alt: bool,
}

impl KeyEvent {
    pub fn plain(code: KeyCode) -> (r: KeyEvent)
        ensures
            r == (KeyEvent { code, ctrl: false, alt: false }),
    {
        KeyEvent { code, ctrl: false, alt: false }
    }
}

/// What a component did with an event: swallowed it, left it to the
/// caller, or turned it into an instruction for the caller to carry out.
#[derive(Debug, Clone, PartialEq, Eq)]
pub enum Consumed {
    Consumed,
    NotConsumed,
    Command(Command),
}

impl Consumed {
    /// Whether the event went no further than the component.
    pub fn is_consumed(&self) -> (r: bool)
        ensures
            r == !(*self matches Consumed::NotConsumed),
    {
        !(matches!(self, Consumed::NotConsumed))
    }
}

/// A per-draw frame that can be folded back into the state it was built
/// from.
pub trait Frame<S> {
    fn into_state(self) -> S;
}

} // verus!
