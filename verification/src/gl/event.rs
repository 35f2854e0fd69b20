//! Platform-independent descriptions of user-interface events.

use vstd::prelude::*;

verus! {

/// An event reported by a windowing backend.
pub trait BackendEvent {
    /// The time at which the event happened, as reported by the backend.
    fn timestamp(&self) -> u64;
}

/// A mouse button.
#[derive(Debug, Copy, Clone, Eq, PartialEq, Ord, PartialOrd, Structural)]
pub enum MouseButton {
    Left,
    Right,
    Other,
}

/// What the mouse did.
#[derive(Debug, Copy, Clone, Eq, PartialEq, Ord, PartialOrd, Structural)]
pub enum MouseAction {
    Down,
    Up,
    Dragged,
    Moved,
    Entered,
    Exited,
}

/// A key pressed or released: the characters it produced and the modifier keys held.
#[derive(Debug, Clone)]
pub struct KeyEvent {
    pub key: String,
    pub caps: bool,
    pub shift: bool,
    pub control: bool,
    pub alt: bool,
    pub meta: bool,
    pub function: bool,
}

/// `c` with the ASCII upper-case letters `A` to `Z` turned to their lower-case letters; any other
/// character unchanged.
pub open spec fn ascii_lower(c: char) -> char {
    if 'A' <= c && c <= 'Z' {
        ((c as u32) + 32) as char
    } else {
        c
    }
}

/// The characters of a key, as the key of a [`KeyEvent`]: each ASCII upper-case letter turned to
/// lower case, the other characters kept.
pub fn lowercase_key(chars: &[char]) -> (r: Vec<char>)
    ensures
        r@ == chars@.map_values(|c: char| ascii_lower(c)),
{
    let mut out: Vec<char> = Vec::new();
    for i in 0..chars.len()
        invariant
            out@ == chars@.take(i as int).map_values(|c: char| ascii_lower(c)),
    {
        let c = chars[i];
        let l = if 'A' <= c && c <= 'Z' {
            ((c as u8) + 32) as char
        } else {
            c
        };
        assert(l == ascii_lower(c));
        out.push(l);
        proof {
            assert(chars@.take(i as int + 1) =~= chars@.take(i as int).push(c));
        }
        assert(out@ =~= chars@.take(i as int + 1).map_values(|c: char| ascii_lower(c)));
    }
    assert(chars@.take(chars@.len() as int) =~= chars@);
    out
}

/// A tick of the event loop, sent at regular intervals.
#[derive(Debug, Copy, Clone, Eq, PartialEq, Structural)]
pub struct PeriodicEvent {}

/// The kinds of events that a windowing system reports, as far as the backends tell them apart.
#[derive(Debug, Copy, Clone, Eq, PartialEq, Structural)]
pub enum WindowEventKind {
    LeftMouseDown,
    LeftMouseUp,
    RightMouseDown,
    RightMouseUp,
    MouseMoved,
    LeftMouseDragged,
    RightMouseDragged,
    MouseEntered,
    MouseExited,
    OtherMouseDown,
    OtherMouseUp,
    OtherMouseDragged,
    KeyDown,
    Other,
}

/// What a backend makes of an event of the windowing system.
#[derive(Debug, Copy, Clone, Eq, PartialEq, Structural)]
pub enum EventClass {
    /// A mouse event, with its button and what the mouse did.
    Mouse(MouseButton, MouseAction),
    /// A key pressed.
    Key,
    /// An event the application does not see.
    Ignored,
}

/// The button of a mouse event of kind `kind`.
pub open spec fn button_of(kind: WindowEventKind) -> MouseButton {
    match kind {
        WindowEventKind::LeftMouseDown | WindowEventKind::LeftMouseUp | WindowEventKind::LeftMouseDragged => MouseButton::Left,
        WindowEventKind::RightMouseDown | WindowEventKind::RightMouseUp | WindowEventKind::RightMouseDragged => MouseButton::Right,
        _ => MouseButton::Other,
    }
}

/// What the mouse did in a mouse event of kind `kind`.
pub open spec fn action_of(kind: WindowEventKind) -> MouseAction {
    match kind {
        WindowEventKind::LeftMouseDown | WindowEventKind::RightMouseDown | WindowEventKind::OtherMouseDown => MouseAction::Down,
        WindowEventKind::LeftMouseUp | WindowEventKind::RightMouseUp | WindowEventKind::OtherMouseUp => MouseAction::Up,
        WindowEventKind::MouseEntered => MouseAction::Entered,
        WindowEventKind::MouseMoved => MouseAction::Moved,
        WindowEventKind::MouseExited => MouseAction::Exited,
        _ => MouseAction::Dragged,
    }
}

/// Sorts an event of the windowing system: key presses are keys, the events of the mouse (its
/// buttons down, up or dragged, its moves, entering and leaving the window) are mouse events
/// with their button and action, and the others are ignored.
pub fn classify_event(kind: WindowEventKind) -> (r: EventClass)
    ensures
        kind == WindowEventKind::KeyDown ==> r == EventClass::Key,
        kind == WindowEventKind::Other ==> r == EventClass::Ignored,
        kind != WindowEventKind::KeyDown && kind != WindowEventKind::Other ==> r == EventClass::Mouse(
            button_of(kind),
            action_of(kind),
        ),
{
    let button = match kind {
        WindowEventKind::LeftMouseDown | WindowEventKind::LeftMouseUp | WindowEventKind::LeftMouseDragged => MouseButton::Left,
        WindowEventKind::RightMouseDown | WindowEventKind::RightMouseUp | WindowEventKind::RightMouseDragged => MouseButton::Right,
        _ => MouseButton::Other,
    };
    let action = match kind {
        WindowEventKind::LeftMouseDown | WindowEventKind::RightMouseDown | WindowEventKind::OtherMouseDown => MouseAction::Down,
        WindowEventKind::LeftMouseUp | WindowEventKind::RightMouseUp | WindowEventKind::OtherMouseUp => MouseAction::Up,
        WindowEventKind::LeftMouseDragged | WindowEventKind::RightMouseDragged | WindowEventKind::OtherMouseDragged => MouseAction::Dragged,
        WindowEventKind::MouseEntered => MouseAction::Entered,
        WindowEventKind::MouseMoved => MouseAction::Moved,
        WindowEventKind::MouseExited => MouseAction::Exited,
        WindowEventKind::KeyDown => return EventClass::Key,
        WindowEventKind::Other => return EventClass::Ignored,
    };
    EventClass::Mouse(button, action)
}

} // verus!
