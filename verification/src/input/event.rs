//! Device events, reduced to what the controllers read.

use vstd::prelude::*;

verus! {

/// Whether a key went down or came up.
#[derive(Clone, Copy, PartialEq, Eq, Structural)]
pub enum ElementState {
    Pressed,
    Released,
}

/// The keys the controllers know, and one value for all others.
#[derive(Clone, Copy, PartialEq, Eq, Structural)]
pub enum VirtualKeyCode {
    W,
    A,
    S,
    D,
    Space,
    LShift,
    Up,
    Down,
    Left,
    Right,
    Other,
}

/// An event of an input device.
#[derive(Clone, Copy, PartialEq, Eq, Structural)]
pub enum DeviceEvent {
    /// A key changed its state. The key code is absent where the platform
    /// could not name the key.
    Key { state: ElementState, virtual_keycode: Option<VirtualKeyCode> },
    /// Any event that is not about a key.
    Other,
}

} // verus!
