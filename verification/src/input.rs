//! The input boundary: logical keys and the per-frame polling capability.
//!
//! The engine core only consumes this interface; a platform backend
//! implements it over real keyboard state. [`EmptyInput`] is the inert
//! implementation: it reports no key as ever being touched.
use vstd::prelude::*;

verus! {

/// The closed set of logical keys: directional and action keys for two
/// players, aggregate queries per player, and a shared start key.
#[derive(Clone, Copy, PartialEq, Eq, Structural, Debug)]
pub enum Key {
    P1Down,
    P1Up,
    P1Left,
    P1Right,
    P1AnyDirection,
    P1Blue,
    P1Green,
    P1Any,
    P2Down,
    P2Up,
    P2Left,
    P2Right,
    P2AnyDirection,
    P2Blue,
    P2Green,
    P2Any,
    Start,
}

/// Number of per-player keys that carry edge state (the shared start key
/// comes after them).
pub const KEYS_LENGTH: u8 = 16;

/// The three edge states a key can be queried for.
#[derive(Clone, Copy, PartialEq, Eq, Structural, Debug)]
pub enum KeyState {
    Down,
    Up,
    Press,
}

/// Per-frame input polling: `update` snapshots the backend state at the top
/// of a frame, `late_update` clears the edge-triggered (down/up) state at
/// its end, and the queries read the snapshot. `delta_time` is in
/// fixed-point milliseconds.
pub trait Input {
    /// Polls the backend and latches this frame's key state.
    fn update(&mut self, delta_time: i64);

    /// Clears the edge-triggered key state at the end of the frame.
    fn late_update(&mut self, delta_time: i64);

    /// Whether the key went down this frame.
    fn is_key_down(&self, key: Key) -> bool;

    /// Whether any key went down this frame.
    fn is_any_key_down(&self) -> bool;

    /// Whether the key went up this frame.
    fn is_key_up(&self, key: Key) -> bool;

    /// Whether any key went up this frame.
    fn is_any_key_up(&self) -> bool;

    /// Whether the key is held.
    fn is_key_press(&self, key: Key) -> bool;

    /// Whether any key is held.
    fn is_any_key_press(&self) -> bool;

    /// Forgets all key state.
    fn clear(&mut self);
}

/// An input source with no keys: every query is false.
pub struct EmptyInput;

impl EmptyInput {
    /// An inert input source.
    pub fn new() -> (r: EmptyInput) {
        EmptyInput {  }
    }
}

impl Input for EmptyInput {
    fn update(&mut self, _delta_time: i64) {
    }

    fn late_update(&mut self, _delta_time: i64) {
    }

    fn is_key_down(&self, _key: Key) -> bool {
        false
    }

    fn is_any_key_down(&self) -> bool {
        false
    }

    fn is_key_up(&self, _key: Key) -> bool {
        false
    }

    fn is_any_key_up(&self) -> bool {
        false
    }

    fn is_key_press(&self, _key: Key) -> bool {
        false
    }

    fn is_any_key_press(&self) -> bool {
        false
    }

    fn clear(&mut self) {
    }
}

} // verus!
