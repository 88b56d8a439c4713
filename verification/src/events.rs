//! Key events as the engine sees them: a keycode together with a key
//! transition, and, on the input side, the arrival time in milliseconds.

use vstd::prelude::*;

verus! {

/// A key transition as reported by an input device: release, press, or
/// auto-repeat. Raw streams encode these as the integers 0, 1 and 2; any
/// other raw value is rejected at the source boundary (`Transition::from_raw`
/// returns `None`) so the engine itself never sees an out-of-range value.
#[derive(Clone, Copy, Debug, PartialEq, Eq, Structural)]
pub enum Transition {
    Up,
    Down,
    Repeat,
}

impl Transition {
    /// The raw integer value a device reports for an `Up` transition.
    pub open spec fn spec_raw(self) -> i32 {
        match self {
            Transition::Up => 0,
            Transition::Down => 1,
            Transition::Repeat => 2,
        }
    }

    /// Converts a raw transition value into the closed set of transitions.
    /// Out-of-range values (anything but 0, 1, 2) are rejected.
    pub fn from_raw(value: i32) -> (r: Option<Transition>)
        ensures
            r == spec_from_raw(value),
    {
        match value {
            0 => Some(Transition::Up),
            1 => Some(Transition::Down),
            2 => Some(Transition::Repeat),
            _ => None,
        }
    }

    /// The raw integer value to hand to an output device for this transition.
    pub fn to_raw(self) -> (r: i32)
        ensures
            r == self.spec_raw(),
    {
        match self {
            Transition::Up => 0,
            Transition::Down => 1,
            Transition::Repeat => 2,
        }
    }
}

/// What `Transition::from_raw` returns for each raw value.
pub open spec fn spec_from_raw(value: i32) -> Option<Transition> {
    if value == 0 {
        Some(Transition::Up)
    } else if value == 1 {
        Some(Transition::Down)
    } else if value == 2 {
        Some(Transition::Repeat)
    } else {
        None
    }
}

/// A raw key event arriving from the input device, already filtered down to
/// genuine key events with a known transition. `time_ms` is the arrival time
/// on a monotonic millisecond clock; the engine compares arrival times
/// against its disambiguation timeout.
#[derive(Clone, Copy, Debug, PartialEq, Eq, Structural)]
pub struct InputKey {
    /// The keycode of the physical key.
    pub code: u16,
    /// Whether the key went down, came up, or auto-repeated.
    pub transition: Transition,
    /// Arrival time in milliseconds on a monotonic clock.
    pub time_ms: u64,
}

/// A synthesized key event for the output device: a keycode and a transition.
#[derive(Clone, Copy, Debug, PartialEq, Eq, Structural)]
pub struct OutputKey {
    /// The keycode to emit.
    pub code: u16,
    /// The transition to emit.
    pub transition: Transition,
}

impl OutputKey {
    /// A synthesized press of `code`.
    pub open spec fn down(code: u16) -> OutputKey {
        OutputKey { code, transition: Transition::Down }
    }

    /// A synthesized release of `code`.
    pub open spec fn up(code: u16) -> OutputKey {
        OutputKey { code, transition: Transition::Up }
    }
}

} // verus!
