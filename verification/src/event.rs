//! Values exchanged between the hardware boundary, the components and the
//! event consumer.

use vstd::prelude::*;

verus! {

/// Electrical level of a digital line.
#[derive(Clone, Copy, Debug, PartialEq, Eq, Structural)]
pub enum PinLevel {
    Low,
    High,
}

/// Failure of one select or sense line operation. `pin` identifies the line
/// in the numbering of the board.
#[derive(Clone, Copy, Debug, PartialEq, Eq, Structural)]
pub struct PinError {
    pub pin: u8,
}

/// A debounced transition of the key at `(row, column)`.
#[derive(Clone, Copy, Debug, PartialEq, Eq, Structural)]
pub enum InputEvent {
    Press(u8, u8),
    Release(u8, u8),
}

impl InputEvent {
    /// The `(row, column)` pair that the event annotates.
    pub open spec fn spec_coord(self) -> (u8, u8) {
        match self {
            InputEvent::Press(i, j) => (i, j),
            InputEvent::Release(i, j) => (i, j),
        }
    }

    /// The `(row, column)` pair that the event annotates.
    #[verifier::when_used_as_spec(spec_coord)]
    pub fn coord(self) -> (c: (u8, u8))
        ensures
            c == self.spec_coord(),
    {
        match self {
            InputEvent::Press(i, j) => (i, j),
            InputEvent::Release(i, j) => (i, j),
        }
    }

    /// The event that reports the key at `at` as newly pressed or released.
    pub open spec fn transition(at: (u8, u8), pressed: bool) -> InputEvent {
        if pressed {
            InputEvent::Press(at.0, at.1)
        } else {
            InputEvent::Release(at.0, at.1)
        }
    }
}

} // verus!
