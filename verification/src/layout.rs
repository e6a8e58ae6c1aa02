//! Coordinates and actions that the board's key layout reserves.

use vstd::prelude::*;
use crate::event::InputEvent;

verus! {

/// Actions of the board itself, as opposed to key codes sent to the host.
#[derive(Debug, Clone, Copy, PartialEq, Eq, Structural)]
pub enum CustomActions {
    /// Toggle the underglow lighting.
    Underglow,
    /// Restart into the firmware-update mode.
    Bootloader,
    /// Toggle the display.
    Display,
}

/// Virtual key reported for a step of the encoder to the left.
pub const ENCODER_LEFT: (u8, u8) = (3, 14);

/// Virtual key reported for a step of the encoder to the right.
pub const ENCODER_RIGHT: (u8, u8) = (4, 14);

/// Key that restarts the board into the firmware-update mode.
pub const BOOTLOADER_KEY: (u8, u8) = (2, 0);

/// The action of the board that `event` calls for: the press of a key
/// reserved for one, and nothing else.
pub open spec fn spec_custom_action(event: InputEvent) -> Option<CustomActions> {
    if event == InputEvent::Press(BOOTLOADER_KEY.0, BOOTLOADER_KEY.1) {
        Some(CustomActions::Bootloader)
    } else {
        None
    }
}

/// The action of the board that `event` calls for, if any.
#[verifier::when_used_as_spec(spec_custom_action)]
pub fn custom_action(event: InputEvent) -> (action: Option<CustomActions>)
    ensures
        action == spec_custom_action(event),
{
    match event {
        InputEvent::Press(row, column) => {
            if row == BOOTLOADER_KEY.0 && column == BOOTLOADER_KEY.1 {
                Some(CustomActions::Bootloader)
            } else {
                None
            }
        },
        InputEvent::Release(_, _) => None,
    }
}

} // verus!
