//! Which non-pointer input device the player is currently using, keyboard or
//! gamepad, so on-screen keybind hints show the right glyphs. The remembered
//! device is a plain `bool` (`true` for the pad) that the frame loop keeps and
//! hands back each frame.
use vstd::prelude::*;

verus! {

/// The device remembered after a frame: the pad if it had a fresh edge, else
/// the keyboard if a key was pressed, else whatever was remembered before.
pub open spec fn next_device(gamepad: bool, key_pressed: bool, pad_pressed: bool) -> bool {
    if pad_pressed {
        true
    } else if key_pressed {
        false
    } else {
        gamepad
    }
}

/// The remembered device after a frame in which a key was (or was not) pressed
/// and the pad had (or had not) a fresh edge. Flips to whichever fired; leaves
/// it alone when neither did, so a held direction doesn't flip it back.
pub fn update(gamepad: bool, key_pressed: bool, pad_pressed: bool) -> (now: bool)
    ensures
        now == next_device(gamepad, key_pressed, pad_pressed),
{
    if pad_pressed {
        true
    } else if key_pressed {
        false
    } else {
        gamepad
    }
}

/// Pick the keyboard or gamepad phrasing of a hint, whichever fits the device
/// last used.
pub fn hint<'a>(gamepad: bool, keyboard: &'a str, pad: &'a str) -> (s: &'a str)
    ensures
        s == (if gamepad { pad } else { keyboard }),
{
    if gamepad {
        pad
    } else {
        keyboard
    }
}

} // verus!
