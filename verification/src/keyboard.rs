//! What the window reports of the number keys.

use vstd::prelude::*;

verus! {

/// What happened to key `1` during a frame.
#[derive(Clone, Copy, Debug, PartialEq, Eq, Structural)]
pub enum KeyOneReport {
    Pressed,
    Released,
    Quiet,
}

/// What to report of the number keys `1`, `2` and `3` this frame: whether
/// any of them was just pressed, and whether key `1` was just pressed, else
/// just released.
pub fn listen_keys(
    key1_just_pressed: bool,
    key2_just_pressed: bool,
    key3_just_pressed: bool,
    key1_just_released: bool,
) -> (report: (bool, KeyOneReport))
    ensures
        report.0 == (key1_just_pressed || key2_just_pressed || key3_just_pressed),
        report.1 == (if key1_just_pressed {
            KeyOneReport::Pressed
        } else if key1_just_released {
            KeyOneReport::Released
        } else {
            KeyOneReport::Quiet
        }),
{
    let toggle_minimize = key1_just_pressed;
    let toggle_maximize = key2_just_pressed;
    let toggle_close = key3_just_pressed;
    let any = toggle_minimize || toggle_maximize || toggle_close;
    let one = if key1_just_pressed {
        KeyOneReport::Pressed
    } else if key1_just_released {
        KeyOneReport::Released
    } else {
        KeyOneReport::Quiet
    };
    (any, one)
}

} // verus!
