//! The values that client and server exchange: a player's position and
//! heading, and the input a client sends each tick.

use vstd::prelude::*;

verus! {

/// A player's cell and heading. `z` is the heading in degrees,
/// counter-clockwise from the `+x` axis.
#[derive(Clone, Copy, Debug, PartialEq, Eq, Structural)]
pub struct PlayerPosition {
    pub x: i32,
    pub y: i32,
    pub z: i32,
}

/// The four headings a player can face.
pub open spec fn is_heading(z: int) -> bool {
    z == 0 || z == 90 || z == 180 || z == 270
}

/// The `x` part of one step along heading `z`: `cos(z)` rounded.
pub open spec fn step_x(z: int) -> int {
    if z == 0 {
        1
    } else if z == 180 {
        -1
    } else {
        0
    }
}

/// The `y` part of one step along heading `z`: `sin(z)` rounded.
pub open spec fn step_y(z: int) -> int {
    if z == 90 {
        1
    } else if z == 270 {
        -1
    } else {
        0
    }
}

/// Which movement keys were released this tick.
#[derive(Clone, Copy, Debug, PartialEq, Eq, Structural)]
pub struct Direction {
    pub up: bool,
    pub down: bool,
    pub left: bool,
    pub right: bool,
}

impl Direction {
    /// Whether no movement key was released.
    pub fn is_none(&self) -> (b: bool)
        ensures
            b == (!self.up && !self.down && !self.left && !self.right),
    {
        !self.up && !self.down && !self.left && !self.right
    }
}

/// The input a client sends for one tick.
#[derive(Clone, Copy, Debug, PartialEq, Eq, Structural)]
pub enum Inputs {
    /// Move and turn.
    Direction(Direction),
    /// Fire: the shot that removes the players it hits.
    Delete,
    /// The fire key is held: only drawn on the client.
    Spawn,
    /// Nothing this tick.
    NoInput,
}

} // verus!
