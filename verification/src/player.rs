//! Movement input of the player: the key snapshot its physics consumes.

use vstd::prelude::*;

verus! {

/// Movement key snapshot consumed by the player physics each tick.
#[derive(Clone, Copy, Debug, PartialEq, Eq, Structural)]
pub struct Input {
    /// Move forward (relative to yaw).
    pub forward: bool,
    /// Move backward.
    pub back: bool,
    /// Strafe left.
    pub left: bool,
    /// Strafe right.
    pub right: bool,
    /// Jump (or ascend while flying).
    pub jump: bool,
    /// Descend while flying.
    pub down: bool,
    /// Sprint modifier.
    pub sprint: bool,
    /// Attack held (left mouse); consumed by the game, ignored by physics.
    pub attack: bool,
}

/// The snapshot with nothing held.
pub open spec fn idle_input() -> Input {
    Input {
        forward: false,
        back: false,
        left: false,
        right: false,
        jump: false,
        down: false,
        sprint: false,
        attack: false,
    }
}

impl Default for Input {
    fn default() -> (r: Self)
        ensures
            r == idle_input(),
    {
        Input {
            forward: false,
            back: false,
            left: false,
            right: false,
            jump: false,
            down: false,
            sprint: false,
            attack: false,
        }
    }
}

} // verus!
