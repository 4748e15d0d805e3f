//! What the agent is asked to do in one frame.
//!
//! The host reads the keys and the clock, asks here how far to turn and to
//! travel, and applies both to the pose it draws: the turn first, then the
//! travel along the heading that the turn has given.

use vstd::prelude::*;

verus! {

/// The four intents of one frame, each independent of the others.
#[derive(Clone, Copy, Debug, PartialEq, Eq, Structural)]
pub struct Controls {
    /// Move along the heading.
    pub forward: bool,
    /// Move against the heading.
    pub backward: bool,
    /// Turn counter-clockwise.
    pub turn_left: bool,
    /// Turn clockwise.
    pub turn_right: bool,
}

/// Two opposite intents as one factor: `1` for the first alone, `-1` for the
/// second alone, `0` where both or neither are given.
pub open spec fn net(positive: bool, negative: bool) -> int {
    (if positive {
        1int
    } else {
        0int
    }) - (if negative {
        1int
    } else {
        0int
    })
}

impl Controls {
    /// Net rotation factor: left counts `1`, right counts `-1`.
    pub open spec fn rotation(self) -> int {
        net(self.turn_left, self.turn_right)
    }

    /// Net movement factor: forward counts `1`, backward counts `-1`.
    pub open spec fn movement(self) -> int {
        net(self.forward, self.backward)
    }

    /// Net rotation factor of this frame.
    pub fn rotation_intent(&self) -> (factor: i8)
        ensures
            factor == self.rotation(),
    {
        let mut factor: i8 = 0;
        if self.turn_left {
            factor = factor + 1;
        }
        if self.turn_right {
            factor = factor - 1;
        }
        factor
    }

    /// Net movement factor of this frame.
    pub fn movement_intent(&self) -> (factor: i8)
        ensures
            factor == self.movement(),
    {
        let mut factor: i8 = 0;
        if self.forward {
            factor = factor + 1;
        }
        if self.backward {
            factor = factor - 1;
        }
        factor
    }
}

/// The agent's speeds, per unit of time.
#[derive(Clone, Copy, Debug, PartialEq, Eq, Structural)]
pub struct Ant {
    /// Distance travelled per unit of time.
    pub movement_speed: i32,
    /// Angle turned per unit of time.
    pub rotation_speed: i32,
}

/// How far the agent turns and travels in one frame. The turn is applied
/// first; the travel follows the heading after the turn.
#[derive(Clone, Copy, Debug, PartialEq, Eq, Structural)]
pub struct Step {
    /// Angle to add to the heading: speed times elapsed time, signed by the
    /// rotation factor.
    pub turn: i64,
    /// Distance to move along the new heading: speed times elapsed time,
    /// signed by the movement factor.
    pub travel: i64,
}

impl Ant {
    /// The step of a frame that lasted `elapsed` units of time under the
    /// given controls.
    pub fn move_ant(&self, controls: Controls, elapsed: u32) -> (step: Step)
        ensures
            step.turn == controls.rotation() * self.rotation_speed * elapsed,
            step.travel == controls.movement() * self.movement_speed * elapsed,
    {
        Step {
            turn: scaled(controls.rotation_intent(), self.rotation_speed, elapsed),
            travel: scaled(controls.movement_intent(), self.movement_speed, elapsed),
        }
    }
}

/// A speed over a time, signed by a factor.
fn scaled(factor: i8, speed: i32, elapsed: u32) -> (amount: i64)
    requires
        -1 <= factor <= 1,
    ensures
        amount == factor * speed * elapsed,
{
    let rate: i64 = if factor > 0 {
        speed as i64
    } else if factor < 0 {
        -(speed as i64)
    } else {
        0
    };
    assert(rate == factor * speed) by (nonlinear_arith)
        requires
            (factor == 1 && rate == speed) || (factor == -1 && rate == -speed) || (factor == 0
                && rate == 0),
    ;
    assert(-0x7fff_ffff_8000_0000 <= rate * elapsed <= 0x7fff_ffff_8000_0000
        && rate * elapsed == factor * speed * elapsed) by (nonlinear_arith)
        requires
            -0x8000_0000 <= rate <= 0x8000_0000,
            rate == factor * speed,
            0 <= elapsed <= 0xffff_ffff,
    ;
    rate * elapsed as i64
}

} // verus!
