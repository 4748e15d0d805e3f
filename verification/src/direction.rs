//! The eight compass directions and the angle that stands for each.

use vstd::prelude::*;

verus! {

/// A compass direction.
#[derive(Clone, Copy, Debug, PartialEq, Eq, Structural)]
pub enum Direction {
    N,
    NW,
    W,
    SW,
    S,
    SE,
    E,
    NE,
}

impl Direction {
    /// The angle of the direction in whole degrees.
    pub open spec fn degrees(self) -> int {
        match self {
            Direction::N => 90,
            Direction::NW => 45,
            Direction::W => 0,
            Direction::SW => 315,
            Direction::S => 270,
            Direction::SE => 225,
            Direction::E => 180,
            Direction::NE => 135,
        }
    }

    /// The angle of the direction in whole degrees, less than a full turn.
    pub fn to_degrees(&self) -> (angle: u16)
        ensures
            angle == self.degrees(),
            angle < 360,
    {
        match self {
            Direction::N => 90,
            Direction::NW => 45,
            Direction::W => 0,
            Direction::SW => 315,
            Direction::S => 270,
            Direction::SE => 225,
            Direction::E => 180,
            Direction::NE => 135,
        }
    }
}

} // verus!
