//! Square cells of a uniform grid and their point-containment test.

use vstd::prelude::*;

verus! {

/// A square region of the grid, identified by its centre.
///
/// The region is half-open: it holds its left and bottom edges but not its
/// right and top edges, so that neighbouring cells never share a point.
#[derive(Clone, Copy, Debug, PartialEq, Eq, Structural)]
pub struct Cell {
    /// Horizontal coordinate of the centre.
    pub x: i32,
    /// Vertical coordinate of the centre.
    pub y: i32,
    /// Half the length of a side.
    pub half: i32,
}

impl Cell {
    /// Whether the point `(px, py)` lies in the half-open square of this cell.
    pub open spec fn covers(self, px: int, py: int) -> bool {
        &&& self.x - self.half <= px < self.x + self.half
        &&& self.y - self.half <= py < self.y + self.half
    }

    /// Tests whether `point` lies inside this cell.
    pub fn contains(&self, point: (i32, i32)) -> (inside: bool)
        ensures
            inside == self.covers(point.0 as int, point.1 as int),
    {
        let half: i64 = self.half as i64;
        let px: i64 = point.0 as i64;
        let py: i64 = point.1 as i64;
        let left_edge: i64 = self.x as i64 - half;
        let right_edge: i64 = self.x as i64 + half;
        let bottom_edge: i64 = self.y as i64 - half;
        let top_edge: i64 = self.y as i64 + half;
        (px >= left_edge && px < right_edge) && (py >= bottom_edge && py < top_edge)
    }
}

} // verus!
