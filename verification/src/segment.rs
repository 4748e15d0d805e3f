//! Line segments as centred, rotated rectangles.
//!
//! A segment between two integer points is described without rounding: its
//! centre is kept as the sum of the endpoints (twice the midpoint), its
//! rotation as the vector from start to end, and its length as the square of
//! the Euclidean distance. A host that draws the segment halves the first,
//! takes the two-argument arctangent of the second and the square root of
//! the third.

use vstd::prelude::*;

verus! {

/// Why a segment could not be built.
#[derive(Clone, Copy, Debug, PartialEq, Eq, Structural)]
pub enum SegmentError {
    /// Both endpoints are the same point, so the segment has no direction.
    ZeroLength,
    /// The stroke width is zero or negative.
    InvalidStroke,
}

/// An oriented rectangle that draws the line between two points.
#[derive(Clone, Copy, Debug, PartialEq, Eq, Structural)]
pub struct Segment {
    /// Twice the horizontal coordinate of the centre.
    pub center_x2: i64,
    /// Twice the vertical coordinate of the centre.
    pub center_y2: i64,
    /// Horizontal distance from start to end.
    pub run: i64,
    /// Vertical distance from start to end. The rotation of the rectangle is
    /// the angle of the vector `(run, rise)`.
    pub rise: i64,
    /// Square of the distance from start to end.
    pub length_squared: u128,
    /// Width of the rectangle across its direction.
    pub stroke: i32,
}

/// Square of the Euclidean distance between two points.
pub open spec fn distance_squared(start: (int, int), end: (int, int)) -> int {
    (end.0 - start.0) * (end.0 - start.0) + (end.1 - start.1) * (end.1 - start.1)
}

impl Segment {
    /// Whether this segment is the line from `start` to `end`: centred on
    /// their midpoint, pointing from the one to the other, and as long as
    /// they are apart.
    pub open spec fn joins(self, start: (int, int), end: (int, int)) -> bool {
        &&& self.center_x2 == start.0 + end.0
        &&& self.center_y2 == start.1 + end.1
        &&& self.run == end.0 - start.0
        &&& self.rise == end.1 - start.1
        &&& self.length_squared == distance_squared(start, end)
    }

    /// Builds the segment from `start` to `end` with the given stroke width.
    ///
    /// Fails when the two points coincide, and otherwise when the stroke is
    /// not positive.
    pub fn from_pts(start: (i32, i32), end: (i32, i32), stroke: i32) -> (built: Result<
        Segment,
        SegmentError,
    >)
        ensures
            match built {
                Ok(segment) => {
                    &&& start != end
                    &&& stroke > 0
                    &&& segment.joins(
                        (start.0 as int, start.1 as int),
                        (end.0 as int, end.1 as int),
                    )
                    &&& segment.stroke == stroke
                },
                Err(SegmentError::ZeroLength) => start == end,
                Err(SegmentError::InvalidStroke) => start != end && stroke <= 0,
            },
    {
        if start.0 == end.0 && start.1 == end.1 {
            return Err(SegmentError::ZeroLength);
        }
        if stroke <= 0 {
            return Err(SegmentError::InvalidStroke);
        }
        let run: i64 = end.0 as i64 - start.0 as i64;
        let rise: i64 = end.1 as i64 - start.1 as i64;
        let run_squared: u128 = square_of(run);
        let rise_squared: u128 = square_of(rise);
        Ok(
            Segment {
                center_x2: start.0 as i64 + end.0 as i64,
                center_y2: start.1 as i64 + end.1 as i64,
                run,
                rise,
                length_squared: run_squared + rise_squared,
                stroke,
            },
        )
    }

    /// The length rounded down to a whole number: the largest integer whose
    /// square does not exceed `length_squared`. It is the exact length
    /// whenever that is a whole number, as for every axis-aligned segment.
    pub fn length(&self) -> (whole: u64)
        ensures
            whole * whole <= self.length_squared < (whole + 1) * (whole + 1),
    {
        let target: u128 = self.length_squared;
        let mut low: u128 = 0;
        let mut high: u128 = 0x1_0000_0000_0000_0000;
        assert(target < high * high) by (nonlinear_arith)
            requires
                high == 0x1_0000_0000_0000_0000,
                target <= u128::MAX,
        ;
        while high - low > 1
            invariant
                low < high <= 0x1_0000_0000_0000_0000,
                low * low <= target < high * high,
            decreases high - low,
        {
            let middle: u128 = low + (high - low) / 2;
            assert(middle * middle < 0x1_0000_0000_0000_0000 * 0x1_0000_0000_0000_0000)
                by (nonlinear_arith)
                requires
                    0 <= middle < 0x1_0000_0000_0000_0000,
            ;
            if middle * middle <= target {
                low = middle;
            } else {
                high = middle;
            }
        }
        low as u64
    }
}

/// Squares a difference of two 32-bit coordinates.
fn square_of(delta: i64) -> (square: u128)
    requires
        -0x1_0000_0000 < delta < 0x1_0000_0000,
    ensures
        square == delta * delta,
        square < 0x1_0000_0000_0000_0000,
{
    let size: u64 = if delta < 0 {
        (-delta) as u64
    } else {
        delta as u64
    };
    assert(size * size < 0x1_0000_0000_0000_0000 && size * size == delta * delta)
        by (nonlinear_arith)
        requires
            size < 0x1_0000_0000,
            size == delta || size == -delta,
    ;
    size as u128 * size as u128
}

} // verus!
