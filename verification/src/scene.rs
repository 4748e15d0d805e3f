//! Everything that is laid out once, before the first frame.

use crate::cell::Cell;
use crate::grid::Grid;
use crate::segment::{Segment, SegmentError};
use vstd::prelude::*;

verus! {

/// The fixed geometry of a session: the grid lines to draw and the cells
/// that partition the play area.
#[derive(Debug)]
pub struct Scene {
    /// The vertical grid lines, from the left.
    pub vertical: Vec<Segment>,
    /// The horizontal grid lines, from the bottom.
    pub horizontal: Vec<Segment>,
    /// The cells, column by column from the left, each column from the
    /// bottom row up.
    pub cells: Vec<Cell>,
}

/// Lays out the grid lines, drawn with the given stroke, and the cells of
/// `grid`.
///
/// Fails exactly when the stroke is not positive.
pub fn setup(grid: &Grid, stroke: i32) -> (made: Result<Scene, SegmentError>)
    requires
        grid.wf(),
    ensures
        match made {
            Ok(scene) => {
                &&& stroke > 0
                &&& grid.is_vertical_rule(scene.vertical@, stroke)
                &&& grid.is_horizontal_rule(scene.horizontal@, stroke)
                &&& grid.is_partition(scene.cells@)
            },
            Err(reason) => stroke <= 0 && reason == SegmentError::InvalidStroke,
        },
{
    let vertical = match grid.vertical_lines(stroke) {
        Ok(lines) => lines,
        Err(reason) => {
            return Err(reason);
        },
    };
    let horizontal = match grid.horizontal_lines(stroke) {
        Ok(lines) => lines,
        Err(reason) => {
            return Err(reason);
        },
    };
    let cells = grid.cells();
    Ok(Scene { vertical, horizontal, cells })
}

} // verus!
