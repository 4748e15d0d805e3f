//! The play area, its uniform partition into cells, and its grid lines.

use crate::cell::Cell;
use crate::segment::{Segment, SegmentError};
use vstd::arithmetic::div_mod::{lemma_fundamental_div_mod, lemma_mod_bound};
use vstd::arithmetic::mul::{lemma_mul_inequality, lemma_mul_is_distributive_add_other_way};
use vstd::prelude::*;

verus! {

/// Why a grid could not be laid out.
#[derive(Clone, Copy, Debug, PartialEq, Eq, Structural)]
pub enum GridError {
    /// The play area has no width or no height.
    EmptyArea,
    /// The spacing is zero or negative.
    InvalidSpacing,
    /// The spacing is odd, so cell centres would fall between coordinates.
    OddSpacing,
}

/// A rectangular play area `[left, right] x [bottom, top]` divided at a fixed
/// spacing.
#[derive(Clone, Copy, Debug)]
pub struct Grid {
    left: i32,
    right: i32,
    bottom: i32,
    top: i32,
    spacing: i32,
}

/// Along one axis, the slot of width `side` that holds `offset` is the
/// quotient of the two.
proof fn lemma_slot(offset: int, side: int, slot: int)
    requires
        side > 0,
    ensures
        (slot * side <= offset < (slot + 1) * side) <==> offset / side == slot,
{
    let quotient = offset / side;
    lemma_fundamental_div_mod(offset, side);
    lemma_mod_bound(offset, side);
    assert(side * quotient == quotient * side) by (nonlinear_arith);
    lemma_mul_is_distributive_add_other_way(side, quotient, 1);
    lemma_mul_is_distributive_add_other_way(side, slot, 1);
    assert(quotient * side <= offset < (quotient + 1) * side);
    if slot * side <= offset < (slot + 1) * side {
        if quotient < slot {
            lemma_mul_inequality(quotient + 1, slot, side);
        }
        if slot < quotient {
            lemma_mul_inequality(slot + 1, quotient, side);
        }
    }
}

/// Whole slots of width `side` never reach past the extent they were counted
/// in.
proof fn lemma_slots_fit(extent: int, side: int, slot: int)
    requires
        side > 0,
        0 <= slot < extent / side,
    ensures
        0 <= slot * side,
        (slot + 1) * side <= extent,
        (slot + 1) * side == slot * side + side,
{
    lemma_slot(extent, side, extent / side);
    lemma_mul_inequality(slot + 1, extent / side, side);
    lemma_mul_inequality(0, slot, side);
    lemma_mul_is_distributive_add_other_way(side, slot, 1);
}

impl Grid {
    /// Left edge of the play area.
    pub closed spec fn spec_left(&self) -> i32 {
        self.left
    }

    /// Right edge of the play area.
    pub closed spec fn spec_right(&self) -> i32 {
        self.right
    }

    /// Bottom edge of the play area.
    pub closed spec fn spec_bottom(&self) -> i32 {
        self.bottom
    }

    /// Top edge of the play area.
    pub closed spec fn spec_top(&self) -> i32 {
        self.top
    }

    /// Distance between neighbouring grid lines, and the side of a cell.
    pub closed spec fn spec_spacing(&self) -> i32 {
        self.spacing
    }

    /// The area is not empty and the spacing is positive and even.
    pub open spec fn wf(&self) -> bool {
        &&& self.left() < self.right()
        &&& self.bottom() < self.top()
        &&& self.spacing() > 0
        &&& self.spacing() % 2 == 0
    }

    /// Extent of the play area from left to right.
    pub open spec fn width(&self) -> int {
        self.right() - self.left()
    }

    /// Extent of the play area from bottom to top.
    pub open spec fn height(&self) -> int {
        self.top() - self.bottom()
    }

    /// Half the side of a cell.
    pub open spec fn half(&self) -> int {
        self.spacing() / 2
    }

    /// Number of cells side by side: the whole spacings that fit the width.
    pub open spec fn columns(&self) -> int {
        self.width() / (self.spacing() as int)
    }

    /// Number of cells above one another: the whole spacings that fit the
    /// height.
    pub open spec fn rows(&self) -> int {
        self.height() / (self.spacing() as int)
    }

    /// Whether `(column, row)` names a cell of this grid.
    pub open spec fn in_range(&self, column: int, row: int) -> bool {
        0 <= column < self.columns() && 0 <= row < self.rows()
    }

    /// The cell in the given column and row, counted from the bottom left
    /// corner of the play area.
    pub open spec fn cell(&self, column: int, row: int) -> Cell {
        Cell {
            x: (self.left() + column * self.spacing() + self.half()) as i32,
            y: (self.bottom() + row * self.spacing() + self.half()) as i32,
            half: self.half() as i32,
        }
    }

    /// Whether `cell` is one of the cells of this grid.
    pub open spec fn has_cell(&self, cell: Cell) -> bool {
        exists|column: int, row: int|
            self.in_range(column, row) && cell == #[trigger] self.cell(column, row)
    }

    /// Whether the point lies in the part of the play area that the cells
    /// tile: from the left and bottom edges up to, and without, the far side
    /// of the last whole column and row.
    pub open spec fn tiled(&self, px: int, py: int) -> bool {
        &&& self.left() <= px < self.left() + self.columns() * self.spacing()
        &&& self.bottom() <= py < self.bottom() + self.rows() * self.spacing()
    }

    /// The cell that the closed-form lookup assigns to a point, if any.
    pub open spec fn cell_of(&self, px: int, py: int) -> Option<Cell> {
        if self.tiled(px, py) {
            Some(
                self.cell(
                    (px - self.left()) / (self.spacing() as int),
                    (py - self.bottom()) / (self.spacing() as int),
                ),
            )
        } else {
            None
        }
    }

    /// Lays out a grid over `[left, right] x [bottom, top]`.
    ///
    /// An area without width or height is refused first, then a spacing that
    /// is not positive, then one that is odd.
    pub fn new(left: i32, right: i32, bottom: i32, top: i32, spacing: i32) -> (made: Result<
        Grid,
        GridError,
    >)
        ensures
            match made {
                Ok(grid) => {
                    &&& grid.wf()
                    &&& grid.left() == left
                    &&& grid.right() == right
                    &&& grid.bottom() == bottom
                    &&& grid.top() == top
                    &&& grid.spacing() == spacing
                },
                Err(GridError::EmptyArea) => left >= right || bottom >= top,
                Err(GridError::InvalidSpacing) => left < right && bottom < top && spacing <= 0,
                Err(GridError::OddSpacing) => {
                    left < right && bottom < top && spacing > 0 && spacing % 2 != 0
                },
            },
    {
        if left >= right || bottom >= top {
            Err(GridError::EmptyArea)
        } else if spacing <= 0 {
            Err(GridError::InvalidSpacing)
        } else if spacing % 2 != 0 {
            Err(GridError::OddSpacing)
        } else {
            Ok(Grid { left, right, bottom, top, spacing })
        }
    }

    /// Left edge of the play area.
    #[verifier::when_used_as_spec(spec_left)]
    pub fn left(&self) -> (edge: i32)
        ensures
            edge == self.spec_left(),
    {
        self.left
    }

    /// Right edge of the play area.
    #[verifier::when_used_as_spec(spec_right)]
    pub fn right(&self) -> (edge: i32)
        ensures
            edge == self.spec_right(),
    {
        self.right
    }

    /// Bottom edge of the play area.
    #[verifier::when_used_as_spec(spec_bottom)]
    pub fn bottom(&self) -> (edge: i32)
        ensures
            edge == self.spec_bottom(),
    {
        self.bottom
    }

    /// Top edge of the play area.
    #[verifier::when_used_as_spec(spec_top)]
    pub fn top(&self) -> (edge: i32)
        ensures
            edge == self.spec_top(),
    {
        self.top
    }

    /// Distance between neighbouring grid lines.
    #[verifier::when_used_as_spec(spec_spacing)]
    pub fn spacing(&self) -> (side: i32)
        ensures
            side == self.spec_spacing(),
    {
        self.spacing
    }

    /// Number of columns of cells.
    pub fn column_count(&self) -> (count: u32)
        requires
            self.wf(),
        ensures
            count == self.columns(),
    {
        let width: i64 = self.right as i64 - self.left as i64;
        proof {
            lemma_slot(width as int, self.spacing as int, self.columns());
            lemma_mul_inequality(1, self.spacing as int, self.columns());
        }
        (width / self.spacing as i64) as u32
    }

    /// Number of rows of cells.
    pub fn row_count(&self) -> (count: u32)
        requires
            self.wf(),
        ensures
            count == self.rows(),
    {
        let height: i64 = self.top as i64 - self.bottom as i64;
        proof {
            lemma_slot(height as int, self.spacing as int, self.rows());
            lemma_mul_inequality(1, self.spacing as int, self.rows());
        }
        (height / self.spacing as i64) as u32
    }

    /// The span of a cell of this grid: it reaches from its grid line to the
    /// next one on both axes, inside the play area.
    pub proof fn lemma_cell_span(&self, column: int, row: int)
        requires
            self.wf(),
            self.in_range(column, row),
        ensures
            self.cell(column, row).x - self.half() == self.left() + column * self.spacing(),
            self.cell(column, row).x + self.half() == self.left() + (column + 1) * self.spacing(),
            self.cell(column, row).y - self.half() == self.bottom() + row * self.spacing(),
            self.cell(column, row).y + self.half() == self.bottom() + (row + 1) * self.spacing(),
            self.cell(column, row).half == self.half(),
            self.left() + (column + 1) * self.spacing() <= self.right(),
            self.bottom() + (row + 1) * self.spacing() <= self.top(),
            0 <= column * self.spacing(),
            0 <= row * self.spacing(),
    {
        lemma_slots_fit(self.width(), self.spacing() as int, column);
        lemma_slots_fit(self.height(), self.spacing() as int, row);
    }

    /// The cell in the given column and row, if the grid has one there.
    pub fn cell_at(&self, column: u32, row: u32) -> (found: Option<Cell>)
        requires
            self.wf(),
        ensures
            found == if self.in_range(column as int, row as int) {
                Some(self.cell(column as int, row as int))
            } else {
                None
            },
    {
        if column >= self.column_count() || row >= self.row_count() {
            return None;
        }
        Some(self.cell_in_range(column, row))
    }

    /// The cell in a column and row that the grid has.
    fn cell_in_range(&self, column: u32, row: u32) -> (cell: Cell)
        requires
            self.wf(),
            self.in_range(column as int, row as int),
        ensures
            cell == self.cell(column as int, row as int),
    {
        proof {
            self.lemma_cell_span(column as int, row as int);
        }
        let half: i64 = (self.spacing / 2) as i64;
        let x: i64 = self.left as i64 + column as i64 * self.spacing as i64 + half;
        let y: i64 = self.bottom as i64 + row as i64 * self.spacing as i64 + half;
        Cell { x: x as i32, y: y as i32, half: half as i32 }
    }

    /// Which points a cell of this grid holds: exactly those of the tiled
    /// part whose offsets from the left and bottom edges, divided by the
    /// spacing, give its column and row.
    pub proof fn lemma_cell_covers(&self, column: int, row: int, px: int, py: int)
        requires
            self.wf(),
            self.in_range(column, row),
        ensures
            self.cell(column, row).covers(px, py) <==> {
                &&& self.tiled(px, py)
                &&& (px - self.left()) / (self.spacing() as int) == column
                &&& (py - self.bottom()) / (self.spacing() as int) == row
            },
    {
        let side = self.spacing() as int;
        self.lemma_cell_span(column, row);
        lemma_slot(px - self.left(), side, column);
        lemma_slot(py - self.bottom(), side, row);
        lemma_mul_inequality(column + 1, self.columns(), side);
        lemma_mul_inequality(row + 1, self.rows(), side);
    }

    /// A point of the tiled part falls in a column and a row of the grid.
    pub proof fn lemma_tiled_in_range(&self, px: int, py: int)
        requires
            self.wf(),
            self.tiled(px, py),
        ensures
            self.in_range(
                (px - self.left()) / (self.spacing() as int),
                (py - self.bottom()) / (self.spacing() as int),
            ),
    {
        let side = self.spacing() as int;
        let column = (px - self.left()) / side;
        let row = (py - self.bottom()) / side;
        lemma_slot(px - self.left(), side, column);
        lemma_slot(py - self.bottom(), side, row);
        if column < 0 {
            lemma_mul_inequality(column + 1, 0, side);
        }
        if row < 0 {
            lemma_mul_inequality(row + 1, 0, side);
        }
        if column >= self.columns() {
            lemma_mul_inequality(self.columns(), column, side);
        }
        if row >= self.rows() {
            lemma_mul_inequality(self.rows(), row, side);
        }
    }

    /// The closed-form lookup and the containment test agree: a cell of the
    /// grid holds a point exactly when the lookup names that cell.
    pub proof fn lemma_lookup_matches_containment(&self, px: int, py: int)
        requires
            self.wf(),
        ensures
            forall|cell: Cell|
                #![trigger self.has_cell(cell)]
                #![trigger cell.covers(px, py)]
                (self.has_cell(cell) && cell.covers(px, py)) <==> self.cell_of(px, py) == Some(
                    cell,
                ),
    {
        assert forall|cell: Cell|
            #![trigger self.has_cell(cell)]
            #![trigger cell.covers(px, py)]
            (self.has_cell(cell) && cell.covers(px, py)) <==> self.cell_of(px, py) == Some(
                cell,
            ) by {
            if self.has_cell(cell) && cell.covers(px, py) {
                let (column, row) = choose|column: int, row: int|
                    self.in_range(column, row) && cell == #[trigger] self.cell(column, row);
                self.lemma_cell_covers(column, row, px, py);
            }
            if self.cell_of(px, py) == Some(cell) {
                let column = (px - self.left()) / (self.spacing() as int);
                let row = (py - self.bottom()) / (self.spacing() as int);
                self.lemma_tiled_in_range(px, py);
                self.lemma_cell_covers(column, row, px, py);
                assert(cell == self.cell(column, row));
            }
        }
    }

    /// Every point of the tiled part of the play area lies in exactly one
    /// cell; a point outside it lies in none.
    pub proof fn lemma_tiling(&self, px: int, py: int)
        requires
            self.wf(),
        ensures
            self.tiled(px, py) ==> exists|cell: Cell|
                #[trigger] self.has_cell(cell) && cell.covers(px, py),
            !self.tiled(px, py) ==> forall|cell: Cell| #[trigger]
                self.has_cell(cell) ==> !cell.covers(px, py),
            forall|first: Cell, second: Cell|
                #![trigger self.has_cell(first), self.has_cell(second)]
                self.has_cell(first) && first.covers(px, py) && self.has_cell(second)
                    && second.covers(px, py) ==> first == second,
    {
        self.lemma_lookup_matches_containment(px, py);
        if self.tiled(px, py) {
            let found = self.cell_of(px, py).unwrap();
            assert(self.has_cell(found) && found.covers(px, py));
        }
    }

    /// A point on the line between two neighbouring columns belongs to the
    /// column on its right, whose left edge it is; likewise a point on the
    /// line between two rows belongs to the upper one.
    pub proof fn lemma_shared_edge(&self, column: int, row: int)
        requires
            self.wf(),
            self.in_range(column, row),
        ensures
            self.cell(column, row).covers(
                self.left() + column * self.spacing(),
                self.bottom() + row * self.spacing(),
            ),
            self.in_range(column - 1, row) ==> !self.cell(column - 1, row).covers(
                self.left() + column * self.spacing(),
                self.bottom() + row * self.spacing(),
            ),
            self.in_range(column, row - 1) ==> !self.cell(column, row - 1).covers(
                self.left() + column * self.spacing(),
                self.bottom() + row * self.spacing(),
            ),
    {
        self.lemma_cell_span(column, row);
        if self.in_range(column - 1, row) {
            self.lemma_cell_span(column - 1, row);
        }
        if self.in_range(column, row - 1) {
            self.lemma_cell_span(column, row - 1);
        }
    }

    /// Finds the cell that holds `point` by dividing its offsets from the
    /// left and bottom edges by the spacing.
    ///
    /// The answer is the one cell of the grid whose containment test accepts
    /// the point, or `None` where no cell does.
    pub fn locate(&self, point: (i32, i32)) -> (found: Option<Cell>)
        requires
            self.wf(),
        ensures
            found == self.cell_of(point.0 as int, point.1 as int),
            forall|cell: Cell|
                #![trigger self.has_cell(cell)]
                #![trigger cell.covers(point.0 as int, point.1 as int)]
                (self.has_cell(cell) && cell.covers(point.0 as int, point.1 as int)) <==> found
                    == Some(cell),
    {
        proof {
            self.lemma_lookup_matches_containment(point.0 as int, point.1 as int);
            if self.tiled(point.0 as int, point.1 as int) {
                self.lemma_tiled_in_range(point.0 as int, point.1 as int);
            }
        }
        let across: i64 = point.0 as i64 - self.left as i64;
        let up: i64 = point.1 as i64 - self.bottom as i64;
        if across < 0 || up < 0 {
            return None;
        }
        let column: i64 = across / self.spacing as i64;
        let row: i64 = up / self.spacing as i64;
        if column >= self.column_count() as i64 || row >= self.row_count() as i64 {
            return None;
        }
        proof {
            self.lemma_cell_covers(column as int, row as int, point.0 as int, point.1 as int);
            lemma_slot(across as int, self.spacing as int, column as int);
            lemma_slot(up as int, self.spacing as int, row as int);
            lemma_mul_inequality(column + 1, self.columns(), self.spacing as int);
            lemma_mul_inequality(row + 1, self.rows(), self.spacing as int);
        }
        self.cell_at(column as u32, row as u32)
    }

    /// Position of a cell in the list that `cells` returns: column by
    /// column, each from the bottom row up.
    pub open spec fn position(&self, column: int, row: int) -> int {
        column * self.rows() + row
    }

    /// Cells are listed without gaps: positions grow with the column, and
    /// within a column with the row, and stay below the number of cells.
    pub proof fn lemma_positions(&self, column: int, row: int)
        requires
            self.wf(),
            self.in_range(column, row),
        ensures
            0 <= column * self.rows() <= self.position(column, row) < (column + 1) * self.rows()
                <= self.columns() * self.rows(),
            (column + 1) * self.rows() == column * self.rows() + self.rows(),
    {
        lemma_mul_inequality(0, column, self.rows());
        lemma_mul_inequality(column + 1, self.columns(), self.rows());
        lemma_mul_is_distributive_add_other_way(self.rows(), column, 1);
    }

    /// Whether `cells` lists every cell of the grid once, each at its
    /// position.
    pub open spec fn is_partition(&self, cells: Seq<Cell>) -> bool {
        &&& cells.len() == self.columns() * self.rows()
        &&& forall|column: int, row: int|
            self.in_range(column, row) ==> cells[self.position(column, row)]
                == #[trigger] self.cell(column, row)
    }

    /// All cells of the grid, column by column from the left, each column
    /// from the bottom row up.
    pub fn cells(&self) -> (all: Vec<Cell>)
        requires
            self.wf(),
        ensures
            self.is_partition(all@),
    {
        let columns: u32 = self.column_count();
        let rows: u32 = self.row_count();
        let mut all: Vec<Cell> = Vec::new();
        let mut column: u32 = 0;
        while column < columns
            invariant
                self.wf(),
                columns == self.columns(),
                rows == self.rows(),
                column <= columns,
                all@.len() == column * rows,
                forall|c: int, r: int|
                    0 <= c < column && 0 <= r < rows ==> all@[self.position(c, r)]
                        == #[trigger] self.cell(c, r),
            decreases columns - column,
        {
            let mut row: u32 = 0;
            while row < rows
                invariant
                    self.wf(),
                    columns == self.columns(),
                    rows == self.rows(),
                    column < columns,
                    row <= rows,
                    all@.len() == column * rows + row,
                    forall|c: int, r: int|
                        0 <= c < column && 0 <= r < rows ==> all@[self.position(c, r)]
                            == #[trigger] self.cell(c, r),
                    forall|r: int|
                        0 <= r < row ==> all@[self.position(column as int, r)]
                            == #[trigger] self.cell(column as int, r),
                decreases rows - row,
            {
                let ghost before = all@;
                all.push(self.cell_in_range(column, row));
                proof {
                    assert forall|c: int, r: int| 0 <= c < column && 0 <= r < rows implies all@[self.position(
                        c,
                        r,
                    )] == #[trigger] self.cell(c, r) by {
                        self.lemma_positions(c, r);
                        lemma_mul_inequality(c + 1, column as int, rows as int);
                        assert(before[self.position(c, r)] == self.cell(c, r));
                    }
                    assert forall|r: int| 0 <= r < row + 1 implies all@[self.position(
                        column as int,
                        r,
                    )] == #[trigger] self.cell(column as int, r) by {
                        if r < row {
                            assert(before[self.position(column as int, r)] == self.cell(
                                column as int,
                                r,
                            ));
                        }
                    }
                }
                row = row + 1;
            }
            proof {
                lemma_mul_is_distributive_add_other_way(rows as int, column as int, 1);
            }
            column = column + 1;
        }
        all
    }

    /// Horizontal coordinate of the vertical grid line with the given number,
    /// counted from the left edge.
    pub open spec fn vertical_at(&self, number: int) -> int {
        self.left() + number * self.spacing()
    }

    /// Vertical coordinate of the horizontal grid line with the given number,
    /// counted from the bottom edge.
    pub open spec fn horizontal_at(&self, number: int) -> int {
        self.bottom() + number * self.spacing()
    }

    /// Whether `line` is the vertical grid line with the given number: it
    /// runs from the top edge down to the bottom edge.
    pub open spec fn is_vertical_line(&self, line: Segment, number: int, stroke: i32) -> bool {
        &&& line.joins(
            (self.vertical_at(number), self.top() as int),
            (self.vertical_at(number), self.bottom() as int),
        )
        &&& line.stroke == stroke
    }

    /// Whether `line` is the horizontal grid line with the given number: it
    /// runs from the left edge to the right edge.
    pub open spec fn is_horizontal_line(&self, line: Segment, number: int, stroke: i32) -> bool {
        &&& line.joins(
            (self.left() as int, self.horizontal_at(number)),
            (self.right() as int, self.horizontal_at(number)),
        )
        &&& line.stroke == stroke
    }

    /// Whether `lines` are the vertical grid lines from the left: one for
    /// every multiple of the spacing that, added to the left edge, stays left
    /// of the right edge, and no more.
    pub open spec fn is_vertical_rule(&self, lines: Seq<Segment>, stroke: i32) -> bool {
        &&& forall|number: int|
            0 <= number ==> (number < lines.len() <==> #[trigger] self.vertical_at(number)
                < self.right())
        &&& forall|number: int|
            0 <= number < lines.len() ==> self.is_vertical_line(
                #[trigger] lines[number],
                number,
                stroke,
            )
    }

    /// Whether `lines` are the horizontal grid lines from the bottom: one for
    /// every multiple of the spacing that, added to the bottom edge, stays
    /// below the top edge, and no more.
    pub open spec fn is_horizontal_rule(&self, lines: Seq<Segment>, stroke: i32) -> bool {
        &&& forall|number: int|
            0 <= number ==> (number < lines.len() <==> #[trigger] self.horizontal_at(number)
                < self.top())
        &&& forall|number: int|
            0 <= number < lines.len() ==> self.is_horizontal_line(
                #[trigger] lines[number],
                number,
                stroke,
            )
    }

    /// The vertical grid lines from the left: one at the left edge and one
    /// at every further spacing that lies left of the right edge.
    ///
    /// Fails exactly when the stroke is not positive.
    pub fn vertical_lines(&self, stroke: i32) -> (made: Result<Vec<Segment>, SegmentError>)
        requires
            self.wf(),
        ensures
            match made {
                Ok(lines) => stroke > 0 && self.is_vertical_rule(lines@, stroke),
                Err(reason) => stroke <= 0 && reason == SegmentError::InvalidStroke,
            },
    {
        if stroke <= 0 {
            return Err(SegmentError::InvalidStroke);
        }
        let mut lines: Vec<Segment> = Vec::new();
        let mut x: i64 = self.left as i64;
        while x < self.right as i64
            invariant
                self.wf(),
                stroke > 0,
                x == self.vertical_at(lines@.len() as int),
                self.left() <= x,
                forall|number: int|
                    0 <= number < lines@.len() ==> #[trigger] self.vertical_at(number)
                        < self.right(),
                forall|number: int|
                    0 <= number < lines@.len() ==> self.is_vertical_line(
                        #[trigger] lines@[number],
                        number,
                        stroke,
                    ),
            decreases self.right + self.spacing - x,
        {
            let built = Segment::from_pts((x as i32, self.top), (x as i32, self.bottom), stroke);
            match built {
                Ok(line) => {
                    lines.push(line);
                },
                Err(reason) => {
                    return Err(reason);
                },
            }
            proof {
                lemma_mul_is_distributive_add_other_way(
                    self.spacing as int,
                    lines@.len() - 1,
                    1,
                );
            }
            x = x + self.spacing as i64;
        }
        proof {
            assert forall|number: int| 0 <= number && #[trigger] self.vertical_at(number)
                < self.right() implies number < lines@.len() by {
                if number >= lines@.len() {
                    lemma_mul_inequality(lines@.len() as int, number, self.spacing as int);
                }
            }
        }
        Ok(lines)
    }

    /// The horizontal grid lines from the bottom: one at the bottom edge and
    /// one at every further spacing that lies below the top edge.
    ///
    /// Fails exactly when the stroke is not positive.
    pub fn horizontal_lines(&self, stroke: i32) -> (made: Result<Vec<Segment>, SegmentError>)
        requires
            self.wf(),
        ensures
            match made {
                Ok(lines) => stroke > 0 && self.is_horizontal_rule(lines@, stroke),
                Err(reason) => stroke <= 0 && reason == SegmentError::InvalidStroke,
            },
    {
        if stroke <= 0 {
            return Err(SegmentError::InvalidStroke);
        }
        let mut lines: Vec<Segment> = Vec::new();
        let mut y: i64 = self.bottom as i64;
        while y < self.top as i64
            invariant
                self.wf(),
                stroke > 0,
                y == self.horizontal_at(lines@.len() as int),
                self.bottom() <= y,
                forall|number: int|
                    0 <= number < lines@.len() ==> #[trigger] self.horizontal_at(number)
                        < self.top(),
                forall|number: int|
                    0 <= number < lines@.len() ==> self.is_horizontal_line(
                        #[trigger] lines@[number],
                        number,
                        stroke,
                    ),
            decreases self.top + self.spacing - y,
        {
            let built = Segment::from_pts((self.left, y as i32), (self.right, y as i32), stroke);
            match built {
                Ok(line) => {
                    lines.push(line);
                },
                Err(reason) => {
                    return Err(reason);
                },
            }
            proof {
                lemma_mul_is_distributive_add_other_way(
                    self.spacing as int,
                    lines@.len() - 1,
                    1,
                );
            }
            y = y + self.spacing as i64;
        }
        proof {
            assert forall|number: int| 0 <= number && #[trigger] self.horizontal_at(number)
                < self.top() implies number < lines@.len() by {
                if number >= lines@.len() {
                    lemma_mul_inequality(lines@.len() as int, number, self.spacing as int);
                }
            }
        }
        Ok(lines)
    }
}

} // verus!
