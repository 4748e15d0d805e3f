//! Markers for the cell that the agent occupies, and the pass that keeps
//! them in step with the agent once per frame.

use crate::cell::Cell;
use crate::grid::Grid;
use vstd::prelude::*;

verus! {

/// The test that decides whether a marker stays: its own cell holds the
/// point.
pub open spec fn holds(px: int, py: int) -> spec_fn(Cell) -> bool {
    |cell: Cell| cell.covers(px, py)
}

/// The opposite test: the marker's own cell has lost the point.
pub open spec fn lost(px: int, py: int) -> spec_fn(Cell) -> bool {
    |cell: Cell| !cell.covers(px, py)
}

/// The markers that a sweep keeps, in their order: those whose own cell
/// holds the point.
pub open spec fn surviving(live: Seq<Cell>, px: int, py: int) -> Seq<Cell> {
    live.filter(holds(px, py))
}

/// The markers that a sweep destroys, in their order: those whose own cell
/// does not hold the point.
pub open spec fn stale(live: Seq<Cell>, px: int, py: int) -> Seq<Cell> {
    live.filter(lost(px, py))
}

/// The marker that a pass creates: one for the cell of the grid that holds
/// the point, unless there is no such cell or it is marked already.
pub open spec fn missing(grid: Grid, live: Seq<Cell>, px: int, py: int) -> Option<Cell> {
    match grid.cell_of(px, py) {
        Some(cell) => if live.contains(cell) {
            None
        } else {
            Some(cell)
        },
        None => None,
    }
}

/// The markers after the first half of a pass, in which the missing marker
/// is created.
pub open spec fn marked(grid: Grid, live: Seq<Cell>, px: int, py: int) -> Seq<Cell> {
    match missing(grid, live, px, py) {
        Some(cell) => live.push(cell),
        None => live,
    }
}

/// The markers after a whole pass: creation first, then the sweep.
pub open spec fn synchronized(grid: Grid, live: Seq<Cell>, px: int, py: int) -> Seq<Cell> {
    surviving(marked(grid, live, px, py), px, py)
}

/// The markers are bound to cells of the grid, no two to the same cell.
pub open spec fn distinct_cells(grid: Grid, live: Seq<Cell>) -> bool {
    &&& forall|at: int| 0 <= at < live.len() ==> grid.has_cell(#[trigger] live[at])
    &&& live.no_duplicates()
}

/// Filtering the first `upto + 1` items adds the last of them to the result
/// for the first `upto`, or leaves that result as it is.
proof fn lemma_filter_next(items: Seq<Cell>, test: spec_fn(Cell) -> bool, upto: int)
    requires
        0 <= upto < items.len(),
    ensures
        items.take(upto + 1).filter(test) == if test(items[upto]) {
            items.take(upto).filter(test).push(items[upto])
        } else {
            items.take(upto).filter(test)
        },
{
    reveal(Seq::filter);
    assert(items.take(upto + 1).drop_last() =~= items.take(upto));
}

/// A filter keeps exactly the items that pass its test, and never makes
/// two of one.
proof fn lemma_filter_keeps(items: Seq<Cell>, test: spec_fn(Cell) -> bool)
    ensures
        forall|cell: Cell| #[trigger]
            items.filter(test).contains(cell) <==> items.contains(cell) && test(cell),
        items.no_duplicates() ==> items.filter(test).no_duplicates(),
    decreases items.len(),
{
    reveal(Seq::filter);
    if items.len() > 0 {
        let front = items.drop_last();
        let last = items.last();
        lemma_filter_keeps(front, test);
        let kept = front.filter(test);
        assert(items =~= front.push(last));
        assert forall|cell: Cell| #[trigger]
            items.filter(test).contains(cell) <==> items.contains(cell) && test(cell) by {
            if items.filter(test).contains(cell) {
                let at = choose|at: int|
                    0 <= at < items.filter(test).len() && items.filter(test)[at] == cell;
                if at < kept.len() {
                    assert(kept.contains(cell));
                    let source = choose|source: int|
                        0 <= source < front.len() && front[source] == cell;
                    assert(items[source] == cell);
                } else {
                    assert(items[items.len() - 1] == cell);
                }
            }
            if items.contains(cell) && test(cell) {
                let source = choose|source: int| 0 <= source < items.len() && items[source] == cell;
                if source < front.len() {
                    assert(front[source] == cell);
                    assert(front.contains(cell));
                    assert(kept.contains(cell));
                    let at = choose|at: int| 0 <= at < kept.len() && kept[at] == cell;
                    assert(items.filter(test)[at] == cell);
                } else {
                    assert(items.filter(test)[kept.len() as int] == cell);
                }
            }
        }
        if items.no_duplicates() {
            assert(front.no_duplicates());
            if test(last) {
                assert forall|first: int, second: int|
                    0 <= first < kept.len() + 1 && 0 <= second < kept.len() + 1 && first
                        != second implies kept.push(last)[first] != kept.push(last)[second] by {
                    if first == kept.len() || second == kept.len() {
                        let other = if first == kept.len() {
                            second
                        } else {
                            first
                        };
                        assert(kept.contains(kept[other]));
                        let source = choose|source: int|
                            0 <= source < front.len() && front[source] == kept[other];
                        assert(items[source] != items[items.len() - 1]);
                    }
                }
            }
        }
    }
}

/// A filter whose test every item passes changes nothing; one whose test
/// no item passes leaves nothing.
proof fn lemma_filter_uniform(items: Seq<Cell>, test: spec_fn(Cell) -> bool)
    ensures
        (forall|at: int| 0 <= at < items.len() ==> test(#[trigger] items[at]))
            ==> items.filter(test) == items,
        (forall|at: int| 0 <= at < items.len() ==> !test(#[trigger] items[at]))
            ==> items.filter(test) == Seq::<Cell>::empty(),
    decreases items.len(),
{
    reveal(Seq::filter);
    if items.len() > 0 {
        let front = items.drop_last();
        lemma_filter_uniform(front, test);
        assert(forall|at: int| 0 <= at < front.len() ==> front[at] == items[at]);
        if forall|at: int| 0 <= at < items.len() ==> test(#[trigger] items[at]) {
            assert(test(items[items.len() - 1]));
            assert(front.filter(test) == front);
            assert(items.filter(test) =~= items);
        }
        if forall|at: int| 0 <= at < items.len() ==> !test(#[trigger] items[at]) {
            assert(!test(items[items.len() - 1]));
            assert(front.filter(test) == Seq::<Cell>::empty());
        }
    } else {
        assert(items =~= Seq::<Cell>::empty());
    }
}

/// What one pass did to the markers, for the host to carry out on screen.
#[derive(Debug)]
pub struct Changes {
    /// The cell that received a marker in this pass, if any.
    pub created: Option<Cell>,
    /// The cells whose markers were destroyed in this pass, in the order in
    /// which the markers were created.
    pub destroyed: Vec<Cell>,
}

/// The live markers, each bound to the cell whose centre and size it
/// carries, in the order in which they were created.
#[derive(Debug)]
pub struct Markers {
    live: Vec<Cell>,
}

impl View for Markers {
    type V = Seq<Cell>;

    closed spec fn view(&self) -> Seq<Cell> {
        self.live@
    }
}

impl Markers {
    /// Every marker is bound to a cell of `grid`, and no two to the same.
    pub open spec fn wf(&self, grid: Grid) -> bool {
        distinct_cells(grid, self@)
    }

    /// No markers at all.
    pub fn new() -> (markers: Markers)
        ensures
            markers@ == Seq::<Cell>::empty(),
            forall|grid: Grid| #[trigger] markers.wf(grid),
    {
        Markers { live: Vec::new() }
    }

    /// Number of live markers.
    pub fn count(&self) -> (count: usize)
        ensures
            count == self@.len(),
    {
        self.live.len()
    }

    /// The cells of the live markers, in the order of their creation.
    pub fn cells(&self) -> (cells: Vec<Cell>)
        ensures
            cells@ == self@,
    {
        let mut cells: Vec<Cell> = Vec::new();
        let mut at: usize = 0;
        while at < self.live.len()
            invariant
                at <= self.live@.len(),
                cells@ == self.live@.take(at as int),
            decreases self.live@.len() - at,
        {
            cells.push(self.live[at]);
            assert(self.live@.take(at + 1) =~= self.live@.take(at as int).push(self.live@[at as int]));
            at = at + 1;
        }
        assert(self.live@.take(at as int) =~= self.live@);
        cells
    }

    /// Whether a live marker is bound to `cell`.
    pub fn is_marked(&self, cell: Cell) -> (marked: bool)
        ensures
            marked == self@.contains(cell),
    {
        let mut at: usize = 0;
        while at < self.live.len()
            invariant
                at <= self.live@.len(),
                forall|before: int| 0 <= before < at ==> self.live@[before] != cell,
            decreases self.live@.len() - at,
        {
            if self.live[at] == cell {
                return true;
            }
            at = at + 1;
        }
        false
    }

    /// Creates a marker for `cell`, unless `cell` is no cell of the grid or
    /// is marked already. Tells whether the marker was created.
    pub fn place(&mut self, grid: &Grid, cell: Cell) -> (placed: bool)
        requires
            grid.wf(),
        ensures
            placed == (grid.has_cell(cell) && !old(self)@.contains(cell)),
            final(self)@ == if placed {
                old(self)@.push(cell)
            } else {
                old(self)@
            },
            old(self).wf(*grid) ==> final(self).wf(*grid),
    {
        let on_grid = match grid.locate((cell.x, cell.y)) {
            Some(found) => found == cell,
            None => false,
        };
        proof {
            if grid.has_cell(cell) {
                let (column, row) = choose|column: int, row: int|
                    grid.in_range(column, row) && cell == #[trigger] grid.cell(column, row);
                grid.lemma_cell_span(column, row);
                assert(cell.covers(cell.x as int, cell.y as int));
            }
        }
        if !on_grid || self.is_marked(cell) {
            return false;
        }
        self.live.push(cell);
        true
    }

    /// Destroys every marker whose own cell does not hold `position`, and
    /// returns the cells of the destroyed markers.
    pub fn sweep(&mut self, position: (i32, i32)) -> (destroyed: Vec<Cell>)
        ensures
            final(self)@ == surviving(old(self)@, position.0 as int, position.1 as int),
            destroyed@ == stale(old(self)@, position.0 as int, position.1 as int),
    {
        let ghost px = position.0 as int;
        let ghost py = position.1 as int;
        let mut kept: Vec<Cell> = Vec::new();
        let mut destroyed: Vec<Cell> = Vec::new();
        let mut at: usize = 0;
        proof {
            reveal(Seq::filter);
            assert(self.live@.take(0) =~= Seq::<Cell>::empty());
        }
        while at < self.live.len()
            invariant
                px == position.0,
                py == position.1,
                at <= self.live@.len(),
                kept@ == surviving(self.live@.take(at as int), px, py),
                destroyed@ == stale(self.live@.take(at as int), px, py),
            decreases self.live@.len() - at,
        {
            let cell = self.live[at];
            proof {
                lemma_filter_next(self.live@, holds(px, py), at as int);
                lemma_filter_next(self.live@, lost(px, py), at as int);
            }
            if cell.contains(position) {
                kept.push(cell);
            } else {
                destroyed.push(cell);
            }
            at = at + 1;
        }
        assert(self.live@.take(at as int) =~= self.live@);
        self.live = kept;
        destroyed
    }

    /// One pass for the agent at `position`: creates the marker of the cell
    /// that holds the agent if that cell has none, then destroys every
    /// marker whose own cell does not hold the agent.
    ///
    /// Where the markers were bound to distinct cells of the grid before,
    /// the pass leaves the one marker of the agent's cell, or none when the
    /// agent is in no cell.
    pub fn synchronize(&mut self, grid: &Grid, position: (i32, i32)) -> (changes: Changes)
        requires
            grid.wf(),
        ensures
            changes.created == missing(
                *grid,
                old(self)@,
                position.0 as int,
                position.1 as int,
            ),
            changes.destroyed@ == stale(old(self)@, position.0 as int, position.1 as int),
            final(self)@ == synchronized(
                *grid,
                old(self)@,
                position.0 as int,
                position.1 as int,
            ),
            old(self).wf(*grid) ==> {
                &&& final(self).wf(*grid)
                &&& final(self)@ == match grid.cell_of(position.0 as int, position.1 as int) {
                    Some(cell) => seq![cell],
                    None => Seq::<Cell>::empty(),
                }
            },
    {
        let ghost px = position.0 as int;
        let ghost py = position.1 as int;
        let ghost before = self@;
        let created = match grid.locate(position) {
            Some(cell) => {
                if self.place(grid, cell) {
                    Some(cell)
                } else {
                    None
                }
            },
            None => None,
        };
        proof {
            assert(created == missing(*grid, before, px, py));
            assert(self@ == marked(*grid, before, px, py));
            lemma_created_outlives_sweep(*grid, before, px, py);
            if distinct_cells(*grid, before) {
                lemma_single_marker(*grid, before, px, py);
            }
        }
        let destroyed = self.sweep(position);
        Changes { created, destroyed }
    }
}

/// A marker created in a pass is not destroyed in the same pass: the sweep
/// destroys what it would have destroyed without the creation, and keeps
/// the new marker behind the others that it keeps.
pub proof fn lemma_created_outlives_sweep(grid: Grid, live: Seq<Cell>, px: int, py: int)
    requires
        grid.wf(),
    ensures
        stale(marked(grid, live, px, py), px, py) == stale(live, px, py),
        synchronized(grid, live, px, py) == match missing(grid, live, px, py) {
            Some(cell) => surviving(live, px, py).push(cell),
            None => surviving(live, px, py),
        },
{
    match missing(grid, live, px, py) {
        Some(cell) => {
            grid.lemma_lookup_matches_containment(px, py);
            assert(cell.covers(px, py));
            let longer = live.push(cell);
            assert(longer.take(live.len() as int) =~= live);
            assert(longer.take(live.len() as int + 1) =~= longer);
            lemma_filter_next(longer, holds(px, py), live.len() as int);
            lemma_filter_next(longer, lost(px, py), live.len() as int);
        },
        None => {},
    }
}

/// After a pass over markers that were bound to distinct cells of the grid,
/// the one marker of the cell that holds the agent is live and no other:
/// at most one marker is left, its cell holds the agent, and none is left
/// when the agent is in no cell.
pub proof fn lemma_single_marker(grid: Grid, live: Seq<Cell>, px: int, py: int)
    requires
        grid.wf(),
        distinct_cells(grid, live),
    ensures
        distinct_cells(grid, synchronized(grid, live, px, py)),
        synchronized(grid, live, px, py).len() <= 1,
        forall|at: int|
            0 <= at < synchronized(grid, live, px, py).len() ==> (#[trigger] synchronized(
                grid,
                live,
                px,
                py,
            )[at]).covers(px, py),
        synchronized(grid, live, px, py) == match grid.cell_of(px, py) {
            Some(cell) => seq![cell],
            None => Seq::<Cell>::empty(),
        },
{
    let kept = surviving(live, px, py);
    let after = synchronized(grid, live, px, py);
    lemma_created_outlives_sweep(grid, live, px, py);
    lemma_filter_keeps(live, holds(px, py));
    grid.lemma_lookup_matches_containment(px, py);
    assert forall|at: int| 0 <= at < kept.len() implies grid.cell_of(px, py) == Some(
        #[trigger] kept[at],
    ) by {
        assert(kept.contains(kept[at]));
        let source = choose|source: int| 0 <= source < live.len() && live[source] == kept[at];
        assert(grid.has_cell(live[source]));
    }
    if kept.len() >= 2 {
        assert(kept[0] == kept[1]);
    }
    match grid.cell_of(px, py) {
        Some(cell) => {
            if live.contains(cell) {
                assert(kept.contains(cell));
                assert(kept.len() == 1);
                assert(kept[0] == cell);
                assert(after =~= seq![cell]);
            } else {
                if kept.len() > 0 {
                    assert(grid.cell_of(px, py) == Some(kept[0]));
                    assert(kept.contains(kept[0]));
                }
                assert(after =~= seq![cell]);
            }
            assert(grid.has_cell(cell) && cell.covers(px, py));
        },
        None => {
            if kept.len() > 0 {
                assert(grid.cell_of(px, py) == Some(kept[0]));
            }
            assert(after =~= Seq::<Cell>::empty());
        },
    }
}

/// A second pass with the agent where it was changes nothing: it creates no
/// marker, destroys none, and leaves the markers as the first pass left
/// them.
pub proof fn lemma_second_pass_is_idle(grid: Grid, live: Seq<Cell>, px: int, py: int)
    requires
        grid.wf(),
    ensures
        missing(grid, synchronized(grid, live, px, py), px, py) == None::<Cell>,
        stale(synchronized(grid, live, px, py), px, py) == Seq::<Cell>::empty(),
        synchronized(grid, synchronized(grid, live, px, py), px, py) == synchronized(
            grid,
            live,
            px,
            py,
        ),
{
    let once = synchronized(grid, live, px, py);
    lemma_filter_keeps(marked(grid, live, px, py), holds(px, py));
    grid.lemma_lookup_matches_containment(px, py);
    assert forall|at: int| 0 <= at < once.len() implies holds(px, py)(#[trigger] once[at]) && !lost(
        px,
        py,
    )(once[at]) by {
        assert(once.contains(once[at]));
    }
    lemma_filter_uniform(once, holds(px, py));
    lemma_filter_uniform(once, lost(px, py));
    match grid.cell_of(px, py) {
        Some(cell) => {
            assert(cell.covers(px, py));
            if live.contains(cell) {
                assert(marked(grid, live, px, py).contains(cell));
            } else {
                assert(marked(grid, live, px, py)[live.len() as int] == cell);
                assert(marked(grid, live, px, py).contains(cell));
            }
            assert(once.contains(cell));
        },
        None => {},
    }
}

/// The markers after one pass for each position of `walk` in turn, starting
/// from `live`.
pub open spec fn replayed(grid: Grid, live: Seq<Cell>, walk: Seq<(int, int)>) -> Seq<Cell>
    decreases walk.len(),
{
    if walk.len() == 0 {
        live
    } else {
        synchronized(grid, replayed(grid, live, walk.drop_last()), walk.last().0, walk.last().1)
    }
}

/// After any number of frames that began without markers, the one marker
/// of the cell that holds the agent's latest position is live and no other;
/// none is live when that position is in no cell.
pub proof fn lemma_single_marker_after_walk(grid: Grid, walk: Seq<(int, int)>)
    requires
        grid.wf(),
    ensures
        distinct_cells(grid, replayed(grid, Seq::<Cell>::empty(), walk)),
        walk.len() > 0 ==> replayed(grid, Seq::<Cell>::empty(), walk) == match grid.cell_of(
            walk.last().0,
            walk.last().1,
        ) {
            Some(cell) => seq![cell],
            None => Seq::<Cell>::empty(),
        },
    decreases walk.len(),
{
    if walk.len() > 0 {
        lemma_single_marker_after_walk(grid, walk.drop_last());
        lemma_single_marker(
            grid,
            replayed(grid, Seq::<Cell>::empty(), walk.drop_last()),
            walk.last().0,
            walk.last().1,
        );
    }
}

} // verus!
