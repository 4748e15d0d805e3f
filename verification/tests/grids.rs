use ant_grid::cell::Cell;
use ant_grid::grid::{Grid, GridError};
use ant_grid::scene::setup;
use ant_grid::segment::{Segment, SegmentError};

fn standard() -> Grid {
    Grid::new(-640, 640, -320, 320, 10).unwrap()
}

fn holders(cells: &[Cell], point: (i32, i32)) -> Vec<Cell> {
    let mut found = Vec::new();
    for cell in cells {
        if cell.contains(point) {
            found.push(*cell);
        }
    }
    found
}

#[test]
fn standard_grid_has_128_by_64_lines_and_8192_cells() {
    let grid = standard();
    assert_eq!(grid.vertical_lines(1).unwrap().len(), 128);
    assert_eq!(grid.horizontal_lines(1).unwrap().len(), 64);
    assert_eq!(grid.cells().len(), 8192);
    assert_eq!(grid.column_count(), 128);
    assert_eq!(grid.row_count(), 64);
}

#[test]
fn setup_lays_out_lines_and_cells() {
    let grid = standard();
    let scene = setup(&grid, 1).unwrap();
    assert_eq!(scene.vertical.len(), 128);
    assert_eq!(scene.horizontal.len(), 64);
    assert_eq!(scene.cells.len(), 8192);
    assert_eq!(scene.vertical, grid.vertical_lines(1).unwrap());
    assert_eq!(scene.horizontal, grid.horizontal_lines(1).unwrap());
    assert_eq!(scene.cells, grid.cells());
}

#[test]
fn setup_refuses_a_stroke_that_is_not_positive() {
    let grid = standard();
    assert_eq!(setup(&grid, 0).err(), Some(SegmentError::InvalidStroke));
    assert_eq!(setup(&grid, -3).err(), Some(SegmentError::InvalidStroke));
    assert_eq!(grid.vertical_lines(0), Err(SegmentError::InvalidStroke));
    assert_eq!(grid.horizontal_lines(-1), Err(SegmentError::InvalidStroke));
}

#[test]
fn vertical_lines_run_from_top_to_bottom() {
    let grid = standard();
    let lines = grid.vertical_lines(1).unwrap();
    assert_eq!(
        lines[0],
        Segment {
            center_x2: -1280,
            center_y2: 0,
            run: 0,
            rise: -640,
            length_squared: 409600,
            stroke: 1
        }
    );
    assert_eq!(lines[0], Segment::from_pts((-640, 320), (-640, -320), 1).unwrap());
    assert_eq!(lines[1], Segment::from_pts((-630, 320), (-630, -320), 1).unwrap());
    assert_eq!(lines[127], Segment::from_pts((630, 320), (630, -320), 1).unwrap());
    assert_eq!(lines[64].length(), 640);
}

#[test]
fn horizontal_lines_run_from_left_to_right() {
    let grid = standard();
    let lines = grid.horizontal_lines(2).unwrap();
    assert_eq!(
        lines[0],
        Segment {
            center_x2: 0,
            center_y2: -640,
            run: 1280,
            rise: 0,
            length_squared: 1638400,
            stroke: 2
        }
    );
    assert_eq!(lines[1], Segment::from_pts((-640, -310), (640, -310), 2).unwrap());
    assert_eq!(lines[63], Segment::from_pts((-640, 310), (640, 310), 2).unwrap());
    assert_eq!(lines[10].length(), 1280);
}

#[test]
fn a_partial_last_column_gets_a_line_but_no_cells() {
    let grid = Grid::new(0, 25, 0, 10, 10).unwrap();
    let vertical = grid.vertical_lines(1).unwrap();
    assert_eq!(vertical.len(), 3);
    assert_eq!(vertical[2], Segment::from_pts((20, 10), (20, 0), 1).unwrap());
    assert_eq!(grid.horizontal_lines(1).unwrap().len(), 1);
    assert_eq!(grid.column_count(), 2);
    assert_eq!(grid.row_count(), 1);
    assert_eq!(
        grid.cells(),
        vec![Cell { x: 5, y: 5, half: 5 }, Cell { x: 15, y: 5, half: 5 }]
    );
    assert_eq!(grid.locate((19, 9)), Some(Cell { x: 15, y: 5, half: 5 }));
    assert_eq!(grid.locate((20, 5)), None);
    assert_eq!(grid.locate((24, 5)), None);
}

#[test]
fn an_area_smaller_than_the_spacing_has_lines_but_no_cells() {
    let grid = Grid::new(0, 6, 0, 6, 10).unwrap();
    assert_eq!(grid.vertical_lines(1).unwrap().len(), 1);
    assert_eq!(grid.horizontal_lines(1).unwrap().len(), 1);
    assert_eq!(grid.cells(), vec![]);
    assert_eq!(grid.locate((3, 3)), None);
    assert_eq!(grid.cell_at(0, 0), None);
}

#[test]
fn cells_are_listed_column_by_column() {
    let grid = Grid::new(-20, 20, 0, 60, 20).unwrap();
    assert_eq!(
        grid.cells(),
        vec![
            Cell { x: -10, y: 10, half: 10 },
            Cell { x: -10, y: 30, half: 10 },
            Cell { x: -10, y: 50, half: 10 },
            Cell { x: 10, y: 10, half: 10 },
            Cell { x: 10, y: 30, half: 10 },
            Cell { x: 10, y: 50, half: 10 },
        ]
    );
}

#[test]
fn cell_centres_of_the_standard_grid() {
    let grid = standard();
    let cells = grid.cells();
    assert_eq!(cells[0], Cell { x: -635, y: -315, half: 5 });
    assert_eq!(cells[1], Cell { x: -635, y: -305, half: 5 });
    assert_eq!(cells[64], Cell { x: -625, y: -315, half: 5 });
    assert_eq!(cells[8191], Cell { x: 635, y: 315, half: 5 });
    assert_eq!(grid.cell_at(0, 0), Some(Cell { x: -635, y: -315, half: 5 }));
    assert_eq!(grid.cell_at(64, 32), Some(Cell { x: 5, y: 5, half: 5 }));
    assert_eq!(grid.cell_at(127, 63), Some(Cell { x: 635, y: 315, half: 5 }));
    assert_eq!(grid.cell_at(128, 0), None);
    assert_eq!(grid.cell_at(0, 64), None);
    assert_eq!(cells[64 * 64 + 32], Cell { x: 5, y: 5, half: 5 });
}

#[test]
fn cell_bounds_are_half_open() {
    let cell = Cell { x: 5, y: 5, half: 5 };
    assert!(cell.contains((0, 0)));
    assert!(cell.contains((9, 9)));
    assert!(cell.contains((0, 9)));
    assert!(cell.contains((9, 0)));
    assert!(cell.contains((5, 5)));
    assert!(!cell.contains((10, 5)));
    assert!(!cell.contains((5, 10)));
    assert!(!cell.contains((-1, 5)));
    assert!(!cell.contains((5, -1)));
    assert!(!cell.contains((10, 10)));
}

#[test]
fn cell_test_does_not_overflow_at_the_limits() {
    let cell = Cell { x: i32::MAX, y: i32::MIN, half: i32::MAX };
    assert!(cell.contains((i32::MAX, i32::MIN)));
    assert!(cell.contains((0, i32::MIN)));
    assert!(!cell.contains((-1, i32::MIN)));
    let empty = Cell { x: 0, y: 0, half: 0 };
    assert!(!empty.contains((0, 0)));
}

#[test]
fn every_point_of_the_tiled_area_lies_in_exactly_one_cell() {
    let grid = Grid::new(-30, 30, -20, 20, 10).unwrap();
    let cells = grid.cells();
    assert_eq!(cells.len(), 24);
    for x in -30..30 {
        for y in -20..20 {
            let found = holders(&cells, (x, y));
            assert_eq!(found.len(), 1);
            assert_eq!(grid.locate((x, y)), Some(found[0]));
        }
    }
}

#[test]
fn points_off_the_tiled_area_lie_in_no_cell() {
    let grid = Grid::new(-30, 30, -20, 20, 10).unwrap();
    let cells = grid.cells();
    for point in [(30, 0), (0, 20), (30, 20), (-31, 0), (0, -21), (1000, 1000), (-30, 20)] {
        assert_eq!(holders(&cells, point), vec![]);
        assert_eq!(grid.locate(point), None);
    }
    assert_eq!(grid.locate((i32::MAX, i32::MAX)), None);
    assert_eq!(grid.locate((i32::MIN, i32::MIN)), None);
}

#[test]
fn a_point_on_a_shared_edge_belongs_to_the_cell_that_starts_there() {
    let grid = standard();
    let cells = grid.cells();
    assert_eq!(holders(&cells, (0, 0)), vec![Cell { x: 5, y: 5, half: 5 }]);
    assert_eq!(holders(&cells, (10, 3)), vec![Cell { x: 15, y: 5, half: 5 }]);
    assert_eq!(holders(&cells, (3, -10)), vec![Cell { x: 5, y: -5, half: 5 }]);
    assert_eq!(holders(&cells, (-640, -320)), vec![Cell { x: -635, y: -315, half: 5 }]);
    assert_eq!(grid.locate((0, 0)), Some(Cell { x: 5, y: 5, half: 5 }));
    assert_eq!(grid.locate((-1, -1)), Some(Cell { x: -5, y: -5, half: 5 }));
    assert_eq!(grid.locate((640, 0)), None);
    assert_eq!(grid.locate((0, 320)), None);
    assert_eq!(grid.locate((639, 319)), Some(Cell { x: 635, y: 315, half: 5 }));
}

#[test]
fn grid_keeps_its_bounds() {
    let grid = Grid::new(-7, 13, 2, 42, 4).unwrap();
    assert_eq!(grid.left(), -7);
    assert_eq!(grid.right(), 13);
    assert_eq!(grid.bottom(), 2);
    assert_eq!(grid.top(), 42);
    assert_eq!(grid.spacing(), 4);
    assert_eq!(grid.column_count(), 5);
    assert_eq!(grid.row_count(), 10);
}

#[test]
fn grid_refuses_an_empty_area() {
    assert_eq!(Grid::new(0, 0, 0, 10, 10).err(), Some(GridError::EmptyArea));
    assert_eq!(Grid::new(0, 10, 5, 5, 10).err(), Some(GridError::EmptyArea));
    assert_eq!(Grid::new(10, 0, 0, 10, 10).err(), Some(GridError::EmptyArea));
    assert_eq!(Grid::new(0, 10, 10, 0, 10).err(), Some(GridError::EmptyArea));
    assert_eq!(Grid::new(0, 0, 0, 10, 0).err(), Some(GridError::EmptyArea));
}

#[test]
fn grid_refuses_a_spacing_that_is_not_positive() {
    assert_eq!(Grid::new(0, 10, 0, 10, 0).err(), Some(GridError::InvalidSpacing));
    assert_eq!(Grid::new(0, 10, 0, 10, -2).err(), Some(GridError::InvalidSpacing));
    assert_eq!(Grid::new(0, 10, 0, 10, -3).err(), Some(GridError::InvalidSpacing));
}

#[test]
fn grid_refuses_an_odd_spacing() {
    assert_eq!(Grid::new(0, 10, 0, 10, 1).err(), Some(GridError::OddSpacing));
    assert_eq!(Grid::new(0, 10, 0, 10, 5).err(), Some(GridError::OddSpacing));
    assert!(Grid::new(0, 10, 0, 10, 2).is_ok());
}

#[test]
fn grid_over_the_whole_coordinate_range() {
    let grid = Grid::new(i32::MIN, i32::MAX, i32::MIN, i32::MAX, i32::MAX - 1).unwrap();
    assert_eq!(grid.column_count(), 2);
    assert_eq!(grid.row_count(), 2);
    assert_eq!(grid.vertical_lines(1).unwrap().len(), 3);
    assert_eq!(grid.cells().len(), 4);
    assert_eq!(grid.locate((i32::MIN, i32::MIN)), grid.cell_at(0, 0));
    assert_eq!(grid.locate((0, 0)), grid.cell_at(1, 1));
    assert_eq!(grid.locate((i32::MAX, 0)), None);
    assert_eq!(
        grid.cell_at(0, 0),
        Some(Cell { x: -1073741825, y: -1073741825, half: 1073741823 })
    );
}
