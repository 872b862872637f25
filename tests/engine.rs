use rand::SeedableRng;

use vida::cell::{Cell, Grid};
use vida::engine::{Engine, ParallelEngine, SerialEngine};

fn grid_with_live(rows: usize, columns: usize, live: &[(usize, usize)]) -> Grid {
    let mut grid = Grid::new(rows, columns);
    for &(row, col) in live {
        *grid.get_cell_mut(row, col).unwrap() = Cell::Live;
    }
    grid
}

fn live_cells(grid: &Grid) -> Vec<(usize, usize)> {
    let mut out = Vec::new();
    for row in 0..grid.rows() {
        for col in 0..grid.columns() {
            if grid.get_cell(row, col).unwrap().is_live() {
                out.push((row, col));
            }
        }
    }
    out
}

fn both(grid: &Grid) -> Grid {
    let serial = SerialEngine.update(grid);
    let parallel = ParallelEngine.update(grid);
    assert!(serial == parallel);
    serial
}

#[test]
fn shape_is_kept() {
    for &(rows, columns) in &[(0, 0), (1, 1), (1, 7), (7, 1), (3, 5), (8, 2), (0, 4)] {
        let grid = Grid::new_with(rows, columns, Cell::Live);
        assert_eq!(SerialEngine.update(&grid).shape(), grid.shape());
        assert_eq!(ParallelEngine.update(&grid).shape(), grid.shape());
    }
}

#[test]
fn engines_agree_on_random_grids() {
    let mut rng = rand::rngs::SmallRng::seed_from_u64(42);
    for &(rows, columns) in &[(1, 1), (1, 9), (9, 1), (6, 6), (17, 23), (32, 5)] {
        let mut grid = Grid::random_with(rows, columns, &mut rng);
        for _ in 0..4 {
            let next = both(&grid);
            assert_eq!(next.shape(), grid.shape());
            grid = next;
        }
    }
}

#[test]
fn input_is_not_changed() {
    let grid = grid_with_live(3, 3, &[(1, 0), (1, 1), (1, 2)]);
    let copy = grid.clone();
    let _ = SerialEngine.update(&grid);
    let _ = ParallelEngine.update(&grid);
    assert!(grid == copy);
}

#[test]
fn lone_cell_dies() {
    let grid = grid_with_live(1, 1, &[(0, 0)]);
    let next = both(&grid);
    assert_eq!(next.get_cell(0, 0), Some(&Cell::Dead));
}

#[test]
fn no_wraparound_in_a_row() {
    // With wraparound the end cells would each see two live neighbors.
    let grid = grid_with_live(1, 5, &[(0, 0), (0, 1), (0, 4)]);
    let next = both(&grid);
    assert_eq!(next.get_cell(0, 0), Some(&Cell::Dead));
    assert_eq!(next.get_cell(0, 4), Some(&Cell::Dead));
    assert_eq!(next.get_cell(0, 1), Some(&Cell::Dead));

    let grid = grid_with_live(1, 4, &[(0, 1), (0, 3)]);
    let next = both(&grid);
    assert_eq!(next.get_cell(0, 0), Some(&Cell::Dead));
    assert_eq!(next.get_cell(0, 2), Some(&Cell::Dead));
}

#[test]
fn no_wraparound_in_a_column() {
    let grid = grid_with_live(5, 1, &[(0, 0), (1, 0), (4, 0)]);
    let next = both(&grid);
    assert_eq!(next.get_cell(0, 0), Some(&Cell::Dead));
    assert_eq!(next.get_cell(4, 0), Some(&Cell::Dead));
    assert_eq!(next.get_cell(1, 0), Some(&Cell::Dead));
}

#[test]
fn block_is_still() {
    let grid = grid_with_live(4, 4, &[(1, 1), (1, 2), (2, 1), (2, 2)]);
    let next = both(&grid);
    assert!(next == grid);
    assert_eq!(next.to_string(), "DDDD\nDLLD\nDLLD\nDDDD\n");
}

#[test]
fn blinker_oscillates() {
    let horizontal = grid_with_live(5, 5, &[(2, 1), (2, 2), (2, 3)]);
    let vertical = both(&horizontal);
    assert_eq!(live_cells(&vertical), vec![(1, 2), (2, 2), (3, 2)]);
    let back = both(&vertical);
    assert!(back == horizontal);
    assert_eq!(live_cells(&back), vec![(2, 1), (2, 2), (2, 3)]);
}

#[test]
fn birth_needs_exactly_three() {
    // (0, 0) has three live neighbors and is born; (2, 2) has two and stays dead.
    let grid = grid_with_live(3, 3, &[(0, 1), (1, 0), (1, 1)]);
    let next = both(&grid);
    assert_eq!(next.get_cell(0, 0), Some(&Cell::Live));
    assert_eq!(next.get_cell(2, 2), Some(&Cell::Dead));
    assert_eq!(next.get_cell(1, 1), Some(&Cell::Live));
}

#[test]
fn crowded_cell_dies() {
    // The centre has four live neighbors; each edge cell has three.
    let grid = grid_with_live(3, 3, &[(1, 1), (0, 0), (0, 2), (2, 0), (2, 2)]);
    let next = both(&grid);
    assert_eq!(next.get_cell(1, 1), Some(&Cell::Dead));
    assert_eq!(next.to_string(), "DLD\nLDL\nDLD\n");
}

#[test]
fn full_grid_keeps_corners() {
    // Corners have three live neighbors, edges five, the centre eight.
    let grid = Grid::new_with(3, 3, Cell::Live);
    let next = both(&grid);
    assert_eq!(next.to_string(), "LDL\nDDD\nLDL\n");
}
