use rand::SeedableRng;
use rayon::iter::{IndexedParallelIterator, ParallelIterator};
use rayon::slice::{ParallelSlice, ParallelSliceMut};
use rayon::iter::IntoParallelRefIterator;
use rayon::iter::IntoParallelRefMutIterator;

use vida::cell::{Cell, Grid};

fn sample_rows() -> Vec<Vec<Cell>> {
    vec![
        vec![Cell::Dead, Cell::Live, Cell::Dead],
        vec![Cell::Live, Cell::Dead, Cell::Live],
        vec![Cell::Dead, Cell::Live, Cell::Dead],
        vec![Cell::Dead, Cell::Live, Cell::Dead],
    ]
}

#[test]
pub fn convert() {
    let grid = Grid::try_from(&sample_rows()).expect("rows with different lengths");

    assert_eq!(grid.rows(), 4);
    assert_eq!(grid.columns(), 3);
    assert_eq!(grid.shape(), (4, 3));
}

#[test]
pub fn indexing() {
    let cells = sample_rows();
    let grid = Grid::try_from(&cells).expect("rows with different lengths");

    assert_eq!(grid.get(0).expect("row out of bounds"), &cells[0][..]);
    assert_eq!(grid.get(1).expect("row out of bounds"), &cells[1][..]);
    assert_eq!(grid.get(2).expect("row out of bounds"), &cells[2][..]);
    assert_eq!(grid.get(3).expect("row out of bounds"), &cells[3][..]);
}

#[test]
pub fn tuple_indexing() {
    let grid = Grid::try_from(&sample_rows()).unwrap();

    for row in 0..grid.rows() {
        for col in 0..grid.columns() {
            assert_eq!(grid.get(row).unwrap()[col], *grid.get_cell(row, col).unwrap())
        }
    }
}

#[test]
pub fn parallel_mutation() {
    let mut grid = Grid::new_with(5, 10, Cell::Live);
    let columns = grid.columns();
    grid.flat_mut().par_chunks_exact_mut(columns).for_each(|row| {
        row.par_iter_mut().for_each(|cell| {
            if cell.is_live() {
                *cell = Cell::Dead
            } else {
                *cell = Cell::Live
            }
        })
    });

    let dead_cells = grid
        .flat()
        .par_chunks_exact(columns)
        .flat_map(|row| row.par_iter())
        .filter(|cell| cell.is_dead())
        .count();

    assert_eq!(dead_cells, grid.cells());
}

#[test]
fn try_from_round_trip() {
    let rows = sample_rows();
    let grid = Grid::try_from(&rows).unwrap();
    let back: Vec<Vec<Cell>> = grid.iter().into_iter().map(|row| row.to_vec()).collect();
    assert_eq!(back, rows);
    assert_eq!(
        grid.flat(),
        &[
            Cell::Dead, Cell::Live, Cell::Dead, Cell::Live, Cell::Dead, Cell::Live, Cell::Dead,
            Cell::Live, Cell::Dead, Cell::Dead, Cell::Live, Cell::Dead,
        ][..]
    );
}

#[test]
fn try_from_rejects_ragged_rows() {
    let rows = vec![vec![Cell::Dead, Cell::Live], vec![Cell::Live]];
    assert!(Grid::try_from(&rows).is_none());
    let rows = vec![vec![Cell::Dead], vec![Cell::Live, Cell::Live]];
    assert!(Grid::try_from(&rows).is_none());
}

#[test]
fn try_from_no_rows_is_empty() {
    let rows: Vec<Vec<Cell>> = Vec::new();
    let grid = Grid::try_from(&rows).unwrap();
    assert_eq!(grid.shape(), (0, 0));
    assert_eq!(grid.cells(), 0);
    assert!(grid == Grid::empty());
}

#[test]
fn get_cell_bounds() {
    let grid = Grid::try_from(&sample_rows()).unwrap();
    assert_eq!(grid.get_cell(0, 1), Some(&Cell::Live));
    assert_eq!(grid.get_cell(1, 1), Some(&Cell::Dead));
    assert_eq!(grid.get_cell(3, 2), Some(&Cell::Dead));
    assert_eq!(grid.get_cell(4, 0), None);
    assert_eq!(grid.get_cell(0, 3), None);
    assert_eq!(grid.get_cell(usize::MAX, usize::MAX), None);
    assert!(grid.get(4).is_none());
    assert_eq!(*grid.get_cell_unchecked(1, 2), Cell::Live);
    assert_eq!(grid.get_unchecked(2), &[Cell::Dead, Cell::Live, Cell::Dead][..]);
}

#[test]
fn mutable_access_changes_one_place() {
    let mut grid = Grid::new(3, 4);
    *grid.get_cell_mut(1, 2).unwrap() = Cell::Live;
    assert!(grid.get_cell_mut(3, 0).is_none());
    assert_eq!(grid.get_cell(1, 2), Some(&Cell::Live));
    assert_eq!(grid.flat().iter().filter(|c| c.is_live()).count(), 1);

    grid.get_mut(2).unwrap()[0] = Cell::Live;
    assert!(grid.get_mut(3).is_none());
    assert_eq!(grid.get_cell(2, 0), Some(&Cell::Live));

    *grid.get_cell_unchecked_mut(0, 3) = Cell::Live;
    grid.get_unchecked_mut(0)[0] = Cell::Live;
    assert_eq!(grid.to_string(), "LDDL\nDDLD\nLDDD\n");

    grid.flat_mut()[11] = Cell::Live;
    assert_eq!(grid.get_cell(2, 3), Some(&Cell::Live));
    assert_eq!(grid.shape(), (3, 4));
}

#[test]
fn construction_shapes() {
    let grid = Grid::new(2, 5);
    assert_eq!(grid.shape(), (2, 5));
    assert_eq!(grid.cells(), 10);
    assert!(grid.flat().iter().all(|c| c.is_dead()));

    let grid = Grid::new_with(3, 2, Cell::Live);
    assert_eq!(grid.shape(), (3, 2));
    assert!(grid.flat().iter().all(|c| c.is_live()));

    let grid = Grid::new(0, 7);
    assert_eq!(grid.shape(), (0, 7));
    let grid = Grid::new(7, 0);
    assert_eq!(grid.shape(), (0, 0));

    assert_eq!(Grid::empty().shape(), (0, 0));
    assert!(Grid::default() == Grid::empty());
}

#[test]
fn equality_needs_same_columns() {
    let a = Grid::new(2, 3);
    let b = Grid::new(3, 2);
    assert_eq!(a.cells(), b.cells());
    assert!(a != b);
    assert!(a == Grid::new(2, 3));
    assert!(a != Grid::new_with(2, 3, Cell::Live));
}

#[test]
fn text_rendering() {
    let grid = Grid::try_from(&sample_rows()).unwrap();
    assert_eq!(grid.to_string(), "DLD\nLDL\nDLD\nDLD\n");
    assert_eq!(Grid::empty().to_string(), "");
}

#[test]
fn random_grid_has_shape_and_both_states() {
    let mut rng = rand::rngs::SmallRng::seed_from_u64(7);
    let grid = Grid::random_with(16, 16, &mut rng);
    assert_eq!(grid.shape(), (16, 16));
    assert!(grid.flat().iter().any(|c| c.is_live()));
    assert!(grid.flat().iter().any(|c| c.is_dead()));

    let mut again = rand::rngs::SmallRng::seed_from_u64(7);
    assert!(Grid::random_with(16, 16, &mut again) == grid);

    let grid = Grid::random(4, 9).expect("no randomness from the operating system");
    assert_eq!(grid.shape(), (4, 9));
}

#[test]
fn coins_fill_row_major() {
    let coins = vec![true, false, false, true, true, false];
    let grid = Grid::from_coins(2, 3, &coins);
    assert_eq!(grid.shape(), (2, 3));
    assert_eq!(grid.to_string(), "LDD\nLLD\n");
    let none: Vec<bool> = Vec::new();
    assert!(Grid::from_coins(0, 5, &none) == Grid::new(0, 5));
}

#[test]
fn set_grid_at_overlays_and_clips() {
    let block = Grid::new_with(2, 2, Cell::Live);
    let mut grid = Grid::new(3, 4);
    grid.set_grid_at(&block, (1, 1));
    assert_eq!(grid.to_string(), "DDDD\nDLLD\nDLLD\n");

    grid.set_grid_at(&block, (2, 3));
    assert_eq!(grid.to_string(), "DDDD\nDLLD\nDLLL\n");
    assert_eq!(grid.shape(), (3, 4));

    let dead = Grid::new(1, 3);
    grid.set_grid_at(&dead, (1, 0));
    assert_eq!(grid.to_string(), "DDDD\nDDDD\nDLLL\n");

    let before = grid.clone();
    grid.set_grid_at(&block, (3, 0));
    grid.set_grid_at(&block, (0, 4));
    grid.set_grid_at(&block, (usize::MAX, usize::MAX));
    assert!(grid == before);
}
