use vstd::prelude::*;

use crate::cell::{flat_index, Cell, Grid};

use super::{flat_index_bound, is_next_generation, next_cell_at, next_state, Engine};

verus! {

/// Computes the next generation on the caller's thread, one cell after
/// another in row-major order.
#[derive(Debug, Clone, Copy, PartialEq, Eq, Structural, PartialOrd, Ord)]
pub struct SerialEngine;

impl SerialEngine {
    /// The next generation of `grid`, computed into a fresh buffer while
    /// `grid` is only read.
    fn prepare_next_grid(grid: &Grid) -> (r: Grid)
        requires
            grid.wf(),
        ensures
            r.spec_rows() == grid.spec_rows(),
            r.spec_columns() == grid.spec_columns(),
            r@.len() == grid@.len(),
            is_next_generation(*grid, r),
    {
        let rows = grid.rows();
        let columns = grid.columns();
        let ghost g = *grid;
        let ghost w = columns as int;
        let mut cells: Vec<Cell> = Vec::new();
        let mut row: usize = 0;
        while row < rows
            invariant
                grid.wf(),
                g == *grid,
                rows == g.spec_rows(),
                columns == g.spec_columns(),
                w == columns as int,
                row <= rows,
                cells@.len() == row * w,
                forall|r: int, c: int|
                    0 <= r < row && 0 <= c < w ==> cells@[#[trigger] flat_index(r, c, w)] == next_state(g, r, c),
            decreases rows - row,
        {
            let mut col: usize = 0;
            while col < columns
                invariant
                    grid.wf(),
                    g == *grid,
                    rows == g.spec_rows(),
                    columns == g.spec_columns(),
                    w == columns as int,
                    row < rows,
                    col <= columns,
                    cells@.len() == row * w + col,
                    forall|r: int, c: int|
                        0 <= r < row && 0 <= c < w ==> cells@[#[trigger] flat_index(r, c, w)] == next_state(g, r, c),
                    forall|c: int| 0 <= c < col ==> cells@[#[trigger] flat_index(row as int, c, w)] == next_state(g, row as int, c),
                decreases columns - col,
            {
                let cell = next_cell_at(grid, row, col);
                proof {
                    flat_index_bound(row as int, col as int, w, rows as int);
                }
                let ghost before = cells@;
                cells.push(cell);
                proof {
                    assert forall|r: int, c: int| 0 <= r < row && 0 <= c < w implies cells@[flat_index(r, c, w)]
                        == next_state(g, r, c) by {
                        flat_index_bound(r, c, w, row as int);
                        assert(cells@[flat_index(r, c, w)] == before[flat_index(r, c, w)]);
                    }
                    assert forall|c: int| 0 <= c < col + 1 implies cells@[flat_index(row as int, c, w)]
                        == next_state(g, row as int, c) by {
                        if c < col {
                            assert(cells@[flat_index(row as int, c, w)] == before[flat_index(row as int, c, w)]);
                        }
                    }
                }
                col = col + 1;
            }
            proof {
                assert((row + 1) * w == row * w + w) by (nonlinear_arith);
                assert forall|r: int, c: int| 0 <= r < row + 1 && 0 <= c < w implies cells@[flat_index(r, c, w)]
                    == next_state(g, r, c) by {
                    if r == row {
                        assert(cells@[flat_index(row as int, c, w)] == next_state(g, row as int, c));
                    }
                }
            }
            row = row + 1;
        }
        proof {
            assert(g@.len() == rows * w);
        }
        let next = Grid::from_parts(cells, rows, columns);
        proof {
            assert forall|r: int, c: int| g.in_bounds(r, c) implies #[trigger] next.cell_at(r, c) == next_state(g, r, c) by {
                assert(next.cell_at(r, c) == cells@[flat_index(r, c, w)]);
            }
            if columns == 0 {
                assert(rows == 0);
            }
        }
        next
    }
}

impl Engine for SerialEngine {
    fn update(&self, grid: &Grid) -> (r: Grid) {
        SerialEngine::prepare_next_grid(grid)
    }
}

} // verus!
