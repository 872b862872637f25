use vstd::prelude::*;
use vstd::arithmetic::div_mod::{lemma_div_multiples_vanish_fancy, lemma_mod_bound, lemma_mod_multiples_vanish, lemma_multiply_divide_lt};

use rayon::iter::{IntoParallelIterator, ParallelIterator};

use crate::cell::{flat_index, Cell, Grid};

use super::{is_next_generation, next_cell_at, next_state, Engine};

verus! {

/// Computes the next generation with work spread over a thread pool.
///
/// Each cell of the output is a unit of work of its own: it reads the
/// shared input grid and yields exactly one output cell, so no two units
/// write the same place.
#[derive(Debug, Clone, Copy, PartialEq, Eq, Structural, PartialOrd, Ord)]
pub struct ParallelEngine;

/// The next state of the cell at row-major place `index` of `g`.
pub open spec fn next_state_at_index(g: Grid, index: int) -> Cell {
    next_state(g, index / (g.spec_columns() as int), index % (g.spec_columns() as int))
}

/// Relies on rayon's `into_par_iter` over `0..n`, `map` and `collect`: the
/// closure runs once for every index on the pool's threads, and an indexed
/// parallel iterator collects into a `Vec` in index order.
#[verifier::external_body]
fn par_next_cells(grid: &Grid, n: usize) -> (r: Vec<Cell>)
    requires
        grid.wf(),
        n == grid@.len(),
    ensures
        r@.len() == n,
        forall|i: int| 0 <= i < n ==> #[trigger] r@[i] == next_state_at_index(*grid, i),
{
    (0..n).into_par_iter().map(|i| ParallelEngine::next_cell_at_index(grid, i)).collect()
}

impl ParallelEngine {
    /// The next state of the cell at row-major place `index`.
    fn next_cell_at_index(grid: &Grid, index: usize) -> (r: Cell)
        requires
            grid.wf(),
            index < grid@.len(),
        ensures
            r == next_state_at_index(*grid, index as int),
    {
        let columns = grid.columns();
        let rows = grid.rows();
        proof {
            if columns == 0 {
                assert(grid.spec_rows() * 0 == 0) by (nonlinear_arith);
            }
            assert(index < columns * rows) by (nonlinear_arith)
                requires
                    index < grid@.len(),
                    grid@.len() == rows * columns,
            ;
            lemma_multiply_divide_lt(index as int, columns as int, rows as int);
            lemma_mod_bound(index as int, columns as int);
        }
        next_cell_at(grid, index / columns, index % columns)
    }

    /// The next generation of `grid`, each cell computed as its own unit of
    /// parallel work into a fresh buffer while `grid` is only read.
    fn prepare_next_grid(grid: &Grid) -> (r: Grid)
        requires
            grid.wf(),
        ensures
            r.spec_rows() == grid.spec_rows(),
            r.spec_columns() == grid.spec_columns(),
            r@.len() == grid@.len(),
            is_next_generation(*grid, r),
    {
        let n = grid.cells();
        let rows = grid.rows();
        let columns = grid.columns();
        let cells = par_next_cells(grid, n);
        let next = Grid::from_parts(cells, rows, columns);
        proof {
            let w = columns as int;
            assert forall|r: int, c: int| grid.in_bounds(r, c) implies #[trigger] next.cell_at(r, c) == next_state(
                *grid,
                r,
                c,
            ) by {
                grid.lemma_index_in_bounds(r, c);
                lemma_div_multiples_vanish_fancy(r, c, w);
                lemma_mod_multiples_vanish(r, c, w);
                assert(w * r + c == flat_index(r, c, w)) by (nonlinear_arith);
                assert(c % w == c) by {
                    vstd::arithmetic::div_mod::lemma_small_mod(c as nat, w as nat);
                }
                assert(next.cell_at(r, c) == cells@[flat_index(r, c, w)]);
            }
            if columns == 0 {
                assert(rows == 0);
            }
        }
        next
    }
}

impl Engine for ParallelEngine {
    fn update(&self, grid: &Grid) -> (r: Grid) {
        ParallelEngine::prepare_next_grid(grid)
    }
}

} // verus!
