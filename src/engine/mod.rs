//! The generation-transition engines and the rule they share.
use vstd::prelude::*;
use vstd::arithmetic::div_mod::{lemma_fundamental_div_mod, lemma_mod_bound, lemma_multiply_divide_lt};

use crate::cell::{flat_index, Cell, Grid};

mod parallel;
mod serial;

pub use parallel::ParallelEngine;
pub use serial::SerialEngine;

verus! {

/// Which engine a run uses.
#[derive(Debug, Copy, Clone, PartialEq, Eq, Structural, PartialOrd, Ord, Hash)]
pub enum Mode {
    /// The serial engine.
    Serial,
    /// The parallel engine.
    Parallel,
}

/// Whether `(row, col)` is inside the grid and live there. Positions off
/// the grid are never live: the grid does not wrap around.
pub open spec fn live_at(g: Grid, row: int, col: int) -> bool {
    g.in_bounds(row, col) && g.cell_at(row, col) == Cell::Live
}

/// One for a live cell at `(row, col)`, zero otherwise.
pub open spec fn live_count(g: Grid, row: int, col: int) -> nat {
    if live_at(g, row, col) {
        1
    } else {
        0
    }
}

/// The number of live cells among the eight that surround `(row, col)`.
pub open spec fn live_neighbors(g: Grid, row: int, col: int) -> nat {
    live_count(g, row - 1, col - 1) + live_count(g, row - 1, col) + live_count(g, row - 1, col + 1)
        + live_count(g, row, col - 1) + live_count(g, row, col + 1)
        + live_count(g, row + 1, col - 1) + live_count(g, row + 1, col) + live_count(g, row + 1, col + 1)
}

/// The state of `(row, col)` in the next generation: live with exactly three
/// live neighbors, or with two where the cell is live now; dead otherwise.
pub open spec fn next_state(g: Grid, row: int, col: int) -> Cell {
    let n = live_neighbors(g, row, col);
    if n == 3 || (n == 2 && g.cell_at(row, col) == Cell::Live) {
        Cell::Live
    } else {
        Cell::Dead
    }
}

/// `next` is the generation that follows `g`: same shape, and each cell in
/// the state that the rule gives for it.
pub open spec fn is_next_generation(g: Grid, next: Grid) -> bool {
    &&& next.wf()
    &&& next.spec_rows() == g.spec_rows()
    &&& next.spec_columns() == g.spec_columns()
    &&& next@.len() == g@.len()
    &&& forall|row: int, col: int|
        g.in_bounds(row, col) ==> #[trigger] next.cell_at(row, col) == next_state(g, row, col)
}

/// Row-major places of a grid of width `w`: `(r, c)` comes before the
/// start of row `rows`, for `r < rows`.
pub proof fn flat_index_bound(r: int, c: int, w: int, rows: int)
    requires
        0 <= r < rows,
        0 <= c < w,
    ensures
        0 <= flat_index(r, c, w) < rows * w,
{
    assert(0 <= r * w + c && r * w + c < rows * w) by (nonlinear_arith)
        requires
            0 <= r < rows,
            0 <= c < w,
    ;
}

/// A way of computing the next generation of a grid.
pub trait Engine {
    /// The next generation of `grid`, in a new grid; `grid` is not changed.
    fn update(&self, grid: &Grid) -> (r: Grid)
        requires
            grid.wf(),
        ensures
            r.spec_rows() == grid.spec_rows(),
            r.spec_columns() == grid.spec_columns(),
            r@.len() == grid@.len(),
            is_next_generation(*grid, r),
    ;
}

/// Where `(i, j)` is another cell than `(row, col)`, the live count there.
pub open spec fn neighbor_count(g: Grid, row: int, col: int, i: int, j: int) -> nat {
    if i == row && j == col {
        0
    } else {
        live_count(g, i, j)
    }
}

/// The neighbor counts along row `i`, for the columns `lo..hi`.
pub open spec fn row_sum(g: Grid, row: int, col: int, i: int, lo: int, hi: int) -> nat
    decreases hi - lo,
{
    if hi <= lo {
        0
    } else {
        row_sum(g, row, col, i, lo, hi - 1) + neighbor_count(g, row, col, i, hi - 1)
    }
}

/// The neighbor counts over the rows `ilo..ihi` and the columns `jlo..jhi`.
pub open spec fn window_sum(g: Grid, row: int, col: int, ilo: int, ihi: int, jlo: int, jhi: int) -> nat
    decreases ihi - ilo,
{
    if ihi <= ilo {
        0
    } else {
        window_sum(g, row, col, ilo, ihi - 1, jlo, jhi) + row_sum(g, row, col, ihi - 1, jlo, jhi)
    }
}

/// The window clipped to the grid covers every live neighbor.
proof fn lemma_window(g: Grid, row: int, col: int, ilo: int, ihi: int, jlo: int, jhi: int)
    requires
        g.in_bounds(row, col),
        ilo == (if row > 0 { row - 1 } else { 0 }),
        ihi == (if row + 1 < g.spec_rows() { row + 2 } else { g.spec_rows() as int }),
        jlo == (if col > 0 { col - 1 } else { 0 }),
        jhi == (if col + 1 < g.spec_columns() { col + 2 } else { g.spec_columns() as int }),
    ensures
        window_sum(g, row, col, ilo, ihi, jlo, jhi) == live_neighbors(g, row, col),
{
    reveal_with_fuel(window_sum, 4);
    reveal_with_fuel(row_sum, 4);
    assert(window_sum(g, row, col, ilo, ihi, jlo, jhi) == window_sum(g, row, col, row - 1, row + 2, col - 1, col + 2));
}

/// The next state of the cell at `(row, col)`, from its live neighbors in
/// the 3x3 window around it, clipped to the grid.
pub fn next_cell_at(grid: &Grid, row: usize, col: usize) -> (r: Cell)
    requires
        grid.wf(),
        grid.in_bounds(row as int, col as int),
    ensures
        r == next_state(*grid, row as int, col as int),
{
    let rows = grid.rows();
    let columns = grid.columns();
    let start_row: usize = if row > 0 { row - 1 } else { 0 };
    let end_row: usize = if row + 1 < rows { row + 2 } else { rows };
    let start_col: usize = if col > 0 { col - 1 } else { 0 };
    let end_col: usize = if col + 1 < columns { col + 2 } else { columns };

    let mut live_cells: usize = 0;
    let mut i: usize = start_row;
    while i < end_row
        invariant
            grid.wf(),
            start_row <= i <= end_row,
            end_row <= start_row + 3,
            end_col <= start_col + 3,
            start_col <= end_col,
            live_cells <= 3 * (i - start_row),
            live_cells == window_sum(*grid, row as int, col as int, start_row as int, i as int, start_col as int, end_col as int),
        decreases end_row - i,
    {
        let mut j: usize = start_col;
        while j < end_col
            invariant
                grid.wf(),
                start_row <= i < end_row,
                end_row <= start_row + 3,
                end_col <= start_col + 3,
                start_col <= j <= end_col,
                live_cells <= 3 * (i - start_row) + (j - start_col),
                live_cells == window_sum(*grid, row as int, col as int, start_row as int, i as int, start_col as int, end_col as int)
                    + row_sum(*grid, row as int, col as int, i as int, start_col as int, j as int),
            decreases end_col - j,
        {
            if i != row || j != col {
                let live = match grid.get_cell(i, j) {
                    Some(cell) => cell.is_live(),
                    None => false,
                };
                if live {
                    live_cells = live_cells + 1;
                }
            }
            j = j + 1;
        }
        i = i + 1;
    }
    proof {
        lemma_window(*grid, row as int, col as int, start_row as int, end_row as int, start_col as int, end_col as int);
    }
    let here_live = match grid.get_cell(row, col) {
        Some(cell) => cell.is_live(),
        None => false,
    };
    if live_cells == 3 || (live_cells == 2 && here_live) {
        Cell::Live
    } else {
        Cell::Dead
    }
}

/// Any two engines agree: two grids that both follow `g` by the rule hold
/// the same cells in the same shape, so the serial and the parallel engine
/// return equal grids for every input.
pub proof fn lemma_next_generation_unique(g: Grid, a: Grid, b: Grid)
    requires
        g.wf(),
        is_next_generation(g, a),
        is_next_generation(g, b),
    ensures
        a@ == b@,
        a.spec_columns() == b.spec_columns(),
        a.spec_rows() == b.spec_rows(),
{
    let w = g.spec_columns() as int;
    assert forall|k: int| 0 <= k < a@.len() implies a@[k] == b@[k] by {
        if w == 0 {
            assert(g.spec_rows() * 0 == 0) by (nonlinear_arith);
        }
        lemma_fundamental_div_mod(k, w);
        lemma_mod_bound(k, w);
        assert(k < w * (g.spec_rows() as int)) by (nonlinear_arith)
            requires
                k < g@.len(),
                g@.len() == g.spec_rows() * g.spec_columns(),
                w == g.spec_columns(),
        ;
        lemma_multiply_divide_lt(k, w, g.spec_rows() as int);
        assert(k / w >= 0) by {
            vstd::arithmetic::div_mod::lemma_div_pos_is_pos(k, w);
        }
        assert(flat_index(k / w, k % w, w) == k) by (nonlinear_arith)
            requires
                k == w * (k / w) + k % w,
        ;
        assert(a.cell_at(k / w, k % w) == next_state(g, k / w, k % w));
        assert(b.cell_at(k / w, k % w) == next_state(g, k / w, k % w));
    }
    assert(a@ =~= b@);
}

/// No wraparound in a single row: an end cell counts only the one cell
/// beside it, never the cell at the other end, and a lone cell has no
/// neighbors.
pub proof fn lemma_single_row_ends(g: Grid)
    requires
        g.wf(),
        g.spec_rows() == 1,
    ensures
        live_neighbors(g, 0, 0) == (if g.spec_columns() > 1 { live_count(g, 0, 1) } else { 0 }),
        g.spec_columns() > 1 ==> live_neighbors(g, 0, g.spec_columns() - 1) == live_count(
            g,
            0,
            g.spec_columns() - 2,
        ),
{
}

/// No wraparound in a single column: an end cell counts only the one cell
/// beside it, never the cell at the other end, and a lone cell has no
/// neighbors.
pub proof fn lemma_single_column_ends(g: Grid)
    requires
        g.wf(),
        g.spec_columns() == 1,
    ensures
        live_neighbors(g, 0, 0) == (if g.spec_rows() > 1 { live_count(g, 1, 0) } else { 0 }),
        g.spec_rows() > 1 ==> live_neighbors(g, g.spec_rows() - 1, 0) == live_count(
            g,
            g.spec_rows() - 2,
            0,
        ),
{
}

} // verus!
