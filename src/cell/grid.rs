use vstd::prelude::*;
use vstd::arithmetic::div_mod::lemma_div_multiples_vanish;

use rand::rngs::{OsRng, SmallRng};
use rand::{Rng, SeedableRng};

use super::Cell;

verus! {

#[verifier::external_type_specification]
#[verifier::external_body]
pub struct ExSmallRng(SmallRng);

/// Relies on rand's `SeedableRng::from_rng` for `SmallRng`, fed by `OsRng`:
/// a fresh generator seeded from the operating system's randomness, or
/// `None` where the operating system has none to give.
#[verifier::external_body]
fn entropy_rng() -> (r: Option<SmallRng>) {
    SmallRng::from_rng(OsRng).ok()
}

/// Relies on rand's `Rng::gen::<bool>`: one fair coin flip drawn from `rng`.
#[verifier::external_body]
fn coin_flip(rng: &mut SmallRng) -> (r: bool) {
    rng.gen::<bool>()
}

/// The symbols of a row of cells.
pub open spec fn symbols(row: Seq<Cell>) -> Seq<char> {
    row.map_values(|c: Cell| c.spec_symbol())
}

/// The text of a grid: each row as its symbols, followed by a newline.
pub open spec fn grid_text(rows: Seq<Seq<Cell>>) -> Seq<char>
    decreases rows.len(),
{
    if rows.len() == 0 {
        Seq::empty()
    } else {
        grid_text(rows.drop_last()) + symbols(rows.last()) + seq!['\n']
    }
}

/// A 2D matrix representing the current state in Conway's Game of Life.
///
/// The cells are kept in row-major order: the cell at `(row, col)` is at
/// index `row * columns + col`. The number of rows is derived from the
/// number of cells and the number of columns.
#[derive(Debug, Clone, Eq, PartialOrd, Ord)]
pub struct Grid {
    cells: Vec<Cell>,
    columns: usize,
}

/// The index of `(row, col)` in the row-major buffer of a grid with
/// `columns` columns.
pub open spec fn flat_index(row: int, col: int, columns: int) -> int {
    row * columns + col
}

/// Rows of equal length: every row is as long as the first one.
pub open spec fn uniform(rows: Seq<Seq<Cell>>) -> bool {
    forall|i: int| 0 <= i < rows.len() ==> #[trigger] rows[i].len() == rows[0].len()
}

/// The number of columns of a grid built from `rows`.
pub open spec fn width(rows: Seq<Seq<Cell>>) -> nat {
    if rows.len() == 0 {
        0
    } else {
        rows[0].len()
    }
}

/// The rows laid end to end, first row first.
pub open spec fn concat_rows(rows: Seq<Seq<Cell>>) -> Seq<Cell>
    decreases rows.len(),
{
    if rows.len() == 0 {
        Seq::empty()
    } else {
        concat_rows(rows.drop_last()) + rows.last()
    }
}

/// Laying out rows of one width `w` puts `rows[i][j]` at `i * w + j`.
proof fn lemma_concat_rows(rows: Seq<Seq<Cell>>, w: nat)
    requires
        forall|i: int| 0 <= i < rows.len() ==> #[trigger] rows[i].len() == w,
    ensures
        concat_rows(rows).len() == rows.len() * w,
        forall|i: int, j: int|
            0 <= i < rows.len() && 0 <= j < w ==> concat_rows(rows)[#[trigger] flat_index(i, j, w as int)]
                == #[trigger] rows[i][j],
    decreases rows.len(),
{
    if rows.len() > 0 {
        let init = rows.drop_last();
        lemma_concat_rows(init, w);
        let n = init.len();
        assert(concat_rows(rows).len() == rows.len() * w) by (nonlinear_arith)
            requires
                concat_rows(rows).len() == n * w + w,
                rows.len() == n + 1,
        ;
        assert forall|i: int, j: int| 0 <= i < rows.len() && 0 <= j < w implies concat_rows(rows)[
            flat_index(i, j, w as int)] == rows[i][j] by {
            if i < n {
                assert(flat_index(i, j, w as int) < n * w) by (nonlinear_arith)
                    requires
                        0 <= i < n,
                        0 <= j < w,
                ;
                assert(init[i] == rows[i]);
            } else {
                assert(flat_index(i, j, w as int) == n * w + j) by (nonlinear_arith)
                    requires
                        i == n,
                ;
            }
        }
    }
}

/// Building a grid from rows of one width and reading it back row by row
/// gives the rows that it was built from. Rows that are all empty are left
/// out: they make a grid without columns, and so without rows.
pub proof fn lemma_round_trip(rows: Seq<Seq<Cell>>, g: Grid)
    requires
        uniform(rows),
        width(rows) > 0 || rows.len() == 0,
        g.wf(),
        g.spec_columns() == width(rows),
        g@ == concat_rows(rows),
    ensures
        g.rows_view() == rows,
{
    if rows.len() == 0 {
        assert(g.rows_view() =~= rows);
    } else {
        let w = width(rows);
        lemma_concat_rows(rows, w);
        Grid::lemma_rows_of(g@.len(), rows.len(), w);
        assert forall|i: int| 0 <= i < rows.len() implies #[trigger] g.row_at(i) == rows[i] by {
            assert(flat_index(i + 1, 0, w as int) == flat_index(i, 0, w as int) + w) by (nonlinear_arith);
            g.lemma_index_in_bounds(i, 0);
            assert forall|j: int| 0 <= j < w implies #[trigger] g.row_at(i)[j] == rows[i][j] by {
                assert(flat_index(i, 0, w as int) + j == flat_index(i, j, w as int));
            }
            assert(g.row_at(i) =~= rows[i]);
        }
        assert(g.rows_view() =~= rows);
    }
}

/// Two places of a row-major buffer of width `w` are the same only for the
/// same row and column.
proof fn lemma_flat_index_injective(r1: int, c1: int, r2: int, c2: int, w: int)
    requires
        0 <= r1,
        0 <= r2,
        0 <= c1 < w,
        0 <= c2 < w,
        flat_index(r1, c1, w) == flat_index(r2, c2, w),
    ensures
        r1 == r2,
        c1 == c2,
{
    if r1 < r2 {
        assert(r1 * w + c1 < r2 * w + c2) by (nonlinear_arith)
            requires
                r1 < r2,
                0 <= c1 < w,
                0 <= c2,
        ;
    } else if r2 < r1 {
        assert(r2 * w + c2 < r1 * w + c1) by (nonlinear_arith)
            requires
                r2 < r1,
                0 <= c2 < w,
                0 <= c1,
        ;
    }
}

/// The cell at `(row, col)` after `other` is laid over `g` with its top
/// left corner at `(start_row, start_col)`: the cell of `other` inside that
/// window, the cell of `g` outside it.
pub open spec fn overlaid_cell(g: Grid, other: Grid, start_row: int, start_col: int, row: int, col: int) -> Cell {
    if start_row <= row < start_row + other.spec_rows() && start_col <= col < start_col + other.spec_columns() {
        other.cell_at(row - start_row, col - start_col)
    } else {
        g.cell_at(row, col)
    }
}

impl Grid {
    /// The cells of the grid, row-major.
    pub closed spec fn view(&self) -> Seq<Cell> {
        self.cells@
    }

    /// The number of columns of the grid.
    pub closed spec fn spec_columns(&self) -> nat {
        self.columns as nat
    }

    /// The number of rows: the number of cells over the number of columns,
    /// or zero where there are no columns.
    pub open spec fn spec_rows(&self) -> nat {
        if self.spec_columns() > 0 {
            self@.len() / self.spec_columns()
        } else {
            0
        }
    }

    /// Well-formed: the buffer holds exactly `rows * columns` cells.
    pub open spec fn wf(&self) -> bool {
        self@.len() == self.spec_rows() * self.spec_columns()
    }

    /// Whether `(row, col)` lies inside the grid.
    pub open spec fn in_bounds(&self, row: int, col: int) -> bool {
        0 <= row < self.spec_rows() && 0 <= col < self.spec_columns()
    }

    /// The cell at `(row, col)`.
    pub open spec fn cell_at(&self, row: int, col: int) -> Cell {
        self@[flat_index(row, col, self.spec_columns() as int)]
    }

    /// The row `row`, as a sequence of cells.
    pub open spec fn row_at(&self, row: int) -> Seq<Cell> {
        self@.subrange(
            flat_index(row, 0, self.spec_columns() as int),
            flat_index(row + 1, 0, self.spec_columns() as int),
        )
    }

    /// All the rows of the grid, top to bottom.
    pub open spec fn rows_view(&self) -> Seq<Seq<Cell>> {
        Seq::new(self.spec_rows(), |row: int| self.row_at(row))
    }

    /// Every cell of a well-formed grid has its place inside the buffer.
    pub proof fn lemma_index_in_bounds(&self, row: int, col: int)
        requires
            self.wf(),
            self.in_bounds(row, col),
        ensures
            0 <= flat_index(row, col, self.spec_columns() as int) < self@.len(),
            flat_index(row, col, self.spec_columns() as int) + self.spec_columns() - col <= self@.len(),
            self@.len() <= usize::MAX,
    {
        assert(self.cells@.len() == self.cells.len());
        let c = self.spec_columns() as int;
        let r = self.spec_rows() as int;
        assert(0 <= row * c + col && row * c + c <= r * c) by (nonlinear_arith)
            requires
                0 <= row < r,
                0 <= col < c,
        ;
    }

    /// A buffer of `rows * columns` cells over `columns > 0` columns has
    /// `rows` rows.
    proof fn lemma_rows_of(len: nat, rows: nat, columns: nat)
        requires
            columns > 0,
            len == rows * columns,
        ensures
            len / columns == rows,
    {
        lemma_div_multiples_vanish(rows as int, columns as int);
        assert(rows * columns == columns * rows) by (nonlinear_arith);
    }

    /// Creates a grid of `(rows, columns)` cells in the default state.
    ///
    /// The number of cells, `rows * columns`, must fit in a `usize`.
    pub fn new(rows: usize, columns: usize) -> (r: Grid)
        requires
            rows * columns <= usize::MAX,
        ensures
            r.wf(),
            r.spec_columns() == columns,
            columns > 0 ==> r.spec_rows() == rows,
            r@ == Seq::new((rows * columns) as nat, |i: int| Cell::Dead),
    {
        Grid::new_with(rows, columns, Cell::Dead)
    }

    /// Creates a grid of `(rows, columns)` cells in the given state.
    ///
    /// The number of cells, `rows * columns`, must fit in a `usize`.
    pub fn new_with(rows: usize, columns: usize, cell: Cell) -> (r: Grid)
        requires
            rows * columns <= usize::MAX,
        ensures
            r.wf(),
            r.spec_columns() == columns,
            columns > 0 ==> r.spec_rows() == rows,
            r@ == Seq::new((rows * columns) as nat, |i: int| cell),
    {
        let n: usize = rows * columns;
        let cells = vec![cell; n];
        let r = Grid { cells, columns };
        proof {
            if columns > 0 {
                Grid::lemma_rows_of(n as nat, rows as nat, columns as nat);
            }
            assert(r@ =~= Seq::new((rows * columns) as nat, |i: int| cell));
        }
        r
    }

    /// Creates an empty grid, of shape `(0, 0)`.
    pub fn empty() -> (r: Grid)
        ensures
            r.wf(),
            r.spec_rows() == 0,
            r.spec_columns() == 0,
            r@.len() == 0,
    {
        Grid::new(0, 0)
    }

    /// Creates a grid from a sequence of rows.
    ///
    /// Returns [`None`] when the rows have different lengths. With no rows
    /// the grid is empty.
    pub fn try_from(rows: &[Vec<Cell>]) -> (r: Option<Grid>)
        ensures
            r is Some <==> uniform(rows@.map_values(|v: Vec<Cell>| v@)),
            r matches Some(g) ==> {
                &&& g.wf()
                &&& g.spec_columns() == width(rows@.map_values(|v: Vec<Cell>| v@))
                &&& g@ == concat_rows(rows@.map_values(|v: Vec<Cell>| v@))
            },
    {
        let ghost model = rows@.map_values(|v: Vec<Cell>| v@);
        let columns: usize = if rows.len() == 0 {
            0
        } else {
            rows[0].len()
        };
        let mut cells: Vec<Cell> = Vec::new();
        let mut i: usize = 0;
        while i < rows.len()
            invariant
                i <= rows.len(),
                model == rows@.map_values(|v: Vec<Cell>| v@),
                columns == width(model),
                forall|k: int| 0 <= k < i ==> #[trigger] model[k].len() == columns,
                cells@ == concat_rows(model.subrange(0, i as int)),
            decreases rows.len() - i,
        {
            if rows[i].len() != columns {
                proof {
                    assert(model[i as int].len() != model[0].len());
                }
                return None;
            }
            cells.extend_from_slice(rows[i].as_slice());
            proof {
                let done = model.subrange(0, i as int + 1);
                assert(done.drop_last() =~= model.subrange(0, i as int));
                assert(done.last() == model[i as int]);
            }
            i = i + 1;
        }
        proof {
            assert(model.subrange(0, rows.len() as int) =~= model);
            lemma_concat_rows(model, columns as nat);
        }
        let g = Grid { cells, columns };
        proof {
            if columns > 0 {
                Grid::lemma_rows_of(cells@.len(), model.len(), columns as nat);
            } else {
                assert(model.len() * 0 == 0) by (nonlinear_arith);
            }
        }
        Some(g)
    }

    /// The number of rows in the grid.
    pub fn rows(&self) -> (r: usize)
        ensures
            r == self.spec_rows(),
    {
        if self.columns > 0 {
            self.cells.len() / self.columns
        } else {
            0
        }
    }

    /// The number of columns in each row of the grid.
    pub fn columns(&self) -> (r: usize)
        ensures
            r == self.spec_columns(),
    {
        self.columns
    }

    /// The shape `(rows, columns)` of the grid.
    pub fn shape(&self) -> (r: (usize, usize))
        ensures
            r == (self.spec_rows() as usize, self.spec_columns() as usize),
    {
        (self.rows(), self.columns())
    }

    /// The total number of cells in the grid.
    pub fn cells(&self) -> (r: usize)
        ensures
            r == self@.len(),
    {
        self.cells.len()
    }

    /// A slice over all the cells in the grid, row-major order.
    pub fn flat(&self) -> (r: &[Cell])
        ensures
            r@ == self@,
    {
        self.cells.as_slice()
    }

    /// A mutable slice over all the cells in the grid, row-major order.
    ///
    /// The shape stays: what is written through the slice becomes the cells.
    pub fn flat_mut(&mut self) -> (r: &mut [Cell])
        ensures
            r@ == old(self)@,
            final(self)@ == final(r)@,
            final(self).spec_columns() == old(self).spec_columns(),
    {
        self.cells.as_mut_slice()
    }

    /// Returns a reference to a row of cells.
    ///
    /// If the row is out-of-bounds, returns [`None`].
    pub fn get(&self, row: usize) -> (r: Option<&[Cell]>)
        requires
            self.wf(),
        ensures
            r is Some <==> row < self.spec_rows(),
            r matches Some(s) ==> s@ == self.row_at(row as int),
    {
        if row < self.rows() {
            proof {
                self.lemma_index_in_bounds(row as int, 0);
            }
            let start: usize = row * self.columns;
            let end: usize = start + self.columns;
            proof {
                let c = self.spec_columns() as int;
                assert((row + 1) * c == row * c + c) by (nonlinear_arith);
            }
            Some(&self.cells.as_slice()[start..end])
        } else {
            None
        }
    }

    /// Returns a reference to a row of cells, without a bounds check at
    /// run time: the caller has established that `row` is in bounds.
    pub fn get_unchecked(&self, row: usize) -> (r: &[Cell])
        requires
            self.wf(),
            row < self.spec_rows(),
        ensures
            r@ == self.row_at(row as int),
    {
        proof {
            self.lemma_index_in_bounds(row as int, 0);
            let c = self.spec_columns() as int;
            assert((row + 1) * c == row * c + c) by (nonlinear_arith);
        }
        let start: usize = row * self.columns;
        let end: usize = start + self.columns;
        &self.cells.as_slice()[start..end]
    }

    /// Returns a mutable reference to a row of cells, without a bounds
    /// check at run time: the caller has established that `row` is in
    /// bounds. Only that row can change through the reference.
    pub fn get_unchecked_mut(&mut self, row: usize) -> (r: &mut [Cell])
        requires
            old(self).wf(),
            row < old(self).spec_rows(),
        ensures
            r@ == old(self).row_at(row as int),
            final(self).spec_columns() == old(self).spec_columns(),
            final(self)@ == old(self)@.subrange(0, flat_index(row as int, 0, old(self).spec_columns() as int))
                + final(r)@ + old(self)@.subrange(
                flat_index(row as int + 1, 0, old(self).spec_columns() as int),
                old(self)@.len() as int,
            ),
    {
        proof {
            self.lemma_index_in_bounds(row as int, 0);
            let c = self.spec_columns() as int;
            assert((row + 1) * c == row * c + c) by (nonlinear_arith);
        }
        let columns = self.columns;
        let start: usize = row * columns;
        let (_, rest) = self.cells.as_mut_slice().split_at_mut(start);
        let (cells, _) = rest.split_at_mut(columns);
        cells
    }

    /// Returns a mutable reference to a row of cells.
    ///
    /// If the row is out-of-bounds, returns [`None`]. Only that row can
    /// change through the reference.
    pub fn get_mut(&mut self, row: usize) -> (r: Option<&mut [Cell]>)
        requires
            old(self).wf(),
        ensures
            r is Some <==> row < old(self).spec_rows(),
            r is None ==> *final(self) == *old(self),
            r is Some ==> {
                &&& r.unwrap()@ == old(self).row_at(row as int)
                &&& final(self).spec_columns() == old(self).spec_columns()
                &&& final(self)@ == old(self)@.subrange(0, flat_index(row as int, 0, old(self).spec_columns() as int))
                    + final(r.unwrap())@ + old(self)@.subrange(
                    flat_index(row as int + 1, 0, old(self).spec_columns() as int),
                    old(self)@.len() as int,
                )
            },
    {
        if row < self.rows() {
            Some(self.get_unchecked_mut(row))
        } else {
            None
        }
    }

    /// Returns a reference to a cell, without a bounds check at run time:
    /// the caller has established that `(row, col)` is in bounds.
    pub fn get_cell_unchecked(&self, row: usize, col: usize) -> (r: &Cell)
        requires
            self.wf(),
            self.in_bounds(row as int, col as int),
        ensures
            *r == self.cell_at(row as int, col as int),
    {
        proof {
            self.lemma_index_in_bounds(row as int, col as int);
        }
        &self.cells[row * self.columns + col]
    }

    /// Returns a mutable reference to a cell, without a bounds check at run
    /// time: the caller has established that `(row, col)` is in bounds.
    /// Only that cell can change through the reference.
    pub fn get_cell_unchecked_mut(&mut self, row: usize, col: usize) -> (r: &mut Cell)
        requires
            old(self).wf(),
            old(self).in_bounds(row as int, col as int),
        ensures
            *r == old(self).cell_at(row as int, col as int),
            final(self)@ == old(self)@.update(
                flat_index(row as int, col as int, old(self).spec_columns() as int),
                *final(r),
            ),
            final(self).spec_columns() == old(self).spec_columns(),
    {
        proof {
            self.lemma_index_in_bounds(row as int, col as int);
        }
        let i: usize = row * self.columns + col;
        &mut self.cells[i]
    }

    /// Returns a reference to a cell.
    ///
    /// If the index is out-of-bounds, returns [`None`].
    pub fn get_cell(&self, row: usize, col: usize) -> (r: Option<&Cell>)
        requires
            self.wf(),
        ensures
            r is Some <==> self.in_bounds(row as int, col as int),
            r matches Some(c) ==> *c == self.cell_at(row as int, col as int),
    {
        if row < self.rows() && col < self.columns {
            proof {
                self.lemma_index_in_bounds(row as int, col as int);
            }
            Some(&self.cells[row * self.columns + col])
        } else {
            None
        }
    }

    /// Returns a mutable reference to a cell.
    ///
    /// If the index is out-of-bounds, returns [`None`]. Only that cell can
    /// change through the reference.
    pub fn get_cell_mut(&mut self, row: usize, col: usize) -> (r: Option<&mut Cell>)
        requires
            old(self).wf(),
        ensures
            r is Some <==> old(self).in_bounds(row as int, col as int),
            r is None ==> *final(self) == *old(self),
            r is Some ==> {
                &&& *r.unwrap() == old(self).cell_at(row as int, col as int)
                &&& final(self)@ == old(self)@.update(
                    flat_index(row as int, col as int, old(self).spec_columns() as int),
                    *final(r.unwrap()),
                )
                &&& final(self).spec_columns() == old(self).spec_columns()
            },
    {
        if row < self.rows() && col < self.columns {
            proof {
                self.lemma_index_in_bounds(row as int, col as int);
            }
            let i: usize = row * self.columns + col;
            Some(&mut self.cells[i])
        } else {
            None
        }
    }

    /// The rows of the grid, top to bottom.
    pub fn iter(&self) -> (r: Vec<&[Cell]>)
        requires
            self.wf(),
        ensures
            r@.len() == self.spec_rows(),
            forall|i: int| 0 <= i < r@.len() ==> (#[trigger] r@[i])@ == self.row_at(i),
    {
        let rows = self.rows();
        let mut out: Vec<&[Cell]> = Vec::new();
        let mut row: usize = 0;
        while row < rows
            invariant
                self.wf(),
                rows == self.spec_rows(),
                row <= rows,
                out@.len() == row,
                forall|i: int| 0 <= i < row ==> (#[trigger] out@[i])@ == self.row_at(i),
            decreases rows - row,
        {
            match self.get(row) {
                Some(cells) => out.push(cells),
                None => {},
            }
            row = row + 1;
        }
        out
    }

    /// Takes a row-major buffer of `rows * columns` cells as a grid.
    pub(crate) fn from_parts(cells: Vec<Cell>, rows: usize, columns: usize) -> (r: Grid)
        requires
            cells@.len() == rows * columns,
        ensures
            r.wf(),
            r@ == cells@,
            r.spec_columns() == columns,
            columns > 0 ==> r.spec_rows() == rows,
    {
        proof {
            if columns > 0 {
                Grid::lemma_rows_of(cells@.len(), rows as nat, columns as nat);
            }
        }
        Grid { cells, columns }
    }

    /// Creates a grid of `(rows, columns)` cells, each live or dead by a
    /// fair coin flip from a generator seeded by the operating system.
    ///
    /// Returns [`None`] where the operating system gives no randomness. The
    /// number of cells, `rows * columns`, must fit in a `usize`.
    pub fn random(rows: usize, columns: usize) -> (r: Option<Grid>)
        requires
            rows * columns <= usize::MAX,
        ensures
            r matches Some(g) ==> {
                &&& g.wf()
                &&& g.spec_columns() == columns
                &&& columns > 0 ==> g.spec_rows() == rows
                &&& g@.len() == rows * columns
            },
    {
        match entropy_rng() {
            Some(mut rng) => Some(Grid::random_with(rows, columns, &mut rng)),
            None => None,
        }
    }

    /// Creates a grid of `(rows, columns)` cells, each live or dead by a
    /// fair coin flip from `rng`, drawn in row-major order.
    ///
    /// The number of cells, `rows * columns`, must fit in a `usize`.
    pub fn random_with(rows: usize, columns: usize, rng: &mut SmallRng) -> (r: Grid)
        requires
            rows * columns <= usize::MAX,
        ensures
            r.wf(),
            r.spec_columns() == columns,
            columns > 0 ==> r.spec_rows() == rows,
            r@.len() == rows * columns,
    {
        let n: usize = rows * columns;
        let mut coins: Vec<bool> = Vec::new();
        let mut i: usize = 0;
        while i < n
            invariant
                i <= n,
                coins@.len() == i,
            decreases n - i,
        {
            coins.push(coin_flip(rng));
            i = i + 1;
        }
        Grid::from_coins(rows, columns, &coins)
    }

    /// Creates a grid of `(rows, columns)` cells from one coin flip per
    /// cell, in row-major order: live on heads, dead on tails.
    pub fn from_coins(rows: usize, columns: usize, coins: &Vec<bool>) -> (r: Grid)
        requires
            coins@.len() == rows * columns,
        ensures
            r.wf(),
            r.spec_columns() == columns,
            columns > 0 ==> r.spec_rows() == rows,
            r@ == coins@.map_values(|b: bool| if b { Cell::Live } else { Cell::Dead }),
    {
        let mut cells: Vec<Cell> = Vec::new();
        let mut i: usize = 0;
        while i < coins.len()
            invariant
                i <= coins@.len(),
                cells@ == coins@.subrange(0, i as int).map_values(|b: bool| if b { Cell::Live } else { Cell::Dead }),
            decreases coins@.len() - i,
        {
            cells.push(Cell::from_coin(coins[i]));
            proof {
                assert(coins@.subrange(0, i + 1) =~= coins@.subrange(0, i as int).push(coins@[i as int]));
            }
            i = i + 1;
            proof {
                assert(cells@ =~= coins@.subrange(0, i as int).map_values(|b: bool| if b { Cell::Live } else { Cell::Dead }));
            }
        }
        proof {
            assert(coins@.subrange(0, coins@.len() as int) =~= coins@);
        }
        Grid::from_parts(cells, rows, columns)
    }

    /// Copies `grid` onto this grid with its top left corner at
    /// `(start_row, start_col)`. The part of `grid` that falls outside this
    /// grid is left out; the shape of this grid stays.
    pub fn set_grid_at(&mut self, grid: &Grid, start: (usize, usize))
        requires
            old(self).wf(),
            grid.wf(),
        ensures
            final(self).wf(),
            final(self).spec_columns() == old(self).spec_columns(),
            final(self)@.len() == old(self)@.len(),
            forall|row: int, col: int|
                old(self).in_bounds(row, col) ==> #[trigger] final(self).cell_at(row, col) == overlaid_cell(
                    *old(self),
                    *grid,
                    start.0 as int,
                    start.1 as int,
                    row,
                    col,
                ),
    {
        let (start_row, start_col) = start;
        let ghost o = *self;
        let rows = self.rows();
        let columns = self.columns;
        let ghost w = columns as int;
        let other_rows = grid.rows();
        let other_columns = grid.columns();
        let end_row: usize = if start_row >= rows {
            start_row
        } else if other_rows < rows - start_row {
            start_row + other_rows
        } else {
            rows
        };
        let end_col: usize = if start_col >= columns {
            start_col
        } else if other_columns < columns - start_col {
            start_col + other_columns
        } else {
            columns
        };
        let mut row: usize = start_row;
        while row < end_row
            invariant
                self.wf(),
                grid.wf(),
                o.wf(),
                self.spec_columns() == o.spec_columns(),
                self@.len() == o@.len(),
                rows == o.spec_rows(),
                columns == o.spec_columns(),
                w == columns as int,
                other_rows == grid.spec_rows(),
                other_columns == grid.spec_columns(),
                start_row <= row <= end_row,
                end_row <= rows || end_row == start_row,
                end_row <= start_row + other_rows,
                end_row == start_row + other_rows || end_row == rows || end_row == start_row,
                start_row >= rows ==> end_row == start_row,
                end_col <= columns || end_col == start_col,
                end_col <= start_col + other_columns,
                end_col == start_col + other_columns || end_col == columns || end_col == start_col,
                start_col >= columns ==> end_col == start_col,
                forall|r: int, c: int|
                    o.in_bounds(r, c) ==> #[trigger] self.cell_at(r, c) == if start_row <= r < row && start_col <= c < end_col {
                        grid.cell_at(r - start_row, c - start_col)
                    } else {
                        o.cell_at(r, c)
                    },
            decreases end_row - row,
        {
            let mut col: usize = start_col;
            while col < end_col
                invariant
                    self.wf(),
                    grid.wf(),
                    o.wf(),
                    self.spec_columns() == o.spec_columns(),
                    self@.len() == o@.len(),
                    rows == o.spec_rows(),
                    columns == o.spec_columns(),
                    w == columns as int,
                    other_rows == grid.spec_rows(),
                    other_columns == grid.spec_columns(),
                    start_row <= row < end_row,
                    end_row <= rows,
                    end_row <= start_row + other_rows,
                    start_col <= col <= end_col,
                    end_col <= columns || end_col == start_col,
                    end_col <= start_col + other_columns,
                    start_col >= columns ==> end_col == start_col,
                    forall|r: int, c: int|
                        o.in_bounds(r, c) ==> #[trigger] self.cell_at(r, c) == if (start_row <= r < row && start_col <= c
                            < end_col) || (r == row && start_col <= c < col) {
                            grid.cell_at(r - start_row, c - start_col)
                        } else {
                            o.cell_at(r, c)
                        },
                decreases end_col - col,
            {
                proof {
                    self.lemma_index_in_bounds(row as int, col as int);
                }
                let cell = *grid.get_cell_unchecked(row - start_row, col - start_col);
                let index: usize = row * columns + col;
                let ghost before = *self;
                self.cells.set(index, cell);
                proof {
                    assert forall|r: int, c: int| o.in_bounds(r, c) implies #[trigger] self.cell_at(r, c) == if (
                    start_row <= r < row && start_col <= c < end_col) || (r == row && start_col <= c < col + 1) {
                        grid.cell_at(r - start_row, c - start_col)
                    } else {
                        o.cell_at(r, c)
                    } by {
                        if r == row && c == col {
                        } else {
                            o.lemma_index_in_bounds(r, c);
                            assert(self@ == before@.update(index as int, cell));
                            assert(index as int == flat_index(row as int, col as int, w));
                            if flat_index(r, c, w) == flat_index(row as int, col as int, w) {
                                lemma_flat_index_injective(r, c, row as int, col as int, w);
                            }
                            assert(self.cell_at(r, c) == before.cell_at(r, c));
                        }
                    }
                }
                col = col + 1;
            }
            row = row + 1;
        }
    }

    /// The text of the grid: `'D'` for a dead cell and `'L'` for a live one,
    /// each row ended by a newline.
    pub fn to_string(&self) -> (r: String)
        requires
            self.wf(),
        ensures
            r@ == grid_text(self.rows_view()),
    {
        let rows = self.rows();
        let columns = self.columns;
        let ghost w = columns as int;
        let mut text = String::new();
        let mut row: usize = 0;
        while row < rows
            invariant
                self.wf(),
                rows == self.spec_rows(),
                columns == self.spec_columns(),
                w == columns as int,
                row <= rows,
                text@ == grid_text(self.rows_view().subrange(0, row as int)),
            decreases rows - row,
        {
            let ghost before = text@;
            proof {
                assert((row + 1) * w == row * w + w) by (nonlinear_arith);
            }
            let mut col: usize = 0;
            while col < columns
                invariant
                    self.wf(),
                    rows == self.spec_rows(),
                    columns == self.spec_columns(),
                    w == columns as int,
                    row < rows,
                    (row + 1) * w == row * w + w,
                    col <= columns,
                    text@ == before + symbols(self.row_at(row as int).subrange(0, col as int)),
                decreases columns - col,
            {
                let live = match self.get_cell(row, col) {
                    Some(cell) => cell.is_live(),
                    None => false,
                };
                proof {
                    self.lemma_index_in_bounds(row as int, col as int);
                    reveal_strlit("L");
                    reveal_strlit("D");
                    assert(self.row_at(row as int)[col as int] == self.cell_at(row as int, col as int));
                    assert(symbols(self.row_at(row as int).subrange(0, col + 1)) =~= symbols(
                        self.row_at(row as int).subrange(0, col as int),
                    ).push(self.cell_at(row as int, col as int).spec_symbol()));
                }
                if live {
                    text.append("L");
                } else {
                    text.append("D");
                }
                col = col + 1;
            }
            proof {
                reveal_strlit("\n");
            }
            text.append("\n");
            proof {
                self.lemma_index_in_bounds(row as int, 0);
                let done = self.rows_view().subrange(0, row as int + 1);
                assert(done.drop_last() =~= self.rows_view().subrange(0, row as int));
                assert(self.row_at(row as int).subrange(0, w) =~= self.row_at(row as int));
            }
            row = row + 1;
        }
        proof {
            assert(self.rows_view().subrange(0, rows as int) =~= self.rows_view());
        }
        text
    }
}

impl PartialEq for Grid {
    /// Grids are equal when they hold the same cells over the same number
    /// of columns.
    fn eq(&self, other: &Grid) -> (r: bool)
        ensures
            r == (self@ == other@ && self.spec_columns() == other.spec_columns()),
    {
        if self.columns != other.columns || self.cells.len() != other.cells.len() {
            return false;
        }
        let mut i: usize = 0;
        while i < self.cells.len()
            invariant
                self.cells@.len() == other.cells@.len(),
                i <= self.cells@.len(),
                forall|k: int| 0 <= k < i ==> self.cells@[k] == other.cells@[k],
            decreases self.cells@.len() - i,
        {
            if self.cells[i] != other.cells[i] {
                return false;
            }
            i = i + 1;
        }
        proof {
            assert(self.cells@ =~= other.cells@);
        }
        true
    }
}

impl vstd::std_specs::cmp::PartialEqSpecImpl for Grid {
    open spec fn obeys_eq_spec() -> bool {
        true
    }

    open spec fn eq_spec(&self, other: &Grid) -> bool {
        self@ == other@ && self.spec_columns() == other.spec_columns()
    }
}

impl Default for Grid {
    /// The default grid is empty.
    fn default() -> (r: Grid)
        ensures
            r.wf(),
            r.spec_rows() == 0,
            r.spec_columns() == 0,
            r@.len() == 0,
    {
        Grid::empty()
    }
}

} // verus!
