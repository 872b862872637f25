use vstd::prelude::*;

mod grid;

pub use grid::{concat_rows, flat_index, grid_text, lemma_round_trip, overlaid_cell, symbols, uniform, width, Grid};

verus! {

/// The state of a single cell in Conway's Game of Life.
#[derive(Debug, Copy, Clone, PartialEq, Eq, Structural, PartialOrd, Ord, Hash)]
pub enum Cell {
    /// The cell is currently "unpopulated".
    Dead,
    /// The cell is currently "populated".
    Live,
}

impl Cell {
    /// Checks if this cell is [`Dead`](Cell::Dead).
    pub fn is_dead(&self) -> (r: bool)
        ensures
            r == (*self == Cell::Dead),
    {
        matches!(self, Cell::Dead)
    }

    /// Checks if this cell is [`Live`](Cell::Live).
    pub fn is_live(&self) -> (r: bool)
        ensures
            r == (*self == Cell::Live),
    {
        matches!(self, Cell::Live)
    }

    /// The symbol of the cell in a grid's text: `'D'` or `'L'`.
    pub open spec fn spec_symbol(self) -> char {
        match self {
            Cell::Dead => 'D',
            Cell::Live => 'L',
        }
    }

    /// The symbol of the cell in a grid's text: `'D'` for dead, `'L'` for live.
    pub fn symbol(&self) -> (r: char)
        ensures
            r == self.spec_symbol(),
    {
        match self {
            Cell::Dead => 'D',
            Cell::Live => 'L',
        }
    }

    /// The cell that a fair coin flip stands for: live on heads.
    pub fn from_coin(heads: bool) -> (r: Cell)
        ensures
            r == (if heads { Cell::Live } else { Cell::Dead }),
    {
        if heads {
            Cell::Live
        } else {
            Cell::Dead
        }
    }
}

impl Default for Cell {
    /// The default cell is dead.
    fn default() -> (r: Cell)
        ensures
            r == Cell::Dead,
    {
        Cell::Dead
    }
}

} // verus!
