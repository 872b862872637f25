//! Conway's Game of Life on a finite grid: the cell buffer and the
//! generation-transition engines, with their contracts proved by Verus.
use vstd::prelude::*;

pub mod cell;
pub mod engine;

verus! {

} // verus!
