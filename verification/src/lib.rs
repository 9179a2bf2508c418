//! Decision engine for the 2048 tile-merging puzzle.
//!
//! The board is a 4x4 grid packed into a single `u64`: each cell is a 4-bit
//! nibble holding the exponent of the tile's face value (nibble `e` stands
//! for the tile `2^e`, and `0` stands for an empty cell).  On top of that
//! encoding the crate builds per-row move tables, a move engine for the four
//! directions, a fixed-point heuristic evaluator, and a depth-bounded
//! expectimax search that picks the best direction for a position.

pub mod board;
pub mod engine;
pub mod eval;
pub mod search;
pub mod tables;

use vstd::prelude::*;

verus! {

/// A packed 4x4 board: sixteen 4-bit exponent nibbles, row major.
pub type Board = u64;

/// One packed row: four 4-bit exponent nibbles.
pub type Row = u16;

} // verus!
