//! Extents of the board model, as plain data for consumers that mirror the
//! model's shape elsewhere (serialization lives outside this crate).

use vstd::prelude::*;

verus! {

/// The extents of the board model's shape, for consumers that mirror it:
/// the size of a cell, of a row, and of the whole board.
#[derive(Clone, Copy, PartialEq, Eq, Structural, Debug)]
pub struct Sizes {
    pub cell: usize,
    pub row: usize,
    pub board: usize,
}

} // verus!
