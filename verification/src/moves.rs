//! Moves: a transition of one piece from an origin to a destination,
//! optionally recording the squares captured on the way, in the order
//! captured. A simple move records no captures; a capture chain records one
//! or more.

use vstd::prelude::*;

use crate::board::Position;

verus! {

/// A move of one piece, produced fresh per query and owned by the caller.
#[derive(Clone, PartialEq, Eq, Debug)]
pub struct Move {
    /// Where the piece stood when the move begins.
    pub from: Position,
    /// Where the piece stands when the move ends.
    pub to: Position,
    /// The squares captured, in the order captured; empty for a simple move.
    pub captured: Vec<Position>,
}

/// The mathematical value of a [`Move`].
#[verifier::ext_equal]
pub ghost struct MoveView {
    pub from: Position,
    pub to: Position,
    pub captured: Seq<Position>,
}

impl View for Move {
    type V = MoveView;

    open spec fn view(&self) -> MoveView {
        MoveView { from: self.from, to: self.to, captured: self.captured@ }
    }
}

impl DeepView for Move {
    type V = MoveView;

    open spec fn deep_view(&self) -> MoveView {
        self@
    }
}

/// A fresh copy of a vector of positions.
pub fn copy_positions(src: &Vec<Position>) -> (r: Vec<Position>)
    ensures
        r@ == src@,
{
    let mut r: Vec<Position> = Vec::new();
    let mut i: usize = 0;
    while i < src.len()
        invariant
            i <= src@.len(),
            r@ == src@.take(i as int),
        decreases src@.len() - i,
    {
        r.push(src[i]);
        proof {
            assert(r@ =~= src@.take(i + 1));
        }
        i = i + 1;
    }
    proof {
        assert(src@.take(src@.len() as int) =~= src@);
    }
    r
}

/// The concatenation of two vectors of positions, as a fresh vector.
pub fn concat_positions(a: &Vec<Position>, b: &Vec<Position>) -> (r: Vec<Position>)
    ensures
        r@ == a@ + b@,
{
    let mut r = copy_positions(a);
    let mut i: usize = 0;
    while i < b.len()
        invariant
            i <= b@.len(),
            r@ == a@ + b@.take(i as int),
        decreases b@.len() - i,
    {
        r.push(b[i]);
        proof {
            assert(r@ =~= a@ + b@.take(i + 1));
        }
        i = i + 1;
    }
    proof {
        assert(a@ + b@.take(b@.len() as int) =~= a@ + b@);
    }
    r
}

} // verus!
