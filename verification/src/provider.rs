//! The primitive move providers. The engine does not fix the per-piece
//! stepping geometry; it consumes it through the [`MoveProvider`] trait. A
//! provider supplies, for a piece sitting on a square of a board, its simple
//! (non-capturing) relocations and its one-jump captures, as pure functions
//! of the board, the square and the piece. The proof obligations of the
//! trait pin down the shape every yielded move must have; the engine's
//! contracts and the forced-capture laws are proved from them, for every
//! implementation.

use vstd::prelude::*;

use crate::board::Board;
use crate::board::Cell;
use crate::board::Piece;
use crate::board::Position;
use crate::board::cell_at;
use crate::board::cell_count;
use crate::board::cell_owned_by;
use crate::board::grid_piece_count;
use crate::board::grid_wf;
use crate::board::lemma_set_cell_cells;
use crate::board::lemma_set_cell_count;
use crate::board::set_cell;
use crate::moves::Move;
use crate::moves::MoveView;

verus! {

/// The shape of a simple move yielded for a piece at `from`: it starts
/// there, captures nothing, and lands on the board.
pub open spec fn simple_move_ok(m: MoveView, from: Position) -> bool {
    &&& m.from == from
    &&& m.to.wf()
    &&& m.captured.len() == 0
}

/// The shape of a one-jump capture yielded for `piece` at `from` on `g`: it
/// starts there, records exactly one captured square holding an opposing
/// piece, and lands on an empty square of the board.
pub open spec fn capture_move_ok(
    g: Seq<Seq<Cell>>,
    from: Position,
    piece: Piece,
    m: MoveView,
) -> bool {
    &&& m.from == from
    &&& m.to.wf()
    &&& m.captured.len() == 1
    &&& m.captured[0].wf()
    &&& cell_at(g, m.to) == Cell::Empty
    &&& cell_owned_by(cell_at(g, m.captured[0]), piece.player.opponent())
}

/// The board after performing the one-jump capture `m` with `piece`: the
/// origin is vacated, the captured square is emptied, and the piece stands
/// on the landing square.
pub open spec fn apply_capture(
    g: Seq<Seq<Cell>>,
    m: MoveView,
    piece: Piece,
) -> Seq<Seq<Cell>> {
    set_cell(set_cell(set_cell(g, m.from, Cell::Empty), m.captured[0], Cell::Empty), m.to,
        Cell::Occupied(piece))
}

/// Performing a one-jump capture removes exactly one opposing piece, keeps
/// the grid well-formed, and leaves the mover on the landing square.
pub proof fn lemma_apply_capture(g: Seq<Seq<Cell>>, m: MoveView, piece: Piece, from: Position)
    requires
        grid_wf(g),
        from.wf(),
        cell_at(g, from) == Cell::Occupied(piece),
        capture_move_ok(g, from, piece, m),
    ensures
        grid_wf(apply_capture(g, m, piece)),
        grid_piece_count(apply_capture(g, m, piece), piece.player.opponent()) + 1
            == grid_piece_count(g, piece.player.opponent()),
        cell_at(apply_capture(g, m, piece), m.to) == Cell::Occupied(piece),
{
    let opp = piece.player.opponent();
    let cap = m.captured[0];
    let g1 = set_cell(g, m.from, Cell::Empty);
    let g2 = set_cell(g1, cap, Cell::Empty);
    let g3 = set_cell(g2, m.to, Cell::Occupied(piece));
    lemma_set_cell_count(g, m.from, Cell::Empty, opp);
    lemma_set_cell_cells(g, m.from, Cell::Empty);
    lemma_set_cell_count(g1, cap, Cell::Empty, opp);
    lemma_set_cell_cells(g1, cap, Cell::Empty);
    lemma_set_cell_count(g2, m.to, Cell::Occupied(piece), opp);
    lemma_set_cell_cells(g2, m.to, Cell::Occupied(piece));
    // The origin holds the mover, the captured square an opposing piece and
    // the landing square nothing: their cells differ pairwise, so the three
    // squares are pairwise distinct, and exactly the captured opposing piece
    // leaves the grid.
    assert(cell_count(cell_at(g, m.from), opp) == 0);
    assert(cap != m.from);
    assert(cell_at(g1, cap) == cell_at(g, cap));
    assert(m.to != m.from && m.to != cap);
    assert(cell_at(g2, m.to) == cell_at(g, m.to));
    assert(cell_count(Cell::Occupied(piece), opp) == 0);
}

/// A source of primitive moves: the stepping geometry of the game, supplied
/// by the caller of the engine.
///
/// Both producers are pure functions of `(board, from, piece)`: the
/// executable methods return exactly the sequences the spec functions
/// denote, so repeated queries on an unchanged board yield identical
/// results.
pub trait MoveProvider: Sized {
    /// All non-capturing relocations of `piece` sitting at `from` on `g`.
    spec fn spec_simple_moves(&self, g: Seq<Seq<Cell>>, from: Position, piece: Piece) -> Seq<
        MoveView,
    >;

    /// All one-jump captures of `piece` sitting at `from` on `g`, each
    /// recording exactly one captured square.
    spec fn spec_single_captures(&self, g: Seq<Seq<Cell>>, from: Position, piece: Piece) -> Seq<
        MoveView,
    >;

    /// Every yielded simple move starts at `from`, lands on the board and
    /// captures nothing.
    proof fn lemma_simple_moves_ok(&self, g: Seq<Seq<Cell>>, from: Position, piece: Piece)
        requires
            grid_wf(g),
            from.wf(),
            cell_at(g, from) == Cell::Occupied(piece),
        ensures
            forall|i: int|
                0 <= i < self.spec_simple_moves(g, from, piece).len() ==> simple_move_ok(
                    #[trigger] self.spec_simple_moves(g, from, piece)[i],
                    from,
                ),
    ;

    /// Every yielded capture starts at `from`, lands on an empty square of
    /// the board and captures exactly one opposing piece.
    proof fn lemma_single_captures_ok(&self, g: Seq<Seq<Cell>>, from: Position, piece: Piece)
        requires
            grid_wf(g),
            from.wf(),
            cell_at(g, from) == Cell::Occupied(piece),
        ensures
            forall|i: int|
                0 <= i < self.spec_single_captures(g, from, piece).len() ==> capture_move_ok(
                    g,
                    from,
                    piece,
                    #[trigger] self.spec_single_captures(g, from, piece)[i],
                ),
    ;

    /// The simple moves of `piece` sitting at `from`; empty when no simple
    /// move exists. Captures are never considered here.
    fn simple_moves(&self, board: &Board, from: Position, piece: Piece) -> (r: Vec<Move>)
        requires
            grid_wf(board@),
            from.wf(),
            cell_at(board@, from) == Cell::Occupied(piece),
        ensures
            r.deep_view() == self.spec_simple_moves(board@, from, piece),
    ;

    /// The one-jump captures of `piece` sitting at `from`; empty when no
    /// capture exists.
    fn single_captures(&self, board: &Board, from: Position, piece: Piece) -> (r: Vec<Move>)
        requires
            grid_wf(board@),
            from.wf(),
            cell_at(board@, from) == Cell::Occupied(piece),
        ensures
            r.deep_view() == self.spec_single_captures(board@, from, piece),
    ;
}

} // verus!
