//! A concrete stepping geometry: one-step diagonal moves and jumps. Men
//! step one square diagonally forward (White toward larger ranks, Black
//! toward smaller), kings one square along any diagonal; both capture by
//! jumping an adjacent diagonal opposing piece onto the empty square
//! directly beyond, in any direction. The engine itself is parametric in
//! the geometry; this provider discharges the [`MoveProvider`] obligations,
//! so every engine contract holds of it.

use vstd::prelude::*;

use crate::board::BOARD_SIZE;
use crate::board::Board;
use crate::board::Cell;
use crate::board::Piece;
use crate::board::PieceKind;
use crate::board::Player;
use crate::board::Position;
use crate::board::cell_at;
use crate::board::cell_owned_by;
use crate::board::grid_wf;
use crate::moves::Move;
use crate::moves::MoveView;
use crate::provider::MoveProvider;
use crate::provider::capture_move_ok;
use crate::provider::simple_move_ok;

verus! {

/// The one-step diagonal geometry.
#[derive(Clone, Copy, PartialEq, Eq, Structural, Debug)]
pub struct DiagonalRules;

/// Appends the yielded move, if any.
fn push_move(r: &mut Vec<Move>, m: Option<Move>)
    ensures
        final(r).deep_view() == old(r).deep_view() + (match m {
            Some(mv) => seq![mv@],
            None => Seq::<MoveView>::empty(),
        }),
{
    let ghost before = r.deep_view();
    match m {
        Some(mv) => {
            let ghost mvv = mv@;
            r.push(mv);
            proof {
                assert(r.deep_view() =~~= before + seq![mvv]);
            }
        },
        None => {
            proof {
                assert(r.deep_view() =~~= before + Seq::<MoveView>::empty());
            }
        },
    }
}

impl DiagonalRules {
    /// The forward rank direction of `player`'s men.
    pub open spec fn forward_dy(player: Player) -> int {
        match player {
            Player::White => 1,
            Player::Black => -1,
        }
    }

    /// The simple step from `from` by `(dx, dy)`: yielded exactly when the
    /// target square lies on the board and is empty.
    pub open spec fn spec_step(g: Seq<Seq<Cell>>, from: Position, dx: int, dy: int) -> Seq<
        MoveView,
    > {
        let tx = from.x + dx;
        let ty = from.y + dy;
        if 0 <= tx && tx < BOARD_SIZE as int && 0 <= ty && ty < BOARD_SIZE as int && g[ty][tx]
            == Cell::Empty {
            seq![
                MoveView {
                    from,
                    to: Position { x: tx as u8, y: ty as u8 },
                    captured: Seq::empty(),
                },
            ]
        } else {
            Seq::empty()
        }
    }

    /// The jump from `from` over the adjacent square in direction
    /// `(dx, dy)`: yielded exactly when that square holds a piece of the
    /// opponent of `player` and the square directly beyond lies on the
    /// board and is empty.
    pub open spec fn spec_jump(
        g: Seq<Seq<Cell>>,
        from: Position,
        player: Player,
        dx: int,
        dy: int,
    ) -> Seq<MoveView> {
        let mx = from.x + dx;
        let my = from.y + dy;
        let tx = from.x + 2 * dx;
        let ty = from.y + 2 * dy;
        if 0 <= tx && tx < BOARD_SIZE as int && 0 <= ty && ty < BOARD_SIZE as int && 0 <= mx && mx
            < BOARD_SIZE as int && 0 <= my && my < BOARD_SIZE as int && cell_owned_by(
            g[my][mx],
            player.opponent(),
        ) && g[ty][tx] == Cell::Empty {
            seq![
                MoveView {
                    from,
                    to: Position { x: tx as u8, y: ty as u8 },
                    captured: seq![Position { x: mx as u8, y: my as u8 }],
                },
            ]
        } else {
            Seq::empty()
        }
    }

    /// Performs one simple step, exactly as [`Self::spec_step`] denotes.
    fn step(board: &Board, from: Position, dx: i8, dy: i8) -> (r: Option<Move>)
        requires
            grid_wf(board@),
            from.wf(),
            dx as int == -1 || dx as int == 1,
            dy as int == -1 || dy as int == 1,
        ensures
            (match r {
                Some(m) => seq![m@],
                None => Seq::<MoveView>::empty(),
            }) == Self::spec_step(board@, from, dx as int, dy as int),
    {
        let tx: i16 = from.x as i16 + dx as i16;
        let ty: i16 = from.y as i16 + dy as i16;
        if 0 <= tx && tx < BOARD_SIZE as i16 && 0 <= ty && ty < BOARD_SIZE as i16 {
            let to = Position { x: tx as u8, y: ty as u8 };
            match board.cell_at(to) {
                Cell::Empty => {
                    let m = Move { from, to, captured: Vec::new() };
                    proof {
                        assert(seq![m@] =~~= Self::spec_step(board@, from, dx as int, dy as int));
                    }
                    Some(m)
                },
                Cell::Occupied(_) => None,
            }
        } else {
            None
        }
    }

    /// Performs one jump, exactly as [`Self::spec_jump`] denotes.
    fn jump(board: &Board, from: Position, player: Player, dx: i8, dy: i8) -> (r: Option<Move>)
        requires
            grid_wf(board@),
            from.wf(),
            dx as int == -1 || dx as int == 1,
            dy as int == -1 || dy as int == 1,
        ensures
            (match r {
                Some(m) => seq![m@],
                None => Seq::<MoveView>::empty(),
            }) == Self::spec_jump(board@, from, player, dx as int, dy as int),
    {
        let mx: i16 = from.x as i16 + dx as i16;
        let my: i16 = from.y as i16 + dy as i16;
        let tx: i16 = from.x as i16 + 2 * (dx as i16);
        let ty: i16 = from.y as i16 + 2 * (dy as i16);
        if 0 <= tx && tx < BOARD_SIZE as i16 && 0 <= ty && ty < BOARD_SIZE as i16 && 0 <= mx && mx
            < BOARD_SIZE as i16 && 0 <= my && my < BOARD_SIZE as i16 {
            let mid = Position { x: mx as u8, y: my as u8 };
            let to = Position { x: tx as u8, y: ty as u8 };
            let over = board.cell_at(mid);
            match over.into_piece() {
                Some(q) => {
                    if q.player_affiliation() == player.opponent() {
                        match board.cell_at(to) {
                            Cell::Empty => {
                                let mut captured: Vec<Position> = Vec::new();
                                captured.push(mid);
                                let m = Move { from, to, captured };
                                proof {
                                    assert(seq![m@] =~~= Self::spec_jump(
                                        board@,
                                        from,
                                        player,
                                        dx as int,
                                        dy as int,
                                    ));
                                }
                                Some(m)
                            },
                            Cell::Occupied(_) => None,
                        }
                    } else {
                        None
                    }
                },
                None => None,
            }
        } else {
            None
        }
    }

    proof fn lemma_step_ok(g: Seq<Seq<Cell>>, from: Position, dx: int, dy: int)
        requires
            grid_wf(g),
            from.wf(),
        ensures
            forall|i: int|
                0 <= i < Self::spec_step(g, from, dx, dy).len() ==> simple_move_ok(
                    #[trigger] Self::spec_step(g, from, dx, dy)[i],
                    from,
                ),
    {
    }

    proof fn lemma_jump_ok(g: Seq<Seq<Cell>>, from: Position, piece: Piece, dx: int, dy: int)
        requires
            grid_wf(g),
            from.wf(),
        ensures
            forall|i: int|
                0 <= i < Self::spec_jump(g, from, piece.player, dx, dy).len() ==> capture_move_ok(
                    g,
                    from,
                    piece,
                    #[trigger] Self::spec_jump(g, from, piece.player, dx, dy)[i],
                ),
    {
    }
}

impl MoveProvider for DiagonalRules {
    open spec fn spec_simple_moves(&self, g: Seq<Seq<Cell>>, from: Position, piece: Piece) -> Seq<
        MoveView,
    > {
        if piece.kind == PieceKind::King {
            Self::spec_step(g, from, -1, -1) + Self::spec_step(g, from, 1, -1) + Self::spec_step(
                g,
                from,
                -1,
                1,
            ) + Self::spec_step(g, from, 1, 1)
        } else {
            let fdy = Self::forward_dy(piece.player);
            Self::spec_step(g, from, -1, fdy) + Self::spec_step(g, from, 1, fdy)
        }
    }

    open spec fn spec_single_captures(&self, g: Seq<Seq<Cell>>, from: Position, piece: Piece)
        -> Seq<MoveView> {
        Self::spec_jump(g, from, piece.player, -1, -1) + Self::spec_jump(
            g,
            from,
            piece.player,
            1,
            -1,
        ) + Self::spec_jump(g, from, piece.player, -1, 1) + Self::spec_jump(
            g,
            from,
            piece.player,
            1,
            1,
        )
    }

    proof fn lemma_simple_moves_ok(&self, g: Seq<Seq<Cell>>, from: Position, piece: Piece) {
        Self::lemma_step_ok(g, from, -1, -1);
        Self::lemma_step_ok(g, from, 1, -1);
        Self::lemma_step_ok(g, from, -1, 1);
        Self::lemma_step_ok(g, from, 1, 1);
    }

    proof fn lemma_single_captures_ok(&self, g: Seq<Seq<Cell>>, from: Position, piece: Piece) {
        Self::lemma_jump_ok(g, from, piece, -1, -1);
        Self::lemma_jump_ok(g, from, piece, 1, -1);
        Self::lemma_jump_ok(g, from, piece, -1, 1);
        Self::lemma_jump_ok(g, from, piece, 1, 1);
    }

    fn simple_moves(&self, board: &Board, from: Position, piece: Piece) -> (r: Vec<Move>) {
        let mut r: Vec<Move> = Vec::new();
        if piece.kind == PieceKind::King {
            push_move(&mut r, Self::step(board, from, -1, -1));
            push_move(&mut r, Self::step(board, from, 1, -1));
            push_move(&mut r, Self::step(board, from, -1, 1));
            push_move(&mut r, Self::step(board, from, 1, 1));
            proof {
                assert(r.deep_view() =~~= self.spec_simple_moves(board@, from, piece));
            }
        } else {
            let fdy: i8 = match piece.player {
                Player::White => 1,
                Player::Black => -1,
            };
            push_move(&mut r, Self::step(board, from, -1, fdy));
            push_move(&mut r, Self::step(board, from, 1, fdy));
            proof {
                assert(fdy as int == Self::forward_dy(piece.player));
                assert(r.deep_view() =~~= self.spec_simple_moves(board@, from, piece));
            }
        }
        r
    }

    fn single_captures(&self, board: &Board, from: Position, piece: Piece) -> (r: Vec<Move>) {
        let mut r: Vec<Move> = Vec::new();
        push_move(&mut r, Self::jump(board, from, piece.player, -1, -1));
        push_move(&mut r, Self::jump(board, from, piece.player, 1, -1));
        push_move(&mut r, Self::jump(board, from, piece.player, -1, 1));
        push_move(&mut r, Self::jump(board, from, piece.player, 1, 1));
        proof {
            assert(r.deep_view() =~~= self.spec_single_captures(board@, from, piece));
        }
        r
    }
}

} // verus!
