//! The move-resolution engine: scanning a player's pieces, the
//! forced-capture predicate, the per-square resolver, the player-wide
//! aggregator and the terminal-state check, together with the laws of the
//! forced-capture rule.

use vstd::prelude::*;

use crate::board::Board;
use crate::board::Cell;
use crate::board::Piece;
use crate::board::Player;
use crate::board::Position;
use crate::board::Row;
use crate::board::cell_at;
use crate::board::cell_owned_by;
use crate::board::grid_wf;
use crate::board::piece_of;
use crate::chains::chain_eat_moves;
use crate::chains::spec_chain_eat_moves;
use crate::chains::lemma_chains_nonempty;
use crate::chains::lemma_chain_moves_maximal;
use crate::chains::maximal_chain_ok;
use crate::moves::Move;
use crate::moves::MoveView;
use crate::provider::MoveProvider;
use crate::provider::simple_move_ok;

verus! {

/// The pieces of `player` among the first `n` cells of one rank, each with
/// its column, in column order.
pub open spec fn spec_row_positions(row: Seq<Cell>, player: Player, n: nat) -> Seq<(usize, Piece)>
    decreases n,
{
    if n == 0 {
        Seq::empty()
    } else {
        spec_row_positions(row, player, (n - 1) as nat) + (
        if cell_owned_by(row[(n - 1) as int], player) {
            seq![((n - 1) as usize, piece_of(row[(n - 1) as int]))]
        } else {
            Seq::empty()
        })
    }
}

/// Rank entries turned into board positions on rank `y`.
pub open spec fn with_row_index(entries: Seq<(usize, Piece)>, y: u8) -> Seq<(Position, Piece)> {
    entries.map_values(|e: (usize, Piece)| (Position { x: e.0 as u8, y }, e.1))
}

/// The pieces of `player` on the first `n` ranks of the grid, each with its
/// position, rank by rank in column order.
pub open spec fn spec_board_positions(g: Seq<Seq<Cell>>, player: Player, n: nat) -> Seq<
    (Position, Piece),
>
    decreases n,
{
    if n == 0 {
        Seq::empty()
    } else {
        spec_board_positions(g, player, (n - 1) as nat) + with_row_index(
            spec_row_positions(g[(n - 1) as int], player, g[(n - 1) as int].len() as nat),
            (n - 1) as u8,
        )
    }
}

/// All pieces of `player` on the grid, each with its position.
pub open spec fn spec_player_positions(g: Seq<Seq<Cell>>, player: Player) -> Seq<
    (Position, Piece),
> {
    spec_board_positions(g, player, g.len() as nat)
}

proof fn lemma_row_positions_char(row: Seq<Cell>, player: Player, n: nat)
    requires
        n <= row.len(),
        row.len() <= usize::MAX,
    ensures
        forall|k: int|
            0 <= k < spec_row_positions(row, player, n).len() ==> {
                let e = #[trigger] spec_row_positions(row, player, n)[k];
                &&& (e.0 as int) < n
                &&& cell_owned_by(row[e.0 as int], player)
                &&& e.1 == piece_of(row[e.0 as int])
            },
        forall|x: int|
            0 <= x < n && cell_owned_by(row[x], player) ==> #[trigger] spec_row_positions(
                row,
                player,
                n,
            ).contains((x as usize, piece_of(row[x]))),
    decreases n,
{
    if n > 0 {
        lemma_row_positions_char(row, player, (n - 1) as nat);
        let prior = spec_row_positions(row, player, (n - 1) as nat);
        let whole = spec_row_positions(row, player, n);
        assert forall|k: int| 0 <= k < whole.len() implies {
            let e = #[trigger] whole[k];
            &&& (e.0 as int) < n
            &&& cell_owned_by(row[e.0 as int], player)
            &&& e.1 == piece_of(row[e.0 as int])
        } by {
            if k < prior.len() {
                assert(whole[k] == prior[k]);
            } else {
                assert(whole[k] == ((n - 1) as usize, piece_of(row[(n - 1) as int])));
            }
        }
        assert forall|x: int| 0 <= x < n && cell_owned_by(row[x], player) implies whole.contains(
            (x as usize, piece_of(row[x])),
        ) by {
            if x < n - 1 {
                assert(prior.contains((x as usize, piece_of(row[x]))));
                let k = choose|k: int|
                    0 <= k < prior.len() && prior[k] == (x as usize, piece_of(row[x]));
                assert(whole[k] == (x as usize, piece_of(row[x])));
            } else {
                assert(whole[whole.len() - 1] == (x as usize, piece_of(row[x])));
            }
        }
    }
}

proof fn lemma_board_positions_char(g: Seq<Seq<Cell>>, player: Player, n: nat)
    requires
        grid_wf(g),
        n <= g.len(),
    ensures
        forall|k: int|
            0 <= k < spec_board_positions(g, player, n).len() ==> {
                let e = #[trigger] spec_board_positions(g, player, n)[k];
                &&& e.0.wf()
                &&& (e.0.y as int) < n
                &&& cell_at(g, e.0) == Cell::Occupied(e.1)
                &&& e.1.player == player
            },
        forall|pos: Position|
            pos.wf() && (pos.y as int) < n && cell_owned_by(#[trigger] cell_at(g, pos), player)
                ==> spec_board_positions(g, player, n).contains(
                (pos, piece_of(cell_at(g, pos))),
            ),
    decreases n,
{
    if n > 0 {
        lemma_board_positions_char(g, player, (n - 1) as nat);
        let y = (n - 1) as int;
        let row = g[y];
        lemma_row_positions_char(row, player, row.len() as nat);
        let prior = spec_board_positions(g, player, (n - 1) as nat);
        let rows_part = with_row_index(
            spec_row_positions(row, player, row.len() as nat),
            (n - 1) as u8,
        );
        let whole = spec_board_positions(g, player, n);
        assert forall|k: int| 0 <= k < whole.len() implies {
            let e = #[trigger] whole[k];
            &&& e.0.wf()
            &&& (e.0.y as int) < n
            &&& cell_at(g, e.0) == Cell::Occupied(e.1)
            &&& e.1.player == player
        } by {
            if k < prior.len() {
                assert(whole[k] == prior[k]);
            } else {
                let j = k - prior.len();
                let re = spec_row_positions(row, player, row.len() as nat)[j];
                assert(whole[k] == rows_part[j]);
                assert(rows_part[j] == (Position { x: re.0 as u8, y: (n - 1) as u8 }, re.1));
            }
        }
        assert forall|pos: Position|
            pos.wf() && (pos.y as int) < n && cell_owned_by(cell_at(g, pos), player)
            implies whole.contains((pos, piece_of(cell_at(g, pos)))) by {
            let entry = (pos, piece_of(cell_at(g, pos)));
            if (pos.y as int) < n - 1 {
                let k = choose|k: int| 0 <= k < prior.len() && prior[k] == entry;
                assert(whole[k] == entry);
            } else {
                let rp = spec_row_positions(row, player, row.len() as nat);
                assert(cell_owned_by(row[pos.x as int], player));
                assert(rp.contains((pos.x as usize, piece_of(row[pos.x as int]))));
                let j = choose|j: int|
                    0 <= j < rp.len() && rp[j] == (pos.x as usize, piece_of(row[pos.x as int]));
                assert(rows_part[j] == entry);
                assert(whole[prior.len() + j] == entry);
            }
        }
    }
}

/// Every listed entry is a piece of the player standing at its position, and
/// every piece of the player on the grid is listed.
pub proof fn lemma_player_positions_char(g: Seq<Seq<Cell>>, player: Player)
    requires
        grid_wf(g),
    ensures
        forall|k: int|
            0 <= k < spec_player_positions(g, player).len() ==> {
                let e = #[trigger] spec_player_positions(g, player)[k];
                &&& e.0.wf()
                &&& cell_at(g, e.0) == Cell::Occupied(e.1)
                &&& e.1.player == player
            },
        forall|pos: Position|
            pos.wf() && cell_owned_by(#[trigger] cell_at(g, pos), player) ==> spec_player_positions(
                g,
                player,
            ).contains((pos, piece_of(cell_at(g, pos)))),
{
    lemma_board_positions_char(g, player, g.len() as nat);
}

/// The pieces of `player` in one rank, each with its column, in column order.
pub fn player_row_positions(row: &Row, player: Player) -> (r: Vec<(usize, Piece)>)
    ensures
        r@ == spec_row_positions(row@, player, row@.len() as nat),
{
    let mut r: Vec<(usize, Piece)> = Vec::new();
    let mut x: usize = 0;
    while x < row.cells.len()
        invariant
            x <= row@.len(),
            r@ == spec_row_positions(row@, player, x as nat),
        decreases row@.len() - x,
    {
        let c = row.cells[x];
        match c.into_piece() {
            Some(piece) => {
                if piece.player_affiliation() == player {
                    r.push((x, piece));
                }
            },
            None => {},
        }
        proof {
            assert(r@ =~= spec_row_positions(row@, player, (x + 1) as nat));
        }
        x = x + 1;
    }
    r
}

/// All pieces of `player` on the board, each with its position, rank by rank
/// in column order.
pub fn player_positions(board: &Board, player: Player) -> (r: Vec<(Position, Piece)>)
    requires
        grid_wf(board@),
    ensures
        r@ == spec_player_positions(board@, player),
{
    let ghost g = board@;
    let mut r: Vec<(Position, Piece)> = Vec::new();
    let mut y: usize = 0;
    while y < board.rows.len()
        invariant
            grid_wf(g),
            g == board@,
            y <= g.len(),
            r@ == spec_board_positions(g, player, y as nat),
        decreases g.len() - y,
    {
        let row_entries = player_row_positions(&board.rows[y], player);
        let ghost rows_part = with_row_index(
            spec_row_positions(g[y as int], player, g[y as int].len() as nat),
            y as u8,
        );
        let ghost before = r@;
        proof {
            assert(board.rows[y as int]@ == g[y as int]);
            lemma_row_positions_char(g[y as int], player, g[y as int].len() as nat);
        }
        let mut k: usize = 0;
        while k < row_entries.len()
            invariant
                y < g.len(),
                g.len() <= 255,
                k <= row_entries@.len(),
                row_entries@ == spec_row_positions(g[y as int], player, g[y as int].len() as nat),
                forall|j: int|
                    0 <= j < row_entries@.len() ==> ((#[trigger] row_entries@[j]).0 as int)
                        < g[y as int].len(),
                g[y as int].len() <= 255,
                rows_part == with_row_index(row_entries@, y as u8),
                r@ == before + rows_part.take(k as int),
            decreases row_entries@.len() - k,
        {
            let (x, piece) = row_entries[k];
            r.push((Position { x: x as u8, y: y as u8 }, piece));
            proof {
                assert(rows_part[k as int] == (Position { x: x as u8, y: y as u8 }, piece));
                assert(r@ =~= before + rows_part.take(k + 1));
            }
            k = k + 1;
        }
        proof {
            assert(rows_part.take(rows_part.len() as int) =~= rows_part);
            assert(r@ == spec_board_positions(g, player, (y + 1) as nat));
        }
        y = y + 1;
    }
    r
}

/// Whether `piece` sitting at `from` has at least one one-jump capture.
pub fn exists_eat_move<P: MoveProvider>(
    provider: &P,
    board: &Board,
    from: Position,
    piece: Piece,
) -> (r: bool)
    requires
        grid_wf(board@),
        from.wf(),
        cell_at(board@, from) == Cell::Occupied(piece),
    ensures
        r == (provider.spec_single_captures(board@, from, piece).len() > 0),
{
    let caps = provider.single_captures(board, from, piece);
    caps.len() > 0
}

/// A piece of `player` stands at `pos` and has at least one one-jump
/// capture.
pub open spec fn owned_with_capture<P: MoveProvider>(
    p: P,
    g: Seq<Seq<Cell>>,
    player: Player,
    pos: Position,
) -> bool {
    &&& pos.wf()
    &&& cell_owned_by(cell_at(g, pos), player)
    &&& p.spec_single_captures(g, pos, piece_of(cell_at(g, pos))).len() > 0
}

/// Some piece of `player`, somewhere on the grid, can capture. When this
/// holds, the forced-capture rule forbids every simple move of `player` that
/// turn, with any piece.
pub open spec fn spec_can_make_eat_move<P: MoveProvider>(
    p: P,
    g: Seq<Seq<Cell>>,
    player: Player,
) -> bool {
    exists|pos: Position| #[trigger] owned_with_capture(p, g, player, pos)
}

/// Whether any piece of `player` has a capture available, scanning the
/// player's pieces and stopping at the first that can capture.
pub fn player_can_make_eat_move<P: MoveProvider>(
    provider: &P,
    board: &Board,
    player: Player,
) -> (r: bool)
    requires
        grid_wf(board@),
    ensures
        r == spec_can_make_eat_move(*provider, board@, player),
{
    let ghost g = board@;
    let entries = player_positions(board, player);
    let mut i: usize = 0;
    while i < entries.len()
        invariant
            grid_wf(g),
            g == board@,
            i <= entries@.len(),
            entries@ == spec_player_positions(g, player),
            forall|k: int|
                0 <= k < i ==> provider.spec_single_captures(
                    g,
                    (#[trigger] entries@[k]).0,
                    entries@[k].1,
                ).len() == 0,
        decreases entries@.len() - i,
    {
        proof {
            lemma_player_positions_char(g, player);
        }
        let (pos, piece) = entries[i];
        if exists_eat_move(provider, board, pos, piece) {
            proof {
                assert(piece_of(cell_at(g, pos)) == piece);
                assert(owned_with_capture(*provider, g, player, pos));
            }
            return true;
        }
        i = i + 1;
    }
    proof {
        lemma_player_positions_char(g, player);
        if spec_can_make_eat_move(*provider, g, player) {
            let pos = choose|pos: Position| owned_with_capture(*provider, g, player, pos);
            let entry = (pos, piece_of(cell_at(g, pos)));
            assert(entries@.contains(entry));
            let k = choose|k: int| 0 <= k < entries@.len() && entries@[k] == entry;
            assert(provider.spec_single_captures(g, entries@[k].0, entries@[k].1).len() == 0);
        }
    }
    false
}

/// The origin squares, among the first `n` listed pieces of `player`, whose
/// piece has at least one one-jump capture, in listing order.
pub open spec fn spec_can_eat_upto<P: MoveProvider>(
    p: P,
    g: Seq<Seq<Cell>>,
    player: Player,
    n: nat,
) -> Seq<Position>
    decreases n,
{
    if n == 0 {
        Seq::empty()
    } else {
        let e = spec_player_positions(g, player)[(n - 1) as int];
        spec_can_eat_upto(p, g, player, (n - 1) as nat) + (
        if p.spec_single_captures(g, e.0, e.1).len() > 0 {
            seq![e.0]
        } else {
            Seq::empty()
        })
    }
}

/// The origin squares of all pieces of `player` that have at least one
/// one-jump capture available.
pub open spec fn spec_can_eat<P: MoveProvider>(
    p: P,
    g: Seq<Seq<Cell>>,
    player: Player,
) -> Seq<Position> {
    spec_can_eat_upto(p, g, player, spec_player_positions(g, player).len() as nat)
}

/// The origin squares of the pieces of `player` that can capture, in the
/// board's listing order; independent of the aggregator.
pub fn can_eat<P: MoveProvider>(provider: &P, board: &Board, player: Player) -> (r: Vec<
    Position,
>)
    requires
        grid_wf(board@),
    ensures
        r@ == spec_can_eat(*provider, board@, player),
{
    let ghost g = board@;
    let entries = player_positions(board, player);
    let mut r: Vec<Position> = Vec::new();
    let mut i: usize = 0;
    while i < entries.len()
        invariant
            grid_wf(g),
            g == board@,
            i <= entries@.len(),
            entries@ == spec_player_positions(g, player),
            r@ == spec_can_eat_upto(*provider, g, player, i as nat),
        decreases entries@.len() - i,
    {
        proof {
            lemma_player_positions_char(g, player);
        }
        let (pos, piece) = entries[i];
        if exists_eat_move(provider, board, pos, piece) {
            r.push(pos);
        }
        proof {
            assert(r@ =~= spec_can_eat_upto(*provider, g, player, (i + 1) as nat));
        }
        i = i + 1;
    }
    r
}

proof fn lemma_can_eat_upto_char<P: MoveProvider>(p: P, g: Seq<Seq<Cell>>, player: Player, n: nat)
    requires
        grid_wf(g),
        n <= spec_player_positions(g, player).len(),
    ensures
        forall|i: int|
            0 <= i < spec_can_eat_upto(p, g, player, n).len() ==> owned_with_capture(
                p,
                g,
                player,
                #[trigger] spec_can_eat_upto(p, g, player, n)[i],
            ),
        forall|k: int|
            0 <= k < n && p.spec_single_captures(
                g,
                (#[trigger] spec_player_positions(g, player)[k]).0,
                spec_player_positions(g, player)[k].1,
            ).len() > 0 ==> spec_can_eat_upto(p, g, player, n).contains(
                spec_player_positions(g, player)[k].0,
            ),
    decreases n,
{
    if n > 0 {
        lemma_can_eat_upto_char(p, g, player, (n - 1) as nat);
        lemma_player_positions_char(g, player);
        let e = spec_player_positions(g, player)[(n - 1) as int];
        let prior = spec_can_eat_upto(p, g, player, (n - 1) as nat);
        let whole = spec_can_eat_upto(p, g, player, n);
        assert forall|i: int| 0 <= i < whole.len() implies owned_with_capture(
            p,
            g,
            player,
            #[trigger] whole[i],
        ) by {
            if i < prior.len() {
                assert(whole[i] == prior[i]);
            } else {
                assert(whole[i] == e.0);
                assert(piece_of(cell_at(g, e.0)) == e.1);
            }
        }
        assert forall|k: int|
            0 <= k < n && p.spec_single_captures(
                g,
                (#[trigger] spec_player_positions(g, player)[k]).0,
                spec_player_positions(g, player)[k].1,
            ).len() > 0 implies whole.contains(spec_player_positions(g, player)[k].0) by {
            let target = spec_player_positions(g, player)[k].0;
            if k < n - 1 {
                assert(prior.contains(target));
                let j = choose|j: int| 0 <= j < prior.len() && prior[j] == target;
                assert(whole[j] == target);
            } else {
                assert(whole[whole.len() - 1] == target);
            }
        }
    }
}

/// The capturing-origins view lists exactly the squares where a piece of
/// `player` with at least one one-jump capture stands.
pub proof fn law_can_eat_origins<P: MoveProvider>(p: P, g: Seq<Seq<Cell>>, player: Player)
    requires
        grid_wf(g),
    ensures
        forall|i: int|
            0 <= i < spec_can_eat(p, g, player).len() ==> owned_with_capture(
                p,
                g,
                player,
                #[trigger] spec_can_eat(p, g, player)[i],
            ),
        forall|pos: Position|
            #[trigger] owned_with_capture(p, g, player, pos) ==> spec_can_eat(
                p,
                g,
                player,
            ).contains(pos),
{
    let entries = spec_player_positions(g, player);
    lemma_can_eat_upto_char(p, g, player, entries.len() as nat);
    lemma_player_positions_char(g, player);
    assert forall|pos: Position| #[trigger] owned_with_capture(p, g, player, pos) implies spec_can_eat(
        p,
        g,
        player,
    ).contains(pos) by {
        let entry = (pos, piece_of(cell_at(g, pos)));
        assert(entries.contains(entry));
        let k = choose|k: int| 0 <= k < entries.len() && entries[k] == entry;
        assert(p.spec_single_captures(g, entries[k].0, entries[k].1).len() > 0);
    }
}

/// What the per-square resolver returns for `piece` at `position`: when the
/// owner can capture somewhere, the piece's maximal capture chains (empty
/// when this very piece has none — capture is then mandatory elsewhere);
/// otherwise the piece's simple moves.
pub open spec fn spec_moves_for<P: MoveProvider>(
    p: P,
    g: Seq<Seq<Cell>>,
    position: Position,
    piece: Piece,
) -> Seq<MoveView> {
    if spec_can_make_eat_move(p, g, piece.player) {
        spec_chain_eat_moves(p, g, position, piece)
    } else {
        p.spec_simple_moves(g, position, piece)
    }
}

/// The legal moves of the piece at `position`, or nothing when the square is
/// empty — an invalid query, distinct from an occupied square that merely
/// has no move, which yields an empty sequence.
pub fn moves_for<P: MoveProvider>(provider: &P, board: &Board, position: Position) -> (r:
    Option<Vec<Move>>)
    requires
        grid_wf(board@),
        position.wf(),
    ensures
        match cell_at(board@, position) {
            Cell::Empty => r is None,
            Cell::Occupied(piece) => r matches Some(v) && v.deep_view() == spec_moves_for(
                *provider,
                board@,
                position,
                piece,
            ),
        },
{
    let cell = board.cell_at(position);
    match cell.into_piece() {
        None => None,
        Some(piece) => {
            if player_can_make_eat_move(provider, board, piece.player_affiliation()) {
                Some(chain_eat_moves(provider, board, position, piece))
            } else {
                Some(provider.simple_moves(board, position, piece))
            }
        },
    }
}

/// Every maximal capture chain of the first `n` listed pieces of `player`,
/// in listing order.
pub open spec fn spec_all_chains_upto<P: MoveProvider>(
    p: P,
    g: Seq<Seq<Cell>>,
    player: Player,
    n: nat,
) -> Seq<MoveView>
    decreases n,
{
    if n == 0 {
        Seq::empty()
    } else {
        let e = spec_player_positions(g, player)[(n - 1) as int];
        spec_all_chains_upto(p, g, player, (n - 1) as nat) + spec_chain_eat_moves(p, g, e.0, e.1)
    }
}

/// Every maximal capture chain of every piece of `player`.
pub open spec fn spec_all_chains<P: MoveProvider>(
    p: P,
    g: Seq<Seq<Cell>>,
    player: Player,
) -> Seq<MoveView> {
    spec_all_chains_upto(p, g, player, spec_player_positions(g, player).len() as nat)
}

/// Every simple move of the first `n` listed pieces of `player`, in listing
/// order.
pub open spec fn spec_all_simple_moves_upto<P: MoveProvider>(
    p: P,
    g: Seq<Seq<Cell>>,
    player: Player,
    n: nat,
) -> Seq<MoveView>
    decreases n,
{
    if n == 0 {
        Seq::empty()
    } else {
        let e = spec_player_positions(g, player)[(n - 1) as int];
        spec_all_simple_moves_upto(p, g, player, (n - 1) as nat) + p.spec_simple_moves(g, e.0, e.1)
    }
}

/// Every simple move of every piece of `player`.
pub open spec fn spec_all_simple_moves<P: MoveProvider>(
    p: P,
    g: Seq<Seq<Cell>>,
    player: Player,
) -> Seq<MoveView> {
    spec_all_simple_moves_upto(p, g, player, spec_player_positions(g, player).len() as nat)
}

/// What the player-wide aggregator yields: every capture chain of every
/// piece of `player` when at least one exists, else every simple move of
/// every piece — the forced-capture rule at whole-player granularity.
pub open spec fn spec_available_moves<P: MoveProvider>(
    p: P,
    g: Seq<Seq<Cell>>,
    player: Player,
) -> Seq<MoveView> {
    if spec_all_chains(p, g, player).len() > 0 {
        spec_all_chains(p, g, player)
    } else {
        spec_all_simple_moves(p, g, player)
    }
}

/// All legal moves of `player`: its capture chains when any piece can
/// capture, else its simple moves.
pub fn available_moves<P: MoveProvider>(provider: &P, board: &Board, player: Player) -> (r: Vec<
    Move,
>)
    requires
        grid_wf(board@),
    ensures
        r.deep_view() == spec_available_moves(*provider, board@, player),
{
    let ghost g = board@;
    let entries = player_positions(board, player);
    let mut eats: Vec<Move> = Vec::new();
    let mut i: usize = 0;
    while i < entries.len()
        invariant
            grid_wf(g),
            g == board@,
            i <= entries@.len(),
            entries@ == spec_player_positions(g, player),
            eats.deep_view() == spec_all_chains_upto(*provider, g, player, i as nat),
        decreases entries@.len() - i,
    {
        proof {
            lemma_player_positions_char(g, player);
        }
        let (pos, piece) = entries[i];
        let ghost before = eats.deep_view();
        let mut sub = chain_eat_moves(provider, board, pos, piece);
        let ghost subv = sub.deep_view();
        eats.append(&mut sub);
        proof {
            assert(eats.deep_view() =~~= before + subv);
        }
        i = i + 1;
    }
    if eats.len() > 0 {
        return eats;
    }
    let mut simples: Vec<Move> = Vec::new();
    let mut j: usize = 0;
    while j < entries.len()
        invariant
            grid_wf(g),
            g == board@,
            j <= entries@.len(),
            entries@ == spec_player_positions(g, player),
            simples.deep_view() == spec_all_simple_moves_upto(*provider, g, player, j as nat),
        decreases entries@.len() - j,
    {
        proof {
            lemma_player_positions_char(g, player);
        }
        let (pos, piece) = entries[j];
        let ghost before = simples.deep_view();
        let mut sub = provider.simple_moves(board, pos, piece);
        let ghost subv = sub.deep_view();
        simples.append(&mut sub);
        proof {
            assert(simples.deep_view() =~~= before + subv);
        }
        j = j + 1;
    }
    simples
}

/// A piece of `player` stands at `pos` and has a simple move or a capture.
pub open spec fn owned_with_any_move<P: MoveProvider>(
    p: P,
    g: Seq<Seq<Cell>>,
    player: Player,
    pos: Position,
) -> bool {
    &&& pos.wf()
    &&& cell_owned_by(cell_at(g, pos), player)
    &&& (p.spec_simple_moves(g, pos, piece_of(cell_at(g, pos))).len() > 0
        || p.spec_single_captures(g, pos, piece_of(cell_at(g, pos))).len() > 0)
}

/// Some piece of `player` has some move at all, simple or capturing. This
/// check does not apply the forced-capture filter; it only asks whether the
/// player is completely stuck.
pub open spec fn spec_has_moves<P: MoveProvider>(
    p: P,
    g: Seq<Seq<Cell>>,
    player: Player,
) -> bool {
    exists|pos: Position| #[trigger] owned_with_any_move(p, g, player, pos)
}

/// Whether `player` has any move at all, stopping at the first piece that
/// has one.
pub fn has_moves<P: MoveProvider>(provider: &P, board: &Board, player: Player) -> (r: bool)
    requires
        grid_wf(board@),
    ensures
        r == spec_has_moves(*provider, board@, player),
{
    let ghost g = board@;
    let entries = player_positions(board, player);
    let mut i: usize = 0;
    while i < entries.len()
        invariant
            grid_wf(g),
            g == board@,
            i <= entries@.len(),
            entries@ == spec_player_positions(g, player),
            forall|k: int|
                0 <= k < i ==> provider.spec_simple_moves(
                    g,
                    (#[trigger] entries@[k]).0,
                    entries@[k].1,
                ).len() == 0 && provider.spec_single_captures(g, entries@[k].0, entries@[k].1).len()
                    == 0,
        decreases entries@.len() - i,
    {
        proof {
            lemma_player_positions_char(g, player);
        }
        let (pos, piece) = entries[i];
        let m = provider.simple_moves(board, pos, piece);
        if m.len() > 0 {
            proof {
                assert(piece_of(cell_at(g, pos)) == piece);
                assert(owned_with_any_move(*provider, g, player, pos));
            }
            return true;
        }
        if exists_eat_move(provider, board, pos, piece) {
            proof {
                assert(piece_of(cell_at(g, pos)) == piece);
                assert(owned_with_any_move(*provider, g, player, pos));
            }
            return true;
        }
        i = i + 1;
    }
    proof {
        lemma_player_positions_char(g, player);
        if spec_has_moves(*provider, g, player) {
            let pos = choose|pos: Position| owned_with_any_move(*provider, g, player, pos);
            let entry = (pos, piece_of(cell_at(g, pos)));
            assert(entries@.contains(entry));
            let k = choose|k: int| 0 <= k < entries@.len() && entries@[k] == entry;
            assert(provider.spec_simple_moves(g, entries@[k].0, entries@[k].1).len() == 0);
        }
    }
    false
}

proof fn lemma_all_chains_upto_caps<P: MoveProvider>(
    p: P,
    g: Seq<Seq<Cell>>,
    player: Player,
    n: nat,
)
    requires
        grid_wf(g),
        n <= spec_player_positions(g, player).len(),
    ensures
        (spec_all_chains_upto(p, g, player, n).len() > 0) <==> (exists|k: int|
            0 <= k < n && p.spec_single_captures(
                g,
                (#[trigger] spec_player_positions(g, player)[k]).0,
                spec_player_positions(g, player)[k].1,
            ).len() > 0),
    decreases n,
{
    if n > 0 {
        lemma_all_chains_upto_caps(p, g, player, (n - 1) as nat);
        lemma_player_positions_char(g, player);
        let e = spec_player_positions(g, player)[(n - 1) as int];
        lemma_chains_nonempty(p, g, e.0, e.1);
    }
}

/// A player has a capture chain available exactly when the forced-capture
/// predicate holds of it.
pub proof fn lemma_all_chains_nonempty_iff<P: MoveProvider>(
    p: P,
    g: Seq<Seq<Cell>>,
    player: Player,
)
    requires
        grid_wf(g),
    ensures
        (spec_all_chains(p, g, player).len() > 0) <==> spec_can_make_eat_move(p, g, player),
{
    let entries = spec_player_positions(g, player);
    lemma_all_chains_upto_caps(p, g, player, entries.len() as nat);
    lemma_player_positions_char(g, player);
    if spec_all_chains(p, g, player).len() > 0 {
        let k = choose|k: int|
            0 <= k < entries.len() && p.spec_single_captures(g, entries[k].0, entries[k].1).len()
                > 0;
        assert(piece_of(cell_at(g, entries[k].0)) == entries[k].1);
        assert(owned_with_capture(p, g, player, entries[k].0));
    }
    if spec_can_make_eat_move(p, g, player) {
        let pos = choose|pos: Position| owned_with_capture(p, g, player, pos);
        let entry = (pos, piece_of(cell_at(g, pos)));
        assert(entries.contains(entry));
        let k = choose|k: int| 0 <= k < entries.len() && entries[k] == entry;
        assert(p.spec_single_captures(g, entries[k].0, entries[k].1).len() > 0);
    }
}

proof fn lemma_all_chains_upto_elements<P: MoveProvider>(
    p: P,
    g: Seq<Seq<Cell>>,
    player: Player,
    n: nat,
)
    requires
        grid_wf(g),
        n <= spec_player_positions(g, player).len(),
    ensures
        forall|i: int|
            0 <= i < spec_all_chains_upto(p, g, player, n).len() ==> (#[trigger] spec_all_chains_upto(
                p,
                g,
                player,
                n,
            )[i]).captured.len() >= 1,
    decreases n,
{
    if n > 0 {
        lemma_all_chains_upto_elements(p, g, player, (n - 1) as nat);
        lemma_player_positions_char(g, player);
        let e = spec_player_positions(g, player)[(n - 1) as int];
        lemma_chain_moves_maximal(p, g, e.0, e.1);
        let prior = spec_all_chains_upto(p, g, player, (n - 1) as nat);
        let sub = spec_chain_eat_moves(p, g, e.0, e.1);
        assert forall|i: int| 0 <= i < spec_all_chains_upto(p, g, player, n).len() implies (
        #[trigger] spec_all_chains_upto(p, g, player, n)[i]).captured.len() >= 1 by {
            if i < prior.len() {
                assert(spec_all_chains_upto(p, g, player, n)[i] == prior[i]);
            } else {
                assert(spec_all_chains_upto(p, g, player, n)[i] == sub[i - prior.len()]);
                assert(maximal_chain_ok(p, g, e.0, e.1, sub[i - prior.len()]));
            }
        }
    }
}

proof fn lemma_all_simple_moves_upto_elements<P: MoveProvider>(
    p: P,
    g: Seq<Seq<Cell>>,
    player: Player,
    n: nat,
)
    requires
        grid_wf(g),
        n <= spec_player_positions(g, player).len(),
    ensures
        forall|i: int|
            0 <= i < spec_all_simple_moves_upto(p, g, player, n).len() ==> (
            #[trigger] spec_all_simple_moves_upto(p, g, player, n)[i]).captured.len() == 0,
    decreases n,
{
    if n > 0 {
        lemma_all_simple_moves_upto_elements(p, g, player, (n - 1) as nat);
        lemma_player_positions_char(g, player);
        let e = spec_player_positions(g, player)[(n - 1) as int];
        p.lemma_simple_moves_ok(g, e.0, e.1);
        let prior = spec_all_simple_moves_upto(p, g, player, (n - 1) as nat);
        let sub = p.spec_simple_moves(g, e.0, e.1);
        assert forall|i: int| 0 <= i < spec_all_simple_moves_upto(p, g, player, n).len() implies (
        #[trigger] spec_all_simple_moves_upto(p, g, player, n)[i]).captured.len() == 0 by {
            if i < prior.len() {
                assert(spec_all_simple_moves_upto(p, g, player, n)[i] == prior[i]);
            } else {
                assert(spec_all_simple_moves_upto(p, g, player, n)[i] == sub[i - prior.len()]);
                assert(simple_move_ok(sub[i - prior.len()], e.0));
            }
        }
    }
}

/// When the forced-capture predicate holds, the aggregator yields exactly
/// the player's capture chains, and every yielded move records at least one
/// captured square — no simple move is ever yielded.
pub proof fn law_forced_capture_only_captures<P: MoveProvider>(
    p: P,
    g: Seq<Seq<Cell>>,
    player: Player,
)
    requires
        grid_wf(g),
        spec_can_make_eat_move(p, g, player),
    ensures
        spec_available_moves(p, g, player) == spec_all_chains(p, g, player),
        forall|i: int|
            0 <= i < spec_available_moves(p, g, player).len() ==> (#[trigger] spec_available_moves(
                p,
                g,
                player,
            )[i]).captured.len() >= 1,
{
    lemma_all_chains_nonempty_iff(p, g, player);
    lemma_all_chains_upto_elements(p, g, player, spec_player_positions(g, player).len() as nat);
}

/// When the forced-capture predicate does not hold, the aggregator yields
/// exactly the player's simple moves, and every yielded move records no
/// captured square.
pub proof fn law_no_capture_only_simple_moves<P: MoveProvider>(
    p: P,
    g: Seq<Seq<Cell>>,
    player: Player,
)
    requires
        grid_wf(g),
        !spec_can_make_eat_move(p, g, player),
    ensures
        spec_available_moves(p, g, player) == spec_all_simple_moves(p, g, player),
        forall|i: int|
            0 <= i < spec_available_moves(p, g, player).len() ==> (#[trigger] spec_available_moves(
                p,
                g,
                player,
            )[i]).captured.len() == 0,
{
    lemma_all_chains_nonempty_iff(p, g, player);
    lemma_all_simple_moves_upto_elements(
        p,
        g,
        player,
        spec_player_positions(g, player).len() as nat,
    );
}

/// A player has no move at all exactly when every one of its pieces has
/// neither a simple move nor a one-jump capture.
pub proof fn law_no_moves_iff_stuck<P: MoveProvider>(p: P, g: Seq<Seq<Cell>>, player: Player)
    requires
        grid_wf(g),
    ensures
        (!spec_has_moves(p, g, player)) <==> (forall|pos: Position|
            pos.wf() && cell_owned_by(#[trigger] cell_at(g, pos), player)
                ==> p.spec_simple_moves(g, pos, piece_of(cell_at(g, pos))).len() == 0
                && p.spec_single_captures(g, pos, piece_of(cell_at(g, pos))).len() == 0),
{
    if !spec_has_moves(p, g, player) {
        assert forall|pos: Position|
            pos.wf() && cell_owned_by(cell_at(g, pos), player)
            implies p.spec_simple_moves(g, pos, piece_of(cell_at(g, pos))).len() == 0
            && p.spec_single_captures(g, pos, piece_of(cell_at(g, pos))).len() == 0 by {
            assert(!owned_with_any_move(p, g, player, pos));
        }
    }
}

} // verus!
