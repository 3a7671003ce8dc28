//! The chain-capture enumerator: every maximal capture sequence of a piece,
//! produced by recursively composing the provider's one-jump captures across
//! derived board snapshots. A branch ends — yielding the accumulated move —
//! exactly when no further capture is available from its landing square, so
//! no yielded chain can be extended (see [`lemma_chain_moves_maximal`]).

use vstd::prelude::*;

use crate::board::Board;
use crate::board::Cell;
use crate::board::Piece;
use crate::board::Position;
use crate::board::cell_at;
use crate::board::grid_piece_count;
use crate::board::grid_wf;
use crate::board::lemma_set_cell_cells;
use crate::board::set_cell;
use crate::moves::Move;
use crate::moves::MoveView;
use crate::moves::concat_positions;
use crate::moves::copy_positions;
use crate::provider::MoveProvider;
use crate::provider::apply_capture;
use crate::provider::capture_move_ok;
use crate::provider::lemma_apply_capture;

verus! {

/// The chain consisting of the single jump `step` taken from `from`.
pub open spec fn chain_of(from: Position, step: MoveView) -> MoveView {
    MoveView { from, to: step.to, captured: step.captured }
}

/// The chain that takes the jump `step` from `from` and continues as `rest`.
pub open spec fn prepend_step(from: Position, step: MoveView, rest: MoveView) -> MoveView {
    MoveView { from, to: rest.to, captured: step.captured + rest.captured }
}

/// All maximal chains that begin with the jump `step` from `from`: when no
/// continuation exists the single jump is itself maximal, otherwise every
/// continuation is extended by the jump.
pub open spec fn extend_chains(from: Position, step: MoveView, rest: Seq<MoveView>) -> Seq<
    MoveView,
> {
    if rest.len() == 0 {
        seq![chain_of(from, step)]
    } else {
        rest.map_values(|r: MoveView| prepend_step(from, step, r))
    }
}

/// Whether taking the jump `m` with `piece` from `from` on `g` is meaningful:
/// the board is well-formed, the mover stands at the origin and the jump has
/// the shape every provider guarantees.
pub open spec fn chain_step_ok(
    g: Seq<Seq<Cell>>,
    from: Position,
    piece: Piece,
    m: MoveView,
) -> bool {
    &&& grid_wf(g)
    &&& from.wf()
    &&& cell_at(g, from) == Cell::Occupied(piece)
    &&& capture_move_ok(g, from, piece, m)
}

/// The maximal capture chains of `piece` at `from` on `g` that begin with
/// one of the first `n` one-jump captures the provider yields, depth-first
/// and in the provider's own order. Each jump removes one opposing piece
/// from the derived snapshot, which bounds the recursion.
pub open spec fn spec_chains_upto<P: MoveProvider>(
    p: P,
    g: Seq<Seq<Cell>>,
    from: Position,
    piece: Piece,
    n: nat,
) -> Seq<MoveView>
    decreases grid_piece_count(g, piece.player.spec_opponent()), n,
{
    if n == 0 {
        Seq::empty()
    } else {
        let step = p.spec_single_captures(g, from, piece)[(n - 1) as int];
        let prior = spec_chains_upto(p, g, from, piece, (n - 1) as nat);
        if chain_step_ok(g, from, piece, step) {
            let g2 = apply_capture(g, step, piece);
            proof {
                lemma_apply_capture(g, step, piece, from);
            }
            let rest = spec_chains_upto(
                p,
                g2,
                step.to,
                piece,
                p.spec_single_captures(g2, step.to, piece).len(),
            );
            prior + extend_chains(from, step, rest)
        } else {
            prior
        }
    }
}

/// Every maximal capture chain of `piece` at `from` on `g`, depth-first and
/// left-to-right over the provider's own order. Empty exactly when the piece
/// has no one-jump capture at all; a chain of zero jumps is never yielded.
pub open spec fn spec_chain_eat_moves<P: MoveProvider>(
    p: P,
    g: Seq<Seq<Cell>>,
    from: Position,
    piece: Piece,
) -> Seq<MoveView> {
    spec_chains_upto(p, g, from, piece, p.spec_single_captures(g, from, piece).len())
}

/// A chain exists exactly when a first jump does.
pub proof fn lemma_chains_nonempty<P: MoveProvider>(
    p: P,
    g: Seq<Seq<Cell>>,
    from: Position,
    piece: Piece,
)
    requires
        grid_wf(g),
        from.wf(),
        cell_at(g, from) == Cell::Occupied(piece),
    ensures
        (spec_chain_eat_moves(p, g, from, piece).len() > 0) <==> (p.spec_single_captures(
            g,
            from,
            piece,
        ).len() > 0),
{
    let caps = p.spec_single_captures(g, from, piece);
    if caps.len() > 0 {
        p.lemma_single_captures_ok(g, from, piece);
        let n = caps.len();
        let step = caps[(n - 1) as int];
        assert(chain_step_ok(g, from, piece, step));
        let g2 = apply_capture(g, step, piece);
        let rest = spec_chains_upto(
            p,
            g2,
            step.to,
            piece,
            p.spec_single_captures(g2, step.to, piece).len(),
        );
        if rest.len() == 0 {
            assert(extend_chains(from, step, rest).len() == 1);
        } else {
            assert(extend_chains(from, step, rest).len() == rest.len());
        }
        assert(spec_chain_eat_moves(p, g, from, piece).len() > 0);
    }
}

/// The grid with every position of `ps` emptied, in order.
pub open spec fn clear_positions(g: Seq<Seq<Cell>>, ps: Seq<Position>) -> Seq<Seq<Cell>>
    decreases ps.len(),
{
    if ps.len() == 0 {
        g
    } else {
        clear_positions(set_cell(g, ps[0], Cell::Empty), ps.drop_first())
    }
}

/// The board after performing the whole capture chain `m` with `piece`: the
/// origin is vacated, every captured square is emptied, and the piece stands
/// on the chain's final square.
pub open spec fn apply_chain(g: Seq<Seq<Cell>>, m: MoveView, piece: Piece) -> Seq<Seq<Cell>> {
    set_cell(
        clear_positions(set_cell(g, m.from, Cell::Empty), m.captured),
        m.to,
        Cell::Occupied(piece),
    )
}

/// Performing a one-jump capture and then a chain from its landing square
/// derives the same board as performing the combined chain in one stroke.
proof fn lemma_apply_chain_compose(
    g: Seq<Seq<Cell>>,
    from: Position,
    piece: Piece,
    step: MoveView,
    r: MoveView,
)
    requires
        grid_wf(g),
        from.wf(),
        cell_at(g, from) == Cell::Occupied(piece),
        capture_move_ok(g, from, piece, step),
        r.from == step.to,
    ensures
        apply_chain(apply_capture(g, step, piece), r, piece) == apply_chain(
            g,
            prepend_step(from, step, r),
            piece,
        ),
{
    let c = step.captured[0];
    let h1 = set_cell(g, from, Cell::Empty);
    let h2 = set_cell(h1, c, Cell::Empty);
    let g2 = set_cell(h2, step.to, Cell::Occupied(piece));
    assert(g2 == apply_capture(g, step, piece));
    crate::board::lemma_set_cell_count(g, from, Cell::Empty, piece.player);
    crate::board::lemma_set_cell_count(h1, c, Cell::Empty, piece.player);
    lemma_set_cell_cells(g, from, Cell::Empty);
    lemma_set_cell_cells(h1, c, Cell::Empty);
    // The landing square differs from the vacated origin and from the
    // captured square, so it is still empty after both are cleared.
    assert(step.to != from && step.to != c);
    assert(cell_at(h2, step.to) == Cell::Empty);
    crate::board::lemma_set_cell_absorb(h2, step.to, Cell::Occupied(piece), Cell::Empty);
    crate::board::lemma_set_cell_noop(h2, step.to);
    assert(set_cell(g2, step.to, Cell::Empty) == h2);
    // Unfold the combined chain's clearing by its first captured square.
    let m = prepend_step(from, step, r);
    assert(m.captured[0] == c);
    assert(m.captured.drop_first() =~= r.captured);
    assert(clear_positions(set_cell(g, m.from, Cell::Empty), m.captured) == clear_positions(
        h2,
        r.captured,
    ));
    assert(clear_positions(set_cell(g2, r.from, Cell::Empty), r.captured) == clear_positions(
        h2,
        r.captured,
    ));
}

/// What the enumerator guarantees of every chain it yields for `piece` at
/// `from` on `g`: the chain starts there, captures at least one piece, ends
/// with the mover on its final square of the derived board, and is maximal —
/// no further one-jump capture is available from that square.
pub open spec fn maximal_chain_ok<P: MoveProvider>(
    p: P,
    g: Seq<Seq<Cell>>,
    from: Position,
    piece: Piece,
    m: MoveView,
) -> bool {
    &&& m.from == from
    &&& m.to.wf()
    &&& m.captured.len() >= 1
    &&& grid_wf(apply_chain(g, m, piece))
    &&& cell_at(apply_chain(g, m, piece), m.to) == Cell::Occupied(piece)
    &&& p.spec_single_captures(apply_chain(g, m, piece), m.to, piece).len() == 0
}

proof fn lemma_chains_upto_maximal<P: MoveProvider>(
    p: P,
    g: Seq<Seq<Cell>>,
    from: Position,
    piece: Piece,
    n: nat,
)
    requires
        grid_wf(g),
        from.wf(),
        cell_at(g, from) == Cell::Occupied(piece),
        n <= p.spec_single_captures(g, from, piece).len(),
    ensures
        forall|i: int|
            0 <= i < spec_chains_upto(p, g, from, piece, n).len() ==> maximal_chain_ok(
                p,
                g,
                from,
                piece,
                #[trigger] spec_chains_upto(p, g, from, piece, n)[i],
            ),
    decreases grid_piece_count(g, piece.player.spec_opponent()), n,
{
    if n > 0 {
        lemma_chains_upto_maximal(p, g, from, piece, (n - 1) as nat);
        let prior = spec_chains_upto(p, g, from, piece, (n - 1) as nat);
        p.lemma_single_captures_ok(g, from, piece);
        let step = p.spec_single_captures(g, from, piece)[(n - 1) as int];
        assert(chain_step_ok(g, from, piece, step));
        let g2 = apply_capture(g, step, piece);
        lemma_apply_capture(g, step, piece, from);
        let n2 = p.spec_single_captures(g2, step.to, piece).len();
        lemma_chains_upto_maximal(p, g2, step.to, piece, n2);
        let rest = spec_chains_upto(p, g2, step.to, piece, n2);
        let ext = extend_chains(from, step, rest);
        if rest.len() == 0 {
            let m = chain_of(from, step);
            // A single jump's derived board is the capture's own.
            assert(step.captured.drop_first() =~= Seq::<Position>::empty());
            assert(clear_positions(set_cell(g, from, Cell::Empty), step.captured)
                == clear_positions(
                set_cell(set_cell(g, from, Cell::Empty), step.captured[0], Cell::Empty),
                step.captured.drop_first(),
            ));
            assert(apply_chain(g, m, piece) == g2);
            lemma_chains_nonempty(p, g2, step.to, piece);
            assert(maximal_chain_ok(p, g, from, piece, m));
        } else {
            assert forall|j: int| 0 <= j < ext.len() implies maximal_chain_ok(
                p,
                g,
                from,
                piece,
                ext[j],
            ) by {
                assert(ext[j] == prepend_step(from, step, rest[j]));
                assert(maximal_chain_ok(p, g2, step.to, piece, rest[j]));
                lemma_apply_chain_compose(g, from, piece, step, rest[j]);
            }
        }
        assert forall|i: int| 0 <= i < spec_chains_upto(p, g, from, piece, n).len()
            implies maximal_chain_ok(
            p,
            g,
            from,
            piece,
            spec_chains_upto(p, g, from, piece, n)[i],
        ) by {
            if i < prior.len() {
                assert(spec_chains_upto(p, g, from, piece, n)[i] == prior[i]);
            } else {
                assert(spec_chains_upto(p, g, from, piece, n)[i] == ext[i - prior.len()]);
            }
        }
    }
}

/// Every chain the enumerator yields is maximal: on the board derived by
/// performing the whole chain, no further one-jump capture is available to
/// the mover from the chain's final square. Every chain also starts at the
/// queried square and captures at least one piece.
pub proof fn lemma_chain_moves_maximal<P: MoveProvider>(
    p: P,
    g: Seq<Seq<Cell>>,
    from: Position,
    piece: Piece,
)
    requires
        grid_wf(g),
        from.wf(),
        cell_at(g, from) == Cell::Occupied(piece),
    ensures
        forall|i: int|
            0 <= i < spec_chain_eat_moves(p, g, from, piece).len() ==> maximal_chain_ok(
                p,
                g,
                from,
                piece,
                #[trigger] spec_chain_eat_moves(p, g, from, piece)[i],
            ),
{
    lemma_chains_upto_maximal(p, g, from, piece, p.spec_single_captures(g, from, piece).len());
}

/// The board derived by performing the capture `mv` with `piece`, as a fresh
/// snapshot; the board passed in is not touched.
pub fn apply_capture_move(board: &Board, mv: &Move, piece: Piece) -> (r: Board)
    requires
        grid_wf(board@),
        mv@.from.wf(),
        mv@.to.wf(),
        mv@.captured.len() == 1,
        mv@.captured[0].wf(),
    ensures
        grid_wf(r@),
        r@ == apply_capture(board@, mv@, piece),
{
    let b1 = board.with_cell(mv.from, Cell::Empty);
    let b2 = b1.with_cell(mv.captured[0], Cell::Empty);
    b2.with_cell(mv.to, Cell::Occupied(piece))
}

/// Every maximal capture chain of `piece` at `from`, depth-first and
/// left-to-right over the provider's own order. Empty exactly when the piece
/// has no one-jump capture; callers that must distinguish "no capture" from
/// "capture elsewhere forbids moving this piece" do so before calling.
pub fn chain_eat_moves<P: MoveProvider>(
    provider: &P,
    board: &Board,
    origin: Position,
    piece: Piece,
) -> (r: Vec<Move>)
    requires
        grid_wf(board@),
        origin.wf(),
        cell_at(board@, origin) == Cell::Occupied(piece),
    ensures
        r.deep_view() == spec_chain_eat_moves(*provider, board@, origin, piece),
    decreases grid_piece_count(board@, piece.player.spec_opponent()),
{
    let ghost g = board@;
    let caps = provider.single_captures(board, origin, piece);
    proof {
        provider.lemma_single_captures_ok(g, origin, piece);
    }
    let mut result: Vec<Move> = Vec::new();
    let mut i: usize = 0;
    while i < caps.len()
        invariant
            grid_wf(g),
            origin.wf(),
            cell_at(g, origin) == Cell::Occupied(piece),
            g == board@,
            i <= caps@.len(),
            caps.deep_view() == provider.spec_single_captures(g, origin, piece),
            forall|k: int|
                0 <= k < caps.deep_view().len() ==> capture_move_ok(
                    g,
                    origin,
                    piece,
                    #[trigger] caps.deep_view()[k],
                ),
            result.deep_view() == spec_chains_upto(*provider, g, origin, piece, i as nat),
        decreases caps@.len() - i,
    {
        let ghost step = caps.deep_view()[i as int];
        assert(caps@[i as int]@ == step);
        assert(chain_step_ok(g, origin, piece, step));
        let next_board = apply_capture_move(board, &caps[i], piece);
        proof {
            lemma_apply_capture(g, step, piece, origin);
        }
        let step_to = caps[i].to;
        let rest = chain_eat_moves(provider, &next_board, step_to, piece);
        let ghost rest_spec = spec_chain_eat_moves(*provider, next_board@, step_to, piece);
        let ghost prior = spec_chains_upto(*provider, g, origin, piece, i as nat);
        proof {
            assert(spec_chains_upto(*provider, g, origin, piece, (i + 1) as nat) == prior
                + extend_chains(origin, step, rest_spec));
        }
        if rest.len() == 0 {
            let chain = Move {
                from: origin,
                to: step_to,
                captured: copy_positions(&caps[i].captured),
            };
            proof {
                assert(chain@ == chain_of(origin, step));
            }
            result.push(chain);
            proof {
                assert(result.deep_view() =~= prior + extend_chains(origin, step, rest_spec));
            }
        } else {
            let ghost extended = extend_chains(origin, step, rest_spec);
            let ghost before = result.deep_view();
            let mut j: usize = 0;
            while j < rest.len()
                invariant
                    j <= rest@.len(),
                    i < caps@.len(),
                    caps@[i as int]@ == step,
                    rest.deep_view() == rest_spec,
                    rest_spec.len() > 0,
                    extended == extend_chains(origin, step, rest_spec),
                    before == prior,
                    result.deep_view() == before + extended.take(j as int),
                decreases rest@.len() - j,
            {
                let chain = Move {
                    from: origin,
                    to: rest[j].to,
                    captured: concat_positions(&caps[i].captured, &rest[j].captured),
                };
                proof {
                    assert(rest@[j as int]@ == rest_spec[j as int]);
                    assert(chain@ == prepend_step(origin, step, rest_spec[j as int]));
                    assert(extended[j as int] == prepend_step(origin, step, rest_spec[j as int]));
                }
                let ghost mid = result.deep_view();
                result.push(chain);
                proof {
                    assert(result.deep_view() =~~= mid.push(chain@));
                    assert(extended.take(j + 1) =~~= extended.take(j as int).push(extended[j as int]));
                    assert(result.deep_view() =~~= before + extended.take(j + 1));
                }
                j = j + 1;
            }
            proof {
                assert(extended.take(rest_spec.len() as int) =~= extended);
            }
        }
        i = i + 1;
    }
    proof {
        assert(caps.deep_view().len() == caps@.len());
    }
    result
}

} // verus!
