use checkers::Board;
use checkers::Cell;
use checkers::DiagonalRules;
use checkers::Move;
use checkers::MoveProvider;
use checkers::Piece;
use checkers::PieceKind;
use checkers::Player;
use checkers::Position;
use checkers::Sizes;
use checkers::available_moves;
use checkers::can_eat;
use checkers::chain_eat_moves;
use checkers::exists_eat_move;
use checkers::has_moves;
use checkers::moves_for;
use checkers::player_can_make_eat_move;
use checkers::player_positions;
use checkers::player_row_positions;
use checkers::Row;

fn pos(x: u8, y: u8) -> Position {
    Position::new(x, y).unwrap()
}

fn white_man() -> Piece {
    Piece { player: Player::White, kind: PieceKind::Man }
}

fn black_man() -> Piece {
    Piece { player: Player::Black, kind: PieceKind::Man }
}

fn white_king() -> Piece {
    Piece { player: Player::White, kind: PieceKind::King }
}

fn place(board: Board, x: u8, y: u8, piece: Piece) -> Board {
    board.with_cell(pos(x, y), Cell::Occupied(piece))
}

fn simple(fx: u8, fy: u8, tx: u8, ty: u8) -> Move {
    Move { from: pos(fx, fy), to: pos(tx, ty), captured: Vec::new() }
}

#[test]
fn position_new_validates_bounds() {
    assert!(Position::new(7, 7).is_some());
    assert!(Position::new(8, 0).is_none());
    assert!(Position::new(0, 8).is_none());
    assert_eq!(pos(3, 5), Position { x: 3, y: 5 });
}

#[test]
fn empty_board_has_empty_cells() {
    let b = Board::empty();
    assert_eq!(b.cell_at(pos(0, 0)), Cell::Empty);
    assert_eq!(b.cell_at(pos(7, 7)), Cell::Empty);
    let b2 = place(b, 4, 4, white_man());
    assert_eq!(b2.cell_at(pos(4, 4)), Cell::Occupied(white_man()));
    assert_eq!(b2.cell_at(pos(4, 3)), Cell::Empty);
}

#[test]
fn sizes_holds_extents() {
    let s = Sizes { cell: 1, row: 8, board: 64 };
    assert_eq!(s.cell, 1);
    assert_eq!(s.row, 8);
    assert_eq!(s.board, 64);
}

#[test]
fn player_positions_lists_in_board_order() {
    let b = place(place(Board::empty(), 6, 2, white_man()), 2, 2, white_man());
    let entries = player_positions(&b, Player::White);
    assert_eq!(entries, vec![(pos(2, 2), white_man()), (pos(6, 2), white_man())]);
    assert!(player_positions(&b, Player::Black).is_empty());
}

#[test]
fn opponent_swaps_sides() {
    assert_eq!(Player::White.opponent(), Player::Black);
    assert_eq!(Player::Black.opponent(), Player::White);
}

#[test]
fn with_cell_overwrites_a_square() {
    let b = place(Board::empty(), 3, 3, black_man());
    let b2 = b.with_cell(pos(3, 3), Cell::Empty);
    assert_eq!(b2.cell_at(pos(3, 3)), Cell::Empty);
    assert_eq!(b.cell_at(pos(3, 3)), Cell::Occupied(black_man()));
}

#[test]
fn row_positions_list_one_players_pieces() {
    let mut cells = vec![Cell::Empty; 8];
    cells[1] = Cell::Occupied(white_man());
    cells[4] = Cell::Occupied(black_man());
    cells[6] = Cell::Occupied(white_man());
    let row = Row { cells };
    let entries = player_row_positions(&row, Player::White);
    assert_eq!(entries, vec![(1, white_man()), (6, white_man())]);
    let black_entries = player_row_positions(&row, Player::Black);
    assert_eq!(black_entries, vec![(4, black_man())]);
}

#[test]
fn man_steps_forward_only() {
    let rules = DiagonalRules;
    let b = place(Board::empty(), 4, 4, white_man());
    let moves = rules.simple_moves(&b, pos(4, 4), white_man());
    assert_eq!(moves, vec![simple(4, 4, 3, 5), simple(4, 4, 5, 5)]);
    let b2 = place(Board::empty(), 4, 4, black_man());
    let moves2 = rules.simple_moves(&b2, pos(4, 4), black_man());
    assert_eq!(moves2, vec![simple(4, 4, 3, 3), simple(4, 4, 5, 3)]);
}

#[test]
fn king_steps_all_diagonals() {
    let rules = DiagonalRules;
    let b = place(Board::empty(), 4, 4, white_king());
    let moves = rules.simple_moves(&b, pos(4, 4), white_king());
    assert_eq!(
        moves,
        vec![simple(4, 4, 3, 3), simple(4, 4, 5, 3), simple(4, 4, 3, 5), simple(4, 4, 5, 5)]
    );
}

#[test]
fn single_capture_jumps_over_opponent() {
    let rules = DiagonalRules;
    let b = place(place(Board::empty(), 2, 2, white_man()), 3, 3, black_man());
    let caps = rules.single_captures(&b, pos(2, 2), white_man());
    assert_eq!(caps, vec![Move { from: pos(2, 2), to: pos(4, 4), captured: vec![pos(3, 3)] }]);
    assert!(exists_eat_move(&rules, &b, pos(2, 2), white_man()));
}

#[test]
fn man_captures_backward_too() {
    let rules = DiagonalRules;
    let b = place(place(Board::empty(), 4, 4, white_man()), 3, 3, black_man());
    let chains = chain_eat_moves(&rules, &b, pos(4, 4), white_man());
    assert_eq!(chains, vec![Move { from: pos(4, 4), to: pos(2, 2), captured: vec![pos(3, 3)] }]);
}

#[test]
fn no_capture_over_own_piece() {
    let rules = DiagonalRules;
    let b = place(place(Board::empty(), 2, 2, white_man()), 3, 3, white_man());
    let caps = rules.single_captures(&b, pos(2, 2), white_man());
    assert!(caps.is_empty());
}

#[test]
fn no_capture_onto_occupied_landing() {
    let rules = DiagonalRules;
    let b = place(
        place(place(Board::empty(), 2, 2, white_man()), 3, 3, black_man()),
        4,
        4,
        black_man(),
    );
    let caps = rules.single_captures(&b, pos(2, 2), white_man());
    assert!(caps.is_empty());
}

#[test]
fn chain_follows_captures_to_the_end() {
    let rules = DiagonalRules;
    let b = place(
        place(place(Board::empty(), 0, 0, white_man()), 1, 1, black_man()),
        3,
        3,
        black_man(),
    );
    let chains = chain_eat_moves(&rules, &b, pos(0, 0), white_man());
    assert_eq!(
        chains,
        vec![Move { from: pos(0, 0), to: pos(4, 4), captured: vec![pos(1, 1), pos(3, 3)] }]
    );
}

#[test]
fn chain_is_maximal_after_application() {
    let rules = DiagonalRules;
    let b = place(
        place(place(Board::empty(), 0, 0, white_man()), 1, 1, black_man()),
        3,
        3,
        black_man(),
    );
    let chains = chain_eat_moves(&rules, &b, pos(0, 0), white_man());
    assert_eq!(chains.len(), 1);
    let chain = &chains[0];
    // Apply the whole chain by hand: vacate the origin, empty every
    // captured square, land the mover; then no further capture may remain.
    let mut after = b.with_cell(chain.from, Cell::Empty);
    for c in chain.captured.iter() {
        after = after.with_cell(*c, Cell::Empty);
    }
    after = after.with_cell(chain.to, Cell::Occupied(white_man()));
    let more = rules.single_captures(&after, chain.to, white_man());
    assert!(more.is_empty());
}

#[test]
fn chain_branches_in_provider_order() {
    let rules = DiagonalRules;
    let b = place(
        place(place(Board::empty(), 2, 0, white_man()), 1, 1, black_man()),
        3,
        1,
        black_man(),
    );
    let chains = chain_eat_moves(&rules, &b, pos(2, 0), white_man());
    assert_eq!(
        chains,
        vec![
            Move { from: pos(2, 0), to: pos(0, 2), captured: vec![pos(1, 1)] },
            Move { from: pos(2, 0), to: pos(4, 2), captured: vec![pos(3, 1)] },
        ]
    );
}

#[test]
fn forced_capture_suppresses_other_pieces_simple_moves() {
    // One white piece has the only capture; another white piece has simple
    // moves. Only the capture chain may be yielded.
    let rules = DiagonalRules;
    let b = place(
        place(place(Board::empty(), 2, 2, white_man()), 3, 3, black_man()),
        6,
        2,
        white_man(),
    );
    assert!(player_can_make_eat_move(&rules, &b, Player::White));
    let avail = available_moves(&rules, &b, Player::White);
    assert_eq!(avail, vec![Move { from: pos(2, 2), to: pos(4, 4), captured: vec![pos(3, 3)] }]);
    for m in avail.iter() {
        assert!(!m.captured.is_empty());
    }
    // The other piece does have simple moves, yet none is yielded; asking
    // for that piece's moves yields the empty sequence, not absent.
    let other = moves_for(&rules, &b, pos(6, 2)).unwrap();
    assert!(other.is_empty());
}

#[test]
fn no_capture_yields_only_simple_moves() {
    let rules = DiagonalRules;
    let b = place(place(Board::empty(), 2, 2, white_man()), 6, 2, white_man());
    assert!(!player_can_make_eat_move(&rules, &b, Player::White));
    let avail = available_moves(&rules, &b, Player::White);
    assert_eq!(
        avail,
        vec![simple(2, 2, 1, 3), simple(2, 2, 3, 3), simple(6, 2, 5, 3), simple(6, 2, 7, 3)]
    );
    for m in avail.iter() {
        assert!(m.captured.is_empty());
    }
}

#[test]
fn empty_board_yields_nothing() {
    let rules = DiagonalRules;
    let b = Board::empty();
    assert!(available_moves(&rules, &b, Player::White).is_empty());
    assert!(!has_moves(&rules, &b, Player::White));
    assert!(!player_can_make_eat_move(&rules, &b, Player::White));
    assert!(can_eat(&rules, &b, Player::White).is_empty());
}

#[test]
fn moves_for_absent_exactly_on_empty_square() {
    let rules = DiagonalRules;
    let b = place(Board::empty(), 2, 2, white_man());
    assert!(moves_for(&rules, &b, pos(4, 4)).is_none());
    assert!(moves_for(&rules, &b, pos(2, 2)).is_some());
}

#[test]
fn blocked_edge_piece_yields_empty_not_absent() {
    // A white man on the far rank has no forward square at all and no
    // capture: its square is occupied, so the answer is an empty sequence.
    let rules = DiagonalRules;
    let b = place(Board::empty(), 0, 7, white_man());
    let moves = moves_for(&rules, &b, pos(0, 7)).unwrap();
    assert!(moves.is_empty());
    assert!(!has_moves(&rules, &b, Player::White));
}

#[test]
fn has_moves_false_iff_every_piece_stuck() {
    let rules = DiagonalRules;
    // A piece with a simple move: not stuck.
    let b1 = place(Board::empty(), 2, 2, white_man());
    assert!(has_moves(&rules, &b1, Player::White));
    // Men on the far rank with no opponent anywhere: every piece is stuck.
    let b2 = place(
        place(place(Board::empty(), 0, 7, white_man()), 2, 7, white_man()),
        4,
        7,
        white_man(),
    );
    assert!(!has_moves(&rules, &b2, Player::White));
    // A piece with only a capture, no simple move: not stuck.
    let b3 = place(place(Board::empty(), 0, 7, white_man()), 1, 6, black_man());
    assert!(has_moves(&rules, &b3, Player::White));
}

#[test]
fn can_eat_lists_capturing_origins_only() {
    let rules = DiagonalRules;
    let b = place(
        place(place(Board::empty(), 2, 2, white_man()), 3, 3, black_man()),
        6,
        2,
        white_man(),
    );
    assert_eq!(can_eat(&rules, &b, Player::White), vec![pos(2, 2)]);
    assert_eq!(can_eat(&rules, &b, Player::Black), vec![pos(3, 3)]);
}

#[test]
fn queries_are_idempotent() {
    let rules = DiagonalRules;
    let b = place(
        place(place(Board::empty(), 2, 2, white_man()), 3, 3, black_man()),
        6,
        2,
        white_man(),
    );
    assert_eq!(
        available_moves(&rules, &b, Player::White),
        available_moves(&rules, &b, Player::White)
    );
    assert_eq!(moves_for(&rules, &b, pos(2, 2)), moves_for(&rules, &b, pos(2, 2)));
    assert_eq!(can_eat(&rules, &b, Player::White), can_eat(&rules, &b, Player::White));
    assert_eq!(
        chain_eat_moves(&rules, &b, pos(2, 2), white_man()),
        chain_eat_moves(&rules, &b, pos(2, 2), white_man())
    );
    assert_eq!(has_moves(&rules, &b, Player::White), has_moves(&rules, &b, Player::White));
}

#[test]
fn generation_does_not_mutate_the_board() {
    let rules = DiagonalRules;
    let b = place(place(Board::empty(), 2, 2, white_man()), 3, 3, black_man());
    let snapshot = b.clone();
    let _ = available_moves(&rules, &b, Player::White);
    let _ = chain_eat_moves(&rules, &b, pos(2, 2), white_man());
    let _ = has_moves(&rules, &b, Player::Black);
    assert_eq!(b, snapshot);
}
