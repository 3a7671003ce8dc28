//! The board data model: players, pieces, cells, positions, rows and boards,
//! together with the spec-level grid operations (reading a cell, replacing a
//! cell, counting pieces) that the move-generation contracts are stated over.

use vstd::prelude::*;

verus! {

/// Number of rows and of columns of the playing board.
pub const BOARD_SIZE: usize = 8;

/// One of the two sides of the game.
#[derive(Clone, Copy, PartialEq, Eq, Structural, Debug)]
pub enum Player {
    White,
    Black,
}

impl Player {
    /// The other side.
    pub open spec fn spec_opponent(self) -> Player {
        match self {
            Player::White => Player::Black,
            Player::Black => Player::White,
        }
    }

    /// The other side.
    #[verifier::when_used_as_spec(spec_opponent)]
    pub fn opponent(self) -> (r: Player)
        ensures
            r == self.spec_opponent(),
    {
        match self {
            Player::White => Player::Black,
            Player::Black => Player::White,
        }
    }
}

/// The rank of a piece. Move generation threads it through unchanged;
/// only a geometry (a `MoveProvider` implementation) interprets it.
#[derive(Clone, Copy, PartialEq, Eq, Structural, Debug)]
pub enum PieceKind {
    Man,
    King,
}

/// A piece: it belongs to exactly one player and carries its rank.
#[derive(Clone, Copy, PartialEq, Eq, Structural, Debug)]
pub struct Piece {
    pub player: Player,
    pub kind: PieceKind,
}

impl Piece {
    /// The side this piece belongs to.
    pub fn player_affiliation(self) -> (r: Player)
        ensures
            r == self.player,
    {
        self.player
    }
}

/// A square of the board: empty, or occupied by exactly one piece.
#[derive(Clone, Copy, PartialEq, Eq, Structural, Debug)]
pub enum Cell {
    Empty,
    Occupied(Piece),
}

impl Cell {
    /// The occupant, if any.
    pub open spec fn spec_into_piece(self) -> Option<Piece> {
        match self {
            Cell::Empty => None,
            Cell::Occupied(p) => Some(p),
        }
    }

    /// The occupant, if any.
    #[verifier::when_used_as_spec(spec_into_piece)]
    pub fn into_piece(self) -> (r: Option<Piece>)
        ensures
            r == self.spec_into_piece(),
    {
        match self {
            Cell::Empty => None,
            Cell::Occupied(p) => Some(p),
        }
    }
}

/// A pair of board coordinates. A position is meaningful only when both
/// coordinates lie within the board extent, which `wf` states; every
/// function of this crate that consumes a position requires it.
#[derive(Clone, Copy, PartialEq, Eq, Structural, Debug)]
pub struct Position {
    pub x: u8,
    pub y: u8,
}

impl Position {
    /// Both coordinates lie within the board extent.
    pub open spec fn wf(self) -> bool {
        (self.x as int) < (BOARD_SIZE as int) && (self.y as int) < (BOARD_SIZE as int)
    }

    /// Checked construction: rejects out-of-range coordinates.
    pub fn new(x: u8, y: u8) -> (r: Option<Position>)
        ensures
            (r is Some) <==> (Position { x, y }).wf(),
            r matches Some(p) ==> p == (Position { x, y }),
    {
        if (x as usize) < BOARD_SIZE && (y as usize) < BOARD_SIZE {
            Some(Position { x, y })
        } else {
            None
        }
    }
}

/// One board rank: an ordered, fixed-length sequence of cells.
#[derive(Clone, PartialEq, Eq, Debug)]
pub struct Row {
    pub cells: Vec<Cell>,
}

impl View for Row {
    type V = Seq<Cell>;

    open spec fn view(&self) -> Seq<Cell> {
        self.cells@
    }
}

/// The playing board: an ordered, fixed-length sequence of rows. Boards are
/// value snapshots: move generation never mutates a board it was given, and
/// exploring a capture continuation builds a fresh derived snapshot.
#[derive(Clone, PartialEq, Eq, Debug)]
pub struct Board {
    pub rows: Vec<Row>,
}

impl View for Board {
    type V = Seq<Seq<Cell>>;

    open spec fn view(&self) -> Seq<Seq<Cell>> {
        self.rows@.map_values(|r: Row| r@)
    }
}

/// The grid has exactly `BOARD_SIZE` rows of exactly `BOARD_SIZE` cells.
pub open spec fn grid_wf(g: Seq<Seq<Cell>>) -> bool {
    &&& g.len() == BOARD_SIZE as int
    &&& forall|y: int| 0 <= y < g.len() ==> (#[trigger] g[y]).len() == BOARD_SIZE as int
}

/// The cell of `g` at position `p`.
pub open spec fn cell_at(g: Seq<Seq<Cell>>, p: Position) -> Cell {
    g[p.y as int][p.x as int]
}

/// Whether `c` holds a piece of `player`.
pub open spec fn cell_owned_by(c: Cell, player: Player) -> bool {
    match c {
        Cell::Empty => false,
        Cell::Occupied(q) => q.player == player,
    }
}

/// The occupant of `c`; meaningful only when `c` is occupied.
pub open spec fn piece_of(c: Cell) -> Piece {
    match c {
        Cell::Empty => Piece { player: Player::White, kind: PieceKind::Man },
        Cell::Occupied(q) => q,
    }
}

/// The grid `g` with the cell at `p` replaced by `c`.
pub open spec fn set_cell(g: Seq<Seq<Cell>>, p: Position, c: Cell) -> Seq<Seq<Cell>> {
    g.update(p.y as int, g[p.y as int].update(p.x as int, c))
}

/// How much one cell contributes to a player's piece count.
pub open spec fn cell_count(c: Cell, player: Player) -> nat {
    if cell_owned_by(c, player) {
        1
    } else {
        0
    }
}

/// How many pieces of `player` stand in one rank.
pub open spec fn row_piece_count(row: Seq<Cell>, player: Player) -> nat
    decreases row.len(),
{
    if row.len() == 0 {
        0
    } else {
        row_piece_count(row.drop_last(), player) + cell_count(row.last(), player)
    }
}

/// How many pieces of `player` stand on the whole grid.
pub open spec fn grid_piece_count(g: Seq<Seq<Cell>>, player: Player) -> nat
    decreases g.len(),
{
    if g.len() == 0 {
        0
    } else {
        grid_piece_count(g.drop_last(), player) + row_piece_count(g.last(), player)
    }
}

/// Replacing one cell of a rank moves its piece count by the difference of
/// the two cells' contributions.
pub proof fn lemma_row_count_update(row: Seq<Cell>, player: Player, i: int, c: Cell)
    requires
        0 <= i < row.len(),
    ensures
        row_piece_count(row.update(i, c), player) + cell_count(row[i], player)
            == row_piece_count(row, player) + cell_count(c, player),
    decreases row.len(),
{
    let r2 = row.update(i, c);
    if i == row.len() - 1 {
        assert(r2.drop_last() =~= row.drop_last());
    } else {
        lemma_row_count_update(row.drop_last(), player, i, c);
        assert(r2.drop_last() =~= row.drop_last().update(i, c));
    }
}

/// Replacing one rank of a grid moves its piece count by the difference of
/// the two ranks' counts.
pub proof fn lemma_grid_count_update_row(g: Seq<Seq<Cell>>, player: Player, y: int, row: Seq<Cell>)
    requires
        0 <= y < g.len(),
    ensures
        grid_piece_count(g.update(y, row), player) + row_piece_count(g[y], player)
            == grid_piece_count(g, player) + row_piece_count(row, player),
    decreases g.len(),
{
    let g2 = g.update(y, row);
    if y == g.len() - 1 {
        assert(g2.drop_last() =~= g.drop_last());
    } else {
        lemma_grid_count_update_row(g.drop_last(), player, y, row);
        assert(g2.drop_last() =~= g.drop_last().update(y, row));
    }
}

/// Replacing one cell keeps the grid well-formed and moves the piece count
/// by the difference of the two cells' contributions.
pub proof fn lemma_set_cell_count(g: Seq<Seq<Cell>>, p: Position, c: Cell, player: Player)
    requires
        grid_wf(g),
        p.wf(),
    ensures
        grid_wf(set_cell(g, p, c)),
        grid_piece_count(set_cell(g, p, c), player) + cell_count(cell_at(g, p), player)
            == grid_piece_count(g, player) + cell_count(c, player),
{
    let y = p.y as int;
    let x = p.x as int;
    lemma_row_count_update(g[y], player, x, c);
    lemma_grid_count_update_row(g, player, y, g[y].update(x, c));
}

/// Replacing one cell changes that cell and no other.
pub proof fn lemma_set_cell_cells(g: Seq<Seq<Cell>>, p: Position, c: Cell)
    requires
        grid_wf(g),
        p.wf(),
    ensures
        cell_at(set_cell(g, p, c), p) == c,
        forall|q: Position|
            q.wf() && q != p ==> #[trigger] cell_at(set_cell(g, p, c), q) == cell_at(g, q),
{
}

/// Of two successive writes to the same cell only the second remains.
pub proof fn lemma_set_cell_absorb(g: Seq<Seq<Cell>>, p: Position, a: Cell, b: Cell)
    requires
        grid_wf(g),
        p.wf(),
    ensures
        set_cell(set_cell(g, p, a), p, b) == set_cell(g, p, b),
{
    let y = p.y as int;
    let x = p.x as int;
    assert(g[y].update(x, a).update(x, b) =~= g[y].update(x, b));
    assert(set_cell(set_cell(g, p, a), p, b) =~= set_cell(g, p, b));
}

/// Writing back the very cell a grid already holds leaves the grid unchanged.
pub proof fn lemma_set_cell_noop(g: Seq<Seq<Cell>>, p: Position)
    requires
        grid_wf(g),
        p.wf(),
    ensures
        set_cell(g, p, cell_at(g, p)) == g,
{
    let y = p.y as int;
    let x = p.x as int;
    assert(g[y].update(x, cell_at(g, p)) =~= g[y]);
    assert(set_cell(g, p, cell_at(g, p)) =~= g);
}

impl Board {
    /// The cell at `p`.
    pub fn cell_at(&self, p: Position) -> (c: Cell)
        requires
            grid_wf(self@),
            p.wf(),
        ensures
            c == cell_at(self@, p),
    {
        self.rows[p.y as usize].cells[p.x as usize]
    }

    /// A board whose every cell is empty.
    pub fn empty() -> (r: Board)
        ensures
            grid_wf(r@),
            forall|p: Position| p.wf() ==> #[trigger] cell_at(r@, p) == Cell::Empty,
    {
        let mut rows: Vec<Row> = Vec::new();
        let mut y: usize = 0;
        while y < BOARD_SIZE
            invariant
                y <= BOARD_SIZE,
                rows@.len() == y as int,
                forall|yy: int|
                    0 <= yy < y as int ==> (#[trigger] rows@[yy])@.len() == BOARD_SIZE as int,
                forall|yy: int, xx: int|
                    0 <= yy < y as int && 0 <= xx < BOARD_SIZE as int
                        ==> (#[trigger] rows@[yy]@[xx]) == Cell::Empty,
            decreases BOARD_SIZE - y,
        {
            let mut cells: Vec<Cell> = Vec::new();
            let mut x: usize = 0;
            while x < BOARD_SIZE
                invariant
                    x <= BOARD_SIZE,
                    cells@.len() == x as int,
                    forall|xx: int| 0 <= xx < x as int ==> (#[trigger] cells@[xx]) == Cell::Empty,
                decreases BOARD_SIZE - x,
            {
                cells.push(Cell::Empty);
                x = x + 1;
            }
            rows.push(Row { cells });
            y = y + 1;
        }
        let r = Board { rows };
        proof {
            assert forall|p: Position| p.wf() implies #[trigger] cell_at(r@, p) == Cell::Empty by {
                assert(r@[p.y as int] == rows@[p.y as int]@);
            }
        }
        r
    }

    /// A fresh board equal to `self` but for the cell at `p`, which holds `c`.
    pub fn with_cell(&self, p: Position, c: Cell) -> (r: Board)
        requires
            grid_wf(self@),
            p.wf(),
        ensures
            grid_wf(r@),
            r@ == set_cell(self@, p, c),
    {
        let g = self;
        let mut rows: Vec<Row> = Vec::new();
        let mut y: usize = 0;
        while y < BOARD_SIZE
            invariant
                grid_wf(g@),
                p.wf(),
                y <= BOARD_SIZE,
                rows@.len() == y as int,
                forall|yy: int|
                    0 <= yy < y as int
                        ==> (#[trigger] rows@[yy])@ == set_cell(g@, p, c)[yy],
            decreases BOARD_SIZE - y,
        {
            let mut cells: Vec<Cell> = Vec::new();
            let mut x: usize = 0;
            while x < BOARD_SIZE
                invariant
                    grid_wf(g@),
                    p.wf(),
                    y < BOARD_SIZE,
                    x <= BOARD_SIZE,
                    cells@.len() == x as int,
                    forall|xx: int|
                        0 <= xx < x as int
                            ==> (#[trigger] cells@[xx]) == set_cell(g@, p, c)[y as int][xx],
                decreases BOARD_SIZE - x,
            {
                let q = Position { x: x as u8, y: y as u8 };
                let cur = if q.x == p.x && q.y == p.y {
                    c
                } else {
                    g.cell_at(q)
                };
                proof {
                    assert(set_cell(g@, p, c)[y as int][x as int] == cur);
                }
                cells.push(cur);
                x = x + 1;
            }
            proof {
                assert(cells@ =~= set_cell(g@, p, c)[y as int]);
            }
            rows.push(Row { cells });
            y = y + 1;
        }
        let r = Board { rows };
        proof {
            assert(r@ =~= set_cell(g@, p, c));
        }
        r
    }
}

} // verus!
