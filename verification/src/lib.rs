//! Move generation for a checkers-family board game.
//!
//! The engine enumerates simple (non-capturing) moves, single-step captures,
//! and full maximal capture chains, and enforces the forced-capture rule:
//! when any piece of the player to move can capture, only capture moves are
//! legal for that player that turn.
//!
//! The per-piece stepping geometry is supplied through the [`provider::MoveProvider`]
//! trait; [`geometry::DiagonalRules`] is a verified one-step diagonal geometry.

pub mod board;
pub mod chains;
pub mod engine;
pub mod geometry;
pub mod moves;
pub mod provider;
pub mod sizes;

pub use board::Board;
pub use board::Cell;
pub use board::Piece;
pub use board::PieceKind;
pub use board::Player;
pub use board::Position;
pub use board::Row;
pub use chains::chain_eat_moves;
pub use engine::available_moves;
pub use engine::can_eat;
pub use engine::exists_eat_move;
pub use engine::has_moves;
pub use engine::moves_for;
pub use engine::player_can_make_eat_move;
pub use engine::player_positions;
pub use engine::player_row_positions;
pub use geometry::DiagonalRules;
pub use moves::Move;
pub use provider::MoveProvider;
pub use sizes::Sizes;
