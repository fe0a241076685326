//! A chess engine: board rules, a static evaluator, and a time-bounded
//! alpha-beta search with a transposition table and move-ordering heuristics.

pub mod position;
pub mod piece;
pub mod moves;
pub mod board;
pub mod grid;
pub mod mirror;
pub mod evaluation;
pub mod tt;
pub mod timeman;
pub mod search;
pub mod opening_book;
pub mod ai;

pub use ai::ChessAI;
pub use board::Board;
pub use moves::{Move, MoveType};
pub use piece::{Color, Piece, PieceType};
pub use position::Position;
