//! A small chess engine: an 8x8 board with unconditional piece relocation,
//! pseudo-legal move generation per piece kind, a static material-and-position
//! evaluation, a depth-limited negamax search with alpha-beta pruning, and a
//! game state machine over them. Every function carries a contract verified
//! by Verus; move generation, evaluation and search are specified exactly
//! against mathematical models of the board.

pub mod board;
pub mod engine;
pub mod error;
pub mod game;
pub mod piece;
pub mod position;
