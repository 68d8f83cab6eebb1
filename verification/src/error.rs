use vstd::prelude::*;

verus! {

/// The failure kinds shared by board, game and engine operations.
///
/// `GameOver` and `Internal` are part of the error vocabulary but are never
/// produced by the core rules; callers translating errors for users may still
/// match on them.
#[derive(Debug, Clone, PartialEq, Eq)]
pub enum ChessError {
    InvalidMove(String),
    InvalidPosition(String),
    GameOver(String),
    Internal(String),
}

} // verus!
