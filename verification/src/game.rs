use vstd::prelude::*;
use vstd::string::*;

use crate::board::{apply_move_at, at, initial_at, Board};
use crate::engine::{all_moves, is_best_move, sq, ChessMove, Engine};
use crate::error::ChessError;
use crate::piece::{Color, PieceType};
use crate::position::{parse_sq_ok, parsed_sq, Position};

verus! {

/// The derived state of a game, recomputed after every applied move. `Draw`
/// is part of the vocabulary but never produced by the current rules.
#[derive(Debug, Clone, Copy, PartialEq, Eq, Structural)]
pub enum GameStatus {
    InProgress,
    Check,
    Checkmate,
    Stalemate,
    Draw,
}

/// A game in progress: the board, whose turn it is, the derived status, and
/// the history of applied moves as `from-to` strings.
#[derive(Debug, Clone)]
pub struct Game {
    pub board: Board,
    pub current_turn: Color,
    pub status: GameStatus,
    pub move_history: Vec<String>,
    pub engine: Engine,
}

/// The first square at file >= `file` on `rank` holding `color`'s king.
pub open spec fn king_in_row_from(
    v: Seq<Option<crate::piece::Piece>>,
    color: Color,
    rank: int,
    file: int,
) -> Option<Position>
    decreases 8 - file,
{
    if file >= 8 {
        None
    } else if at(v, file, rank) matches Some(p) && p.color == color && p.piece_type
        == PieceType::King {
        Some(sq(file, rank))
    } else {
        king_in_row_from(v, color, rank, file + 1)
    }
}

/// The first square at rank >= `rank` holding `color`'s king, rank-major.
pub open spec fn king_from_row(v: Seq<Option<crate::piece::Piece>>, color: Color, rank: int) -> Option<
    Position,
>
    decreases 8 - rank,
{
    if rank >= 8 {
        None
    } else {
        match king_in_row_from(v, color, rank, 0) {
            Some(p) => Some(p),
            None => king_from_row(v, color, rank + 1),
        }
    }
}

/// The first square holding `color`'s king in board scan order.
pub open spec fn first_king(v: Seq<Option<crate::piece::Piece>>, color: Color) -> Option<Position> {
    king_from_row(v, color, 0)
}

/// Whether `color` is in check: some pseudo-legal move of the opponent
/// targets the king's square. A side with no king on the board is
/// conservatively counted as in check.
pub open spec fn in_check(v: Seq<Option<crate::piece::Piece>>, color: Color) -> bool {
    match first_king(v, color) {
        None => true,
        Some(kpos) => exists|i: int|
            0 <= i < all_moves(v, color.spec_opposite()).len() && (#[trigger] all_moves(
                v,
                color.spec_opposite(),
            )[i]).to == kpos,
    }
}

/// The derived status of a position for the side to move, combining check
/// and the existence of pseudo-legal moves. Because move generation is
/// pseudo-legal, `Check` may stand where full rules would say checkmate.
pub open spec fn status_of(v: Seq<Option<crate::piece::Piece>>, color: Color) -> GameStatus {
    let check = in_check(v, color);
    let has_moves = all_moves(v, color).len() > 0;
    if check {
        if has_moves {
            GameStatus::Check
        } else {
            GameStatus::Checkmate
        }
    } else if !has_moves {
        GameStatus::Stalemate
    } else {
        GameStatus::InProgress
    }
}

impl Game {
    /// A fresh game: initial board, White to move, no history, a default
    /// engine of depth 3.
    pub fn new() -> (g: Game)
        ensures
            g.board@.len() == 64,
            forall|f: int, r: int|
                0 <= f < 8 && 0 <= r < 8 ==> #[trigger] at(g.board@, f, r) == initial_at(f, r),
            g.current_turn == Color::White,
            g.status == GameStatus::InProgress,
            g.move_history@.len() == 0,
            g.engine.spec_depth() == 3,
    {
        Game {
            board: Board::new(),
            current_turn: Color::White,
            status: GameStatus::InProgress,
            move_history: Vec::new(),
            engine: Engine::new(3),
        }
    }

    /// Applies the move written as two square strings. Exactly the turn and
    /// occupancy are validated: the source must parse, must hold a piece,
    /// and that piece must belong to the side to move; the destination must
    /// parse. On failure nothing changes; on success the piece is relocated,
    /// one history entry `from-to` is appended, the turn flips, and the
    /// status is recomputed for the new side to move.
    pub fn make_move(&mut self, from_str: &str, to_str: &str) -> (r: Result<(), ChessError>)
        ensures
            r is Ok <==> (parse_sq_ok(from_str@) && parse_sq_ok(to_str@) && (at(
                old(self).board@,
                parsed_sq(from_str@).file as int,
                parsed_sq(from_str@).rank as int,
            ) matches Some(p)
                && p.color == old(self).current_turn)),
            r is Ok ==> {
                &&& final(self).board@ == apply_move_at(
                    old(self).board@,
                    parsed_sq(from_str@),
                    parsed_sq(to_str@),
                )
                &&& final(self).current_turn == old(self).current_turn.spec_opposite()
                &&& final(self).status == status_of(final(self).board@, final(self).current_turn)
                &&& final(self).move_history@.len() == old(self).move_history@.len() + 1
                &&& (forall|i: int|
                    0 <= i < old(self).move_history@.len() ==> final(self).move_history@[i] == old(
                        self,
                    ).move_history@[i])
                &&& final(self).move_history@[old(self).move_history@.len() as int]@ == from_str@
                    + "-"@ + to_str@
                &&& final(self).engine == old(self).engine
            },
            r is Err ==> *final(self) == *old(self),
            r matches Err(e) ==> (e is InvalidPosition <==> !(parse_sq_ok(from_str@) && parse_sq_ok(
                to_str@,
            ))),
            r matches Err(e) ==> (e is InvalidMove <==> (parse_sq_ok(from_str@) && parse_sq_ok(
                to_str@,
            ))),
    {
        let from = match Position::from_str(from_str) {
            Ok(p) => p,
            Err(e) => {
                return Err(e);
            },
        };
        let to = match Position::from_str(to_str) {
            Ok(p) => p,
            Err(e) => {
                return Err(e);
            },
        };
        let chess_move = ChessMove::new(from, to);
        let current_piece = match self.board.get_piece(&chess_move.from) {
            Some(p) => p,
            None => {
                return Err(
                    ChessError::InvalidMove(String::from_str("no piece at source position")),
                );
            },
        };
        if current_piece.color != self.current_turn {
            return Err(ChessError::InvalidMove(String::from_str("not your turn")));
        }
        let moved = self.board.make_move(&chess_move.from, &chess_move.to);
        match moved {
            Ok(()) => {},
            Err(e) => {
                proof {
                    assert(false);
                }
                return Err(e);
            },
        }
        let mut entry = String::from_str(from_str);
        entry.append("-");
        entry.append(to_str);
        self.move_history.push(entry);
        self.current_turn = self.current_turn.opposite();
        self.update_game_status();
        proof {
            assert(final(self).move_history@[old(self).move_history@.len() as int]@ =~= from_str@
                + "-"@ + to_str@);
        }
        Ok(())
    }

    /// The move a fresh depth-3 engine selects for the side to move.
    pub fn get_best_move(&self) -> (r: Result<ChessMove, ChessError>)
        ensures
            r is Ok <==> all_moves(self.board@, self.current_turn).len() > 0,
            r matches Ok(mv) ==> is_best_move(self.board@, self.current_turn, 3nat, mv),
            r matches Err(e) ==> e is InvalidMove,
    {
        let mut engine = Engine::new(3);
        engine.find_best_move(self)
    }

    /// The status derived after the latest applied move.
    pub fn get_status(&self) -> (r: GameStatus)
        ensures
            r == self.status,
    {
        self.status
    }

    /// Whether `color`'s king is attacked by some pseudo-legal opponent
    /// move; a missing king counts as in check.
    fn is_king_in_check(&self, color: Color) -> (r: bool)
        ensures
            r == in_check(self.board@, color),
    {
        let ghost v = self.board@;
        let mut king_pos: Option<Position> = None;
        let mut rank: u8 = 0;
        while rank < 8 && king_pos.is_none()
            invariant
                rank <= 8,
                king_pos is None ==> first_king(v, color) == king_from_row(v, color, rank as int),
                king_pos is Some ==> first_king(v, color) == king_pos,
                v == self.board@,
            decreases 8 - rank,
        {
            let mut file: u8 = 0;
            while file < 8 && king_pos.is_none()
                invariant
                    rank < 8,
                    file <= 8,
                    king_pos is None ==> king_in_row_from(v, color, rank as int, 0)
                        == king_in_row_from(v, color, rank as int, file as int),
                    king_pos is None ==> first_king(v, color) == king_from_row(
                        v,
                        color,
                        rank as int,
                    ),
                    king_pos is Some ==> first_king(v, color) == king_pos,
                    v == self.board@,
                decreases 8 - file,
            {
                let pos = Position::new(file, rank);
                match self.board.get_piece(&pos) {
                    Some(piece) => {
                        if piece.color == color && piece.piece_type == PieceType::King {
                            king_pos = Some(pos);
                        }
                    },
                    None => {},
                }
                file = file + 1;
            }
            rank = rank + 1;
        }
        let king_pos = match king_pos {
            Some(pos) => pos,
            None => {
                return true;
            },
        };
        let engine = Engine::new(1);
        let opponent_color = color.opposite();
        let moves = match engine.generate_moves(&self.board, opponent_color) {
            Ok(ms) => ms,
            Err(_) => {
                proof {
                    assert(false);
                }
                return false;
            },
        };
        let mut i: usize = 0;
        while i < moves.len()
            invariant
                v == self.board@,
                moves@ == all_moves(v, color.spec_opposite()),
                i <= moves.len(),
                first_king(v, color) == Some(king_pos),
                forall|k: int| 0 <= k < i ==> (#[trigger] moves@[k]).to != king_pos,
            decreases moves.len() - i,
        {
            if moves[i].to == king_pos {
                proof {
                    let ms = all_moves(v, color.spec_opposite());
                    assert(0 <= (i as int) < ms.len() && ms[i as int].to == king_pos);
                    assert(in_check(v, color));
                }
                return true;
            }
            i = i + 1;
        }
        false
    }

    /// Recomputes the status for the side to move from check and move
    /// availability.
    fn update_game_status(&mut self)
        ensures
            final(self).status == status_of(old(self).board@, old(self).current_turn),
            final(self).board == old(self).board,
            final(self).current_turn == old(self).current_turn,
            final(self).move_history == old(self).move_history,
            final(self).engine == old(self).engine,
    {
        let current_player = self.current_turn;
        let in_chk = self.is_king_in_check(current_player);
        let engine = Engine::new(1);
        let has_legal_moves = match engine.generate_moves(&self.board, current_player) {
            Ok(moves) => moves.len() > 0,
            Err(_) => false,
        };
        if in_chk {
            if has_legal_moves {
                self.status = GameStatus::Check;
            } else {
                self.status = GameStatus::Checkmate;
            }
        } else if !has_legal_moves {
            self.status = GameStatus::Stalemate;
        } else {
            self.status = GameStatus::InProgress;
        }
    }
}

} // verus!
