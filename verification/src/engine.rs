use vstd::prelude::*;
use vstd::string::*;

use crate::board::{apply_move_at, at, Board};
use crate::error::ChessError;
use crate::game::Game;
use crate::piece::{Color, Piece, PieceType};
use crate::position::Position;

verus! {

/// A move between two squares. `score` is a scratch value used for move
/// ordering during search and carries no meaning elsewhere.
#[derive(Debug, Clone, Copy, PartialEq, Eq, Structural)]
pub struct ChessMove {
    pub from: Position,
    pub to: Position,
    pub score: i32,
}

impl ChessMove {
    pub fn new(from: Position, to: Position) -> (m: Self)
        ensures
            m == spec_move(from, to),
    {
        Self { from, to, score: 0 }
    }
}

/// A freshly generated move: endpoints with a zero score.
pub open spec fn spec_move(from: Position, to: Position) -> ChessMove {
    ChessMove { from, to, score: 0 }
}

/// The position at the given coordinates, which callers keep within 0..=7.
pub open spec fn sq(file: int, rank: int) -> Position {
    Position { file: file as u8, rank: rank as u8 }
}

/// The moves of a single step from `from` by (dr, df): at most one move,
/// present when the destination is on the board and empty or enemy-occupied.
pub open spec fn step_move(
    v: Seq<Option<Piece>>,
    color: Color,
    from: Position,
    dr: int,
    df: int,
) -> Seq<ChessMove> {
    let r = from.rank + dr;
    let f = from.file + df;
    if 0 <= r < 8 && 0 <= f < 8 {
        match at(v, f, r) {
            Some(q) => if q.color != color {
                seq![spec_move(from, sq(f, r))]
            } else {
                Seq::empty()
            },
            None => seq![spec_move(from, sq(f, r))],
        }
    } else {
        Seq::empty()
    }
}

/// The moves along a ray: starting at (f, r) and walking by (dr, df), empty
/// squares are collected until the board edge or the first occupied square,
/// which is included exactly when it holds an enemy piece. `fuel` bounds the
/// walk; 8 steps always reach the edge from an on-board origin.
pub open spec fn ray_from(
    v: Seq<Option<Piece>>,
    color: Color,
    from: Position,
    r: int,
    f: int,
    dr: int,
    df: int,
    fuel: nat,
) -> Seq<ChessMove>
    decreases fuel,
{
    if fuel == 0 {
        Seq::empty()
    } else if !(0 <= r < 8 && 0 <= f < 8) {
        Seq::empty()
    } else {
        match at(v, f, r) {
            Some(q) => if q.color != color {
                seq![spec_move(from, sq(f, r))]
            } else {
                Seq::empty()
            },
            None => seq![spec_move(from, sq(f, r))] + ray_from(
                v,
                color,
                from,
                r + dr,
                f + df,
                dr,
                df,
                (fuel - 1) as nat,
            ),
        }
    }
}

/// A full sliding ray from `from` in direction (dr, df).
pub open spec fn slide(
    v: Seq<Option<Piece>>,
    color: Color,
    from: Position,
    dr: int,
    df: int,
) -> Seq<ChessMove> {
    ray_from(v, color, from, from.rank + dr, from.file + df, dr, df, 8)
}

/// Pawn moves: single push onto an empty square, double push from the home
/// rank through two empty squares, and the two diagonal captures.
pub open spec fn pawn_moves(v: Seq<Option<Piece>>, color: Color, from: Position) -> Seq<
    ChessMove,
> {
    let dir: int = if color == Color::White {
        1
    } else {
        -1
    };
    let nr = from.rank + dir;
    let fwd_open = 0 <= nr < 8 && at(v, from.file as int, nr) is None;
    let fwd = if fwd_open {
        seq![spec_move(from, sq(from.file as int, nr))]
    } else {
        Seq::empty()
    };
    let home = (color == Color::White && from.rank == 1) || (color == Color::Black && from.rank
        == 6);
    let nr2 = from.rank + 2 * dir;
    let dbl = if fwd_open && home && 0 <= nr2 < 8 && at(v, from.file as int, nr2) is None {
        seq![spec_move(from, sq(from.file as int, nr2))]
    } else {
        Seq::empty()
    };
    let capl = if 0 <= nr < 8 && 0 <= from.file - 1 && (at(v, from.file - 1, nr) matches Some(q)
        && q.color != color) {
        seq![spec_move(from, sq(from.file - 1, nr))]
    } else {
        Seq::empty()
    };
    let capr = if 0 <= nr < 8 && from.file + 1 < 8 && (at(v, from.file + 1, nr) matches Some(q)
        && q.color != color) {
        seq![spec_move(from, sq(from.file + 1, nr))]
    } else {
        Seq::empty()
    };
    fwd + dbl + capl + capr
}

/// The eight knight steps, in a fixed generation order.
pub open spec fn knight_moves(v: Seq<Option<Piece>>, color: Color, from: Position) -> Seq<
    ChessMove,
> {
    step_move(v, color, from, 2, 1) + step_move(v, color, from, 2, -1) + step_move(
        v,
        color,
        from,
        -2,
        1,
    ) + step_move(v, color, from, -2, -1) + step_move(v, color, from, 1, 2) + step_move(
        v,
        color,
        from,
        1,
        -2,
    ) + step_move(v, color, from, -1, 2) + step_move(v, color, from, -1, -2)
}

/// The eight king steps, in a fixed generation order.
pub open spec fn king_moves(v: Seq<Option<Piece>>, color: Color, from: Position) -> Seq<
    ChessMove,
> {
    step_move(v, color, from, 1, 0) + step_move(v, color, from, -1, 0) + step_move(
        v,
        color,
        from,
        0,
        1,
    ) + step_move(v, color, from, 0, -1) + step_move(v, color, from, 1, 1) + step_move(
        v,
        color,
        from,
        1,
        -1,
    ) + step_move(v, color, from, -1, 1) + step_move(v, color, from, -1, -1)
}

/// The four diagonal rays.
pub open spec fn bishop_moves(v: Seq<Option<Piece>>, color: Color, from: Position) -> Seq<
    ChessMove,
> {
    slide(v, color, from, 1, 1) + slide(v, color, from, 1, -1) + slide(v, color, from, -1, 1)
        + slide(v, color, from, -1, -1)
}

/// The four orthogonal rays.
pub open spec fn rook_moves(v: Seq<Option<Piece>>, color: Color, from: Position) -> Seq<
    ChessMove,
> {
    slide(v, color, from, 1, 0) + slide(v, color, from, -1, 0) + slide(v, color, from, 0, 1)
        + slide(v, color, from, 0, -1)
}

/// The queen combines the rook and bishop rays, orthogonals first.
pub open spec fn queen_moves(v: Seq<Option<Piece>>, color: Color, from: Position) -> Seq<
    ChessMove,
> {
    rook_moves(v, color, from) + bishop_moves(v, color, from)
}

/// The pseudo-legal moves of one piece standing at `from`.
pub open spec fn piece_moves(v: Seq<Option<Piece>>, p: Piece, from: Position) -> Seq<ChessMove> {
    match p.piece_type {
        PieceType::Pawn => pawn_moves(v, p.color, from),
        PieceType::Knight => knight_moves(v, p.color, from),
        PieceType::Bishop => bishop_moves(v, p.color, from),
        PieceType::Rook => rook_moves(v, p.color, from),
        PieceType::Queen => queen_moves(v, p.color, from),
        PieceType::King => king_moves(v, p.color, from),
    }
}

/// The moves contributed by the square (file, rank): empty unless it holds a
/// piece of the side to move.
pub open spec fn square_moves(v: Seq<Option<Piece>>, color: Color, file: int, rank: int) -> Seq<
    ChessMove,
> {
    match at(v, file, rank) {
        Some(p) => if p.color == color {
            piece_moves(v, p, sq(file, rank))
        } else {
            Seq::empty()
        },
        None => Seq::empty(),
    }
}

/// The moves of the squares (0..file, rank), scanned file-ascending.
pub open spec fn row_moves(v: Seq<Option<Piece>>, color: Color, rank: int, file: int) -> Seq<
    ChessMove,
>
    decreases file,
{
    if file <= 0 {
        Seq::empty()
    } else {
        row_moves(v, color, rank, file - 1) + square_moves(v, color, file - 1, rank)
    }
}

/// The moves of all squares on ranks 0..rank, scanned rank-major.
pub open spec fn moves_upto_row(v: Seq<Option<Piece>>, color: Color, rank: int) -> Seq<ChessMove>
    decreases rank,
{
    if rank <= 0 {
        Seq::empty()
    } else {
        moves_upto_row(v, color, rank - 1) + row_moves(v, color, rank - 1, 8)
    }
}

/// All pseudo-legal moves of `color`, in board scan order (rank-major).
pub open spec fn all_moves(v: Seq<Option<Piece>>, color: Color) -> Seq<ChessMove> {
    moves_upto_row(v, color, 8)
}

/// Concatenation reassociates: appending `a` then `b` equals appending
/// `a + b` at once.
proof fn lemma_concat_assoc(o: Seq<ChessMove>, a: Seq<ChessMove>, b: Seq<ChessMove>)
    ensures
        (o + a) + b == o + (a + b),
{
    assert((o + a) + b =~= o + (a + b));
}

/// Appends the single-step move by (dr, df) if the destination is on the
/// board and empty or enemy-occupied.
fn try_step(board: &Board, from: &Position, color: Color, dr: i32, df: i32, moves: &mut Vec<
    ChessMove,
>)
    requires
        from.wf(),
        -2 <= dr <= 2,
        -2 <= df <= 2,
    ensures
        final(moves)@ == old(moves)@ + step_move(board@, color, *from, dr as int, df as int),
{
    let to_rank = from.rank as i32 + dr;
    let to_file = from.file as i32 + df;
    if to_rank >= 0 && to_rank < 8 && to_file >= 0 && to_file < 8 {
        let to = Position::new(to_file as u8, to_rank as u8);
        match board.get_piece(&to) {
            Some(target) => {
                if target.color != color {
                    moves.push(ChessMove::new(*from, to));
                }
            },
            None => {
                moves.push(ChessMove::new(*from, to));
            },
        }
    }
    proof {
        assert(final(moves)@ =~= old(moves)@ + step_move(
            board@,
            color,
            *from,
            dr as int,
            df as int,
        ));
    }
}

/// The search engine: a fixed depth plus per-search diagnostic counters.
#[derive(Debug, Clone, Copy)]
pub struct Engine {
    depth: u8,
    nodes_searched: u32,
    debug: bool,
}

impl Engine {
    /// The configured search depth.
    pub closed spec fn spec_depth(&self) -> u8 {
        self.depth
    }

    /// The diagnostic node counter of the latest search.
    pub closed spec fn spec_nodes_searched(&self) -> u32 {
        self.nodes_searched
    }

    /// The inert debug flag.
    pub closed spec fn spec_debug(&self) -> bool {
        self.debug
    }

    pub fn new(depth: u8) -> (e: Engine)
        ensures
            e.spec_depth() == depth,
            e.spec_nodes_searched() == 0,
            !e.spec_debug(),
    {
        Engine { depth, nodes_searched: 0, debug: false }
    }

    /// The debug flag is inert bookkeeping: the engine computes the same
    /// moves either way.
    pub fn set_debug_mode(&mut self, debug: bool)
        ensures
            final(self).spec_debug() == debug,
            final(self).spec_depth() == old(self).spec_depth(),
            final(self).spec_nodes_searched() == old(self).spec_nodes_searched(),
    {
        self.debug = debug;
    }

    /// The number of positions visited by the latest search, and the
    /// configured depth.
    pub fn get_stats(&self) -> (r: (u32, u8))
        ensures
            r.0 == self.spec_nodes_searched(),
            r.1 == self.spec_depth(),
    {
        (self.nodes_searched, self.depth)
    }

    /// All pseudo-legal moves for `color` on `board`, in board scan order.
    /// Generation never fails; the `Result` shape is kept for callers that
    /// treat it uniformly with fallible operations.
    pub fn generate_moves(&self, board: &Board, color: Color) -> (r: Result<
        Vec<ChessMove>,
        ChessError,
    >)
        ensures
            r matches Ok(ms) && ms@ == all_moves(board@, color),
    {
        let mut moves: Vec<ChessMove> = Vec::new();
        let mut rank: u8 = 0;
        while rank < 8
            invariant
                rank <= 8,
                moves@ == moves_upto_row(board@, color, rank as int),
            decreases 8 - rank,
        {
            let mut file: u8 = 0;
            while file < 8
                invariant
                    rank < 8,
                    file <= 8,
                    moves@ == moves_upto_row(board@, color, rank as int) + row_moves(
                        board@,
                        color,
                        rank as int,
                        file as int,
                    ),
                decreases 8 - file,
            {
                let from = Position::new(file, rank);
                match board.get_piece(&from) {
                    Some(piece) => {
                        if piece.color == color {
                            let gen = match piece.piece_type {
                                PieceType::Pawn => self.generate_pawn_moves(
                                    board,
                                    &from,
                                    piece,
                                    &mut moves,
                                ),
                                PieceType::Knight => self.generate_knight_moves(
                                    board,
                                    &from,
                                    piece,
                                    &mut moves,
                                ),
                                PieceType::Bishop => self.generate_bishop_moves(
                                    board,
                                    &from,
                                    piece,
                                    &mut moves,
                                ),
                                PieceType::Rook => self.generate_rook_moves(
                                    board,
                                    &from,
                                    piece,
                                    &mut moves,
                                ),
                                PieceType::Queen => self.generate_queen_moves(
                                    board,
                                    &from,
                                    piece,
                                    &mut moves,
                                ),
                                PieceType::King => self.generate_king_moves(
                                    board,
                                    &from,
                                    piece,
                                    &mut moves,
                                ),
                            };
                            match gen {
                                Ok(()) => {},
                                Err(_) => {},
                            }
                        }
                    },
                    None => {},
                }
                proof {
                    assert(moves@ =~= moves_upto_row(board@, color, rank as int) + row_moves(
                        board@,
                        color,
                        rank as int,
                        file as int + 1,
                    ));
                }
                file = file + 1;
            }
            proof {
                assert(moves@ =~= moves_upto_row(board@, color, rank as int + 1));
            }
            rank = rank + 1;
        }
        Ok(moves)
    }

    /// Pawn moves from `from`, appended to `moves`.
    fn generate_pawn_moves(&self, board: &Board, from: &Position, piece: Piece, moves: &mut Vec<
        ChessMove,
    >) -> (r: Result<(), ChessError>)
        requires
            from.wf(),
        ensures
            r is Ok,
            final(moves)@ == old(moves)@ + pawn_moves(board@, piece.color, *from),
    {
        let direction: i32 = if piece.color == Color::White {
            1
        } else {
            -1
        };
        let new_rank = (from.rank as i32) + direction;
        if new_rank >= 0 && new_rank < 8 {
            let to = Position::new(from.file, new_rank as u8);
            if board.get_piece(&to).is_none() {
                moves.push(ChessMove::new(*from, to));
                if (piece.color == Color::White && from.rank == 1) || (piece.color == Color::Black
                    && from.rank == 6) {
                    let double_new_rank = (from.rank as i32) + 2 * direction;
                    if double_new_rank >= 0 && double_new_rank < 8 {
                        let double_to = Position::new(from.file, double_new_rank as u8);
                        if board.get_piece(&double_to).is_none() {
                            moves.push(ChessMove::new(*from, double_to));
                        }
                    }
                }
            }
        }
        if new_rank >= 0 && new_rank < 8 {
            if from.file >= 1 {
                let to = Position::new(from.file - 1, new_rank as u8);
                match board.get_piece(&to) {
                    Some(target) => {
                        if target.color != piece.color {
                            moves.push(ChessMove::new(*from, to));
                        }
                    },
                    None => {},
                }
            }
            if from.file + 1 < 8 {
                let to = Position::new(from.file + 1, new_rank as u8);
                match board.get_piece(&to) {
                    Some(target) => {
                        if target.color != piece.color {
                            moves.push(ChessMove::new(*from, to));
                        }
                    },
                    None => {},
                }
            }
        }
        proof {
            assert(final(moves)@ =~= old(moves)@ + pawn_moves(board@, piece.color, *from));
        }
        Ok(())
    }

    /// Knight moves from `from`, appended to `moves`.
    fn generate_knight_moves(&self, board: &Board, from: &Position, piece: Piece, moves: &mut Vec<
        ChessMove,
    >) -> (r: Result<(), ChessError>)
        requires
            from.wf(),
        ensures
            r is Ok,
            final(moves)@ == old(moves)@ + knight_moves(board@, piece.color, *from),
    {
        try_step(board, from, piece.color, 2, 1, moves);
        try_step(board, from, piece.color, 2, -1, moves);
        try_step(board, from, piece.color, -2, 1, moves);
        try_step(board, from, piece.color, -2, -1, moves);
        try_step(board, from, piece.color, 1, 2, moves);
        try_step(board, from, piece.color, 1, -2, moves);
        try_step(board, from, piece.color, -1, 2, moves);
        try_step(board, from, piece.color, -1, -2, moves);
        proof {
            let o = old(moves)@;
            let v = board@;
            let c = piece.color;
            let s1 = step_move(v, c, *from, 2, 1);
            let s2 = step_move(v, c, *from, 2, -1);
            let s3 = step_move(v, c, *from, -2, 1);
            let s4 = step_move(v, c, *from, -2, -1);
            let s5 = step_move(v, c, *from, 1, 2);
            let s6 = step_move(v, c, *from, 1, -2);
            let s7 = step_move(v, c, *from, -1, 2);
            let s8 = step_move(v, c, *from, -1, -2);
            lemma_concat_assoc(o, s1, s2);
            lemma_concat_assoc(o, s1 + s2, s3);
            lemma_concat_assoc(o, s1 + s2 + s3, s4);
            lemma_concat_assoc(o, s1 + s2 + s3 + s4, s5);
            lemma_concat_assoc(o, s1 + s2 + s3 + s4 + s5, s6);
            lemma_concat_assoc(o, s1 + s2 + s3 + s4 + s5 + s6, s7);
            lemma_concat_assoc(o, s1 + s2 + s3 + s4 + s5 + s6 + s7, s8);
        }
        Ok(())
    }

    /// King moves from `from`, appended to `moves`.
    fn generate_king_moves(&self, board: &Board, from: &Position, piece: Piece, moves: &mut Vec<
        ChessMove,
    >) -> (r: Result<(), ChessError>)
        requires
            from.wf(),
        ensures
            r is Ok,
            final(moves)@ == old(moves)@ + king_moves(board@, piece.color, *from),
    {
        try_step(board, from, piece.color, 1, 0, moves);
        try_step(board, from, piece.color, -1, 0, moves);
        try_step(board, from, piece.color, 0, 1, moves);
        try_step(board, from, piece.color, 0, -1, moves);
        try_step(board, from, piece.color, 1, 1, moves);
        try_step(board, from, piece.color, 1, -1, moves);
        try_step(board, from, piece.color, -1, 1, moves);
        try_step(board, from, piece.color, -1, -1, moves);
        proof {
            let o = old(moves)@;
            let v = board@;
            let c = piece.color;
            let s1 = step_move(v, c, *from, 1, 0);
            let s2 = step_move(v, c, *from, -1, 0);
            let s3 = step_move(v, c, *from, 0, 1);
            let s4 = step_move(v, c, *from, 0, -1);
            let s5 = step_move(v, c, *from, 1, 1);
            let s6 = step_move(v, c, *from, 1, -1);
            let s7 = step_move(v, c, *from, -1, 1);
            let s8 = step_move(v, c, *from, -1, -1);
            lemma_concat_assoc(o, s1, s2);
            lemma_concat_assoc(o, s1 + s2, s3);
            lemma_concat_assoc(o, s1 + s2 + s3, s4);
            lemma_concat_assoc(o, s1 + s2 + s3 + s4, s5);
            lemma_concat_assoc(o, s1 + s2 + s3 + s4 + s5, s6);
            lemma_concat_assoc(o, s1 + s2 + s3 + s4 + s5 + s6, s7);
            lemma_concat_assoc(o, s1 + s2 + s3 + s4 + s5 + s6 + s7, s8);
        }
        Ok(())
    }

    /// Bishop moves from `from`, appended to `moves`.
    fn generate_bishop_moves(&self, board: &Board, from: &Position, piece: Piece, moves: &mut Vec<
        ChessMove,
    >) -> (r: Result<(), ChessError>)
        requires
            from.wf(),
        ensures
            r is Ok,
            final(moves)@ == old(moves)@ + bishop_moves(board@, piece.color, *from),
    {
        self.generate_sliding_moves(board, from, piece, 1, 1, moves);
        self.generate_sliding_moves(board, from, piece, 1, -1, moves);
        self.generate_sliding_moves(board, from, piece, -1, 1, moves);
        self.generate_sliding_moves(board, from, piece, -1, -1, moves);
        proof {
            assert(final(moves)@ =~= old(moves)@ + bishop_moves(board@, piece.color, *from));
        }
        Ok(())
    }

    /// Rook moves from `from`, appended to `moves`.
    fn generate_rook_moves(&self, board: &Board, from: &Position, piece: Piece, moves: &mut Vec<
        ChessMove,
    >) -> (r: Result<(), ChessError>)
        requires
            from.wf(),
        ensures
            r is Ok,
            final(moves)@ == old(moves)@ + rook_moves(board@, piece.color, *from),
    {
        self.generate_sliding_moves(board, from, piece, 1, 0, moves);
        self.generate_sliding_moves(board, from, piece, -1, 0, moves);
        self.generate_sliding_moves(board, from, piece, 0, 1, moves);
        self.generate_sliding_moves(board, from, piece, 0, -1, moves);
        proof {
            assert(final(moves)@ =~= old(moves)@ + rook_moves(board@, piece.color, *from));
        }
        Ok(())
    }

    /// Queen moves from `from`, appended to `moves`.
    fn generate_queen_moves(&self, board: &Board, from: &Position, piece: Piece, moves: &mut Vec<
        ChessMove,
    >) -> (r: Result<(), ChessError>)
        requires
            from.wf(),
        ensures
            r is Ok,
            final(moves)@ == old(moves)@ + queen_moves(board@, piece.color, *from),
    {
        self.generate_sliding_moves(board, from, piece, 1, 0, moves);
        self.generate_sliding_moves(board, from, piece, -1, 0, moves);
        self.generate_sliding_moves(board, from, piece, 0, 1, moves);
        self.generate_sliding_moves(board, from, piece, 0, -1, moves);
        self.generate_sliding_moves(board, from, piece, 1, 1, moves);
        self.generate_sliding_moves(board, from, piece, 1, -1, moves);
        self.generate_sliding_moves(board, from, piece, -1, 1, moves);
        self.generate_sliding_moves(board, from, piece, -1, -1, moves);
        proof {
            assert(final(moves)@ =~= old(moves)@ + queen_moves(board@, piece.color, *from));
        }
        Ok(())
    }

    /// Walks one ray from `from`, collecting empty squares and stopping at
    /// the first occupied square, which is kept exactly when enemy-occupied.
    fn generate_sliding_moves(
        &self,
        board: &Board,
        from: &Position,
        piece: Piece,
        dr: i32,
        df: i32,
        moves: &mut Vec<ChessMove>,
    )
        requires
            from.wf(),
            -1 <= dr <= 1,
            -1 <= df <= 1,
        ensures
            final(moves)@ == old(moves)@ + slide(board@, piece.color, *from, dr as int, df as int),
    {
        let mut to_rank = from.rank as i32 + dr;
        let mut to_file = from.file as i32 + df;
        let mut k: u8 = 0;
        let mut blocked = false;
        while k < 8 && !blocked && to_rank >= 0 && to_rank < 8 && to_file >= 0 && to_file < 8
            invariant
                from.wf(),
                -1 <= dr <= 1,
                -1 <= df <= 1,
                k <= 8,
                -1 <= to_rank <= 8,
                -1 <= to_file <= 8,
                blocked ==> moves@ == old(moves)@ + slide(
                    board@,
                    piece.color,
                    *from,
                    dr as int,
                    df as int,
                ),
                !blocked ==> moves@ + ray_from(
                    board@,
                    piece.color,
                    *from,
                    to_rank as int,
                    to_file as int,
                    dr as int,
                    df as int,
                    (8 - k) as nat,
                ) == old(moves)@ + slide(board@, piece.color, *from, dr as int, df as int),
            decreases 8 - k,
        {
            let to = Position::new(to_file as u8, to_rank as u8);
            let ghost pre = moves@;
            let ghost fuel = (8 - k) as nat;
            match board.get_piece(&to) {
                Some(target) => {
                    if target.color != piece.color {
                        moves.push(ChessMove::new(*from, to));
                    }
                    blocked = true;
                    proof {
                        assert(moves@ =~= pre + ray_from(
                            board@,
                            piece.color,
                            *from,
                            to_rank as int,
                            to_file as int,
                            dr as int,
                            df as int,
                            fuel,
                        ));
                    }
                },
                None => {
                    moves.push(ChessMove::new(*from, to));
                    proof {
                        assert(moves@ + ray_from(
                            board@,
                            piece.color,
                            *from,
                            to_rank as int + dr as int,
                            to_file as int + df as int,
                            dr as int,
                            df as int,
                            (fuel - 1) as nat,
                        ) =~= pre + ray_from(
                            board@,
                            piece.color,
                            *from,
                            to_rank as int,
                            to_file as int,
                            dr as int,
                            df as int,
                            fuel,
                        ));
                    }
                    to_rank = to_rank + dr;
                    to_file = to_file + df;
                },
            }
            k = k + 1;
        }
        proof {
            if !blocked {
                assert(ray_from(
                    board@,
                    piece.color,
                    *from,
                    to_rank as int,
                    to_file as int,
                    dr as int,
                    df as int,
                    (8 - k) as nat,
                ) =~= Seq::<ChessMove>::empty());
                assert(moves@ + Seq::<ChessMove>::empty() =~= moves@);
            }
        }
    }
}


/// Material value of each piece kind, in centipawns.
pub open spec fn piece_value(t: PieceType) -> int {
    match t {
        PieceType::Pawn => 100,
        PieceType::Knight => 320,
        PieceType::Bishop => 330,
        PieceType::Rook => 500,
        PieceType::Queen => 900,
        PieceType::King => 20000,
    }
}

/// The four central squares d4, e4, d5, e5.
pub open spec fn is_center(file: int, rank: int) -> bool {
    (file == 3 || file == 4) && (rank == 3 || rank == 4)
}

/// A minor piece that has left its own back rank counts as developed.
pub open spec fn is_developed(p: Piece, rank: int) -> bool {
    (p.piece_type == PieceType::Knight || p.piece_type == PieceType::Bishop) && (if p.color
        == Color::White {
        rank > 0
    } else {
        rank < 7
    })
}

/// The unsigned worth of a piece standing at (file, rank): material plus the
/// center-control and development bonuses.
pub open spec fn square_value(p: Piece, file: int, rank: int) -> int {
    piece_value(p.piece_type) + (if is_center(file, rank) {
        10int
    } else {
        0int
    }) + (if is_developed(p, rank) {
        15int
    } else {
        0int
    })
}

/// The signed contribution of one square to the score seen by `color`.
pub open spec fn square_term(v: Seq<Option<Piece>>, color: Color, file: int, rank: int) -> int {
    match at(v, file, rank) {
        Some(p) => if p.color == color {
            square_value(p, file, rank)
        } else {
            -square_value(p, file, rank)
        },
        None => 0,
    }
}

/// The score contributed by squares (0..file, rank).
pub open spec fn eval_row(v: Seq<Option<Piece>>, color: Color, rank: int, file: int) -> int
    decreases file,
{
    if file <= 0 {
        0
    } else {
        eval_row(v, color, rank, file - 1) + square_term(v, color, file - 1, rank)
    }
}

/// The score contributed by all squares on ranks 0..rank.
pub open spec fn eval_upto_row(v: Seq<Option<Piece>>, color: Color, rank: int) -> int
    decreases rank,
{
    if rank <= 0 {
        0
    } else {
        eval_upto_row(v, color, rank - 1) + eval_row(v, color, rank - 1, 8)
    }
}

/// The static evaluation of a board from `color`'s perspective.
pub open spec fn eval_board(v: Seq<Option<Piece>>, color: Color) -> int {
    eval_upto_row(v, color, 8)
}

/// No single square contributes more than a king plus both bonuses.
proof fn lemma_square_term_bound(v: Seq<Option<Piece>>, color: Color, file: int, rank: int)
    ensures
        -20025 <= square_term(v, color, file, rank) <= 20025,
{
}

proof fn lemma_eval_row_bound(v: Seq<Option<Piece>>, color: Color, rank: int, file: int)
    requires
        0 <= file <= 8,
    ensures
        -20025 * file <= eval_row(v, color, rank, file) <= 20025 * file,
    decreases file,
{
    if file > 0 {
        lemma_eval_row_bound(v, color, rank, file - 1);
        lemma_square_term_bound(v, color, file - 1, rank);
    }
}

proof fn lemma_eval_upto_row_bound(v: Seq<Option<Piece>>, color: Color, rank: int)
    requires
        0 <= rank <= 8,
    ensures
        -160200 * rank <= eval_upto_row(v, color, rank) <= 160200 * rank,
    decreases rank,
{
    if rank > 0 {
        lemma_eval_upto_row_bound(v, color, rank - 1);
        lemma_eval_row_bound(v, color, rank - 1, 8);
    }
}

/// The static evaluation of any board fits well inside `i32`.
pub proof fn lemma_eval_bound(v: Seq<Option<Piece>>, color: Color)
    ensures
        -1281600 <= eval_board(v, color) <= 1281600,
{
    lemma_eval_upto_row_bound(v, color, 8);
}

proof fn lemma_eval_row_antisymmetric(v: Seq<Option<Piece>>, color: Color, rank: int, file: int)
    ensures
        eval_row(v, color, rank, file) == -eval_row(v, color.spec_opposite(), rank, file),
    decreases file,
{
    if file > 0 {
        lemma_eval_row_antisymmetric(v, color, rank, file - 1);
    }
}

proof fn lemma_eval_upto_row_antisymmetric(v: Seq<Option<Piece>>, color: Color, rank: int)
    ensures
        eval_upto_row(v, color, rank) == -eval_upto_row(v, color.spec_opposite(), rank),
    decreases rank,
{
    if rank > 0 {
        lemma_eval_upto_row_antisymmetric(v, color, rank - 1);
        lemma_eval_row_antisymmetric(v, color, rank - 1, 8);
    }
}

/// The evaluation is antisymmetric: what one side gains the other loses.
pub proof fn lemma_eval_antisymmetric(v: Seq<Option<Piece>>, color: Color)
    ensures
        eval_board(v, color) == -eval_board(v, color.spec_opposite()),
{
    lemma_eval_upto_row_antisymmetric(v, color, 8);
}


/// A generated move starting at `from`: on-board endpoints and a zero score.
pub open spec fn move_from_ok(m: ChessMove, from: Position) -> bool {
    m.from == from && m.to.wf() && m.score == 0
}

/// A pseudo-legal move of `color` on `v`: well-formed endpoints and a piece
/// of `color` standing on its source square.
pub open spec fn move_wf(v: Seq<Option<Piece>>, color: Color, m: ChessMove) -> bool {
    &&& m.from.wf()
    &&& m.to.wf()
    &&& m.score == 0
    &&& (at(v, m.from.file as int, m.from.rank as int) matches Some(p) && p.color == color)
}

proof fn lemma_concat_from_ok(a: Seq<ChessMove>, b: Seq<ChessMove>, from: Position)
    requires
        forall|i: int| 0 <= i < a.len() ==> move_from_ok(#[trigger] a[i], from),
        forall|i: int| 0 <= i < b.len() ==> move_from_ok(#[trigger] b[i], from),
    ensures
        forall|i: int| 0 <= i < (a + b).len() ==> move_from_ok(#[trigger] (a + b)[i], from),
{
    assert forall|i: int| 0 <= i < (a + b).len() implies move_from_ok(#[trigger] (a + b)[i], from) by {
        if i < a.len() {
            assert((a + b)[i] == a[i]);
        } else {
            assert((a + b)[i] == b[i - a.len()]);
        }
    }
}

proof fn lemma_step_move_ok(v: Seq<Option<Piece>>, color: Color, from: Position, dr: int, df: int)
    ensures
        forall|i: int|
            0 <= i < step_move(v, color, from, dr, df).len() ==> move_from_ok(
                #[trigger] step_move(v, color, from, dr, df)[i],
                from,
            ),
{
}

proof fn lemma_ray_ok(
    v: Seq<Option<Piece>>,
    color: Color,
    from: Position,
    r: int,
    f: int,
    dr: int,
    df: int,
    fuel: nat,
)
    ensures
        forall|i: int|
            0 <= i < ray_from(v, color, from, r, f, dr, df, fuel).len() ==> move_from_ok(
                #[trigger] ray_from(v, color, from, r, f, dr, df, fuel)[i],
                from,
            ),
    decreases fuel,
{
    if fuel > 0 && 0 <= r < 8 && 0 <= f < 8 && at(v, f, r) is None {
        lemma_ray_ok(v, color, from, r + dr, f + df, dr, df, (fuel - 1) as nat);
        lemma_concat_from_ok(
            seq![spec_move(from, sq(f, r))],
            ray_from(v, color, from, r + dr, f + df, dr, df, (fuel - 1) as nat),
            from,
        );
    }
}

proof fn lemma_slide_ok(v: Seq<Option<Piece>>, color: Color, from: Position, dr: int, df: int)
    ensures
        forall|i: int|
            0 <= i < slide(v, color, from, dr, df).len() ==> move_from_ok(
                #[trigger] slide(v, color, from, dr, df)[i],
                from,
            ),
{
    lemma_ray_ok(v, color, from, from.rank + dr, from.file + df, dr, df, 8);
}

proof fn lemma_pawn_ok(v: Seq<Option<Piece>>, color: Color, from: Position)
    requires
        from.wf(),
    ensures
        forall|i: int|
            0 <= i < pawn_moves(v, color, from).len() ==> move_from_ok(
                #[trigger] pawn_moves(v, color, from)[i],
                from,
            ),
{
}

proof fn lemma_knight_ok(v: Seq<Option<Piece>>, color: Color, from: Position)
    requires
        from.wf(),
    ensures
        forall|i: int|
            0 <= i < knight_moves(v, color, from).len() ==> move_from_ok(
                #[trigger] knight_moves(v, color, from)[i],
                from,
            ),
{
    let s1 = step_move(v, color, from, 2, 1);
    let s2 = step_move(v, color, from, 2, -1);
    let s3 = step_move(v, color, from, -2, 1);
    let s4 = step_move(v, color, from, -2, -1);
    let s5 = step_move(v, color, from, 1, 2);
    let s6 = step_move(v, color, from, 1, -2);
    let s7 = step_move(v, color, from, -1, 2);
    let s8 = step_move(v, color, from, -1, -2);
    lemma_step_move_ok(v, color, from, 2, 1);
    lemma_step_move_ok(v, color, from, 2, -1);
    lemma_step_move_ok(v, color, from, -2, 1);
    lemma_step_move_ok(v, color, from, -2, -1);
    lemma_step_move_ok(v, color, from, 1, 2);
    lemma_step_move_ok(v, color, from, 1, -2);
    lemma_step_move_ok(v, color, from, -1, 2);
    lemma_step_move_ok(v, color, from, -1, -2);
    lemma_concat_from_ok(s1, s2, from);
    lemma_concat_from_ok(s1 + s2, s3, from);
    lemma_concat_from_ok(s1 + s2 + s3, s4, from);
    lemma_concat_from_ok(s1 + s2 + s3 + s4, s5, from);
    lemma_concat_from_ok(s1 + s2 + s3 + s4 + s5, s6, from);
    lemma_concat_from_ok(s1 + s2 + s3 + s4 + s5 + s6, s7, from);
    lemma_concat_from_ok(s1 + s2 + s3 + s4 + s5 + s6 + s7, s8, from);
}

proof fn lemma_king_ok(v: Seq<Option<Piece>>, color: Color, from: Position)
    requires
        from.wf(),
    ensures
        forall|i: int|
            0 <= i < king_moves(v, color, from).len() ==> move_from_ok(
                #[trigger] king_moves(v, color, from)[i],
                from,
            ),
{
    let s1 = step_move(v, color, from, 1, 0);
    let s2 = step_move(v, color, from, -1, 0);
    let s3 = step_move(v, color, from, 0, 1);
    let s4 = step_move(v, color, from, 0, -1);
    let s5 = step_move(v, color, from, 1, 1);
    let s6 = step_move(v, color, from, 1, -1);
    let s7 = step_move(v, color, from, -1, 1);
    let s8 = step_move(v, color, from, -1, -1);
    lemma_step_move_ok(v, color, from, 1, 0);
    lemma_step_move_ok(v, color, from, -1, 0);
    lemma_step_move_ok(v, color, from, 0, 1);
    lemma_step_move_ok(v, color, from, 0, -1);
    lemma_step_move_ok(v, color, from, 1, 1);
    lemma_step_move_ok(v, color, from, 1, -1);
    lemma_step_move_ok(v, color, from, -1, 1);
    lemma_step_move_ok(v, color, from, -1, -1);
    lemma_concat_from_ok(s1, s2, from);
    lemma_concat_from_ok(s1 + s2, s3, from);
    lemma_concat_from_ok(s1 + s2 + s3, s4, from);
    lemma_concat_from_ok(s1 + s2 + s3 + s4, s5, from);
    lemma_concat_from_ok(s1 + s2 + s3 + s4 + s5, s6, from);
    lemma_concat_from_ok(s1 + s2 + s3 + s4 + s5 + s6, s7, from);
    lemma_concat_from_ok(s1 + s2 + s3 + s4 + s5 + s6 + s7, s8, from);
}

proof fn lemma_bishop_ok(v: Seq<Option<Piece>>, color: Color, from: Position)
    ensures
        forall|i: int|
            0 <= i < bishop_moves(v, color, from).len() ==> move_from_ok(
                #[trigger] bishop_moves(v, color, from)[i],
                from,
            ),
{
    let s1 = slide(v, color, from, 1, 1);
    let s2 = slide(v, color, from, 1, -1);
    let s3 = slide(v, color, from, -1, 1);
    let s4 = slide(v, color, from, -1, -1);
    lemma_slide_ok(v, color, from, 1, 1);
    lemma_slide_ok(v, color, from, 1, -1);
    lemma_slide_ok(v, color, from, -1, 1);
    lemma_slide_ok(v, color, from, -1, -1);
    lemma_concat_from_ok(s1, s2, from);
    lemma_concat_from_ok(s1 + s2, s3, from);
    lemma_concat_from_ok(s1 + s2 + s3, s4, from);
}

proof fn lemma_rook_ok(v: Seq<Option<Piece>>, color: Color, from: Position)
    ensures
        forall|i: int|
            0 <= i < rook_moves(v, color, from).len() ==> move_from_ok(
                #[trigger] rook_moves(v, color, from)[i],
                from,
            ),
{
    let s1 = slide(v, color, from, 1, 0);
    let s2 = slide(v, color, from, -1, 0);
    let s3 = slide(v, color, from, 0, 1);
    let s4 = slide(v, color, from, 0, -1);
    lemma_slide_ok(v, color, from, 1, 0);
    lemma_slide_ok(v, color, from, -1, 0);
    lemma_slide_ok(v, color, from, 0, 1);
    lemma_slide_ok(v, color, from, 0, -1);
    lemma_concat_from_ok(s1, s2, from);
    lemma_concat_from_ok(s1 + s2, s3, from);
    lemma_concat_from_ok(s1 + s2 + s3, s4, from);
}

proof fn lemma_piece_moves_ok(v: Seq<Option<Piece>>, p: Piece, from: Position)
    requires
        from.wf(),
    ensures
        forall|i: int|
            0 <= i < piece_moves(v, p, from).len() ==> move_from_ok(
                #[trigger] piece_moves(v, p, from)[i],
                from,
            ),
{
    match p.piece_type {
        PieceType::Pawn => lemma_pawn_ok(v, p.color, from),
        PieceType::Knight => lemma_knight_ok(v, p.color, from),
        PieceType::Bishop => lemma_bishop_ok(v, p.color, from),
        PieceType::Rook => lemma_rook_ok(v, p.color, from),
        PieceType::Queen => {
            lemma_rook_ok(v, p.color, from);
            lemma_bishop_ok(v, p.color, from);
            lemma_concat_from_ok(rook_moves(v, p.color, from), bishop_moves(v, p.color, from), from);
        },
        PieceType::King => lemma_king_ok(v, p.color, from),
    }
}

proof fn lemma_concat_move_wf(v: Seq<Option<Piece>>, color: Color, a: Seq<ChessMove>, b: Seq<
    ChessMove,
>)
    requires
        forall|i: int| 0 <= i < a.len() ==> move_wf(v, color, #[trigger] a[i]),
        forall|i: int| 0 <= i < b.len() ==> move_wf(v, color, #[trigger] b[i]),
    ensures
        forall|i: int| 0 <= i < (a + b).len() ==> move_wf(v, color, #[trigger] (a + b)[i]),
{
    assert forall|i: int| 0 <= i < (a + b).len() implies move_wf(v, color, #[trigger] (a + b)[i]) by {
        if i < a.len() {
            assert((a + b)[i] == a[i]);
        } else {
            assert((a + b)[i] == b[i - a.len()]);
        }
    }
}

proof fn lemma_square_moves_wf(v: Seq<Option<Piece>>, color: Color, file: int, rank: int)
    requires
        0 <= file < 8,
        0 <= rank < 8,
    ensures
        forall|i: int|
            0 <= i < square_moves(v, color, file, rank).len() ==> move_wf(
                v,
                color,
                #[trigger] square_moves(v, color, file, rank)[i],
            ),
{
    match at(v, file, rank) {
        Some(p) => {
            if p.color == color {
                lemma_piece_moves_ok(v, p, sq(file, rank));
            }
        },
        None => {},
    }
}

proof fn lemma_row_moves_wf(v: Seq<Option<Piece>>, color: Color, rank: int, file: int)
    requires
        0 <= rank < 8,
        0 <= file <= 8,
    ensures
        forall|i: int|
            0 <= i < row_moves(v, color, rank, file).len() ==> move_wf(
                v,
                color,
                #[trigger] row_moves(v, color, rank, file)[i],
            ),
    decreases file,
{
    if file > 0 {
        lemma_row_moves_wf(v, color, rank, file - 1);
        lemma_square_moves_wf(v, color, file - 1, rank);
        lemma_concat_move_wf(
            v,
            color,
            row_moves(v, color, rank, file - 1),
            square_moves(v, color, file - 1, rank),
        );
    }
}

proof fn lemma_moves_upto_row_wf(v: Seq<Option<Piece>>, color: Color, rank: int)
    requires
        0 <= rank <= 8,
    ensures
        forall|i: int|
            0 <= i < moves_upto_row(v, color, rank).len() ==> move_wf(
                v,
                color,
                #[trigger] moves_upto_row(v, color, rank)[i],
            ),
    decreases rank,
{
    if rank > 0 {
        lemma_moves_upto_row_wf(v, color, rank - 1);
        lemma_row_moves_wf(v, color, rank - 1, 8);
        lemma_concat_move_wf(
            v,
            color,
            moves_upto_row(v, color, rank - 1),
            row_moves(v, color, rank - 1, 8),
        );
    }
}

/// Every generated move has on-board endpoints, a zero score, and a piece of
/// the moving side on its source square.
pub proof fn lemma_all_moves_wf(v: Seq<Option<Piece>>, color: Color)
    ensures
        forall|i: int|
            0 <= i < all_moves(v, color).len() ==> move_wf(
                v,
                color,
                #[trigger] all_moves(v, color)[i],
            ),
{
    lemma_moves_upto_row_wf(v, color, 8);
}


/// The board model after a candidate move is applied; a move whose source
/// square is empty leaves the board unchanged.
pub open spec fn board_after(v: Seq<Option<Piece>>, m: ChessMove) -> Seq<Option<Piece>> {
    if at(v, m.from.file as int, m.from.rank as int) is Some {
        apply_move_at(v, m.from, m.to)
    } else {
        v
    }
}

/// The negamax value of a position for the side to move: the static
/// evaluation at depth zero or when no pseudo-legal move exists, and
/// otherwise the best child value.
pub open spec fn negamax_value(v: Seq<Option<Piece>>, depth: nat, color: Color) -> int
    decreases depth, 2nat, 0nat,
{
    if depth == 0 {
        eval_board(v, color)
    } else {
        let moves = all_moves(v, color);
        if moves.len() == 0 {
            eval_board(v, color)
        } else {
            best_value_upto(v, moves, moves.len() as int, depth, color)
        }
    }
}

/// The greatest child value among the first `n` candidate moves (`n >= 1`).
pub open spec fn best_value_upto(
    v: Seq<Option<Piece>>,
    moves: Seq<ChessMove>,
    n: int,
    depth: nat,
    color: Color,
) -> int
    decreases depth, 1nat, n,
{
    if n <= 1 {
        child_value(v, moves[0], depth, color)
    } else {
        let rest = best_value_upto(v, moves, n - 1, depth, color);
        let last = child_value(v, moves[n - 1], depth, color);
        if last > rest {
            last
        } else {
            rest
        }
    }
}

/// The value of one candidate move for the mover: the opponent's negamax
/// value of the resulting position, negated.
pub open spec fn child_value(v: Seq<Option<Piece>>, m: ChessMove, depth: nat, color: Color) -> int
    decreases depth, 0nat, 0nat,
{
    if depth == 0 {
        0
    } else {
        -negamax_value(board_after(v, m), (depth - 1) as nat, color.spec_opposite())
    }
}

/// Child values stay within the evaluation bound.
proof fn lemma_child_value_bound(v: Seq<Option<Piece>>, m: ChessMove, depth: nat, color: Color)
    requires
        depth >= 1,
    ensures
        -1281600 <= child_value(v, m, depth, color) <= 1281600,
    decreases depth, 0nat, 0nat,
{
    lemma_negamax_bound(board_after(v, m), (depth - 1) as nat, color.spec_opposite());
}

proof fn lemma_best_value_bound(
    v: Seq<Option<Piece>>,
    moves: Seq<ChessMove>,
    n: int,
    depth: nat,
    color: Color,
)
    requires
        depth >= 1,
        n >= 1,
    ensures
        -1281600 <= best_value_upto(v, moves, n, depth, color) <= 1281600,
    decreases depth, 1nat, n,
{
    if n <= 1 {
        lemma_child_value_bound(v, moves[0], depth, color);
    } else {
        lemma_best_value_bound(v, moves, n - 1, depth, color);
        lemma_child_value_bound(v, moves[n - 1], depth, color);
    }
}

/// The negamax value of any position stays within the evaluation bound.
pub proof fn lemma_negamax_bound(v: Seq<Option<Piece>>, depth: nat, color: Color)
    ensures
        -1281600 <= negamax_value(v, depth, color) <= 1281600,
    decreases depth, 2nat, 0nat,
{
    if depth == 0 {
        lemma_eval_bound(v, color);
    } else {
        let moves = all_moves(v, color);
        if moves.len() == 0 {
            lemma_eval_bound(v, color);
        } else {
            lemma_best_value_bound(v, moves, moves.len() as int, depth, color);
        }
    }
}

/// The best value over a prefix never shrinks as the prefix grows.
proof fn lemma_best_value_monotone(
    v: Seq<Option<Piece>>,
    moves: Seq<ChessMove>,
    n1: int,
    n2: int,
    depth: nat,
    color: Color,
)
    requires
        1 <= n1 <= n2,
    ensures
        best_value_upto(v, moves, n1, depth, color) <= best_value_upto(v, moves, n2, depth, color),
    decreases n2,
{
    if n1 < n2 {
        lemma_best_value_monotone(v, moves, n1, n2 - 1, depth, color);
    }
}


impl Engine {
    /// The static material-plus-position score of `board` seen by `color`:
    /// signed material, a center-control bonus on d4/e4/d5/e5, and a
    /// development bonus for minor pieces off their back rank.
    fn evaluate_board(&self, board: &Board, color: Color) -> (score: i32)
        ensures
            score == eval_board(board@, color),
    {
        let mut score: i32 = 0;
        let mut rank: u8 = 0;
        while rank < 8
            invariant
                rank <= 8,
                score == eval_upto_row(board@, color, rank as int),
                -160200 * (rank as int) <= score <= 160200 * (rank as int),
            decreases 8 - rank,
        {
            let mut file: u8 = 0;
            while file < 8
                invariant
                    rank < 8,
                    file <= 8,
                    score == eval_upto_row(board@, color, rank as int) + eval_row(
                        board@,
                        color,
                        rank as int,
                        file as int,
                    ),
                    -160200 * (rank as int) - 20025 * (file as int) <= score <= 160200 * (
                    rank as int) + 20025 * (file as int),
                decreases 8 - file,
            {
                let pos = Position::new(file, rank);
                proof {
                    lemma_eval_upto_row_bound(board@, color, rank as int);
                    lemma_eval_row_bound(board@, color, rank as int, file as int);
                    lemma_square_term_bound(board@, color, file as int, rank as int);
                }
                match board.get_piece(&pos) {
                    Some(piece) => {
                        let piece_val: i32 = match piece.piece_type {
                            PieceType::Pawn => 100,
                            PieceType::Knight => 320,
                            PieceType::Bishop => 330,
                            PieceType::Rook => 500,
                            PieceType::Queen => 900,
                            PieceType::King => 20000,
                        };
                        if piece.color == color {
                            score = score + piece_val;
                            if (file == 3 || file == 4) && (rank == 3 || rank == 4) {
                                score = score + 10;
                            }
                            if (piece.piece_type == PieceType::Knight || piece.piece_type
                                == PieceType::Bishop) && ((color == Color::White && rank > 0) || (
                            color == Color::Black && rank < 7)) {
                                score = score + 15;
                            }
                        } else {
                            score = score - piece_val;
                            if (file == 3 || file == 4) && (rank == 3 || rank == 4) {
                                score = score - 10;
                            }
                            if (piece.piece_type == PieceType::Knight || piece.piece_type
                                == PieceType::Bishop) && ((color == Color::Black && rank > 0) || (
                            color == Color::White && rank < 7)) {
                                score = score - 15;
                            }
                        }
                    },
                    None => {},
                }
                file = file + 1;
            }
            rank = rank + 1;
        }
        score
    }

    /// Depth-limited negamax search with fail-soft alpha-beta pruning. The
    /// library uses the pure negamax convention end to end: a position is
    /// always scored from the side to move's own perspective, and a child's
    /// value is negated as it rolls up to its parent.
    ///
    /// The result `x` relates to the exact negamax value as usual for
    /// fail-soft alpha-beta: strictly inside the window it is exact, at or
    /// below `alpha` it is an upper bound, at or above `beta` a lower bound.
    fn minimax(&mut self, board: &Board, depth: u8, alpha: i32, beta: i32, color: Color) -> (x:
        i32)
        requires
            i32::MIN < alpha < beta,
        ensures
            final(self).spec_depth() == old(self).spec_depth(),
            final(self).spec_debug() == old(self).spec_debug(),
            i32::MIN < x,
            alpha < x < beta ==> x == negamax_value(board@, depth as nat, color),
            x <= alpha ==> negamax_value(board@, depth as nat, color) <= x,
            x >= beta ==> negamax_value(board@, depth as nat, color) >= x,
        decreases depth,
    {
        if self.nodes_searched < u32::MAX {
            self.nodes_searched = self.nodes_searched + 1;
        }
        if depth == 0 {
            let e = self.evaluate_board(board, color);
            proof {
                lemma_eval_bound(board@, color);
            }
            return e;
        }
        let moves = match self.generate_moves(board, color) {
            Ok(ms) => ms,
            Err(_) => {
                proof {
                    assert(false);
                }
                return self.evaluate_board(board, color);
            },
        };
        if moves.len() == 0 {
            let e = self.evaluate_board(board, color);
            proof {
                lemma_eval_bound(board@, color);
            }
            return e;
        }
        proof {
            lemma_all_moves_wf(board@, color);
        }
        let ghost v0 = board@;
        let ghost d = depth as nat;
        let mut best: i32 = i32::MIN;
        let mut a = alpha;
        let mut pruned = false;
        let mut i: usize = 0;
        while i < moves.len() && !pruned
            invariant
                self.spec_depth() == old(self).spec_depth(),
                self.spec_debug() == old(self).spec_debug(),
                i32::MIN < alpha < beta,
                1 <= depth,
                v0 == board@,
                d == depth as nat,
                moves@ == all_moves(v0, color),
                1 <= moves.len(),
                i <= moves.len(),
                forall|k: int| 0 <= k < moves@.len() ==> move_wf(v0, color, #[trigger] moves@[k]),
                a == (if best > alpha {
                    best
                } else {
                    alpha
                }),
                i == 0 ==> best == i32::MIN && !pruned,
                i >= 1 ==> best > i32::MIN,
                !pruned ==> a < beta,
                (!pruned && i >= 1 && best <= alpha) ==> best_value_upto(v0, moves@, i as int, d, color)
                    <= best,
                (!pruned && i >= 1 && best > alpha) ==> best == best_value_upto(
                    v0,
                    moves@,
                    i as int,
                    d,
                    color,
                ),
                pruned ==> i >= 1 && best >= beta && best_value_upto(v0, moves@, i as int, d, color)
                    >= best,
            decreases moves.len() - i,
        {
            let m = moves[i];
            let mut board_copy = board.clone();
            let applied = board_copy.make_move(&m.from, &m.to);
            match applied {
                Ok(()) => {
                    proof {
                        assert(move_wf(v0, color, moves@[i as int]));
                        lemma_child_value_bound(v0, m, d, color);
                    }
                    let child = self.minimax(&board_copy, depth - 1, -beta, -a, color.opposite());
                    let score = -child;
                    proof {
                        let t = child_value(v0, m, d, color);
                        assert(board_copy@ == board_after(v0, m));
                        assert(negamax_value(board_copy@, (depth - 1) as nat, color.spec_opposite())
                            == -t);
                        assert(a < score < beta ==> score == t);
                        assert(score >= beta ==> t >= score);
                        assert(score <= a ==> t <= score);
                    }
                    let ghost old_best = best;
                    let ghost old_a = a;
                    if score > best {
                        best = score;
                    }
                    if best > a {
                        a = best;
                    }
                    if a >= beta {
                        pruned = true;
                    }
                    proof {
                        let t = child_value(v0, m, d, color);
                        let pm_next = best_value_upto(v0, moves@, i as int + 1, d, color);
                        if i == 0 {
                            assert(pm_next == t);
                        } else {
                            let pm = best_value_upto(v0, moves@, i as int, d, color);
                            assert(pm_next == (if t > pm {
                                t
                            } else {
                                pm
                            }));
                        }
                    }
                },
                Err(_) => {
                    proof {
                        assert(move_wf(v0, color, moves@[i as int]));
                        assert(false);
                    }
                },
            }
            i = i + 1;
        }
        proof {
            if pruned {
                lemma_best_value_monotone(v0, moves@, i as int, moves@.len() as int, d, color);
            }
            assert(negamax_value(v0, d, color) == best_value_upto(
                v0,
                moves@,
                moves@.len() as int,
                d,
                color,
            ));
        }
        best
    }
}


/// `m` is the first best candidate at index `j`: its endpoints are those of
/// the `j`-th generated move, its score is that move's child value, every
/// earlier candidate scores strictly lower, and no candidate scores higher.
pub open spec fn is_best_at(
    v: Seq<Option<Piece>>,
    color: Color,
    depth: nat,
    m: ChessMove,
    j: int,
) -> bool {
    let ms = all_moves(v, color);
    &&& 0 <= j < ms.len()
    &&& m.from == ms[j].from
    &&& m.to == ms[j].to
    &&& m.score == child_value(v, ms[j], depth, color)
    &&& forall|k: int| 0 <= k < j ==> #[trigger] child_value(v, ms[k], depth, color) < m.score
    &&& forall|k: int|
        0 <= k < ms.len() ==> #[trigger] child_value(v, ms[k], depth, color) <= m.score
}

/// `m` is the move a depth-`depth` search of `v` for `color` selects: the
/// earliest candidate whose child value is maximal, carrying that value as
/// its score.
pub open spec fn is_best_move(v: Seq<Option<Piece>>, color: Color, depth: nat, m: ChessMove) -> bool {
    exists|j: int| is_best_at(v, color, depth, m, j)
}

impl Engine {
    /// The move the engine plays for `game.current_turn`: every pseudo-legal
    /// move is searched at the configured depth and the first one with the
    /// greatest negamax value is returned, its score set to that value.
    /// Fails exactly when the side to move has no pseudo-legal move.
    pub fn find_best_move(&mut self, game: &Game) -> (r: Result<ChessMove, ChessError>)
        requires
            old(self).spec_depth() >= 1,
        ensures
            final(self).spec_depth() == old(self).spec_depth(),
            final(self).spec_debug() == old(self).spec_debug(),
            r is Ok <==> all_moves(game.board@, game.current_turn).len() > 0,
            r matches Ok(mv) ==> is_best_move(
                game.board@,
                game.current_turn,
                old(self).spec_depth() as nat,
                mv,
            ),
            r matches Err(e) ==> e is InvalidMove,
    {
        let current_color = game.current_turn;
        let mut best_move: Option<ChessMove> = None;
        let mut best_score: i32 = i32::MIN;
        self.nodes_searched = 0;
        let moves = match self.generate_moves(&game.board, current_color) {
            Ok(ms) => ms,
            Err(e) => {
                proof {
                    assert(false);
                }
                return Err(e);
            },
        };
        if moves.len() == 0 {
            return Err(ChessError::InvalidMove(String::from_str("no legal moves available")));
        }
        proof {
            lemma_all_moves_wf(game.board@, current_color);
        }
        let ghost v0 = game.board@;
        let ghost d = self.spec_depth() as nat;
        let ghost mut best_j: int = 0;
        let mut i: usize = 0;
        while i < moves.len()
            invariant
                self.spec_depth() == old(self).spec_depth(),
                self.spec_debug() == old(self).spec_debug(),
                self.spec_depth() >= 1,
                v0 == game.board@,
                d == self.spec_depth() as nat,
                moves@ == all_moves(v0, current_color),
                current_color == game.current_turn,
                1 <= moves.len(),
                i <= moves.len(),
                forall|k: int|
                    0 <= k < moves@.len() ==> move_wf(v0, current_color, #[trigger] moves@[k]),
                i == 0 ==> best_move is None && best_score == i32::MIN,
                i >= 1 ==> (best_move matches Some(bm) && 0 <= best_j < i && bm.from
                    == moves@[best_j].from && bm.to == moves@[best_j].to && bm.score == best_score
                    && best_score == child_value(v0, moves@[best_j], d, current_color) && best_score
                    > i32::MIN),
                forall|k: int|
                    0 <= k < best_j ==> #[trigger] child_value(v0, moves@[k], d, current_color)
                        < best_score,
                forall|k: int|
                    0 <= k < i ==> #[trigger] child_value(v0, moves@[k], d, current_color)
                        <= best_score,
            decreases moves.len() - i,
        {
            let mut chess_move = moves[i];
            let mut board_copy = game.board.clone();
            let applied = board_copy.make_move(&chess_move.from, &chess_move.to);
            match applied {
                Ok(()) => {
                    proof {
                        assert(move_wf(v0, current_color, moves@[i as int]));
                        lemma_child_value_bound(v0, moves@[i as int], d, current_color);
                    }
                    let depth = self.depth;
                    let child = self.minimax(
                        &board_copy,
                        depth - 1,
                        i32::MIN + 1,
                        i32::MAX - 1,
                        current_color.opposite(),
                    );
                    proof {
                        let t = child_value(v0, moves@[i as int], d, current_color);
                        assert(board_copy@ == board_after(v0, moves@[i as int]));
                        lemma_negamax_bound(
                            board_copy@,
                            (d - 1) as nat,
                            current_color.spec_opposite(),
                        );
                        assert(negamax_value(board_copy@, (d - 1) as nat, current_color.spec_opposite())
                            == -t);
                        assert(i32::MIN + 1 < child < i32::MAX - 1);
                        assert(child == -t);
                    }
                    let score = -child;
                    chess_move.score = score;
                    if score > best_score {
                        best_score = score;
                        best_move = Some(chess_move);
                        proof {
                            best_j = i as int;
                        }
                    }
                },
                Err(_) => {
                    proof {
                        assert(move_wf(v0, current_color, moves@[i as int]));
                        assert(false);
                    }
                },
            }
            i = i + 1;
        }
        match best_move {
            Some(mv) => {
                proof {
                    assert(is_best_at(v0, current_color, d, mv, best_j));
                }
                Ok(mv)
            },
            None => {
                proof {
                    assert(false);
                }
                Err(ChessError::InvalidMove(String::from_str("no valid moves found")))
            },
        }
    }

    /// The pseudo-legal moves of `color`, as `generate_moves` produces them.
    pub fn get_legal_moves(&self, board: &Board, color: Color) -> (r: Result<
        Vec<ChessMove>,
        ChessError,
    >)
        ensures
            r matches Ok(ms) && ms@ == all_moves(board@, color),
    {
        self.generate_moves(board, color)
    }
}


/// Determinism of the search: the best-move characterization admits exactly
/// one move, so two searches of the same board at the same depth select the
/// same move with the same score.
pub proof fn lemma_best_move_deterministic(
    v: Seq<Option<Piece>>,
    color: Color,
    depth: nat,
    m1: ChessMove,
    m2: ChessMove,
)
    requires
        is_best_move(v, color, depth, m1),
        is_best_move(v, color, depth, m2),
    ensures
        m1 == m2,
{
    let ms = all_moves(v, color);
    let j1 = choose|j: int| is_best_at(v, color, depth, m1, j);
    let j2 = choose|j: int| is_best_at(v, color, depth, m2, j);
    assert(child_value(v, ms[j1], depth, color) <= m2.score);
    assert(child_value(v, ms[j2], depth, color) <= m1.score);
    assert(m1.score == m2.score);
    if j1 < j2 {
        assert(child_value(v, ms[j1], depth, color) < m2.score);
        assert(false);
    }
    if j2 < j1 {
        assert(child_value(v, ms[j2], depth, color) < m1.score);
        assert(false);
    }
}

/// A depth-1 search maximizes the static evaluation of the position after
/// one move, so the selected move never scores below any single-ply
/// alternative — in particular below the best available capture. At greater
/// depths the searched value prices in the opponent's replies and may
/// legitimately sit below the best immediate capture, so the law is stated
/// at depth 1.
pub proof fn lemma_best_move_dominates_single_ply(
    v: Seq<Option<Piece>>,
    color: Color,
    m: ChessMove,
    k: int,
)
    requires
        is_best_move(v, color, 1nat, m),
        0 <= k < all_moves(v, color).len(),
    ensures
        m.score >= eval_board(board_after(v, all_moves(v, color)[k]), color),
{
    let ms = all_moves(v, color);
    let j = choose|j: int| is_best_at(v, color, 1nat, m, j);
    assert(child_value(v, ms[k], 1nat, color) <= m.score);
    lemma_eval_antisymmetric(board_after(v, ms[k]), color);
    assert(child_value(v, ms[k], 1nat, color) == -negamax_value(
        board_after(v, ms[k]),
        0nat,
        color.spec_opposite(),
    ));
}

/// The shape of one generated ray: consecutive squares along (dr, df)
/// starting one step from `from`, every square before the last one empty,
/// the last one enemy if occupied, and the walk stopped only by a capture,
/// the board edge, or a friendly piece.
proof fn lemma_ray_shape(
    v: Seq<Option<Piece>>,
    color: Color,
    from: Position,
    r: int,
    f: int,
    dr: int,
    df: int,
    fuel: nat,
)
    requires
        -1 <= dr <= 1,
        -1 <= df <= 1,
        !(dr == 0 && df == 0),
        dr == 1 ==> fuel >= 8 - r,
        dr == -1 ==> fuel >= r + 1,
        (dr == 0 && df == 1) ==> fuel >= 8 - f,
        (dr == 0 && df == -1) ==> fuel >= f + 1,
    ensures
        ({
            let ray = ray_from(v, color, from, r, f, dr, df, fuel);
            &&& (ray.len() >= 1 ==> ray[0] == spec_move(from, sq(f, r)) && 0 <= r < 8 && 0 <= f
                < 8)
            &&& (forall|idx: int|
                1 <= idx < ray.len() ==> (#[trigger] ray[idx]).from == from && ray[idx].to.rank
                    == ray[idx - 1].to.rank + dr && ray[idx].to.file == ray[idx - 1].to.file + df
                    && ray[idx].to.wf())
            &&& (forall|idx: int|
                0 <= idx < ray.len() - 1 ==> at(
                    v,
                    (#[trigger] ray[idx]).to.file as int,
                    ray[idx].to.rank as int,
                ) is None)
            &&& (ray.len() >= 1 ==> (at(
                v,
                ray[ray.len() - 1].to.file as int,
                ray[ray.len() - 1].to.rank as int,
            ) matches Some(q) ==> q.color != color))
            &&& ({
                let (nr, nf) = if ray.len() == 0 {
                    (r, f)
                } else {
                    (ray[ray.len() - 1].to.rank + dr, ray[ray.len() - 1].to.file + df)
                };
                (ray.len() == 0 || at(
                    v,
                    ray[ray.len() - 1].to.file as int,
                    ray[ray.len() - 1].to.rank as int,
                ) is None) ==> (!(0 <= nr < 8 && 0 <= nf < 8) || (at(v, nf, nr) matches Some(q)
                    && q.color == color))
            })
        }),
    decreases fuel,
{
    if fuel > 0 && 0 <= r < 8 && 0 <= f < 8 && at(v, f, r) is None {
        lemma_ray_shape(v, color, from, r + dr, f + df, dr, df, (fuel - 1) as nat);
        let head = seq![spec_move(from, sq(f, r))];
        let rest = ray_from(v, color, from, r + dr, f + df, dr, df, (fuel - 1) as nat);
        let ray = ray_from(v, color, from, r, f, dr, df, fuel);
        assert(ray == head + rest);
        assert(forall|idx: int| 1 <= idx < ray.len() ==> ray[idx] == rest[idx - 1]);
    }
}

/// Sliding generation stops exactly at the first occupied square in each
/// direction: the generated targets are the consecutive squares along the
/// ray, every target before the last is empty, an occupied last target is an
/// enemy capture, and the walk ended only with that capture, the board edge,
/// or a friendly piece on the next square.
pub proof fn lemma_sliding_stops_at_first_blocker(
    v: Seq<Option<Piece>>,
    color: Color,
    from: Position,
    dr: int,
    df: int,
)
    requires
        from.wf(),
        -1 <= dr <= 1,
        -1 <= df <= 1,
        !(dr == 0 && df == 0),
    ensures
        ({
            let ray = slide(v, color, from, dr, df);
            &&& (ray.len() >= 1 ==> ray[0] == spec_move(
                from,
                sq(from.file + df, from.rank + dr),
            ))
            &&& (forall|idx: int|
                1 <= idx < ray.len() ==> (#[trigger] ray[idx]).from == from && ray[idx].to.rank
                    == ray[idx - 1].to.rank + dr && ray[idx].to.file == ray[idx - 1].to.file + df
                    && ray[idx].to.wf())
            &&& (forall|idx: int|
                0 <= idx < ray.len() - 1 ==> at(
                    v,
                    (#[trigger] ray[idx]).to.file as int,
                    ray[idx].to.rank as int,
                ) is None)
            &&& (ray.len() >= 1 ==> (at(
                v,
                ray[ray.len() - 1].to.file as int,
                ray[ray.len() - 1].to.rank as int,
            ) matches Some(q) ==> q.color != color))
            &&& ({
                let (nr, nf) = if ray.len() == 0 {
                    (from.rank + dr, from.file + df)
                } else {
                    (ray[ray.len() - 1].to.rank + dr, ray[ray.len() - 1].to.file + df)
                };
                (ray.len() == 0 || at(
                    v,
                    ray[ray.len() - 1].to.file as int,
                    ray[ray.len() - 1].to.rank as int,
                ) is None) ==> (!(0 <= nr < 8 && 0 <= nf < 8) || (at(v, nf, nr) matches Some(q)
                    && q.color == color))
            })
        }),
{
    lemma_ray_shape(v, color, from, from.rank + dr, from.file + df, dr, df, 8);
}


/// The index of the first hyphen at or after `i`, if any.
pub open spec fn first_hyphen_from(s: Seq<char>, i: int) -> Option<int>
    decreases s.len() - i,
{
    if i < 0 || i >= s.len() {
        None
    } else if s[i] == '-' {
        Some(i)
    } else {
        first_hyphen_from(s, i + 1)
    }
}

/// The simplified standard algebraic rendering of a move on a given board:
/// the moving piece's letter (nothing for a pawn) followed by the target
/// square, or `???` when no piece stands on the source square.
pub open spec fn san_of(v: Seq<Option<Piece>>, m: ChessMove) -> Seq<char> {
    let occupant = if m.from.wf() {
        at(v, m.from.file as int, m.from.rank as int)
    } else {
        None
    };
    match occupant {
        None => "???"@,
        Some(p) => spec_piece_letter(p.piece_type) + m.to.spec_str(),
    }
}

/// The algebraic letter of a piece kind; pawns have none.
pub open spec fn spec_piece_letter(t: PieceType) -> Seq<char> {
    match t {
        PieceType::Pawn => ""@,
        PieceType::Knight => "N"@,
        PieceType::Bishop => "B"@,
        PieceType::Rook => "R"@,
        PieceType::Queen => "Q"@,
        PieceType::King => "K"@,
    }
}

impl ChessMove {
    /// The `from-to` rendering of a move, e.g. `e2-e4`.
    pub fn to_string(&self) -> (r: String)
        requires
            self.from.wf(),
            self.to.wf(),
        ensures
            r@ == self.from.spec_str() + "-"@ + self.to.spec_str(),
    {
        let mut s = self.from.to_string();
        s.append("-");
        let t = self.to.to_string();
        s.append(t.as_str());
        proof {
            assert(s@ =~= self.from.spec_str() + "-"@ + self.to.spec_str());
        }
        s
    }

    /// Parses a move written either as `e2-e4` or as the four raw characters
    /// `e2e4`. A string with two or more hyphens, or of any other shape, is
    /// an invalid move; a malformed square is an invalid position.
    pub fn from_str(s: &str) -> (r: Result<ChessMove, ChessError>)
        ensures
            r matches Ok(m) ==> m.score == 0,
            ({
                match first_hyphen_from(s@, 0) {
                    Some(h) => {
                        &&& (r is Ok <==> (first_hyphen_from(s@, h + 1) is None
                            && crate::position::parse_sq_ok(s@.subrange(0, h))
                            && crate::position::parse_sq_ok(s@.subrange(h + 1, s@.len() as int))))
                        &&& (r matches Ok(m) ==> m.from == crate::position::parsed_sq(
                            s@.subrange(0, h),
                        ) && m.to == crate::position::parsed_sq(s@.subrange(h + 1, s@.len() as int)))
                        &&& (r matches Err(e) ==> (e is InvalidMove <==> first_hyphen_from(
                            s@,
                            h + 1,
                        ) is Some))
                        &&& (r matches Err(e) ==> (e is InvalidPosition <==> first_hyphen_from(
                            s@,
                            h + 1,
                        ) is None))
                    },
                    None => {
                        &&& (r is Ok <==> (s@.len() == 4 && crate::position::parse_sq_ok(
                            s@.subrange(0, 2),
                        ) && crate::position::parse_sq_ok(s@.subrange(2, 4))))
                        &&& (r matches Ok(m) ==> m.from == crate::position::parsed_sq(
                            s@.subrange(0, 2),
                        ) && m.to == crate::position::parsed_sq(s@.subrange(2, 4)))
                        &&& (r matches Err(e) ==> (e is InvalidMove <==> s@.len() != 4))
                        &&& (r matches Err(e) ==> (e is InvalidPosition <==> s@.len() == 4))
                    },
                }
            }),
    {
        let len = s.unicode_len();
        let mut i: usize = 0;
        let mut hyphen: Option<usize> = None;
        while i < len && hyphen.is_none()
            invariant
                len == s@.len(),
                i <= len,
                hyphen is None ==> first_hyphen_from(s@, 0) == first_hyphen_from(s@, i as int),
                hyphen matches Some(h) ==> first_hyphen_from(s@, 0) == Some(h as int) && h < len,
            decreases len - i + (if hyphen is None { 1int } else { 0int }),
        {
            if s.get_char(i) == '-' {
                hyphen = Some(i);
            }
            if hyphen.is_none() {
                i = i + 1;
            }
        }
        match hyphen {
            Some(h) => {
                let mut j: usize = h + 1;
                let mut second = false;
                while j < len && !second
                    invariant
                        len == s@.len(),
                        h < len,
                        h < j <= len,
                        !second ==> first_hyphen_from(s@, h + 1) == first_hyphen_from(
                            s@,
                            j as int,
                        ),
                        second ==> first_hyphen_from(s@, h + 1) is Some,
                    decreases len - j + (if second { 0int } else { 1int }),
                {
                    if s.get_char(j) == '-' {
                        second = true;
                    }
                    if !second {
                        j = j + 1;
                    }
                }
                if second {
                    return Err(ChessError::InvalidMove(String::from_str("invalid move format")));
                }
                let from_part = s.substring_char(0, h);
                let to_part = s.substring_char(h + 1, len);
                let from = match Position::from_str(from_part) {
                    Ok(p) => p,
                    Err(e) => {
                        return Err(e);
                    },
                };
                let to = match Position::from_str(to_part) {
                    Ok(p) => p,
                    Err(e) => {
                        return Err(e);
                    },
                };
                Ok(ChessMove { from, to, score: 0 })
            },
            None => {
                if len == 4 {
                    let from_part = s.substring_char(0, 2);
                    let to_part = s.substring_char(2, 4);
                    let from = match Position::from_str(from_part) {
                        Ok(p) => p,
                        Err(e) => {
                            return Err(e);
                        },
                    };
                    let to = match Position::from_str(to_part) {
                        Ok(p) => p,
                        Err(e) => {
                            return Err(e);
                        },
                    };
                    Ok(ChessMove { from, to, score: 0 })
                } else {
                    Err(ChessError::InvalidMove(String::from_str("invalid move format")))
                }
            },
        }
    }
}

impl Engine {
    /// The simplified standard algebraic rendering of a move: the piece
    /// letter and the target square, or `???` when the source square is
    /// empty.
    pub fn to_algebraic_notation(&self, chess_move: &ChessMove, board: &Board) -> (r: String)
        requires
            chess_move.to.wf(),
        ensures
            r@ == san_of(board@, *chess_move),
    {
        let piece = match board.get_piece(&chess_move.from) {
            Some(p) => p,
            None => {
                return String::from_str("???");
            },
        };
        let piece_letter: &str = match piece.piece_type {
            PieceType::Pawn => "",
            PieceType::Knight => "N",
            PieceType::Bishop => "B",
            PieceType::Rook => "R",
            PieceType::Queen => "Q",
            PieceType::King => "K",
        };
        let mut out = String::from_str(piece_letter);
        let t = chess_move.to.to_string();
        out.append(t.as_str());
        proof {
            assert(out@ =~= san_of(board@, *chess_move));
        }
        out
    }
}

} // verus!







