use vstd::prelude::*;
use vstd::string::*;

use crate::error::ChessError;
use crate::piece::{piece_char, Color, Piece, PieceType};
use crate::position::{char_of_rank, rank_char_str, Position};

verus! {

/// An 8x8 chess board. Squares are stored rank-major: the square at
/// (file, rank) sits at index `rank * 8 + file`.
#[derive(Debug, Clone, Copy)]
pub struct Board {
    squares: [Option<Piece>; 64],
}

impl View for Board {
    type V = Seq<Option<Piece>>;

    closed spec fn view(&self) -> Seq<Option<Piece>> {
        self.squares@
    }
}

/// The square of a board model at the given coordinates.
pub open spec fn at(v: Seq<Option<Piece>>, file: int, rank: int) -> Option<Piece> {
    v[rank * 8 + file]
}

/// The piece that starts on the back rank at the given file.
pub open spec fn back_rank_type(file: int) -> PieceType {
    if file == 0 || file == 7 {
        PieceType::Rook
    } else if file == 1 || file == 6 {
        PieceType::Knight
    } else if file == 2 || file == 5 {
        PieceType::Bishop
    } else if file == 3 {
        PieceType::Queen
    } else {
        PieceType::King
    }
}

/// The standard initial layout: White's back rank at rank 0, pawns at ranks 1
/// and 6, Black's back rank at rank 7, everything else empty.
pub open spec fn initial_at(file: int, rank: int) -> Option<Piece> {
    if rank == 0 {
        Some(Piece { piece_type: back_rank_type(file), color: Color::White })
    } else if rank == 1 {
        Some(Piece { piece_type: PieceType::Pawn, color: Color::White })
    } else if rank == 6 {
        Some(Piece { piece_type: PieceType::Pawn, color: Color::Black })
    } else if rank == 7 {
        Some(Piece { piece_type: back_rank_type(file), color: Color::Black })
    } else {
        None
    }
}

/// The board model after relocating whatever occupies `from` onto `to`:
/// `from` is cleared first, then its old content is written over `to`.
pub open spec fn apply_move_at(v: Seq<Option<Piece>>, from: Position, to: Position) -> Seq<
    Option<Piece>,
> {
    let p = at(v, from.file as int, from.rank as int);
    v.update(from.rank * 8 + from.file, None).update(to.rank * 8 + to.file, p)
}

impl Board {
    /// A board holding the standard initial position.
    pub fn new() -> (b: Board)
        ensures
            b@.len() == 64,
            forall|f: int, r: int|
                0 <= f < 8 && 0 <= r < 8 ==> #[trigger] at(b@, f, r) == initial_at(f, r),
    {
        let mut board = Board { squares: [None; 64] };
        board.setup_initial_position();
        board
    }

    /// Places pawns and both back ranks; the middle of the board is left as
    /// it was.
    fn setup_initial_position(&mut self)
        ensures
            final(self)@.len() == 64,
            forall|f: int, r: int|
                0 <= f < 8 && (r == 0 || r == 1 || r == 6 || r == 7) ==> #[trigger] at(
                    final(self)@,
                    f,
                    r,
                ) == initial_at(f, r),
            forall|s: int| 16 <= s < 48 ==> final(self)@[s] == old(self)@[s],
    {
        let mut file: usize = 0;
        while file < 8
            invariant
                file <= 8,
                self@.len() == 64,
                forall|s: int|
                    8 <= s < 8 + file ==> self@[s] == Some(
                        Piece { piece_type: PieceType::Pawn, color: Color::White },
                    ),
                forall|s: int|
                    48 <= s < 48 + file ==> self@[s] == Some(
                        Piece { piece_type: PieceType::Pawn, color: Color::Black },
                    ),
                forall|s: int|
                    0 <= s < 64 && !(8 <= s < 8 + file) && !(48 <= s < 48 + file) ==> self@[s]
                        == old(self)@[s],
            decreases 8 - file,
        {
            self.squares[8 + file] = Some(Piece::new(PieceType::Pawn, Color::White));
            self.squares[48 + file] = Some(Piece::new(PieceType::Pawn, Color::Black));
            file = file + 1;
        }
        self.setup_back_rank(0, Color::White);
        self.setup_back_rank(7, Color::Black);
    }

    /// Writes one side's back rank: rook, knight, bishop, queen, king,
    /// bishop, knight, rook.
    fn setup_back_rank(&mut self, rank: usize, color: Color)
        requires
            rank <= 7,
        ensures
            final(self)@.len() == 64,
            forall|f: int|
                0 <= f < 8 ==> final(self)@[rank * 8 + f] == Some(
                    Piece { piece_type: back_rank_type(f), color },
                ),
            forall|s: int|
                0 <= s < 64 && !(rank * 8 <= s < rank * 8 + 8) ==> final(self)@[s] == old(
                    self,
                )@[s],
    {
        self.squares[rank * 8 + 0] = Some(Piece::new(PieceType::Rook, color));
        self.squares[rank * 8 + 1] = Some(Piece::new(PieceType::Knight, color));
        self.squares[rank * 8 + 2] = Some(Piece::new(PieceType::Bishop, color));
        self.squares[rank * 8 + 3] = Some(Piece::new(PieceType::Queen, color));
        self.squares[rank * 8 + 4] = Some(Piece::new(PieceType::King, color));
        self.squares[rank * 8 + 5] = Some(Piece::new(PieceType::Bishop, color));
        self.squares[rank * 8 + 6] = Some(Piece::new(PieceType::Knight, color));
        self.squares[rank * 8 + 7] = Some(Piece::new(PieceType::Rook, color));
    }

    /// Lenient read: an off-board position reads as an empty square rather
    /// than failing.
    pub fn get_piece(&self, pos: &Position) -> (r: Option<Piece>)
        ensures
            pos.wf() ==> r == at(self@, pos.file as int, pos.rank as int),
            !pos.wf() ==> r is None,
    {
        if !pos.is_valid() {
            return None;
        }
        self.squares[(pos.rank as usize) * 8 + (pos.file as usize)]
    }

    /// Strict write: an off-board position is rejected and the board is left
    /// unchanged.
    pub fn set_piece(&mut self, pos: &Position, piece: Option<Piece>) -> (r: Result<
        (),
        ChessError,
    >)
        ensures
            r is Ok <==> pos.wf(),
            r is Ok ==> final(self)@ == old(self)@.update(pos.rank * 8 + pos.file, piece),
            r matches Err(e) ==> *final(self) == *old(self) && e is InvalidPosition,
    {
        if !pos.is_valid() {
            return Err(ChessError::InvalidPosition(String::from_str("invalid position")));
        }
        self.squares[(pos.rank as usize) * 8 + (pos.file as usize)] = piece;
        Ok(())
    }

    /// Relocates whatever occupies `from` onto `to`, overwriting anything at
    /// `to`. No chess legality is checked here; on failure the board is
    /// untouched.
    pub fn make_move(&mut self, from: &Position, to: &Position) -> (r: Result<(), ChessError>)
        ensures
            r is Ok <==> (from.wf() && to.wf() && at(old(self)@, from.file as int, from.rank as int)
                is Some),
            r is Ok ==> final(self)@ == apply_move_at(old(self)@, *from, *to),
            r matches Err(e) ==> *final(self) == *old(self) && (e is InvalidPosition <==> (!from.wf()
                || !to.wf())) && (e is InvalidMove <==> (from.wf() && to.wf())),
    {
        if !from.is_valid() {
            return Err(ChessError::InvalidPosition(String::from_str("invalid from position")));
        }
        if !to.is_valid() {
            return Err(ChessError::InvalidPosition(String::from_str("invalid to position")));
        }
        let piece = match self.get_piece(from) {
            Some(p) => p,
            None => {
                return Err(ChessError::InvalidMove(String::from_str("no piece at position")));
            },
        };
        let res1 = self.set_piece(from, None);
        match res1 {
            Ok(()) => {},
            Err(e) => {
                return Err(e);
            },
        }
        let res2 = self.set_piece(to, Some(piece));
        match res2 {
            Ok(()) => {},
            Err(e) => {
                return Err(e);
            },
        }
        Ok(())
    }
}


/// The board symbol of one square: the piece's letter, or `.` when empty.
pub open spec fn symbol_of(square: Option<Piece>) -> char {
    match square {
        Some(p) => piece_char(p),
        None => '.',
    }
}

/// The rendered cells of the squares (0..file, rank): each symbol followed
/// by one space.
pub open spec fn row_cells(v: Seq<Option<Piece>>, rank: int, file: int) -> Seq<char>
    decreases file,
{
    if file <= 0 {
        Seq::empty()
    } else {
        row_cells(v, rank, file - 1) + seq![symbol_of(at(v, file - 1, rank)), ' ']
    }
}

/// One rendered rank line: the rank digit, two spaces, the eight cells, and
/// a newline.
pub open spec fn row_line(v: Seq<Option<Piece>>, rank: int) -> Seq<char> {
    seq![char_of_rank(rank as u8)] + "  "@ + row_cells(v, rank, 8) + "\n"@
}

/// The rendered rank lines from `rank` down to rank 0.
pub open spec fn board_rows(v: Seq<Option<Piece>>, rank: int) -> Seq<char>
    decreases rank + 1,
{
    if rank < 0 {
        Seq::empty()
    } else {
        row_line(v, rank) + board_rows(v, rank - 1)
    }
}

/// The full debug rendering: a heading, the eight rank lines with rank 8 on
/// top, and the file letters at the bottom.
pub open spec fn render(v: Seq<Option<Piece>>) -> Seq<char> {
    "Board state:\n"@ + board_rows(v, 7) + "   a b c d e f g h\n"@
}

/// The board symbol of one square as a one-character string slice.
fn symbol_str(square: Option<Piece>) -> (s: &'static str)
    ensures
        s@ == seq![symbol_of(square)],
{
    proof {
        reveal_strlit("P");
        reveal_strlit("N");
        reveal_strlit("B");
        reveal_strlit("R");
        reveal_strlit("Q");
        reveal_strlit("K");
        reveal_strlit("p");
        reveal_strlit("n");
        reveal_strlit("b");
        reveal_strlit("r");
        reveal_strlit("q");
        reveal_strlit("k");
        reveal_strlit(".");
    }
    match square {
        None => ".",
        Some(p) => match p.color {
            Color::White => match p.piece_type {
                PieceType::Pawn => "P",
                PieceType::Knight => "N",
                PieceType::Bishop => "B",
                PieceType::Rook => "R",
                PieceType::Queen => "Q",
                PieceType::King => "K",
            },
            Color::Black => match p.piece_type {
                PieceType::Pawn => "p",
                PieceType::Knight => "n",
                PieceType::Bishop => "b",
                PieceType::Rook => "r",
                PieceType::Queen => "q",
                PieceType::King => "k",
            },
        },
    }
}

impl Board {
    /// The debug rendering of the board: rank 8 at the top, files a-h
    /// labeled at the bottom, pieces as single letters and empty squares as
    /// dots.
    pub fn debug_print(&self) -> (r: String)
        ensures
            r@ == render(self@),
    {
        let ghost v = self@;
        let mut output = String::from_str("Board state:\n");
        let mut i: u8 = 8;
        while i > 0
            invariant
                i <= 8,
                v == self@,
                output@ + board_rows(v, i as int - 1) == "Board state:\n"@ + board_rows(v, 7),
            decreases i,
        {
            let rank = i - 1;
            let ghost line_start = output@;
            output.append(rank_char_str(rank));
            output.append("  ");
            let mut file: u8 = 0;
            while file < 8
                invariant
                    file <= 8,
                    rank < 8,
                    i == rank + 1,
                    v == self@,
                    line_start + board_rows(v, i as int - 1) == "Board state:\n"@ + board_rows(
                        v,
                        7,
                    ),
                    output@ == line_start + seq![char_of_rank(rank)] + "  "@ + row_cells(
                        v,
                        rank as int,
                        file as int,
                    ),
                decreases 8 - file,
            {
                let pos = Position::new(file, rank);
                let piece = self.get_piece(&pos);
                output.append(symbol_str(piece));
                output.append(" ");
                proof {
                    reveal_strlit(" ");
                    assert(output@ =~= line_start + seq![char_of_rank(rank)] + "  "@ + row_cells(
                        v,
                        rank as int,
                        file as int + 1,
                    ));
                }
                file = file + 1;
            }
            output.append("\n");
            proof {
                assert(output@ =~= line_start + row_line(v, rank as int));
                assert(output@ + board_rows(v, rank as int - 1) =~= line_start + board_rows(
                    v,
                    rank as int,
                ));
            }
            i = i - 1;
        }
        output.append("   a b c d e f g h\n");
        proof {
            assert(output@ =~= render(v));
        }
        output
    }
}

} // verus!

