use vstd::prelude::*;
use vstd::string::*;

use crate::error::ChessError;
use crate::piece::Color;

verus! {

/// A square on the board: `file` runs a-h as 0-7, `rank` runs 1-8 as 0-7.
#[derive(Debug, Clone, Copy, PartialEq, Eq, Hash, Structural)]
pub struct Position {
    pub file: u8,
    pub rank: u8,
}

/// The file letter of a board file index: 0 -> 'a', ..., 7 -> 'h'.
pub open spec fn char_of_file(file: u8) -> char {
    (('a' as int) + file) as char
}

/// The rank digit of a board rank index: 0 -> '1', ..., 7 -> '8'.
pub open spec fn char_of_rank(rank: u8) -> char {
    (('1' as int) + rank) as char
}

/// Whether a (file, rank) character pair is well-formed algebraic notation.
pub open spec fn algebraic_ok(file_char: char, rank_char: char) -> bool {
    'a' <= file_char <= 'h' && '1' <= rank_char <= '8'
}

/// The position denoted by a well-formed algebraic character pair.
pub open spec fn pos_of_algebraic(file_char: char, rank_char: char) -> Position {
    Position {
        file: ((file_char as int) - ('a' as int)) as u8,
        rank: ((rank_char as int) - ('1' as int)) as u8,
    }
}

impl Position {
    /// Both coordinates on the board.
    pub open spec fn wf(self) -> bool {
        self.file <= 7 && self.rank <= 7
    }

    /// The two-character algebraic rendering, e.g. `e4`.
    pub open spec fn spec_str(self) -> Seq<char> {
        seq![char_of_file(self.file), char_of_rank(self.rank)]
    }

    /// Unchecked constructor: callers must guarantee the coordinates are in
    /// range before using the result where a board square is expected.
    pub fn new(file: u8, rank: u8) -> (p: Self)
        ensures
            p.file == file,
            p.rank == rank,
    {
        Self { file, rank }
    }

    /// Checked constructor: rejects coordinates outside 0..=7.
    pub fn create(file: u8, rank: u8) -> (r: Result<Self, ChessError>)
        ensures
            r is Ok <==> (file <= 7 && rank <= 7),
            r matches Ok(p) ==> p.file == file && p.rank == rank && p.wf(),
            r matches Err(e) ==> e is InvalidPosition,
    {
        if file > 7 || rank > 7 {
            return Err(ChessError::InvalidPosition(String::from_str(
                "file and rank must be between 0 and 7",
            )));
        }
        Ok(Self { file, rank })
    }

    /// Parses an algebraic character pair such as ('e', '4').
    pub fn from_algebraic(file_char: char, rank_char: char) -> (r: Result<Self, ChessError>)
        ensures
            r is Ok <==> algebraic_ok(file_char, rank_char),
            r matches Ok(p) ==> p == pos_of_algebraic(file_char, rank_char) && p.wf(),
            r matches Err(e) ==> e is InvalidPosition,
    {
        if file_char < 'a' || file_char > 'h' || rank_char < '1' || rank_char > '8' {
            return Err(ChessError::InvalidPosition(String::from_str(
                "invalid algebraic coordinates",
            )));
        }
        let file: u8 = ((file_char as u32) - ('a' as u32)) as u8;
        let rank: u8 = ((rank_char as u32) - ('1' as u32)) as u8;
        Ok(Self { file, rank })
    }

    /// Parses a two-character algebraic square such as `e4`.
    pub fn from_str(s: &str) -> (r: Result<Self, ChessError>)
        ensures
            r is Ok <==> (s@.len() == 2 && algebraic_ok(s@[0], s@[1])),
            r matches Ok(p) ==> p == pos_of_algebraic(s@[0], s@[1]) && p.wf(),
            r matches Err(e) ==> e is InvalidPosition,
    {
        if s.unicode_len() != 2 {
            return Err(ChessError::InvalidPosition(String::from_str(
                "a square is written as two characters",
            )));
        }
        let file_char = s.get_char(0);
        let rank_char = s.get_char(1);
        Self::from_algebraic(file_char, rank_char)
    }

    /// The algebraic character pair of an on-board position.
    pub fn to_algebraic(&self) -> (r: (char, char))
        requires
            self.wf(),
        ensures
            r.0 == char_of_file(self.file),
            r.1 == char_of_rank(self.rank),
    {
        let file_char = (('a' as u8) + self.file) as char;
        let rank_char = (('1' as u8) + self.rank) as char;
        (file_char, rank_char)
    }

    /// The two-character algebraic rendering as an owned string.
    pub fn to_string(&self) -> (r: String)
        requires
            self.wf(),
        ensures
            r@ == self.spec_str(),
    {
        let mut s = String::from_str(file_char_str(self.file));
        s.append(rank_char_str(self.rank));
        proof {
            assert(s@ =~= self.spec_str());
        }
        s
    }

    /// Whether the position denotes a real board square.
    pub fn is_valid(&self) -> (r: bool)
        ensures
            r == self.wf(),
    {
        self.file <= 7 && self.rank <= 7
    }

    /// The rank as seen from `color`'s side of the board: a White pawn's home
    /// rank and a Black pawn's home rank are both relative rank 1.
    pub fn relative_rank(&self, color: Color) -> (r: u8)
        requires
            self.wf(),
        ensures
            r == self.spec_relative_rank(color),
    {
        match color {
            Color::White => self.rank,
            Color::Black => 7 - self.rank,
        }
    }

    pub open spec fn spec_relative_rank(self, color: Color) -> int {
        match color {
            Color::White => self.rank as int,
            Color::Black => 7 - self.rank,
        }
    }

    /// Whether the position sits on the given rank from `color`'s perspective.
    pub fn is_on_relative_rank(&self, rank: u8, color: Color) -> (r: bool)
        requires
            self.wf(),
        ensures
            r == (self.spec_relative_rank(color) == rank),
    {
        self.relative_rank(color) == rank
    }
}

/// The file letter as a one-character string slice.
pub(crate) fn file_char_str(file: u8) -> (s: &'static str)
    requires
        file <= 7,
    ensures
        s@ == seq![char_of_file(file)],
{
    proof {
        reveal_strlit("a");
        reveal_strlit("b");
        reveal_strlit("c");
        reveal_strlit("d");
        reveal_strlit("e");
        reveal_strlit("f");
        reveal_strlit("g");
        reveal_strlit("h");
    }
    if file == 0 {
        "a"
    } else if file == 1 {
        "b"
    } else if file == 2 {
        "c"
    } else if file == 3 {
        "d"
    } else if file == 4 {
        "e"
    } else if file == 5 {
        "f"
    } else if file == 6 {
        "g"
    } else {
        "h"
    }
}

/// The rank digit as a one-character string slice.
pub(crate) fn rank_char_str(rank: u8) -> (s: &'static str)
    requires
        rank <= 7,
    ensures
        s@ == seq![char_of_rank(rank)],
{
    proof {
        reveal_strlit("1");
        reveal_strlit("2");
        reveal_strlit("3");
        reveal_strlit("4");
        reveal_strlit("5");
        reveal_strlit("6");
        reveal_strlit("7");
        reveal_strlit("8");
    }
    if rank == 0 {
        "1"
    } else if rank == 1 {
        "2"
    } else if rank == 2 {
        "3"
    } else if rank == 3 {
        "4"
    } else if rank == 4 {
        "5"
    } else if rank == 5 {
        "6"
    } else if rank == 6 {
        "7"
    } else {
        "8"
    }
}

/// Whether a string parses as one board square.
pub open spec fn parse_sq_ok(s: Seq<char>) -> bool {
    s.len() == 2 && algebraic_ok(s[0], s[1])
}

/// The square a well-formed two-character string denotes.
pub open spec fn parsed_sq(s: Seq<char>) -> Position {
    pos_of_algebraic(s[0], s[1])
}

/// Algebraic conversion round-trips: every on-board position is produced back
/// by parsing its own algebraic character pair.
pub proof fn lemma_algebraic_round_trip(p: Position)
    requires
        p.wf(),
    ensures
        algebraic_ok(char_of_file(p.file), char_of_rank(p.rank)),
        pos_of_algebraic(char_of_file(p.file), char_of_rank(p.rank)) == p,
{
}

} // verus!
