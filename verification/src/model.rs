//! Shared value types: colours, squares and moves.

use crate::error::ShogiUtilError;
use crate::piece::Piece;
use crate::text::{append_chars, chars_of};
use vstd::prelude::*;

verus! {

/// One of the two sides. Black's home rank is rank 9, White's is rank 1.
#[derive(Debug, PartialEq, Eq, Clone, Copy, Structural)]
pub enum Color {
    Black,
    White,
}

impl Color {
    /// The index of the colour in per-colour tables: 0 for Black, 1 for White.
    pub open spec fn index(self) -> int {
        match self {
            Color::Black => 0,
            Color::White => 1,
        }
    }

    /// The other side.
    pub open spec fn other(self) -> Color {
        match self {
            Color::Black => Color::White,
            Color::White => Color::Black,
        }
    }

/// The number of the colour: 0 for Black, 1 for White.
    pub fn to_byte(&self) -> (b: u8)
        ensures
            b == self.index(),
    {
        match self {
            Color::Black => 0,
            Color::White => 1,
        }
    }

/// The index of the colour in per-colour tables.
    pub fn to_usize(&self) -> (i: usize)
        ensures
            i == self.index(),
    {
        self.to_byte() as usize
    }

/// The other side.
    pub fn opponent(&self) -> (c: Color)
        ensures
            c == self.other(),
    {
        match self {
            Color::White => Color::Black,
            Color::Black => Color::White,
        }
    }
}

/// The colour that a sign stands for in a game record: `+` is Black and `-` is White.
pub open spec fn csa_color(text: Seq<char>) -> Option<Color> {
    if text == seq!['+'] {
        Some(Color::Black)
    } else if text == seq!['-'] {
        Some(Color::White)
    } else {
        None
    }
}

/// What reading a colour from a game record gives: the colour, or the detail of the error.
pub open spec fn read_color(text: Seq<char>) -> Result<Color, Seq<char>> {
    match csa_color(text) {
        Some(color) => Ok(color),
        None => Err("Invalid color symbol: "@ + text),
    }
}

impl Color {
    /// Reads a colour from its sign in a game record.
    pub fn from_str(s: &str) -> (r: Result<Color, ShogiUtilError>)
        ensures
            match read_color(s@) {
                Ok(color) => r == Ok::<Color, ShogiUtilError>(color),
                Err(detail) => r matches Err(e) && e is CsaParseError && e.detail() == detail,
            },
    {
        let chars = chars_of(s);
        if chars.len() == 1 && chars[0] == '+' {
            assert(chars@ =~= seq!['+']);
            Ok(Color::Black)
        } else if chars.len() == 1 && chars[0] == '-' {
            assert(chars@ =~= seq!['-']);
            Ok(Color::White)
        } else {
            assert(seq!['+'].len() == 1 && seq!['+'][0] == '+');
            assert(seq!['-'].len() == 1 && seq!['-'][0] == '-');
            let mut text = String::from_str("Invalid color symbol: ");
            append_chars(&mut text, &chars);
            Err(ShogiUtilError::CsaParseError(text))
        }
    }
}

impl core::str::FromStr for Color {
    type Err = ShogiUtilError;

    /// Reads a colour from its sign in a game record: `+` gives Black and `-` gives White,
    /// and any other text gives the error that names it.
    fn from_str(s: &str) -> (r: Result<Self, Self::Err>)
        ensures
            match read_color(s@) {
                Ok(color) => r == Ok::<Color, ShogiUtilError>(color),
                Err(detail) => r matches Err(e) && e is CsaParseError && e.detail() == detail,
            },
    {
        Color::from_str(s)
    }
}

/// The number that a character stands for as a file or a rank: the digits from 1 to 9.
pub open spec fn coordinate(c: char) -> Option<u8> {
    if '1' <= c <= '9' {
        Some((c as u32 - '0' as u32) as u8)
    } else {
        None
    }
}

/// What reading a square from a game record gives: two digits from 1 to 9, the file and
/// then the rank, give the square; anything else gives the detail of the error.
pub open spec fn read_square(text: Seq<char>) -> Result<Square, Seq<char>> {
    if text.len() != 2 {
        Err("Invalid square: "@ + text)
    } else {
        match (coordinate(text[0]), coordinate(text[1])) {
            (Some(file), Some(rank)) => Ok(Square { file, rank }),
            _ => Err("Invalid square "@ + text),
        }
    }
}

/// Reads a digit from 1 to 9.
pub fn read_coordinate(c: char) -> (n: Option<u8>)
    ensures
        n == coordinate(c),
        n matches Some(v) ==> 1 <= v <= 9,
{
    let code = c as u32;
    if 0x31 <= code && code <= 0x39 {
        Some((code - 0x30) as u8)
    } else {
        None
    }
}

/// A square of the 9x9 board. Files count from 9 on the left to 1 on the right, ranks from 1
/// at the top to 9 at the bottom.
#[derive(Debug, PartialEq, Eq, Clone, Copy, Structural)]
pub struct Square {
    pub file: u8,
    pub rank: u8,
}

impl Square {
    /// Whether both coordinates lie on the board.
    pub open spec fn valid(self) -> bool {
        1 <= self.rank <= 9 && 1 <= self.file <= 9
    }

    /// The position of the square in the grid, counted row by row from the top left.
    pub open spec fn pos(self) -> int {
        (self.rank - 1) * 9 + (9 - self.file)
    }

    /// The square at a grid position.
    pub open spec fn at(pos: int) -> Square {
        Square { rank: (pos / 9 + 1) as u8, file: (9 - pos % 9) as u8 }
    }

    /// The square seen from the other side of the board.
    pub open spec fn rotated(self) -> Square {
        Square { rank: (10 - self.rank) as u8, file: (10 - self.file) as u8 }
    }

    /// The square in row `i` and column `j` of the grid, both counted from 0.
    pub fn from_pos(i: usize, j: usize) -> (sq: Square)
        requires
            i < 9,
            j < 9,
        ensures
            sq == Square::at(i * 9 + j),
            sq.rank == i + 1,
            sq.file == 9 - j,
            sq.valid(),
    {
        Square { rank: (i + 1) as u8, file: (9 - j) as u8 }
    }

    /// The row and the column of the square in the grid, both counted from 0.
    pub fn to_pos(&self) -> (ij: (usize, usize))
        requires
            self.valid(),
        ensures
            ij.0 == self.rank - 1,
            ij.1 == 9 - self.file,
            ij.0 * 9 + ij.1 == self.pos(),
    {
        let i = self.rank as usize - 1;
        let j = 9 - self.file as usize;
        (i, j)
    }

/// Whether both coordinates lie on the board.
    pub fn is_valid(&self) -> (b: bool)
        ensures
            b == self.valid(),
    {
        1 <= self.rank && self.rank <= 9 && 1 <= self.file && self.file <= 9
    }

    /// Reads a square from a game record.
    pub fn from_str(s: &str) -> (r: Result<Square, ShogiUtilError>)
        ensures
            match read_square(s@) {
                Ok(sq) => r == Ok::<Square, ShogiUtilError>(sq) && sq.valid(),
                Err(detail) => r matches Err(e) && e is CsaParseError && e.detail() == detail,
            },
    {
        let chars = chars_of(s);
        if chars.len() != 2 {
            let mut text = String::from_str("Invalid square: ");
            append_chars(&mut text, &chars);
            Err(ShogiUtilError::CsaParseError(text))
        } else {
            match (read_coordinate(chars[0]), read_coordinate(chars[1])) {
                (Some(file), Some(rank)) => Ok(Square { file, rank }),
                _ => {
                    let mut text = String::from_str("Invalid square ");
                    append_chars(&mut text, &chars);
                    Err(ShogiUtilError::CsaParseError(text))
                },
            }
        }
    }
}

impl core::str::FromStr for Square {
    type Err = ShogiUtilError;

    /// Reads a square from a game record: two digits from 1 to 9, the file and then the
    /// rank, give the square, and any other text gives the error that names it.
    fn from_str(s: &str) -> (r: Result<Self, Self::Err>)
        ensures
            match read_square(s@) {
                Ok(sq) => r == Ok::<Square, ShogiUtilError>(sq) && sq.valid(),
                Err(detail) => r matches Err(e) && e is CsaParseError && e.detail() == detail,
            },
    {
        Square::from_str(s)
    }
}

/// Squares and grid positions correspond one to one.
pub proof fn lemma_square_pos(sq: Square, pos: int)
    ensures
        sq.valid() ==> 0 <= sq.pos() < 81 && Square::at(sq.pos()) == sq,
        0 <= pos < 81 ==> Square::at(pos).valid() && Square::at(pos).pos() == pos,
        sq.valid() ==> sq.rotated().valid() && sq.rotated().pos() == 80 - sq.pos()
            && sq.rotated().rotated() == sq,
{
}

/// One ply. `piece` is the kind that stands on `to` once the move is made, so a promoting
/// move names the promoted kind. A move without `from` drops a piece from hand.
#[derive(Debug, PartialEq, Eq, Clone, Copy)]
pub struct Move {
    pub color: Color,
    pub from: Option<Square>,
    pub to: Square,
    pub piece: Piece,
}

/// A candidate move, with a flag that tells the promoting variant from the plain one.
#[derive(Debug, PartialEq, Eq, Clone, Copy)]
pub struct LegalMove {
    pub mv: Move,
    pub promoted: bool,
}

} // verus!
