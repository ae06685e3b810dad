//! The text side of the USI engine protocol: positions and moves in SFEN notation, the
//! commands that an engine receives and the answers that it gives.

use crate::board::{
    fault_text, lemma_free_square, lemma_with_piece, no_room_text, Board, MoveOutcome,
};
use crate::error::{Fault, ShogiUtilError};
use crate::model::{Color, Move, Square};
use crate::piece::Piece;
use crate::text::{
    append_chars, chars_of, digit_value, holds, read_digit, spells, split, split_on, string_of,
    trim, trimmed,
};
use vstd::prelude::*;

verus! {

/// The kind and the colour that a letter stands for: an upper-case letter is a piece of
/// Black, a lower-case letter one of White.
pub open spec fn sfen_piece(c: char) -> Option<(Piece, Color)> {
    if c == 'K' {
        Some((Piece::King, Color::Black))
    } else if c == 'R' {
        Some((Piece::Rook, Color::Black))
    } else if c == 'B' {
        Some((Piece::Bishop, Color::Black))
    } else if c == 'G' {
        Some((Piece::Gold, Color::Black))
    } else if c == 'S' {
        Some((Piece::Silver, Color::Black))
    } else if c == 'N' {
        Some((Piece::Knight, Color::Black))
    } else if c == 'L' {
        Some((Piece::Lance, Color::Black))
    } else if c == 'P' {
        Some((Piece::Pawn, Color::Black))
    } else if c == 'k' {
        Some((Piece::King, Color::White))
    } else if c == 'r' {
        Some((Piece::Rook, Color::White))
    } else if c == 'b' {
        Some((Piece::Bishop, Color::White))
    } else if c == 'g' {
        Some((Piece::Gold, Color::White))
    } else if c == 's' {
        Some((Piece::Silver, Color::White))
    } else if c == 'n' {
        Some((Piece::Knight, Color::White))
    } else if c == 'l' {
        Some((Piece::Lance, Color::White))
    } else if c == 'p' {
        Some((Piece::Pawn, Color::White))
    } else {
        None
    }
}

/// Reads a piece letter.
pub fn parse_piece(c: char) -> (r: Option<(Piece, Color)>)
    ensures
        r == sfen_piece(c),
        r matches Some((piece, _)) ==> piece.has_sfen_letter() && piece.promoted_form() is Some
            == (piece != Piece::King && piece != Piece::Gold),
{
    if c == 'K' {
        Some((Piece::King, Color::Black))
    } else if c == 'R' {
        Some((Piece::Rook, Color::Black))
    } else if c == 'B' {
        Some((Piece::Bishop, Color::Black))
    } else if c == 'G' {
        Some((Piece::Gold, Color::Black))
    } else if c == 'S' {
        Some((Piece::Silver, Color::Black))
    } else if c == 'N' {
        Some((Piece::Knight, Color::Black))
    } else if c == 'L' {
        Some((Piece::Lance, Color::Black))
    } else if c == 'P' {
        Some((Piece::Pawn, Color::Black))
    } else if c == 'k' {
        Some((Piece::King, Color::White))
    } else if c == 'r' {
        Some((Piece::Rook, Color::White))
    } else if c == 'b' {
        Some((Piece::Bishop, Color::White))
    } else if c == 'g' {
        Some((Piece::Gold, Color::White))
    } else if c == 's' {
        Some((Piece::Silver, Color::White))
    } else if c == 'n' {
        Some((Piece::Knight, Color::White))
    } else if c == 'l' {
        Some((Piece::Lance, Color::White))
    } else if c == 'p' {
        Some((Piece::Pawn, Color::White))
    } else {
        None
    }
}

/// The square that two characters stand for: a digit from 1 to 9 for the file and a letter
/// from `a` to `i` for the rank.
pub open spec fn sfen_square(file: char, rank: char) -> Option<Square> {
    if '1' <= file <= '9' && 'a' <= rank <= 'i' {
        Some(
            Square {
                file: (file as u32 - '0' as u32) as u8,
                rank: (rank as u32 - 'a' as u32 + 1) as u8,
            },
        )
    } else {
        None
    }
}

/// Reads a square.
pub fn parse_sfen_square(file: char, rank: char) -> (r: Option<Square>)
    ensures
        r == sfen_square(file, rank),
        r matches Some(sq) ==> sq.valid(),
{
    let f = file as u32;
    let r = rank as u32;
    if 0x31 <= f && f <= 0x39 && 0x61 <= r && r <= 0x69 {
        Some(Square { file: (f - 0x30) as u8, rank: (r - 0x61 + 1) as u8 })
    } else {
        None
    }
}

/// A move as the protocol writes it.
pub enum SfenMove {
    /// A piece of the given kind is dropped on `to`.
    DropMove { to: Square, piece: Piece },
    /// The piece on `from` goes to `to`, and promotes if `promoted` says so.
    Travel { from: Square, to: Square, promoted: bool },
}

/// The move that a text stands for, if it stands for one. A move from a square is written
/// as the two squares, with `+` behind them where the piece promotes; a drop is written as
/// the upper-case letter of the kind, `*`, and the square.
pub open spec fn sfen_move(text: Seq<char>) -> Option<SfenMove> {
    if text.len() < 4 || text.len() > 5 {
        None
    } else {
        match sfen_square(text[2], text[3]) {
            None => None,
            Some(to) => match sfen_square(text[0], text[1]) {
                Some(from) => if text.len() == 5 {
                    if text[4] == '+' {
                        Some(SfenMove::Travel { from, to, promoted: true })
                    } else {
                        None
                    }
                } else {
                    Some(SfenMove::Travel { from, to, promoted: false })
                },
                None => if text[1] != '*' {
                    None
                } else {
                    match sfen_piece(text[0]) {
                        Some((piece, Color::Black)) => Some(SfenMove::DropMove { to, piece }),
                        _ => None,
                    }
                },
            },
        }
    }
}

/// The detail of the error for a text that stands for no move.
pub open spec fn invalid_move_text(text: Seq<char>) -> Seq<char> {
    "Invalid sfen move: '"@ + text + "'"@
}

impl SfenMove {
    /// Whether the squares of the move lie on the board and a dropped kind is one that a
    /// letter can name.
    pub open spec fn wf(self) -> bool {
        match self {
            SfenMove::DropMove { to, piece } => to.valid() && piece.has_sfen_letter(),
            SfenMove::Travel { from, to, promoted } => from.valid() && to.valid(),
        }
    }

    /// Reads a move.
    pub fn parse(sfen_move: &str) -> (r: Result<SfenMove, ShogiUtilError>)
        ensures
            match self::sfen_move(sfen_move@) {
                Some(mv) => r == Ok::<SfenMove, ShogiUtilError>(mv) && mv.wf(),
                None => r matches Err(e) && e.fault() == Fault::Usi(
                    invalid_move_text(sfen_move@),
                ),
            },
    {
        let text = chars_of(sfen_move);
        SfenMove::read(&text)
    }

    /// Reads a move from its characters.
    pub(crate) fn read(text: &Vec<char>) -> (r: Result<SfenMove, ShogiUtilError>)
        ensures
            match self::sfen_move(text@) {
                Some(mv) => r == Ok::<SfenMove, ShogiUtilError>(mv) && mv.wf(),
                None => r matches Err(e) && e.fault() == Fault::Usi(invalid_move_text(text@)),
            },
    {
        if text.len() < 4 || 5 < text.len() {
            return Err(invalid_move(text));
        }
        let from = parse_sfen_square(text[0], text[1]);
        let to = match parse_sfen_square(text[2], text[3]) {
            Some(to) => to,
            None => {
                return Err(invalid_move(text));
            },
        };
        if let Some(from) = from {
            if text.len() == 5 {
                if text[4] != '+' {
                    Err(invalid_move(text))
                } else {
                    Ok(SfenMove::Travel { from, to, promoted: true })
                }
            } else {
                Ok(SfenMove::Travel { from, to, promoted: false })
            }
        } else if text[1] != '*' {
            Err(invalid_move(text))
        } else {
            match parse_piece(text[0]) {
                Some((piece, Color::Black)) => Ok(SfenMove::DropMove { piece, to }),
                _ => Err(invalid_move(text)),
            }
        }
    }
}

/// What has been read of the pieces in hand.
pub struct HandReading {
    /// The digits read since the last piece letter.
    pub digits: Seq<char>,
    /// The pieces of Black, in the order in which they were read.
    pub black: Seq<Piece>,
    /// The pieces of White, in the order in which they were read.
    pub white: Seq<Piece>,
}

/// The number that a run of decimal digits stands for.
pub open spec fn number_of(digits: Seq<char>) -> nat
    decreases digits.len(),
{
    if digits.len() == 0 {
        0
    } else {
        number_of(digits.drop_last()) * 10 + (match digit_value(digits.last()) {
            Some(d) => d as nat,
            None => 0,
        })
    }
}

/// What one character adds to the pieces in hand. A digit joins the count that is being
/// read. A piece letter adds as many pieces of its kind and colour as the count before it
/// says, or one where no count stands before it; a count that no `usize` holds is an
/// error, and so is any other character.
pub open spec fn read_hand_char(state: HandReading, c: char) -> Option<HandReading> {
    if digit_value(c) is Some {
        Some(HandReading { digits: state.digits.push(c), ..state })
    } else {
        match sfen_piece(c) {
            None => None,
            Some((piece, color)) => {
                let count = if state.digits.len() == 0 {
                    1
                } else {
                    number_of(state.digits)
                };
                if count > usize::MAX {
                    None
                } else {
                    let added = Seq::new(count, |i: int| piece);
                    match color {
                        Color::Black => Some(
                            HandReading {
                                digits: Seq::empty(),
                                black: state.black + added,
                                white: state.white,
                            },
                        ),
                        Color::White => Some(
                            HandReading {
                                digits: Seq::empty(),
                                black: state.black,
                                white: state.white + added,
                            },
                        ),
                    }
                }
            },
        }
    }
}

/// What the first `count` characters of a text give as pieces in hand.
pub open spec fn read_hand(text: Seq<char>, count: int) -> Option<HandReading>
    decreases count,
{
    if count <= 0 {
        Some(HandReading { digits: Seq::empty(), black: Seq::empty(), white: Seq::empty() })
    } else {
        match read_hand(text, count - 1) {
            Some(state) => read_hand_char(state, text[count - 1]),
            None => None,
        }
    }
}

/// Once a character cannot be read, the characters after it change nothing.
pub proof fn lemma_read_hand_stops(text: Seq<char>, count: int, later: int)
    requires
        0 <= count <= later,
        read_hand(text, count) is None,
    ensures
        read_hand(text, later) is None,
    decreases later,
{
    if later > count {
        lemma_read_hand_stops(text, count, later - 1);
    }
}

/// Reads the pieces in hand: for each colour the pieces in the order of the text. Digits at
/// the end of the text, with no piece letter after them, are not looked at.
pub fn parse_hand(hand: &str) -> (r: Option<[Vec<Piece>; 2]>)
    ensures
        match read_hand(hand@, hand@.len() as int) {
            Some(state) => r matches Some(hands) && hands[0]@ == state.black && hands[1]@
                == state.white,
            None => r is None,
        },
{
    let text = chars_of(hand);
    read_hand_text(&text)
}

/// Reads the pieces in hand from the characters of the text.
fn read_hand_text(text: &Vec<char>) -> (r: Option<[Vec<Piece>; 2]>)
    ensures
        match read_hand(text@, text@.len() as int) {
            Some(state) => r matches Some(hands) && hands[0]@ == state.black && hands[1]@
                == state.white,
            None => r is None,
        },
{
    let mut black: Vec<Piece> = Vec::new();
    let mut white: Vec<Piece> = Vec::new();
    let mut any_digit = false;
    let mut count: Option<usize> = Some(0);
    let ghost mut digits: Seq<char> = Seq::empty();
    let mut i: usize = 0;
    while i < text.len()
        invariant
            i <= text@.len(),
            read_hand(text@, i as int) == Some(
                HandReading { digits, black: black@, white: white@ },
            ),
            any_digit == (digits.len() > 0),
            match count {
                Some(n) => n == number_of(digits),
                None => number_of(digits) > usize::MAX,
            },
        decreases text@.len() - i,
    {
        let c = text[i];
        let ghost state = HandReading { digits, black: black@, white: white@ };
        assert(read_hand(text@, i + 1) == read_hand_char(state, c));
        if let Some(d) = read_digit(c) {
            let digit = d as usize;
            proof {
                assert(digits.push(c).drop_last() =~= digits);
            }
            count = match count {
                Some(n) => match n.checked_mul(10) {
                    Some(tens) => tens.checked_add(digit),
                    None => None,
                },
                None => None,
            };
            any_digit = true;
            proof {
                digits = digits.push(c);
            }
        } else {
            let (piece, color) = match parse_piece(c) {
                Some(found) => found,
                None => {
                    proof {
                        lemma_read_hand_stops(text@, i + 1, text@.len() as int);
                    }
                    return None;
                },
            };
            let times = if any_digit {
                match count {
                    Some(n) => n,
                    None => {
                        proof {
                            lemma_read_hand_stops(text@, i + 1, text@.len() as int);
                        }
                        return None;
                    },
                }
            } else {
                1
            };
            let ghost before_black = black@;
            let ghost before_white = white@;
            let mut n: usize = 0;
            while n < times
                invariant
                    n <= times,
                    match color {
                        Color::Black => black@ == before_black + Seq::new(n as nat, |i: int| piece)
                            && white@ == before_white,
                        Color::White => white@ == before_white + Seq::new(n as nat, |i: int| piece)
                            && black@ == before_black,
                    },
                decreases times - n,
            {
                match color {
                    Color::Black => {
                        black.push(piece);
                        assert(black@ =~= before_black + Seq::new((n + 1) as nat, |i: int| piece));
                    },
                    Color::White => {
                        white.push(piece);
                        assert(white@ =~= before_white + Seq::new((n + 1) as nat, |i: int| piece));
                    },
                }
                n += 1;
            }
            any_digit = false;
            count = Some(0);
            proof {
                digits = Seq::empty();
            }
        }
        i += 1;
    }
    Some([black, white])
}

/// The position with a piece put on the square of the given rank and file.
pub open spec fn placed(board: Board, rank: int, file: int, color: Color, piece: Piece) -> Board {
    board.with_piece((rank - 1) * 9 + (9 - file), color, piece)
}

/// What a row of the board gives, read from its first character on, where `file` is the
/// file of the next square, or 0 when the row is full. A digit from 1 to 9 passes over
/// that many free squares; a piece letter puts a piece on the next square, and `+` before
/// the letter puts its promoted form there. The row must end exactly when it is full.
pub open spec fn read_row(board: Board, row: Seq<char>, rank: int, file: int) -> Option<Board>
    decreases row.len(),
{
    if row.len() == 0 {
        if file == 0 {
            Some(board)
        } else {
            None
        }
    } else if digit_value(row[0]) is Some {
        let free = digit_value(row[0]).unwrap() as int;
        if free == 0 || free > file {
            None
        } else {
            read_row(board, row.skip(1), rank, file - free)
        }
    } else if row[0] == '+' {
        if row.len() < 2 || file < 1 {
            None
        } else {
            match sfen_piece(row[1]) {
                Some((piece, color)) => match piece.promoted_form() {
                    Some(promoted) => read_row(
                        placed(board, rank, file, color, promoted),
                        row.skip(2),
                        rank,
                        file - 1,
                    ),
                    None => None,
                },
                None => None,
            }
        }
    } else {
        match sfen_piece(row[0]) {
            Some((piece, color)) => if file < 1 {
                None
            } else {
                read_row(placed(board, rank, file, color, piece), row.skip(1), rank, file - 1)
            },
            None => None,
        }
    }
}

/// What the first `count` rows give, from rank 1 down.
pub open spec fn read_rows(board: Board, rows: Seq<Seq<char>>, count: int) -> Option<Board>
    decreases count,
{
    if count <= 0 {
        Some(board)
    } else {
        match read_rows(board, rows, count - 1) {
            Some(above) => read_row(above, rows[count - 1], count, 9),
            None => None,
        }
    }
}

/// The side to move that a text stands for.
pub open spec fn sfen_turn(text: Seq<char>) -> Option<Color> {
    if text == "b"@ {
        Some(Color::Black)
    } else if text == "w"@ {
        Some(Color::White)
    } else {
        None
    }
}

/// The position after `color` has taken the first `count` of the pieces in hand, if the
/// hand has room for each of them.
pub open spec fn take_in_hand(board: Board, pieces: Seq<Piece>, color: Color, count: int) -> Option<
    Board,
>
    decreases count,
{
    if count <= 0 {
        Some(board)
    } else {
        match take_in_hand(board, pieces, color, count - 1) {
            Some(before) => {
                let held = pieces[count - 1].in_hand_form();
                if before.hand(color, held) < held.hand_limit() {
                    Some(before.with_hand(color, held, before.hand(color, held) + 1))
                } else {
                    None
                }
            },
            None => None,
        }
    }
}

/// The position with the hands that a text gives; `-` stands for empty hands.
pub open spec fn read_hands(board: Board, text: Seq<char>) -> Option<Board> {
    if text == "-"@ {
        Some(board)
    } else {
        match read_hand(text, text.len() as int) {
            None => None,
            Some(hands) => match take_in_hand(
                board,
                hands.black,
                Color::Black,
                hands.black.len() as int,
            ) {
                Some(with_black) => take_in_hand(
                    with_black,
                    hands.white,
                    Color::White,
                    hands.white.len() as int,
                ),
                None => None,
            },
        }
    }
}

/// The position and the side to move that three texts give: the nine rows of the board,
/// separated by `/`, the side to move, and the pieces in hand.
pub open spec fn read_position(placement: Seq<char>, turn: Seq<char>, hands: Seq<char>) -> Option<
    (Board, Color),
> {
    let rows = split_on(placement, '/');
    if rows.len() != 9 {
        None
    } else {
        match read_rows(Board::blank(), rows, 9) {
            None => None,
            Some(board) => match sfen_turn(turn) {
                None => None,
                Some(next_turn) => match read_hands(board, hands) {
                    None => None,
                    Some(with_hands) => Some((with_hands, next_turn)),
                },
            },
        }
    }
}

/// The position and the side to move that a text in SFEN notation gives. The text has four
/// parts, separated by single blanks: the board, the side to move, the hands, and the
/// number of the move, which is not looked at.
pub open spec fn read_sfen(text: Seq<char>) -> Option<(Board, Color)> {
    let parts = split_on(text, ' ');
    if parts.len() != 4 {
        None
    } else {
        read_position(parts[0], parts[1], parts[2])
    }
}

/// The detail of the error for a text that gives no position.
pub open spec fn invalid_sfen_text(text: Seq<char>) -> Seq<char> {
    "Invalid sfen format: "@ + text
}

/// Whether every piece of the position stands before the given grid position.
pub open spec fn filled_before(board: Board, pos: int) -> bool {
    forall|p: int| #[trigger] board.occupied_at(p) ==> p < pos
}

/// Reads one row of the board into the position and says whether it could be read.
fn parse_row(board: &mut Board, row: &Vec<char>, rank: u8) -> (ok: bool)
    requires
        old(board).wf(),
        1 <= rank <= 9,
        filled_before(*old(board), (rank - 1) * 9),
    ensures
        match read_row(*old(board), row@, rank as int, 9) {
            Some(read) => ok && *final(board) == read && final(board).wf() && filled_before(
                *final(board),
                rank * 9,
            ),
            None => !ok,
        },
{
    let ghost start = *board;
    let mut file: u8 = 9;
    let mut i: usize = 0;
    assert(row@.skip(0) =~= row@);
    while i < row.len()
        invariant
            i <= row@.len(),
            0 <= file <= 9,
            1 <= rank <= 9,
            start == *old(board),
            board.wf(),
            filled_before(*board, (rank - 1) * 9 + (9 - file)),
            read_row(start, row@, rank as int, 9) == read_row(
                *board,
                row@.skip(i as int),
                rank as int,
                file as int,
            ),
        decreases row@.len() - i,
    {
        let c = row[i];
        let ghost rest = row@.skip(i as int);
        assert(rest.len() > 0 && rest[0] == c);
        if let Some(free) = read_digit(c) {
            if free == 0 || free > file {
                return false;
            }
            file -= free;
            assert(rest.skip(1) =~= row@.skip(i + 1));
            i += 1;
        } else {
            let promote = c == '+';
            if promote {
                if i + 1 >= row.len() {
                    return false;
                }
                assert(rest[1] == row@[i + 1]);
            }
            let letter = if promote {
                row[i + 1]
            } else {
                c
            };
            let (piece, color) = match parse_piece(letter) {
                Some(found) => found,
                None => {
                    return false;
                },
            };
            let piece = if promote {
                match piece.promote() {
                    Some(promoted) => promoted,
                    None => {
                        return false;
                    },
                }
            } else {
                piece
            };
            if file < 1 {
                return false;
            }
            let sq = Square { rank, file };
            let ghost before = *board;
            proof {
                assert(!board.occupied_at(sq.pos()));
                lemma_free_square(*board, sq.pos());
                lemma_with_piece(*board, sq.pos(), color, piece);
            }
            board.push_piece(&sq, color, piece);
            proof {
                assert(*board == placed(before, rank as int, file as int, color, piece));
                assert forall|p: int| #[trigger] board.occupied_at(p) implies p < sq.pos() + 1 by {
                    if p != sq.pos() {
                        assert(before.occupied_at(p));
                    }
                }
            }
            file -= 1;
            if promote {
                assert(rest.skip(2) =~= row@.skip(i + 2));
                i += 2;
            } else {
                assert(rest.skip(1) =~= row@.skip(i + 1));
                i += 1;
            }
        }
    }
    file == 0
}

/// Puts the given pieces into the hand of `color` and says whether the hand had room for
/// all of them.
fn fill_hand(board: &mut Board, pieces: &Vec<Piece>, color: Color) -> (ok: bool)
    requires
        old(board).wf(),
    ensures
        final(board).wf(),
        match take_in_hand(*old(board), pieces@, color, pieces@.len() as int) {
            Some(filled) => ok && *final(board) == filled,
            None => !ok,
        },
{
    let ghost start = *board;
    let mut i: usize = 0;
    while i < pieces.len()
        invariant
            i <= pieces@.len(),
            board.wf(),
            start == *old(board),
            take_in_hand(start, pieces@, color, i as int) == Some(*board),
        decreases pieces@.len() - i,
    {
        let piece = pieces[i];
        let held = match piece.revert_promotion() {
            Some(base) => base,
            None => piece,
        };
        if board.pieces_in_hand[color.to_usize()][held.to_usize()] as usize
            >= held.max_piece_in_hand() {
            proof {
                lemma_take_in_hand_stops(start, pieces@, color, i + 1, pieces@.len() as int);
            }
            return false;
        }
        board.push_hand(piece, color);
        i += 1;
    }
    true
}

/// Once a hand has no room for a piece, the pieces after it change nothing.
pub proof fn lemma_take_in_hand_stops(
    board: Board,
    pieces: Seq<Piece>,
    color: Color,
    count: int,
    later: int,
)
    requires
        0 <= count <= later,
        take_in_hand(board, pieces, color, count) is None,
    ensures
        take_in_hand(board, pieces, color, later) is None,
    decreases later,
{
    if later > count {
        lemma_take_in_hand_stops(board, pieces, color, count, later - 1);
    }
}

/// Once a row cannot be read, the rows after it change nothing.
pub proof fn lemma_read_rows_stops(board: Board, rows: Seq<Seq<char>>, count: int, later: int)
    requires
        0 <= count <= later,
        read_rows(board, rows, count) is None,
    ensures
        read_rows(board, rows, later) is None,
    decreases later,
{
    if later > count {
        lemma_read_rows_stops(board, rows, count, later - 1);
    }
}

/// Reads a position from the three texts that describe it.
fn parse_position(placement: &Vec<char>, turn: &Vec<char>, hands: &Vec<char>) -> (r: Option<
    (Board, Color),
>)
    ensures
        r == read_position(placement@, turn@, hands@),
        r matches Some((board, _)) ==> board.wf(),
{
    let rows = split(placement, '/');
    let ghost texts = split_on(placement@, '/');
    if rows.len() != 9 {
        return None;
    }
    let mut board = Board::empty();
    let mut n: usize = 0;
    while n < 9
        invariant
            n <= 9,
            rows@.len() == 9,
            texts.len() == 9,
            texts == split_on(placement@, '/'),
            forall|k: int| 0 <= k < 9 ==> (#[trigger] rows@[k])@ == texts[k],
            board.wf(),
            filled_before(board, n * 9),
            read_rows(Board::blank(), texts, n as int) == Some(board),
        decreases 9 - n,
    {
        let rank = (n + 1) as u8;
        if !parse_row(&mut board, &rows[n], rank) {
            proof {
                lemma_read_rows_stops(Board::blank(), texts, n + 1, 9);
            }
            return None;
        }
        n += 1;
    }
    let next_turn = if spells(turn, "b") {
        Color::Black
    } else if spells(turn, "w") {
        Color::White
    } else {
        return None;
    };
    if !spells(hands, "-") {
        let both = match read_hand_text(hands) {
            Some(both) => both,
            None => {
                return None;
            },
        };
        if !fill_hand(&mut board, &both[0], Color::Black) {
            return None;
        }
        if !fill_hand(&mut board, &both[1], Color::White) {
            return None;
        }
    }
    Some((board, next_turn))
}

/// A position with the side that is to move in it.
pub struct SfenBoard {
    pub board: Board,
    pub next_turn: Color,
}

impl SfenBoard {
    /// Reads a position in SFEN notation.
    pub fn parse(sfen_state: &str) -> (r: Result<SfenBoard, ShogiUtilError>)
        ensures
            match read_sfen(sfen_state@) {
                Some((board, next_turn)) => r matches Ok(read) && read.board == board
                    && read.next_turn == next_turn && read.board.wf(),
                None => r matches Err(e) && e.fault() == Fault::Usi(
                    invalid_sfen_text(sfen_state@),
                ),
            },
    {
        let text = chars_of(sfen_state);
        let parts = split(&text, ' ');
        if parts.len() != 4 {
            return Err(invalid_sfen(&text));
        }
        match parse_position(&parts[0], &parts[1], &parts[2]) {
            Some((board, next_turn)) => Ok(SfenBoard { board, next_turn }),
            None => Err(invalid_sfen(&text)),
        }
    }
}

/// The error for a text that gives no position.
fn invalid_sfen(text: &Vec<char>) -> (e: ShogiUtilError)
    ensures
        e.fault() == Fault::Usi(invalid_sfen_text(text@)),
{
    let mut detail = String::from_str("Invalid sfen format: ");
    append_chars(&mut detail, text);
    ShogiUtilError::UsiParseError(detail)
}

/// What a move comes to for the game that is being replayed: the new position, or what the
/// error says.
pub open spec fn outcome_of(
    outcome: MoveOutcome,
    color: Color,
    from: Option<Square>,
    to: Square,
    piece: Piece,
) -> Result<Board, Fault> {
    match outcome {
        MoveOutcome::Done { board, .. } => Ok(board),
        MoveOutcome::Refused { fault, .. } => Err(
            Fault::Move(fault_text(fault, color, from, to, piece)),
        ),
        MoveOutcome::HandOverflow => Err(Fault::Move(no_room_text(color, to))),
    }
}

/// What one move of `turn`, given as text, makes of a position.
pub open spec fn play_one(board: Board, turn: Color, command: Seq<char>) -> Result<Board, Fault> {
    match sfen_move(command) {
        None => Err(Fault::Usi(invalid_move_text(command))),
        Some(SfenMove::DropMove { to, piece }) => outcome_of(
            board.move_outcome(Move { color: turn, from: None, to, piece }),
            turn,
            None,
            to,
            piece,
        ),
        Some(SfenMove::Travel { from, to, promoted }) => outcome_of(
            board.between_outcome(from, to, promoted, turn),
            turn,
            Some(from),
            to,
            Piece::Empty,
        ),
    }
}

/// What the first `count` moves make of a position in which `turn` is to move, the two
/// sides moving in turn: the new position with the side that is to move in it. The first
/// move that cannot be made ends the replay.
pub open spec fn play(board: Board, turn: Color, commands: Seq<Seq<char>>, count: int) -> Result<
    (Board, Color),
    Fault,
>
    decreases count,
{
    if count <= 0 {
        Ok((board, turn))
    } else {
        match play(board, turn, commands, count - 1) {
            Ok((before, mover)) => match play_one(before, mover, commands[count - 1]) {
                Ok(after) => Ok((after, mover.other())),
                Err(fault) => Err(fault),
            },
            Err(fault) => Err(fault),
        }
    }
}

/// Once a move cannot be made, the moves after it change nothing.
pub proof fn lemma_play_stops(
    board: Board,
    turn: Color,
    commands: Seq<Seq<char>>,
    count: int,
    later: int,
)
    requires
        0 <= count <= later,
        play(board, turn, commands, count) is Err,
    ensures
        play(board, turn, commands, later) == play(board, turn, commands, count),
    decreases later,
{
    if later > count {
        lemma_play_stops(board, turn, commands, count, later - 1);
    }
}

/// Makes on `board` the move of `turn` that the text stands for.
fn play_move(board: &mut Board, command: &Vec<char>, turn: Color) -> (r: Result<
    (),
    ShogiUtilError,
>)
    requires
        old(board).wf(),
    ensures
        final(board).wf(),
        match play_one(*old(board), turn, command@) {
            Ok(after) => r is Ok && *final(board) == after,
            Err(fault) => r matches Err(e) && e.fault() == fault,
        },
{
    match SfenMove::read(command) {
        Ok(SfenMove::DropMove { to, piece }) => {
            match board.apply_move(Move { from: None, to, piece, color: turn }) {
                Ok(_) => Ok(()),
                Err(e) => Err(e),
            }
        },
        Ok(SfenMove::Travel { from, to, promoted }) => board.apply_between(
            &from,
            &to,
            promoted,
            turn,
        ),
        Err(e) => Err(e),
    }
}

/// Replays on `board` the moves that stand in `commands` from index `first` on, the side
/// `cur_turn` moving first, and returns the side that is to move after them.
pub fn push_move_commands(
    board: &mut Board,
    commands: &Vec<Vec<char>>,
    first: usize,
    cur_turn: Color,
) -> (r: Result<Color, ShogiUtilError>)
    requires
        old(board).wf(),
        first <= commands@.len(),
    ensures
        final(board).wf(),
        forall|texts: Seq<Seq<char>>|
            holds(commands@, texts) ==> match play(
                *old(board),
                cur_turn,
                #[trigger] texts.skip(first as int),
                commands@.len() - first,
            ) {
                Ok((after, turn)) => r == Ok::<Color, ShogiUtilError>(turn) && *final(board)
                    == after,
                Err(fault) => r matches Err(e) && e.fault() == fault,
            },
{
    let ghost start = *board;
    let ghost moves = Seq::new((commands@.len() - first) as nat, |k: int| commands@[first + k]@);
    let mut turn = cur_turn;
    let mut i: usize = first;
    let mut failed: Option<ShogiUtilError> = None;
    while i < commands.len()
        invariant_except_break
            play(start, cur_turn, moves, i - first) == Ok::<(Board, Color), Fault>((*board, turn)),
            failed is None,
        invariant
            first <= i <= commands@.len(),
            board.wf(),
            moves == Seq::new((commands@.len() - first) as nat, |k: int| commands@[first + k]@),
        ensures
            board.wf(),
            match play(start, cur_turn, moves, commands@.len() - first) {
                Ok((after, last)) => failed is None && *board == after && turn == last,
                Err(fault) => failed matches Some(e) && e.fault() == fault,
            },
        decreases commands@.len() - i,
    {
        assert(moves[i - first] == commands@[i as int]@);
        match play_move(board, &commands[i], turn) {
            Ok(()) => {},
            Err(e) => {
                proof {
                    lemma_play_stops(start, cur_turn, moves, i - first + 1, commands@.len() - first);
                }
                failed = Some(e);
                break ;
            },
        }
        turn = turn.opponent();
        i += 1;
    }
    proof {
        assert forall|texts: Seq<Seq<char>>| holds(commands@, texts) implies #[trigger] texts.skip(
            first as int,
        ) == moves by {
            assert(texts.skip(first as int) =~= moves);
        }
    }
    match failed {
        Some(e) => Err(e),
        None => Ok(turn),
    }
}

/// A command that an engine receives.
pub enum UsiRequest {
    Usi,
    IsReady,
    SetOption { id: String, value: String },
    NewGame,
    Position { board: Board, next_turn: Color },
    Go,
    Quit,
}

/// What a command says, as plain values.
pub enum UsiCommand {
    Usi,
    IsReady,
    SetOption { id: Seq<char>, value: Seq<char> },
    NewGame,
    Position { board: Board, next_turn: Color },
    Go,
    Quit,
}

impl View for UsiRequest {
    type V = UsiCommand;

    open spec fn view(&self) -> UsiCommand {
        match *self {
            UsiRequest::Usi => UsiCommand::Usi,
            UsiRequest::IsReady => UsiCommand::IsReady,
            UsiRequest::SetOption { id, value } => UsiCommand::SetOption {
                id: id@,
                value: value@,
            },
            UsiRequest::NewGame => UsiCommand::NewGame,
            UsiRequest::Position { board, next_turn } => UsiCommand::Position { board, next_turn },
            UsiRequest::Go => UsiCommand::Go,
            UsiRequest::Quit => UsiCommand::Quit,
        }
    }
}

/// The detail of the error for a command whose parts are not what its first word asks for.
pub open spec fn invalid_command_text(text: Seq<char>) -> Seq<char> {
    "Invalid command: "@ + text
}

/// The position from which a game starts, with Black to move, after the given moves.
pub open spec fn read_start_position(start: Board, parts: Seq<Seq<char>>, text: Seq<char>) -> Result<
    UsiCommand,
    Fault,
> {
    if parts.len() != 2 && parts[2] != "moves"@ {
        Err(Fault::Usi(invalid_command_text(text)))
    } else if parts.len() >= 4 {
        match play(start, Color::Black, parts.skip(3), parts.len() - 3) {
            Ok((board, next_turn)) => Ok(UsiCommand::Position { board, next_turn }),
            Err(fault) => Err(fault),
        }
    } else {
        Ok(UsiCommand::Position { board: start, next_turn: Color::Black })
    }
}

/// The position that the parts of a command describe in SFEN notation, after the moves
/// that follow it. The board, the side to move and the hands are the third to fifth part;
/// the sixth is passed over and the seventh is the word `moves`.
pub open spec fn read_sfen_position(parts: Seq<Seq<char>>, text: Seq<char>) -> Result<
    UsiCommand,
    Fault,
> {
    if parts.len() < 5 {
        Err(Fault::Usi(invalid_command_text(text)))
    } else {
        match read_position(parts[2], parts[3], parts[4]) {
            None => Err(
                Fault::Usi(
                    invalid_sfen_text(parts[2] + " "@ + parts[3] + " "@ + parts[4] + " 1"@),
                ),
            ),
            Some((board, turn)) => if parts.len() < 7 || parts[6] != "moves"@ {
                Err(Fault::Usi(invalid_command_text(text)))
            } else {
                match play(board, turn, parts.skip(7), parts.len() - 7) {
                    Ok((after, next_turn)) => Ok(
                        UsiCommand::Position { board: after, next_turn },
                    ),
                    Err(fault) => Err(fault),
                }
            },
        }
    }
}

/// What a line of the protocol asks for. The line is cut at every blank, and its first
/// part, without the white space at its ends, is the command word. `start` is the position
/// from which a game starts.
pub open spec fn read_request(start: Board, text: Seq<char>) -> Result<UsiCommand, Fault> {
    let parts = split_on(text, ' ');
    let word = trimmed(parts[0]);
    if word == "usi"@ {
        Ok(UsiCommand::Usi)
    } else if word == "isready"@ {
        Ok(UsiCommand::IsReady)
    } else if word == "setoption"@ {
        if parts.len() < 2 || parts[1] != "name"@ || parts.len() < 5 {
            Err(Fault::Usi(invalid_command_text(text)))
        } else {
            Ok(UsiCommand::SetOption { id: parts[2], value: parts[4] })
        }
    } else if word == "usinewgame"@ {
        Ok(UsiCommand::NewGame)
    } else if word == "position"@ {
        if parts.len() >= 2 && parts[1] == "sfen"@ {
            read_sfen_position(parts, text)
        } else if parts.len() >= 2 && parts[1] == "startpos"@ {
            read_start_position(start, parts, text)
        } else {
            Err(Fault::Usi("Invalid format: "@ + text))
        }
    } else if word == "go"@ {
        Ok(UsiCommand::Go)
    } else if word == "quit"@ {
        Ok(UsiCommand::Quit)
    } else {
        Err(Fault::Usi("Unsupported option: "@ + text))
    }
}

/// The error that names the whole line after a heading.
fn request_error(heading: &str, text: &Vec<char>) -> (e: ShogiUtilError)
    ensures
        e.fault() == Fault::Usi(heading@ + text@),
{
    let mut detail = String::from_str(heading);
    append_chars(&mut detail, text);
    ShogiUtilError::UsiParseError(detail)
}

impl UsiRequest {
    /// Reads one line of the protocol. A `position` command is answered with the position
    /// that it describes, after the moves that it lists.
    pub fn parse(input: &str) -> (r: Result<UsiRequest, ShogiUtilError>)
        ensures
            forall|start: Board|
                start.is_starting_position() ==> match #[trigger] read_request(start, input@) {
                    Ok(command) => r matches Ok(request) && request@ == command,
                    Err(fault) => r matches Err(e) && e.fault() == fault,
                },
    {
        let text = chars_of(input);
        let command = split(&text, ' ');
        let ghost parts = split_on(input@, ' ');
        proof {
            crate::text::lemma_split_on(input@, ' ');
        }
        let word = trim(&command[0]);
        if spells(&word, "usi") {
            Ok(UsiRequest::Usi)
        } else if spells(&word, "isready") {
            Ok(UsiRequest::IsReady)
        } else if spells(&word, "setoption") {
            if command.len() < 2 || !spells(&command[1], "name") || command.len() < 5 {
                Err(request_error("Invalid command: ", &text))
            } else {
                Ok(
                    UsiRequest::SetOption {
                        id: string_of(&command[2]),
                        value: string_of(&command[4]),
                    },
                )
            }
        } else if spells(&word, "usinewgame") {
            Ok(UsiRequest::NewGame)
        } else if spells(&word, "position") {
            if command.len() >= 2 && spells(&command[1], "sfen") {
                if command.len() < 5 {
                    return Err(request_error("Invalid command: ", &text));
                }
                let (mut board, cur_turn) = match parse_position(
                    &command[2],
                    &command[3],
                    &command[4],
                ) {
                    Some(found) => found,
                    None => {
                        let mut sfen: Vec<char> = Vec::new();
                        let ghost shown = parts[2] + " "@ + parts[3] + " "@ + parts[4] + " 1"@;
                        proof {
                            reveal_strlit(" ");
                            reveal_strlit(" 1");
                        }
                        sfen.append(&mut command[2].clone());
                        sfen.push(' ');
                        sfen.append(&mut command[3].clone());
                        sfen.push(' ');
                        sfen.append(&mut command[4].clone());
                        sfen.push(' ');
                        sfen.push('1');
                        assert(sfen@ =~= shown);
                        return Err(invalid_sfen(&sfen));
                    },
                };
                if command.len() < 7 || !spells(&command[6], "moves") {
                    return Err(request_error("Invalid command: ", &text));
                }
                let ghost before = board;
                match push_move_commands(&mut board, &command, 7, cur_turn) {
                    Ok(next_turn) => {
                        assert(holds(command@, parts));
                        assert(play(before, cur_turn, parts.skip(7), parts.len() - 7) is Ok);
                        Ok(UsiRequest::Position { board, next_turn })
                    },
                    Err(e) => {
                        assert(holds(command@, parts));
                        assert(play(before, cur_turn, parts.skip(7), parts.len() - 7) is Err);
                        Err(e)
                    },
                }
            } else if command.len() >= 2 && spells(&command[1], "startpos") {
                if command.len() != 2 && !spells(&command[2], "moves") {
                    return Err(request_error("Invalid command: ", &text));
                }
                let mut cur_turn = Color::Black;
                let mut board = Board::default();
                let ghost start = board;
                proof {
                    assert forall|other: Board| other.is_starting_position() implies other
                        == start by {
                        crate::board::lemma_starting_position(other, start);
                    }
                }
                if command.len() >= 4 {
                    match push_move_commands(&mut board, &command, 3, cur_turn) {
                        Ok(next_turn) => {
                            assert(holds(command@, parts));
                            assert(play(start, Color::Black, parts.skip(3), parts.len() - 3) is Ok);
                            cur_turn = next_turn;
                        },
                        Err(e) => {
                            assert(holds(command@, parts));
                            assert(play(start, Color::Black, parts.skip(3), parts.len() - 3)
                                is Err);
                            return Err(e);
                        },
                    }
                }
                Ok(UsiRequest::Position { board, next_turn: cur_turn })
            } else {
                Err(request_error("Invalid format: ", &text))
            }
        } else if spells(&word, "go") {
            Ok(UsiRequest::Go)
        } else if spells(&word, "quit") {
            Ok(UsiRequest::Quit)
        } else {
            Err(request_error("Unsupported option: ", &text))
        }
    }
}

/// An answer that an engine gives.
pub enum UsiResponse {
    Id { name: String },
    UsiOk,
    ReadyOk,
    TravelMove { from: Square, to: Square, promoted: bool },
    DropMove { piece: Piece, to: Square },
}

/// A square as the protocol writes it: the file as a digit and the rank as a letter from
/// `a` for rank 1 to `i` for rank 9.
pub open spec fn square_text(sq: Square) -> Seq<char> {
    seq![(sq.file + 48) as char, (sq.rank + 96) as char]
}

/// Appends a square as the protocol writes it.
fn to_sfen_square(sq: &Square, s: &mut String)
    requires
        sq.valid(),
    ensures
        final(s)@ == old(s)@ + square_text(*sq),
{
    let ghost before = s@;
    s.push((sq.file + 48) as char);
    s.push((sq.rank - 1 + 97) as char);
    assert(s@ =~= before + square_text(*sq));
}

impl UsiResponse {
    /// Whether the answer can be written: its squares lie on the board, and a dropped kind
    /// is one that a letter can name.
    pub open spec fn wf(self) -> bool {
        match self {
            UsiResponse::TravelMove { from, to, promoted } => from.valid() && to.valid(),
            UsiResponse::DropMove { piece, to } => to.valid() && piece.has_sfen_letter(),
            _ => true,
        }
    }

    /// The line that the answer is written as.
    pub open spec fn text(self) -> Seq<char> {
        match self {
            UsiResponse::Id { name } => "id name "@ + name@,
            UsiResponse::UsiOk => "usiok"@,
            UsiResponse::ReadyOk => "readyok"@,
            UsiResponse::TravelMove { from, to, promoted } => "bestmove "@ + square_text(from)
                + square_text(to) + (if promoted {
                seq!['+']
            } else {
                Seq::empty()
            }),
            UsiResponse::DropMove { piece, to } => "bestmove "@ + seq![piece.sfen_letter(), '*']
                + square_text(to),
        }
    }

    /// Writes the answer as a line of the protocol.
    pub fn to_string(&self) -> (line: String)
        requires
            self.wf(),
        ensures
            line@ == self.text(),
    {
        match self {
            UsiResponse::Id { name } => String::from_str("id name ").concat(name.as_str()),
            UsiResponse::UsiOk => String::from_str("usiok"),
            UsiResponse::ReadyOk => String::from_str("readyok"),
            UsiResponse::TravelMove { from, to, promoted } => {
                let mut response = String::from_str("bestmove ");
                to_sfen_square(from, &mut response);
                to_sfen_square(to, &mut response);
                if *promoted {
                    response.push('+');
                }
                assert(response@ =~= self.text());
                response
            },
            UsiResponse::DropMove { piece, to } => {
                let mut response = String::from_str("bestmove ");
                response.push(piece.to_sfen());
                response.push('*');
                to_sfen_square(to, &mut response);
                assert(response@ =~= self.text());
                response
            },
        }
    }
}

/// The error for a text that stands for no move.
fn invalid_move(text: &Vec<char>) -> (e: ShogiUtilError)
    ensures
        e.fault() == Fault::Usi(invalid_move_text(text@)),
{
    let mut detail = String::from_str("Invalid sfen move: '");
    append_chars(&mut detail, text);
    detail.append("'");
    ShogiUtilError::UsiParseError(detail)
}

} // verus!
