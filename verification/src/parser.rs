//! Reading game records in the CSA notation: the players' names, the moves and the result.

use crate::error::ShogiUtilError;
use crate::model::{csa_color, read_color, read_square, Color, Move, Square};
use crate::piece::{read_kind, Piece};
use crate::text::{
    append_chars, append_decimal, chars_of, decimal, slice_of, spells, split, split_on, string_of,
    trim, trimmed,
};
use vstd::prelude::*;

verus! {

/// What a game record holds.
pub struct ParsedCsa {
    /// The names of the players, Black first, as far as the record gives them.
    pub names: [Option<String>; 2],
    /// The winner, where the record says how the game ended.
    pub winner: Option<Color>,
    /// The moves in the order in which they were played.
    pub moves: Vec<Move>,
}

/// What has been read of a game record.
pub struct CsaRecord {
    /// The name of Black, once a line has given it.
    pub black: Option<Seq<char>>,
    /// The name of White, once a line has given it.
    pub white: Option<Seq<char>>,
    /// The side to move, once the record has said who starts.
    pub turn: Option<Color>,
    /// The moves read so far.
    pub moves: Seq<Move>,
    /// The side that lost, once the record has said how the game ended.
    pub loser: Option<Color>,
}

/// The characters of a name, where there is one.
pub open spec fn name_of(name: Option<String>) -> Option<Seq<char>> {
    match name {
        Some(text) => Some(text@),
        None => None,
    }
}

impl ParsedCsa {
    /// Whether this value holds what the record says.
    pub open spec fn agrees_with(self, record: CsaRecord) -> bool {
        &&& name_of(self.names[0]) == record.black
        &&& name_of(self.names[1]) == record.white
        &&& self.moves@ == record.moves
        &&& self.winner == match record.loser {
            Some(loser) => Some(loser.other()),
            None => None,
        }
    }
}

/// What reading the origin of a move gives: `00` stands for a drop, which has no origin.
pub open spec fn read_origin(text: Seq<char>) -> Result<Option<Square>, Seq<char>> {
    if text == "00"@ {
        Ok(None)
    } else {
        match read_square(text) {
            Ok(sq) => Ok(Some(sq)),
            Err(detail) => Err(detail),
        }
    }
}

/// The detail of the error for a move line that ends too early.
pub open spec fn incomplete_move(line: Seq<char>) -> Seq<char> {
    "Incomplete move: "@ + line
}

/// What reading a move line gives: a sign for the colour, two digits for the origin or
/// `00` for a drop, two digits for the destination, and the two-letter name of the kind.
/// What follows these seven characters is not looked at.
pub open spec fn read_move(line: Seq<char>) -> Result<Move, Seq<char>> {
    if line.len() < 1 {
        Err(incomplete_move(line))
    } else {
        match read_color(line.subrange(0, 1)) {
            Err(detail) => Err(detail),
            Ok(color) => if line.len() < 3 {
                Err(incomplete_move(line))
            } else {
                match read_origin(line.subrange(1, 3)) {
                    Err(detail) => Err(detail),
                    Ok(from) => if line.len() < 5 {
                        Err(incomplete_move(line))
                    } else {
                        match read_origin(line.subrange(3, 5)) {
                            Err(detail) => Err(detail),
                            Ok(None) => Err("Invalid destination: "@ + line),
                            Ok(Some(to)) => if line.len() < 7 {
                                Err(incomplete_move(line))
                            } else {
                                match read_kind(line.subrange(5, 7)) {
                                    Err(detail) => Err(detail),
                                    Ok(piece) => Ok(Move { color, from, to, piece }),
                                }
                            },
                        }
                    },
                }
            },
        }
    }
}

/// The detail of the error for a move or a result that comes before the record has said
/// who starts.
pub open spec fn no_starting_player() -> Seq<char> {
    "Starting player is not defined"@
}

/// What one line adds to what has been read. `line` is the line without the white space
/// at its ends, and `number` its number in the record, counted from 1. The first character
/// decides: comments, the version, the game information, the time and the position are
/// passed over; `N` gives a name; a sign alone says who starts, and a sign with more is a
/// move; `%` ends the game.
pub open spec fn read_line(record: CsaRecord, line: Seq<char>, number: nat) -> Result<
    CsaRecord,
    Seq<char>,
> {
    if line.len() == 0 {
        Ok(record)
    } else if line[0] == '\'' || line[0] == 'V' || line[0] == '$' || line[0] == 'T' || line[0]
        == 'P' {
        Ok(record)
    } else if line[0] == 'N' {
        if line.len() >= 2 && line[1] == '+' {
            Ok(CsaRecord { black: Some(line.skip(2)), ..record })
        } else if line.len() >= 2 && line[1] == '-' {
            Ok(CsaRecord { white: Some(line.skip(2)), ..record })
        } else {
            Err("Unknown symbol "@ + decimal(number) + ": "@ + line)
        }
    } else if line[0] == '+' || line[0] == '-' {
        if line.len() == 1 {
            if record.turn is Some {
                Err("This file has multiple starting information."@)
            } else {
                Ok(CsaRecord { turn: csa_color(line), ..record })
            }
        } else {
            match read_move(line) {
                Err(detail) => Err(detail),
                Ok(mv) => match record.turn {
                    None => Err(no_starting_player()),
                    Some(turn) => Ok(
                        CsaRecord {
                            moves: record.moves.push(mv),
                            turn: Some(turn.other()),
                            ..record
                        },
                    ),
                },
            }
        }
    } else if line[0] == '%' {
        if line == "%TORYO"@ || line == "%TIME_UP"@ || line == "%ILLEGAL_MOVE"@ {
            match record.turn {
                None => Err(no_starting_player()),
                Some(turn) => Ok(CsaRecord { loser: Some(turn), ..record }),
            }
        } else if line == "%+ILLEGAL_ACTION"@ {
            Ok(CsaRecord { loser: Some(Color::Black), ..record })
        } else if line == "%-ILLEGAL_ACTION"@ {
            Ok(CsaRecord { loser: Some(Color::White), ..record })
        } else {
            Err(line + " is not supported."@)
        }
    } else if line[0] == '/' {
        Err("Separator is not supported."@)
    } else {
        Err("Invalid line "@ + decimal(number) + ": "@ + line)
    }
}

/// What the first `count` lines give, read in order. The first line that cannot be read
/// ends the reading.
pub open spec fn read_lines(lines: Seq<Seq<char>>, count: int) -> Result<CsaRecord, Seq<char>>
    decreases count,
{
    if count <= 0 {
        Ok(CsaRecord { black: None, white: None, turn: None, moves: Seq::empty(), loser: None })
    } else {
        match read_lines(lines, count - 1) {
            Ok(record) => read_line(record, trimmed(lines[count - 1]), count as nat),
            Err(detail) => Err(detail),
        }
    }
}

/// What a game record gives: its lines, cut at the line feeds, read in order.
pub open spec fn read_record(text: Seq<char>) -> Result<CsaRecord, Seq<char>> {
    read_lines(split_on(text, '\n'), split_on(text, '\n').len() as int)
}

/// Once a line cannot be read, the lines after it change nothing.
pub proof fn lemma_read_lines_stops(lines: Seq<Seq<char>>, count: int, later: int)
    requires
        0 <= count <= later,
        read_lines(lines, count) is Err,
    ensures
        read_lines(lines, later) == read_lines(lines, count),
    decreases later,
{
    if later > count {
        lemma_read_lines_stops(lines, count, later - 1);
    }
}

/// The error for a move or a result that comes before the record has said who starts.
fn ensure_initialized(color: Option<Color>) -> (r: Result<Color, ShogiUtilError>)
    ensures
        match color {
            Some(c) => r == Ok::<Color, ShogiUtilError>(c),
            None => r matches Err(e) && e is CsaParseError && e.detail() == no_starting_player(),
        },
{
    match color {
        Some(c) => Ok(c),
        None => Err(
            ShogiUtilError::CsaParseError(String::from_str("Starting player is not defined")),
        ),
    }
}

/// The error for a move line that ends too early.
fn incomplete(line: &Vec<char>) -> (e: ShogiUtilError)
    ensures
        e is CsaParseError,
        e.detail() == incomplete_move(line@),
{
    let mut text = String::from_str("Incomplete move: ");
    append_chars(&mut text, line);
    ShogiUtilError::CsaParseError(text)
}

/// Reads the origin or the destination of a move; `00` gives none.
pub fn parse_square(square_str: &str) -> (r: Result<Option<Square>, ShogiUtilError>)
    ensures
        match read_origin(square_str@) {
            Ok(sq) => r == Ok::<Option<Square>, ShogiUtilError>(sq) && (sq matches Some(s)
                ==> s.valid()),
            Err(detail) => r matches Err(e) && e is CsaParseError && e.detail() == detail,
        },
{
    let chars = chars_of(square_str);
    if spells(&chars, "00") {
        Ok(None)
    } else {
        match Square::from_str(square_str) {
            Ok(sq) => Ok(Some(sq)),
            Err(e) => Err(e),
        }
    }
}

/// Reads one move line.
pub fn parse_move_str(move_str: &str) -> (r: Result<Move, ShogiUtilError>)
    ensures
        match read_move(move_str@) {
            Ok(mv) => r == Ok::<Move, ShogiUtilError>(mv) && mv.to.valid() && (
            mv.from matches Some(from) ==> from.valid()),
            Err(detail) => r matches Err(e) && e is CsaParseError && e.detail() == detail,
        },
{
    let line = chars_of(move_str);
    if line.len() < 1 {
        return Err(incomplete(&line));
    }
    let sign = string_of(&slice_of(&line, 0, 1));
    let color = match Color::from_str(sign.as_str()) {
        Ok(color) => color,
        Err(e) => {
            return Err(e);
        },
    };
    if line.len() < 3 {
        return Err(incomplete(&line));
    }
    let origin = string_of(&slice_of(&line, 1, 3));
    let from = match parse_square(origin.as_str()) {
        Ok(from) => from,
        Err(e) => {
            return Err(e);
        },
    };
    if line.len() < 5 {
        return Err(incomplete(&line));
    }
    let target = string_of(&slice_of(&line, 3, 5));
    let to = match parse_square(target.as_str()) {
        Ok(Some(to)) => to,
        Ok(None) => {
            let mut text = String::from_str("Invalid destination: ");
            append_chars(&mut text, &line);
            return Err(ShogiUtilError::CsaParseError(text));
        },
        Err(e) => {
            return Err(e);
        },
    };
    if line.len() < 7 {
        return Err(incomplete(&line));
    }
    let name = string_of(&slice_of(&line, 5, 7));
    let piece = match Piece::from_str(name.as_str()) {
        Ok(piece) => piece,
        Err(e) => {
            return Err(e);
        },
    };
    Ok(Move { color, from, to, piece })
}

/// The error that names a line by its number and its text.
fn line_error(heading: &str, number: usize, line: &Vec<char>) -> (e: ShogiUtilError)
    ensures
        e is CsaParseError,
        e.detail() == heading@ + decimal(number as nat) + ": "@ + line@,
{
    let mut text = String::from_str(heading);
    append_decimal(&mut text, number);
    text.append(": ");
    append_chars(&mut text, line);
    ShogiUtilError::CsaParseError(text)
}

/// Reads a game record.
pub fn parse_csa_string(csa_str: &str) -> (r: Result<ParsedCsa, ShogiUtilError>)
    ensures
        match read_record(csa_str@) {
            Ok(record) => r matches Ok(parsed) && parsed.agrees_with(record),
            Err(detail) => r matches Err(e) && e is CsaParseError && e.detail() == detail,
        },
{
    let text = chars_of(csa_str);
    let lines = split(&text, '\n');
    let ghost all = split_on(csa_str@, '\n');
    let mut black: Option<String> = None;
    let mut white: Option<String> = None;
    let mut current_turn: Option<Color> = None;
    let mut moves: Vec<Move> = Vec::new();
    let mut loser: Option<Color> = None;
    let mut i: usize = 0;
    while i < lines.len()
        invariant
            i <= lines@.len(),
            all == split_on(csa_str@, '\n'),
            lines@.len() == all.len(),
            forall|n: int| 0 <= n < lines@.len() ==> (#[trigger] lines@[n])@ == all[n],
            read_lines(all, i as int) == Ok::<CsaRecord, Seq<char>>(
                CsaRecord {
                    black: name_of(black),
                    white: name_of(white),
                    turn: current_turn,
                    moves: moves@,
                    loser,
                },
            ),
        ensures
            i <= lines@.len(),
            match read_lines(all, i as int) {
                Ok(record) => i == lines@.len() && record == (CsaRecord {
                    black: name_of(black),
                    white: name_of(white),
                    turn: current_turn,
                    moves: moves@,
                    loser,
                }),
                Err(detail) => false,
            },
        decreases lines@.len() - i,
    {
        let line = trim(&lines[i]);
        let ghost record = CsaRecord {
            black: name_of(black),
            white: name_of(white),
            turn: current_turn,
            moves: moves@,
            loser,
        };
        let ghost number = (i + 1) as nat;
        assert(line@ == trimmed(all[i as int]));
        assert(read_lines(all, i + 1) == read_line(record, line@, number));
        proof {
            if read_line(record, line@, number) is Err {
                lemma_read_lines_stops(all, i + 1, all.len() as int);
            }
        }
        if line.len() == 0 {
        } else {
            let first = line[0];
            if first == '\'' || first == 'V' || first == '$' || first == 'T' || first == 'P' {
            } else if first == 'N' {
                if line.len() >= 2 && line[1] == '+' {
                    let name = slice_of(&line, 2, line.len());
                    assert(name@ =~= line@.skip(2));
                    black = Some(string_of(&name));
                } else if line.len() >= 2 && line[1] == '-' {
                    let name = slice_of(&line, 2, line.len());
                    assert(name@ =~= line@.skip(2));
                    white = Some(string_of(&name));
                } else {
                    return Err(line_error("Unknown symbol ", i + 1, &line));
                }
            } else if first == '+' || first == '-' {
                if line.len() == 1 {
                    if current_turn.is_some() {
                        return Err(
                            ShogiUtilError::CsaParseError(
                                String::from_str("This file has multiple starting information."),
                            ),
                        );
                    }
                    proof {
                        assert(line@ =~= seq![first]);
                    }
                    current_turn = Some(
                        if first == '+' {
                            Color::Black
                        } else {
                            Color::White
                        },
                    );
                } else {
                    let whole = string_of(&line);
                    let mv = match parse_move_str(whole.as_str()) {
                        Ok(mv) => mv,
                        Err(e) => {
                            return Err(e);
                        },
                    };
                    let current = match ensure_initialized(current_turn) {
                        Ok(current) => current,
                        Err(e) => {
                            return Err(e);
                        },
                    };
                    moves.push(mv);
                    current_turn = Some(current.opponent());
                }
            } else if first == '%' {
                if spells(&line, "%TORYO") || spells(&line, "%TIME_UP") || spells(
                    &line,
                    "%ILLEGAL_MOVE",
                ) {
                    match ensure_initialized(current_turn) {
                        Ok(current) => {
                            loser = Some(current);
                        },
                        Err(e) => {
                            return Err(e);
                        },
                    }
                } else if spells(&line, "%+ILLEGAL_ACTION") {
                    loser = Some(Color::Black);
                } else if spells(&line, "%-ILLEGAL_ACTION") {
                    loser = Some(Color::White);
                } else {
                    let mut text = string_of(&line);
                    text.append(" is not supported.");
                    return Err(ShogiUtilError::CsaParseError(text));
                }
            } else if first == '/' {
                return Err(
                    ShogiUtilError::CsaParseError(String::from_str("Separator is not supported.")),
                );
            } else {
                return Err(line_error("Invalid line ", i + 1, &line));
            }
        }
        i += 1;
    }
    let winner = match loser {
        Some(c) => Some(c.opponent()),
        None => None,
    };
    Ok(ParsedCsa { winner, names: [black, white], moves })
}

} // verus!
