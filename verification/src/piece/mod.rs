//! The piece catalog: kinds, promotion, hand limits and notation names.

pub mod moves;

use crate::board::bitboard::Bitboard;
use crate::error::ShogiUtilError;
use crate::model::Square;
use crate::text::{append_chars, chars_of, spells};
use moves::{piece_moves, piece_targets};
use vstd::prelude::*;

verus! {

/// A piece kind. `Empty` stands for "no piece" and is never placed on a board.
#[derive(Debug, Eq, PartialEq, Copy, Clone, Structural)]
pub enum Piece {
    Empty,
    Pawn,
    Lance,
    Knight,
    Silver,
    Gold,
    Bishop,
    Rook,
    King,
    ProPawn,
    ProLance,
    ProKnight,
    ProSilver,
    ProBishop,
    ProRook,
}

/// The kind that a two-letter name of a game record stands for.
pub open spec fn csa_kind(name: Seq<char>) -> Option<Piece> {
    if name == "* "@ {
        Some(Piece::Empty)
    } else if name == "FU"@ {
        Some(Piece::Pawn)
    } else if name == "KY"@ {
        Some(Piece::Lance)
    } else if name == "KE"@ {
        Some(Piece::Knight)
    } else if name == "GI"@ {
        Some(Piece::Silver)
    } else if name == "KI"@ {
        Some(Piece::Gold)
    } else if name == "KA"@ {
        Some(Piece::Bishop)
    } else if name == "HI"@ {
        Some(Piece::Rook)
    } else if name == "OU"@ {
        Some(Piece::King)
    } else if name == "TO"@ {
        Some(Piece::ProPawn)
    } else if name == "NY"@ {
        Some(Piece::ProLance)
    } else if name == "NK"@ {
        Some(Piece::ProKnight)
    } else if name == "NG"@ {
        Some(Piece::ProSilver)
    } else if name == "UM"@ {
        Some(Piece::ProBishop)
    } else if name == "RY"@ {
        Some(Piece::ProRook)
    } else {
        None
    }
}

/// What reading a kind from a game record gives: the kind, or the detail of the error.
pub open spec fn read_kind(name: Seq<char>) -> Result<Piece, Seq<char>> {
    match csa_kind(name) {
        Some(piece) => Ok(piece),
        None => Err("Invalid piece type: "@ + name),
    }
}

impl core::str::FromStr for Piece {
    type Err = ShogiUtilError;

    /// Reads a kind from its two-letter name in a game record: one of the fifteen names
    /// gives its kind, and any other text gives the error that names it.
    fn from_str(s: &str) -> (r: Result<Self, Self::Err>)
        ensures
            match read_kind(s@) {
                Ok(piece) => r == Ok::<Piece, ShogiUtilError>(piece),
                Err(detail) => r matches Err(e) && e is CsaParseError && e.detail() == detail,
            },
    {
        Piece::from_str(s)
    }
}

impl Piece {
    /// Reads a kind from its two-letter name in a game record.
    pub fn from_str(s: &str) -> (r: Result<Piece, ShogiUtilError>)
        ensures
            match read_kind(s@) {
                Ok(piece) => r == Ok::<Piece, ShogiUtilError>(piece),
                Err(detail) => r matches Err(e) && e is CsaParseError && e.detail() == detail,
            },
    {
        let name = chars_of(s);
        if spells(&name, "* ") {
            Ok(Piece::Empty)
        } else if spells(&name, "FU") {
            Ok(Piece::Pawn)
        } else if spells(&name, "KY") {
            Ok(Piece::Lance)
        } else if spells(&name, "KE") {
            Ok(Piece::Knight)
        } else if spells(&name, "GI") {
            Ok(Piece::Silver)
        } else if spells(&name, "KI") {
            Ok(Piece::Gold)
        } else if spells(&name, "KA") {
            Ok(Piece::Bishop)
        } else if spells(&name, "HI") {
            Ok(Piece::Rook)
        } else if spells(&name, "OU") {
            Ok(Piece::King)
        } else if spells(&name, "TO") {
            Ok(Piece::ProPawn)
        } else if spells(&name, "NY") {
            Ok(Piece::ProLance)
        } else if spells(&name, "NK") {
            Ok(Piece::ProKnight)
        } else if spells(&name, "NG") {
            Ok(Piece::ProSilver)
        } else if spells(&name, "UM") {
            Ok(Piece::ProBishop)
        } else if spells(&name, "RY") {
            Ok(Piece::ProRook)
        } else {
            let mut text = String::from_str("Invalid piece type: ");
            append_chars(&mut text, &name);
            Err(ShogiUtilError::CsaParseError(text))
        }
    }

    /// The number of the kind, which is also its index in per-kind tables.
    pub open spec fn index(self) -> int {
        match self {
            Piece::Empty => 0,
            Piece::Pawn => 1,
            Piece::Lance => 2,
            Piece::Knight => 3,
            Piece::Silver => 4,
            Piece::Gold => 5,
            Piece::Bishop => 6,
            Piece::Rook => 7,
            Piece::King => 8,
            Piece::ProPawn => 9,
            Piece::ProLance => 10,
            Piece::ProKnight => 11,
            Piece::ProSilver => 12,
            Piece::ProBishop => 13,
            Piece::ProRook => 14,
        }
    }

    /// The kind with the given number; numbers past the last kind give the last kind.
    pub open spec fn from_index(i: int) -> Piece {
        if i == 0 {
            Piece::Empty
        } else if i == 1 {
            Piece::Pawn
        } else if i == 2 {
            Piece::Lance
        } else if i == 3 {
            Piece::Knight
        } else if i == 4 {
            Piece::Silver
        } else if i == 5 {
            Piece::Gold
        } else if i == 6 {
            Piece::Bishop
        } else if i == 7 {
            Piece::Rook
        } else if i == 8 {
            Piece::King
        } else if i == 9 {
            Piece::ProPawn
        } else if i == 10 {
            Piece::ProLance
        } else if i == 11 {
            Piece::ProKnight
        } else if i == 12 {
            Piece::ProSilver
        } else if i == 13 {
            Piece::ProBishop
        } else {
            Piece::ProRook
        }
    }

    /// What the kind becomes when it promotes, if it can.
    pub open spec fn promoted_form(self) -> Option<Piece> {
        match self {
            Piece::Pawn => Some(Piece::ProPawn),
            Piece::Lance => Some(Piece::ProLance),
            Piece::Knight => Some(Piece::ProKnight),
            Piece::Silver => Some(Piece::ProSilver),
            Piece::Bishop => Some(Piece::ProBishop),
            Piece::Rook => Some(Piece::ProRook),
            _ => None,
        }
    }

    /// What a promoted kind was before it promoted.
    pub open spec fn unpromoted_form(self) -> Option<Piece> {
        match self {
            Piece::ProPawn => Some(Piece::Pawn),
            Piece::ProLance => Some(Piece::Lance),
            Piece::ProKnight => Some(Piece::Knight),
            Piece::ProSilver => Some(Piece::Silver),
            Piece::ProBishop => Some(Piece::Bishop),
            Piece::ProRook => Some(Piece::Rook),
            _ => None,
        }
    }

    /// Whether the kind is one of the six promoted kinds.
    pub open spec fn promoted(self) -> bool {
        self.unpromoted_form() is Some
    }

    /// The kind under which a piece of this kind is kept in hand.
    pub open spec fn in_hand_form(self) -> Piece {
        match self.unpromoted_form() {
            Some(base) => base,
            None => self,
        }
    }

    /// How many pieces of the kind one player may hold in hand.
    pub open spec fn hand_limit(self) -> nat {
        match self {
            Piece::Pawn => 18,
            Piece::Lance => 4,
            Piece::Knight => 4,
            Piece::Silver => 4,
            Piece::Gold => 4,
            Piece::Bishop => 2,
            Piece::Rook => 2,
            _ => 0,
        }
    }

    /// The two-letter name of the kind in game records.
    pub open spec fn csa_name(self) -> Seq<char> {
        match self {
            Piece::Empty => "* "@,
            Piece::Pawn => "FU"@,
            Piece::Lance => "KY"@,
            Piece::Knight => "KE"@,
            Piece::Silver => "GI"@,
            Piece::Gold => "KI"@,
            Piece::Bishop => "KA"@,
            Piece::Rook => "HI"@,
            Piece::King => "OU"@,
            Piece::ProPawn => "TO"@,
            Piece::ProLance => "NY"@,
            Piece::ProKnight => "NK"@,
            Piece::ProSilver => "NG"@,
            Piece::ProBishop => "UM"@,
            Piece::ProRook => "RY"@,
        }
    }

    /// Whether the kind has a letter in position notation: the eight unpromoted kinds.
    pub open spec fn has_sfen_letter(self) -> bool {
        1 <= self.index() <= 8
    }

    /// The upper-case letter of an unpromoted kind in position notation.
    pub open spec fn sfen_letter(self) -> char {
        match self {
            Piece::Pawn => 'P',
            Piece::Lance => 'L',
            Piece::Knight => 'N',
            Piece::Silver => 'S',
            Piece::Gold => 'G',
            Piece::Bishop => 'B',
            Piece::Rook => 'R',
            _ => 'K',
        }
    }

    /// The kind with number `b`.
    pub fn from(b: u8) -> (piece: Piece)
        requires
            b < 15,
        ensures
            piece == Piece::from_index(b as int),
            piece.index() == b,
    {
        match b {
            0 => Piece::Empty,
            1 => Piece::Pawn,
            2 => Piece::Lance,
            3 => Piece::Knight,
            4 => Piece::Silver,
            5 => Piece::Gold,
            6 => Piece::Bishop,
            7 => Piece::Rook,
            8 => Piece::King,
            9 => Piece::ProPawn,
            10 => Piece::ProLance,
            11 => Piece::ProKnight,
            12 => Piece::ProSilver,
            13 => Piece::ProBishop,
            _ => Piece::ProRook,
        }
    }

/// The number of the kind.
    pub fn to_byte(&self) -> (b: u8)
        ensures
            b == self.index(),
            b < 15,
    {
        match self {
            Piece::Empty => 0,
            Piece::Pawn => 1,
            Piece::Lance => 2,
            Piece::Knight => 3,
            Piece::Silver => 4,
            Piece::Gold => 5,
            Piece::Bishop => 6,
            Piece::Rook => 7,
            Piece::King => 8,
            Piece::ProPawn => 9,
            Piece::ProLance => 10,
            Piece::ProKnight => 11,
            Piece::ProSilver => 12,
            Piece::ProBishop => 13,
            Piece::ProRook => 14,
        }
    }

/// The index of the kind in per-kind tables.
    pub fn to_usize(&self) -> (i: usize)
        ensures
            i == self.index(),
            i < 15,
    {
        self.to_byte() as usize
    }

/// What the kind becomes when it promotes, if it can.
    pub fn promote(&self) -> (p: Option<Piece>)
        ensures
            p == self.promoted_form(),
    {
        match self {
            Piece::Pawn => Some(Piece::ProPawn),
            Piece::Lance => Some(Piece::ProLance),
            Piece::Knight => Some(Piece::ProKnight),
            Piece::Silver => Some(Piece::ProSilver),
            Piece::Bishop => Some(Piece::ProBishop),
            Piece::Rook => Some(Piece::ProRook),
            _ => None,
        }
    }

/// The two-letter name of the kind in game records.
    pub fn to_csa(&self) -> (name: String)
        ensures
            name@ == self.csa_name(),
    {
        match self {
            Piece::Empty => String::from_str("* "),
            Piece::Pawn => String::from_str("FU"),
            Piece::Lance => String::from_str("KY"),
            Piece::Knight => String::from_str("KE"),
            Piece::Silver => String::from_str("GI"),
            Piece::Gold => String::from_str("KI"),
            Piece::Bishop => String::from_str("KA"),
            Piece::Rook => String::from_str("HI"),
            Piece::King => String::from_str("OU"),
            Piece::ProPawn => String::from_str("TO"),
            Piece::ProLance => String::from_str("NY"),
            Piece::ProKnight => String::from_str("NK"),
            Piece::ProSilver => String::from_str("NG"),
            Piece::ProBishop => String::from_str("UM"),
            Piece::ProRook => String::from_str("RY"),
        }
    }

/// The upper-case letter of an unpromoted kind in position notation.
    pub fn to_sfen(&self) -> (letter: char)
        requires
            self.has_sfen_letter(),
        ensures
            letter == self.sfen_letter(),
    {
        match self {
            Piece::Pawn => 'P',
            Piece::Lance => 'L',
            Piece::Knight => 'N',
            Piece::Silver => 'S',
            Piece::Gold => 'G',
            Piece::Bishop => 'B',
            Piece::Rook => 'R',
            _ => 'K',
        }
    }

/// What a promoted kind was before it promoted.
    pub fn revert_promotion(&self) -> (p: Option<Piece>)
        ensures
            p == self.unpromoted_form(),
    {
        match self {
            Piece::ProPawn => Some(Piece::Pawn),
            Piece::ProLance => Some(Piece::Lance),
            Piece::ProKnight => Some(Piece::Knight),
            Piece::ProSilver => Some(Piece::Silver),
            Piece::ProBishop => Some(Piece::Bishop),
            Piece::ProRook => Some(Piece::Rook),
            _ => None,
        }
    }

/// Whether `promoted` is what this kind becomes when it promotes.
    pub fn is_valid_promotion(&self, promoted: &Piece) -> (b: bool)
        ensures
            b <==> self.promoted_form() == Some(*promoted),
    {
        if let Some(valid_promotion) = self.promote() {
            valid_promotion == *promoted
        } else {
            false
        }
    }

/// Whether the kind is one of the six promoted kinds.
    pub fn is_promoted(&self) -> (b: bool)
        ensures
            b == self.promoted(),
    {
        *self == Piece::ProPawn || *self == Piece::ProLance || *self == Piece::ProKnight
            || *self == Piece::ProSilver || *self == Piece::ProBishop || *self
            == Piece::ProRook
    }

    /// Appends to `moves` the squares that a piece of this kind on `from` can move to, for
    /// the side that moves towards rank 1. `occupied[0]` holds the squares of that side,
    /// `occupied[1]` those of its opponent.
    pub fn generate_moves(&self, from: &Square, occupied: &[Bitboard; 2], moves: &mut Vec<Square>)
        requires
            from.valid(),
        ensures
            final(moves)@ == old(moves)@ + piece_targets(*self, *from, occupied[0], occupied[1]),
    {
        piece_moves(*self, from, occupied, moves)
    }

/// How many pieces of the kind one player may hold in hand.
    pub fn max_piece_in_hand(&self) -> (n: usize)
        ensures
            n == self.hand_limit(),
    {
        match self {
            Piece::Pawn => 18,
            Piece::Lance => 4,
            Piece::Knight => 4,
            Piece::Silver => 4,
            Piece::Gold => 4,
            Piece::Bishop => 2,
            Piece::Rook => 2,
            _ => 0,
        }
    }
}

/// Promotion and its reversal undo each other, the numbering of kinds is one to one, and only
/// unpromoted kinds may be held in hand.
pub proof fn lemma_piece_catalog(p: Piece, q: Piece)
    ensures
        0 <= p.index() < 15,
        Piece::from_index(p.index()) == p,
        p.index() == q.index() ==> p == q,
        p.promoted_form() == Some(q) <==> q.unpromoted_form() == Some(p),
        p.promoted_form() is Some ==> !p.promoted(),
        !p.in_hand_form().promoted(),
        p.promoted() ==> p.hand_limit() == 0,
        p.in_hand_form().in_hand_form() == p.in_hand_form(),
{
}

} // verus!
