//! The error type shared by the whole library.

use vstd::prelude::*;

verus! {

/// An I/O failure reported by the operating system. The library never looks inside one.
#[verifier::external_type_specification]
#[verifier::external_body]
pub struct ExIoError(std::io::Error);

/// What an error says, as plain values: its kind and the detail it carries.
pub enum Fault {
    Io,
    Csa(Seq<char>),
    Usi(Seq<char>),
    Move(Seq<char>),
}

/// What can go wrong in the library.
#[derive(Debug)]
pub enum ShogiUtilError {
    /// Reading or writing a record failed.
    IOError(std::io::Error),
    /// A game record is not in the expected notation.
    CsaParseError(String),
    /// An engine-protocol command or position is not in the expected notation.
    UsiParseError(String),
    /// A move cannot be applied to the position it was offered to.
    InvalidMove(String),
}

impl ShogiUtilError {
    /// The kind of the error with its detail.
    pub open spec fn fault(self) -> Fault {
        match self {
            ShogiUtilError::IOError(_) => Fault::Io,
            ShogiUtilError::CsaParseError(detail) => Fault::Csa(detail@),
            ShogiUtilError::UsiParseError(detail) => Fault::Usi(detail@),
            ShogiUtilError::InvalidMove(detail) => Fault::Move(detail@),
        }
    }

    /// The detail that the error carries; an I/O failure carries none.
    pub open spec fn detail(self) -> Seq<char> {
        match self {
            ShogiUtilError::IOError(_) => Seq::empty(),
            ShogiUtilError::CsaParseError(detail) => detail@,
            ShogiUtilError::UsiParseError(detail) => detail@,
            ShogiUtilError::InvalidMove(detail) => detail@,
        }
    }

    /// The text shown for this error: a fixed heading, then the detail it carries.
    pub fn message(&self) -> (text: String)
        ensures
            text@ == match *self {
                ShogiUtilError::IOError(_) => "io error"@,
                ShogiUtilError::CsaParseError(detail) => "CSA parse error: "@ + detail@,
                ShogiUtilError::UsiParseError(detail) => "USI parse error: "@ + detail@,
                ShogiUtilError::InvalidMove(detail) => "Invalid move: "@ + detail@,
            },
    {
        match self {
            ShogiUtilError::IOError(_) => String::from_str("io error"),
            ShogiUtilError::CsaParseError(detail) => String::from_str("CSA parse error: ").concat(
                detail.as_str(),
            ),
            ShogiUtilError::UsiParseError(detail) => String::from_str("USI parse error: ").concat(
                detail.as_str(),
            ),
            ShogiUtilError::InvalidMove(detail) => String::from_str("Invalid move: ").concat(
                detail.as_str(),
            ),
        }
    }
}

} // verus!
