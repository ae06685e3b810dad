//! Shogi position representation and candidate-move generation.

pub mod board;
pub mod error;
pub mod model;
pub mod parser;
pub mod piece;
pub mod text;
pub mod usi;

pub use board::{Bitboard, Board, MoveResult};
pub use error::ShogiUtilError;
pub use model::{Color, LegalMove, Move, Square};
pub use parser::{parse_csa_string, ParsedCsa};
pub use piece::Piece;
pub use usi::{SfenBoard, SfenMove, UsiRequest, UsiResponse};
