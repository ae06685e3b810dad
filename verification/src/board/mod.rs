//! The position: piece placement, occupancy and hands, and the protocol that changes them.

pub mod bitboard;
pub mod bits;
pub mod legal_move;

use crate::error::ShogiUtilError;
use crate::model::{lemma_square_pos, Color, LegalMove, Move, Square};
use crate::piece::{lemma_piece_catalog, Piece};
use crate::text::{append_square, color_name, color_str, piece_name, piece_str, square_name};
use bitboard::{lemma_same_members, lemma_set_algebra, lemma_wf_iff, lemma_with_without};
use bits::lemma_single_bit;
use vstd::array::{spec_array_fill_for_copy_type, spec_array_update};
use vstd::prelude::*;

pub use bitboard::Bitboard;

verus! {

/// What applying a move reports.
#[derive(Debug)]
pub struct MoveResult {
    /// Whether the piece promoted on this move.
    pub promoted: bool,
}

/// The set that holds the one square on `file` and `rank`.
pub fn bit(file: u8, rank: u8) -> (b: u128)
    requires
        1 <= file <= 9,
        1 <= rank <= 9,
    ensures
        Bitboard(b)@ == set![Square { file, rank }.pos()],
        Bitboard(b).wf(),
{
    let pos = (rank - 1) * 9 + 9 - file;
    let b = 1u128 << pos;
    proof {
        assert forall|i: int| Bitboard(b)@.contains(i) <==> i == pos by {
            if 0 <= i < 128 {
                lemma_single_bit(pos as u32, i as u32);
            }
        }
        assert(Bitboard(b)@ =~= set![Square { file, rank }.pos()]);
        lemma_wf_iff(Bitboard(b));
    }
    b
}

/// The union of two sets.
fn join(a: u128, b: u128) -> (r: u128)
    ensures
        Bitboard(r)@ == Bitboard(a)@.union(Bitboard(b)@),
        Bitboard(a).wf() && Bitboard(b).wf() ==> Bitboard(r).wf(),
{
    proof {
        lemma_set_algebra(Bitboard(a), Bitboard(b));
    }
    a | b
}

/// The set that holds the nine squares of `rank`.
pub fn bit_rank(rank: u8) -> (b: u128)
    requires
        1 <= rank <= 9,
    ensures
        Bitboard(b)@ == Set::new(|pos: int| (rank - 1) * 9 <= pos < rank * 9),
        Bitboard(b).wf(),
{
    let left = join(join(bit(1, rank), bit(2, rank)), join(bit(3, rank), bit(4, rank)));
    let right = join(join(bit(5, rank), bit(6, rank)), join(bit(7, rank), bit(8, rank)));
    let b = join(join(left, right), bit(9, rank));
    assert(Bitboard(b)@ =~= Set::new(|pos: int| (rank - 1) * 9 <= pos < rank * 9));
    b
}

/// The kind that starts on `file` of a player's home rank.
pub open spec fn home_rank_kind(file: int) -> Piece {
    if file == 1 || file == 9 {
        Piece::Lance
    } else if file == 2 || file == 8 {
        Piece::Knight
    } else if file == 3 || file == 7 {
        Piece::Silver
    } else if file == 4 || file == 6 {
        Piece::Gold
    } else {
        Piece::King
    }
}

/// What stands on a square when a game starts.
pub open spec fn initial_piece(sq: Square) -> Option<(Color, Piece)> {
    if sq.rank == 9 {
        Some((Color::Black, home_rank_kind(sq.file as int)))
    } else if sq.rank == 1 {
        Some((Color::White, home_rank_kind(sq.file as int)))
    } else if sq.rank == 7 {
        Some((Color::Black, Piece::Pawn))
    } else if sq.rank == 3 {
        Some((Color::White, Piece::Pawn))
    } else if sq.rank == 8 && sq.file == 8 {
        Some((Color::Black, Piece::Bishop))
    } else if sq.rank == 8 && sq.file == 2 {
        Some((Color::Black, Piece::Rook))
    } else if sq.rank == 2 && sq.file == 2 {
        Some((Color::White, Piece::Bishop))
    } else if sq.rank == 2 && sq.file == 8 {
        Some((Color::White, Piece::Rook))
    } else {
        None
    }
}

/// Why a move is refused.
pub enum MoveFault {
    /// The mover has no piece on the square that the move starts from.
    NoPieceAtSource,
    /// The mover holds no piece of the dropped kind in hand.
    NoPieceInHand,
    /// The kind named by the move is neither the kind on the source square, `from_kind`,
    /// nor its promotion.
    InvalidPromotion { from_kind: Piece },
    /// The move promotes, and neither of its squares lies in the mover's promotion zone.
    OutsidePromotionZone,
    /// The mover already has a piece on the square that the move goes to.
    OwnPieceOnTarget,
    /// The move asks a piece of kind `kind` to promote, which has no promoted form.
    NotPromotable { kind: Piece },
}

/// What becomes of a position when a move is offered to it.
pub enum MoveOutcome {
    /// The move is made and leaves `board`.
    Done { board: Board, promoted: bool },
    /// The move is refused and leaves `board`, which holds what was done before the fault
    /// was found.
    Refused { board: Board, fault: MoveFault },
    /// The move captures a piece for which the mover's hand has no room. A king has no
    /// place in any hand, so this is also what capturing a king comes to.
    HandOverflow,
}

/// Whether a move of `color` from `from` to `to` touches the three ranks farthest from the
/// mover's side, where pieces may promote.
pub open spec fn promotion_zone(color: Color, from: Square, to: Square) -> bool {
    match color {
        Color::Black => from.rank <= 3 || to.rank <= 3,
        Color::White => from.rank >= 7 || to.rank >= 7,
    }
}

/// The detail of the error with which a move is refused.
pub open spec fn fault_text(fault: MoveFault, color: Color, from: Option<Square>, to: Square, piece: Piece) -> Seq<char> {
    match fault {
        MoveFault::NoPieceAtSource => "There's no piece at "@ + square_name(from.unwrap()),
        MoveFault::NoPieceInHand => color_name(color) + " has no piece "@ + piece_name(piece),
        MoveFault::InvalidPromotion { from_kind } => "Invalid promotion: "@ + piece_name(from_kind)
            + " => "@ + piece_name(piece),
        MoveFault::OutsidePromotionZone => color_name(color) + " can not promote at "@
            + square_name(from.unwrap()) + " nor "@ + square_name(to),
        MoveFault::OwnPieceOnTarget => color_name(color) + " already has a piece on "@
            + square_name(to),
        MoveFault::NotPromotable { kind } => piece_name(kind) + " can not promote"@,
    }
}

/// The detail of the error for a capture for which the mover's hand has no room.
pub open spec fn no_room_text(color: Color, to: Square) -> Seq<char> {
    color_name(color) + " has no room in hand for the piece on "@ + square_name(to)
}

/// The error for a capture for which the mover's hand has no room.
fn no_room(color: Color, to: &Square) -> (e: ShogiUtilError)
    ensures
        e is InvalidMove,
        e.detail() == no_room_text(color, *to),
{
    let mut text = String::new();
    text.append(color_str(color));
    text.append(" has no room in hand for the piece on ");
    append_square(&mut text, to);
    assert(text@ =~= no_room_text(color, *to));
    ShogiUtilError::InvalidMove(text)
}

/// The error with which a move is refused.
fn refuse(fault: MoveFault, color: Color, from: Option<Square>, to: Square, piece: Piece) -> (e:
    ShogiUtilError)
    requires
        fault is NoPieceAtSource || fault is OutsidePromotionZone ==> from is Some,
    ensures
        e is InvalidMove,
        e.detail() == fault_text(fault, color, from, to, piece),
{
    let mut text = String::new();
    match fault {
        MoveFault::NoPieceAtSource => {
            text.append("There's no piece at ");
            append_square(&mut text, &from.unwrap());
        },
        MoveFault::NoPieceInHand => {
            text.append(color_str(color));
            text.append(" has no piece ");
            text.append(piece_str(piece));
        },
        MoveFault::InvalidPromotion { from_kind } => {
            text.append("Invalid promotion: ");
            text.append(piece_str(from_kind));
            text.append(" => ");
            text.append(piece_str(piece));
        },
        MoveFault::OutsidePromotionZone => {
            text.append(color_str(color));
            text.append(" can not promote at ");
            append_square(&mut text, &from.unwrap());
            text.append(" nor ");
            append_square(&mut text, &to);
        },
        MoveFault::OwnPieceOnTarget => {
            text.append(color_str(color));
            text.append(" already has a piece on ");
            append_square(&mut text, &to);
        },
        MoveFault::NotPromotable { kind } => {
            text.append(piece_str(kind));
            text.append(" can not promote");
        },
    }
    assert(text@ =~= fault_text(fault, color, from, to, piece));
    ShogiUtilError::InvalidMove(text)
}

/// A position: for every piece kind the squares that hold a piece of that kind, for each
/// colour the squares that it occupies, and for each colour how many pieces of every kind
/// it holds in hand. Index 0 of the per-colour tables is Black, index 1 is White.
pub struct Board {
    pub piece_bb: [Bitboard; 15],
    pub pieces_in_hand: [[u8; 15]; 2],
    pub occupied: [Bitboard; 2],
}

impl Default for Board {
    /// The position from which a game starts.
    fn default() -> (b: Board)
        ensures
            b.is_starting_position(),
    {
        let none = Bitboard::empty();
        let piece_bb = [
            none,
            Bitboard(join(bit_rank(3), bit_rank(7))),
            Bitboard(join(join(bit(1, 1), bit(9, 1)), join(bit(1, 9), bit(9, 9)))),
            Bitboard(join(join(bit(2, 1), bit(8, 1)), join(bit(2, 9), bit(8, 9)))),
            Bitboard(join(join(bit(3, 1), bit(7, 1)), join(bit(3, 9), bit(7, 9)))),
            Bitboard(join(join(bit(4, 1), bit(6, 1)), join(bit(4, 9), bit(6, 9)))),
            Bitboard(join(bit(2, 2), bit(8, 8))),
            Bitboard(join(bit(2, 8), bit(8, 2))),
            Bitboard(join(bit(5, 1), bit(5, 9))),
            none,
            none,
            none,
            none,
            none,
            none,
        ];
        let occupied = [
            Bitboard(join(join(bit_rank(9), bit(8, 8)), join(bit(2, 8), bit_rank(7)))),
            Bitboard(join(join(bit_rank(3), bit(8, 2)), join(bit(2, 2), bit_rank(1)))),
        ];
        let pieces_in_hand = [[0u8;15];2];
        let b = Board { piece_bb, pieces_in_hand, occupied };
        proof {
            assert forall|pos: int| #[trigger]
                b.occupied_at(pos) implies exists|k: int| 0 <= k < 15 && b.kind_has(k, pos) by {
                let sq = Square::at(pos);
                lemma_square_pos(sq, pos);
                if sq.rank == 9 || sq.rank == 1 {
                    assert(b.kind_has(home_rank_kind(sq.file as int).index(), pos));
                } else if sq.rank == 7 || sq.rank == 3 {
                    assert(b.kind_has(1, pos));
                } else if sq.file == sq.rank {
                    assert(b.kind_has(6, pos));
                } else {
                    assert(b.kind_has(7, pos));
                }
            }
            assert(b.wf());
            assert forall|sq: Square| sq.valid() implies #[trigger] b.piece_at(sq) == initial_piece(
                sq,
            ) by {
                lemma_square_pos(sq, 0);
                match initial_piece(sq) {
                    Some((color, piece)) => {
                        assert(b.kind_has(piece.index(), sq.pos()));
                        lemma_kind_at(b, sq.pos(), piece);
                    },
                    None => {},
                }
            }
        }
        b
    }
}

impl Board {
    /// What stands on a square: the colour that occupies it, with the kind of its piece.
    pub open spec fn piece_at(self, sq: Square) -> Option<(Color, Piece)> {
        if self.side_has(0, sq.pos()) {
            Some((Color::Black, self.kind_at(sq.pos())))
        } else if self.side_has(1, sq.pos()) {
            Some((Color::White, self.kind_at(sq.pos())))
        } else {
            None
        }
    }

    /// Whether this is the position from which a game starts.
    pub open spec fn is_starting_position(self) -> bool {
        &&& self.wf()
        &&& forall|sq: Square| sq.valid() ==> #[trigger] self.piece_at(sq) == initial_piece(sq)
        &&& forall|c: int, k: int| 0 <= c < 2 && 0 <= k < 15 ==> self.pieces_in_hand[c][k] == 0
    }

    /// Whether `self` is `other` seen from the other side of the board: every set rotated,
    /// and the two colours' occupancies and hands exchanged.
    pub open spec fn is_rotation_of(self, other: Board) -> bool {
        &&& forall|k: int|
            0 <= k < 15 ==> (#[trigger] self.piece_bb[k])@ == other.piece_bb[k].rotated_members()
        &&& self.occupied[0]@ == other.occupied[1].rotated_members()
        &&& self.occupied[1]@ == other.occupied[0].rotated_members()
        &&& self.pieces_in_hand[0] == other.pieces_in_hand[1]
        &&& self.pieces_in_hand[1] == other.pieces_in_hand[0]
    }

    /// Lists the candidate moves of the side with index 0: for each of its pieces the moves
    /// that the movement rules allow, with the promoting variant where there is one, and
    /// the drops of what it holds in hand. Serve the other side by rotating the position.
    pub fn generate_legal_moves(&self) -> (moves: Vec<LegalMove>)
        requires
            self.wf(),
        ensures
            moves@ == legal_move::legal_moves(*self),
            forall|lm: LegalMove| moves@.contains(lm) <==> legal_move::is_candidate(*self, lm),
    {
        legal_move::generate_legal_moves(self)
    }

    /// The position seen from the other side of the board.
    pub fn rotate180(&self) -> (r: Board)
        ensures
            r.is_rotation_of(*self),
            self.wf() ==> r.wf(),
    {
        let mut piece_bb = [Bitboard(0);15];
        let mut i: usize = 0;
        while i < 15
            invariant
                i <= 15,
                forall|k: int|
                    0 <= k < i ==> (#[trigger] piece_bb[k])@ == self.piece_bb[k].rotated_members()
                        && piece_bb[k].wf(),
            decreases 15 - i,
        {
            piece_bb[i] = self.piece_bb[i].rotate180();
            i += 1;
        }
        let occupied = [self.occupied[1].rotate180(), self.occupied[0].rotate180()];
        let pieces_in_hand = [self.pieces_in_hand[1], self.pieces_in_hand[0]];
        let r = Board { piece_bb, pieces_in_hand, occupied };
        proof {
            lemma_rotation_wf(*self, r);
        }
        r
    }

    /// Whether a piece of kind number `k` stands on grid position `pos`.
    pub open spec fn kind_has(self, k: int, pos: int) -> bool {
        self.piece_bb[k]@.contains(pos)
    }

    /// Whether the colour with index `c` occupies grid position `pos`.
    pub open spec fn side_has(self, c: int, pos: int) -> bool {
        self.occupied[c]@.contains(pos)
    }

    /// Whether either colour occupies grid position `pos`.
    pub open spec fn occupied_at(self, pos: int) -> bool {
        self.side_has(0, pos) || self.side_has(1, pos)
    }

    /// The kind of the piece on grid position `pos`, where there is one.
    pub open spec fn kind_at(self, pos: int) -> Piece {
        Piece::from_index(choose|k: int| 0 <= k < 15 && self.kind_has(k, pos))
    }

    /// How many pieces of the kind the colour holds in hand.
    pub open spec fn hand(self, color: Color, piece: Piece) -> int {
        self.pieces_in_hand[color.index()][piece.index()] as int
    }

    /// The invariants of a position: every set lies on the board; the placeholder kind
    /// stands nowhere; no square belongs to both colours; no square belongs to two kinds; a
    /// square belongs to a kind exactly when it belongs to a colour; and no hand holds more
    /// of a kind than the kind allows, so that no hand holds a promoted piece or a king.
    pub open spec fn wf(self) -> bool {
        &&& forall|k: int| 0 <= k < 15 ==> (#[trigger] self.piece_bb[k]).wf()
        &&& forall|pos: int| !self.kind_has(0, pos)
        &&& forall|c: int| 0 <= c < 2 ==> (#[trigger] self.occupied[c]).wf()
        &&& forall|pos: int| !(self.side_has(0, pos) && self.side_has(1, pos))
        &&& forall|k1: int, k2: int, pos: int|
            0 <= k1 < 15 && 0 <= k2 < 15 && #[trigger] self.kind_has(k1, pos)
                && #[trigger] self.kind_has(k2, pos) ==> k1 == k2
        &&& forall|k: int, pos: int|
            0 <= k < 15 && #[trigger] self.kind_has(k, pos) ==> self.occupied_at(pos)
        &&& forall|pos: int| #[trigger]
            self.occupied_at(pos) ==> exists|k: int| 0 <= k < 15 && self.kind_has(k, pos)
        &&& forall|c: int, k: int|
            0 <= c < 2 && 0 <= k < 15 ==> (#[trigger] self.pieces_in_hand[c][k])
                <= Piece::from_index(k).hand_limit()
    }

    /// The position with a piece of kind `piece` and colour `color` put on `pos`.
    pub open spec fn with_piece(self, pos: int, color: Color, piece: Piece) -> Board {
        Board {
            piece_bb: spec_array_update(
                self.piece_bb,
                piece.index(),
                self.piece_bb[piece.index()].with(pos),
            ),
            pieces_in_hand: self.pieces_in_hand,
            occupied: spec_array_update(
                self.occupied,
                color.index(),
                self.occupied[color.index()].with(pos),
            ),
        }
    }

    /// The position with the piece of kind `piece` and colour `color` taken off `pos`.
    pub open spec fn without_piece(self, pos: int, color: Color, piece: Piece) -> Board {
        Board {
            piece_bb: spec_array_update(
                self.piece_bb,
                piece.index(),
                self.piece_bb[piece.index()].without(pos),
            ),
            pieces_in_hand: self.pieces_in_hand,
            occupied: spec_array_update(
                self.occupied,
                color.index(),
                self.occupied[color.index()].without(pos),
            ),
        }
    }

    /// The position in which the colour holds `count` pieces of the kind in hand.
    pub open spec fn with_hand(self, color: Color, piece: Piece, count: int) -> Board {
        Board {
            piece_bb: self.piece_bb,
            pieces_in_hand: spec_array_update(
                self.pieces_in_hand,
                color.index(),
                spec_array_update(
                    self.pieces_in_hand[color.index()],
                    piece.index(),
                    count as u8,
                ),
            ),
            occupied: self.occupied,
        }
    }

    /// The position after `color` has captured what stands on `pos`: where the opponent has
    /// a piece there, it leaves the board and its unpromoted form joins the hand of `color`.
    pub open spec fn captured(self, pos: int, color: Color) -> Board {
        if self.side_has(color.other().index(), pos) {
            let kind = self.kind_at(pos);
            let held = kind.in_hand_form();
            self.without_piece(pos, color.other(), kind).with_hand(
                color,
                held,
                self.hand(color, held) + 1,
            )
        } else {
            self
        }
    }

    /// Whether the hand of `color` has room for what stands on `pos`, where the opponent
    /// has a piece there.
    pub open spec fn capture_fits(self, pos: int, color: Color) -> bool {
        self.side_has(color.other().index(), pos) ==> self.hand(
            color,
            self.kind_at(pos).in_hand_form(),
        ) < self.kind_at(pos).in_hand_form().hand_limit()
    }

    /// The second half of a move, after the piece has left its square or the hand: the
    /// capture on the target square, the test that the mover has no piece there, and the
    /// placement of a piece of kind `piece`.
    pub open spec fn landing(self, color: Color, to: Square, piece: Piece, promoted: bool) -> MoveOutcome {
        if !self.capture_fits(to.pos(), color) {
            MoveOutcome::HandOverflow
        } else {
            let after = self.captured(to.pos(), color);
            if after.side_has(color.index(), to.pos()) {
                MoveOutcome::Refused { board: after, fault: MoveFault::OwnPieceOnTarget }
            } else {
                MoveOutcome::Done { board: after.with_piece(to.pos(), color, piece), promoted }
            }
        }
    }

    /// What applying a move comes to. The piece first leaves its square or the hand; then a
    /// change of kind is held against the promotion rules; then the move lands. A refused
    /// move keeps what was done before the fault was found.
    pub open spec fn move_outcome(self, mv: Move) -> MoveOutcome {
        match mv.from {
            Some(from) => {
                if !self.side_has(mv.color.index(), from.pos()) {
                    MoveOutcome::Refused { board: self, fault: MoveFault::NoPieceAtSource }
                } else {
                    let kind = self.kind_at(from.pos());
                    let lifted = self.without_piece(from.pos(), mv.color, kind);
                    if kind != mv.piece && kind.promoted_form() != Some(mv.piece) {
                        MoveOutcome::Refused {
                            board: lifted,
                            fault: MoveFault::InvalidPromotion { from_kind: kind },
                        }
                    } else if kind != mv.piece && !promotion_zone(mv.color, from, mv.to) {
                        MoveOutcome::Refused {
                            board: lifted,
                            fault: MoveFault::OutsidePromotionZone,
                        }
                    } else {
                        lifted.landing(mv.color, mv.to, mv.piece, kind != mv.piece)
                    }
                }
            },
            None => {
                if self.hand(mv.color, mv.piece) == 0 {
                    MoveOutcome::Refused { board: self, fault: MoveFault::NoPieceInHand }
                } else {
                    self.with_hand(mv.color, mv.piece, self.hand(mv.color, mv.piece) - 1).landing(
                        mv.color,
                        mv.to,
                        mv.piece,
                        false,
                    )
                }
            },
        }
    }

    /// What moving the piece on `from` to `to` comes to, with the caller saying whether it
    /// promotes. No promotion zone is asked for here.
    pub open spec fn between_outcome(self, from: Square, to: Square, promote: bool, color: Color) -> MoveOutcome {
        if !self.side_has(color.index(), from.pos()) {
            MoveOutcome::Refused { board: self, fault: MoveFault::NoPieceAtSource }
        } else {
            let kind = self.kind_at(from.pos());
            let lifted = self.without_piece(from.pos(), color, kind);
            if !lifted.capture_fits(to.pos(), color) {
                MoveOutcome::HandOverflow
            } else {
                let after = lifted.captured(to.pos(), color);
                if after.side_has(color.index(), to.pos()) {
                    MoveOutcome::Refused { board: after, fault: MoveFault::OwnPieceOnTarget }
                } else if promote && kind.promoted_form() is None {
                    MoveOutcome::Refused { board: after, fault: MoveFault::NotPromotable { kind } }
                } else {
                    let placed = if promote {
                        kind.promoted_form().unwrap()
                    } else {
                        kind
                    };
                    MoveOutcome::Done {
                        board: after.with_piece(to.pos(), color, placed),
                        promoted: promote,
                    }
                }
            }
        }
    }

    /// The position with no piece on the board and none in hand.
    pub open spec fn blank() -> Board {
        Board {
            piece_bb: spec_array_fill_for_copy_type(Bitboard(0)),
            pieces_in_hand: spec_array_fill_for_copy_type(spec_array_fill_for_copy_type(0u8)),
            occupied: spec_array_fill_for_copy_type(Bitboard(0)),
        }
    }

    /// The position with no piece on the board and none in hand.
    pub fn empty() -> (b: Board)
        ensures
            b == Board::blank(),
            b.wf(),
            forall|k: int| 0 <= k < 15 ==> (#[trigger] b.piece_bb[k]).0 == 0,
            forall|c: int| 0 <= c < 2 ==> (#[trigger] b.occupied[c]).0 == 0,
            forall|c: int, k: int| 0 <= c < 2 && 0 <= k < 15 ==> b.pieces_in_hand[c][k] == 0,
            forall|pos: int| !b.occupied_at(pos),
    {
        let none = Bitboard::empty();
        let b = Board { piece_bb: [none;15], pieces_in_hand: [[0u8;15];2], occupied: [none;2] };
        assert(forall|k: int| 0 <= k < 15 ==> (#[trigger] b.piece_bb[k]) == none);
        assert(forall|c: int| 0 <= c < 2 ==> (#[trigger] b.occupied[c]) == none);
        b
    }

    /// Moves the piece of `color` on `from` to `to`, capturing what the opponent has there,
    /// and promotes it if `promote` says so.
    pub fn move_between(&mut self, from: &Square, to: &Square, promote: bool, color: Color) -> (r:
        Result<(), ShogiUtilError>)
        requires
            old(self).wf(),
            from.valid(),
            to.valid(),
            !(old(self).between_outcome(*from, *to, promote, color) is HandOverflow),
        ensures
            final(self).wf(),
            match old(self).between_outcome(*from, *to, promote, color) {
                MoveOutcome::Done { board, promoted } => r is Ok && *final(self) == board,
                MoveOutcome::Refused { board, fault } => {
                    &&& *final(self) == board
                    &&& r matches Err(e)
                    &&& e is InvalidMove
                    &&& e.detail() == fault_text(fault, color, Some(*from), *to, Piece::Empty)
                },
                MoveOutcome::HandOverflow => false,
            },
    {
        self.apply_between(from, to, promote, color)
    }

    /// Moves a piece as `move_between` does, and refuses a capture for which the hand has
    /// no room.
    pub(crate) fn apply_between(
        &mut self,
        from: &Square,
        to: &Square,
        promote: bool,
        color: Color,
    ) -> (r: Result<(), ShogiUtilError>)
        requires
            old(self).wf(),
            from.valid(),
            to.valid(),
        ensures
            final(self).wf(),
            match old(self).between_outcome(*from, *to, promote, color) {
                MoveOutcome::Done { board, promoted } => r is Ok && *final(self) == board,
                MoveOutcome::Refused { board, fault } => {
                    &&& *final(self) == board
                    &&& r matches Err(e)
                    &&& e is InvalidMove
                    &&& e.detail() == fault_text(fault, color, Some(*from), *to, Piece::Empty)
                },
                MoveOutcome::HandOverflow => {
                    &&& r matches Err(e)
                    &&& e is InvalidMove
                    &&& e.detail() == no_room_text(color, *to)
                },
            },
    {
        let piece = match self.remove_piece(from, color) {
            Ok(piece) => piece,
            Err(e) => {
                return Err(e);
            },
        };
        if !self.capture(to, color) {
            return Err(no_room(color, to));
        }
        if self.occupied[color.to_usize()].is_filled(to) {
            return Err(refuse(MoveFault::OwnPieceOnTarget, color, Some(*from), *to, Piece::Empty));
        }
        proof {
            lemma_free_square(*self, to.pos());
        }
        if promote {
            match piece.promote() {
                Some(promoted) => {
                    self.push_piece(to, color, promoted);
                },
                None => {
                    return Err(
                        refuse(
                            MoveFault::NotPromotable { kind: piece },
                            color,
                            Some(*from),
                            *to,
                            Piece::Empty,
                        ),
                    );
                },
            }
        } else {
            self.push_piece(to, color, piece);
        }
        Ok(())
    }

    /// Applies one move: takes the piece from its square or from the hand, holds a change
    /// of kind against the promotion rules, captures what the opponent has on the target
    /// square, and puts the piece there.
    pub fn push_move(&mut self, mv: Move) -> (r: Result<MoveResult, ShogiUtilError>)
        requires
            old(self).wf(),
            mv.to.valid(),
            mv.from matches Some(from) ==> from.valid(),
            !(old(self).move_outcome(mv) is HandOverflow),
        ensures
            final(self).wf(),
            match old(self).move_outcome(mv) {
                MoveOutcome::Done { board, promoted } => {
                    &&& *final(self) == board
                    &&& r matches Ok(done)
                    &&& done.promoted == promoted
                },
                MoveOutcome::Refused { board, fault } => {
                    &&& *final(self) == board
                    &&& r matches Err(e)
                    &&& e is InvalidMove
                    &&& e.detail() == fault_text(fault, mv.color, mv.from, mv.to, mv.piece)
                },
                MoveOutcome::HandOverflow => false,
            },
    {
        self.apply_move(mv)
    }

    /// Applies a move as `push_move` does, and refuses a capture for which the hand has no
    /// room.
    pub(crate) fn apply_move(&mut self, mv: Move) -> (r: Result<MoveResult, ShogiUtilError>)
        requires
            old(self).wf(),
            mv.to.valid(),
            mv.from matches Some(from) ==> from.valid(),
        ensures
            final(self).wf(),
            match old(self).move_outcome(mv) {
                MoveOutcome::Done { board, promoted } => {
                    &&& *final(self) == board
                    &&& r matches Ok(done)
                    &&& done.promoted == promoted
                },
                MoveOutcome::Refused { board, fault } => {
                    &&& *final(self) == board
                    &&& r matches Err(e)
                    &&& e is InvalidMove
                    &&& e.detail() == fault_text(fault, mv.color, mv.from, mv.to, mv.piece)
                },
                MoveOutcome::HandOverflow => {
                    &&& r matches Err(e)
                    &&& e is InvalidMove
                    &&& e.detail() == no_room_text(mv.color, mv.to)
                },
            },
    {
        let color = mv.color;
        let piece = mv.piece;
        let to = mv.to;

        let prev_piece;
        if let Some(from) = mv.from {
            let maybe_prev_piece = match self.remove_piece(&from, color) {
                Ok(kind) => kind,
                Err(e) => {
                    return Err(e);
                },
            };
            if maybe_prev_piece != piece {
                if !maybe_prev_piece.is_valid_promotion(&piece) {
                    return Err(
                        refuse(
                            MoveFault::InvalidPromotion { from_kind: maybe_prev_piece },
                            color,
                            mv.from,
                            to,
                            piece,
                        ),
                    );
                }
                let can_promote = match color {
                    Color::Black => from.rank <= 3 || to.rank <= 3,
                    Color::White => from.rank >= 7 || to.rank >= 7,
                };
                if !can_promote {
                    return Err(refuse(MoveFault::OutsidePromotionZone, color, mv.from, to, piece));
                }
            }
            prev_piece = maybe_prev_piece;
        } else {
            match self.remove_hand(color, piece) {
                Ok(()) => {},
                Err(e) => {
                    return Err(e);
                },
            }
            prev_piece = piece;
        }

        if !self.capture(&to, color) {
            return Err(no_room(color, &to));
        }
        if self.occupied[color.to_usize()].is_filled(&to) {
            return Err(refuse(MoveFault::OwnPieceOnTarget, color, mv.from, to, piece));
        }
        proof {
            lemma_free_square(*self, to.pos());
        }
        self.push_piece(&to, color, piece);
        Ok(MoveResult { promoted: piece != prev_piece })
    }

    /// Captures for `color` what the opponent has on `sq`, if anything, and says whether
    /// the hand had room for it. Where it had none, the piece has left the board and is in
    /// no hand.
    fn capture(&mut self, sq: &Square, color: Color) -> (done: bool)
        requires
            old(self).wf(),
            sq.valid(),
        ensures
            final(self).wf(),
            done == old(self).capture_fits(sq.pos(), color),
            done ==> *final(self) == old(self).captured(sq.pos(), color),
            done ==> !final(self).side_has(color.other().index(), sq.pos()),
            done ==> final(self).side_has(color.index(), sq.pos()) == old(self).side_has(
                color.index(),
                sq.pos(),
            ),
    {
        let opponent = color.opponent();
        if self.occupied[opponent.to_usize()].is_filled(sq) {
            let ghost before = *self;
            match self.remove_piece(sq, opponent) {
                Ok(opponent_piece) => {
                    let ghost lifted = *self;
                    let held = match opponent_piece.revert_promotion() {
                        Some(base) => base,
                        None => opponent_piece,
                    };
                    proof {
                        lemma_without_piece(before, sq.pos(), opponent, opponent_piece);
                    }
                    if self.pieces_in_hand[color.to_usize()][held.to_usize()] as usize
                        >= held.max_piece_in_hand() {
                        return false;
                    }
                    self.push_hand(opponent_piece, color);
                    proof {
                        lemma_with_hand(lifted, color, held, lifted.hand(color, held) + 1);
                        assert(!lifted.side_has(opponent.index(), sq.pos()));
                    }
                    true
                },
                Err(_) => true,
            }
        } else {
            true
        }
    }

    /// Adds a piece to the hand of `color`, under its unpromoted kind.
    pub fn push_hand(&mut self, piece: Piece, color: Color)
        requires
            old(self).hand(color, piece.in_hand_form()) < piece.in_hand_form().hand_limit(),
        ensures
            *final(self) == old(self).with_hand(
                color,
                piece.in_hand_form(),
                old(self).hand(color, piece.in_hand_form()) + 1,
            ),
            old(self).wf() ==> final(self).wf(),
    {
        let piece = match piece.revert_promotion() {
            Some(base) => base,
            None => piece,
        };
        let c = color.to_usize();
        let k = piece.to_usize();
        let count = self.pieces_in_hand[c][k];
        self.pieces_in_hand[c][k] = count + 1;
        proof {
            lemma_with_hand(*old(self), color, piece, count + 1);
        }
    }

    /// Takes a piece of the kind out of the hand of `color`, if it holds one.
    pub fn remove_hand(&mut self, color: Color, piece: Piece) -> (r: Result<(), ShogiUtilError>)
        ensures
            old(self).wf() ==> final(self).wf(),
            match r {
                Ok(_) => old(self).hand(color, piece) > 0 && (old(self).wf()
                    ==> piece.hand_limit() > 0) && *final(self) == old(self).with_hand(
                    color,
                    piece,
                    old(self).hand(color, piece) - 1,
                ),
                Err(e) => old(self).hand(color, piece) == 0 && *final(self) == *old(self)
                    && e is InvalidMove && e.detail() == fault_text(
                    MoveFault::NoPieceInHand,
                    color,
                    None,
                    Square { file: 1, rank: 1 },
                    piece,
                ),
            },
    {
        let c = color.to_usize();
        let k = piece.to_usize();
        let count = self.pieces_in_hand[c][k];
        if count == 0 {
            Err(refuse(MoveFault::NoPieceInHand, color, None, Square { file: 1, rank: 1 }, piece))
        } else {
            self.pieces_in_hand[c][k] = count - 1;
            proof {
                lemma_piece_catalog(piece, piece);
                lemma_with_hand(*old(self), color, piece, count - 1);
            }
            Ok(())
        }
    }

    /// Takes the piece of `color` off `sq` and says of which kind it was.
    pub fn remove_piece(&mut self, sq: &Square, color: Color) -> (r: Result<Piece, ShogiUtilError>)
        requires
            old(self).wf(),
            sq.valid(),
        ensures
            final(self).wf(),
            match r {
                Ok(piece) => old(self).side_has(color.index(), sq.pos()) && piece == old(
                    self,
                ).kind_at(sq.pos()) && piece != Piece::Empty && *final(self) == old(
                    self,
                ).without_piece(sq.pos(), color, piece),
                Err(e) => !old(self).side_has(color.index(), sq.pos()) && *final(self) == *old(
                    self,
                ) && e is InvalidMove && e.detail() == fault_text(
                    MoveFault::NoPieceAtSource,
                    color,
                    Some(*sq),
                    *sq,
                    Piece::Empty,
                ),
            },
    {
        let c = color.to_usize();
        if !self.occupied[c].is_filled(sq) {
            return Err(refuse(MoveFault::NoPieceAtSource, color, Some(*sq), *sq, Piece::Empty));
        }
        assert(self.occupied_at(sq.pos()));
        let mut piece_type: usize = 0;
        while !self.piece_bb[piece_type].is_filled(sq)
            invariant
                sq.valid(),
                0 <= piece_type < 15,
                exists|k: int| piece_type <= k < 15 && self.kind_has(k, sq.pos()),
            decreases 15 - piece_type,
        {
            assert(!self.kind_has(piece_type as int, sq.pos()));
            piece_type += 1;
        }
        let piece = Piece::from(piece_type as u8);
        proof {
            assert(self.kind_has(piece_type as int, sq.pos()));
            lemma_kind_at(*self, sq.pos(), piece);
            lemma_without_piece(*self, sq.pos(), color, piece);
        }
        self.piece_bb[piece_type].remove(sq);
        self.occupied[c].remove(sq);
        Ok(piece)
    }

    /// Puts a piece on a square that its colour does not occupy and that holds no piece of
    /// its kind. Where the position is well formed, the opponent does not occupy the square
    /// either and the piece is a real one, the new position is well formed.
    pub fn push_piece(&mut self, sq: &Square, color: Color, piece: Piece)
        requires
            sq.valid(),
            !old(self).side_has(color.index(), sq.pos()),
            !old(self).kind_has(piece.index(), sq.pos()),
        ensures
            *final(self) == old(self).with_piece(sq.pos(), color, piece),
            old(self).wf() && !old(self).occupied_at(sq.pos()) && piece != Piece::Empty
                ==> final(self).wf(),
    {
        let c = color.to_usize();
        let k = piece.to_usize();
        self.occupied[c].fill(sq);
        self.piece_bb[k].fill(sq);
        proof {
            lemma_with_piece(*old(self), sq.pos(), color, piece);
        }
    }
}

/// Putting a piece on a free square of a well-formed position gives a well-formed position
/// in which that square holds the piece and every other square holds what it held.
pub proof fn lemma_with_piece(b: Board, pos: int, color: Color, piece: Piece)
    requires
        0 <= pos < 81,
    ensures
        b.wf() && !b.occupied_at(pos) && piece != Piece::Empty ==> b.with_piece(
            pos,
            color,
            piece,
        ).wf(),
        forall|c: int, p: int|
            0 <= c < 2 ==> (#[trigger] b.with_piece(pos, color, piece).side_has(c, p) <==> (
            b.side_has(c, p) || (c == color.index() && p == pos))),
        forall|k: int, p: int|
            0 <= k < 15 ==> (#[trigger] b.with_piece(pos, color, piece).kind_has(k, p) <==> (
            b.kind_has(k, p) || (k == piece.index() && p == pos))),
{
    let a = b.with_piece(pos, color, piece);
    lemma_with_without(b.piece_bb[piece.index()], pos);
    lemma_with_without(b.occupied[color.index()], pos);
    lemma_piece_catalog(piece, piece);
    assert forall|c: int, p: int| 0 <= c < 2 implies (#[trigger] a.side_has(c, p) <==> (
    b.side_has(c, p) || (c == color.index() && p == pos))) by {
        if c != color.index() {
            assert(a.occupied[c] == b.occupied[c]);
        }
    }
    assert forall|k: int, p: int| 0 <= k < 15 implies (#[trigger] a.kind_has(k, p) <==> (
    b.kind_has(k, p) || (k == piece.index() && p == pos))) by {
        if k != piece.index() {
            assert(a.piece_bb[k] == b.piece_bb[k]);
        }
    }
    if b.wf() && !b.occupied_at(pos) && piece != Piece::Empty {
        assert forall|k: int| 0 <= k < 15 implies (#[trigger] a.piece_bb[k]).wf() by {
            if k != piece.index() {
                assert(a.piece_bb[k] == b.piece_bb[k]);
            }
        }
        assert forall|c: int| 0 <= c < 2 implies (#[trigger] a.occupied[c]).wf() by {
            if c != color.index() {
                assert(a.occupied[c] == b.occupied[c]);
            }
        }
        assert forall|p: int| #[trigger] a.occupied_at(p) implies exists|k: int|
            0 <= k < 15 && a.kind_has(k, p) by {
            if p == pos {
                assert(a.kind_has(piece.index(), p));
            } else {
                assert(b.occupied_at(p));
                let k = choose|k: int| 0 <= k < 15 && b.kind_has(k, p);
                assert(a.kind_has(k, p));
            }
        }
        assert forall|k: int, p: int| 0 <= k < 15 && #[trigger] a.kind_has(k, p) implies a.occupied_at(
            p,
        ) by {
            if !(k == piece.index() && p == pos) {
                assert(b.kind_has(k, p));
                assert(b.occupied_at(p));
            } else {
                assert(a.side_has(color.index(), p));
            }
        }
        assert(a.wf());
    }
}

/// The rotation of a well-formed position is well formed.
pub proof fn lemma_rotation_wf(b: Board, r: Board)
    requires
        r.is_rotation_of(b),
    ensures
        forall|k: int, pos: int|
            0 <= k < 15 ==> (#[trigger] r.kind_has(k, pos) <==> 0 <= pos < 81 && b.kind_has(
                k,
                80 - pos,
            )),
        forall|c: int, pos: int|
            0 <= c < 2 ==> (#[trigger] r.side_has(c, pos) <==> 0 <= pos < 81 && b.side_has(
                1 - c,
                80 - pos,
            )),
        b.wf() ==> r.wf(),
{
    assert forall|k: int, pos: int| 0 <= k < 15 implies (#[trigger] r.kind_has(k, pos) <==> 0
        <= pos < 81 && b.kind_has(k, 80 - pos)) by {
        assert(r.piece_bb[k]@ == b.piece_bb[k].rotated_members());
    }
    assert forall|c: int, pos: int| 0 <= c < 2 implies (#[trigger] r.side_has(c, pos) <==> 0
        <= pos < 81 && b.side_has(1 - c, 80 - pos)) by {
        assert(r.occupied[c]@ == b.occupied[1 - c].rotated_members());
    }
    if b.wf() {
        assert forall|k: int| 0 <= k < 15 implies (#[trigger] r.piece_bb[k]).wf() by {
            assert(r.piece_bb[k]@ == b.piece_bb[k].rotated_members());
            lemma_wf_iff(r.piece_bb[k]);
        }
        assert forall|c: int| 0 <= c < 2 implies (#[trigger] r.occupied[c]).wf() by {
            assert(r.occupied[c]@ == b.occupied[1 - c].rotated_members());
            lemma_wf_iff(r.occupied[c]);
        }
        assert forall|pos: int| #[trigger] r.occupied_at(pos) implies exists|k: int|
            0 <= k < 15 && r.kind_has(k, pos) by {
            let q = 80 - pos;
            assert(b.occupied_at(q));
            let k = choose|k: int| 0 <= k < 15 && b.kind_has(k, q);
            assert(r.kind_has(k, pos));
        }
        assert forall|k: int, pos: int| 0 <= k < 15 && #[trigger] r.kind_has(k, pos) implies r.occupied_at(
            pos,
        ) by {
            assert(b.kind_has(k, 80 - pos));
            assert(b.occupied_at(80 - pos));
        }
        assert forall|k1: int, k2: int, pos: int|
            0 <= k1 < 15 && 0 <= k2 < 15 && #[trigger] r.kind_has(k1, pos) && #[trigger] r.kind_has(
                k2,
                pos,
            ) implies k1 == k2 by {
            assert(b.kind_has(k1, 80 - pos) && b.kind_has(k2, 80 - pos));
        }
        assert forall|c: int, k: int| 0 <= c < 2 && 0 <= k < 15 implies (
        #[trigger] r.pieces_in_hand[c][k]) <= Piece::from_index(k).hand_limit() by {
            assert(r.pieces_in_hand[c] == b.pieces_in_hand[1 - c]);
            assert(r.pieces_in_hand[c][k] == b.pieces_in_hand[1 - c][k]);
        }
        assert(r.wf());
    }
}

/// Rotating a well-formed position twice gives the position back.
pub proof fn lemma_rotate_twice(b: Board, once: Board, twice: Board)
    requires
        b.wf(),
        once.is_rotation_of(b),
        twice.is_rotation_of(once),
    ensures
        twice == b,
{
    assert forall|k: int| 0 <= k < 15 implies twice.piece_bb[k] == b.piece_bb[k] by {
        assert(once.piece_bb[k]@ == b.piece_bb[k].rotated_members());
        assert(twice.piece_bb[k]@ == once.piece_bb[k].rotated_members());
        assert(b.piece_bb[k].wf());
        bitboard::lemma_rotate_involution(b.piece_bb[k], once.piece_bb[k], twice.piece_bb[k]);
    }
    assert forall|c: int| 0 <= c < 2 implies twice.occupied[c] == b.occupied[c] by {
        assert(once.occupied[1 - c]@ == b.occupied[c].rotated_members());
        assert(twice.occupied[c]@ == once.occupied[1 - c].rotated_members());
        assert(b.occupied[c].wf());
        bitboard::lemma_rotate_involution(b.occupied[c], once.occupied[1 - c], twice.occupied[c]);
    }
    assert forall|c: int| 0 <= c < 2 implies twice.pieces_in_hand[c] == b.pieces_in_hand[c] by {
        assert(twice.pieces_in_hand[c] == once.pieces_in_hand[1 - c]);
    }
    assert(twice.piece_bb =~= b.piece_bb);
    assert(twice.occupied =~= b.occupied);
    assert(twice.pieces_in_hand =~= b.pieces_in_hand);
}

/// A move never asks more of the mover's hand than the position shows: where the hand has
/// room for what stands on the target square, or the opponent has nothing there, the move
/// is made or refused, and the hand does not overflow.
pub proof fn lemma_room_suffices(board: Board, mv: Move)
    requires
        board.wf(),
        mv.to.valid(),
        mv.from matches Some(from) ==> from.valid(),
        board.capture_fits(mv.to.pos(), mv.color),
    ensures
        !(board.move_outcome(mv) is HandOverflow),
        mv.from matches Some(from) ==> forall|promote: bool|
            !(#[trigger] board.between_outcome(from, mv.to, promote, mv.color) is HandOverflow),
{
    let color = mv.color;
    let to = mv.to.pos();
    lemma_square_pos(mv.to, 0);
    match mv.from {
        Some(from) => {
            lemma_square_pos(from, 0);
            if board.side_has(color.index(), from.pos()) {
                let kind = board.kind_at(from.pos());
                let lifted = board.without_piece(from.pos(), color, kind);
                lemma_without_piece(board, from.pos(), color, kind);
                if lifted.side_has(color.other().index(), to) {
                    assert(board.side_has(color.other().index(), to));
                    assert(board.occupied_at(to));
                    let taken = board.kind_at(to);
                    let t = choose|t: int| 0 <= t < 15 && board.kind_has(t, to);
                    lemma_piece_catalog(taken, taken);
                    assert(lifted.kind_has(taken.index(), to));
                    assert(board.occupied_at(from.pos()));
                    let k = choose|k: int| 0 <= k < 15 && board.kind_has(k, from.pos());
                    lemma_piece_catalog(kind, kind);
                    assert(lifted.wf());
                    lemma_kind_at(lifted, to, taken);
                }
            }
        },
        None => {
            let count = board.hand(color, mv.piece);
            if count > 0 {
                let taken_out = board.with_hand(color, mv.piece, count - 1);
                lemma_piece_catalog(mv.piece, mv.piece);
                lemma_with_hand(board, color, mv.piece, count - 1);
                assert(board.pieces_in_hand[color.index()][mv.piece.index()]
                    <= Piece::from_index(mv.piece.index()).hand_limit());
                if taken_out.side_has(color.other().index(), to) {
                    assert(board.occupied_at(to));
                    let taken = board.kind_at(to);
                    let t = choose|t: int| 0 <= t < 15 && board.kind_has(t, to);
                    lemma_piece_catalog(taken, taken);
                    assert(taken_out.kind_has(taken.index(), to));
                    lemma_kind_at(taken_out, to, taken);
                }
            }
        },
    }
}

/// A move is made as a promotion only where the kind it names is the promotion of the kind
/// on its source square and one of its two squares lies in the mover's promotion zone.
pub proof fn lemma_promotion_accepted(board: Board, mv: Move)
    requires
        board.wf(),
        board.move_outcome(mv) matches MoveOutcome::Done { promoted, .. } && promoted,
    ensures
        mv.from matches Some(from) && board.side_has(mv.color.index(), from.pos())
            && board.kind_at(from.pos()).promoted_form() == Some(mv.piece) && promotion_zone(
            mv.color,
            from,
            mv.to,
        ),
{
}

/// A move that changes the kind of the piece is refused where the new kind is not the
/// promotion of the old one, and where neither square lies in the promotion zone.
pub proof fn lemma_promotion_refused(board: Board, mv: Move, from: Square)
    requires
        board.wf(),
        mv.from == Some(from),
        board.side_has(mv.color.index(), from.pos()),
        board.kind_at(from.pos()) != mv.piece,
        board.kind_at(from.pos()).promoted_form() != Some(mv.piece) || !promotion_zone(
            mv.color,
            from,
            mv.to,
        ),
    ensures
        board.move_outcome(mv) matches MoveOutcome::Refused { fault, .. } && (
        fault is InvalidPromotion || fault is OutsidePromotionZone),
{
}

/// A capture adds one piece to the capturer's hand, under the unpromoted form of the kind
/// that stood on the square, and changes no other count: the count of a promoted kind
/// never moves.
pub proof fn lemma_capture_demotes(board: Board, pos: int, color: Color, held: Piece)
    requires
        board.wf(),
        0 <= pos < 81,
        board.side_has(color.other().index(), pos),
        board.capture_fits(pos, color),
    ensures
        !board.kind_at(pos).in_hand_form().promoted(),
        board.captured(pos, color).hand(color, held) == board.hand(color, held) + (if held
            == board.kind_at(pos).in_hand_form() {
            1int
        } else {
            0int
        }),
        board.captured(pos, color).hand(color.other(), held) == board.hand(color.other(), held),
        held.promoted() ==> board.captured(pos, color).hand(color, held) == 0,
{
    let kind = board.kind_at(pos);
    let base = kind.in_hand_form();
    lemma_piece_catalog(kind, kind);
    lemma_piece_catalog(held, held);
    let lifted = board.without_piece(pos, color.other(), kind);
    lemma_without_piece(board, pos, color.other(), kind);
    lemma_with_hand(lifted, color, base, board.hand(color, base) + 1);
    assert(board.pieces_in_hand[color.index()][held.index()] <= Piece::from_index(
        held.index(),
    ).hand_limit());
}

/// What a move captures goes to the mover's hand in its unpromoted form: after a move
/// from a square onto a piece of the opponent, the mover holds one more piece of that
/// form and as many as before of every other kind.
pub proof fn lemma_move_capture(board: Board, mv: Move, from: Square, held: Piece)
    requires
        board.wf(),
        mv.from == Some(from),
        from.valid(),
        mv.to.valid(),
        board.side_has(mv.color.other().index(), mv.to.pos()),
        board.move_outcome(mv) is Done,
    ensures
        board.move_outcome(mv)->Done_board.hand(mv.color, held) == board.hand(mv.color, held) + (
        if held == board.kind_at(mv.to.pos()).in_hand_form() {
            1int
        } else {
            0int
        }),
        held.promoted() ==> board.move_outcome(mv)->Done_board.hand(mv.color, held) == 0,
{
    let color = mv.color;
    let kind = board.kind_at(from.pos());
    let lifted = board.without_piece(from.pos(), color, kind);
    let to = mv.to.pos();
    lemma_square_pos(from, 0);
    lemma_square_pos(mv.to, 0);
    assert(board.occupied_at(from.pos()));
    let k = choose|k: int| 0 <= k < 15 && board.kind_has(k, from.pos());
    lemma_piece_catalog(kind, kind);
    assert(board.kind_has(kind.index(), from.pos()));
    lemma_without_piece(board, from.pos(), color, kind);
    assert(board.occupied_at(to));
    let taken = board.kind_at(to);
    let t = choose|t: int| 0 <= t < 15 && board.kind_has(t, to);
    lemma_piece_catalog(taken, taken);
    assert(lifted.kind_has(taken.index(), to));
    lemma_kind_at(lifted, to, taken);
    lemma_capture_demotes(lifted, to, color, held);
    let after = lifted.captured(to, color);
    let placed = after.with_piece(to, color, mv.piece);
    assert(placed.pieces_in_hand == after.pieces_in_hand);
    assert(lifted.pieces_in_hand == board.pieces_in_hand);
}

/// What a move that is made does to the hands, whether it starts on the board or in the
/// hand: the mover holds one piece fewer of the kind that it dropped, one piece more of the
/// unpromoted form of what it captured, and as many as before of every other kind; the
/// opponent's hand is as it was; and no promoted kind is ever held.
pub proof fn lemma_move_hands(board: Board, mv: Move, held: Piece)
    requires
        board.wf(),
        mv.to.valid(),
        mv.from matches Some(from) ==> from.valid(),
        board.move_outcome(mv) is Done,
    ensures
        board.move_outcome(mv)->Done_board.hand(mv.color, held) == board.hand(mv.color, held) + (
        if board.side_has(mv.color.other().index(), mv.to.pos()) && held == board.kind_at(
            mv.to.pos(),
        ).in_hand_form() {
            1int
        } else {
            0int
        }) - (if mv.from is None && held == mv.piece {
            1int
        } else {
            0int
        }),
        board.move_outcome(mv)->Done_board.hand(mv.color.other(), held) == board.hand(
            mv.color.other(),
            held,
        ),
        held.promoted() ==> board.move_outcome(mv)->Done_board.hand(mv.color, held) == 0,
{
    let color = mv.color;
    let to = mv.to.pos();
    lemma_square_pos(mv.to, 0);
    lemma_piece_catalog(held, held);
    assert(board.pieces_in_hand[color.index()][held.index()] <= Piece::from_index(
        held.index(),
    ).hand_limit());
    match mv.from {
        Some(from) => {
            if board.side_has(color.other().index(), to) {
                lemma_move_capture(board, mv, from, held);
                let lifted = board.without_piece(from.pos(), color, board.kind_at(from.pos()));
                lemma_square_pos(from, 0);
                lemma_without_piece(board, from.pos(), color, board.kind_at(from.pos()));
                assert(board.occupied_at(from.pos()));
                let k = choose|k: int| 0 <= k < 15 && board.kind_has(k, from.pos());
                lemma_piece_catalog(board.kind_at(from.pos()), board.kind_at(from.pos()));
                assert(board.occupied_at(to));
                let taken = board.kind_at(to);
                let t = choose|t: int| 0 <= t < 15 && board.kind_has(t, to);
                lemma_piece_catalog(taken, taken);
                assert(lifted.kind_has(taken.index(), to));
                lemma_kind_at(lifted, to, taken);
                lemma_capture_demotes(lifted, to, color, held);
            } else {
                let kind = board.kind_at(from.pos());
                let lifted = board.without_piece(from.pos(), color, kind);
                lemma_square_pos(from, 0);
                lemma_without_piece(board, from.pos(), color, kind);
                assert(!lifted.side_has(color.other().index(), to));
            }
        },
        None => {
            let count = board.hand(color, mv.piece);
            let taken_out = board.with_hand(color, mv.piece, count - 1);
            lemma_piece_catalog(mv.piece, mv.piece);
            assert(board.pieces_in_hand[color.index()][mv.piece.index()] <= Piece::from_index(
                mv.piece.index(),
            ).hand_limit());
            lemma_with_hand(board, color, mv.piece, count - 1);
            assert(taken_out.side_has(color.other().index(), to) == board.side_has(
                color.other().index(),
                to,
            ));
            if taken_out.side_has(color.other().index(), to) {
                assert(board.occupied_at(to));
                let taken = board.kind_at(to);
                let t = choose|t: int| 0 <= t < 15 && board.kind_has(t, to);
                lemma_piece_catalog(taken, taken);
                assert(taken_out.kind_has(taken.index(), to));
                lemma_kind_at(taken_out, to, taken);
                lemma_capture_demotes(taken_out, to, color, held);
            }
        },
    }
}

/// A promotion that the rules allow is made: where the mover has a piece on the source
/// square, the move names the promoted form of its kind, one of the two squares lies in
/// the mover's promotion zone, the mover has no other piece on the target square and the
/// hand has room for what stands there, the move is made and reported as a promotion.
pub proof fn lemma_promotion_made(board: Board, mv: Move, from: Square)
    requires
        board.wf(),
        mv.from == Some(from),
        from.valid(),
        mv.to.valid(),
        board.side_has(mv.color.index(), from.pos()),
        board.kind_at(from.pos()).promoted_form() == Some(mv.piece),
        promotion_zone(mv.color, from, mv.to),
        mv.to == from || !board.side_has(mv.color.index(), mv.to.pos()),
        board.capture_fits(mv.to.pos(), mv.color),
    ensures
        board.move_outcome(mv) matches MoveOutcome::Done { promoted, .. } && promoted,
{
    let color = mv.color;
    let to = mv.to.pos();
    let kind = board.kind_at(from.pos());
    let lifted = board.without_piece(from.pos(), color, kind);
    lemma_room_suffices(board, mv);
    lemma_square_pos(from, 0);
    lemma_square_pos(mv.to, 0);
    lemma_piece_catalog(kind, mv.piece);
    assert(board.occupied_at(from.pos()));
    let k = choose|k: int| 0 <= k < 15 && board.kind_has(k, from.pos());
    lemma_without_piece(board, from.pos(), color, kind);
    assert(!lifted.side_has(color.index(), to));
    if lifted.side_has(color.other().index(), to) {
        let taken = lifted.kind_at(to);
        let after_lift = lifted.without_piece(to, color.other(), taken);
        lemma_without_piece(lifted, to, color.other(), taken);
        lemma_with_hand(
            after_lift,
            color,
            taken.in_hand_form(),
            lifted.hand(color, taken.in_hand_form()) + 1,
        );
        assert(!after_lift.side_has(color.index(), to));
    }
}

/// What stands on each square, with the hands, says all there is to say of a well-formed
/// position.
pub proof fn lemma_position_unique(a: Board, b: Board)
    requires
        a.wf(),
        b.wf(),
        forall|sq: Square| sq.valid() ==> #[trigger] a.piece_at(sq) == b.piece_at(sq),
        forall|c: int, k: int|
            0 <= c < 2 && 0 <= k < 15 ==> a.pieces_in_hand[c][k] == b.pieces_in_hand[c][k],
    ensures
        a == b,
{
    assert forall|c: int, pos: int| 0 <= c < 2 implies a.side_has(c, pos) == b.side_has(
        c,
        pos,
    ) by {
        lemma_wf_iff(a.occupied[c]);
        lemma_wf_iff(b.occupied[c]);
        if 0 <= pos < 81 {
            let sq = Square::at(pos);
            lemma_square_pos(sq, pos);
            assert(a.piece_at(sq) == b.piece_at(sq));
        }
    }
    assert forall|k: int, pos: int| 0 <= k < 15 implies a.kind_has(k, pos) == b.kind_has(
        k,
        pos,
    ) by {
        if a.kind_has(k, pos) {
            lemma_kind_transfer(a, b, k, pos);
        }
        if b.kind_has(k, pos) {
            lemma_kind_transfer(b, a, k, pos);
        }
    }
    assert forall|k: int| 0 <= k < 15 implies a.piece_bb[k] == b.piece_bb[k] by {
        assert forall|pos: int| a.piece_bb[k]@.contains(pos) == b.piece_bb[k]@.contains(pos) by {
            assert(a.kind_has(k, pos) == b.kind_has(k, pos));
        }
        assert(a.piece_bb[k]@ =~= b.piece_bb[k]@);
        lemma_same_members(a.piece_bb[k], b.piece_bb[k]);
    }
    assert forall|c: int| 0 <= c < 2 implies a.occupied[c] == b.occupied[c] by {
        assert forall|pos: int| a.occupied[c]@.contains(pos) == b.occupied[c]@.contains(pos) by {
            assert(a.side_has(c, pos) == b.side_has(c, pos));
        }
        assert(a.occupied[c]@ =~= b.occupied[c]@);
        lemma_same_members(a.occupied[c], b.occupied[c]);
    }
    assert forall|c: int| 0 <= c < 2 implies a.pieces_in_hand[c] == b.pieces_in_hand[c] by {
        assert(a.pieces_in_hand[c] =~= b.pieces_in_hand[c]);
    }
    assert(a.piece_bb =~= b.piece_bb);
    assert(a.occupied =~= b.occupied);
    assert(a.pieces_in_hand =~= b.pieces_in_hand);
}

/// Where two well-formed positions show the same on every square, a kind that has a
/// square in one has it in the other.
proof fn lemma_kind_transfer(a: Board, b: Board, k: int, pos: int)
    requires
        a.wf(),
        b.wf(),
        0 <= k < 15,
        forall|sq: Square| sq.valid() ==> #[trigger] a.piece_at(sq) == b.piece_at(sq),
        a.kind_has(k, pos),
    ensures
        b.kind_has(k, pos),
{
    let piece = Piece::from_index(k);
    lemma_piece_catalog(piece, piece);
    lemma_wf_iff(a.piece_bb[k]);
    let sq = Square::at(pos);
    lemma_square_pos(sq, pos);
    assert(a.occupied_at(pos));
    lemma_kind_at(a, pos, piece);
    assert(a.piece_at(sq) == b.piece_at(sq));
    assert(b.occupied_at(pos));
    let other = choose|j: int| 0 <= j < 15 && b.kind_has(j, pos);
    let found = Piece::from_index(other);
    lemma_piece_catalog(found, piece);
    lemma_kind_at(b, pos, found);
}

/// There is one starting position.
pub proof fn lemma_starting_position(a: Board, b: Board)
    requires
        a.is_starting_position(),
        b.is_starting_position(),
    ensures
        a == b,
{
    assert forall|sq: Square| sq.valid() implies #[trigger] a.piece_at(sq) == b.piece_at(sq) by {
        assert(a.piece_at(sq) == initial_piece(sq));
        assert(b.piece_at(sq) == initial_piece(sq));
    }
    lemma_position_unique(a, b);
}

/// On a well-formed position the kind that has a square is the kind of the piece there.
pub proof fn lemma_kind_at(b: Board, pos: int, piece: Piece)
    requires
        b.wf(),
        b.kind_has(piece.index(), pos),
    ensures
        b.kind_at(pos) == piece,
{
    lemma_piece_catalog(piece, piece);
    let k = choose|k: int| 0 <= k < 15 && b.kind_has(k, pos);
    assert(b.kind_has(k, pos));
    assert(k == piece.index());
}

/// On a well-formed position a square that no colour occupies belongs to no kind.
pub proof fn lemma_free_square(b: Board, pos: int)
    requires
        b.wf(),
        !b.occupied_at(pos),
    ensures
        forall|k: int| 0 <= k < 15 ==> !b.kind_has(k, pos),
{
    lemma_piece_catalog(Piece::Empty, Piece::Empty);
}

/// Taking a piece off its square leaves a well-formed position in which that square is
/// free and every other square holds what it held.
pub proof fn lemma_without_piece(b: Board, pos: int, color: Color, piece: Piece)
    requires
        0 <= pos < 81,
    ensures
        b.wf() && b.side_has(color.index(), pos) && b.kind_has(piece.index(), pos)
            ==> b.without_piece(pos, color, piece).wf() && !b.without_piece(
            pos,
            color,
            piece,
        ).occupied_at(pos),
        b.without_piece(pos, color, piece).pieces_in_hand == b.pieces_in_hand,
        forall|c: int, p: int|
            0 <= c < 2 ==> (#[trigger] b.without_piece(pos, color, piece).side_has(c, p) <==> (
            b.side_has(c, p) && !(c == color.index() && p == pos))),
        forall|k: int, p: int|
            0 <= k < 15 ==> (#[trigger] b.without_piece(pos, color, piece).kind_has(k, p) <==> (
            b.kind_has(k, p) && !(k == piece.index() && p == pos))),
{
    let a = b.without_piece(pos, color, piece);
    lemma_with_without(b.piece_bb[piece.index()], pos);
    lemma_with_without(b.occupied[color.index()], pos);
    lemma_piece_catalog(piece, piece);
    assert forall|c: int, p: int| 0 <= c < 2 implies (#[trigger] a.side_has(c, p) <==> (
    b.side_has(c, p) && !(c == color.index() && p == pos))) by {
        if c != color.index() {
            assert(a.occupied[c] == b.occupied[c]);
        }
    }
    assert forall|k: int, p: int| 0 <= k < 15 implies (#[trigger] a.kind_has(k, p) <==> (
    b.kind_has(k, p) && !(k == piece.index() && p == pos))) by {
        if k != piece.index() {
            assert(a.piece_bb[k] == b.piece_bb[k]);
        }
    }
    if b.wf() && b.side_has(color.index(), pos) && b.kind_has(piece.index(), pos) {
        assert forall|k: int| 0 <= k < 15 implies (#[trigger] a.piece_bb[k]).wf() by {
            if k != piece.index() {
                assert(a.piece_bb[k] == b.piece_bb[k]);
            }
        }
        assert forall|c: int| 0 <= c < 2 implies (#[trigger] a.occupied[c]).wf() by {
            if c != color.index() {
                assert(a.occupied[c] == b.occupied[c]);
            }
        }
        assert forall|p: int| #[trigger] a.occupied_at(p) implies exists|k: int|
            0 <= k < 15 && a.kind_has(k, p) by {
            assert(b.occupied_at(p));
            let k = choose|k: int| 0 <= k < 15 && b.kind_has(k, p);
            assert(b.kind_has(k, p));
            assert(p != pos);
            assert(a.kind_has(k, p));
        }
        assert forall|k: int, p: int| 0 <= k < 15 && #[trigger] a.kind_has(k, p) implies a.occupied_at(
            p,
        ) by {
            assert(b.kind_has(k, p));
            assert(b.occupied_at(p));
            if p == pos {
                assert(b.kind_has(piece.index(), pos));
            }
        }
        assert(a.wf());
    }
}

/// Changing one count of one hand changes nothing on the board, and leaves a well-formed
/// position where the new count is within the limit of the kind.
pub proof fn lemma_with_hand(b: Board, color: Color, piece: Piece, count: int)
    requires
        0 <= count < 256,
    ensures
        b.with_hand(color, piece, count).piece_bb == b.piece_bb,
        b.with_hand(color, piece, count).occupied == b.occupied,
        forall|c: Color, k: Piece| #[trigger]
            b.with_hand(color, piece, count).hand(c, k) == (if c == color && k == piece {
                count
            } else {
                b.hand(c, k)
            }),
        b.wf() && count <= piece.hand_limit() ==> b.with_hand(color, piece, count).wf(),
{
    let a = b.with_hand(color, piece, count);
    lemma_piece_catalog(piece, piece);
    assert forall|c: Color, k: Piece| #[trigger]
        a.hand(c, k) == (if c == color && k == piece {
            count
        } else {
            b.hand(c, k)
        }) by {
        lemma_piece_catalog(k, piece);
        if c != color {
            assert(a.pieces_in_hand[c.index()] == b.pieces_in_hand[c.index()]);
        }
    }
    if b.wf() && count <= piece.hand_limit() {
        assert forall|c: int, k: int| 0 <= c < 2 && 0 <= k < 15 implies (
        #[trigger] a.pieces_in_hand[c][k]) <= Piece::from_index(k).hand_limit() by {
            if c != color.index() {
                assert(a.pieces_in_hand[c] == b.pieces_in_hand[c]);
            } else if k != piece.index() {
                assert(a.pieces_in_hand[c][k] == b.pieces_in_hand[c][k]);
            }
        }
        assert(forall|k: int, p: int| a.kind_has(k, p) == b.kind_has(k, p));
        assert(forall|c: int, p: int| a.side_has(c, p) == b.side_has(c, p));
        assert(forall|p: int| a.occupied_at(p) == b.occupied_at(p));
        assert(a.wf());
    }
}

} // verus!
