//! The candidate moves of a position, for the side that moves towards rank 1.
//!
//! The list holds every move that the movement rules allow, and no test of king safety.

use crate::board::bitboard::{
    lemma_members, lemma_set_algebra, lemma_wf_iff, Bitboard, BIT_BOARD_FULL,
};
use crate::board::Board;
use crate::model::{lemma_square_pos, Color, LegalMove, Move, Square};
use crate::piece::moves::piece_targets;
use crate::piece::Piece;
use vstd::prelude::*;

verus! {

/// The move of a piece from one square to another that keeps its kind.
pub open spec fn plain_move(piece: Piece, from: Square, to: Square) -> LegalMove {
    LegalMove { mv: Move { color: Color::Black, from: Some(from), to, piece }, promoted: false }
}

/// The move of a piece from one square to another on which it becomes `promoted`.
pub open spec fn promoting_move(promoted: Piece, from: Square, to: Square) -> LegalMove {
    LegalMove {
        mv: Move { color: Color::Black, from: Some(from), to, piece: promoted },
        promoted: true,
    }
}

/// The drop of a piece from hand.
pub open spec fn drop_move(piece: Piece, to: Square) -> LegalMove {
    LegalMove { mv: Move { color: Color::Black, from: None, to, piece }, promoted: false }
}

/// Whether a move between the two squares touches the mover's promotion zone.
pub open spec fn in_zone(from: Square, to: Square) -> bool {
    from.rank <= 3 || to.rank <= 3
}

/// The candidates for one origin and one destination: the promoting move first, where the
/// kind can promote and the move touches the zone, then the plain move.
pub open spec fn moves_between(piece: Piece, from: Square, to: Square) -> Seq<LegalMove> {
    if in_zone(from, to) && piece.promoted_form() is Some {
        seq![promoting_move(piece.promoted_form().unwrap(), from, to), plain_move(piece, from, to)]
    } else {
        seq![plain_move(piece, from, to)]
    }
}

/// The candidates from one origin to each of the targets, in the order of the targets.
pub open spec fn moves_to(piece: Piece, from: Square, targets: Seq<Square>) -> Seq<LegalMove>
    decreases targets.len(),
{
    if targets.len() == 0 {
        Seq::empty()
    } else {
        moves_to(piece, from, targets.drop_last()) + moves_between(piece, from, targets.last())
    }
}

/// The candidates of the piece of the given kind on `from`.
pub open spec fn moves_from(board: Board, piece: Piece, from: Square) -> Seq<LegalMove> {
    moves_to(piece, from, piece_targets(piece, from, board.occupied[0], board.occupied[1]))
}

/// The squares on which the mover has a piece of the given kind.
pub open spec fn own_squares(board: Board, piece: Piece) -> Bitboard {
    Bitboard(board.piece_bb[piece.index()].0 & board.occupied[0].0)
}

/// The squares of the board that hold no piece.
pub open spec fn free_squares(board: Board) -> Bitboard {
    Bitboard(BIT_BOARD_FULL ^ (board.occupied[0].0 | board.occupied[1].0))
}

/// The candidates of the pieces of one kind that stand on the given grid positions.
pub open spec fn moves_of_kind(board: Board, piece: Piece, origins: Seq<int>) -> Seq<LegalMove>
    decreases origins.len(),
{
    if origins.len() == 0 {
        Seq::empty()
    } else {
        moves_of_kind(board, piece, origins.drop_last()) + moves_from(
            board,
            piece,
            Square::at(origins.last()),
        )
    }
}

/// The candidates of the mover's pieces on the board, for the kinds numbered below `kinds`:
/// kind by kind, and within a kind in ascending order of the origin's grid position.
pub open spec fn board_moves(board: Board, kinds: int) -> Seq<LegalMove>
    decreases kinds,
{
    if kinds <= 0 {
        Seq::empty()
    } else {
        let piece = Piece::from_index(kinds - 1);
        board_moves(board, kinds - 1) + moves_of_kind(
            board,
            piece,
            own_squares(board, piece).members(),
        )
    }
}

/// Whether the mover may drop a piece of the kind on the square: a pawn may not be dropped
/// on a file on which the mover already has an unpromoted pawn.
pub open spec fn drop_allowed(board: Board, piece: Piece, to: Square) -> bool {
    !(piece == Piece::Pawn && own_squares(board, Piece::Pawn).file_count(to.file) > 0)
}

/// The drops of one kind on those of the given grid positions where the drop is allowed.
pub open spec fn drops_of_kind(board: Board, piece: Piece, targets: Seq<int>) -> Seq<LegalMove>
    decreases targets.len(),
{
    if targets.len() == 0 {
        Seq::empty()
    } else if drop_allowed(board, piece, Square::at(targets.last())) {
        drops_of_kind(board, piece, targets.drop_last()).push(
            drop_move(piece, Square::at(targets.last())),
        )
    } else {
        drops_of_kind(board, piece, targets.drop_last())
    }
}

/// The drops of the kinds numbered below `kinds` that the mover holds in hand, on the free
/// squares in ascending order of grid position.
pub open spec fn drop_moves(board: Board, kinds: int) -> Seq<LegalMove>
    decreases kinds,
{
    if kinds <= 0 {
        Seq::empty()
    } else {
        let piece = Piece::from_index(kinds - 1);
        drop_moves(board, kinds - 1) + (if board.hand(Color::Black, piece) > 0 {
            drops_of_kind(board, piece, free_squares(board).members())
        } else {
            Seq::empty()
        })
    }
}

/// The candidate moves of the side with index 0: the moves of its pieces on the board,
/// then the drops of what it holds in hand.
pub open spec fn legal_moves(board: Board) -> Seq<LegalMove> {
    board_moves(board, 15) + drop_moves(board, 15)
}

/// Whether a move is a candidate in a position, said without reference to any order: a
/// move of a piece of the side with index 0 goes from a square of that side to a square
/// that the movement rules of the piece reach, and either keeps the kind or, touching the
/// promotion zone, takes the promoted kind; a drop puts a kind that the side holds in hand
/// on a free square, and no pawn on a file on which the side has an unpromoted pawn.
pub open spec fn is_candidate(board: Board, lm: LegalMove) -> bool {
    &&& lm.mv.color == Color::Black
    &&& match lm.mv.from {
        Some(from) => {
            let kind = board.kind_at(from.pos());
            &&& from.valid()
            &&& board.side_has(0, from.pos())
            &&& piece_targets(kind, from, board.occupied[0], board.occupied[1]).contains(lm.mv.to)
            &&& if lm.promoted {
                in_zone(from, lm.mv.to) && kind.promoted_form() == Some(lm.mv.piece)
            } else {
                lm.mv.piece == kind
            }
        },
        None => {
            &&& !lm.promoted
            &&& board.hand(Color::Black, lm.mv.piece) > 0
            &&& lm.mv.to.valid()
            &&& !board.occupied_at(lm.mv.to.pos())
            &&& drop_allowed(board, lm.mv.piece, lm.mv.to)
        },
    }
}

/// The square at a grid position of the board.
fn square_at(pos: u32) -> (sq: Square)
    requires
        pos < 81,
    ensures
        sq == Square::at(pos as int),
        sq.valid(),
{
    Square::from_pos((pos / 9) as usize, (pos % 9) as usize)
}

/// Appends the candidates of the piece of the given kind on `from`.
fn push_moves_from(board: &Board, piece: Piece, from: Square, moves: &mut Vec<LegalMove>)
    requires
        from.valid(),
    ensures
        final(moves)@ == old(moves)@ + moves_from(*board, piece, from),
{
    let ghost before = moves@;
    let mut destinations: Vec<Square> = Vec::new();
    piece.generate_moves(&from, &board.occupied, &mut destinations);
    let ghost targets = piece_targets(piece, from, board.occupied[0], board.occupied[1]);
    assert(destinations@ =~= targets);
    let mut j: usize = 0;
    while j < destinations.len()
        invariant
            j <= destinations@.len(),
            destinations@ == targets,
            moves@ == before + moves_to(piece, from, targets.take(j as int)),
        decreases destinations@.len() - j,
    {
        let to = destinations[j];
        let ghost so_far = moves@;
        if from.rank <= 3 || to.rank <= 3 {
            if let Some(promoted) = piece.promote() {
                moves.push(
                    LegalMove {
                        mv: Move { color: Color::Black, from: Some(from), to, piece: promoted },
                        promoted: true,
                    },
                );
            }
        }
        moves.push(
            LegalMove { mv: Move { color: Color::Black, from: Some(from), to, piece }, promoted: false },
        );
        proof {
            assert(targets.take(j + 1).drop_last() =~= targets.take(j as int));
            assert(moves@ =~= so_far + moves_between(piece, from, to));
            assert(moves@ =~= before + moves_to(piece, from, targets.take(j + 1)));
        }
        j += 1;
    }
    assert(targets.take(j as int) =~= targets);
}

/// Appends the candidates of the mover's pieces of one kind.
fn push_moves_of_kind(board: &Board, piece: Piece, moves: &mut Vec<LegalMove>)
    requires
        board.wf(),
    ensures
        final(moves)@ == old(moves)@ + moves_of_kind(
            *board,
            piece,
            own_squares(*board, piece).members(),
        ),
{
    let ghost before = moves@;
    let bb = board.piece_bb[piece.to_usize()] & board.occupied[0];
    let origins = bb.iter();
    let ghost listed = bb.members();
    proof {
        lemma_set_algebra(board.piece_bb[piece.index()], board.occupied[0]);
        lemma_wf_iff(bb);
        lemma_members(bb);
    }
    let mut i: usize = 0;
    while i < origins.len()
        invariant
            i <= origins@.len(),
            bb == own_squares(*board, piece),
            listed == bb.members(),
            origins@.len() == listed.len(),
            forall|n: int| 0 <= n < origins@.len() ==> origins@[n] as int == listed[n],
            forall|n: int| 0 <= n < listed.len() ==> 0 <= #[trigger] listed[n] < 81,
            moves@ == before + moves_of_kind(*board, piece, listed.take(i as int)),
        decreases origins@.len() - i,
    {
        let pos = origins[i];
        assert(pos as int == listed[i as int]);
        let from = square_at(pos);
        push_moves_from(board, piece, from, moves);
        proof {
            assert(listed.take(i + 1).drop_last() =~= listed.take(i as int));
            assert(moves@ =~= before + moves_of_kind(*board, piece, listed.take(i + 1)));
        }
        i += 1;
    }
    assert(listed.take(i as int) =~= listed);
}

/// Appends the drops of one kind on the free squares.
fn push_drops_of_kind(board: &Board, piece: Piece, moves: &mut Vec<LegalMove>)
    requires
        board.wf(),
    ensures
        final(moves)@ == old(moves)@ + drops_of_kind(
            *board,
            piece,
            free_squares(*board).members(),
        ),
{
    let ghost before = moves@;
    let occupied = board.occupied[0] | board.occupied[1];
    let unoccupied = Bitboard::full() ^ occupied;
    let own_pawns = board.piece_bb[Piece::Pawn.to_usize()] & board.occupied[0];
    let targets = unoccupied.iter();
    let ghost listed = unoccupied.members();
    proof {
        lemma_set_algebra(board.occupied[0], board.occupied[1]);
        lemma_set_algebra(Bitboard(BIT_BOARD_FULL), occupied);
        lemma_wf_iff(unoccupied);
        lemma_members(unoccupied);
    }
    let mut i: usize = 0;
    while i < targets.len()
        invariant
            i <= targets@.len(),
            unoccupied == free_squares(*board),
            own_pawns == own_squares(*board, Piece::Pawn),
            listed == unoccupied.members(),
            targets@.len() == listed.len(),
            forall|n: int| 0 <= n < targets@.len() ==> targets@[n] as int == listed[n],
            forall|n: int| 0 <= n < listed.len() ==> 0 <= #[trigger] listed[n] < 81,
            moves@ == before + drops_of_kind(*board, piece, listed.take(i as int)),
        decreases targets@.len() - i,
    {
        let pos = targets[i];
        assert(pos as int == listed[i as int]);
        let to = square_at(pos);
        let barred = piece == Piece::Pawn && own_pawns.file_count_ones(to.file) > 0;
        if !barred {
            moves.push(
                LegalMove { mv: Move { color: Color::Black, from: None, to, piece }, promoted: false },
            );
        }
        proof {
            assert(listed.take(i + 1).drop_last() =~= listed.take(i as int));
            assert(moves@ =~= before + drops_of_kind(*board, piece, listed.take(i + 1)));
        }
        i += 1;
    }
    assert(listed.take(i as int) =~= listed);
}

/// Lists the candidate moves of the side with index 0: exactly the candidates, in the
/// order of `legal_moves`.
pub fn generate_legal_moves(board: &Board) -> (moves: Vec<LegalMove>)
    requires
        board.wf(),
    ensures
        moves@ == legal_moves(*board),
        forall|lm: LegalMove| moves@.contains(lm) <==> is_candidate(*board, lm),
{
    let mut moves: Vec<LegalMove> = Vec::new();
    let mut piece_id: usize = 0;
    while piece_id < 15
        invariant
            piece_id <= 15,
            board.wf(),
            moves@ == board_moves(*board, piece_id as int),
        decreases 15 - piece_id,
    {
        let piece = Piece::from(piece_id as u8);
        push_moves_of_kind(board, piece, &mut moves);
        piece_id += 1;
    }
    let ghost on_board = moves@;
    let mut piece_id: usize = 0;
    while piece_id < 15
        invariant
            piece_id <= 15,
            board.wf(),
            on_board == board_moves(*board, 15),
            moves@ == on_board + drop_moves(*board, piece_id as int),
        decreases 15 - piece_id,
    {
        let piece = Piece::from(piece_id as u8);
        if board.pieces_in_hand[0][piece_id] > 0 {
            push_drops_of_kind(board, piece, &mut moves);
        }
        proof {
            assert(moves@ =~= on_board + drop_moves(*board, piece_id + 1));
        }
        piece_id += 1;
    }
    proof {
        assert forall|lm: LegalMove| moves@.contains(lm) <==> is_candidate(*board, lm) by {
            lemma_legal_moves(*board, lm);
        }
    }
    moves
}

/// A concatenation holds what either part holds.
proof fn lemma_concat_contains<A>(a: Seq<A>, b: Seq<A>, x: A)
    ensures
        (a + b).contains(x) <==> a.contains(x) || b.contains(x),
{
    if a.contains(x) {
        let i = choose|i: int| 0 <= i < a.len() && a[i] == x;
        assert((a + b)[i] == x);
    }
    if b.contains(x) {
        let i = choose|i: int| 0 <= i < b.len() && b[i] == x;
        assert((a + b)[a.len() + i] == x);
    }
    if (a + b).contains(x) {
        let i = choose|i: int| 0 <= i < (a + b).len() && (a + b)[i] == x;
        if i < a.len() {
            assert(a[i] == x);
        } else {
            assert(b[i - a.len()] == x);
        }
    }
}

/// Whether `lm` is one of the candidates from `from` to `to`.
pub open spec fn is_move_between(piece: Piece, from: Square, to: Square, lm: LegalMove) -> bool {
    lm == plain_move(piece, from, to) || (in_zone(from, to) && piece.promoted_form() is Some && lm
        == promoting_move(piece.promoted_form().unwrap(), from, to))
}

proof fn lemma_moves_between(piece: Piece, from: Square, to: Square, lm: LegalMove)
    ensures
        moves_between(piece, from, to).contains(lm) <==> is_move_between(piece, from, to, lm),
{
    let listed = moves_between(piece, from, to);
    if in_zone(from, to) && piece.promoted_form() is Some {
        assert(listed[0] == promoting_move(piece.promoted_form().unwrap(), from, to));
        assert(listed[1] == plain_move(piece, from, to));
    } else {
        assert(listed[0] == plain_move(piece, from, to));
    }
}

proof fn lemma_moves_to(piece: Piece, from: Square, targets: Seq<Square>, lm: LegalMove)
    ensures
        moves_to(piece, from, targets).contains(lm) <==> exists|j: int|
            0 <= j < targets.len() && is_move_between(piece, from, #[trigger] targets[j], lm),
    decreases targets.len(),
{
    if targets.len() > 0 {
        let head = targets.drop_last();
        lemma_moves_to(piece, from, head, lm);
        lemma_moves_between(piece, from, targets.last(), lm);
        lemma_concat_contains(
            moves_to(piece, from, head),
            moves_between(piece, from, targets.last()),
            lm,
        );
        if moves_to(piece, from, targets).contains(lm) {
            if moves_to(piece, from, head).contains(lm) {
                let j = choose|j: int|
                    0 <= j < head.len() && is_move_between(piece, from, #[trigger] head[j], lm);
                assert(is_move_between(piece, from, targets[j], lm));
            } else {
                assert(is_move_between(piece, from, targets[targets.len() - 1], lm));
            }
        }
        if exists|j: int|
            0 <= j < targets.len() && is_move_between(piece, from, #[trigger] targets[j], lm) {
            let j = choose|j: int|
                0 <= j < targets.len() && is_move_between(piece, from, #[trigger] targets[j], lm);
            if j < head.len() {
                assert(is_move_between(piece, from, head[j], lm));
            }
        }
    }
}

/// Whether `lm` is a candidate of the piece of the given kind on `from`.
pub open spec fn is_move_from(board: Board, piece: Piece, from: Square, lm: LegalMove) -> bool {
    &&& lm.mv.color == Color::Black
    &&& lm.mv.from == Some(from)
    &&& piece_targets(piece, from, board.occupied[0], board.occupied[1]).contains(lm.mv.to)
    &&& if lm.promoted {
        in_zone(from, lm.mv.to) && piece.promoted_form() == Some(lm.mv.piece)
    } else {
        lm.mv.piece == piece
    }
}

proof fn lemma_moves_from(board: Board, piece: Piece, from: Square, lm: LegalMove)
    ensures
        moves_from(board, piece, from).contains(lm) <==> is_move_from(board, piece, from, lm),
{
    let targets = piece_targets(piece, from, board.occupied[0], board.occupied[1]);
    lemma_moves_to(piece, from, targets, lm);
    if is_move_from(board, piece, from, lm) {
        let j = choose|j: int| 0 <= j < targets.len() && targets[j] == lm.mv.to;
        assert(is_move_between(piece, from, targets[j], lm));
    }
    if moves_from(board, piece, from).contains(lm) {
        let j = choose|j: int|
            0 <= j < targets.len() && is_move_between(piece, from, #[trigger] targets[j], lm);
        assert(targets[j] == lm.mv.to);
    }
}

proof fn lemma_moves_of_kind(board: Board, piece: Piece, origins: Seq<int>, lm: LegalMove)
    ensures
        moves_of_kind(board, piece, origins).contains(lm) <==> exists|i: int|
            0 <= i < origins.len() && is_move_from(
                board,
                piece,
                Square::at(#[trigger] origins[i]),
                lm,
            ),
    decreases origins.len(),
{
    if origins.len() > 0 {
        let head = origins.drop_last();
        lemma_moves_of_kind(board, piece, head, lm);
        lemma_moves_from(board, piece, Square::at(origins.last()), lm);
        lemma_concat_contains(
            moves_of_kind(board, piece, head),
            moves_from(board, piece, Square::at(origins.last())),
            lm,
        );
        if moves_of_kind(board, piece, origins).contains(lm) {
            if moves_of_kind(board, piece, head).contains(lm) {
                let i = choose|i: int|
                    0 <= i < head.len() && is_move_from(
                        board,
                        piece,
                        Square::at(#[trigger] head[i]),
                        lm,
                    );
                assert(is_move_from(board, piece, Square::at(origins[i]), lm));
            } else {
                assert(is_move_from(board, piece, Square::at(origins[origins.len() - 1]), lm));
            }
        }
        if exists|i: int|
            0 <= i < origins.len() && is_move_from(
                board,
                piece,
                Square::at(#[trigger] origins[i]),
                lm,
            ) {
            let i = choose|i: int|
                0 <= i < origins.len() && is_move_from(
                    board,
                    piece,
                    Square::at(#[trigger] origins[i]),
                    lm,
                );
            if i < head.len() {
                assert(is_move_from(board, piece, Square::at(head[i]), lm));
            }
        }
    }
}

/// Whether `lm` moves one of the mover's pieces of the given kind as the rules allow.
pub open spec fn is_move_of_kind(board: Board, piece: Piece, lm: LegalMove) -> bool {
    &&& lm.mv.from matches Some(from)
    &&& from.valid()
    &&& board.side_has(0, from.pos())
    &&& board.kind_has(piece.index(), from.pos())
    &&& is_move_from(board, piece, from, lm)
}

proof fn lemma_moves_of_own_squares(board: Board, piece: Piece, lm: LegalMove)
    requires
        board.wf(),
    ensures
        moves_of_kind(board, piece, own_squares(board, piece).members()).contains(lm)
            <==> is_move_of_kind(board, piece, lm),
{
    let own = own_squares(board, piece);
    let origins = own.members();
    crate::piece::lemma_piece_catalog(piece, piece);
    lemma_set_algebra(board.piece_bb[piece.index()], board.occupied[0]);
    lemma_wf_iff(own);
    lemma_members(own);
    lemma_moves_of_kind(board, piece, origins, lm);
    if moves_of_kind(board, piece, origins).contains(lm) {
        let i = choose|i: int|
            0 <= i < origins.len() && is_move_from(
                board,
                piece,
                Square::at(#[trigger] origins[i]),
                lm,
            );
        assert(own@.contains(origins[i]));
        lemma_square_pos(Square::at(origins[i]), origins[i]);
    }
    if is_move_of_kind(board, piece, lm) {
        let from = lm.mv.from.unwrap();
        lemma_square_pos(from, from.pos());
        assert(own@.contains(from.pos()));
        assert(origins.contains(from.pos()));
        let i = choose|i: int| 0 <= i < origins.len() && origins[i] == from.pos();
        assert(is_move_from(board, piece, Square::at(origins[i]), lm));
    }
}

proof fn lemma_board_moves(board: Board, kinds: int, lm: LegalMove)
    requires
        board.wf(),
        0 <= kinds <= 15,
    ensures
        board_moves(board, kinds).contains(lm) <==> exists|k: int|
            0 <= k < kinds && #[trigger] is_move_of_kind(board, Piece::from_index(k), lm),
    decreases kinds,
{
    if kinds > 0 {
        let piece = Piece::from_index(kinds - 1);
        lemma_board_moves(board, kinds - 1, lm);
        lemma_moves_of_own_squares(board, piece, lm);
        lemma_concat_contains(
            board_moves(board, kinds - 1),
            moves_of_kind(board, piece, own_squares(board, piece).members()),
            lm,
        );
        if board_moves(board, kinds).contains(lm) {
            if board_moves(board, kinds - 1).contains(lm) {
                let k = choose|k: int|
                    0 <= k < kinds - 1 && #[trigger] is_move_of_kind(
                        board,
                        Piece::from_index(k),
                        lm,
                    );
                assert(is_move_of_kind(board, Piece::from_index(k), lm));
            } else {
                assert(is_move_of_kind(board, Piece::from_index(kinds - 1), lm));
            }
        }
    }
}

/// Whether `lm` is an allowed drop of the given kind on one of the free squares.
pub open spec fn is_drop_of_kind(board: Board, piece: Piece, lm: LegalMove) -> bool {
    &&& lm == drop_move(piece, lm.mv.to)
    &&& lm.mv.to.valid()
    &&& !board.occupied_at(lm.mv.to.pos())
    &&& drop_allowed(board, piece, lm.mv.to)
}

proof fn lemma_drops_of_kind(board: Board, piece: Piece, targets: Seq<int>, lm: LegalMove)
    ensures
        drops_of_kind(board, piece, targets).contains(lm) <==> exists|i: int|
            0 <= i < targets.len() && lm == drop_move(piece, Square::at(#[trigger] targets[i]))
                && drop_allowed(board, piece, Square::at(targets[i])),
    decreases targets.len(),
{
    if targets.len() > 0 {
        let head = targets.drop_last();
        let to = Square::at(targets.last());
        lemma_drops_of_kind(board, piece, head, lm);
        let before = drops_of_kind(board, piece, head);
        lemma_concat_contains(before, seq![drop_move(piece, to)], lm);
        assert(before.push(drop_move(piece, to)) =~= before + seq![drop_move(piece, to)]);
        assert(seq![drop_move(piece, to)].contains(lm) <==> lm == drop_move(piece, to)) by {
            assert(seq![drop_move(piece, to)][0] == drop_move(piece, to));
        }
        if drops_of_kind(board, piece, targets).contains(lm) {
            if before.contains(lm) {
                let i = choose|i: int|
                    0 <= i < head.len() && lm == drop_move(piece, Square::at(#[trigger] head[i]))
                        && drop_allowed(board, piece, Square::at(head[i]));
                assert(lm == drop_move(piece, Square::at(targets[i])));
            } else {
                assert(lm == drop_move(piece, Square::at(targets[targets.len() - 1])));
            }
        }
        if exists|i: int|
            0 <= i < targets.len() && lm == drop_move(piece, Square::at(#[trigger] targets[i]))
                && drop_allowed(board, piece, Square::at(targets[i])) {
            let i = choose|i: int|
                0 <= i < targets.len() && lm == drop_move(
                    piece,
                    Square::at(#[trigger] targets[i]),
                ) && drop_allowed(board, piece, Square::at(targets[i]));
            if i < head.len() {
                assert(lm == drop_move(piece, Square::at(head[i])));
            }
        }
    }
}

proof fn lemma_drops_on_free_squares(board: Board, piece: Piece, lm: LegalMove)
    requires
        board.wf(),
    ensures
        drops_of_kind(board, piece, free_squares(board).members()).contains(lm)
            <==> is_drop_of_kind(board, piece, lm),
{
    let free = free_squares(board);
    let targets = free.members();
    let taken = Bitboard(board.occupied[0].0 | board.occupied[1].0);
    lemma_set_algebra(board.occupied[0], board.occupied[1]);
    lemma_set_algebra(Bitboard(BIT_BOARD_FULL), taken);
    lemma_wf_iff(Bitboard(BIT_BOARD_FULL));
    lemma_wf_iff(free);
    lemma_members(free);
    lemma_drops_of_kind(board, piece, targets, lm);
    assert forall|pos: int| free@.contains(pos) <==> 0 <= pos < 81 && !board.occupied_at(pos) by {
        crate::board::bitboard::lemma_full_members(pos);
    }
    if drops_of_kind(board, piece, targets).contains(lm) {
        let i = choose|i: int|
            0 <= i < targets.len() && lm == drop_move(piece, Square::at(#[trigger] targets[i]))
                && drop_allowed(board, piece, Square::at(targets[i]));
        assert(free@.contains(targets[i]));
        lemma_square_pos(Square::at(targets[i]), targets[i]);
    }
    if is_drop_of_kind(board, piece, lm) {
        let to = lm.mv.to;
        lemma_square_pos(to, to.pos());
        assert(free@.contains(to.pos()));
        assert(targets.contains(to.pos()));
        let i = choose|i: int| 0 <= i < targets.len() && targets[i] == to.pos();
        assert(lm == drop_move(piece, Square::at(targets[i])));
    }
}

proof fn lemma_drop_moves(board: Board, kinds: int, lm: LegalMove)
    requires
        board.wf(),
        0 <= kinds <= 15,
    ensures
        drop_moves(board, kinds).contains(lm) <==> exists|k: int|
            0 <= k < kinds && board.hand(Color::Black, Piece::from_index(k)) > 0
                && #[trigger] is_drop_of_kind(board, Piece::from_index(k), lm),
    decreases kinds,
{
    if kinds > 0 {
        let piece = Piece::from_index(kinds - 1);
        lemma_drop_moves(board, kinds - 1, lm);
        lemma_drops_on_free_squares(board, piece, lm);
        let last = if board.hand(Color::Black, piece) > 0 {
            drops_of_kind(board, piece, free_squares(board).members())
        } else {
            Seq::empty()
        };
        lemma_concat_contains(drop_moves(board, kinds - 1), last, lm);
        if drop_moves(board, kinds).contains(lm) {
            if drop_moves(board, kinds - 1).contains(lm) {
                let k = choose|k: int|
                    0 <= k < kinds - 1 && board.hand(Color::Black, Piece::from_index(k)) > 0
                        && #[trigger] is_drop_of_kind(board, Piece::from_index(k), lm);
                assert(is_drop_of_kind(board, Piece::from_index(k), lm));
            } else {
                assert(is_drop_of_kind(board, Piece::from_index(kinds - 1), lm));
            }
        }
    }
}

/// The list of candidate moves of a well-formed position holds exactly the candidates.
pub proof fn lemma_legal_moves(board: Board, lm: LegalMove)
    requires
        board.wf(),
    ensures
        legal_moves(board).contains(lm) <==> is_candidate(board, lm),
{
    lemma_board_moves(board, 15, lm);
    lemma_drop_moves(board, 15, lm);
    lemma_concat_contains(board_moves(board, 15), drop_moves(board, 15), lm);
    if board_moves(board, 15).contains(lm) {
        let k = choose|k: int|
            0 <= k < 15 && #[trigger] is_move_of_kind(board, Piece::from_index(k), lm);
        let piece = Piece::from_index(k);
        crate::piece::lemma_piece_catalog(piece, piece);
        crate::board::lemma_kind_at(board, lm.mv.from.unwrap().pos(), piece);
    }
    if drop_moves(board, 15).contains(lm) {
        let k = choose|k: int|
            0 <= k < 15 && board.hand(Color::Black, Piece::from_index(k)) > 0
                && #[trigger] is_drop_of_kind(board, Piece::from_index(k), lm);
    }
    if is_candidate(board, lm) {
        match lm.mv.from {
            Some(from) => {
                let piece = board.kind_at(from.pos());
                assert(board.occupied_at(from.pos()));
                let k = choose|k: int| 0 <= k < 15 && board.kind_has(k, from.pos());
                crate::piece::lemma_piece_catalog(piece, piece);
                assert(piece == Piece::from_index(k));
                assert(is_move_of_kind(board, Piece::from_index(k), lm));
            },
            None => {
                let piece = lm.mv.piece;
                crate::piece::lemma_piece_catalog(piece, piece);
                assert(is_drop_of_kind(board, Piece::from_index(piece.index()), lm));
            },
        }
    }
}

/// No candidate drops a pawn on a file on which the mover has an unpromoted pawn.
pub proof fn lemma_no_second_pawn(board: Board, lm: LegalMove, rank: u8)
    requires
        board.wf(),
        legal_moves(board).contains(lm),
        lm.mv.from is None,
        lm.mv.piece == Piece::Pawn,
        1 <= rank <= 9,
    ensures
        !(board.side_has(0, Square { file: lm.mv.to.file, rank }.pos()) && board.kind_has(
            Piece::Pawn.index(),
            Square { file: lm.mv.to.file, rank }.pos(),
        )),
{
    lemma_legal_moves(board, lm);
    let own = own_squares(board, Piece::Pawn);
    lemma_set_algebra(board.piece_bb[Piece::Pawn.index()], board.occupied[0]);
    crate::board::bitboard::lemma_file_count(own, lm.mv.to.file, 9);
    let sq = Square { file: lm.mv.to.file, rank };
    assert(drop_allowed(board, Piece::Pawn, lm.mv.to));
    assert(own.file_count(lm.mv.to.file) == 0);
    assert(!own.contains(sq));
    assert(own@.contains(sq.pos()) == (board.kind_has(Piece::Pawn.index(), sq.pos())
        && board.side_has(0, sq.pos())));
}

} // verus!
