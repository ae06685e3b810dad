//! Where a piece can go: walks over the board in one direction, and the walks of each kind.
//!
//! Everything here is written for the side that moves up the board, towards rank 1. The
//! other side is served by rotating the position.

use crate::board::bitboard::Bitboard;
use crate::model::Square;
use crate::piece::Piece;
use vstd::prelude::*;

verus! {

/// Whether the coordinates name a square of the board.
pub open spec fn on_board(rank: int, file: int) -> bool {
    1 <= rank <= 9 && 1 <= file <= 9
}

/// An upper bound on the steps that a walk from `(rank, file)` can still take.
pub open spec fn room(rank: int, file: int, d_rank: int, d_file: int) -> int {
    if d_rank > 0 {
        10 - rank
    } else if d_rank < 0 {
        rank
    } else if d_file > 0 {
        10 - file
    } else if d_file < 0 {
        file
    } else {
        0
    }
}

/// The squares that a walk reaches, in the order in which it reaches them. The walk starts
/// on `(rank, file)`, which is not part of it, and goes on by `(d_rank, d_file)` per step.
/// It ends before the edge of the board and before a square that `own` holds; it ends on a
/// square that `other` holds, which is a capture; and with `one` it ends after one step.
pub open spec fn ray(
    rank: int,
    file: int,
    own: Bitboard,
    other: Bitboard,
    d_rank: int,
    d_file: int,
    one: bool,
) -> Seq<Square>
    decreases room(rank, file, d_rank, d_file),
{
    let r = rank + d_rank;
    let f = file + d_file;
    if (d_rank == 0 && d_file == 0) || !on_board(rank, file) || !on_board(r, f) {
        Seq::empty()
    } else {
        let next = Square { rank: r as u8, file: f as u8 };
        if own.contains(next) {
            Seq::empty()
        } else if other.contains(next) || one {
            seq![next]
        } else {
            seq![next] + ray(r, f, own, other, d_rank, d_file, one)
        }
    }
}

/// The walks along the ranks and files: towards the higher files, down the board, towards
/// the lower files, and up the board, in this order.
pub open spec fn straight_rays(from: Square, own: Bitboard, other: Bitboard, one: bool) -> Seq<
    Square,
> {
    ray(from.rank as int, from.file as int, own, other, 0, 1, one) + ray(
        from.rank as int,
        from.file as int,
        own,
        other,
        1,
        0,
        one,
    ) + ray(from.rank as int, from.file as int, own, other, 0, -1, one) + ray(
        from.rank as int,
        from.file as int,
        own,
        other,
        -1,
        0,
        one,
    )
}

/// The walks along the four diagonals: the two towards the higher files first, and of each
/// pair the one down the board first.
pub open spec fn diagonal_rays(from: Square, own: Bitboard, other: Bitboard, one: bool) -> Seq<
    Square,
> {
    ray(from.rank as int, from.file as int, own, other, 1, 1, one) + ray(
        from.rank as int,
        from.file as int,
        own,
        other,
        -1,
        1,
        one,
    ) + ray(from.rank as int, from.file as int, own, other, 1, -1, one) + ray(
        from.rank as int,
        from.file as int,
        own,
        other,
        -1,
        -1,
        one,
    )
}

/// One walk from a square.
pub open spec fn ray_from(
    from: Square,
    own: Bitboard,
    other: Bitboard,
    d_rank: int,
    d_file: int,
    one: bool,
) -> Seq<Square> {
    ray(from.rank as int, from.file as int, own, other, d_rank, d_file, one)
}

/// The squares that a piece of the given kind on `from` can move to, where `own` are the
/// squares of its own side and `other` those of the opponent.
pub open spec fn piece_targets(piece: Piece, from: Square, own: Bitboard, other: Bitboard) -> Seq<
    Square,
> {
    match piece {
        Piece::Empty => Seq::empty(),
        Piece::Pawn => ray_from(from, own, other, -1, 0, true),
        Piece::Lance => ray_from(from, own, other, -1, 0, false),
        Piece::Knight => ray_from(from, own, other, -2, -1, true) + ray_from(
            from,
            own,
            other,
            -2,
            1,
            true,
        ),
        Piece::Silver => diagonal_rays(from, own, other, true) + ray_from(
            from,
            own,
            other,
            -1,
            0,
            true,
        ),
        Piece::Gold | Piece::ProPawn | Piece::ProLance | Piece::ProKnight | Piece::ProSilver => {
            straight_rays(from, own, other, true) + ray_from(from, own, other, -1, -1, true)
                + ray_from(from, own, other, -1, 1, true)
        },
        Piece::King => diagonal_rays(from, own, other, true) + straight_rays(
            from,
            own,
            other,
            true,
        ),
        Piece::Rook => straight_rays(from, own, other, false),
        Piece::Bishop => diagonal_rays(from, own, other, false),
        Piece::ProRook => straight_rays(from, own, other, false) + diagonal_rays(
            from,
            own,
            other,
            true,
        ),
        Piece::ProBishop => diagonal_rays(from, own, other, false) + straight_rays(
            from,
            own,
            other,
            true,
        ),
    }
}

/// Appends one walk from `from` to `result`, for any step but the one that stays in place,
/// and keeps what `result` held. `occupied[0]` holds the squares of the side that moves,
/// `occupied[1]` those of the opponent. The walk is the squares `from + k * step` for `k`
/// from 1 on, as far as they lie on the board and are free of the mover's pieces; it ends
/// on the first piece of the opponent, and with `one` after one step. A step that leaves
/// the board at once appends nothing.
pub fn generate_moves(
    from: &Square,
    occupied: &[Bitboard; 2],
    result: &mut Vec<Square>,
    d_rank: i8,
    d_file: i8,
    one: bool,
)
    requires
        from.valid(),
        d_rank != 0 || d_file != 0,
    ensures
        final(result)@ == old(result)@ + ray_from(
            *from,
            occupied[0],
            occupied[1],
            d_rank as int,
            d_file as int,
            one,
        ),
        ({
            let walk = ray_from(
                *from,
                occupied[0],
                occupied[1],
                d_rank as int,
                d_file as int,
                one,
            );
            &&& forall|k: int|
                0 <= k < walk.len() ==> {
                    let sq = #[trigger] walk[k];
                    &&& sq.valid()
                    &&& sq.rank == from.rank + (k + 1) * d_rank
                    &&& sq.file == from.file + (k + 1) * d_file
                    &&& !occupied[0].contains(sq)
                    &&& k + 1 < walk.len() ==> !occupied[1].contains(sq)
                }
            &&& one ==> walk.len() <= 1
            &&& {
                ||| walk.len() >= 1 && one
                ||| walk.len() >= 1 && occupied[1].contains(walk.last())
                ||| blocked_after(
                    from.rank as int,
                    from.file as int,
                    occupied[0],
                    d_rank as int,
                    d_file as int,
                    walk.len() as int,
                )
            }
        }),
{
    proof {
        lemma_ray(
            from.rank as int,
            from.file as int,
            occupied[0],
            occupied[1],
            d_rank as int,
            d_file as int,
            one,
        );
        lemma_ray_ends(
            from.rank as int,
            from.file as int,
            occupied[0],
            occupied[1],
            d_rank as int,
            d_file as int,
            one,
        );
    }
    let ghost goal = result@ + ray_from(
        *from,
        occupied[0],
        occupied[1],
        d_rank as int,
        d_file as int,
        one,
    );
    let mut next_rank: i16 = from.rank as i16 + d_rank as i16;
    let mut next_file: i16 = from.file as i16 + d_file as i16;
    while 1 <= next_rank && next_rank <= 9 && 1 <= next_file && next_file <= 9
        invariant_except_break
            on_board(next_rank - d_rank, next_file - d_file),
            goal == result@ + ray(
                next_rank - d_rank,
                next_file - d_file,
                occupied[0],
                occupied[1],
                d_rank as int,
                d_file as int,
                one,
            ),
        invariant
            d_rank != 0 || d_file != 0,
        ensures
            result@ == goal,
        decreases room(next_rank - d_rank, next_file - d_file, d_rank as int, d_file as int),
    {
        let next = Square { rank: next_rank as u8, file: next_file as u8 };
        if occupied[0].is_filled(&next) {
            break ;
        }
        let done = occupied[1].is_filled(&next);
        let ghost before = result@;
        result.push(next);
        if done || one {
            assert(result@ =~= before + seq![next]);
            break ;
        }
        proof {
            let rest = ray(
                next_rank as int,
                next_file as int,
                occupied[0],
                occupied[1],
                d_rank as int,
                d_file as int,
                one,
            );
            assert(before + (seq![next] + rest) =~= result@ + rest);
        }
        next_rank += d_rank as i16;
        next_file += d_file as i16;
    }
}

/// Appends the four walks along the ranks and files.
fn generate_straight(from: &Square, occupied: &[Bitboard; 2], result: &mut Vec<Square>, one: bool)
    requires
        from.valid(),
    ensures
        final(result)@ == old(result)@ + straight_rays(*from, occupied[0], occupied[1], one),
{
    let ghost before = result@;
    generate_moves(from, occupied, result, 0, 1, one);
    generate_moves(from, occupied, result, 1, 0, one);
    generate_moves(from, occupied, result, 0, -1, one);
    generate_moves(from, occupied, result, -1, 0, one);
    assert(result@ =~= before + straight_rays(*from, occupied[0], occupied[1], one));
}

/// Appends the four walks along the diagonals.
fn generate_diagonal(from: &Square, occupied: &[Bitboard; 2], result: &mut Vec<Square>, one: bool)
    requires
        from.valid(),
    ensures
        final(result)@ == old(result)@ + diagonal_rays(*from, occupied[0], occupied[1], one),
{
    let ghost before = result@;
    generate_moves(from, occupied, result, 1, 1, one);
    generate_moves(from, occupied, result, -1, 1, one);
    generate_moves(from, occupied, result, 1, -1, one);
    generate_moves(from, occupied, result, -1, -1, one);
    assert(result@ =~= before + diagonal_rays(*from, occupied[0], occupied[1], one));
}

/// Appends the squares that a piece of the given kind on `from` can move to.
pub fn piece_moves(piece: Piece, from: &Square, occupied: &[Bitboard; 2], result: &mut Vec<Square>)
    requires
        from.valid(),
    ensures
        final(result)@ == old(result)@ + piece_targets(piece, *from, occupied[0], occupied[1]),
{
    let ghost before = result@;
    let ghost goal = piece_targets(piece, *from, occupied[0], occupied[1]);
    match piece {
        Piece::Pawn => generate_moves(from, occupied, result, -1, 0, true),
        Piece::Lance => generate_moves(from, occupied, result, -1, 0, false),
        Piece::Knight => {
            generate_moves(from, occupied, result, -2, -1, true);
            generate_moves(from, occupied, result, -2, 1, true);
        },
        Piece::Silver => {
            generate_diagonal(from, occupied, result, true);
            generate_moves(from, occupied, result, -1, 0, true);
        },
        Piece::Gold | Piece::ProPawn | Piece::ProLance | Piece::ProKnight | Piece::ProSilver => {
            generate_straight(from, occupied, result, true);
            generate_moves(from, occupied, result, -1, -1, true);
            generate_moves(from, occupied, result, -1, 1, true);
        },
        Piece::King => {
            generate_diagonal(from, occupied, result, true);
            generate_straight(from, occupied, result, true);
        },
        Piece::Rook => generate_straight(from, occupied, result, false),
        Piece::Bishop => generate_diagonal(from, occupied, result, false),
        Piece::ProRook => {
            generate_straight(from, occupied, result, false);
            generate_diagonal(from, occupied, result, true);
        },
        Piece::ProBishop => {
            generate_diagonal(from, occupied, result, false);
            generate_straight(from, occupied, result, true);
        },
        Piece::Empty => {},
    }
    assert(result@ =~= before + goal);
}

/// Whether a walk that has taken `steps` steps is held up on the next one: the next square
/// lies off the board or holds a piece of the mover.
pub open spec fn blocked_after(
    rank: int,
    file: int,
    own: Bitboard,
    d_rank: int,
    d_file: int,
    steps: int,
) -> bool {
    let r = rank + (steps + 1) * d_rank;
    let f = file + (steps + 1) * d_file;
    !on_board(r, f) || own.contains(Square { rank: r as u8, file: f as u8 })
}

/// A walk goes on until something ends it, and no further: where it was not limited to
/// one step and did not end on a piece of the opponent, the square after its last is off
/// the board or holds a piece of the mover.
pub proof fn lemma_ray_ends(
    rank: int,
    file: int,
    own: Bitboard,
    other: Bitboard,
    d_rank: int,
    d_file: int,
    one: bool,
)
    requires
        on_board(rank, file),
        d_rank != 0 || d_file != 0,
    ensures
        ({
            let walk = ray(rank, file, own, other, d_rank, d_file, one);
            ||| walk.len() >= 1 && one
            ||| walk.len() >= 1 && other.contains(walk.last())
            ||| blocked_after(rank, file, own, d_rank, d_file, walk.len() as int)
        }),
    decreases room(rank, file, d_rank, d_file),
{
    let r = rank + d_rank;
    let f = file + d_file;
    let whole = ray(rank, file, own, other, d_rank, d_file, one);
    assert(1 * d_rank == d_rank && 1 * d_file == d_file);
    if on_board(r, f) {
        let next = Square { rank: r as u8, file: f as u8 };
        if !own.contains(next) && !(other.contains(next) || one) {
            lemma_ray_ends(r, f, own, other, d_rank, d_file, one);
            let rest = ray(r, f, own, other, d_rank, d_file, one);
            assert(whole == seq![next] + rest);
            let n = rest.len() as int;
            assert((n + 1 + 1) * d_rank == (n + 1) * d_rank + d_rank) by (nonlinear_arith);
            assert((n + 1 + 1) * d_file == (n + 1) * d_file + d_file) by (nonlinear_arith);
            if n >= 1 {
                assert(whole.last() == rest.last());
            }
        }
    }
}

/// Every square of a walk lies on the board and is free of the mover's own pieces, and
/// every square but the last is free of the opponent's pieces too.
pub proof fn lemma_ray(
    rank: int,
    file: int,
    own: Bitboard,
    other: Bitboard,
    d_rank: int,
    d_file: int,
    one: bool,
)
    ensures
        forall|i: int|
            #![trigger ray(rank, file, own, other, d_rank, d_file, one)[i]]
            0 <= i < ray(rank, file, own, other, d_rank, d_file, one).len() ==> {
                let sq = ray(rank, file, own, other, d_rank, d_file, one)[i];
                &&& sq.valid()
                &&& sq.rank == rank + (i + 1) * d_rank
                &&& sq.file == file + (i + 1) * d_file
                &&& !own.contains(sq)
                &&& i + 1 < ray(rank, file, own, other, d_rank, d_file, one).len()
                    ==> !other.contains(sq)
            },
        one ==> ray(rank, file, own, other, d_rank, d_file, one).len() <= 1,
    decreases room(rank, file, d_rank, d_file),
{
    let r = rank + d_rank;
    let f = file + d_file;
    let whole = ray(rank, file, own, other, d_rank, d_file, one);
    if (d_rank == 0 && d_file == 0) || !on_board(rank, file) || !on_board(r, f) {
    } else {
        let next = Square { rank: r as u8, file: f as u8 };
        let rest = ray(r, f, own, other, d_rank, d_file, one);
        if !own.contains(next) {
            if !(other.contains(next) || one) {
                lemma_ray(r, f, own, other, d_rank, d_file, one);
                assert(whole == seq![next] + rest);
            } else {
                assert(whole == seq![next]);
            }
            assert forall|i: int| 0 <= i < whole.len() implies {
                let sq = #[trigger] whole[i];
                &&& sq.valid()
                &&& sq.rank == rank + (i + 1) * d_rank
                &&& sq.file == file + (i + 1) * d_file
                &&& !own.contains(sq)
                &&& i + 1 < whole.len() ==> !other.contains(sq)
            } by {
                assert((i + 1) * d_rank == i * d_rank + d_rank) by (nonlinear_arith);
                assert((i + 1) * d_file == i * d_file + d_file) by (nonlinear_arith);
                if i > 0 {
                    assert(whole[i] == rest[i - 1]);
                    assert(rest[i - 1].rank == r + i * d_rank);
                    assert(rest[i - 1].file == f + i * d_file);
                } else {
                    assert(whole[0] == next);
                    assert(0 * d_rank == 0);
                    assert(0 * d_file == 0);
                }
            }
        }
    }
}

} // verus!
