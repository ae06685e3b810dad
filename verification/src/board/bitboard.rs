//! An 81-bit set of squares, one bit per square of the 9x9 grid.

use crate::board::bits::{
    has_bit, lemma_bit_mask, lemma_bit_ops, lemma_bit_shr, lemma_bits_equal, lemma_single_bit,
    single_bit,
};
use crate::model::{lemma_square_pos, Square};
use vstd::prelude::*;
use vstd::std_specs::ops::{BitAndSpecImpl, BitOrSpecImpl, BitXorSpecImpl};

verus! {

/// The set that holds every square of the board.
pub const BIT_BOARD_FULL: u128 =
    0b_111111111_111111111_111111111_111111111_111111111_111111111_111111111_111111111_111111111;

/// `u128::reverse_bits` mirrors the word: bit `i` of the result is bit `127 - i` of the
/// argument.
pub assume_specification[ u128::reverse_bits ](x: u128) -> (r: u128)
    ensures
        forall|i: int| 0 <= i < 128 ==> has_bit(r, i) == has_bit(x, 127 - i),
;

/// A set of squares. Bit `(rank - 1) * 9 + (9 - file)` of the word is one exactly when the
/// square is a member.
#[derive(Clone, Copy)]
pub struct Bitboard(pub u128);

impl View for Bitboard {
    type V = Set<int>;

    /// The grid positions of the members.
    open spec fn view(&self) -> Set<int> {
        Set::new(|pos: int| has_bit(self.0, pos))
    }
}

impl core::ops::BitAnd for Bitboard {
    type Output = Bitboard;

    fn bitand(self, rhs: Self) -> Self::Output {
        Bitboard(self.0 & rhs.0)
    }
}

impl BitAndSpecImpl for Bitboard {
    open spec fn obeys_bitand_spec() -> bool {
        true
    }

    open spec fn bitand_req(self, rhs: Self) -> bool {
        true
    }

    open spec fn bitand_spec(self, rhs: Self) -> Self::Output {
        Bitboard(self.0 & rhs.0)
    }
}

impl core::ops::BitOr for Bitboard {
    type Output = Bitboard;

    fn bitor(self, rhs: Self) -> Self::Output {
        Bitboard(self.0 | rhs.0)
    }
}

impl BitOrSpecImpl for Bitboard {
    open spec fn obeys_bitor_spec() -> bool {
        true
    }

    open spec fn bitor_req(self, rhs: Self) -> bool {
        true
    }

    open spec fn bitor_spec(self, rhs: Self) -> Self::Output {
        Bitboard(self.0 | rhs.0)
    }
}

impl core::ops::BitXor for Bitboard {
    type Output = Bitboard;

    fn bitxor(self, rhs: Self) -> Self::Output {
        Bitboard(self.0 ^ rhs.0)
    }
}

impl BitXorSpecImpl for Bitboard {
    open spec fn obeys_bitxor_spec() -> bool {
        true
    }

    open spec fn bitxor_req(self, rhs: Self) -> bool {
        true
    }

    open spec fn bitxor_spec(self, rhs: Self) -> Self::Output {
        Bitboard(self.0 ^ rhs.0)
    }
}

impl Bitboard {
    /// Whether the square is a member.
    pub open spec fn contains(self, sq: Square) -> bool {
        self@.contains(sq.pos())
    }

    /// Whether every member is a square of the board.
    pub open spec fn wf(self) -> bool {
        self.0 <= BIT_BOARD_FULL
    }

    /// The set with the member at grid position `pos` added.
    pub open spec fn with(self, pos: int) -> Bitboard {
        Bitboard(self.0 | single_bit(pos))
    }

    /// The set with the member at grid position `pos` taken out.
    pub open spec fn without(self, pos: int) -> Bitboard {
        Bitboard(self.0 & !single_bit(pos))
    }

    /// The members as the other side of the board sees them: position `p` of the grid becomes
    /// position `80 - p`, and what lies outside the board is dropped.
    pub open spec fn rotated_members(self) -> Set<int> {
        Set::new(|pos: int| 0 <= pos < 81 && self@.contains(80 - pos))
    }

    /// The members below grid position `n`, in ascending order.
    pub open spec fn members_below(self, n: int) -> Seq<int>
        decreases n,
    {
        if n <= 0 {
            Seq::empty()
        } else if self@.contains(n - 1) {
            self.members_below(n - 1).push(n - 1)
        } else {
            self.members_below(n - 1)
        }
    }

    /// All members, in ascending order of grid position.
    pub open spec fn members(self) -> Seq<int> {
        self.members_below(128)
    }

    /// How many members lie on `file` in the ranks up to `rank`.
    pub open spec fn file_count_upto(self, file: u8, rank: int) -> nat
        decreases rank,
    {
        if rank <= 0 {
            0
        } else if self.contains(Square { file, rank: rank as u8 }) {
            self.file_count_upto(file, rank - 1) + 1
        } else {
            self.file_count_upto(file, rank - 1)
        }
    }

    /// How many members lie on `file`.
    pub open spec fn file_count(self, file: u8) -> nat {
        self.file_count_upto(file, 9)
    }

    /// The set without members.
    pub fn empty() -> (b: Bitboard)
        ensures
            b@ == Set::<int>::empty(),
            b.0 == 0,
            b.wf(),
    {
        let b = Bitboard(0);
        proof {
            lemma_empty_word();
            assert(b@ =~= Set::<int>::empty());
        }
        b
    }

    /// The set of all squares of the board.
    pub fn full() -> (b: Bitboard)
        ensures
            b@ == Set::new(|pos: int| 0 <= pos < 81),
            b.0 == BIT_BOARD_FULL,
            b.wf(),
    {
        let b = Bitboard(BIT_BOARD_FULL);
        proof {
            assert forall|pos: int| has_bit(BIT_BOARD_FULL, pos) <==> 0 <= pos < 81 by {
                if 0 <= pos < 128 {
                    lemma_full_word(pos as u32);
                }
            }
            assert(b@ =~= Set::new(|pos: int| 0 <= pos < 81));
        }
        b
    }

    /// Whether the square is a member.
    pub fn is_filled(&self, sq: &Square) -> (b: bool)
        requires
            sq.valid(),
        ensures
            b == self.contains(*sq),
    {
        let pos = sq_to_pos(sq);
        proof {
            lemma_bit_mask(self.0, pos as u32);
        }
        self.0 & (1u128 << pos) != 0
    }

    /// Adds a square that is not yet a member.
    pub fn fill(&mut self, sq: &Square)
        requires
            sq.valid(),
            !old(self).contains(*sq),
        ensures
            *final(self) == old(self).with(sq.pos()),
            final(self)@ == old(self)@.insert(sq.pos()),
            old(self).wf() ==> final(self).wf(),
    {
        let pos = sq_to_pos(sq);
        let ghost before = *self;
        self.0 ^= 1u128 << pos;
        proof {
            lemma_bit_mask(before.0, pos as u32);
            lemma_toggle_is_set_or_clear(before.0, pos as u32);
            lemma_toggle(before.0, pos as u32);
            assert(self@ =~= before@.insert(sq.pos()));
            if before.wf() {
                lemma_wf_iff(before);
                lemma_wf_iff(*self);
            }
        }
    }

    /// Takes a member out.
    pub fn remove(&mut self, sq: &Square)
        requires
            sq.valid(),
            old(self).contains(*sq),
        ensures
            *final(self) == old(self).without(sq.pos()),
            final(self)@ == old(self)@.remove(sq.pos()),
            old(self).wf() ==> final(self).wf(),
    {
        let pos = sq_to_pos(sq);
        let ghost before = *self;
        self.0 ^= 1u128 << pos;
        proof {
            lemma_bit_mask(before.0, pos as u32);
            lemma_toggle_is_set_or_clear(before.0, pos as u32);
            lemma_toggle(before.0, pos as u32);
            assert(self@ =~= before@.remove(sq.pos()));
            if before.wf() {
                lemma_wf_iff(before);
                lemma_wf_iff(*self);
            }
        }
    }

    /// The set seen from the other side of the board: the member at grid position `p` goes
    /// to position `80 - p`, that is, `(file, rank)` goes to `(10 - file, 10 - rank)`.
    /// What lies outside the board is dropped.
    pub fn rotate180(&self) -> (r: Bitboard)
        ensures
            r@ == self.rotated_members(),
            r.wf(),
    {
        let reversed = self.0.reverse_bits();
        let r = Bitboard(reversed >> 47);
        proof {
            assert forall|pos: int| has_bit(r.0, pos) <==> (0 <= pos < 81 && has_bit(
                self.0,
                80 - pos,
            )) by {
                if 0 <= pos < 128 {
                    lemma_bit_shr(reversed, 47, pos as u32);
                    if pos + 47 < 128 {
                        assert(has_bit(reversed, pos + 47) == has_bit(self.0, 127 - (pos + 47)));
                    }
                }
            }
            assert(r@ =~= self.rotated_members());
            lemma_wf_iff(r);
        }
        r
    }

    /// The grid positions of the members, each once, in ascending order. The set itself is
    /// left as it is.
    pub fn iter(&self) -> (v: Vec<u32>)
        ensures
            v@.len() == self.members().len(),
            forall|i: int| 0 <= i < v@.len() ==> v@[i] as int == self.members()[i],
            forall|i: int, j: int| 0 <= i < j < v@.len() ==> v@[i] < v@[j],
            forall|i: int| 0 <= i < v@.len() ==> self@.contains(#[trigger] v@[i] as int),
            forall|pos: int|
                self@.contains(pos) ==> exists|i: int| 0 <= i < v@.len() && v@[i] as int == pos,
    {
        let mut v: Vec<u32> = Vec::new();
        let mut pos: u32 = 0;
        while pos < 128
            invariant
                pos <= 128,
                v@.len() == self.members_below(pos as int).len(),
                forall|i: int| 0 <= i < v@.len() ==> v@[i] as int == self.members_below(pos as int)[i],
            decreases 128 - pos,
        {
            proof {
                lemma_bit_mask(self.0, pos);
            }
            if self.0 & (1u128 << pos) != 0 {
                v.push(pos);
            }
            pos += 1;
        }
        proof {
            lemma_members(*self);
            let listed = self.members();
            assert forall|pos: int| self@.contains(pos) implies exists|i: int|
                0 <= i < v@.len() && v@[i] as int == pos by {
                assert(listed.contains(pos));
                let i = choose|i: int| 0 <= i < listed.len() && listed[i] == pos;
                assert(v@[i] as int == pos);
            }
        }
        v
    }

    /// How many members lie on `file`.
    pub fn file_count_ones(&self, file: u8) -> (n: u32)
        requires
            1 <= file <= 9,
        ensures
            n == self.file_count(file),
    {
        let mut n: u32 = 0;
        let mut rank: u8 = 1;
        while rank <= 9
            invariant
                1 <= file <= 9,
                1 <= rank <= 10,
                n == self.file_count_upto(file, rank - 1),
                n < rank,
            decreases 10 - rank,
        {
            if self.is_filled(&Square { file, rank }) {
                n += 1;
            }
            rank += 1;
        }
        n
    }
}

/// The grid position of a square.
pub fn sq_to_pos(sq: &Square) -> (pos: u8)
    requires
        sq.valid(),
    ensures
        pos == sq.pos(),
        pos < 81,
{
    (sq.rank - 1) * 9 + 9 - sq.file
}

proof fn lemma_empty_word()
    ensures
        forall|pos: int| !has_bit(0, pos),
{
    assert forall|pos: int| !has_bit(0, pos) by {
        if 0 <= pos < 128 {
            let p = pos as u32;
            assert((0u128 >> p) & 1 != 1) by (bit_vector);
        }
    }
}

proof fn lemma_full_word(p: u32)
    requires
        p < 128,
    ensures
        has_bit(BIT_BOARD_FULL, p as int) <==> p < 81,
{
    assert(((0x1_ffff_ffff_ffff_ffff_ffffu128 >> p) & 1 == 1) <==> p < 81) by (bit_vector)
        requires
            p < 128,
    ;
}

/// Flipping a bit that is zero sets it, and flipping a bit that is one clears it.
proof fn lemma_toggle_is_set_or_clear(x: u128, p: u32)
    requires
        p < 128,
    ensures
        x & (1u128 << p) == 0 ==> x ^ (1u128 << p) == x | (1u128 << p),
        x & (1u128 << p) != 0 ==> x ^ (1u128 << p) == x & !(1u128 << p),
{
    assert(x & (1u128 << p) == 0 ==> x ^ (1u128 << p) == x | (1u128 << p)) by (bit_vector);
    assert(x & (1u128 << p) != 0 ==> x ^ (1u128 << p) == x & !(1u128 << p)) by (bit_vector);
}

/// Adding and taking out a member are what they are on the set of positions, and keep a
/// well-formed set well formed when the position is on the board.
pub proof fn lemma_with_without(b: Bitboard, pos: int)
    requires
        0 <= pos < 128,
    ensures
        b.with(pos)@ == b@.insert(pos),
        b.without(pos)@ == b@.remove(pos),
        b.wf() ==> b.without(pos).wf(),
        b.wf() && pos < 81 ==> b.with(pos).wf(),
{
    let p = pos as u32;
    let x = b.0;
    assert forall|i: int| #[trigger] has_bit(x | single_bit(pos), i) <==> (i == pos || has_bit(x, i)) by {
        if 0 <= i < 128 {
            let j = i as u32;
            assert((((x | (1u128 << p)) >> j) & 1 == 1) <==> (j == p || (x >> j) & 1 == 1))
                by (bit_vector)
                requires
                    p < 128,
                    j < 128,
            ;
        }
    }
    assert forall|i: int| #[trigger] has_bit(x & !single_bit(pos), i) <==> (i != pos && has_bit(x, i)) by {
        if 0 <= i < 128 {
            let j = i as u32;
            assert((((x & !(1u128 << p)) >> j) & 1 == 1) <==> (j != p && (x >> j) & 1 == 1))
                by (bit_vector)
                requires
                    p < 128,
                    j < 128,
            ;
        }
    }
    assert(b.with(pos)@ =~= b@.insert(pos));
    assert(b.without(pos)@ =~= b@.remove(pos));
    lemma_wf_iff(b);
    lemma_wf_iff(b.with(pos));
    lemma_wf_iff(b.without(pos));
}

/// Flipping one bit of a word changes that bit and no other.
proof fn lemma_toggle(x: u128, p: u32)
    requires
        p < 128,
    ensures
        forall|i: int|
            has_bit(x ^ (1u128 << p), i) <==> (if i == p {
                !has_bit(x, i)
            } else {
                has_bit(x, i)
            }),
{
    assert forall|i: int|
        has_bit(x ^ (1u128 << p), i) <==> (if i == p {
            !has_bit(x, i)
        } else {
            has_bit(x, i)
        }) by {
        if 0 <= i < 128 {
            lemma_bit_ops(x, single_bit(p as int), i as u32);
            lemma_single_bit(p, i as u32);
        }
    }
}

/// A set is well formed exactly when it has no member past the last square.
pub proof fn lemma_wf_iff(b: Bitboard)
    ensures
        b.wf() <==> (forall|pos: int| b@.contains(pos) ==> 0 <= pos < 81),
{
    let x = b.0;
    if b.wf() {
        assert forall|pos: int| b@.contains(pos) implies 0 <= pos < 81 by {
            let p = pos as u32;
            assert(x <= 0x1_ffff_ffff_ffff_ffff_ffffu128 && 81 <= p < 128 ==> (x >> p) & 1 != 1)
                by (bit_vector);
        }
    }
    if forall|pos: int| b@.contains(pos) ==> 0 <= pos < 81 {
        let y = x & BIT_BOARD_FULL;
        assert forall|i: int| 0 <= i < 128 implies has_bit(y, i) == has_bit(x, i) by {
            lemma_bit_ops(x, BIT_BOARD_FULL, i as u32);
            lemma_full_word(i as u32);
            assert(b@.contains(i) == has_bit(x, i));
        }
        lemma_bits_equal(y, x);
        assert(x & 0x1_ffff_ffff_ffff_ffff_ffffu128 <= 0x1_ffff_ffff_ffff_ffff_ffffu128)
            by (bit_vector);
    }
}

/// Intersection, union and symmetric difference of the words are those of the sets, and
/// keep the members on the board.
pub proof fn lemma_set_algebra(a: Bitboard, b: Bitboard)
    ensures
        Bitboard(a.0 & b.0)@ == a@.intersect(b@),
        Bitboard(a.0 | b.0)@ == a@.union(b@),
        Bitboard(a.0 ^ b.0)@ == a@.union(b@).difference(a@.intersect(b@)),
        a.wf() && b.wf() ==> Bitboard(a.0 & b.0).wf() && Bitboard(a.0 | b.0).wf() && Bitboard(
            a.0 ^ b.0,
        ).wf(),
{
    assert forall|i: int|
        (has_bit(a.0 & b.0, i) <==> has_bit(a.0, i) && has_bit(b.0, i)) && (has_bit(a.0 | b.0, i)
            <==> has_bit(a.0, i) || has_bit(b.0, i)) && (has_bit(a.0 ^ b.0, i) <==> has_bit(
            a.0,
            i,
        ) != has_bit(b.0, i)) by {
        if 0 <= i < 128 {
            lemma_bit_ops(a.0, b.0, i as u32);
        }
    }
    assert(Bitboard(a.0 & b.0)@ =~= a@.intersect(b@));
    assert(Bitboard(a.0 | b.0)@ =~= a@.union(b@));
    assert(Bitboard(a.0 ^ b.0)@ =~= a@.union(b@).difference(a@.intersect(b@)));
    lemma_wf_iff(a);
    lemma_wf_iff(b);
    lemma_wf_iff(Bitboard(a.0 & b.0));
    lemma_wf_iff(Bitboard(a.0 | b.0));
    lemma_wf_iff(Bitboard(a.0 ^ b.0));
}

/// The full set holds exactly the grid positions of the board.
pub proof fn lemma_full_members(pos: int)
    ensures
        Bitboard(BIT_BOARD_FULL)@.contains(pos) <==> 0 <= pos < 81,
{
    if 0 <= pos < 128 {
        lemma_full_word(pos as u32);
    }
}

/// A file counts no member exactly when none of its squares, up to `rank`, is a member.
pub proof fn lemma_file_count(b: Bitboard, file: u8, rank: int)
    requires
        rank <= 9,
    ensures
        b.file_count_upto(file, rank) == 0 <==> (forall|r: u8|
            1 <= r <= rank ==> !#[trigger] b.contains(Square { file, rank: r })),
    decreases rank,
{
    if rank > 0 {
        lemma_file_count(b, file, rank - 1);
        if b.file_count_upto(file, rank) == 0 {
            assert forall|r: u8| 1 <= r <= rank implies !#[trigger] b.contains(
                Square { file, rank: r },
            ) by {
                if r == rank {
                    assert(Square { file, rank: r } == Square { file, rank: rank as u8 });
                }
            }
        }
        let top = rank as u8;
        if b.contains(Square { file, rank: top }) {
            assert(b.file_count_upto(file, rank) > 0);
        } else {
            assert(b.file_count_upto(file, rank) == b.file_count_upto(file, rank - 1));
            if forall|r: u8| 1 <= r <= rank ==> !#[trigger] b.contains(Square { file, rank: r }) {
                assert forall|r: u8| 1 <= r <= rank - 1 implies !#[trigger] b.contains(
                    Square { file, rank: r },
                ) by {}
            }
        }
    }
}

/// Two sets with the same members are the same value.
pub proof fn lemma_same_members(a: Bitboard, b: Bitboard)
    requires
        a@ == b@,
    ensures
        a == b,
{
    assert forall|i: int| 0 <= i < 128 implies has_bit(a.0, i) == has_bit(b.0, i) by {
        assert(a@.contains(i) == has_bit(a.0, i));
        assert(b@.contains(i) == has_bit(b.0, i));
    }
    lemma_bits_equal(a.0, b.0);
}

/// The listing of the members below `n` is strictly ascending and holds exactly the members
/// below `n`.
pub proof fn lemma_members_below(b: Bitboard, n: int)
    ensures
        forall|i: int, j: int|
            0 <= i < j < b.members_below(n).len() ==> b.members_below(n)[i] < b.members_below(
                n,
            )[j],
        forall|i: int|
            0 <= i < b.members_below(n).len() ==> 0 <= #[trigger] b.members_below(n)[i] < n
                && b@.contains(b.members_below(n)[i]),
        forall|pos: int|
            0 <= pos < n && b@.contains(pos) ==> b.members_below(n).contains(pos),
    decreases n,
{
    if n > 0 {
        lemma_members_below(b, n - 1);
        let prev = b.members_below(n - 1);
        let cur = b.members_below(n);
        assert forall|pos: int| 0 <= pos < n && b@.contains(pos) implies cur.contains(pos) by {
            if pos < n - 1 {
                assert(prev.contains(pos));
                let i = choose|i: int| 0 <= i < prev.len() && prev[i] == pos;
                assert(cur[i] == pos);
            } else {
                assert(cur[cur.len() - 1] == pos);
            }
        }
    }
}

/// Listing a set yields exactly its members, each once, in strictly ascending order.
pub proof fn lemma_members(b: Bitboard)
    ensures
        forall|i: int, j: int|
            0 <= i < j < b.members().len() ==> b.members()[i] < b.members()[j],
        forall|i: int| 0 <= i < b.members().len() ==> b@.contains(#[trigger] b.members()[i]),
        forall|pos: int| b@.contains(pos) ==> b.members().contains(pos),
        b.members().no_duplicates(),
{
    lemma_members_below(b, 128);
}

/// A square added to the empty set is a member, and taking it out again leaves the empty
/// set.
pub proof fn lemma_fill_remove_round_trip(sq: Square, filled: Bitboard, removed: Bitboard)
    requires
        sq.valid(),
        filled@ == Bitboard(0)@.insert(sq.pos()),
        removed@ == filled@.remove(sq.pos()),
    ensures
        filled.contains(sq),
        removed == Bitboard(0),
{
    lemma_empty_word();
    assert(removed@ =~= Bitboard(0)@);
    lemma_same_members(removed, Bitboard(0));
}

/// Rotating a well-formed set twice gives the set back.
pub proof fn lemma_rotate_involution(b: Bitboard, once: Bitboard, twice: Bitboard)
    requires
        b.wf(),
        once@ == b.rotated_members(),
        twice@ == once.rotated_members(),
    ensures
        twice == b,
{
    lemma_wf_iff(b);
    assert forall|pos: int| twice@.contains(pos) == b@.contains(pos) by {
        if 0 <= pos < 81 {
            assert(once@.contains(80 - pos) == b@.contains(80 - (80 - pos)));
        }
    }
    assert(twice@ =~= b@);
    lemma_same_members(twice, b);
}

/// Rotation moves the member on `(file, rank)` to `(10 - file, 10 - rank)`.
pub proof fn lemma_rotate_square(b: Bitboard, sq: Square)
    requires
        sq.valid(),
    ensures
        b.rotated_members().contains(sq.rotated().pos()) == b.contains(sq),
{
    lemma_square_pos(sq, 0);
}

} // verus!
