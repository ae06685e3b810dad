//! Facts about single bits of a 128-bit word.

use vstd::prelude::*;

verus! {

/// Whether bit `pos` of `x` is one. Positions outside `0..128` hold no bit.
pub open spec fn has_bit(x: u128, pos: int) -> bool {
    0 <= pos < 128 && (x >> (pos as u32)) & 1 == 1
}

/// The word whose only one bit is bit `pos`.
pub open spec fn single_bit(pos: int) -> u128 {
    1u128 << (pos as u32)
}

/// The low `n` bits of `x`.
pub open spec fn low_bits(x: u128, n: int) -> u128 {
    x & !(u128::MAX << (n as u32))
}

/// A word with a single bit has that bit and no other, and is not zero.
pub proof fn lemma_single_bit(p: u32, i: u32)
    requires
        p < 128,
        i < 128,
    ensures
        has_bit(single_bit(p as int), i as int) <==> i == p,
        single_bit(p as int) != 0,
{
    assert(((1u128 << p) >> i) & 1 == 1 <==> i == p) by (bit_vector)
        requires
            p < 128,
            i < 128,
    ;
    assert((1u128 << p) != 0) by (bit_vector)
        requires
            p < 128,
    ;
}

/// The bits of an intersection, a union and a symmetric difference of two words.
pub proof fn lemma_bit_ops(a: u128, b: u128, i: u32)
    requires
        i < 128,
    ensures
        has_bit(a & b, i as int) <==> has_bit(a, i as int) && has_bit(b, i as int),
        has_bit(a | b, i as int) <==> has_bit(a, i as int) || has_bit(b, i as int),
        has_bit(a ^ b, i as int) <==> has_bit(a, i as int) != has_bit(b, i as int),
{
    assert((((a & b) >> i) & 1 == 1) <==> (((a >> i) & 1 == 1) && ((b >> i) & 1 == 1)))
        by (bit_vector);
    assert((((a | b) >> i) & 1 == 1) <==> (((a >> i) & 1 == 1) || ((b >> i) & 1 == 1)))
        by (bit_vector);
    assert((((a ^ b) >> i) & 1 == 1) <==> (((a >> i) & 1 == 1) != ((b >> i) & 1 == 1)))
        by (bit_vector);
}

/// A word has a bit exactly when masking it with that bit leaves something.
pub proof fn lemma_bit_mask(x: u128, p: u32)
    requires
        p < 128,
    ensures
        x & single_bit(p as int) != 0 <==> has_bit(x, p as int),
{
    assert((x & (1u128 << p) != 0) <==> ((x >> p) & 1 == 1)) by (bit_vector)
        requires
            p < 128,
    ;
}

/// Shifting a word down by `s` moves bit `i + s` to bit `i`.
pub proof fn lemma_bit_shr(x: u128, s: u32, i: u32)
    requires
        s < 128,
        i < 128,
    ensures
        has_bit(x >> s, i as int) <==> has_bit(x, i + s),
{
    assert((((x >> s) >> i) & 1 == 1) <==> (i + s < 128 && ((x >> ((i + s) as u32)) & 1 == 1)))
        by (bit_vector)
        requires
            s < 128,
            i < 128,
    ;
}

proof fn lemma_low_bits_agree(a: u128, b: u128, n: u32)
    requires
        n <= 127,
        forall|i: int| 0 <= i < n ==> has_bit(a, i) == has_bit(b, i),
    ensures
        low_bits(a, n as int) == low_bits(b, n as int),
    decreases n,
{
    if n == 0 {
        assert(a & !(u128::MAX << 0u32) == 0) by (bit_vector);
        assert(b & !(u128::MAX << 0u32) == 0) by (bit_vector);
    } else {
        let m = (n - 1) as u32;
        lemma_low_bits_agree(a, b, m);
        assert(has_bit(a, m as int) == has_bit(b, m as int));
        lemma_low_bits_step(a, m);
        lemma_low_bits_step(b, m);
    }
}

proof fn lemma_low_bits_step(x: u128, m: u32)
    requires
        m < 127,
    ensures
        low_bits(x, m + 1) == low_bits(x, m as int) | (if has_bit(x, m as int) {
            single_bit(m as int)
        } else {
            0
        }),
{
    let n = (m + 1) as u32;
    assert(x & !(u128::MAX << n) == (x & !(u128::MAX << m)) | (if (x >> m) & 1 == 1 {
        1u128 << m
    } else {
        0
    })) by (bit_vector)
        requires
            m < 127,
            n == m + 1,
    ;
}

/// Two words with the same bits are the same word.
pub proof fn lemma_bits_equal(a: u128, b: u128)
    requires
        forall|i: int| 0 <= i < 128 ==> has_bit(a, i) == has_bit(b, i),
    ensures
        a == b,
{
    lemma_low_bits_agree(a, b, 127);
    assert(has_bit(a, 127) == has_bit(b, 127));
    assert(a == (a & !(u128::MAX << 127u32)) | (if (a >> 127u32) & 1 == 1 {
        1u128 << 127u32
    } else {
        0
    })) by (bit_vector);
    assert(b == (b & !(u128::MAX << 127u32)) | (if (b >> 127u32) & 1 == 1 {
        1u128 << 127u32
    } else {
        0
    })) by (bit_vector);
}

} // verus!
