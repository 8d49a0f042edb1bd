//! Bit-level facts about `u64` masks used by the sub-block grid.

use vstd::prelude::*;

verus! {

/// Bit `i` of `m` is set.
pub open spec fn bit(m: u64, i: u64) -> bool {
    (m >> i) & 1u64 == 1u64
}

/// No bit of zero is set.
pub proof fn lemma_bit_zero(i: u64)
    requires
        i < 64,
    ensures
        !bit(0u64, i),
{
    assert((0u64 >> i) & 1u64 == 0u64) by (bit_vector);
}

/// Setting bit `k` changes bit `k` and no other.
pub proof fn lemma_bit_or_shift(m: u64, k: u64, j: u64)
    requires
        k < 64,
        j < 64,
    ensures
        bit(m | (1u64 << k), j) == (bit(m, j) || j == k),
{
    assert((((m | (1u64 << k)) >> j) & 1u64 == 1u64) == (((m >> j) & 1u64 == 1u64) || j == k))
        by (bit_vector)
        requires
            k < 64,
            j < 64,
    ;
}

/// Masking with a single bit tests that bit.
pub proof fn lemma_and_single(m: u64, k: u64)
    requires
        k < 64,
    ensures
        (m & (1u64 << k) != 0u64) == bit(m, k),
{
    assert((m & (1u64 << k) != 0u64) == ((m >> k) & 1u64 == 1u64)) by (bit_vector)
        requires
            k < 64,
    ;
}

proof fn lemma_low_step(a: u64, b: u64, k: u64)
    requires
        k < 63,
        a & !(0xFFFF_FFFF_FFFF_FFFFu64 << k) == b & !(0xFFFF_FFFF_FFFF_FFFFu64 << k),
        (a >> k) & 1u64 == (b >> k) & 1u64,
    ensures
        a & !(0xFFFF_FFFF_FFFF_FFFFu64 << (k + 1) as u64) == b & !(0xFFFF_FFFF_FFFF_FFFFu64 << (
        k + 1) as u64),
{
    assert(a & !(0xFFFF_FFFF_FFFF_FFFFu64 << (k + 1) as u64) == b & !(0xFFFF_FFFF_FFFF_FFFFu64 << (
    k + 1) as u64)) by (bit_vector)
        requires
            k < 63,
            a & !(0xFFFF_FFFF_FFFF_FFFFu64 << k) == b & !(0xFFFF_FFFF_FFFF_FFFFu64 << k),
            (a >> k) & 1u64 == (b >> k) & 1u64,
    ;
}

proof fn lemma_low_upto(a: u64, b: u64, k: u64)
    requires
        k <= 63,
        forall|i: u64| #![trigger bit(a, i)] i < k ==> bit(a, i) == bit(b, i),
    ensures
        a & !(0xFFFF_FFFF_FFFF_FFFFu64 << k) == b & !(0xFFFF_FFFF_FFFF_FFFFu64 << k),
    decreases k,
{
    if k == 0 {
        assert(a & !(0xFFFF_FFFF_FFFF_FFFFu64 << 0u64) == 0u64) by (bit_vector);
        assert(b & !(0xFFFF_FFFF_FFFF_FFFFu64 << 0u64) == 0u64) by (bit_vector);
    } else {
        let j = (k - 1) as u64;
        lemma_low_upto(a, b, j);
        assert(bit(a, j) == bit(b, j));
        assert((a >> j) & 1u64 == (b >> j) & 1u64) by (bit_vector)
            requires
                ((a >> j) & 1u64 == 1u64) == ((b >> j) & 1u64 == 1u64),
        ;
        lemma_low_step(a, b, j);
    }
}

/// Two masks that agree on all 64 bits are equal.
pub proof fn lemma_bits_ext(a: u64, b: u64)
    requires
        forall|i: u64| #![trigger bit(a, i)] i < 64 ==> bit(a, i) == bit(b, i),
    ensures
        a == b,
{
    lemma_low_upto(a, b, 63);
    assert(bit(a, 63) == bit(b, 63));
    assert(a == b) by (bit_vector)
        requires
            a & !(0xFFFF_FFFF_FFFF_FFFFu64 << 63u64) == b & !(0xFFFF_FFFF_FFFF_FFFFu64 << 63u64),
            ((a >> 63u64) & 1u64 == 1u64) == ((b >> 63u64) & 1u64 == 1u64),
    ;
}


/// A bit of `a & b` is set exactly when it is set in both.
pub proof fn lemma_bit_and(a: u64, b: u64, i: u64)
    requires
        i < 64,
    ensures
        bit(a & b, i) == (bit(a, i) && bit(b, i)),
{
    assert((((a & b) >> i) & 1u64 == 1u64) == (((a >> i) & 1u64 == 1u64) && ((b >> i) & 1u64 == 1u64)))
        by (bit_vector)
        requires
            i < 64,
    ;
}

/// Filling a mask index by index: after handling index `i`, the mask holds
/// exactly the indices below `i + 1` that `keep` selects.
pub proof fn lemma_fill_step(old: u64, new: u64, i: u64, keep: spec_fn(u64) -> bool)
    requires
        i < 64,
        forall|j: u64| #![trigger bit(old, j)] j < 64 ==> bit(old, j) == (j < i && keep(j)),
        new == (if keep(i) { old | (1u64 << i) } else { old }),
    ensures
        forall|j: u64| #![trigger bit(new, j)] j < 64 ==> bit(new, j) == (j < i + 1 && keep(j)),
{
    assert forall|j: u64| j < 64 implies #[trigger] bit(new, j) == (j < i + 1 && keep(j)) by {
        assert(bit(old, j) == (j < i && keep(j)));
        if keep(i) {
            lemma_bit_or_shift(old, i, j);
        }
    }
}

/// Moving bits along a permutation of the 64 indices, one source index at a
/// time: after handling source index `i`, target bit `j` holds the source bit
/// `back(j)` if that source index is below `i + 1`, and is clear otherwise.
pub proof fn lemma_permute_step(
    mask: u64,
    old: u64,
    new: u64,
    i: u64,
    fwd: spec_fn(u64) -> u64,
    back: spec_fn(u64) -> u64,
)
    requires
        i < 64,
        forall|k: u64| #![trigger fwd(k)] k < 64 ==> fwd(k) < 64 && back(fwd(k)) == k,
        forall|k: u64| #![trigger back(k)] k < 64 ==> back(k) < 64 && fwd(back(k)) == k,
        forall|j: u64| #![trigger bit(old, j)] j < 64 ==> bit(old, j) == (back(j) < i && bit(mask, back(j))),
        new == (if bit(mask, i) { old | (1u64 << fwd(i)) } else { old }),
    ensures
        forall|j: u64| #![trigger bit(new, j)] j < 64 ==> bit(new, j) == (back(j) < i + 1 && bit(mask, back(j))),
{
    assert(fwd(i) < 64 && back(fwd(i)) == i);
    assert forall|j: u64| j < 64 implies #[trigger] bit(new, j) == (back(j) < i + 1 && bit(mask, back(j))) by {
        assert(bit(old, j) == (back(j) < i && bit(mask, back(j))));
        assert(back(j) < 64 && fwd(back(j)) == j);
        if bit(mask, i) {
            lemma_bit_or_shift(old, fwd(i), j);
        }
    }
}

} // verus!
