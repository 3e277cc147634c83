//! Alignment arithmetic on addresses.

use vstd::prelude::*;
use vstd::arithmetic::power2::{lemma2_to64, lemma_pow2_unfold, pow2};

verus! {

/// `n` is two raised to some natural number.
pub open spec fn is_pow2(n: int) -> bool {
    exists|k: nat| n == pow2(k)
}

/// `address` is a multiple of `alignment`.
pub open spec fn is_aligned(address: int, alignment: int) -> bool
    recommends
        alignment > 0,
{
    address % alignment == 0
}

/// The number of bytes to skip from `address` to reach the next multiple of
/// `alignment`; zero when `address` is one already.
pub open spec fn padding(address: int, alignment: int) -> int
    recommends
        alignment > 0,
{
    (alignment - address % alignment) % alignment
}

/// The least multiple of `alignment` that is not below `address`.
pub open spec fn align_up(address: int, alignment: int) -> int
    recommends
        alignment > 0,
{
    address + padding(address, alignment)
}

/// Whether `n` is a power of two.
pub fn is_power_of_two(n: usize) -> (r: bool)
    ensures
        r == is_pow2(n as int),
{
    let m: u64 = n as u64;
    proof {
        lemma_single_bit_iff_pow2(m);
    }
    m != 0 && m & (m - 1) == 0
}

/// The bytes to skip from `address` to the next multiple of `alignment`, or
/// `None` when `alignment` is not a power of two.
pub fn padding_for(address: usize, alignment: usize) -> (res: Option<usize>)
    ensures
        is_pow2(alignment as int) ==> res == Some(
            padding(address as int, alignment as int) as usize,
        ),
        !is_pow2(alignment as int) ==> res is None,
        res matches Some(p) ==> p < alignment && is_aligned(address + p, alignment as int),
{
    if !is_power_of_two(alignment) {
        return None;
    }
    proof {
        lemma_pow2_positive(alignment as int);
        lemma_padding_value(address as int, alignment as int);
        lemma_align_up_is_next_multiple(address as int, alignment as int);
    }
    let rest: usize = address % alignment;
    if rest == 0 {
        Some(0)
    } else {
        Some(alignment - rest)
    }
}

/// The padding is zero at a multiple of the alignment and otherwise what is
/// left of the alignment after the remainder; it is always below the alignment.
pub proof fn lemma_padding_value(address: int, alignment: int)
    requires
        alignment > 0,
    ensures
        0 <= padding(address, alignment) < alignment,
        address % alignment == 0 ==> padding(address, alignment) == 0,
        address % alignment != 0 ==> padding(address, alignment) == alignment - address
            % alignment,
{
    let r = address % alignment;
    assert(0 <= r < alignment);
    if r == 0 {
        assert(alignment % alignment == 0) by (nonlinear_arith)
            requires
                alignment > 0,
        ;
    } else {
        assert((alignment - r) % alignment == alignment - r) by (nonlinear_arith)
            requires
                0 < r < alignment,
        ;
    }
}

/// `align_up` is a multiple of the alignment, is not below the address, and
/// no multiple of the alignment lies between the two.
pub proof fn lemma_align_up_is_next_multiple(address: int, alignment: int)
    requires
        alignment > 0,
    ensures
        is_aligned(align_up(address, alignment), alignment),
        address <= align_up(address, alignment) < address + alignment,
        forall|m: int|
            address <= m && #[trigger] is_aligned(m, alignment) ==> align_up(address, alignment)
                <= m,
{
    lemma_padding_value(address, alignment);
    let r = address % alignment;
    if r != 0 {
        assert((address + (alignment - r)) % alignment == 0) by (nonlinear_arith)
            requires
                alignment > 0,
                r == address % alignment,
        ;
    }
    assert forall|m: int| address <= m && #[trigger] is_aligned(m, alignment) implies align_up(
        address,
        alignment,
    ) <= m by {
        lemma_no_multiple_between(address, alignment, m);
    }
}

/// A multiple of `alignment` at or above `address` lies at or above
/// `address` rounded up.
proof fn lemma_no_multiple_between(address: int, alignment: int, m: int)
    by (nonlinear_arith)
    requires
        alignment > 0,
        address <= m,
        m % alignment == 0,
    ensures
        address + (alignment - address % alignment) % alignment <= m,
{
}

/// A power of two is at least one.
pub proof fn lemma_pow2_positive(n: int)
    requires
        is_pow2(n),
    ensures
        n >= 1,
{
    let k = choose|k: nat| n == pow2(k);
    vstd::arithmetic::power2::lemma_pow2_pos(k);
}

/// The alignments in common use, from a single byte to a 1024-byte page,
/// are powers of two.
pub proof fn lemma_common_alignments()
    ensures
        is_pow2(1),
        is_pow2(2),
        is_pow2(4),
        is_pow2(8),
        is_pow2(16),
        is_pow2(1024),
{
    lemma2_to64();
    assert(1 == pow2(0) && 2 == pow2(1) && 4 == pow2(2) && 8 == pow2(3) && 16 == pow2(4) && 1024
        == pow2(10));
}

/// For a 64-bit word, having exactly one bit set is the same as being a
/// power of two.
proof fn lemma_single_bit_iff_pow2(m: u64)
    ensures
        (m != 0 && m & ((m - 1) as u64) == 0) <==> is_pow2(m as int),
{
    if m != 0 && m & ((m - 1) as u64) == 0 {
        lemma_single_bit_is_pow2(m);
    }
    if is_pow2(m as int) {
        let k = choose|k: nat| m as int == pow2(k);
        lemma_pow2_is_single_bit(k, m);
    }
}

/// A word with exactly one bit set is a power of two: halving it keeps the
/// one bit until the word is one.
proof fn lemma_single_bit_is_pow2(m: u64)
    requires
        m != 0,
        m & ((m - 1) as u64) == 0,
    ensures
        is_pow2(m as int),
    decreases m,
{
    if m == 1 {
        lemma2_to64();
        assert(m as int == pow2(0));
    } else {
        let h: u64 = m / 2;
        assert(h != 0 && h & ((h - 1) as u64) == 0 && m == 2 * h) by (bit_vector)
            requires
                m != 0,
                m != 1,
                m & ((m - 1) as u64) == 0,
                h == m / 2,
        ;
        lemma_single_bit_is_pow2(h);
        let k = choose|k: nat| h as int == pow2(k);
        lemma_pow2_unfold(k + 1);
        assert(m as int == pow2(k + 1));
    }
}

/// A power of two that fits a word has exactly one bit set: doubling a word
/// keeps its one bit.
proof fn lemma_pow2_is_single_bit(k: nat, m: u64)
    requires
        m as int == pow2(k),
    ensures
        m != 0,
        m & ((m - 1) as u64) == 0,
    decreases k,
{
    if k == 0 {
        lemma2_to64();
        assert(m == 1);
        assert(1u64 & ((1u64 - 1) as u64) == 0) by (bit_vector);
    } else {
        lemma_pow2_unfold(k);
        let h: u64 = (m / 2) as u64;
        assert(h as int == pow2((k - 1) as nat));
        lemma_pow2_is_single_bit((k - 1) as nat, h);
        assert(m != 0 && m & ((m - 1) as u64) == 0) by (bit_vector)
            requires
                h != 0,
                h & ((h - 1) as u64) == 0,
                m == 2 * h,
        ;
    }
}

} // verus!
