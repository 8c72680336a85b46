//! Counting the set bits of a 64-bit word.

use vstd::prelude::*;
use vstd::arithmetic::power2::{pow2, lemma_pow2_unfold, lemma2_to64_rest};

verus! {

/// Number of set bits of `x`.
pub open spec fn popcount(x: u64) -> nat
    decreases x,
{
    if x == 0 {
        0
    } else {
        (x % 2) as nat + popcount(x / 2)
    }
}

/// `u64::count_ones` returns the number of ones in the binary representation
/// of its argument.
pub assume_specification[ u64::count_ones ](i: u64) -> (r: u32)
    ensures
        r == popcount(i),
;

/// `u64::count_zeros` returns the number of zeros in the binary
/// representation of its argument, which has 64 digits.
pub assume_specification[ u64::count_zeros ](i: u64) -> (r: u32)
    ensures
        r == 64 - popcount(i),
;

/// A word below two to the power `n` has at most `n` set bits.
proof fn lemma_popcount_below(x: u64, n: nat)
    requires
        x < pow2(n),
    ensures
        popcount(x) <= n,
    decreases n,
{
    if x != 0 {
        if n == 0 {
            assert(pow2(0) == 1) by {
                vstd::arithmetic::power2::lemma2_to64();
            }
        } else {
            lemma_pow2_unfold(n);
            lemma_popcount_below(x / 2, (n - 1) as nat);
        }
    }
}

/// A word has at most 64 set bits.
pub proof fn lemma_popcount_le_64(x: u64)
    ensures
        popcount(x) <= 64,
{
    lemma2_to64_rest();
    lemma_popcount_below(x, 64);
}

/// Halving two disjoint words keeps them disjoint, and halves their union.
proof fn lemma_halves_disjoint(a: u64, b: u64)
    by (bit_vector)
    requires
        a & b == 0,
    ensures
        (a / 2) & (b / 2) == 0,
        (a | b) / 2 == (a / 2) | (b / 2),
        (a | b) % 2 == (a % 2) + (b % 2),
        a | b == 0 <==> a == 0 && b == 0,
{
}

/// The set bits of two disjoint words add up.
pub proof fn lemma_popcount_disjoint(a: u64, b: u64)
    requires
        a & b == 0,
    ensures
        popcount(a | b) == popcount(a) + popcount(b),
    decreases a + b,
{
    lemma_halves_disjoint(a, b);
    if a != 0 || b != 0 {
        lemma_popcount_disjoint(a / 2, b / 2);
    }
}

/// Half of a word with one bit set is the word with the next lower bit set.
proof fn lemma_square_bit_halves(k: u64)
    by (bit_vector)
    requires
        k < 64,
    ensures
        0x8000_0000_0000_0000u64 >> k != 0,
        k < 63 ==> (0x8000_0000_0000_0000u64 >> k) % 2 == 0,
        k < 63 ==> (0x8000_0000_0000_0000u64 >> k) / 2 == 0x8000_0000_0000_0000u64 >> ((k + 1) as u64),
        k == 63 ==> 0x8000_0000_0000_0000u64 >> k == 1,
{
}

/// A word with one bit set has one set bit.
pub proof fn lemma_popcount_one_bit(k: u64)
    requires
        k < 64,
    ensures
        popcount(0x8000_0000_0000_0000u64 >> k) == 1,
    decreases 64 - k,
{
    lemma_square_bit_halves(k);
    if k < 63 {
        lemma_popcount_one_bit((k + 1) as u64);
    } else {
        assert(popcount(1u64) == 1 + popcount(0u64));
    }
}

/// What holds of `and` and `or` with the empty word, and in either order.
pub proof fn lemma_mask_basics(a: u64, b: u64)
    by (bit_vector)
    ensures
        0u64 & a == 0,
        a & 0u64 == 0,
        a & b == b & a,
        a | b == b | a,
        a | b == 0 <==> a == 0 && b == 0,
{
}

/// Only the empty word has no set bit.
pub proof fn lemma_popcount_zero(x: u64)
    ensures
        popcount(x) == 0 <==> x == 0,
    decreases x,
{
    if x != 0 && x % 2 == 0 {
        lemma_popcount_zero(x / 2);
    }
}

/// What holds of the full word shifted down, and of a word with its
/// complement.
proof fn lemma_full_word(x: u64, j: u64)
    by (bit_vector)
    requires
        j < 64,
    ensures
        (0xFFFF_FFFF_FFFF_FFFFu64 >> j) != 0,
        (0xFFFF_FFFF_FFFF_FFFFu64 >> j) % 2 == 1,
        j < 63 ==> (0xFFFF_FFFF_FFFF_FFFFu64 >> j) / 2 == 0xFFFF_FFFF_FFFF_FFFFu64 >> ((j + 1) as u64),
        j == 63 ==> (0xFFFF_FFFF_FFFF_FFFFu64 >> j) / 2 == 0,
        0xFFFF_FFFF_FFFF_FFFFu64 >> 0 == 0xFFFF_FFFF_FFFF_FFFFu64,
        x & !x == 0,
        x | !x == 0xFFFF_FFFF_FFFF_FFFFu64,
        !x == 0 <==> x == 0xFFFF_FFFF_FFFF_FFFFu64,
{
}

/// The full word shifted down by `j` bits has `64 - j` set bits.
proof fn lemma_popcount_full(j: u64)
    requires
        j < 64,
    ensures
        popcount(0xFFFF_FFFF_FFFF_FFFFu64 >> j) == 64 - j,
    decreases 64 - j,
{
    lemma_full_word(0, j);
    let word = 0xFFFF_FFFF_FFFF_FFFFu64 >> j;
    assert(popcount(word) == (word % 2) as nat + popcount(word / 2));
    if j < 63 {
        lemma_popcount_full((j + 1) as u64);
    } else {
        assert(popcount(0u64) == 0);
    }
}

/// The complement of a word has the set bits that the word lacks, and only
/// the full word has 64 set bits.
pub proof fn lemma_popcount_complement(x: u64)
    ensures
        popcount(!x) == 64 - popcount(x),
        popcount(x) == 64 <==> x == 0xFFFF_FFFF_FFFF_FFFFu64,
{
    lemma_full_word(x, 0);
    lemma_popcount_full(0);
    lemma_popcount_disjoint(x, !x);
    lemma_popcount_zero(!x);
}

} // verus!
