//! What the pattern evaluator is built of: extracting and depositing bits,
//! turning the board, and reading the squares of a pattern as the digits of
//! a number in base three.
//!
//! Each square of a pattern gives one digit: 0 for an empty square, 1 for a
//! white disk, 2 for a black disk. The lowest bit of the mask gives the
//! lowest digit. A position is looked at in its four rotations, so that a
//! pattern stands for the four places on the board that it can take.

use vstd::prelude::*;
use vstd::set_lib::{lemma_map_size, lemma_int_range, lemma_len_subset, set_int_range};
use vstd::relations::injective_on;
use crate::bits::{popcount, lemma_popcount_le_64};
use crate::board::{Board, mask_has};
use crate::board::rules::lemma_mask_square;

verus! {

/// Bit `i` of `x`, as 0 or 1.
pub open spec fn bit(x: u64, i: int) -> u64 {
    (x >> (i as u64)) & 1
}

/// The bits of `value` under the bits of `mask` from bit `i` upwards,
/// pushed together: the lowest bit of the mask from `i` gives bit 0.
pub open spec fn pext_from(value: u64, mask: u64, i: int) -> u64
    decreases 64 - i,
{
    if i >= 64 || i < 0 {
        0
    } else if bit(mask, i) == 1 {
        (pext_from(value, mask, i + 1) << 1) | bit(value, i)
    } else {
        pext_from(value, mask, i + 1)
    }
}

/// Parallel bits extract: the bits of `value` under the bits of `mask`,
/// pushed together into the low bits.
pub open spec fn pext_spec(value: u64, mask: u64) -> u64 {
    pext_from(value, mask, 0)
}

/// The number of bits of `mask` below bit `i`.
pub open spec fn bits_below(mask: u64, i: int) -> int
    decreases i,
{
    if i <= 0 {
        0
    } else {
        bits_below(mask, i - 1) + bit(mask, i - 1)
    }
}

/// The low bits of `value` spread over the bits of `mask` below bit `i`:
/// the lowest bit of the mask takes bit 0.
pub open spec fn pdep_upto(value: u64, mask: u64, i: int) -> u64
    decreases i,
{
    if i <= 0 || i > 64 {
        0
    } else if bit(mask, i - 1) == 1 && bits_below(mask, i - 1) < 64 && bit(
        value,
        bits_below(mask, i - 1),
    ) == 1 {
        pdep_upto(value, mask, i - 1) | (1u64 << ((i - 1) as u64))
    } else {
        pdep_upto(value, mask, i - 1)
    }
}

/// Parallel bits deposit: the low bits of `value` spread over the bits of
/// `mask`.
pub open spec fn pdep_spec(value: u64, mask: u64) -> u64 {
    pdep_upto(value, mask, 64)
}

/// Extracts the bits of `value` that `mask` selects and pushes them
/// together into the low bits of the result.
pub fn pext64(value: u64, mask: u64) -> (r: u64)
    ensures
        r == pext_spec(value, mask),
{
    let mut result: u64 = 0;
    let mut i: u64 = 64;
    while i > 0
        invariant
            i <= 64,
            result == pext_from(value, mask, i as int),
        decreases i,
    {
        i -= 1;
        if (mask >> i) & 1 == 1 {
            result = (result << 1) | ((value >> i) & 1);
        }
    }
    result
}

/// Spreads the low bits of `value` over the bits that `mask` selects.
pub fn pdep64(value: u64, mask: u64) -> (r: u64)
    ensures
        r == pdep_spec(value, mask),
{
    let mut result: u64 = 0;
    let mut taken: u64 = 0;
    let mut i: u64 = 0;
    while i < 64
        invariant
            i <= 64,
            taken == bits_below(mask, i as int),
            taken <= i,
            result == pdep_upto(value, mask, i as int),
        decreases 64 - i,
    {
        proof {
            assert(((mask >> i) & 1) <= 1) by (bit_vector);
        }
        if (mask >> i) & 1 == 1 {
            if (value >> taken) & 1 == 1 {
                result = result | (1u64 << i);
            }
            taken += 1;
        }
        i += 1;
    }
    result
}

/// The mask with its ranks in reverse order: rank 1 becomes rank 8.
pub open spec fn flip_vertical_spec(x: u64) -> u64 {
    let a = ((x >> 8) & 0x00FF_00FF_00FF_00FFu64) | ((x & 0x00FF_00FF_00FF_00FFu64) << 8);
    let b = ((a >> 16) & 0x0000_FFFF_0000_FFFFu64) | ((a & 0x0000_FFFF_0000_FFFFu64) << 16);
    (b >> 32) | (b << 32)
}

/// The mask with ranks and files exchanged: the square on file `f` and rank
/// `r` becomes the square on file `r` and rank `f`.
pub open spec fn flip_diag_spec(x: u64) -> u64 {
    let t = 0x0F0F_0F0F_0000_0000u64 & (x ^ (x << 28));
    let a = x ^ (t ^ (t >> 28));
    let u = 0x3333_0000_3333_0000u64 & (a ^ (a << 14));
    let b = a ^ (u ^ (u >> 14));
    let v = 0x5500_5500_5500_5500u64 & (b ^ (b << 7));
    b ^ (v ^ (v >> 7))
}

/// The mask turned by a quarter: ranks and files are exchanged, then the
/// ranks are reversed.
pub open spec fn rotate_spec(x: u64) -> u64 {
    flip_vertical_spec(flip_diag_spec(x))
}

/// Reverses the order of the ranks of a mask.
pub fn flip_vertical(x: u64) -> (r: u64)
    ensures
        r == flip_vertical_spec(x),
{
    let a: u64 = ((x >> 8) & 0x00FF_00FF_00FF_00FF) | ((x & 0x00FF_00FF_00FF_00FF) << 8);
    let b: u64 = ((a >> 16) & 0x0000_FFFF_0000_FFFF) | ((a & 0x0000_FFFF_0000_FFFF) << 16);
    (b >> 32) | (b << 32)
}

/// Exchanges the ranks and files of a mask.
pub fn flip_diag(x: u64) -> (r: u64)
    ensures
        r == flip_diag_spec(x),
{
    let t: u64 = 0x0F0F_0F0F_0000_0000 & (x ^ (x << 28));
    let a: u64 = x ^ (t ^ (t >> 28));
    let u: u64 = 0x3333_0000_3333_0000 & (a ^ (a << 14));
    let b: u64 = a ^ (u ^ (u >> 14));
    let v: u64 = 0x5500_5500_5500_5500 & (b ^ (b << 7));
    b ^ (v ^ (v >> 7))
}

/// Turns a mask by a quarter.
pub fn rotate(x: u64) -> (r: u64)
    ensures
        r == rotate_spec(x),
{
    flip_vertical(flip_diag(x))
}

/// Reversing the ranks takes a disk to the square on the same file of the
/// opposite rank.
pub proof fn lemma_flip_vertical_squares(x: u64, s: u64)
    by (bit_vector)
    requires
        s < 64,
    ensures
        (flip_vertical_spec(x) & (0x8000_0000_0000_0000u64 >> s) != 0) == (x & (
            0x8000_0000_0000_0000u64 >> (((7 - s / 8) * 8 + s % 8) as u64)) != 0),
{
}

/// Exchanging ranks and files takes a disk to the square whose file is its
/// rank and whose rank is its file.
pub proof fn lemma_flip_diag_squares(x: u64, s: u64)
    by (bit_vector)
    requires
        s < 64,
    ensures
        (flip_diag_spec(x) & (0x8000_0000_0000_0000u64 >> s) != 0) == (x & (
            0x8000_0000_0000_0000u64 >> (((s % 8) * 8 + s / 8) as u64)) != 0),
{
}

/// The square from which a quarter turn brings a disk to the square `s`.
pub open spec fn turned_from(s: int) -> int {
    (s % 8) * 8 + (7 - s / 8)
}

/// A quarter turn brings to each square the disk of the square that it is
/// turned from.
pub proof fn lemma_rotate_squares(x: u64, s: int)
    requires
        0 <= s < 64,
    ensures
        mask_has(rotate_spec(x), s) == mask_has(x, turned_from(s)),
        0 <= turned_from(s) < 64,
{
    lemma_flip_vertical_squares(flip_diag_spec(x), s as u64);
    lemma_flip_diag_squares(x, ((7 - s / 8) * 8 + s % 8) as u64);
}

/// Which squares the `xor` and the `and` of two masks hold.
proof fn lemma_square_of_xor(x: u64, y: u64, s: u64)
    by (bit_vector)
    requires
        s < 64,
    ensures
        ((x ^ y) & (0x8000_0000_0000_0000u64 >> s) != 0) == ((x & (0x8000_0000_0000_0000u64 >> s)
            != 0) != (y & (0x8000_0000_0000_0000u64 >> s) != 0)),
        ((x & y) & (0x8000_0000_0000_0000u64 >> s) != 0) == ((x & (0x8000_0000_0000_0000u64 >> s)
            != 0) && (y & (0x8000_0000_0000_0000u64 >> s) != 0)),
        x ^ y == 0 ==> x == y,
        x & y == 0 ==> !((x & (0x8000_0000_0000_0000u64 >> s) != 0) && (y & (
            0x8000_0000_0000_0000u64 >> s) != 0)),
{
}

/// Masks that hold the same squares are the same mask.
pub proof fn lemma_same_squares(x: u64, y: u64)
    requires
        forall|s: int| 0 <= s < 64 ==> mask_has(x, s) == mask_has(y, s),
    ensures
        x == y,
{
    if x ^ y != 0 {
        lemma_mask_square(x ^ y);
        let s = choose|s: int| mask_has(x ^ y, s);
        lemma_square_of_xor(x, y, s as u64);
        assert(mask_has(x, s) == mask_has(y, s));
    }
    lemma_square_of_xor(x, y, 0);
}

/// The square that a quarter turn is from lies on the board: its rank is
/// the file of the square, its file the opposite of the rank.
pub proof fn lemma_turned_from(s: int)
    requires
        0 <= s < 64,
    ensures
        0 <= turned_from(s) < 64,
        turned_from(s) / 8 == s % 8,
        turned_from(s) % 8 == 7 - s / 8,
{
}

/// Four quarter turns bring a square back.
pub proof fn lemma_turned_four(s: int)
    requires
        0 <= s < 64,
    ensures
        turned_from(turned_from(turned_from(turned_from(s)))) == s,
{
    let s1 = turned_from(s);
    lemma_turned_from(s);
    let s2 = turned_from(s1);
    lemma_turned_from(s1);
    let s3 = turned_from(s2);
    lemma_turned_from(s2);
    lemma_turned_from(s3);
}

/// Four quarter turns bring a mask back.
pub proof fn lemma_rotate_four(x: u64)
    ensures
        rotate_spec(rotate_spec(rotate_spec(rotate_spec(x)))) == x,
{
    let once = rotate_spec(x);
    let twice = rotate_spec(once);
    let thrice = rotate_spec(twice);
    let back = rotate_spec(thrice);
    assert forall|s: int| 0 <= s < 64 implies mask_has(back, s) == mask_has(x, s) by {
        let s1 = turned_from(s);
        let s2 = turned_from(s1);
        let s3 = turned_from(s2);
        lemma_turned_from(s);
        lemma_turned_from(s1);
        lemma_turned_from(s2);
        lemma_turned_four(s);
        lemma_rotate_squares(thrice, s);
        lemma_rotate_squares(twice, s1);
        lemma_rotate_squares(once, s2);
        lemma_rotate_squares(x, s3);
    }
    lemma_same_squares(back, x);
}

/// A quarter turn keeps masks apart that were apart.
pub proof fn lemma_rotate_apart(x: u64, y: u64)
    requires
        x & y == 0,
    ensures
        rotate_spec(x) & rotate_spec(y) == 0,
{
    let both = rotate_spec(x) & rotate_spec(y);
    if both != 0 {
        lemma_mask_square(both);
        let s = choose|s: int| mask_has(both, s);
        lemma_square_of_xor(rotate_spec(x), rotate_spec(y), s as u64);
        lemma_rotate_squares(x, s);
        lemma_rotate_squares(y, s);
        lemma_square_of_xor(x, y, turned_from(s) as u64);
    }
}

/// Flipping the union of two masks is flipping each and uniting them.
proof fn lemma_flips_of_union(x: u64, y: u64)
    by (bit_vector)
    ensures
        flip_vertical_spec(x | y) == flip_vertical_spec(x) | flip_vertical_spec(y),
        flip_diag_spec(x | y) == flip_diag_spec(x) | flip_diag_spec(y),
{
}

/// Turning the disks of both sides together is turning each and putting
/// them together.
pub proof fn lemma_rotate_union(x: u64, y: u64)
    ensures
        rotate_spec(x | y) == rotate_spec(x) | rotate_spec(y),
{
    lemma_flips_of_union(x, y);
    lemma_flips_of_union(flip_diag_spec(x), flip_diag_spec(y));
}

/// The squares that a mask holds.
pub open spec fn squares_of(x: u64) -> Set<int> {
    Set::new(|s: int| mask_has(x, s))
}

/// A mask holds finitely many squares.
pub proof fn lemma_squares_finite(x: u64)
    ensures
        squares_of(x).finite(),
        squares_of(x).len() <= 64,
{
    lemma_int_range(0, 64);
    assert(squares_of(x).subset_of(set_int_range(0, 64)));
    lemma_len_subset(squares_of(x), set_int_range(0, 64));
}

/// Half of a mask holds the squares of the mask moved up by one; the last
/// square is the lowest bit.
proof fn lemma_half_squares(x: u64, s: u64)
    by (bit_vector)
    requires
        s < 64,
    ensures
        x / 2 == x >> 1,
        ((x >> 1) & (0x8000_0000_0000_0000u64 >> s) != 0) == (s >= 1 && (x & (
            0x8000_0000_0000_0000u64 >> ((s - 1) as u64)) != 0)),
        (x & (0x8000_0000_0000_0000u64 >> 63) != 0) == (x % 2 == 1),
        x % 2 <= 1,
        x == 0 ==> x & (0x8000_0000_0000_0000u64 >> s) == 0,
{
}

/// The number of set bits of a mask is the number of squares that it
/// holds.
pub proof fn lemma_popcount_squares(x: u64)
    ensures
        popcount(x) == squares_of(x).len(),
    decreases x,
{
    lemma_squares_finite(x);
    if x == 0 {
        assert forall|s: int| !squares_of(x).contains(s) by {
            if 0 <= s < 64 {
                lemma_half_squares(x, s as u64);
            }
        }
        assert(squares_of(x) =~= Set::<int>::empty());
    } else {
        let half = x / 2;
        lemma_popcount_squares(half);
        lemma_squares_finite(half);
        let up = |s: int| s - 1;
        let moved = squares_of(half).map(up);
        assert(injective_on(up, squares_of(half)));
        lemma_map_size(squares_of(half), moved, up);
        lemma_half_squares(x, 63);
        assert forall|t: int| moved.contains(t) <==> (0 <= t < 63 && mask_has(x, t)) by {
            if moved.contains(t) {
                let s = choose|s: int| squares_of(half).contains(s) && up(s) == t;
                lemma_half_squares(x, s as u64);
            }
            if 0 <= t < 63 && mask_has(x, t) {
                lemma_half_squares(x, (t + 1) as u64);
                assert(squares_of(half).contains(t + 1));
                assert(up(t + 1) == t);
            }
        }
        if x % 2 == 1 {
            assert(squares_of(x) =~= moved.insert(63));
        } else {
            assert(squares_of(x) =~= moved);
        }
    }
}

/// A quarter turn keeps the number of disks.
pub proof fn lemma_rotate_popcount(x: u64)
    ensures
        popcount(rotate_spec(x)) == popcount(x),
{
    let turned = rotate_spec(x);
    lemma_popcount_squares(x);
    lemma_popcount_squares(turned);
    lemma_squares_finite(x);
    lemma_squares_finite(turned);
    let from = |s: int| turned_from(s);
    assert forall|a: int, b: int|
        squares_of(turned).contains(a) && squares_of(turned).contains(b) && from(a) == from(
            b,
        ) implies a == b by {
        lemma_turned_from(a);
        lemma_turned_from(b);
    }
    assert(injective_on(from, squares_of(turned)));
    assert forall|t: int| squares_of(turned).map(from).contains(t) <==> squares_of(x).contains(
        t,
    ) by {
        if squares_of(turned).map(from).contains(t) {
            let s = choose|s: int| squares_of(turned).contains(s) && from(s) == t;
            lemma_rotate_squares(x, s);
        }
        if squares_of(x).contains(t) {
            let s = turned_from(turned_from(turned_from(t)));
            lemma_turned_from(t);
            lemma_turned_from(turned_from(t));
            lemma_turned_from(turned_from(turned_from(t)));
            lemma_turned_four(t);
            lemma_rotate_squares(x, s);
            assert(squares_of(turned).contains(s));
            assert(from(s) == t);
        }
    }
    assert(squares_of(turned).map(from) =~= squares_of(x));
    lemma_map_size(squares_of(turned), squares_of(x), from);
}

/// The digit of bit `i` of a position: 0 for an empty square, 1 for a
/// white disk, 2 for a black disk.
pub open spec fn digit(black: u64, white: u64, i: int) -> int {
    bit(white, i) + 2 * bit(black, i)
}

/// The digits of the position under the bits of `mask` from bit `i`
/// upwards, read as a number in base three with the lowest bit of the mask
/// as the lowest digit.
pub open spec fn index_from(black: u64, white: u64, mask: u64, i: int) -> int
    decreases 64 - i,
{
    if i >= 64 || i < 0 {
        0
    } else if bit(mask, i) == 1 {
        3 * index_from(black, white, mask, i + 1) + digit(black, white, i)
    } else {
        index_from(black, white, mask, i + 1)
    }
}

/// The index of the position in the table of the pattern `mask`.
pub open spec fn pattern_index_spec(black: u64, white: u64, mask: u64) -> int {
    index_from(black, white, mask, 0)
}

/// Three to the power `n`.
pub open spec fn pow3(n: nat) -> nat
    decreases n,
{
    if n == 0 {
        1
    } else {
        3 * pow3((n - 1) as nat)
    }
}

/// The number of weights of the pattern `mask`: three to the number of its
/// squares.
pub open spec fn table_len(mask: u64) -> nat {
    pow3(popcount(mask))
}

/// The greatest number of squares of a pattern whose indices fit into 32
/// bits.
pub const MAX_PATTERN_SQUARES: u32 = 20;

/// Shifting a mask down by one more bit halves it.
proof fn lemma_shift_halves(mask: u64, i: u64)
    by (bit_vector)
    requires
        i < 64,
    ensures
        (mask >> i) % 2 == (mask >> i) & 1,
        i < 63 ==> (mask >> i) / 2 == mask >> ((i + 1) as u64),
        i == 63 ==> (mask >> i) / 2 == 0,
        mask >> 0 == mask,
        ((mask >> i) & 1) <= 1,
{
}

/// The bits of a mask from bit `i` upwards number as many as the set bits
/// of the mask shifted down by `i`.
pub open spec fn bits_from(mask: u64, i: int) -> nat {
    if 0 <= i < 64 {
        popcount(mask >> (i as u64))
    } else {
        0
    }
}

/// The bits from `i` upwards are bit `i` and the bits from `i + 1` upwards.
pub proof fn lemma_bits_from_step(mask: u64, i: int)
    requires
        0 <= i < 64,
    ensures
        bits_from(mask, i) == bit(mask, i) + bits_from(mask, i + 1),
        bit(mask, i) <= 1,
        bits_from(mask, 0) == popcount(mask),
        bits_from(mask, i) <= popcount(mask),
    decreases i,
{
    lemma_shift_halves(mask, i as u64);
    lemma_shift_halves(mask, 0);
    if i == 63 {
        assert(popcount(0u64) == 0);
    }
    if i > 0 {
        lemma_bits_from_step(mask, i - 1);
    }
}

/// Powers of three grow with the exponent.
pub proof fn lemma_pow3_grows(a: nat, b: nat)
    requires
        a <= b,
    ensures
        1 <= pow3(a) <= pow3(b),
    decreases b,
{
    if a < b {
        lemma_pow3_grows(a, (b - 1) as nat);
    } else if a > 0 {
        lemma_pow3_grows((a - 1) as nat, (a - 1) as nat);
    }
}

/// Three to the power 20 fits into 32 bits.
pub proof fn lemma_pow3_20()
    ensures
        pow3(20) == 3486784401,
{
    reveal_with_fuel(pow3, 21);
}

/// The index of a position whose disks lie apart is below three to the
/// number of squares of the pattern.
pub proof fn lemma_index_below(black: u64, white: u64, mask: u64, i: int)
    requires
        0 <= i <= 64,
        black & white == 0,
    ensures
        0 <= index_from(black, white, mask, i) < pow3(bits_from(mask, i)),
    decreases 64 - i,
{
    if i < 64 {
        lemma_index_below(black, white, mask, i + 1);
        lemma_bits_from_step(mask, i);
        lemma_digit(black, white, i as u64);
    }
}

/// The digit of a square without a disk of both sides is 0, 1 or 2.
proof fn lemma_digit(black: u64, white: u64, i: u64)
    by (bit_vector)
    requires
        i < 64,
        black & white == 0,
    ensures
        ((white >> i) & 1) + 2 * ((black >> i) & 1) <= 2,
{
}

/// Computes the index of a position in the table of a pattern: the squares
/// of the pattern read as digits in base three, 0 for an empty square, 1
/// for a white disk and 2 for a black disk, the lowest bit of the mask
/// lowest.
pub fn pattern_index(black: u64, white: u64, mask: u64) -> (r: usize)
    requires
        black & white == 0,
        popcount(mask) <= MAX_PATTERN_SQUARES,
    ensures
        r == pattern_index_spec(black, white, mask),
        r < table_len(mask),
{
    let mut index: u64 = 0;
    let mut i: u64 = 64;
    proof {
        lemma_pow3_20();
    }
    while i > 0
        invariant
            i <= 64,
            black & white == 0,
            popcount(mask) <= MAX_PATTERN_SQUARES,
            index == index_from(black, white, mask, i as int),
            index < pow3(bits_from(mask, i as int)),
            pow3(20) == 3486784401,
        decreases i,
    {
        i -= 1;
        proof {
            lemma_bits_from_step(mask, i as int);
            lemma_digit(black, white, i);
            lemma_index_below(black, white, mask, i as int);
            lemma_pow3_grows(bits_from(mask, i as int), 20);
        }
        if (mask >> i) & 1 == 1 {
            let digit: u64 = ((white >> i) & 1) + 2 * ((black >> i) & 1);
            index = 3 * index + digit;
        }
    }
    proof {
        lemma_bits_from_step(mask, 0);
        lemma_pow3_grows(popcount(mask), 20);
    }
    index as usize
}

/// The indices of a position in the table of a pattern for its four
/// rotations: the position as it is, then turned by one, two and three
/// quarters.
pub open spec fn rotation_indices_spec(black: u64, white: u64, mask: u64) -> Seq<int> {
    seq![
        pattern_index_spec(black, white, mask),
        pattern_index_spec(rotate_spec(black), rotate_spec(white), mask),
        pattern_index_spec(
            rotate_spec(rotate_spec(black)),
            rotate_spec(rotate_spec(white)),
            mask,
        ),
        pattern_index_spec(
            rotate_spec(rotate_spec(rotate_spec(black))),
            rotate_spec(rotate_spec(rotate_spec(white))),
            mask,
        ),
    ]
}

/// Computes the indices of a position in the table of a pattern for its
/// four rotations.
pub fn rotation_indices(black: u64, white: u64, mask: u64) -> (r: [usize; 4])
    requires
        black & white == 0,
        popcount(mask) <= MAX_PATTERN_SQUARES,
    ensures
        forall|k: int| 0 <= k < 4 ==> r@[k] == rotation_indices_spec(black, white, mask)[k],
        forall|k: int| 0 <= k < 4 ==> r@[k] < table_len(mask),
{
    let black_1: u64 = rotate(black);
    let white_1: u64 = rotate(white);
    let black_2: u64 = rotate(black_1);
    let white_2: u64 = rotate(white_1);
    let black_3: u64 = rotate(black_2);
    let white_3: u64 = rotate(white_2);
    proof {
        lemma_rotate_apart(black, white);
        lemma_rotate_apart(black_1, white_1);
        lemma_rotate_apart(black_2, white_2);
    }
    [
        pattern_index(black, white, mask),
        pattern_index(black_1, white_1, mask),
        pattern_index(black_2, white_2, mask),
        pattern_index(black_3, white_3, mask),
    ]
}

/// Turning the position by a quarter shifts its four indices by one place:
/// the weights that a pattern adds up over the four rotations are the same
/// weights for the turned position.
pub proof fn lemma_rotation_shifts_indices(black: u64, white: u64, mask: u64, k: int)
    requires
        0 <= k < 4,
    ensures
        rotation_indices_spec(rotate_spec(black), rotate_spec(white), mask)[k]
            == rotation_indices_spec(black, white, mask)[(k + 1) % 4],
{
    lemma_rotate_four(black);
    lemma_rotate_four(white);
}

/// Tells whether a mask can be a pattern: whether it has no more squares
/// than a pattern may have.
pub fn fits_pattern(mask: u64) -> (r: bool)
    ensures
        r == (popcount(mask) <= MAX_PATTERN_SQUARES),
{
    mask.count_ones() <= MAX_PATTERN_SQUARES
}

/// Computes the number of weights of a pattern: three to the number of its
/// squares.
pub fn table_size(mask: u64) -> (r: usize)
    requires
        popcount(mask) <= MAX_PATTERN_SQUARES,
    ensures
        r == table_len(mask),
{
    let squares: u32 = mask.count_ones();
    let mut size: usize = 1;
    let mut i: u32 = 0;
    proof {
        lemma_pow3_20();
    }
    while i < squares
        invariant
            i <= squares <= MAX_PATTERN_SQUARES,
            size == pow3(i as nat),
            pow3(20) == 3486784401,
        decreases squares - i,
    {
        proof {
            lemma_pow3_grows((i + 1) as nat, 20);
        }
        size = size * 3;
        i += 1;
    }
    size
}

/// Tells whether the number of empty squares is odd.
pub fn odd_empties(board: &Board) -> (r: bool)
    ensures
        r == (board.empties() % 2 == 1),
{
    proof {
        lemma_popcount_le_64(board.white_disks | board.black_disks);
    }
    board.all_disks().count_zeros() % 2 == 1
}

/// The position turned by a quarter.
pub open spec fn rotate_board(b: Board) -> Board {
    Board {
        white_disks: rotate_spec(b.white_disks),
        black_disks: rotate_spec(b.black_disks),
        black_move: b.black_move,
    }
}

} // verus!
