//! Constants and functions on 64-bit masks of squares.
//!
//! Square 0 is a1 and is the most significant bit of a mask; square 63 is h8
//! and is the least significant bit. The file of square `i` is `i % 8`, its
//! rank is `i / 8`.

use vstd::prelude::*;
use crate::board::mask_has;
use crate::board::lines::{is_move, is_flipped, lemma_all_moves_meaning, lemma_flip_meaning};

verus! {

/// The 'A' file of the board.
pub const FILE_A: u64 = 0x80_80_80_80_80_80_80_80;
/// The 'B' file of the board.
pub const FILE_B: u64 = 0x40_40_40_40_40_40_40_40;
/// The 'C' file of the board.
pub const FILE_C: u64 = 0x20_20_20_20_20_20_20_20;
/// The 'D' file of the board.
pub const FILE_D: u64 = 0x10_10_10_10_10_10_10_10;
/// The 'E' file of the board.
pub const FILE_E: u64 = 0x08_08_08_08_08_08_08_08;
/// The 'F' file of the board.
pub const FILE_F: u64 = 0x04_04_04_04_04_04_04_04;
/// The 'G' file of the board.
pub const FILE_G: u64 = 0x02_02_02_02_02_02_02_02;
/// The 'H' file of the board.
pub const FILE_H: u64 = 0x01_01_01_01_01_01_01_01;

/// Rank 1 of the board.
pub const RANK_1: u64 = 0xFF_00_00_00_00_00_00_00;
/// Rank 2 of the board.
pub const RANK_2: u64 = 0x00_FF_00_00_00_00_00_00;
/// Rank 3 of the board.
pub const RANK_3: u64 = 0x00_00_FF_00_00_00_00_00;
/// Rank 4 of the board.
pub const RANK_4: u64 = 0x00_00_00_FF_00_00_00_00;
/// Rank 5 of the board.
pub const RANK_5: u64 = 0x00_00_00_00_FF_00_00_00;
/// Rank 6 of the board.
pub const RANK_6: u64 = 0x00_00_00_00_00_FF_00_00;
/// Rank 7 of the board.
pub const RANK_7: u64 = 0x00_00_00_00_00_00_FF_00;
/// Rank 8 of the board.
pub const RANK_8: u64 = 0x00_00_00_00_00_00_00_FF;

/// The mask of square 0.
pub const FIRST_SQUARE: u64 = 0x80_00_00_00_00_00_00_00;

/// The squares that are on neither the 'A' nor the 'H' file. A run of disks
/// that is bracketed along a rank or a diagonal lies inside this mask.
pub const INNER_FILES: u64 = 0x7E_7E_7E_7E_7E_7E_7E_7E;

/// The eight directions as shifts: up, down, left, right, up-left, up-right,
/// down-left, down-right.
pub const SHIFT_DIRS: [i8; 8] = [-8, 8, -1, 1, -9, -7, 7, 9];

/// The mask of the square `sq`.
pub open spec fn square_mask(sq: u64) -> u64 {
    FIRST_SQUARE >> sq
}

/// `x` shifted by `|dir|` bits: to the right if `dir` is positive, to the
/// left if it is negative.
pub open spec fn shift_spec(x: u64, dir: i8) -> u64 {
    if dir < 0 {
        x << ((-dir) as u64)
    } else {
        x >> (dir as u64)
    }
}

/// The squares one step in direction `dir` behind a run of `mask` squares
/// that starts next to a `player` square, by a parallel-prefix fill.
pub open spec fn directional_moves_spec(player: u64, mask: u64, dir: i8) -> u64 {
    let mask_2 = mask & shift_spec(mask, dir);
    let mask_4 = mask_2 & shift_spec(mask_2, (2 * dir) as i8);
    let fill_1 = player | (mask & shift_spec(player, dir));
    let fill_2 = fill_1 | (mask_2 & shift_spec(fill_1, (2 * dir) as i8));
    let fill_3 = fill_2 | (mask_4 & shift_spec(fill_2, (4 * dir) as i8));
    shift_spec(fill_3 & mask, dir)
}

/// The empty squares on which `player` may place a disk.
pub open spec fn all_moves_spec(player: u64, opponent: u64) -> u64 {
    let inner = opponent & INNER_FILES;
    (directional_moves_spec(player, opponent, -8i8)
        | directional_moves_spec(player, opponent, 8)
        | directional_moves_spec(player, inner, -1i8)
        | directional_moves_spec(player, inner, 1)
        | directional_moves_spec(player, inner, -9i8)
        | directional_moves_spec(player, inner, -7i8)
        | directional_moves_spec(player, inner, 7)
        | directional_moves_spec(player, inner, 9)) & !(player | opponent)
}

/// The run of at most six `mask` squares that starts one step in direction
/// `dir` from `disk`.
pub open spec fn run_spec(disk: u64, mask: u64, dir: i8) -> u64 {
    let run_1 = shift_spec(disk, dir) & mask;
    let run_2 = run_1 | (shift_spec(run_1, dir) & mask);
    let run_3 = run_2 | (shift_spec(run_2, dir) & mask);
    let run_4 = run_3 | (shift_spec(run_3, dir) & mask);
    let run_5 = run_4 | (shift_spec(run_4, dir) & mask);
    run_5 | (shift_spec(run_5, dir) & mask)
}

/// The run from `disk` in direction `dir` if a `player` square follows it,
/// nothing otherwise.
pub open spec fn flip_dir_spec(disk: u64, player: u64, mask: u64, dir: i8) -> u64 {
    let run = run_spec(disk, mask, dir);
    if shift_spec(run, dir) & player != 0 {
        run
    } else {
        0
    }
}

/// The opponent's disks that turn over when `player` places a disk on the
/// square with mask `disk`.
pub open spec fn flip_mask_spec(disk: u64, player: u64, opponent: u64) -> u64 {
    let inner = opponent & INNER_FILES;
    flip_dir_spec(disk, player, opponent, -8i8)
        | flip_dir_spec(disk, player, opponent, 8)
        | flip_dir_spec(disk, player, inner, -1i8)
        | flip_dir_spec(disk, player, inner, 1)
        | flip_dir_spec(disk, player, inner, -9i8)
        | flip_dir_spec(disk, player, inner, -7i8)
        | flip_dir_spec(disk, player, inner, 7)
        | flip_dir_spec(disk, player, inner, 9)
}

/// The opponent's disks that turn over when `player` places a disk on
/// `square`.
pub open spec fn flip_spec(square: u8, player: u64, opponent: u64) -> u64 {
    flip_mask_spec(square_mask(square as u64), player, opponent)
}

/// Shifts `x` by `|shift|` bits, to the right for a positive `shift` and to
/// the left for a negative one.
pub fn directional_shift(x: u64, shift: i8) -> (r: u64)
    requires
        -64 < shift < 64,
    ensures
        r == shift_spec(x, shift),
{
    if shift < 0 {
        let k: u64 = (-shift) as u64;
        x << k
    } else {
        let k: u64 = shift as u64;
        x >> k
    }
}

/// Generates the moves in direction `dir`: the squares that follow, in that
/// direction, a run of `mask` squares that starts next to a `player` square.
/// `mask` holds the opponent's disks without those from which a shift would
/// wrap round the edge of the board.
pub fn directional_moves(player: u64, mask: u64, dir: i8) -> (r: u64)
    requires
        -16 < dir < 16,
    ensures
        r == directional_moves_spec(player, mask, dir),
{
    let mask_2: u64 = mask & directional_shift(mask, dir);
    let mask_4: u64 = mask_2 & directional_shift(mask_2, 2 * dir);

    let mut flip: u64 = player;
    flip |= mask & directional_shift(flip, dir);
    flip |= mask_2 & directional_shift(flip, dir * 2);
    flip |= mask_4 & directional_shift(flip, dir * 4);

    directional_shift(flip & mask, dir)
}

/// The moves in a direction that shifts to the right by `k` bits.
#[inline(always)]
fn moves_right(player: u64, mask: u64, k: u64) -> (r: u64)
    requires
        0 < k < 16,
    ensures
        r == directional_moves_spec(player, mask, k as i8),
{
    let mask_2: u64 = mask & (mask >> k);
    let mask_4: u64 = mask_2 & (mask_2 >> (2 * k));

    let mut flip: u64 = player | (mask & (player >> k));
    flip |= mask_2 & (flip >> (2 * k));
    flip |= mask_4 & (flip >> (4 * k));

    (flip & mask) >> k
}

/// The moves in a direction that shifts to the left by `k` bits.
#[inline(always)]
fn moves_left(player: u64, mask: u64, k: u64) -> (r: u64)
    requires
        0 < k < 16,
    ensures
        r == directional_moves_spec(player, mask, (-(k as i8)) as i8),
{
    let mask_2: u64 = mask & (mask << k);
    let mask_4: u64 = mask_2 & (mask_2 << (2 * k));

    let mut flip: u64 = player | (mask & (player << k));
    flip |= mask_2 & (flip << (2 * k));
    flip |= mask_4 & (flip << (4 * k));

    (flip & mask) << k
}

/// Generates all moves that `player` can make against `opponent`: the empty
/// squares from which a run of the opponent's disks leads to a disk of the
/// player.
pub fn all_moves(player: u64, opponent: u64) -> (r: u64)
    ensures
        r == all_moves_spec(player, opponent),
        r & (player | opponent) == 0,
        player & opponent == 0 ==> forall|s: int|
            0 <= s < 64 ==> (#[trigger] mask_has(r, s) <==> is_move(player, opponent, s)),
{
    proof {
        if player & opponent == 0 {
            assert forall|s: int| 0 <= s < 64 implies (#[trigger] mask_has(
                all_moves_spec(player, opponent),
                s,
            ) <==> is_move(player, opponent, s)) by {
                lemma_all_moves_meaning(player, opponent, s);
            }
        }
    }
    let mask: u64 = opponent & INNER_FILES;

    let all_moves: u64 = moves_left(player, opponent, 8) | moves_right(player, opponent, 8)
        | moves_left(player, mask, 1) | moves_right(player, mask, 1) | moves_left(player, mask, 9)
        | moves_left(player, mask, 7) | moves_right(player, mask, 7) | moves_right(
        player,
        mask,
        9,
    );

    proof {
        lemma_moves_avoid_disks(all_moves, player, opponent);
    }
    all_moves & !(player | opponent)
}

/// The run from `disk` in a direction that shifts to the right by `k`
/// bits, if a disk of the player follows it.
#[inline(always)]
fn flip_right(disk: u64, player: u64, mask: u64, k: u64) -> (r: u64)
    requires
        0 < k < 16,
    ensures
        r == flip_dir_spec(disk, player, mask, k as i8),
{
    let mut run: u64 = (disk >> k) & mask;
    run |= (run >> k) & mask;
    run |= (run >> k) & mask;
    run |= (run >> k) & mask;
    run |= (run >> k) & mask;
    run |= (run >> k) & mask;
    if (run >> k) & player != 0 {
        run
    } else {
        0
    }
}

/// The run from `disk` in a direction that shifts to the left by `k` bits,
/// if a disk of the player follows it.
#[inline(always)]
fn flip_left(disk: u64, player: u64, mask: u64, k: u64) -> (r: u64)
    requires
        0 < k < 16,
    ensures
        r == flip_dir_spec(disk, player, mask, (-(k as i8)) as i8),
{
    let mut run: u64 = (disk << k) & mask;
    run |= (run << k) & mask;
    run |= (run << k) & mask;
    run |= (run << k) & mask;
    run |= (run << k) & mask;
    run |= (run << k) & mask;
    if (run << k) & player != 0 {
        run
    } else {
        0
    }
}

/// Computes the opponent's disks that turn over when `player` places a disk
/// on `square`: in each direction, the run of the opponent's disks that
/// starts next to the square, if a disk of the player ends it.
pub fn get_flip(square: u8, player: u64, opponent: u64) -> (r: u64)
    requires
        square < 64,
    ensures
        r == flip_spec(square, player, opponent),
        r & !opponent == 0,
        player & opponent == 0 ==> forall|t: int|
            0 <= t < 64 ==> (#[trigger] mask_has(r, t) <==> is_flipped(
                player,
                opponent,
                square as int,
                t,
            )),
{
    proof {
        if player & opponent == 0 {
            assert forall|t: int| 0 <= t < 64 implies (#[trigger] mask_has(
                flip_spec(square, player, opponent),
                t,
            ) <==> is_flipped(player, opponent, square as int, t)) by {
                lemma_flip_meaning(player, opponent, square, t);
            }
        }
    }
    let disk: u64 = FIRST_SQUARE >> square;
    let mask: u64 = opponent & INNER_FILES;

    let flips: u64 = flip_left(disk, player, opponent, 8) | flip_right(disk, player, opponent, 8)
        | flip_left(disk, player, mask, 1) | flip_right(disk, player, mask, 1) | flip_left(
        disk,
        player,
        mask,
        9,
    ) | flip_left(disk, player, mask, 7) | flip_right(disk, player, mask, 7) | flip_right(
        disk,
        player,
        mask,
        9,
    );
    proof {
        lemma_flip_inside_opponent(disk, player, opponent);
    }
    flips
}

/// The disks that a move turns over are disks of the opponent.
pub proof fn lemma_flip_inside_opponent(disk: u64, player: u64, opponent: u64)
    by (bit_vector)
    ensures
        flip_mask_spec(disk, player, opponent) & !opponent == 0,
{
}

/// No move lands on a disk.
pub proof fn lemma_all_moves_empty(player: u64, opponent: u64)
    by (bit_vector)
    ensures
        all_moves_spec(player, opponent) & (player | opponent) == 0,
{
}

/// What is left of a mask outside the disks holds no disk.
proof fn lemma_moves_avoid_disks(moves: u64, player: u64, opponent: u64)
    by (bit_vector)
    ensures
        (moves & !(player | opponent)) & (player | opponent) == 0,
{
}

} // verus!
