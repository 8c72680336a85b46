//! What the masks of the move generator mean on the board: a move is an
//! empty square from which, along a rank, a file or a diagonal, a run of
//! the opponent's disks leads to a disk of the player, and the disks of
//! that run are the disks that the move turns over.

use vstd::prelude::*;
use crate::board::bitboard::{
    INNER_FILES, square_mask, all_moves_spec, directional_moves_spec, flip_spec, flip_dir_spec,
};
use crate::board::{Board, Move, mask_has};

verus! {

/// Whether `dir` is one of the eight directions, each named by what a step
/// adds to the number of a square: 1 along a rank, 8 along a file, 7 and 9
/// along the diagonals, and their negatives.
pub open spec fn is_direction(dir: int) -> bool {
    dir == 1 || dir == -1 || dir == 8 || dir == -8 || dir == 9 || dir == -9 || dir == 7 || dir
        == -7
}

/// What a step in direction `dir` adds to the file of a square.
pub open spec fn file_step(dir: int) -> int {
    if dir == 1 || dir == 9 || dir == -7 {
        1
    } else if dir == -1 || dir == -9 || dir == 7 {
        -1
    } else {
        0
    }
}

/// What a step in direction `dir` adds to the rank of a square.
pub open spec fn rank_step(dir: int) -> int {
    if dir == 8 || dir == 9 || dir == 7 {
        1
    } else if dir == -8 || dir == -9 || dir == -7 {
        -1
    } else {
        0
    }
}

/// Whether `steps` steps from the square `s` in direction `dir` stay on
/// the board.
pub open spec fn on_board(s: int, dir: int, steps: int) -> bool {
    &&& 0 <= s % 8 + steps * file_step(dir) < 8
    &&& 0 <= s / 8 + steps * rank_step(dir) < 8
}

/// Whether the `count` squares next to the square `s` in direction `dir`
/// hold disks of the opponent and the square behind them holds a disk of
/// the player, all of them on the board.
pub open spec fn brackets(player: u64, opponent: u64, s: int, dir: int, count: int) -> bool {
    &&& count >= 1
    &&& on_board(s, dir, count + 1)
    &&& forall|i: int| 1 <= i <= count ==> #[trigger] mask_has(opponent, s + i * dir)
    &&& mask_has(player, s + (count + 1) * dir)
}

/// Whether the player may place a disk on the square `s`: the square is
/// empty, and in some direction disks of the opponent are bracketed.
pub open spec fn is_move(player: u64, opponent: u64, s: int) -> bool {
    &&& 0 <= s < 64
    &&& !mask_has(player, s)
    &&& !mask_has(opponent, s)
    &&& exists|dir: int, count: int|
        is_direction(dir) && #[trigger] brackets(player, opponent, s, dir, count)
}

/// Whether a disk placed on the square `s` turns over the disk on the
/// square `t`: in some direction disks of the opponent are bracketed, and
/// `t` is one of their squares.
pub open spec fn is_flipped(player: u64, opponent: u64, s: int, t: int) -> bool {
    exists|dir: int, count: int, i: int|
        is_direction(dir) && #[trigger] brackets(player, opponent, s, dir, count) && 1 <= i
            <= count && t == #[trigger] (s + i * dir)
}

/// Whether the mask `x` holds the square `t`, told in bits.
spec fn at(x: u64, t: u64) -> bool {
    t < 64 && x & (0x8000_0000_0000_0000u64 >> t) != 0
}

/// The square `steps` steps from `s`, each step adding or taking `delta`.
spec fn along_bits(s: u64, forward: bool, delta: u64, steps: u64) -> u64 {
    if forward {
        (s + steps * delta) as u64
    } else {
        (s - steps * delta) as u64
    }
}

/// Whether `steps` steps stay on the board, where a step adds to (1) or
/// takes from (2) the file and the rank, or leaves them (0).
spec fn stays(s: u64, files: u64, ranks: u64, steps: u64) -> bool {
    &&& files == 1 ==> s % 8 + steps <= 7
    &&& files == 2 ==> s % 8 >= steps
    &&& ranks == 1 ==> s / 8 + steps <= 7
    &&& ranks == 2 ==> s / 8 >= steps
}

/// Whether the first `count` squares from `s` hold disks of `o`.
spec fn run_bits(o: u64, s: u64, forward: bool, delta: u64, count: u64) -> bool
    decreases count,
{
    count == 0 || (at(o, along_bits(s, forward, delta, count)) && run_bits(
        o,
        s,
        forward,
        delta,
        (count - 1) as u64,
    ))
}

/// Whether `count` disks of `o` from `s` are followed by a disk of `p`, all
/// on the board.
spec fn bracket_bits(
    p: u64,
    o: u64,
    s: u64,
    forward: bool,
    delta: u64,
    files: u64,
    ranks: u64,
    count: u64,
) -> bool {
    &&& stays(s, files, ranks, (count + 1) as u64)
    &&& run_bits(o, s, forward, delta, count)
    &&& at(p, along_bits(s, forward, delta, (count + 1) as u64))
}

/// Whether one to six disks are bracketed.
spec fn some_bracket(
    p: u64,
    o: u64,
    s: u64,
    forward: bool,
    delta: u64,
    files: u64,
    ranks: u64,
) -> bool {
    bracket_bits(p, o, s, forward, delta, files, ranks, 1) || bracket_bits(
        p,
        o,
        s,
        forward,
        delta,
        files,
        ranks,
        2,
    ) || bracket_bits(p, o, s, forward, delta, files, ranks, 3) || bracket_bits(
        p,
        o,
        s,
        forward,
        delta,
        files,
        ranks,
        4,
    ) || bracket_bits(p, o, s, forward, delta, files, ranks, 5) || bracket_bits(
        p,
        o,
        s,
        forward,
        delta,
        files,
        ranks,
        6,
    )
}

/// The moves that the fill finds in each direction, on an empty square,
/// are the brackets seen from that square in the opposite direction.
proof fn lemma_fill_finds_brackets(p: u64, o: u64, s: u64)
    by (bit_vector)
    requires
        s < 64,
        p & o == 0,
        !at(p, s),
        !at(o, s),
    ensures
        at(directional_moves_spec(p, o & INNER_FILES, -1i8), s) == some_bracket(p, o, s, true, 1, 1, 0),
        at(directional_moves_spec(p, o & INNER_FILES, 1i8), s) == some_bracket(p, o, s, false, 1, 2, 0),
        at(directional_moves_spec(p, o, -8i8), s) == some_bracket(p, o, s, true, 8, 0, 1),
        at(directional_moves_spec(p, o, 8i8), s) == some_bracket(p, o, s, false, 8, 0, 2),
        at(directional_moves_spec(p, o & INNER_FILES, -9i8), s) == some_bracket(p, o, s, true, 9, 1, 1),
        at(directional_moves_spec(p, o & INNER_FILES, 9i8), s) == some_bracket(p, o, s, false, 9, 2, 2),
        at(directional_moves_spec(p, o & INNER_FILES, -7i8), s) == some_bracket(p, o, s, true, 7, 2, 1),
        at(directional_moves_spec(p, o & INNER_FILES, 7i8), s) == some_bracket(p, o, s, false, 7, 1, 2),
{
}

/// A square lies in the union of eight masks, less the disks, where it is
/// empty and lies in one of the masks.
proof fn lemma_union_at(
    p: u64,
    o: u64,
    s: u64,
    a: u64,
    b: u64,
    c: u64,
    d: u64,
    e: u64,
    f: u64,
    g: u64,
    h: u64,
)
    by (bit_vector)
    requires
        s < 64,
    ensures
        at((a | b | c | d | e | f | g | h) & !(p | o), s) == ((at(a, s) || at(b, s) || at(c, s) || at(
            d,
            s,
        ) || at(e, s) || at(f, s) || at(g, s) || at(h, s)) && !at(p, s) && !at(o, s)),
        at(a | b | c | d | e | f | g | h, s) == (at(a, s) || at(b, s) || at(c, s) || at(d, s) || at(
            e,
            s,
        ) || at(f, s) || at(g, s) || at(h, s)),
{
}

/// How a direction is told to the bit-level predicates: whether a step
/// adds to the number of the square, and by how much.
spec fn forward_of(dir: int) -> bool {
    dir > 0
}

/// By how much a step in direction `dir` changes the number of a square.
spec fn delta_of(dir: int) -> u64 {
    if dir > 0 {
        dir as u64
    } else {
        (-dir) as u64
    }
}

/// Whether a step in direction `dir` adds to (1) or takes from (2) the
/// file, or leaves it (0).
spec fn files_of(dir: int) -> u64 {
    if file_step(dir) == 1 {
        1
    } else if file_step(dir) == -1 {
        2
    } else {
        0
    }
}

/// Whether a step in direction `dir` adds to (1) or takes from (2) the
/// rank, or leaves it (0).
spec fn ranks_of(dir: int) -> u64 {
    if rank_step(dir) == 1 {
        1
    } else if rank_step(dir) == -1 {
        2
    } else {
        0
    }
}

/// Steps that stay on the board lead to the square whose number is that of
/// the start plus the steps times the direction.
proof fn lemma_steps_on_board(s: int, dir: int, steps: int)
    requires
        0 <= s < 64,
        is_direction(dir),
        0 <= steps <= 7,
        on_board(s, dir, steps),
    ensures
        0 <= s + steps * dir < 64,
        along_bits(s as u64, forward_of(dir), delta_of(dir), steps as u64) == s + steps * dir,
        forall|i: int| 0 <= i <= steps ==> on_board(s, dir, i),
{
    assert(dir == 8 * rank_step(dir) + file_step(dir));
    assert(steps * dir == 8 * (steps * rank_step(dir)) + steps * file_step(dir)) by (nonlinear_arith)
        requires
            dir == 8 * rank_step(dir) + file_step(dir),
    ;
    assert(steps * delta_of(dir) == if dir > 0 {
        steps * dir
    } else {
        -(steps * dir)
    }) by (nonlinear_arith)
        requires
            delta_of(dir) == if dir > 0 {
                dir
            } else {
                -dir
            },
    ;
    assert forall|i: int| 0 <= i <= steps implies on_board(s, dir, i) by {
        let fs = file_step(dir);
        let rs = rank_step(dir);
        assert(0 <= s % 8 + i * fs < 8) by (nonlinear_arith)
            requires
                0 <= i <= steps,
                -1 <= fs <= 1,
                0 <= s % 8 < 8,
                0 <= s % 8 + steps * fs < 8,
        ;
        assert(0 <= s / 8 + i * rs < 8) by (nonlinear_arith)
            requires
                0 <= i <= steps,
                -1 <= rs <= 1,
                0 <= s / 8 < 8,
                0 <= s / 8 + steps * rs < 8,
        ;
    }
}

/// On the board, the two ways of saying that steps stay on the board agree.
proof fn lemma_stays_on_board(s: int, dir: int, steps: int)
    requires
        0 <= s < 64,
        is_direction(dir),
        0 <= steps <= 7,
    ensures
        stays(s as u64, files_of(dir), ranks_of(dir), steps as u64) == on_board(s, dir, steps),
{
    let fs = file_step(dir);
    let rs = rank_step(dir);
    assert(steps * fs == if fs == 1 {
        steps
    } else if fs == -1 {
        -steps
    } else {
        0
    }) by (nonlinear_arith)
        requires
            fs == 1 || fs == -1 || fs == 0,
    ;
    assert(steps * rs == if rs == 1 {
        steps
    } else if rs == -1 {
        -steps
    } else {
        0
    }) by (nonlinear_arith)
        requires
            rs == 1 || rs == -1 || rs == 0,
    ;
}

/// A run of the opponent's disks, told in bits, is a run on the board.
proof fn lemma_run_on_board(o: u64, s: int, dir: int, count: int, steps: int)
    requires
        0 <= s < 64,
        is_direction(dir),
        0 <= count <= steps <= 7,
        on_board(s, dir, steps),
    ensures
        run_bits(o, s as u64, forward_of(dir), delta_of(dir), count as u64) == (forall|i: int|
            1 <= i <= count ==> #[trigger] mask_has(o, s + i * dir)),
    decreases count,
{
    if count > 0 {
        lemma_run_on_board(o, s, dir, count - 1, steps);
        lemma_steps_on_board(s, dir, steps);
        assert(on_board(s, dir, count));
        lemma_steps_on_board(s, dir, count);
        let t = s + count * dir;
        assert(at(o, t as u64) == mask_has(o, t));
        if run_bits(o, s as u64, forward_of(dir), delta_of(dir), count as u64) {
            assert forall|i: int| 1 <= i <= count implies #[trigger] mask_has(o, s + i * dir) by {
                if i == count {
                } else {
                    assert(mask_has(o, s + i * dir));
                }
            }
        }
        if forall|i: int| 1 <= i <= count ==> #[trigger] mask_has(o, s + i * dir) {
            assert(mask_has(o, s + count * dir));
            assert forall|i: int| 1 <= i <= count - 1 implies #[trigger] mask_has(o, s + i * dir) by {
                assert(mask_has(o, s + i * dir));
            }
        }
    }
}

/// A bracket told in bits is a bracket on the board.
proof fn lemma_bracket_on_board(p: u64, o: u64, s: int, dir: int, count: int)
    requires
        0 <= s < 64,
        is_direction(dir),
        1 <= count <= 6,
    ensures
        bracket_bits(
            p,
            o,
            s as u64,
            forward_of(dir),
            delta_of(dir),
            files_of(dir),
            ranks_of(dir),
            count as u64,
        ) == brackets(p, o, s, dir, count),
{
    lemma_stays_on_board(s, dir, count + 1);
    if on_board(s, dir, count + 1) {
        lemma_steps_on_board(s, dir, count + 1);
        lemma_run_on_board(o, s, dir, count, count + 1);
        let t = s + (count + 1) * dir;
        assert(at(p, t as u64) == mask_has(p, t));
    }
}

/// No more than six disks are bracketed: a line of the board has eight
/// squares.
proof fn lemma_bracket_count(p: u64, o: u64, s: int, dir: int, count: int)
    requires
        0 <= s < 64,
        is_direction(dir),
        brackets(p, o, s, dir, count),
    ensures
        1 <= count <= 6,
{
    let fs = file_step(dir);
    let rs = rank_step(dir);
    if fs != 0 {
        assert(count + 1 <= 7) by (nonlinear_arith)
            requires
                fs == 1 || fs == -1,
                0 <= s % 8 < 8,
                0 <= s % 8 + (count + 1) * fs < 8,
                count >= 1,
        ;
    } else {
        assert(count + 1 <= 7) by (nonlinear_arith)
            requires
                rs == 1 || rs == -1,
                0 <= s / 8 < 8,
                0 <= s / 8 + (count + 1) * rs < 8,
                count >= 1,
        ;
    }
}

/// Some bracket told in bits in a direction is some bracket on the board.
proof fn lemma_some_bracket(p: u64, o: u64, s: int, dir: int)
    requires
        0 <= s < 64,
        is_direction(dir),
    ensures
        some_bracket(
            p,
            o,
            s as u64,
            forward_of(dir),
            delta_of(dir),
            files_of(dir),
            ranks_of(dir),
        ) == (exists|count: int| #[trigger] brackets(p, o, s, dir, count)),
{
    lemma_bracket_on_board(p, o, s, dir, 1);
    lemma_bracket_on_board(p, o, s, dir, 2);
    lemma_bracket_on_board(p, o, s, dir, 3);
    lemma_bracket_on_board(p, o, s, dir, 4);
    lemma_bracket_on_board(p, o, s, dir, 5);
    lemma_bracket_on_board(p, o, s, dir, 6);
    if exists|count: int| #[trigger] brackets(p, o, s, dir, count) {
        let count = choose|count: int| #[trigger] brackets(p, o, s, dir, count);
        lemma_bracket_count(p, o, s, dir, count);
    }
}

/// The squares on which the move generator lets the player place a disk
/// are the empty squares from which, in some direction, disks of the
/// opponent are bracketed.
pub proof fn lemma_all_moves_meaning(player: u64, opponent: u64, s: int)
    requires
        player & opponent == 0,
        0 <= s < 64,
    ensures
        mask_has(all_moves_spec(player, opponent), s) <==> is_move(player, opponent, s),
{
    let p = player;
    let o = opponent;
    let inner = opponent & INNER_FILES;
    let t = s as u64;
    lemma_union_at(
        p,
        o,
        t,
        directional_moves_spec(p, o, -8i8),
        directional_moves_spec(p, o, 8i8),
        directional_moves_spec(p, inner, -1i8),
        directional_moves_spec(p, inner, 1i8),
        directional_moves_spec(p, inner, -9i8),
        directional_moves_spec(p, inner, -7i8),
        directional_moves_spec(p, inner, 7i8),
        directional_moves_spec(p, inner, 9i8),
    );
    assert(mask_has(all_moves_spec(p, o), s) == at(all_moves_spec(p, o), t));
    assert(mask_has(p, s) == at(p, t));
    assert(mask_has(o, s) == at(o, t));
    if !at(p, t) && !at(o, t) {
        lemma_fill_finds_brackets(p, o, t);
        lemma_some_bracket(p, o, s, 1);
        lemma_some_bracket(p, o, s, -1);
        lemma_some_bracket(p, o, s, 8);
        lemma_some_bracket(p, o, s, -8);
        lemma_some_bracket(p, o, s, 9);
        lemma_some_bracket(p, o, s, -9);
        lemma_some_bracket(p, o, s, 7);
        lemma_some_bracket(p, o, s, -7);
        if mask_has(all_moves_spec(p, o), s) {
            let dir: int = if at(directional_moves_spec(p, inner, -1i8), t) {
                1
            } else if at(directional_moves_spec(p, inner, 1i8), t) {
                -1
            } else if at(directional_moves_spec(p, o, -8i8), t) {
                8
            } else if at(directional_moves_spec(p, o, 8i8), t) {
                -8
            } else if at(directional_moves_spec(p, inner, -9i8), t) {
                9
            } else if at(directional_moves_spec(p, inner, 9i8), t) {
                -9
            } else if at(directional_moves_spec(p, inner, -7i8), t) {
                7
            } else {
                -7
            };
            let count = choose|count: int| #[trigger] brackets(p, o, s, dir, count);
            assert(is_direction(dir) && brackets(p, o, s, dir, count));
        }
        if is_move(p, o, s) {
            let (dir, count) = choose|dir: int, count: int|
                is_direction(dir) && #[trigger] brackets(p, o, s, dir, count);
            assert(exists|count: int| #[trigger] brackets(p, o, s, dir, count));
        }
    }
}

/// Whether `t` is one of the first `count` squares from `s`.
spec fn within(s: u64, t: u64, forward: bool, delta: u64, count: u64) -> bool
    decreases count,
{
    count > 0 && (t == along_bits(s, forward, delta, count) || within(
        s,
        t,
        forward,
        delta,
        (count - 1) as u64,
    ))
}

/// Whether `t` is one of one to six bracketed disks.
spec fn flipped_bits(
    p: u64,
    o: u64,
    s: u64,
    t: u64,
    forward: bool,
    delta: u64,
    files: u64,
    ranks: u64,
) -> bool {
    (bracket_bits(p, o, s, forward, delta, files, ranks, 1) && within(s, t, forward, delta, 1)) || (
    bracket_bits(p, o, s, forward, delta, files, ranks, 2) && within(s, t, forward, delta, 2)) || (
    bracket_bits(p, o, s, forward, delta, files, ranks, 3) && within(s, t, forward, delta, 3)) || (
    bracket_bits(p, o, s, forward, delta, files, ranks, 4) && within(s, t, forward, delta, 4)) || (
    bracket_bits(p, o, s, forward, delta, files, ranks, 5) && within(s, t, forward, delta, 5)) || (
    bracket_bits(p, o, s, forward, delta, files, ranks, 6) && within(s, t, forward, delta, 6))
}

/// The disks that the runs from a square along its rank hold, where a disk
/// of the player ends them, are the bracketed disks.
proof fn lemma_runs_along_ranks(p: u64, o: u64, s: u64, t: u64)
    by (bit_vector)
    requires
        s < 64,
        t < 64,
        p & o == 0,
    ensures
        at(flip_dir_spec(0x8000_0000_0000_0000u64 >> s, p, o & INNER_FILES, 1i8), t) == flipped_bits(
            p,
            o,
            s,
            t,
            true,
            1,
            1,
            0,
        ),
        at(flip_dir_spec(0x8000_0000_0000_0000u64 >> s, p, o & INNER_FILES, -1i8), t) == flipped_bits(
            p,
            o,
            s,
            t,
            false,
            1,
            2,
            0,
        ),
{
}

/// The same along the file of the square.
proof fn lemma_runs_along_files(p: u64, o: u64, s: u64, t: u64)
    by (bit_vector)
    requires
        s < 64,
        t < 64,
        p & o == 0,
    ensures
        at(flip_dir_spec(0x8000_0000_0000_0000u64 >> s, p, o, 8i8), t) == flipped_bits(
            p,
            o,
            s,
            t,
            true,
            8,
            0,
            1,
        ),
        at(flip_dir_spec(0x8000_0000_0000_0000u64 >> s, p, o, -8i8), t) == flipped_bits(
            p,
            o,
            s,
            t,
            false,
            8,
            0,
            2,
        ),
{
}

/// The same along the diagonals, away from the first rank.
proof fn lemma_runs_down_diagonals(p: u64, o: u64, s: u64, t: u64)
    by (bit_vector)
    requires
        s < 64,
        t < 64,
        p & o == 0,
    ensures
        at(flip_dir_spec(0x8000_0000_0000_0000u64 >> s, p, o & INNER_FILES, 9i8), t) == flipped_bits(
            p,
            o,
            s,
            t,
            true,
            9,
            1,
            1,
        ),
        at(flip_dir_spec(0x8000_0000_0000_0000u64 >> s, p, o & INNER_FILES, 7i8), t) == flipped_bits(
            p,
            o,
            s,
            t,
            true,
            7,
            2,
            1,
        ),
{
}

/// The same along the diagonals, towards the first rank.
proof fn lemma_runs_up_diagonals(p: u64, o: u64, s: u64, t: u64)
    by (bit_vector)
    requires
        s < 64,
        t < 64,
        p & o == 0,
    ensures
        at(flip_dir_spec(0x8000_0000_0000_0000u64 >> s, p, o & INNER_FILES, -9i8), t) == flipped_bits(
            p,
            o,
            s,
            t,
            false,
            9,
            2,
            2,
        ),
        at(flip_dir_spec(0x8000_0000_0000_0000u64 >> s, p, o & INNER_FILES, -7i8), t) == flipped_bits(
            p,
            o,
            s,
            t,
            false,
            7,
            1,
            2,
        ),
{
}

/// The disks that the runs from a square hold, where a disk of the player
/// ends them, are the bracketed disks.
proof fn lemma_runs_are_brackets(p: u64, o: u64, s: u64, t: u64)
    requires
        s < 64,
        t < 64,
        p & o == 0,
    ensures
        at(flip_dir_spec(0x8000_0000_0000_0000u64 >> s, p, o & INNER_FILES, 1i8), t) == flipped_bits(
            p,
            o,
            s,
            t,
            true,
            1,
            1,
            0,
        ),
        at(flip_dir_spec(0x8000_0000_0000_0000u64 >> s, p, o & INNER_FILES, -1i8), t)
            == flipped_bits(p, o, s, t, false, 1, 2, 0),
        at(flip_dir_spec(0x8000_0000_0000_0000u64 >> s, p, o, 8i8), t) == flipped_bits(
            p,
            o,
            s,
            t,
            true,
            8,
            0,
            1,
        ),
        at(flip_dir_spec(0x8000_0000_0000_0000u64 >> s, p, o, -8i8), t) == flipped_bits(
            p,
            o,
            s,
            t,
            false,
            8,
            0,
            2,
        ),
        at(flip_dir_spec(0x8000_0000_0000_0000u64 >> s, p, o & INNER_FILES, 9i8), t) == flipped_bits(
            p,
            o,
            s,
            t,
            true,
            9,
            1,
            1,
        ),
        at(flip_dir_spec(0x8000_0000_0000_0000u64 >> s, p, o & INNER_FILES, -9i8), t)
            == flipped_bits(p, o, s, t, false, 9, 2, 2),
        at(flip_dir_spec(0x8000_0000_0000_0000u64 >> s, p, o & INNER_FILES, 7i8), t) == flipped_bits(
            p,
            o,
            s,
            t,
            true,
            7,
            2,
            1,
        ),
        at(flip_dir_spec(0x8000_0000_0000_0000u64 >> s, p, o & INNER_FILES, -7i8), t)
            == flipped_bits(p, o, s, t, false, 7, 1, 2),
{
    lemma_runs_along_ranks(p, o, s, t);
    lemma_runs_along_files(p, o, s, t);
    lemma_runs_down_diagonals(p, o, s, t);
    lemma_runs_up_diagonals(p, o, s, t);
}

/// One of the first `count` steps from `s`, told in bits, is a step on the
/// board.
proof fn lemma_within_on_board(s: int, t: int, dir: int, count: int, steps: int)
    requires
        0 <= s < 64,
        0 <= t < 64,
        is_direction(dir),
        0 <= count <= steps <= 7,
        on_board(s, dir, steps),
    ensures
        within(s as u64, t as u64, forward_of(dir), delta_of(dir), count as u64) == (exists|i: int|
            1 <= i <= count && t == #[trigger] (s + i * dir)),
    decreases count,
{
    if count > 0 {
        lemma_within_on_board(s, t, dir, count - 1, steps);
        lemma_steps_on_board(s, dir, steps);
        assert(on_board(s, dir, count));
        lemma_steps_on_board(s, dir, count);
        if exists|i: int| 1 <= i <= count && t == #[trigger] (s + i * dir) {
            let i = choose|i: int| 1 <= i <= count && t == #[trigger] (s + i * dir);
            if i < count {
                assert(1 <= i <= count - 1 && t == s + i * dir);
            }
        }
        if within(s as u64, t as u64, forward_of(dir), delta_of(dir), count as u64) {
            if t == s + count * dir {
                assert(1 <= count <= count && t == s + count * dir);
            } else {
                let i = choose|i: int| 1 <= i <= count - 1 && t == #[trigger] (s + i * dir);
                assert(1 <= i <= count && t == s + i * dir);
            }
        }
    }
}

/// The disks that a run turns over in a direction, told in bits, are the
/// bracketed disks on the board.
proof fn lemma_flipped_in_direction(p: u64, o: u64, s: int, t: int, dir: int)
    requires
        0 <= s < 64,
        0 <= t < 64,
        is_direction(dir),
    ensures
        flipped_bits(
            p,
            o,
            s as u64,
            t as u64,
            forward_of(dir),
            delta_of(dir),
            files_of(dir),
            ranks_of(dir),
        ) == (exists|count: int, i: int| #[trigger]
            brackets(p, o, s, dir, count) && 1 <= i <= count && t == #[trigger] (s + i * dir)),
{
    let holds = exists|count: int, i: int| #[trigger]
        brackets(p, o, s, dir, count) && 1 <= i <= count && t == #[trigger] (s + i * dir);
    assert forall|count: int| 1 <= count <= 6 implies (bracket_bits(
        p,
        o,
        s as u64,
        forward_of(dir),
        delta_of(dir),
        files_of(dir),
        ranks_of(dir),
        count as u64,
    ) && within(s as u64, t as u64, forward_of(dir), delta_of(dir), count as u64)) == (#[trigger] brackets(
        p,
        o,
        s,
        dir,
        count,
    ) && exists|i: int| 1 <= i <= count && t == #[trigger] (s + i * dir)) by {
        lemma_bracket_on_board(p, o, s, dir, count);
        if brackets(p, o, s, dir, count) {
            lemma_steps_on_board(s, dir, count + 1);
            lemma_within_on_board(s, t, dir, count, count + 1);
        }
    }
    if holds {
        let (count, i) = choose|count: int, i: int| #[trigger]
            brackets(p, o, s, dir, count) && 1 <= i <= count && t == #[trigger] (s + i * dir);
        lemma_bracket_count(p, o, s, dir, count);
        assert(brackets(p, o, s, dir, count) && exists|i: int|
            1 <= i <= count && t == #[trigger] (s + i * dir));
    }
    if flipped_bits(
        p,
        o,
        s as u64,
        t as u64,
        forward_of(dir),
        delta_of(dir),
        files_of(dir),
        ranks_of(dir),
    ) {
        let count: int = if bracket_bits(
            p,
            o,
            s as u64,
            forward_of(dir),
            delta_of(dir),
            files_of(dir),
            ranks_of(dir),
            1,
        ) && within(s as u64, t as u64, forward_of(dir), delta_of(dir), 1) {
            1
        } else if bracket_bits(
            p,
            o,
            s as u64,
            forward_of(dir),
            delta_of(dir),
            files_of(dir),
            ranks_of(dir),
            2,
        ) && within(s as u64, t as u64, forward_of(dir), delta_of(dir), 2) {
            2
        } else if bracket_bits(
            p,
            o,
            s as u64,
            forward_of(dir),
            delta_of(dir),
            files_of(dir),
            ranks_of(dir),
            3,
        ) && within(s as u64, t as u64, forward_of(dir), delta_of(dir), 3) {
            3
        } else if bracket_bits(
            p,
            o,
            s as u64,
            forward_of(dir),
            delta_of(dir),
            files_of(dir),
            ranks_of(dir),
            4,
        ) && within(s as u64, t as u64, forward_of(dir), delta_of(dir), 4) {
            4
        } else if bracket_bits(
            p,
            o,
            s as u64,
            forward_of(dir),
            delta_of(dir),
            files_of(dir),
            ranks_of(dir),
            5,
        ) && within(s as u64, t as u64, forward_of(dir), delta_of(dir), 5) {
            5
        } else {
            6
        };
        assert(brackets(p, o, s, dir, count));
        let i = choose|i: int| 1 <= i <= count && t == #[trigger] (s + i * dir);
        assert(brackets(p, o, s, dir, count) && 1 <= i <= count && t == s + i * dir);
    }
}

/// The disks that a move turns over are the disks of the opponent that it
/// brackets.
pub proof fn lemma_flip_meaning(player: u64, opponent: u64, square: u8, t: int)
    requires
        player & opponent == 0,
        square < 64,
        0 <= t < 64,
    ensures
        mask_has(flip_spec(square, player, opponent), t) <==> is_flipped(
            player,
            opponent,
            square as int,
            t,
        ),
{
    let p = player;
    let o = opponent;
    let s = square as int;
    let inner = opponent & INNER_FILES;
    let disk = square_mask(square as u64);
    lemma_union_at(
        p,
        o,
        t as u64,
        flip_dir_spec(disk, p, o, -8i8),
        flip_dir_spec(disk, p, o, 8i8),
        flip_dir_spec(disk, p, inner, -1i8),
        flip_dir_spec(disk, p, inner, 1i8),
        flip_dir_spec(disk, p, inner, -9i8),
        flip_dir_spec(disk, p, inner, -7i8),
        flip_dir_spec(disk, p, inner, 7i8),
        flip_dir_spec(disk, p, inner, 9i8),
    );
    assert(mask_has(flip_spec(square, p, o), t) == at(flip_spec(square, p, o), t as u64));
    lemma_runs_are_brackets(p, o, square as u64, t as u64);
    lemma_flipped_in_direction(p, o, s, t, 1);
    lemma_flipped_in_direction(p, o, s, t, -1);
    lemma_flipped_in_direction(p, o, s, t, 8);
    lemma_flipped_in_direction(p, o, s, t, -8);
    lemma_flipped_in_direction(p, o, s, t, 9);
    lemma_flipped_in_direction(p, o, s, t, -9);
    lemma_flipped_in_direction(p, o, s, t, 7);
    lemma_flipped_in_direction(p, o, s, t, -7);
    if mask_has(flip_spec(square, p, o), t) {
        let dir: int = if at(flip_dir_spec(disk, p, inner, 1i8), t as u64) {
            1
        } else if at(flip_dir_spec(disk, p, inner, -1i8), t as u64) {
            -1
        } else if at(flip_dir_spec(disk, p, o, 8i8), t as u64) {
            8
        } else if at(flip_dir_spec(disk, p, o, -8i8), t as u64) {
            -8
        } else if at(flip_dir_spec(disk, p, inner, 9i8), t as u64) {
            9
        } else if at(flip_dir_spec(disk, p, inner, -9i8), t as u64) {
            -9
        } else if at(flip_dir_spec(disk, p, inner, 7i8), t as u64) {
            7
        } else {
            -7
        };
        let (count, i) = choose|count: int, i: int| #[trigger]
            brackets(p, o, s, dir, count) && 1 <= i <= count && t == #[trigger] (s + i * dir);
        assert(is_direction(dir) && brackets(p, o, s, dir, count) && 1 <= i <= count && t == s + i
            * dir);
    }
    if is_flipped(p, o, s, t) {
        let (dir, count, i) = choose|dir: int, count: int, i: int|
            is_direction(dir) && #[trigger] brackets(p, o, s, dir, count) && 1 <= i <= count && t
                == #[trigger] (s + i * dir);
        assert(exists|count: int, i: int| #[trigger]
            brackets(p, o, s, dir, count) && 1 <= i <= count && t == #[trigger] (s + i * dir));
    }
}

/// A move on a square that the move generator offers turns over at least
/// one disk, and only disks of the opponent.
pub proof fn lemma_legal_move_flips(square: u8, player: u64, opponent: u64)
    requires
        square < 64,
        player & opponent == 0,
        all_moves_spec(player, opponent) & square_mask(square as u64) != 0,
    ensures
        flip_spec(square, player, opponent) != 0,
        flip_spec(square, player, opponent) & !opponent == 0,
{
    let s = square as int;
    crate::board::bitboard::lemma_flip_inside_opponent(
        square_mask(square as u64),
        player,
        opponent,
    );
    lemma_all_moves_meaning(player, opponent, s);
    let (dir, count) = choose|dir: int, count: int|
        is_direction(dir) && #[trigger] brackets(player, opponent, s, dir, count);
    lemma_bracket_count(player, opponent, s, dir, count);
    lemma_steps_on_board(s, dir, count + 1);
    assert(on_board(s, dir, 1));
    lemma_steps_on_board(s, dir, 1);
    let t = s + 1 * dir;
    assert(brackets(player, opponent, s, dir, count) && 1 <= 1 <= count && t == s + 1 * dir);
    assert(is_flipped(player, opponent, s, t));
    lemma_flip_meaning(player, opponent, square, t);
    crate::bits::lemma_mask_basics(square_mask(t as u64), 0);
}

/// On an empty square the player may place a disk where that turns over a
/// disk.
pub proof fn lemma_move_iff_flips(square: u8, player: u64, opponent: u64)
    requires
        square < 64,
        player & opponent == 0,
        !mask_has(player, square as int),
        !mask_has(opponent, square as int),
    ensures
        mask_has(all_moves_spec(player, opponent), square as int) <==> flip_spec(
            square,
            player,
            opponent,
        ) != 0,
{
    let s = square as int;
    let flood = flip_spec(square, player, opponent);
    lemma_all_moves_meaning(player, opponent, s);
    if mask_has(all_moves_spec(player, opponent), s) {
        lemma_legal_move_flips(square, player, opponent);
    }
    if flood != 0 {
        crate::board::rules::lemma_mask_square(flood);
        let t = choose|t: int| mask_has(flood, t);
        lemma_flip_meaning(player, opponent, square, t);
        let (dir, count, i) = choose|dir: int, count: int, i: int|
            is_direction(dir) && #[trigger] brackets(player, opponent, s, dir, count) && 1 <= i
                <= count && t == #[trigger] (s + i * dir);
        assert(is_direction(dir) && brackets(player, opponent, s, dir, count));
    }
}

/// A play is a move of the side to move where its square is empty and, in
/// some direction, disks of the other side are bracketed.
pub proof fn lemma_legal_play_meaning(b: Board, square: u8)
    requires
        b.valid(),
    ensures
        b.is_legal(Move::Play(square)) <==> is_move(
            b.player_disks(),
            b.opponent_disks(),
            square as int,
        ),
{
    crate::board::rules::lemma_players_apart(b);
    if square < 64 {
        lemma_all_moves_meaning(b.player_disks(), b.opponent_disks(), square as int);
    }
}

} // verus!
