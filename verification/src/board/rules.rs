//! What holds of positions and moves: the laws of making and taking back a
//! move.

use vstd::prelude::*;
use crate::bits::{
    lemma_popcount_disjoint, lemma_popcount_one_bit, lemma_popcount_le_64, lemma_mask_basics,
};
use crate::board::bitboard::{square_mask, all_moves_spec, flip_spec, lemma_all_moves_empty};
use crate::board::lines::lemma_legal_move_flips;
use vstd::std_specs::bits::u64_leading_zeros;
use crate::bits::popcount;
use crate::board::{Board, Move, mask_has, plays_upto};

verus! {

/// A square of a mask lies outside what the mask lies outside of.
proof fn lemma_square_outside(s: u64, moves: u64, disks: u64)
    by (bit_vector)
    requires
        s < 64,
        moves & (0x8000_0000_0000_0000u64 >> s) != 0,
        moves & disks == 0,
    ensures
        (0x8000_0000_0000_0000u64 >> s) & disks == 0,
{
}

/// What a play does to the masks of both sides, and what taking it back
/// undoes.
proof fn lemma_play_masks(p: u64, o: u64, flood: u64, disk: u64)
    by (bit_vector)
    requires
        flood & !o == 0,
        disk & (p | o) == 0,
    ensures
        (p ^ flood ^ disk) ^ (flood ^ disk) == p,
        ((o ^ flood) ^ (flood ^ disk)) & !disk == o,
        p & o == 0 ==> (p ^ flood ^ disk) & (o ^ flood) == 0,
        p & o == 0 ==> (p ^ flood ^ disk) | (o ^ flood) == (p | o) | disk,
        p & o == 0 ==> (o ^ flood) | (p ^ flood ^ disk) == (o | p) | disk,
        (p | o) & disk == 0,
        (o | p) & disk == 0,
{
}

impl Board {
    /// The measure by which a game goes on: it falls with every move of a
    /// game that is not over.
    pub open spec fn rank(self) -> int {
        2 * self.empties() + if self.moves_mask() == 0 {
            1int
        } else {
            0int
        }
    }
}

/// A play that the move generator offers lands on an empty square, and
/// turns over at least one disk, all of them the opponent's.
pub proof fn lemma_legal_play(b: Board, square: u8)
    requires
        b.valid(),
        b.is_legal(Move::Play(square)),
    ensures
        square < 64,
        square_mask(square as u64) & (b.player_disks() | b.opponent_disks()) == 0,
        flip_spec(square, b.player_disks(), b.opponent_disks()) != 0,
        flip_spec(square, b.player_disks(), b.opponent_disks()) & !b.opponent_disks() == 0,
{
    let p = b.player_disks();
    let o = b.opponent_disks();
    lemma_all_moves_empty(p, o);
    lemma_square_outside(square as u64, all_moves_spec(p, o), p | o);
    assert(p & o == 0) by {
        lemma_mask_basics(b.black_disks, b.white_disks);
    }
    lemma_legal_move_flips(square, p, o);
}

/// In a position without a square of both sides, the disks of the side to
/// move and those of the other side lie apart.
pub proof fn lemma_players_apart(b: Board)
    requires
        b.valid(),
    ensures
        b.player_disks() & b.opponent_disks() == 0,
{
    lemma_mask_basics(b.black_disks, b.white_disks);
}

/// A move of the side to move leaves no square with a disk of both sides.
pub proof fn lemma_apply_valid(b: Board, m: Move)
    requires
        b.valid(),
        b.is_legal(m),
    ensures
        b.apply(m).valid(),
{
    match m {
        Move::Play(square) => {
            lemma_legal_play(b, square);
            let p = b.player_disks();
            let o = b.opponent_disks();
            lemma_mask_basics(b.black_disks, b.white_disks);
            lemma_play_masks(p, o, flip_spec(square, p, o), square_mask(square as u64));
            let after = b.apply(m);
            lemma_mask_basics(after.black_disks, after.white_disks);
        },
        Move::Pass => {},
    }
}

/// Taking back a move of the side to move, with what `make_move` returned
/// for it, restores the position: the disks of both sides and the side to
/// move.
pub proof fn lemma_apply_revert(b: Board, m: Move)
    requires
        b.is_legal(m),
    ensures
        b.apply(m).revert(b.undo_token(m), m) == b,
{
    match m {
        Move::Play(square) => {
            let p = b.player_disks();
            let o = b.opponent_disks();
            lemma_all_moves_empty(p, o);
            lemma_square_outside(square as u64, all_moves_spec(p, o), p | o);
            crate::board::bitboard::lemma_flip_inside_opponent(square_mask(square as u64), p, o);
            lemma_play_masks(p, o, flip_spec(square, p, o), square_mask(square as u64));
        },
        Move::Pass => {},
    }
}

/// A play fills one empty square; a pass fills none.
pub proof fn lemma_apply_empties(b: Board, m: Move)
    requires
        b.valid(),
        b.is_legal(m),
    ensures
        b.apply(m).empties() == b.empties() - if m is Play {
            1int
        } else {
            0int
        },
        0 <= b.empties() <= 64,
{
    lemma_popcount_le_64(b.white_disks | b.black_disks);
    match m {
        Move::Play(square) => {
            lemma_legal_play(b, square);
            let p = b.player_disks();
            let o = b.opponent_disks();
            let disk = square_mask(square as u64);
            lemma_mask_basics(b.black_disks, b.white_disks);
            lemma_play_masks(p, o, flip_spec(square, p, o), disk);
            lemma_popcount_disjoint(b.white_disks | b.black_disks, disk);
            lemma_popcount_one_bit(square as u64);
        },
        Move::Pass => {},
    }
}

/// While the game is not over, every move of the side to move lowers the
/// rank of the position.
pub proof fn lemma_apply_rank(b: Board, m: Move)
    requires
        b.valid(),
        !b.game_over(),
        b.is_legal(m),
    ensures
        0 <= b.apply(m).rank() < b.rank(),
{
    lemma_apply_empties(b, m);
    lemma_apply_valid(b, m);
    lemma_popcount_le_64(b.apply(m).white_disks | b.apply(m).black_disks);
    match m {
        Move::Play(square) => {},
        Move::Pass => {
            lemma_mask_basics(b.white_moves(), b.black_moves());
        },
    }
}

/// The plays below `n` are the plays on the squares of the mask below `n`.
pub proof fn lemma_plays_members(mask: u64, n: int, m: Move)
    requires
        0 <= n <= 64,
    ensures
        plays_upto(mask, n).contains(m) <==> (m matches Move::Play(square) && square < n
            && mask_has(mask, square as int)),
    decreases n,
{
    if n > 0 {
        lemma_plays_members(mask, n - 1, m);
        let before = plays_upto(mask, n - 1);
        if mask_has(mask, n - 1) {
            let last = Move::Play((n - 1) as u8);
            let now = before.push(last);
            assert(now[now.len() - 1] == last);
            if before.contains(m) {
                let i = choose|i: int| 0 <= i < before.len() && before[i] == m;
                assert(now[i] == m);
            }
            if now.contains(m) {
                let i = choose|i: int| 0 <= i < now.len() && now[i] == m;
                if i < before.len() {
                    assert(before[i] == m);
                }
            }
        }
    }
}

/// There are no more plays than squares.
pub proof fn lemma_plays_len(mask: u64, n: int)
    requires
        0 <= n <= 64,
    ensures
        plays_upto(mask, n).len() <= n,
    decreases n,
{
    if n > 0 {
        lemma_plays_len(mask, n - 1);
    }
}

/// A position has at least one move, and at most 64.
pub proof fn lemma_legal_moves_len(b: Board)
    ensures
        1 <= b.legal_moves().len() <= 64,
{
    lemma_legal_moves_members(b, Move::Pass);
    lemma_plays_len(b.moves_mask(), 64);
}

/// The moves that `get_moves` gives are the moves of the side to move:
/// its plays, and a pass only if it has no play.
pub proof fn lemma_legal_moves_members(b: Board, m: Move)
    ensures
        b.legal_moves().contains(m) <==> b.is_legal(m),
        b.legal_moves().len() > 0,
        b.is_legal(m) ==> m.wf(),
{
    let mask = b.moves_mask();
    if mask == 0 {
        let moves = b.legal_moves();
        assert(moves[0] == Move::Pass);
        match m {
            Move::Play(square) => {
                assert(0u64 & square_mask(square as u64) == 0) by {
                    lemma_mask_basics(square_mask(square as u64), 0);
                }
            },
            Move::Pass => {},
        }
    } else {
        lemma_plays_members(mask, 64, m);
        lemma_mask_square(mask);
        let s = choose|s: int| mask_has(mask, s);
        lemma_plays_members(mask, 64, Move::Play(s as u8));
    }
}

/// A mask that is not empty holds a square.
pub proof fn lemma_mask_square(mask: u64)
    requires
        mask != 0,
    ensures
        exists|s: int| mask_has(mask, s),
{
    vstd::std_specs::bits::axiom_u64_leading_zeros(mask);
    let index = vstd::std_specs::bits::u64_leading_zeros(mask);
    lemma_top_bit(mask, index as u64);
    assert(mask_has(mask, index));
}

/// A mask whose bit of a square is set holds the square.
proof fn lemma_top_bit(x: u64, s: u64)
    by (bit_vector)
    requires
        s < 64,
        (x >> ((63 - s) as u64)) & 1 != 0,
    ensures
        x & (0x8000_0000_0000_0000u64 >> s) != 0,
{
}

/// A side that has a play is not offered a pass.
pub proof fn lemma_no_pass_with_plays(b: Board)
    requires
        b.moves_mask() != 0,
    ensures
        !b.legal_moves().contains(Move::Pass),
{
    lemma_legal_moves_members(b, Move::Pass);
}

/// The position to which a game returns when the moves of `path` are made
/// from `b` in turn and then taken back, last move first, each with what
/// `make_move` returned for it.
pub open spec fn replay_and_rewind(b: Board, path: Seq<Move>) -> Board
    decreases path.len(),
{
    if path.len() == 0 {
        b
    } else {
        replay_and_rewind(b.apply(path[0]), path.drop_first()).revert(
            b.undo_token(path[0]),
            path[0],
        )
    }
}

/// Whether each move of `path` is a move of the side to move in the
/// position in which it is made.
pub open spec fn legal_path(b: Board, path: Seq<Move>) -> bool
    decreases path.len(),
{
    path.len() == 0 || (b.is_legal(path[0]) && legal_path(b.apply(path[0]), path.drop_first()))
}

/// Making the moves of a path and taking them back in reverse returns to
/// the starting position.
pub proof fn lemma_path_round_trip(b: Board, path: Seq<Move>)
    requires
        legal_path(b, path),
    ensures
        replay_and_rewind(b, path) == b,
    decreases path.len(),
{
    if path.len() > 0 {
        lemma_path_round_trip(b.apply(path[0]), path.drop_first());
        lemma_apply_revert(b, path[0]);
    }
}

/// What taking a set bit out of a mask leaves, and what masks outside all
/// squares but one can be.
proof fn lemma_one_bit_masks(x: u64, e: u64, m: u64, all: u64)
    by (bit_vector)
    requires
        e < 64,
    ensures
        x & (0x8000_0000_0000_0000u64 >> e) != 0 ==> (x ^ (0x8000_0000_0000_0000u64 >> e)) & (
            0x8000_0000_0000_0000u64 >> e) == 0 && (x ^ (0x8000_0000_0000_0000u64 >> e)) | (
            0x8000_0000_0000_0000u64 >> e) == x,
        x ^ (0x8000_0000_0000_0000u64 >> e) == 0 ==> x == 0x8000_0000_0000_0000u64 >> e,
        m & all == 0 && !all == 0x8000_0000_0000_0000u64 >> e ==> m == 0 || m
            == 0x8000_0000_0000_0000u64 >> e,
        !all == 0x8000_0000_0000_0000u64 >> e ==> all & (0x8000_0000_0000_0000u64 >> e) == 0,
        forall|s: u64|
            s < 64 ==> (((0x8000_0000_0000_0000u64 >> e) & (0x8000_0000_0000_0000u64 >> s) != 0)
                <==> s == e),
{
}

/// A mask with one set bit is the mask of its first square.
pub proof fn lemma_single_square(x: u64)
    requires
        popcount(x) == 1,
    ensures
        0 <= u64_leading_zeros(x) < 64,
        x == square_mask(u64_leading_zeros(x) as u64),
        mask_has(x, u64_leading_zeros(x)),
{
    crate::bits::lemma_popcount_zero(x);
    crate::board::lemma_first_square(x);
    let e = u64_leading_zeros(x) as u64;
    let disk = square_mask(e);
    lemma_one_bit_masks(x, e, 0, 0);
    lemma_popcount_disjoint(x ^ disk, disk);
    lemma_popcount_one_bit(e);
    crate::bits::lemma_popcount_zero(x ^ disk);
}

/// In a position with one empty square, that square is the first square
/// that holds no disk, and neither side has a move on another square.
pub proof fn lemma_last_empty(b: Board)
    requires
        b.empties() == 1,
    ensures
        0 <= u64_leading_zeros(!(b.white_disks | b.black_disks)) < 64,
        !(b.white_disks | b.black_disks) == square_mask(
            u64_leading_zeros(!(b.white_disks | b.black_disks)) as u64,
        ),
        b.black_moves() == 0 || b.black_moves() == !(b.white_disks | b.black_disks),
        b.white_moves() == 0 || b.white_moves() == !(b.white_disks | b.black_disks),
        (b.white_disks | b.black_disks) & !(b.white_disks | b.black_disks) == 0,
        mask_has(
            !(b.white_disks | b.black_disks),
            u64_leading_zeros(!(b.white_disks | b.black_disks)),
        ),
{
    let all = b.white_disks | b.black_disks;
    crate::bits::lemma_popcount_complement(all);
    lemma_single_square(!all);
    let e = u64_leading_zeros(!all) as u64;
    lemma_all_moves_empty(b.black_disks, b.white_disks);
    lemma_all_moves_empty(b.white_disks, b.black_disks);
    lemma_mask_basics(b.black_disks, b.white_disks);
    lemma_one_bit_masks(0, e, b.black_moves(), all);
    lemma_one_bit_masks(0, e, b.white_moves(), all);
}

/// A side whose moves are one square has one move, the play on it.
pub proof fn lemma_single_move(b: Board, square: u8)
    requires
        square < 64,
        b.moves_mask() == square_mask(square as u64),
    ensures
        b.legal_moves() == seq![Move::Play(square)],
{
    let mask = b.moves_mask();
    let e = square as int;
    lemma_one_bit_masks(0, square as u64, 0, 0);
    assert forall|s: int| 0 <= s < 64 implies (mask_has(mask, s) <==> s == e) by {
        let t = s as u64;
        assert(t < 64);
    }
    crate::board::lemma_plays_skip(mask, 0, e);
    crate::board::lemma_plays_skip(mask, e + 1, 64);
    assert(plays_upto(mask, 0) =~= Seq::<Move>::empty());
    assert(plays_upto(mask, e + 1) == plays_upto(mask, e).push(Move::Play(square)));
    assert(plays_upto(mask, 64) =~= seq![Move::Play(square)]);
    assert(mask_has(mask, e));
    lemma_mask_basics(square_mask(square as u64), 0);
}

/// What a play does to the masks of both sides, as unions of masks that
/// lie apart.
proof fn lemma_play_unions(p: u64, o: u64, flood: u64, disk: u64)
    by (bit_vector)
    requires
        p & o == 0,
        flood & !o == 0,
        disk & (p | o) == 0,
    ensures
        p ^ flood ^ disk == (p | flood) | disk,
        p & flood == 0,
        (p | flood) & disk == 0,
        (o ^ flood) | flood == o,
        (o ^ flood) & flood == 0,
{
}

/// A play adds to the disks of the side that makes it the disks that it
/// turns over and the disk that it places, and takes from the other side
/// the disks that it turns over.
pub proof fn lemma_apply_counts(b: Board, square: u8)
    requires
        b.valid(),
        b.is_legal(Move::Play(square)),
    ensures
        popcount(b.apply(Move::Play(square)).opponent_disks()) == popcount(b.player_disks())
            + popcount(flip_spec(square, b.player_disks(), b.opponent_disks())) + 1,
        popcount(b.apply(Move::Play(square)).player_disks()) + popcount(
            flip_spec(square, b.player_disks(), b.opponent_disks()),
        ) == popcount(b.opponent_disks()),
{
    lemma_legal_play(b, square);
    lemma_players_apart(b);
    let p = b.player_disks();
    let o = b.opponent_disks();
    let flood = flip_spec(square, p, o);
    let disk = square_mask(square as u64);
    lemma_play_unions(p, o, flood, disk);
    lemma_popcount_disjoint(p, flood);
    lemma_popcount_disjoint(p | flood, disk);
    lemma_popcount_one_bit(square as u64);
    lemma_popcount_disjoint(o ^ flood, flood);
}

/// On a full board the game is over.
pub proof fn lemma_full_board_over(b: Board)
    requires
        b.empties() == 0,
    ensures
        b.game_over(),
        b.moves_mask() == 0,
{
    let all = b.white_disks | b.black_disks;
    crate::bits::lemma_popcount_complement(all);
    lemma_all_moves_empty(b.black_disks, b.white_disks);
    lemma_all_moves_empty(b.white_disks, b.black_disks);
    lemma_mask_basics(b.black_disks, b.white_disks);
    lemma_full_mask(b.black_moves(), b.white_moves(), all);
}

/// A mask outside the full mask is empty.
proof fn lemma_full_mask(a: u64, b: u64, all: u64)
    by (bit_vector)
    requires
        all == 0xFFFF_FFFF_FFFF_FFFFu64,
    ensures
        a & all == 0 ==> a == 0,
        b & all == 0 ==> b == 0,
        0u64 | 0u64 == 0,
{
}

} // verus!
