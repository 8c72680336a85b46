//! The last move of a game: with one square empty, the value of the game
//! is counted from the disks that a play on the square would turn over,
//! without a search.

use vstd::prelude::*;
use crate::bits::{popcount, lemma_popcount_le_64};
use crate::board::bitboard::{square_mask, flip_spec, get_flip};
use crate::board::lines::lemma_move_iff_flips;
use crate::board::rules::{
    lemma_last_empty, lemma_single_move, lemma_apply_counts, lemma_apply_empties,
    lemma_apply_valid, lemma_full_board_over, lemma_players_apart,
};
use crate::board::{Board, Move, mask_has};
use crate::search::endgame::{
    FinalScore, game_value, material, sign, lemma_value_range, lemma_apply_rank_floor,
    lemma_over_by_moves,
};
use crate::search::tree::{node_value, reply_value, is_leaf, no_reply};

verus! {

/// A difference in disks as the value of a game: the difference itself, or
/// its sign where only win, draw and loss are told apart.
pub open spec fn final_value(difference: int, wld: bool) -> int {
    if wld {
        sign(difference)
    } else {
        difference
    }
}

/// Masks that lie outside a square together lie outside it each.
proof fn lemma_outside_square(a: u64, b: u64, disk: u64)
    by (bit_vector)
    requires
        (a | b) & disk == 0,
    ensures
        a & disk == 0,
        b & disk == 0,
{
}

/// The mask of a square holds the square.
proof fn lemma_same_square(mask: u64, square: u8)
    requires
        square < 64,
        mask == square_mask(square as u64),
    ensures
        mask_has(mask, square as int),
{
    lemma_squares_meet(square as u64, square as u64);
}

/// The masks of two squares meet only where the squares are the same.
proof fn lemma_squares_meet(e: u64, s: u64)
    by (bit_vector)
    requires
        e < 64,
        s < 64,
    ensures
        (0x8000_0000_0000_0000u64 >> e) & (0x8000_0000_0000_0000u64 >> s) != 0 <==> s == e,
        (0x8000_0000_0000_0000u64 >> e) != 0,
{
}

/// The disks of the side to move less the disks of the other side.
proof fn lemma_material(b: Board)
    ensures
        material(b) == popcount(b.player_disks()) - popcount(b.opponent_disks()),
{
}

/// The value of the only move of a position is the value of the position.
proof fn lemma_only_move(b: Board, wld: bool, m: Move)
    requires
        b.valid(),
        !b.game_over(),
        b.legal_moves() == seq![m],
    ensures
        game_value(b, wld) == -node_value(&FinalScore { wld }, b.apply(m), b.rank() as nat),
{
    let scorer = FinalScore { wld };
    let plies = (b.rank() + 1) as nat;
    let moves = b.legal_moves();
    lemma_apply_rank_floor(b);
    assert(!is_leaf(b, plies));
    assert(moves.drop_last() =~= Seq::<Move>::empty());
    assert(moves.last() == m);
    lemma_value_range(&scorer, b.apply(m), (plies - 1) as nat);
    assert(reply_value(&scorer, b, plies, moves.drop_last()) == no_reply());
}

/// With one square empty and a move on it for the side to move, the game
/// is worth what the side to move has once it has made the move: its disks,
/// the disks that it turns over twice, and the disk that it places, less
/// the disks of the other side.
pub proof fn lemma_last_play(b: Board, wld: bool, square: u8)
    requires
        b.valid(),
        b.empties() == 1,
        square < 64,
        !(b.white_disks | b.black_disks) == square_mask(square as u64),
        flip_spec(square, b.player_disks(), b.opponent_disks()) != 0,
    ensures
        !b.game_over(),
        b.moves_mask() != 0,
        game_value(b, wld) == final_value(
            popcount(b.player_disks()) + 2 * popcount(
                flip_spec(square, b.player_disks(), b.opponent_disks()),
            ) + 1 - popcount(b.opponent_disks()),
            wld,
        ),
{
    let m = Move::Play(square);
    let scorer = FinalScore { wld };
    lemma_last_empty(b);
    lemma_players_apart(b);
    lemma_outside_square(b.white_disks, b.black_disks, square_mask(square as u64));
    lemma_move_iff_flips(square, b.player_disks(), b.opponent_disks());
    assert(mask_has(b.moves_mask(), square as int));
    crate::bits::lemma_mask_basics(square_mask(square as u64), 0);
    assert(b.moves_mask() == square_mask(square as u64));
    lemma_single_move(b, square);
    lemma_over_by_moves(b);
    let after = b.apply(m);
    lemma_apply_counts(b, square);
    lemma_apply_empties(b, m);
    lemma_apply_valid(b, m);
    lemma_full_board_over(after);
    lemma_only_move(b, wld, m);
    lemma_material(after);
    lemma_popcount_le_64(b.player_disks());
    lemma_popcount_le_64(b.opponent_disks());
}

/// With one square empty and a move on it only for the other side, the
/// game is worth to the side to move what it has once the other side has
/// made the move.
pub proof fn lemma_last_pass(b: Board, wld: bool, square: u8)
    requires
        b.valid(),
        b.empties() == 1,
        square < 64,
        !(b.white_disks | b.black_disks) == square_mask(square as u64),
        flip_spec(square, b.player_disks(), b.opponent_disks()) == 0,
        flip_spec(square, b.opponent_disks(), b.player_disks()) != 0,
    ensures
        !b.game_over(),
        game_value(b, wld) == final_value(
            popcount(b.player_disks()) - popcount(b.opponent_disks()) - 2 * popcount(
                flip_spec(square, b.opponent_disks(), b.player_disks()),
            ) - 1,
            wld,
        ),
{
    let passed = b.apply(Move::Pass);
    lemma_last_play(passed, wld, square);
    lemma_last_empty(b);
    lemma_players_apart(b);
    lemma_outside_square(b.white_disks, b.black_disks, square_mask(square as u64));
    lemma_move_iff_flips(square, b.player_disks(), b.opponent_disks());
    lemma_same_square(!(b.white_disks | b.black_disks), square);
    assert(b.moves_mask() == 0);
    assert(b.legal_moves() =~= seq![Move::Pass]);
    lemma_only_move(b, wld, Move::Pass);
    lemma_popcount_le_64(b.player_disks());
    lemma_popcount_le_64(b.opponent_disks());
}

/// With one square empty and no move on it for either side, the game is
/// over, and worth the disks of the side to move less those of the other
/// side.
pub proof fn lemma_last_over(b: Board, wld: bool, square: u8)
    requires
        b.valid(),
        b.empties() == 1,
        square < 64,
        !(b.white_disks | b.black_disks) == square_mask(square as u64),
        flip_spec(square, b.player_disks(), b.opponent_disks()) == 0,
        flip_spec(square, b.opponent_disks(), b.player_disks()) == 0,
    ensures
        b.game_over(),
        game_value(b, wld) == final_value(
            popcount(b.player_disks()) - popcount(b.opponent_disks()),
            wld,
        ),
{
    lemma_last_empty(b);
    lemma_players_apart(b);
    crate::bits::lemma_mask_basics(b.player_disks(), b.opponent_disks());
    lemma_outside_square(b.white_disks, b.black_disks, square_mask(square as u64));
    lemma_move_iff_flips(square, b.player_disks(), b.opponent_disks());
    lemma_move_iff_flips(square, b.opponent_disks(), b.player_disks());
    lemma_same_square(!(b.white_disks | b.black_disks), square);
    assert(b.black_moves() == 0 && b.white_moves() == 0);
    lemma_over_by_moves(b);
    lemma_apply_rank_floor(b);
    lemma_material(b);
}

/// Scores a position with one empty square for the side to move: the
/// value of the game, in disks or as win, draw and loss, and whether the
/// game is over. The side to move makes the last move if it can; if only
/// the other side can, that side makes it.
pub fn last_square(board: &Board, wld: bool) -> (r: (i32, bool))
    requires
        board.valid(),
        board.empties() == 1,
    ensures
        r.0 == game_value(*board, wld),
        r.1 == board.game_over(),
        -64 <= r.0 <= 64,
{
    proof {
        lemma_last_empty(*board);
        lemma_popcount_le_64(board.player_disks());
        lemma_popcount_le_64(board.opponent_disks());
    }
    let empty: u64 = !board.all_disks();
    let square: u8 = empty.leading_zeros() as u8;
    let (own, other) = if board.black_move {
        (board.black_disks, board.white_disks)
    } else {
        (board.white_disks, board.black_disks)
    };
    let own_count: i32 = own.count_ones() as i32;
    let other_count: i32 = other.count_ones() as i32;

    let flips: u64 = get_flip(square, own, other);
    let (difference, over) = if flips != 0 {
        proof {
            lemma_last_play(*board, wld, square);
            lemma_popcount_le_64(flips);
        }
        (own_count + 2 * (flips.count_ones() as i32) + 1 - other_count, false)
    } else {
        let back: u64 = get_flip(square, other, own);
        if back != 0 {
            proof {
                lemma_last_pass(*board, wld, square);
                lemma_popcount_le_64(back);
            }
            (own_count - other_count - 2 * (back.count_ones() as i32) - 1, false)
        } else {
            proof {
                lemma_last_over(*board, wld, square);
            }
            (own_count - other_count, true)
        }
    };
    proof {
        crate::search::endgame::lemma_game_value_range(*board, wld);
    }
    if !wld {
        (difference, over)
    } else if difference > 0 {
        (1, over)
    } else if difference < 0 {
        (-1, over)
    } else {
        (0, over)
    }
}

} // verus!
