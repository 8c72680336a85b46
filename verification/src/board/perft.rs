//! Counting the lines of play of a given length, by which move generation
//! is tested.

use vstd::prelude::*;
use crate::board::{Board, Move};
use crate::board::rules::{lemma_legal_moves_members, lemma_apply_revert};

verus! {

/// The number of lines of play of `depth` moves from the position `b`.
pub open spec fn perft_spec(b: Board, depth: nat) -> nat
    decreases depth, b.legal_moves().len() + 1,
{
    if depth == 0 {
        1
    } else {
        perft_moves(b, depth, b.legal_moves())
    }
}

/// The number of lines of play of `depth` moves from the position `b` that
/// start with one of `moves`.
pub open spec fn perft_moves(b: Board, depth: nat, moves: Seq<Move>) -> nat
    decreases depth, moves.len(),
{
    if moves.len() == 0 || depth == 0 {
        0
    } else {
        perft_moves(b, depth, moves.drop_last()) + perft_spec(
            b.apply(moves.last()),
            (depth - 1) as nat,
        )
    }
}

/// A count that is cut off at the greatest 64-bit number.
pub open spec fn capped(count: nat) -> u64 {
    if count > u64::MAX {
        u64::MAX
    } else {
        count as u64
    }
}

/// Counts the lines of play of `depth` moves from the position, a pass
/// being a move. A count beyond the greatest 64-bit number is returned as
/// that number.
pub fn perft(board: &mut Board, depth: u8) -> (r: u64)
    ensures
        *final(board) == *old(board),
        r == capped(perft_spec(*old(board), depth as nat)),
    decreases depth,
{
    if depth == 0 {
        return 1;
    }
    let ghost start = *board;
    let mut nodes: u64 = 0;

    let moves: Vec<Move> = board.get_moves();
    let mut i: usize = 0;
    while i < moves.len()
        invariant
            i <= moves.len(),
            depth > 0,
            *board == start,
            moves@ == start.legal_moves(),
            nodes == capped(perft_moves(start, depth as nat, moves@.take(i as int))),
        decreases moves.len() - i,
    {
        let m: Move = moves[i];
        proof {
            assert(moves@.contains(m));
            lemma_legal_moves_members(start, m);
            lemma_apply_revert(start, m);
            assert(moves@.take(i + 1).drop_last() =~= moves@.take(i as int));
            assert(moves@.take(i + 1).last() == m);
        }
        let undo: u64 = board.make_move(m);
        let below: u64 = perft(board, depth - 1);
        nodes = nodes.saturating_add(below);
        board.undo_move(undo, m);
        i += 1;
    }
    assert(moves@.take(i as int) =~= moves@);

    nodes
}

/// The position with the colours exchanged: every disk turned over, and
/// the other side to move.
pub open spec fn swap_colours(b: Board) -> Board {
    Board { white_disks: b.black_disks, black_disks: b.white_disks, black_move: !b.black_move }
}

/// The number of lines of play does not depend on which colour is which.
pub proof fn lemma_perft_colours(b: Board, depth: nat)
    ensures
        perft_spec(swap_colours(b), depth) == perft_spec(b, depth),
    decreases depth, b.legal_moves().len() + 1,
{
    if depth > 0 {
        assert(swap_colours(b).legal_moves() == b.legal_moves());
        lemma_perft_moves_colours(b, depth, b.legal_moves());
    }
}

/// The number of lines of play that start with given moves does not depend
/// on which colour is which.
pub proof fn lemma_perft_moves_colours(b: Board, depth: nat, moves: Seq<Move>)
    requires
        depth > 0,
    ensures
        perft_moves(swap_colours(b), depth, moves) == perft_moves(b, depth, moves),
    decreases depth, moves.len(),
{
    if moves.len() > 0 {
        lemma_perft_moves_colours(b, depth, moves.drop_last());
        let m = moves.last();
        assert(swap_colours(b).apply(m) == swap_colours(b.apply(m)));
        lemma_perft_colours(b.apply(m), (depth - 1) as nat);
    }
}

} // verus!
