//! The value of a position in the game tree, to which the searches are held.

use vstd::prelude::*;
use crate::board::{Board, Move};
use crate::board::rules::lemma_legal_moves_members;
use crate::search::eval::{Evaluator, MAX_SCORE};

verus! {

/// A number below every score: what the best reply is worth where there is
/// no reply.
pub open spec fn no_reply() -> int {
    -0x8000_0000
}

/// Whether a search of `depth` plies stops at the position `b`.
pub open spec fn is_leaf(b: Board, depth: nat) -> bool {
    depth == 0 || b.game_over()
}

/// The value of the position `b` for the side to move when both sides play
/// `depth` plies as well as they can and the evaluator scores the positions
/// where the search stops.
pub open spec fn node_value<E: Evaluator>(eval: &E, b: Board, depth: nat) -> int
    decreases depth, b.legal_moves().len() + 1,
{
    if is_leaf(b, depth) {
        eval.score(b)
    } else {
        reply_value(eval, b, depth, b.legal_moves())
    }
}

/// The value of the best of `moves` for the side to move in `b`: the
/// greatest of the negated values of the positions to which they lead.
pub open spec fn reply_value<E: Evaluator>(eval: &E, b: Board, depth: nat, moves: Seq<Move>) -> int
    decreases depth, moves.len(),
{
    if moves.len() == 0 || depth == 0 {
        no_reply()
    } else {
        let before = reply_value(eval, b, depth, moves.drop_last());
        let last = -node_value(eval, b.apply(moves.last()), (depth - 1) as nat);
        if last > before {
            last
        } else {
            before
        }
    }
}

/// What the move `m` is worth to the side to move in `b`, `depth` plies
/// deep: the negated value of the position to which it leads.
pub open spec fn move_value<E: Evaluator>(eval: &E, b: Board, depth: nat, m: Move) -> int {
    -node_value(eval, b.apply(m), (depth - 1) as nat)
}

/// What the move at place `j` of `moves` is worth.
pub open spec fn nth_value<E: Evaluator>(
    eval: &E,
    b: Board,
    depth: nat,
    moves: Seq<Move>,
    j: int,
) -> int {
    move_value(eval, b, depth, moves[j])
}

/// The place in `moves` of the first move that is worth as much as the best.
pub open spec fn best_index<E: Evaluator>(eval: &E, b: Board, depth: nat, moves: Seq<Move>) -> int
    decreases moves.len(),
{
    if moves.len() <= 1 {
        0
    } else if move_value(eval, b, depth, moves.last()) > reply_value(
        eval,
        b,
        depth,
        moves.drop_last(),
    ) {
        moves.len() - 1
    } else {
        best_index(eval, b, depth, moves.drop_last())
    }
}

/// What an alpha-beta search may return for a position of value `value`
/// within the window from `alpha` to `beta`: the value itself inside the
/// window, a bound on the same side outside, and never a number that lies
/// beyond both the value and the bound.
pub open spec fn window_result(alpha: int, beta: int, value: int, result: int) -> bool {
    &&& value <= alpha ==> result <= alpha
    &&& alpha < value < beta ==> result == value
    &&& value >= beta ==> result >= beta
    &&& result <= alpha || result <= value
    &&& result >= beta || result >= value
}

/// What a search that returns the best score it found may return for a
/// position of value `value` within the window from `alpha` to `beta`: the
/// value itself inside the window; at or below `alpha` a bound that the
/// value does not exceed; at or above `beta` a bound that the value reaches.
pub open spec fn soft_result(alpha: int, beta: int, value: int, result: int) -> bool {
    &&& result <= alpha ==> value <= result
    &&& alpha < result < beta ==> result == value
    &&& result >= beta ==> value >= result
}

/// The value of a position lies between the bounds of a score.
pub proof fn lemma_value_bounds<E: Evaluator>(eval: &E, b: Board, depth: nat)
    ensures
        -MAX_SCORE <= node_value(eval, b, depth) <= MAX_SCORE,
    decreases depth, b.legal_moves().len() + 1,
{
    if is_leaf(b, depth) {
        eval.lemma_score_bounds(b);
    } else {
        lemma_legal_moves_members(b, Move::Pass);
        lemma_reply_bounds(eval, b, depth, b.legal_moves());
    }
}

/// The value of the best of some moves lies between the bounds of a score;
/// without a move it is the number below every score.
pub proof fn lemma_reply_bounds<E: Evaluator>(eval: &E, b: Board, depth: nat, moves: Seq<Move>)
    requires
        depth > 0,
    ensures
        no_reply() <= reply_value(eval, b, depth, moves) <= MAX_SCORE,
        moves.len() > 0 ==> reply_value(eval, b, depth, moves) >= -MAX_SCORE,
        moves.len() == 0 ==> reply_value(eval, b, depth, moves) == no_reply(),
    decreases depth, moves.len(),
{
    if moves.len() > 0 {
        lemma_reply_bounds(eval, b, depth, moves.drop_last());
        lemma_value_bounds(eval, b.apply(moves.last()), (depth - 1) as nat);
    }
}

/// The value of the best of some moves is the greatest of their values.
pub proof fn lemma_reply_is_max<E: Evaluator>(eval: &E, b: Board, depth: nat, moves: Seq<Move>)
    requires
        depth > 0,
    ensures
        forall|j: int|
            0 <= j < moves.len() ==> #[trigger] nth_value(eval, b, depth, moves, j) <= reply_value(
                eval,
                b,
                depth,
                moves,
            ),
        moves.len() > 0 ==> exists|j: int|
            0 <= j < moves.len() && #[trigger] nth_value(eval, b, depth, moves, j) == reply_value(
                eval,
                b,
                depth,
                moves,
            ),
    decreases moves.len(),
{
    if moves.len() > 0 {
        let front = moves.drop_last();
        let last = moves.len() - 1;
        let whole = reply_value(eval, b, depth, moves);
        let part = reply_value(eval, b, depth, front);
        lemma_reply_is_max(eval, b, depth, front);
        lemma_reply_bounds(eval, b, depth, front);
        lemma_value_bounds(eval, b.apply(moves.last()), (depth - 1) as nat);
        assert(whole == if nth_value(eval, b, depth, moves, last) > part {
            nth_value(eval, b, depth, moves, last)
        } else {
            part
        });
        assert forall|j: int| 0 <= j < moves.len() implies #[trigger] nth_value(
            eval,
            b,
            depth,
            moves,
            j,
        ) <= whole by {
            if j < last {
                assert(front[j] == moves[j]);
                assert(nth_value(eval, b, depth, front, j) <= part);
            }
        }
        if nth_value(eval, b, depth, moves, last) > part {
            assert(nth_value(eval, b, depth, moves, last) == whole);
        } else {
            if front.len() > 0 {
                let j = choose|j: int|
                    0 <= j < front.len() && #[trigger] nth_value(eval, b, depth, front, j) == part;
                assert(front[j] == moves[j]);
                assert(nth_value(eval, b, depth, moves, j) == whole);
            } else {
                assert(nth_value(eval, b, depth, moves, last) == whole);
            }
        }
    }
}

/// The value of the best move does not depend on the order of the moves,
/// nor on how often a move is named.
pub proof fn lemma_reply_members<E: Evaluator>(
    eval: &E,
    b: Board,
    depth: nat,
    first: Seq<Move>,
    second: Seq<Move>,
)
    requires
        depth > 0,
        forall|m: Move| first.contains(m) <==> second.contains(m),
    ensures
        reply_value(eval, b, depth, first) == reply_value(eval, b, depth, second),
{
    lemma_reply_is_max(eval, b, depth, first);
    lemma_reply_is_max(eval, b, depth, second);
    lemma_reply_bounds(eval, b, depth, first);
    lemma_reply_bounds(eval, b, depth, second);
    if first.len() > 0 {
        let j = choose|j: int|
            0 <= j < first.len() && #[trigger] nth_value(eval, b, depth, first, j) == reply_value(
                eval,
                b,
                depth,
                first,
            );
        assert(first.contains(first[j]));
        assert(second.contains(first[j]));
        let k = choose|k: int| 0 <= k < second.len() && second[k] == first[j];
        assert(nth_value(eval, b, depth, second, k) <= reply_value(eval, b, depth, second));
    } else if second.len() > 0 {
        assert(second.contains(second[0]));
        assert(first.contains(second[0]));
    }
    if second.len() > 0 {
        let j = choose|j: int|
            0 <= j < second.len() && #[trigger] nth_value(eval, b, depth, second, j)
                == reply_value(eval, b, depth, second);
        assert(second.contains(second[j]));
        assert(first.contains(second[j]));
        let k = choose|k: int| 0 <= k < first.len() && first[k] == second[j];
        assert(nth_value(eval, b, depth, first, k) <= reply_value(eval, b, depth, first));
    }
}

/// One more move raises the value of the best move to its own value, or
/// leaves it.
pub proof fn lemma_reply_step<E: Evaluator>(
    eval: &E,
    b: Board,
    depth: nat,
    moves: Seq<Move>,
    i: int,
)
    requires
        depth > 0,
        0 <= i < moves.len(),
    ensures
        reply_value(eval, b, depth, moves.take(i + 1)) == if move_value(eval, b, depth, moves[i])
            > reply_value(eval, b, depth, moves.take(i)) {
            move_value(eval, b, depth, moves[i])
        } else {
            reply_value(eval, b, depth, moves.take(i))
        },
        best_index(eval, b, depth, moves.take(i + 1)) == if i == 0 {
            0
        } else if move_value(eval, b, depth, moves[i]) > reply_value(
            eval,
            b,
            depth,
            moves.take(i),
        ) {
            i
        } else {
            best_index(eval, b, depth, moves.take(i))
        },
        reply_value(eval, b, depth, moves.take(i)) <= reply_value(eval, b, depth, moves),
        i == 0 ==> reply_value(eval, b, depth, moves.take(i)) == no_reply(),
{
    let next = moves.take(i + 1);
    assert(next.drop_last() =~= moves.take(i));
    assert(next.last() == moves[i]);
    assert(next.len() == i + 1);
    assert(moves.take(i).len() == i);
    lemma_reply_prefix(eval, b, depth, moves, i);
}

/// The best of the first moves is worth no more than the best of all.
pub proof fn lemma_reply_prefix<E: Evaluator>(
    eval: &E,
    b: Board,
    depth: nat,
    moves: Seq<Move>,
    i: int,
)
    requires
        depth > 0,
        0 <= i <= moves.len(),
    ensures
        reply_value(eval, b, depth, moves.take(i)) <= reply_value(eval, b, depth, moves),
    decreases moves.len() - i,
{
    if i < moves.len() {
        let next = moves.take(i + 1);
        assert(next.drop_last() =~= moves.take(i));
        assert(next.len() == i + 1);
        lemma_reply_prefix(eval, b, depth, moves, i + 1);
    } else {
        assert(moves.take(i) =~= moves);
    }
}

/// Once a move is worth the greatest score, no later move is better: the
/// value of the best move and the place of the first best move stay.
pub proof fn lemma_reply_top<E: Evaluator>(
    eval: &E,
    b: Board,
    depth: nat,
    moves: Seq<Move>,
    i: int,
)
    requires
        depth > 0,
        0 < i <= moves.len(),
        reply_value(eval, b, depth, moves.take(i)) == MAX_SCORE,
    ensures
        reply_value(eval, b, depth, moves) == MAX_SCORE,
        best_index(eval, b, depth, moves) == best_index(eval, b, depth, moves.take(i)),
    decreases moves.len() - i,
{
    if i < moves.len() {
        lemma_reply_step(eval, b, depth, moves, i);
        lemma_value_bounds(eval, b.apply(moves[i]), (depth - 1) as nat);
        lemma_reply_top(eval, b, depth, moves, i + 1);
    } else {
        assert(moves.take(i) =~= moves);
    }
}

/// The first best move is worth as much as the best move is: its place lies
/// inside the moves, it is worth the value of the best move, and every move
/// before it is worth less.
pub proof fn lemma_best_index_value<E: Evaluator>(eval: &E, b: Board, depth: nat, moves: Seq<Move>)
    requires
        depth > 0,
        moves.len() > 0,
    ensures
        0 <= best_index(eval, b, depth, moves) < moves.len(),
        move_value(eval, b, depth, moves[best_index(eval, b, depth, moves)]) == reply_value(
            eval,
            b,
            depth,
            moves,
        ),
        forall|j: int|
            0 <= j < best_index(eval, b, depth, moves) ==> #[trigger] nth_value(
                eval,
                b,
                depth,
                moves,
                j,
            ) < reply_value(eval, b, depth, moves),
    decreases moves.len(),
{
    let front = moves.drop_last();
    let last = moves.len() - 1;
    let whole = reply_value(eval, b, depth, moves);
    let part = reply_value(eval, b, depth, front);
    let tail = move_value(eval, b, depth, moves[last]);
    assert(moves.last() == moves[last]);
    lemma_reply_bounds(eval, b, depth, front);
    lemma_value_bounds(eval, b.apply(moves[last]), (depth - 1) as nat);
    assert(whole == if tail > part {
        tail
    } else {
        part
    });
    if moves.len() > 1 {
        lemma_best_index_value(eval, b, depth, front);
        let before = best_index(eval, b, depth, front);
        let k = best_index(eval, b, depth, moves);
        assert(k == if tail > part {
            last
        } else {
            before
        });
        assert(front[before] == moves[before]);
        assert forall|j: int| 0 <= j < k implies #[trigger] nth_value(eval, b, depth, moves, j)
            < whole by {
            assert(front[j] == moves[j]);
            assert(nth_value(eval, b, depth, moves, j) == nth_value(eval, b, depth, front, j));
            if j < before {
                assert(nth_value(eval, b, depth, front, j) < part);
            } else {
                lemma_reply_at_most(eval, b, depth, front, j);
            }
        }
    } else {
        assert(front.len() == 0);
        assert(best_index(eval, b, depth, moves) == 0);
    }
}

/// No move is worth more than the best.
pub proof fn lemma_reply_at_most<E: Evaluator>(
    eval: &E,
    b: Board,
    depth: nat,
    moves: Seq<Move>,
    j: int,
)
    requires
        depth > 0,
        0 <= j < moves.len(),
    ensures
        nth_value(eval, b, depth, moves, j) <= reply_value(eval, b, depth, moves),
{
    lemma_reply_is_max(eval, b, depth, moves);
}

} // verus!
