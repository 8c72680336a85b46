//! Best node search: a search at the root that asks, again and again, which
//! moves are worth at least a guessed score, and narrows a window round the
//! score of the best move until one move is left or the window is closed.

use vstd::prelude::*;
use std::time::Instant;
use crate::board::{Board, Move};
use crate::board::rules::{lemma_legal_moves_members, lemma_apply_revert, lemma_legal_moves_len};
use crate::search::SearchData;
use crate::search::clock::millis_since;
use crate::search::eval::{Evaluator, MAX_SCORE};
use crate::search::negamax::negamax_impl;
use crate::search::tree::{node_value, move_value, lemma_value_bounds};

verus! {

/// How far the window reaches to either side of the first estimate.
pub const WINDOW_REACH: i32 = 20;

/// The moves of `moves` that are worth at least `bound` to the side to move
/// in `b`, `depth` plies deep, in their order.
pub open spec fn worth_at_least<E: Evaluator>(
    eval: &E,
    b: Board,
    depth: nat,
    moves: Seq<Move>,
    bound: int,
) -> Seq<Move>
    decreases moves.len(),
{
    if moves.len() == 0 {
        Seq::empty()
    } else if move_value(eval, b, depth, moves.last()) >= bound {
        worth_at_least(eval, b, depth, moves.drop_last(), bound).push(moves.last())
    } else {
        worth_at_least(eval, b, depth, moves.drop_last(), bound)
    }
}

/// The next guess between `alpha` and `beta` when `count` moves are left:
/// the more moves, the nearer to `beta`.
pub open spec fn next_guess_spec(alpha: int, beta: int, count: int) -> int {
    alpha + (beta - alpha) * (count - 1) / count
}

/// The lower bound at which the search ends, from the window between
/// `alpha` and `beta` with `count` moves left: while the window is open and
/// more than one move is left, a guess is made; if some moves are worth at
/// least the guess, they are the moves that are left and the guess is the
/// lower bound; if none is, the guess is the upper bound.
pub open spec fn narrowed<E: Evaluator>(
    eval: &E,
    b: Board,
    depth: nat,
    alpha: int,
    beta: int,
    count: int,
) -> int
    decreases beta - alpha,
{
    if beta - alpha < 2 || count < 2 {
        alpha
    } else {
        let guess = next_guess_spec(alpha, beta, count);
        let above = worth_at_least(eval, b, depth, b.legal_moves(), guess).len() as int;
        if !(alpha < guess < beta) {
            alpha
        } else if above > 0 {
            narrowed(eval, b, depth, guess, beta, above)
        } else {
            narrowed(eval, b, depth, alpha, guess, count)
        }
    }
}

/// A score moved by `by`, kept within the bounds of a score.
pub open spec fn shifted_score(score: int, by: int) -> int {
    if score + by > MAX_SCORE {
        MAX_SCORE as int
    } else if score + by < -MAX_SCORE {
        -MAX_SCORE as int
    } else {
        score + by
    }
}

/// Moves a score by `by`, keeping it within the bounds of a score.
fn shift_score(score: i32, by: i32) -> (r: i32)
    requires
        -MAX_SCORE <= score <= MAX_SCORE,
        -MAX_SCORE <= by <= MAX_SCORE,
    ensures
        r == shifted_score(score as int, by as int),
        -MAX_SCORE <= r <= MAX_SCORE,
{
    let sum: i64 = score as i64 + by as i64;
    if sum > MAX_SCORE as i64 {
        MAX_SCORE
    } else if sum < -(MAX_SCORE as i64) {
        -MAX_SCORE
    } else {
        sum as i32
    }
}

/// The guess lies strictly inside an open window when more than one move is
/// left.
pub proof fn lemma_guess_inside(alpha: int, beta: int, count: int)
    requires
        beta - alpha >= 2,
        count >= 2,
    ensures
        alpha < next_guess_spec(alpha, beta, count) < beta,
{
    let width = beta - alpha;
    assert(width * (count - 1) / count < width) by (nonlinear_arith)
        requires
            width >= 2,
            count >= 2,
    ;
    assert(width * (count - 1) / count >= 1) by (nonlinear_arith)
        requires
            width >= 2,
            count >= 2,
    ;
}

/// Computes the next guess between `alpha` and `beta` when `count` moves
/// are left.
fn next_guess(alpha: i32, beta: i32, count: usize) -> (r: i32)
    requires
        -MAX_SCORE <= alpha,
        beta - alpha >= 2,
        2 <= count <= 64,
    ensures
        r == next_guess_spec(alpha as int, beta as int, count as int),
        alpha < r < beta,
{
    proof {
        lemma_guess_inside(alpha as int, beta as int, count as int);
    }
    let width: i64 = beta as i64 - alpha as i64;
    let count: i64 = count as i64;
    assert(0 <= width * (count - 1) <= 0x1_0000_0000 * 64) by (nonlinear_arith)
        requires
            0 <= width <= 0x1_0000_0000,
            2 <= count <= 64,
    ;
    let step: i64 = width * (count - 1) / count;
    (alpha as i64 + step) as i32
}

/// Among the moves that are worth at least a bound, those worth at least a
/// greater bound are the moves that are worth at least the greater bound.
pub proof fn lemma_worth_again<E: Evaluator>(
    eval: &E,
    b: Board,
    depth: nat,
    moves: Seq<Move>,
    low: int,
    high: int,
)
    requires
        low <= high,
    ensures
        worth_at_least(eval, b, depth, worth_at_least(eval, b, depth, moves, low), high)
            == worth_at_least(eval, b, depth, moves, high),
    decreases moves.len(),
{
    if moves.len() > 0 {
        lemma_worth_again(eval, b, depth, moves.drop_last(), low, high);
        let front = worth_at_least(eval, b, depth, moves.drop_last(), low);
        if move_value(eval, b, depth, moves.last()) >= low {
            let kept = front.push(moves.last());
            assert(kept.drop_last() =~= front);
            assert(kept.last() == moves.last());
        }
    }
}

/// The moves that are worth at least a bound are moves of those given, and
/// each is worth at least the bound.
pub proof fn lemma_worth_members<E: Evaluator>(
    eval: &E,
    b: Board,
    depth: nat,
    moves: Seq<Move>,
    bound: int,
    j: int,
)
    requires
        0 <= j < worth_at_least(eval, b, depth, moves, bound).len(),
    ensures
        moves.contains(worth_at_least(eval, b, depth, moves, bound)[j]),
        move_value(eval, b, depth, worth_at_least(eval, b, depth, moves, bound)[j]) >= bound,
        worth_at_least(eval, b, depth, moves, bound).len() <= moves.len(),
    decreases moves.len(),
{
    let kept = worth_at_least(eval, b, depth, moves, bound);
    let front = worth_at_least(eval, b, depth, moves.drop_last(), bound);
    lemma_worth_len(eval, b, depth, moves, bound);
    if j < front.len() {
        lemma_worth_members(eval, b, depth, moves.drop_last(), bound, j);
        let m = front[j];
        let k = choose|k: int| 0 <= k < moves.drop_last().len() && moves.drop_last()[k] == m;
        assert(moves[k] == m);
    } else {
        assert(kept[j] == moves.last());
        assert(moves[moves.len() - 1] == moves.last());
    }
}

/// No more moves are worth at least a bound than there are moves.
pub proof fn lemma_worth_len<E: Evaluator>(
    eval: &E,
    b: Board,
    depth: nat,
    moves: Seq<Move>,
    bound: int,
)
    ensures
        worth_at_least(eval, b, depth, moves, bound).len() <= moves.len(),
    decreases moves.len(),
{
    if moves.len() > 0 {
        lemma_worth_len(eval, b, depth, moves.drop_last(), bound);
    }
}

/// Searches the position `depth` plies deep by best node search and returns
/// a lower bound on the score of the move it chose, the move, and a report
/// of the search.
///
/// The window starts `WINDOW_REACH` to either side of the value of the
/// position half as deep; the nodes of that first search are counted with
/// the others. While it is open by two or more and more than one
/// move is left, each move that is left is asked whether it is worth at
/// least the guess; those that are stay, and the guess becomes the lower
/// bound, or none is and the guess becomes the upper bound. The move
/// returned is the first that is left.
#[verifier::rlimit(60)]
pub fn best_node_search<T: Evaluator>(board: &mut Board, depth: u8, evaluator: &T) -> (r: (
    i32,
    Move,
    SearchData,
))
    requires
        depth >= 1,
    ensures
        *final(board) == *old(board),
        old(board).is_legal(r.1),
        r.2.depth == depth,
        r.2.nodes >= 1,
        ({
            let seed = node_value(evaluator, *old(board), (depth / 2) as nat);
            let low = shifted_score(seed, -WINDOW_REACH);
            let high = shifted_score(seed, WINDOW_REACH as int);
            let legal = old(board).legal_moves();
            &&& r.0 == narrowed(evaluator, *old(board), depth as nat, low, high, legal.len() as int)
            &&& r.0 == low ==> r.1 == legal[0]
            &&& r.0 != low ==> {
                &&& worth_at_least(evaluator, *old(board), depth as nat, legal, r.0 as int).len()
                    > 0
                &&& r.1 == worth_at_least(evaluator, *old(board), depth as nat, legal, r.0 as int)[0]
                &&& move_value(evaluator, *old(board), depth as nat, r.1) >= r.0
            }
        }),
{
    let ghost start = *board;
    let ghost plies = depth as nat;
    let clock: Instant = Instant::now();

    let (initial, seed_nodes) = negamax_impl(board, -MAX_SCORE, MAX_SCORE, depth / 2, evaluator);
    proof {
        lemma_value_bounds(evaluator, start, (depth / 2) as nat);
        lemma_legal_moves_len(start);
    }
    let mut alpha: i32 = shift_score(initial, -WINDOW_REACH);
    let mut beta: i32 = shift_score(initial, WINDOW_REACH);
    let ghost low = alpha as int;

    let mut total_nodes: u64 = seed_nodes;
    let mut moves: Vec<Move> = board.get_moves();
    let mut better: usize = moves.len();
    let ghost legal = start.legal_moves();

    while beta as i64 - alpha as i64 >= 2 && better != 1
        invariant
            *board == start,
            depth >= 1,
            plies == depth as nat,
            legal == start.legal_moves(),
            1 <= legal.len() <= 64,
            -MAX_SCORE <= low <= alpha <= MAX_SCORE,
            -MAX_SCORE <= beta <= MAX_SCORE,
            better == moves.len(),
            1 <= better <= 64,
            total_nodes >= 1,
            alpha == low ==> moves@ == legal,
            alpha != low ==> moves@ == worth_at_least(evaluator, start, plies, legal, alpha as int),
            narrowed(evaluator, start, plies, alpha as int, beta as int, better as int) == narrowed(
                evaluator,
                start,
                plies,
                low,
                shifted_score(node_value(evaluator, start, (depth / 2) as nat), WINDOW_REACH as int),
                legal.len() as int,
            ),
        decreases beta - alpha,
    {
        let guess: i32 = next_guess(alpha, beta, better);
        let ghost candidates = moves@;

        let mut filtered: Vec<Move> = Vec::new();
        let mut k: usize = 0;
        while k < moves.len()
            invariant
                k <= moves.len(),
                *board == start,
                depth >= 1,
                plies == depth as nat,
                moves@ == candidates,
                legal == start.legal_moves(),
                alpha == low ==> candidates == legal,
                alpha != low ==> candidates == worth_at_least(
                    evaluator,
                    start,
                    plies,
                    legal,
                    alpha as int,
                ),
                -MAX_SCORE <= alpha < guess < beta,
                total_nodes >= 1,
                filtered@ == worth_at_least(
                    evaluator,
                    start,
                    plies,
                    candidates.take(k as int),
                    guess as int,
                ),
            decreases moves.len() - k,
        {
            let m: Move = moves[k];
            proof {
                if alpha == low {
                    assert(legal.contains(m));
                } else {
                    lemma_worth_members(evaluator, start, plies, legal, alpha as int, k as int);
                }
                lemma_legal_moves_members(start, m);
                lemma_apply_revert(start, m);
                lemma_value_bounds(evaluator, start.apply(m), (plies - 1) as nat);
                assert(candidates.take(k + 1).drop_last() =~= candidates.take(k as int));
                assert(candidates.take(k + 1).last() == m);
            }
            let undo: u64 = board.make_move(m);
            let (result, nodes) = negamax_impl(board, -guess, -(guess - 1), depth - 1, evaluator);
            board.undo_move(undo, m);

            total_nodes = total_nodes.saturating_add(nodes);
            if -result >= guess {
                filtered.push(m);
            }
            k += 1;
        }
        proof {
            assert(candidates.take(k as int) =~= candidates);
            if alpha != low {
                lemma_worth_again(evaluator, start, plies, legal, alpha as int, guess as int);
            }
            lemma_worth_len(evaluator, start, plies, candidates, guess as int);
        }

        if filtered.len() > 0 {
            alpha = guess;
            better = filtered.len();
            moves = filtered;
        } else {
            beta = guess;
        }
    }

    let total_time: u32 = millis_since(&clock);
    proof {
        if alpha == low {
            assert(legal.contains(moves@[0]));
        } else {
            lemma_worth_members(evaluator, start, plies, legal, alpha as int, 0);
        }
        lemma_legal_moves_members(start, moves@[0]);
    }

    (alpha, moves[0], SearchData { nodes: total_nodes, time: total_time, depth })
}

} // verus!
