//! Negamax search with alpha-beta pruning.
//!
//! The search at the root starts with the widest window and searches every
//! move of the position. The search below it keeps to the window that it is
//! given, and stops at a node as soon as a move reaches the upper bound.

use vstd::prelude::*;
use std::time::Instant;
use crate::board::{Board, Move};
use crate::board::order::{
    sort_moves, stable_sort, lemma_stable_sort, lemma_first_least_is, lemma_sorted_first,
};
use crate::board::rules::{lemma_legal_moves_members, lemma_apply_revert};
use crate::search::SearchData;
use crate::search::clock::millis_since;
use crate::search::eval::{Evaluator, MAX_SCORE};
use crate::search::iterative::{within_budget, MIN_SEARCH_DEPTH, MAX_SEARCH_DEPTH};
use crate::search::tree::{
    node_value, reply_value, move_value, best_index, is_leaf, soft_result, lemma_value_bounds,
    lemma_reply_step, lemma_reply_members, lemma_best_index_value,
};

verus! {

/// The keys by which the evaluator orders `moves`: for each move the score
/// of the position to which it leads, which is the opponent's, so that the
/// least key is the best move.
pub open spec fn static_keys<E: Evaluator>(eval: &E, b: Board, moves: Seq<Move>) -> Seq<i32> {
    Seq::new(moves.len(), |i: int| eval.score(b.apply(moves[i])) as i32)
}

/// The moves of the position `b` in the order in which the evaluator
/// suggests them.
pub open spec fn static_order<E: Evaluator>(eval: &E, b: Board) -> Seq<Move> {
    stable_sort(b.legal_moves(), static_keys(eval, b, b.legal_moves()))
}

/// Orders the moves of the position by the evaluator's score of the
/// positions to which they lead, the best move first.
pub fn order_by_score<T: Evaluator>(board: &mut Board, moves: &Vec<Move>, evaluator: &T) -> (r: Vec<
    Move,
>)
    requires
        moves@ == old(board).legal_moves(),
    ensures
        *final(board) == *old(board),
        r@ == static_order(evaluator, *old(board)),
        r.len() == moves.len(),
{
    let mut keys: Vec<i32> = Vec::new();
    let mut i: usize = 0;
    while i < moves.len()
        invariant
            i <= moves.len(),
            *board == *old(board),
            moves@ == old(board).legal_moves(),
            keys.len() == i,
            forall|j: int|
                0 <= j < i ==> keys@[j] == static_keys(evaluator, *old(board), moves@)[j],
        decreases moves.len() - i,
    {
        let m: Move = moves[i];
        proof {
            assert(moves@.contains(m));
            lemma_legal_moves_members(*board, m);
            lemma_apply_revert(*board, m);
            evaluator.lemma_score_bounds(board.apply(m));
        }
        let key: i32 = -evaluator.move_order_score(board, m);
        keys.push(key);
        i += 1;
    }
    assert(keys@ =~= static_keys(evaluator, *old(board), moves@));
    sort_moves(moves, &keys)
}

/// Searches the position `depth` plies deep within the window from `alpha`
/// to `beta`, and returns the best score that it found for the side to move
/// and the number of nodes that were searched. At the depth limit and where
/// the game is over the evaluator scores the position. Above a depth of
/// three plies the moves are searched in the order in which the evaluator
/// suggests them. The search stops at the first move that reaches `beta`.
///
/// The score is not cut off at the window: below `alpha` it is a bound that
/// the value of the position does not exceed, from `beta` on a bound that
/// the value reaches. One ply deep, a score below `beta` is the value.
#[verifier::rlimit(60)]
pub fn negamax_impl<T: Evaluator>(
    board: &mut Board,
    alpha: i32,
    beta: i32,
    depth: u8,
    evaluator: &T,
) -> (r: (i32, u64))
    requires
        -MAX_SCORE <= alpha,
        -MAX_SCORE <= beta,
    ensures
        *final(board) == *old(board),
        -MAX_SCORE <= r.0 <= MAX_SCORE,
        r.1 >= 1,
        alpha < beta ==> soft_result(
            alpha as int,
            beta as int,
            node_value(evaluator, *old(board), depth as nat),
            r.0 as int,
        ),
        alpha < beta && depth == 1 && r.0 < beta ==> r.0 == node_value(
            evaluator,
            *old(board),
            depth as nat,
        ),
        is_leaf(*old(board), depth as nat) ==> r.0 == node_value(
            evaluator,
            *old(board),
            depth as nat,
        ) && r.1 == 1,
    decreases depth,
{
    if board.is_game_over() || depth == 0 {
        return (evaluator.get_score(board), 1);
    }
    let ghost start = *board;
    let ghost plies = depth as nat;

    let legal: Vec<Move> = board.get_moves();
    let moves: Vec<Move> = if depth > 3 {
        order_by_score(board, &legal, evaluator)
    } else {
        legal
    };
    proof {
        lemma_stable_sort(start.legal_moves(), static_keys(evaluator, start, start.legal_moves()));
        lemma_reply_members(evaluator, start, plies, moves@, start.legal_moves());
    }

    let mut alpha: i32 = alpha;
    let ghost lower = alpha;
    let mut best_score: i32 = -MAX_SCORE;
    let mut total_nodes: u64 = 1;
    let mut cut: bool = false;
    let mut i: usize = 0;
    while i < moves.len() && !cut
        invariant
            i <= moves.len(),
            moves.len() > 0,
            *board == start,
            depth > 0,
            plies == depth as nat,
            -MAX_SCORE <= lower <= alpha <= MAX_SCORE,
            -MAX_SCORE <= best_score <= alpha,
            alpha == lower || alpha == best_score,
            i == 0 ==> best_score == -MAX_SCORE,
            -MAX_SCORE <= beta,
            total_nodes >= 1,
            forall|m: Move| moves@.contains(m) <==> start.legal_moves().contains(m),
            cut ==> alpha >= beta,
            i > 0 && !cut ==> alpha < beta,
            lower < beta ==> soft_result(
                lower as int,
                beta as int,
                reply_value(evaluator, start, plies, moves@.take(i as int)),
                best_score as int,
            ),
            depth == 1 && i > 0 ==> best_score == reply_value(
                evaluator,
                start,
                plies,
                moves@.take(i as int),
            ),
        decreases moves.len() - i,
    {
        let m: Move = moves[i];
        proof {
            assert(moves@.contains(m));
            lemma_legal_moves_members(start, m);
            lemma_apply_revert(start, m);
            lemma_reply_step(evaluator, start, plies, moves@, i as int);
            lemma_value_bounds(evaluator, start.apply(m), (plies - 1) as nat);
            if depth == 1 {
                assert(is_leaf(start.apply(m), (depth - 1) as nat));
            }
        }
        let undo: u64 = board.make_move(m);
        let (result, nodes) = negamax_impl(board, -beta, -alpha, depth - 1, evaluator);
        board.undo_move(undo, m);

        let result: i32 = -result;
        total_nodes = total_nodes.saturating_add(nodes);
        assert(depth == 1 ==> result == move_value(evaluator, start, plies, m));

        if result > best_score {
            best_score = result;
            if result > alpha {
                alpha = result;
            }
        }
        if alpha >= beta {
            cut = true;
        }
        i += 1;
    }
    proof {
        if i < moves.len() {
            lemma_reply_step(evaluator, start, plies, moves@, i as int);
        } else {
            assert(moves@.take(i as int) =~= moves@);
        }
    }

    (best_score, total_nodes)
}

/// Searches the position `depth` plies deep and returns the score of the
/// best move, the best move, and a report of the search. Every move of the
/// position is searched; of several best moves the one that the evaluator
/// orders first is returned.
#[verifier::rlimit(60)]
pub fn negamax<T: Evaluator>(board: &mut Board, depth: u8, evaluator: &T) -> (r: (
    i32,
    Move,
    SearchData,
))
    requires
        depth >= 1,
    ensures
        *final(board) == *old(board),
        r.0 == reply_value(evaluator, *old(board), depth as nat, old(board).legal_moves()),
        r.1 == static_order(evaluator, *old(board))[best_index(
            evaluator,
            *old(board),
            depth as nat,
            static_order(evaluator, *old(board)),
        )],
        old(board).is_legal(r.1),
        move_value(evaluator, *old(board), depth as nat, r.1) == r.0,
        r.2.depth == depth,
        r.2.nodes >= 1,
{
    let ghost start = *board;
    let ghost plies = depth as nat;
    let legal: Vec<Move> = board.get_moves();
    let moves: Vec<Move> = order_by_score(board, &legal, evaluator);
    proof {
        lemma_stable_sort(start.legal_moves(), static_keys(evaluator, start, start.legal_moves()));
        lemma_reply_members(evaluator, start, plies, moves@, start.legal_moves());
        lemma_legal_moves_members(start, Move::Pass);
    }

    let beta: i32 = MAX_SCORE;
    let mut best_score: i32 = -beta;
    let mut best_move: Move = moves[0];

    let mut total_nodes: u64 = 0;
    let mut total_millis: u32 = 0;

    let mut i: usize = 0;
    while i < moves.len()
        invariant
            i <= moves.len(),
            moves.len() > 0,
            *board == start,
            depth > 0,
            plies == depth as nat,
            beta == MAX_SCORE,
            -MAX_SCORE <= best_score <= MAX_SCORE,
            forall|m: Move| moves@.contains(m) <==> start.legal_moves().contains(m),
            i == 0 ==> best_score == -MAX_SCORE && best_move == moves@[0],
            i > 0 ==> total_nodes >= 1,
            i > 0 ==> best_score == reply_value(evaluator, start, plies, moves@.take(i as int)),
            i > 0 ==> best_move == moves@[best_index(
                evaluator,
                start,
                plies,
                moves@.take(i as int),
            )],
        decreases moves.len() - i,
    {
        let m: Move = moves[i];
        proof {
            assert(moves@.contains(m));
            lemma_legal_moves_members(start, m);
            lemma_apply_revert(start, m);
            lemma_reply_step(evaluator, start, plies, moves@, i as int);
            lemma_value_bounds(evaluator, start.apply(m), (plies - 1) as nat);
        }
        let clock: Instant = Instant::now();

        let undo: u64 = board.make_move(m);
        let (result, nodes) = negamax_impl(board, -beta, -best_score, depth - 1, evaluator);
        board.undo_move(undo, m);

        let result: i32 = -result;
        let time_taken: u32 = millis_since(&clock);

        if result > best_score {
            best_move = m;
            best_score = result;
        }
        total_nodes = total_nodes.saturating_add(nodes);
        total_millis = total_millis.saturating_add(time_taken);
        i += 1;
    }
    proof {
        assert(moves@.take(i as int) =~= moves@);
        let k = best_index(evaluator, start, plies, moves@);
        lemma_best_index_value(evaluator, start, plies, moves@);
        assert(moves@.contains(moves@[k]));
        lemma_legal_moves_members(start, moves@[k]);
    }

    (best_score, best_move, SearchData { nodes: total_nodes, time: total_millis, depth })
}

/// The keys by which the moves are ordered after a search: the scores that
/// were found for them, negated, so that the best move comes first.
pub open spec fn negated(scores: Seq<i32>) -> Seq<i32> {
    Seq::new(scores.len(), |i: int| (-scores[i]) as i32)
}

/// Searches every move of `moves` `depth` plies deep, each within the
/// window that the best score so far leaves, and returns the score found
/// for each move, the best score, and the place of the first move that
/// reached it, with the nodes and milliseconds of the search. The score of
/// the best move is its value; the score of another move is a bound that
/// does not exceed the best score.
#[verifier::rlimit(60)]
fn search_all<T: Evaluator>(board: &mut Board, moves: &Vec<Move>, depth: u8, evaluator: &T) -> (r:
    (Vec<i32>, i32, usize, u64, u32))
    requires
        depth >= 1,
        moves.len() > 0,
        forall|m: Move| moves@.contains(m) <==> old(board).legal_moves().contains(m),
    ensures
        *final(board) == *old(board),
        r.0.len() == moves.len(),
        r.2 < moves.len(),
        r.1 == reply_value(evaluator, *old(board), depth as nat, old(board).legal_moves()),
        r.1 == move_value(evaluator, *old(board), depth as nat, moves@[r.2 as int]),
        r.0@[r.2 as int] == r.1,
        forall|j: int| 0 <= j < moves.len() ==> -MAX_SCORE <= #[trigger] r.0@[j] <= r.1,
        forall|j: int| 0 <= j < r.2 ==> #[trigger] r.0@[j] < r.1,
        r.3 >= 1,
{
    let ghost start = *board;
    let ghost plies = depth as nat;
    proof {
        lemma_reply_members(evaluator, start, plies, moves@, start.legal_moves());
    }

    let beta: i32 = MAX_SCORE;
    let mut best_score: i32 = -beta;
    let mut best_at: usize = 0;
    let mut scores: Vec<i32> = Vec::new();
    let mut total_nodes: u64 = 0;
    let mut total_millis: u32 = 0;

    let mut i: usize = 0;
    while i < moves.len()
        invariant
            i <= moves.len(),
            moves.len() > 0,
            *board == start,
            depth > 0,
            plies == depth as nat,
            beta == MAX_SCORE,
            scores.len() == i,
            -MAX_SCORE <= best_score <= MAX_SCORE,
            forall|m: Move| moves@.contains(m) <==> start.legal_moves().contains(m),
            i == 0 ==> best_score == -MAX_SCORE && best_at == 0,
            i > 0 ==> total_nodes >= 1,
            i > 0 ==> best_at < i,
            i > 0 ==> best_score == reply_value(evaluator, start, plies, moves@.take(i as int)),
            i > 0 ==> best_score == move_value(evaluator, start, plies, moves@[best_at as int]),
            i > 0 ==> scores@[best_at as int] == best_score,
            forall|j: int| 0 <= j < i ==> -MAX_SCORE <= #[trigger] scores@[j] <= best_score,
            forall|j: int| 0 <= j < best_at ==> #[trigger] scores@[j] < best_score,
        decreases moves.len() - i,
    {
        let m: Move = moves[i];
        proof {
            assert(moves@.contains(m));
            lemma_legal_moves_members(start, m);
            lemma_apply_revert(start, m);
            lemma_reply_step(evaluator, start, plies, moves@, i as int);
            lemma_value_bounds(evaluator, start.apply(m), (plies - 1) as nat);
        }
        let clock: Instant = Instant::now();

        let undo: u64 = board.make_move(m);
        let (result, nodes) = negamax_impl(board, -beta, -best_score, depth - 1, evaluator);
        board.undo_move(undo, m);

        let result: i32 = -result;
        let time_taken: u32 = millis_since(&clock);

        if result > best_score {
            best_score = result;
            best_at = i;
            scores.push(result);
        } else {
            scores.push(result);
        }
        total_nodes = total_nodes.saturating_add(nodes);
        total_millis = total_millis.saturating_add(time_taken);
        i += 1;
    }
    proof {
        assert(moves@.take(i as int) =~= moves@);
    }

    (scores, best_score, best_at, total_nodes, total_millis)
}

/// Searches the position by negamax, one ply deeper each time, from a
/// depth of `MIN_SEARCH_DEPTH`, and returns the score of the best move of
/// the last search and a best move, with the nodes and milliseconds of all
/// searches and the depth of the last. After each search the moves are
/// ordered by the scores that it found, the best first, for the next.
///
/// The first search always runs. After each, `predict` is asked for the
/// milliseconds that the next will take, given the nodes and the
/// milliseconds of this one and the depth of the next; the next search runs
/// if that time and the time spent so far stay within `time`.
#[verifier::rlimit(60)]
pub fn negamax_id<T: Evaluator, F: Fn(u64, u32, u8) -> u32>(
    board: &mut Board,
    time: u32,
    evaluator: &T,
    predict: F,
) -> (r: (i32, Move, SearchData))
    requires
        forall|nodes: u64, millis: u32, depth: u8| call_requires(predict, (nodes, millis, depth)),
    ensures
        *final(board) == *old(board),
        old(board).is_legal(r.1),
        MIN_SEARCH_DEPTH <= r.2.depth <= MAX_SEARCH_DEPTH,
        r.0 == reply_value(evaluator, *old(board), r.2.depth as nat, old(board).legal_moves()),
        r.0 == move_value(evaluator, *old(board), r.2.depth as nat, r.1),
        r.2.nodes >= 1,
{
    let ghost start = *board;
    let legal: Vec<Move> = board.get_moves();
    let mut moves: Vec<Move> = order_by_score(board, &legal, evaluator);
    proof {
        lemma_stable_sort(start.legal_moves(), static_keys(evaluator, start, start.legal_moves()));
        lemma_legal_moves_members(start, Move::Pass);
    }

    let mut total_nodes: u64 = 0;
    let mut total_millis: u32 = 0;
    let mut depth: u8 = MIN_SEARCH_DEPTH;
    let mut best_score: i32 = 0;
    let mut go_on: bool = true;
    let ghost mut searched: bool = false;

    while go_on
        invariant
            *board == start,
            moves.len() > 0,
            forall|m: Move| moves@.contains(m) <==> start.legal_moves().contains(m),
            MIN_SEARCH_DEPTH <= depth <= MAX_SEARCH_DEPTH,
            !go_on ==> searched,
            !go_on ==> total_nodes >= 1,
            searched ==> best_score == reply_value(
                evaluator,
                start,
                depth as nat,
                start.legal_moves(),
            ),
            searched ==> best_score == move_value(evaluator, start, depth as nat, moves@[0]),
            forall|nodes: u64, millis: u32, depth: u8|
                call_requires(predict, (nodes, millis, depth)),
        decreases MAX_SEARCH_DEPTH - depth + if go_on {
            1int
        } else {
            0int
        },
    {
        let (scores, best, best_at, iter_nodes, iter_time) = search_all(
            board,
            &moves,
            depth,
            evaluator,
        );
        total_nodes = total_nodes.saturating_add(iter_nodes);
        total_millis = total_millis.saturating_add(iter_time);

        let mut keys: Vec<i32> = Vec::new();
        let mut k: usize = 0;
        while k < scores.len()
            invariant
                k <= scores.len(),
                keys.len() == k,
                forall|j: int| 0 <= j < scores.len() ==> -MAX_SCORE <= #[trigger] scores@[j],
                forall|j: int| 0 <= j < k ==> keys@[j] == negated(scores@)[j],
            decreases scores.len() - k,
        {
            assert(-MAX_SCORE <= scores@[k as int]);
            keys.push(-scores[k]);
            k += 1;
        }
        proof {
            assert(keys@ =~= negated(scores@));
            lemma_stable_sort(moves@, keys@);
            assert forall|j: int| 0 <= j < keys.len() implies keys@[best_at as int] <= keys@[j] by {
                assert(scores@[j] <= best);
            }
            assert forall|j: int| 0 <= j < best_at implies keys@[best_at as int] < keys@[j] by {
                assert(scores@[j] < best);
            }
            lemma_first_least_is(keys@, keys.len() as int, best_at as int);
            lemma_sorted_first(moves@, keys@, moves.len() as int);
        }
        let sorted: Vec<Move> = sort_moves(&moves, &keys);
        moves = sorted;
        best_score = best;
        proof {
            searched = true;
        }

        if depth < MAX_SEARCH_DEPTH {
            let time_prediction: u32 = predict(iter_nodes, iter_time, depth + 1);
            if within_budget(time_prediction, total_millis, time) {
                depth += 1;
                proof {
                    searched = false;
                }
            } else {
                go_on = false;
            }
        } else {
            go_on = false;
        }
    }
    proof {
        assert(moves@.contains(moves@[0]));
        lemma_legal_moves_members(start, moves@[0]);
    }

    (best_score, moves[0], SearchData { nodes: total_nodes, time: total_millis, depth })
}

} // verus!
