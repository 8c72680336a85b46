//! Iterative deepening: a search is repeated one ply deeper as long as the
//! time allows. The caller says how long the next search is expected to
//! take.

use vstd::prelude::*;
use crate::board::{Board, Move};
use crate::search::SearchData;
use crate::search::bns::{best_node_search, narrowed, shifted_score, worth_at_least, WINDOW_REACH};
use crate::search::eval::Evaluator;
use crate::search::negamax::{negamax, static_order};
use crate::search::tree::{node_value, reply_value, best_index};

verus! {

/// The depth of the first search.
pub const MIN_SEARCH_DEPTH: u8 = 8;

/// The depth of the last search at the latest: no game lasts longer.
pub const MAX_SEARCH_DEPTH: u8 = 64;

/// Whether a search that is expected to take `prediction` milliseconds,
/// after `spent` milliseconds of searching, stays within the `budget`.
pub open spec fn within_budget_spec(prediction: u32, spent: u32, budget: u32) -> bool {
    prediction + spent <= budget
}

/// Decides whether the next search may start: whether the milliseconds it
/// is expected to take and those spent so far stay within the budget.
pub fn within_budget(prediction: u32, spent: u32, budget: u32) -> (r: bool)
    ensures
        r == within_budget_spec(prediction, spent, budget),
{
    prediction as u64 + spent as u64 <= budget as u64
}

/// Searches the position by best node search, one ply deeper each time,
/// from a depth of `MIN_SEARCH_DEPTH`, and returns what the last search
/// found, with the nodes and milliseconds of all searches and the depth of
/// the last.
///
/// The first search always runs. After each, `predict` is asked for the
/// milliseconds that the next will take, given the nodes and the
/// milliseconds of this one and its depth; the next search runs if that
/// time and the time spent so far stay within `time`.
pub fn bns_iter_deep<T: Evaluator, F: Fn(u64, u32, u8) -> u32>(
    board: &mut Board,
    time: u32,
    evaluator: &T,
    predict: F,
) -> (r: (i32, Move, SearchData))
    requires
        forall|nodes: u64, millis: u32, depth: u8| call_requires(predict, (nodes, millis, depth)),
    ensures
        *final(board) == *old(board),
        old(board).is_legal(r.1),
        MIN_SEARCH_DEPTH <= r.2.depth <= MAX_SEARCH_DEPTH,
        r.2.nodes >= 1,
        ({
            let seed = node_value(evaluator, *old(board), (r.2.depth / 2) as nat);
            let low = shifted_score(seed, -WINDOW_REACH);
            let high = shifted_score(seed, WINDOW_REACH as int);
            let legal = old(board).legal_moves();
            &&& r.0 == narrowed(
                evaluator,
                *old(board),
                r.2.depth as nat,
                low,
                high,
                legal.len() as int,
            )
            &&& r.0 == low ==> r.1 == legal[0]
            &&& r.0 != low ==> r.1 == worth_at_least(
                evaluator,
                *old(board),
                r.2.depth as nat,
                legal,
                r.0 as int,
            )[0]
        }),
{
    let ghost start = *board;
    let mut depth: u8 = MIN_SEARCH_DEPTH;
    let mut time_spent: u32 = 0;
    let mut searched_total: u64 = 0;

    let (score, m, data) = best_node_search(board, depth, evaluator);
    let mut best_move: Move = m;
    let mut best_score: i32 = score;
    searched_total = searched_total.saturating_add(data.nodes);
    time_spent = time_spent.saturating_add(data.time);
    let mut time_prediction: u32 = predict(data.nodes, data.time, depth);

    while depth < MAX_SEARCH_DEPTH && within_budget(time_prediction, time_spent, time)
        invariant
            *board == start,
            MIN_SEARCH_DEPTH <= depth <= MAX_SEARCH_DEPTH,
            searched_total >= 1,
            start.is_legal(best_move),
            forall|nodes: u64, millis: u32, depth: u8|
                call_requires(predict, (nodes, millis, depth)),
            ({
                let seed = node_value(evaluator, start, (depth / 2) as nat);
                let low = shifted_score(seed, -WINDOW_REACH);
                let high = shifted_score(seed, WINDOW_REACH as int);
                let legal = start.legal_moves();
                &&& best_score == narrowed(
                    evaluator,
                    start,
                    depth as nat,
                    low,
                    high,
                    legal.len() as int,
                )
                &&& best_score == low ==> best_move == legal[0]
                &&& best_score != low ==> best_move == worth_at_least(
                    evaluator,
                    start,
                    depth as nat,
                    legal,
                    best_score as int,
                )[0]
            }),
        decreases MAX_SEARCH_DEPTH - depth,
    {
        depth += 1;
        let (score, m, data) = best_node_search(board, depth, evaluator);

        best_move = m;
        best_score = score;
        searched_total = searched_total.saturating_add(data.nodes);
        time_spent = time_spent.saturating_add(data.time);
        time_prediction = predict(data.nodes, data.time, depth);
    }

    (best_score, best_move, SearchData { nodes: searched_total, time: time_spent, depth })
}

/// Searches the position by negamax, one ply deeper each time, from a
/// depth of `MIN_SEARCH_DEPTH`, and returns the score of the best move of
/// the last search and that move, with the nodes and milliseconds of all
/// searches and the depth of the last.
///
/// The first search always runs. After each, `predict` is asked for the
/// milliseconds that the next will take, given the nodes and the
/// milliseconds of this one and its depth; the next search runs if that
/// time and the time spent so far stay within `time`.
pub fn nm_iter_deep<T: Evaluator, F: Fn(u64, u32, u8) -> u32>(
    board: &mut Board,
    time: u32,
    evaluator: &T,
    predict: F,
) -> (r: (i32, Move, SearchData))
    requires
        forall|nodes: u64, millis: u32, depth: u8| call_requires(predict, (nodes, millis, depth)),
    ensures
        *final(board) == *old(board),
        old(board).is_legal(r.1),
        MIN_SEARCH_DEPTH <= r.2.depth <= MAX_SEARCH_DEPTH,
        r.2.nodes >= 1,
        r.0 == reply_value(evaluator, *old(board), r.2.depth as nat, old(board).legal_moves()),
        r.1 == static_order(evaluator, *old(board))[best_index(
            evaluator,
            *old(board),
            r.2.depth as nat,
            static_order(evaluator, *old(board)),
        )],
{
    let ghost start = *board;
    let mut depth: u8 = MIN_SEARCH_DEPTH;
    let mut time_spent: u32 = 0;
    let mut searched_total: u64 = 0;

    let (score, m, data) = negamax(board, depth, evaluator);
    let mut best_move: Move = m;
    let mut best_score: i32 = score;
    searched_total = searched_total.saturating_add(data.nodes);
    time_spent = time_spent.saturating_add(data.time);
    let mut time_prediction: u32 = predict(data.nodes, data.time, depth);

    while depth < MAX_SEARCH_DEPTH && within_budget(time_prediction, time_spent, time)
        invariant
            *board == start,
            MIN_SEARCH_DEPTH <= depth <= MAX_SEARCH_DEPTH,
            searched_total >= 1,
            start.is_legal(best_move),
            forall|nodes: u64, millis: u32, depth: u8|
                call_requires(predict, (nodes, millis, depth)),
            best_score == reply_value(evaluator, start, depth as nat, start.legal_moves()),
            best_move == static_order(evaluator, start)[best_index(
                evaluator,
                start,
                depth as nat,
                static_order(evaluator, start),
            )],
        decreases MAX_SEARCH_DEPTH - depth,
    {
        depth += 1;
        let (score, m, data) = negamax(board, depth, evaluator);

        best_move = m;
        best_score = score;
        searched_total = searched_total.saturating_add(data.nodes);
        time_spent = time_spent.saturating_add(data.time);
        time_prediction = predict(data.nodes, data.time, depth);
    }

    (best_score, best_move, SearchData { nodes: searched_total, time: time_spent, depth })
}

} // verus!
