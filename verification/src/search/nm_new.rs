//! Principal variation search with a transposition table, and the searches
//! at the root that use it: to a fixed depth, and deepening within a time
//! budget.

use vstd::prelude::*;
use std::time::Instant;
use crate::board::{Board, Move};
use crate::board::order::{sort_moves, lemma_stable_sort};
use crate::board::rules::{lemma_legal_moves_members, lemma_apply_revert};
use crate::search::SearchData;
use crate::search::clock::millis_since;
use crate::search::eval::{Evaluator, PieceSquareEvaluator, MAX_SCORE};
use crate::search::hashtable::{HashTable, Score, Entry, probe_slot, save_slot, slot_of};
use crate::search::iterative::{within_budget, MIN_SEARCH_DEPTH, MAX_SEARCH_DEPTH};
use crate::search::negamax::{order_by_score, static_keys, static_order};
use crate::search::tree::{
    node_value, reply_value, move_value, best_index, is_leaf, soft_result, lemma_value_bounds,
    lemma_reply_step, lemma_reply_members, lemma_best_index_value, lemma_reply_top,
};

verus! {

/// The number of slots of the transposition table, unless another is set.
pub const DEFAULT_TABLE_SIZE: usize = 8276803;

/// The depth above which the transposition table is used.
pub const TABLE_DEPTH: u8 = 3;

/// The depth above which the moves are ordered by a shallow search.
pub const ORDERING_DEPTH: u8 = 4;

/// An evaluator for the leaves of a search: a side without a disk has
/// lost, whatever the evaluator inside says.
pub struct Terminal<E> {
    pub inner: E,
}

impl<E: Evaluator> Evaluator for Terminal<E> {
    /// The least score if the side to move has no disk, the score of the
    /// evaluator inside otherwise.
    open spec fn score(&self, board: Board) -> int {
        if board.player_disks() == 0 {
            -MAX_SCORE as int
        } else {
            self.inner.score(board)
        }
    }

    proof fn lemma_score_bounds(&self, board: Board) {
        self.inner.lemma_score_bounds(board);
    }

    fn get_score(&self, board: &Board) -> (r: i32) {
        if board.black_move && board.black_disks == 0 {
            -MAX_SCORE
        } else if !board.black_move && board.white_disks == 0 {
            -MAX_SCORE
        } else {
            self.inner.get_score(board)
        }
    }
}

/// The depth of the shallow search that orders the moves of a search of
/// `depth` plies: about half of it, odd where it is odd and even where it
/// is even.
pub open spec fn half_depth_spec(depth: u8) -> u8 {
    (((depth / 2) & !1u8) | (depth & 1u8))
}

/// Computes the depth of the shallow search that orders the moves.
fn half_depth(depth: u8) -> (r: u8)
    requires
        depth > ORDERING_DEPTH,
    ensures
        r == half_depth_spec(depth),
        1 <= r < depth,
{
    assert(depth > 4 ==> 1 <= (((depth / 2) & !1u8) | (depth & 1u8)) < depth) by (bit_vector);
    ((depth / 2) & !1u8) | (depth & 1u8)
}

/// A searcher: an evaluator, a transposition table, and its settings.
pub struct NegamaxSearcher<E: Evaluator> {
    eval: Terminal<E>,
    verbose: u8,
    hashtable: HashTable,
    min_depth: u8,
}

impl NegamaxSearcher<PieceSquareEvaluator> {
    /// Creates a searcher with the piece-square evaluator and the usual
    /// weights.
    pub fn new() -> (r: NegamaxSearcher<PieceSquareEvaluator>)
        ensures
            r.verbosity() == 1,
            r.min_depth_spec() == MIN_SEARCH_DEPTH,
            r.table()@.len() == DEFAULT_TABLE_SIZE,
            forall|i: int| 0 <= i < r.table()@.len() ==> r.table()@[i] is None,
    {
        NegamaxSearcher::with_eval(PieceSquareEvaluator::new())
    }
}

impl<E: Evaluator> NegamaxSearcher<E> {
    /// The evaluator that scores the leaves.
    pub closed spec fn evaluator(self) -> Terminal<E> {
        self.eval
    }

    /// The transposition table.
    pub closed spec fn table(self) -> HashTable {
        self.hashtable
    }

    /// How much the searcher wants to be reported.
    pub closed spec fn verbosity(self) -> u8 {
        self.verbose
    }

    /// The depth at which a search within a time budget starts.
    pub closed spec fn min_depth_spec(self) -> u8 {
        self.min_depth
    }

    /// What the table answers when it is asked for the position before a
    /// search of `depth` plies within the window from `alpha` to `beta`.
    pub open spec fn table_answer(self, b: Board, depth: u8, alpha: i32, beta: i32) -> Option<
        Score,
    > {
        probe_slot(
            self.table()@[slot_of(b, self.table()@.len() as int)],
            b,
            depth,
            alpha,
            beta,
        )
    }

    /// Whether two searchers differ at most in what their tables hold.
    pub open spec fn same_settings(self, other: Self) -> bool {
        &&& self.evaluator() == other.evaluator()
        &&& self.verbosity() == other.verbosity()
        &&& self.min_depth_spec() == other.min_depth_spec()
        &&& self.table()@.len() == other.table()@.len()
    }

    /// Creates a searcher with the given evaluator and a table of the
    /// usual size.
    pub fn with_eval(eval: E) -> (r: Self)
        ensures
            r.evaluator().inner == eval,
            r.verbosity() == 1,
            r.min_depth_spec() == MIN_SEARCH_DEPTH,
            r.table()@.len() == DEFAULT_TABLE_SIZE,
            forall|i: int| 0 <= i < r.table()@.len() ==> r.table()@[i] is None,
    {
        NegamaxSearcher::with_table_size(eval, DEFAULT_TABLE_SIZE)
    }

    /// Creates a searcher with the given evaluator and a table of `size`
    /// slots.
    pub fn with_table_size(eval: E, size: usize) -> (r: Self)
        requires
            size > 0,
        ensures
            r.evaluator().inner == eval,
            r.verbosity() == 1,
            r.min_depth_spec() == MIN_SEARCH_DEPTH,
            r.table()@.len() == size,
            forall|i: int| 0 <= i < r.table()@.len() ==> r.table()@[i] is None,
    {
        NegamaxSearcher {
            eval: Terminal { inner: eval },
            verbose: 1,
            hashtable: HashTable::empty(size),
            min_depth: MIN_SEARCH_DEPTH,
        }
    }

    /// Sets how much the searcher wants to be reported: nothing at 0.
    pub fn set_verbose(&mut self, verbose: u8)
        ensures
            final(self).verbosity() == verbose,
            final(self).evaluator() == old(self).evaluator(),
            final(self).min_depth_spec() == old(self).min_depth_spec(),
            final(self).table() == old(self).table(),
    {
        self.verbose = verbose;
    }

    /// Returns how much the searcher wants to be reported.
    pub fn verbose(&self) -> (r: u8)
        ensures
            r == self.verbosity(),
    {
        self.verbose
    }

    /// Sets the depth at which a search within a time budget starts.
    pub fn set_min_depth(&mut self, depth: u8)
        ensures
            final(self).min_depth_spec() == depth,
            final(self).evaluator() == old(self).evaluator(),
            final(self).verbosity() == old(self).verbosity(),
            final(self).table() == old(self).table(),
    {
        self.min_depth = depth;
    }

    /// Searches the position `depth` plies deep within the window from
    /// `alpha` to `beta` by principal variation search: the first move with
    /// the full window, each later move with a window of width one, and once
    /// more with a wider window if it comes out better. Returns the best
    /// score that it found for the side to move and the number of nodes that
    /// were searched. The score is not cut off at the window: below `alpha`
    /// it is a bound that the value does not exceed, from `beta` on a bound
    /// that the value reaches.
    ///
    /// Above a depth of four plies the moves are ordered by a shallow
    /// search, up to four plies by the evaluator. Above a depth of three
    /// plies the transposition table is asked first, and told the result at
    /// the end; what it holds from other lines may stand for a deeper search
    /// than was asked for. Up to three plies the table is left alone, and
    /// the result is held to the value of the position in the game tree.
    #[verifier::rlimit(60)]
    pub fn pvs_impl(&mut self, board: &mut Board, alpha: i32, beta: i32, depth: u8) -> (r: (
        i32,
        u64,
    ))
        requires
            -MAX_SCORE <= alpha,
            -MAX_SCORE <= beta,
        ensures
            *final(board) == *old(board),
            final(self).same_settings(*old(self)),
            -MAX_SCORE <= r.0 <= MAX_SCORE,
            r.1 >= 1,
            is_leaf(*old(board), depth as nat) ==> r.0 == old(self).evaluator().score(*old(board))
                && r.1 == 1 && final(self).table() == old(self).table(),
            depth <= TABLE_DEPTH ==> final(self).table() == old(self).table(),
            depth <= TABLE_DEPTH && alpha < beta ==> soft_result(
                alpha as int,
                beta as int,
                node_value(&old(self).evaluator(), *old(board), depth as nat),
                r.0 as int,
            ),
            depth == 1 && alpha < beta && r.0 < beta ==> r.0 == node_value(
                &old(self).evaluator(),
                *old(board),
                depth as nat,
            ),
            depth > TABLE_DEPTH && !is_leaf(*old(board), depth as nat) ==> ({
                let answer = old(self).table_answer(*old(board), depth, alpha, beta);
                let slot = slot_of(*old(board), old(self).table()@.len() as int);
                &&& answer matches Some(score) ==> r.0 == clamp_spec(stored_score(score)) && r.1
                    == 1 && final(self).table() == old(self).table()
                &&& answer is None ==> exists|before: Option<Entry>|
                    final(self).table()@[slot] == #[trigger] save_slot(
                        before,
                        *old(board),
                        told_score(r.0, alpha, beta),
                        depth,
                    )
            }),
        decreases depth,
    {
        if board.is_game_over() || depth == 0 {
            return (self.eval.get_score(board), 1);
        }
        let ghost start = *board;
        let ghost plies = depth as nat;
        let ghost before = *self;
        let mut alpha: i32 = alpha;
        let mut beta: i32 = beta;

        if depth > TABLE_DEPTH {
            let entry: Option<Score> = self.hashtable.probe(board, depth, alpha, beta);
            if let Some(score) = entry {
                let node_value: i32;

                match score {
                    Score::Exact(score) => {
                        return (clamp(score), 1);
                    },
                    Score::Lower(score) => {
                        alpha = clamp(score);
                        node_value = alpha;
                    },
                    Score::Upper(score) => {
                        beta = clamp(score);
                        node_value = beta;
                    },
                }

                if alpha >= beta {
                    return (node_value, 1);
                }
            }
        }
        let mut total_nodes: u64 = 1;

        let legal: Vec<Move> = board.get_moves();
        proof {
            lemma_legal_moves_members(start, Move::Pass);
        }
        let moves: Vec<Move> = if depth > ORDERING_DEPTH {
            let shallow: u8 = half_depth(depth);
            let mut keys: Vec<i32> = Vec::new();
            let mut k: usize = 0;
            while k < legal.len()
                invariant
                    k <= legal.len(),
                    keys.len() == k,
                    *board == start,
                    legal@ == start.legal_moves(),
                    self.same_settings(before),
                    shallow < depth,
                    total_nodes >= 1,
                    -MAX_SCORE <= alpha,
                    -MAX_SCORE <= beta,
                decreases legal.len() - k,
            {
                let m: Move = legal[k];
                proof {
                    assert(legal@.contains(m));
                    lemma_legal_moves_members(start, m);
                    lemma_apply_revert(start, m);
                }
                let undo: u64 = board.make_move(m);
                let (result, nodes) = self.pvs_impl(board, -beta, -alpha, shallow);
                board.undo_move(undo, m);

                total_nodes = total_nodes.saturating_add(nodes);
                keys.push(result);
                k += 1;
            }
            let sorted: Vec<Move> = sort_moves(&legal, &keys);
            proof {
                lemma_stable_sort(legal@, keys@);
            }
            sorted
        } else {
            let sorted: Vec<Move> = order_by_score(board, &legal, &self.eval);
            proof {
                lemma_stable_sort(
                    start.legal_moves(),
                    static_keys(&self.eval, start, start.legal_moves()),
                );
            }
            sorted
        };
        proof {
            lemma_reply_members(&self.eval, start, plies, moves@, start.legal_moves());
        }

        let alpha_start: i32 = alpha;
        let ghost lower = alpha;
        let mut best_score: i32 = -MAX_SCORE;
        let mut cut: bool = false;
        let mut i: usize = 0;
        while i < moves.len() && !cut
            invariant
                i <= moves.len(),
                moves.len() > 0,
                *board == start,
                depth > 0,
                plies == depth as nat,
                self.same_settings(before),
                depth <= TABLE_DEPTH ==> self.table() == before.table(),
                -MAX_SCORE <= lower <= alpha <= MAX_SCORE,
                lower == alpha_start,
                -MAX_SCORE <= beta,
                -MAX_SCORE <= best_score <= alpha,
                total_nodes >= 1,
                forall|m: Move| moves@.contains(m) <==> start.legal_moves().contains(m),
                cut ==> alpha >= beta,
                i > 0 && !cut ==> alpha < beta,
                alpha == lower || alpha == best_score,
                i == 0 ==> best_score == -MAX_SCORE,
                depth <= TABLE_DEPTH && lower < beta ==> soft_result(
                    lower as int,
                    beta as int,
                    reply_value(&before.evaluator(), start, plies, moves@.take(i as int)),
                    best_score as int,
                ),
                depth == 1 && i > 0 ==> best_score == reply_value(
                    &before.evaluator(),
                    start,
                    plies,
                    moves@.take(i as int),
                ),
            decreases moves.len() - i,
        {
            let m: Move = moves[i];
            proof {
                assert(moves@.contains(m));
                lemma_legal_moves_members(start, m);
                lemma_apply_revert(start, m);
                lemma_reply_step(&before.evaluator(), start, plies, moves@, i as int);
                lemma_value_bounds(&before.evaluator(), start.apply(m), (plies - 1) as nat);
                if depth == 1 {
                    assert(is_leaf(start.apply(m), (depth - 1) as nat));
                }
            }
            let undo: u64 = board.make_move(m);
            let mut score: i32;
            if i == 0 {
                let (result, nodes) = self.pvs_impl(board, -beta, -alpha, depth - 1);

                score = -result;
                total_nodes = total_nodes.saturating_add(nodes);
            } else {
                let (result, nodes) = self.pvs_impl(board, -alpha - 1, -alpha, depth - 1);

                score = -result;
                total_nodes = total_nodes.saturating_add(nodes);

                if score > alpha && score < beta {
                    let (result, nodes) = self.pvs_impl(board, -beta, -score, depth - 1);
                    score = -result;
                    total_nodes = total_nodes.saturating_add(nodes);
                }
            }
            board.undo_move(undo, m);
            assert(depth == 1 ==> score == move_value(&before.evaluator(), start, plies, m));

            if score > best_score {
                best_score = score;
                if score > alpha {
                    alpha = score;
                }
            }
            if alpha >= beta {
                cut = true;
            }
            i += 1;
        }
        proof {
            if i < moves.len() {
                lemma_reply_step(&before.evaluator(), start, plies, moves@, i as int);
            } else {
                assert(moves@.take(i as int) =~= moves@);
            }
        }

        if depth > TABLE_DEPTH {
            let node_score: Score = if best_score < alpha_start {
                Score::Upper(best_score)
            } else if best_score >= beta {
                Score::Lower(best_score)
            } else {
                Score::Exact(best_score)
            };
            self.hashtable.save(board, node_score, depth);
        }

        (best_score, total_nodes)
    }

    /// Searches every move of `moves` at the root, `depth` plies deep, by
    /// principal variation search, and returns the best score, the first
    /// move that reached it, the number of nodes and the milliseconds.
    #[verifier::rlimit(60)]
    fn search_root(&mut self, board: &mut Board, moves: &Vec<Move>, depth: u8) -> (r: (
        i32,
        Move,
        u64,
        u32,
    ))
        requires
            depth >= 1,
            moves.len() > 0,
            forall|m: Move| moves@.contains(m) <==> old(board).legal_moves().contains(m),
        ensures
            *final(board) == *old(board),
            final(self).same_settings(*old(self)),
            -MAX_SCORE <= r.0 <= MAX_SCORE,
            moves@.contains(r.1),
            r.2 >= 1,
            depth <= TABLE_DEPTH + 1 ==> final(self).table() == old(self).table(),
            depth <= TABLE_DEPTH + 1 ==> r.0 == reply_value(
                &old(self).evaluator(),
                *old(board),
                depth as nat,
                moves@,
            ),
            depth <= TABLE_DEPTH + 1 ==> r.1 == moves@[best_index(
                &old(self).evaluator(),
                *old(board),
                depth as nat,
                moves@,
            )],
            depth <= TABLE_DEPTH + 1 ==> move_value(
                &old(self).evaluator(),
                *old(board),
                depth as nat,
                r.1,
            ) == r.0,
    {
        let ghost start = *board;
        let ghost plies = depth as nat;
        let ghost before = *self;

        let beta: i32 = MAX_SCORE;
        let mut best_score: i32 = -beta;
        let mut best_move: Move = moves[0];
        let mut total_nodes: u64 = 0;
        let mut total_millis: u32 = 0;

        let mut i: usize = 0;
        while i < moves.len() && best_score < beta
            invariant
                i <= moves.len(),
                moves.len() > 0,
                *board == start,
                depth > 0,
                plies == depth as nat,
                beta == MAX_SCORE,
                self.same_settings(before),
                depth <= TABLE_DEPTH + 1 ==> self.table() == before.table(),
                -MAX_SCORE <= best_score <= MAX_SCORE,
                forall|m: Move| moves@.contains(m) <==> start.legal_moves().contains(m),
                moves@.contains(best_move),
                i > 0 ==> total_nodes >= 1,
                i == 0 ==> best_score == -MAX_SCORE && best_move == moves@[0],
                i > 0 && depth <= TABLE_DEPTH + 1 ==> best_score == reply_value(
                    &before.evaluator(),
                    start,
                    plies,
                    moves@.take(i as int),
                ),
                i > 0 && depth <= TABLE_DEPTH + 1 ==> best_move == moves@[best_index(
                    &before.evaluator(),
                    start,
                    plies,
                    moves@.take(i as int),
                )],
            decreases moves.len() - i,
        {
            let m: Move = moves[i];
            proof {
                assert(moves@.contains(m));
                lemma_legal_moves_members(start, m);
                lemma_apply_revert(start, m);
                lemma_reply_step(&before.evaluator(), start, plies, moves@, i as int);
                lemma_value_bounds(&before.evaluator(), start.apply(m), (plies - 1) as nat);
            }
            let clock: Instant = Instant::now();

            let mut score: i32;
            let mut nodes: u64 = 0;

            let undo: u64 = board.make_move(m);
            if i == 0 {
                let (result, s_nodes) = self.pvs_impl(board, -beta, -best_score, depth - 1);

                score = -result;
                nodes = nodes.saturating_add(s_nodes);
            } else {
                let (result, s_nodes) = self.pvs_impl(
                    board,
                    -best_score - 1,
                    -best_score,
                    depth - 1,
                );

                score = -result;
                nodes = nodes.saturating_add(s_nodes);

                if score > best_score && score < beta {
                    let (result, s_nodes) = self.pvs_impl(board, -beta, -score, depth - 1);
                    score = -result;
                    nodes = nodes.saturating_add(s_nodes);
                }
            }
            board.undo_move(undo, m);

            let time_taken: u32 = millis_since(&clock);

            if score > best_score {
                best_move = m;
                best_score = score;
            }
            total_nodes = total_nodes.saturating_add(nodes);
            total_millis = total_millis.saturating_add(time_taken);
            i += 1;
        }
        proof {
            if depth <= TABLE_DEPTH + 1 {
                if i < moves.len() {
                    lemma_reply_top(&before.evaluator(), start, plies, moves@, i as int);
                } else {
                    assert(moves@.take(i as int) =~= moves@);
                }
                lemma_best_index_value(&before.evaluator(), start, plies, moves@);
            }
        }

        (best_score, best_move, total_nodes, total_millis)
    }

    /// Searches the position `depth` plies deep and returns the score of
    /// the best move, the best move, and a report of the search. The moves
    /// are searched in the order in which the evaluator suggests them, and
    /// of several best moves the first is returned. The transposition table
    /// is empty afterwards.
    ///
    /// Up to a depth of four plies the score is the value of the position in
    /// the game tree.
    pub fn search_to_depth(&mut self, board: &mut Board, depth: u8) -> (r: (i32, Move, SearchData))
        requires
            depth >= 1,
        ensures
            *final(board) == *old(board),
            final(self).same_settings(*old(self)),
            forall|i: int| 0 <= i < final(self).table()@.len() ==> final(self).table()@[i] is None,
            old(board).is_legal(r.1),
            -MAX_SCORE <= r.0 <= MAX_SCORE,
            r.2.depth == depth,
            r.2.nodes >= 1,
            depth <= TABLE_DEPTH + 1 ==> r.0 == reply_value(
                &old(self).evaluator(),
                *old(board),
                depth as nat,
                old(board).legal_moves(),
            ),
            depth <= TABLE_DEPTH + 1 ==> r.1 == static_order(&old(self).evaluator(), *old(board))[
                best_index(
                    &old(self).evaluator(),
                    *old(board),
                    depth as nat,
                    static_order(&old(self).evaluator(), *old(board)),
                )
            ],
            depth <= TABLE_DEPTH + 1 ==> move_value(
                &old(self).evaluator(),
                *old(board),
                depth as nat,
                r.1,
            ) == r.0,
    {
        let ghost start = *board;
        let legal: Vec<Move> = board.get_moves();
        let moves: Vec<Move> = order_by_score(board, &legal, &self.eval);
        proof {
            lemma_stable_sort(
                start.legal_moves(),
                static_keys(&self.eval, start, start.legal_moves()),
            );
            lemma_reply_members(&self.eval, start, depth as nat, moves@, start.legal_moves());
            lemma_legal_moves_members(start, Move::Pass);
        }

        let (best_score, best_move, total_nodes, total_millis) = self.search_root(
            board,
            &moves,
            depth,
        );
        proof {
            lemma_legal_moves_members(start, best_move);
        }

        self.hashtable.set_replace();
        self.hashtable.clear();

        (best_score, best_move, SearchData { nodes: total_nodes, time: total_millis, depth })
    }

    /// Orders `moves` for the next iteration by what the table holds of the
    /// positions to which they lead after a search of `depth` plies: the
    /// stored scores ascending, moves without one last.
    fn order_by_table(&self, board: &mut Board, moves: &Vec<Move>, depth: u8) -> (r: Vec<Move>)
        requires
            moves.len() > 0,
            forall|m: Move| moves@.contains(m) <==> old(board).legal_moves().contains(m),
        ensures
            *final(board) == *old(board),
            r.len() == moves.len(),
            forall|m: Move| r@.contains(m) <==> old(board).legal_moves().contains(m),
    {
        let ghost start = *board;
        let mut keys: Vec<i32> = Vec::new();
        let mut k: usize = 0;
        while k < moves.len()
            invariant
                k <= moves.len(),
                keys.len() == k,
                *board == start,
                forall|m: Move| moves@.contains(m) <==> start.legal_moves().contains(m),
            decreases moves.len() - k,
        {
            let m: Move = moves[k];
            proof {
                assert(moves@.contains(m));
                lemma_legal_moves_members(start, m);
                lemma_apply_revert(start, m);
            }
            let undo: u64 = board.make_move(m);

            let entry: Option<Score> = self.hashtable.probe(board, depth, -MAX_SCORE, MAX_SCORE);
            let value: i32 = match entry {
                Some(Score::Exact(score)) => score,
                Some(Score::Lower(score)) => score,
                Some(Score::Upper(score)) => score,
                None => MAX_SCORE,
            };

            board.undo_move(undo, m);
            keys.push(value);
            k += 1;
        }
        proof {
            lemma_stable_sort(moves@, keys@);
        }
        sort_moves(moves, &keys)
    }

    /// Searches the position deeper and deeper, two plies at a time from the
    /// least depth, and returns the score of the best move of the last
    /// search, that move, and a report: the nodes and milliseconds of all
    /// searches and the depth of the last.
    ///
    /// The first search always runs. After each, `predict` is asked for the
    /// milliseconds that the next will take, given the nodes and the
    /// milliseconds of this one and its depth; the next search runs if that
    /// time and the time spent so far stay within `time`, and the depth stays
    /// within the greatest depth. Between two searches the entries of the
    /// table are marked for replacement and the moves are ordered anew by
    /// what the table holds. The table is empty afterwards.
    pub fn search<F: Fn(u64, u32, u8) -> u32>(&mut self, board: &mut Board, time: u32, predict: F)
        -> (r: (i32, Move, SearchData))
        requires
            forall|nodes: u64, millis: u32, depth: u8| call_requires(predict, (nodes, millis, depth)),
        ensures
            *final(board) == *old(board),
            final(self).same_settings(*old(self)),
            forall|i: int| 0 <= i < final(self).table()@.len() ==> final(self).table()@[i] is None,
            old(board).is_legal(r.1),
            -MAX_SCORE <= r.0 <= MAX_SCORE,
            1 <= r.2.depth <= MAX_SEARCH_DEPTH,
            r.2.nodes >= 1,
            r.2.depth >= old(self).min_depth_spec() || r.2.depth == MAX_SEARCH_DEPTH,
            (r.2.depth - start_depth(old(self).min_depth_spec())) % 2 == 0,
            r.2.depth <= TABLE_DEPTH + 1 ==> r.0 == reply_value(
                &old(self).evaluator(),
                *old(board),
                r.2.depth as nat,
                old(board).legal_moves(),
            ) && move_value(&old(self).evaluator(), *old(board), r.2.depth as nat, r.1) == r.0,
    {
        let ghost start = *board;
        let ghost before = *self;
        let legal: Vec<Move> = board.get_moves();
        let mut moves: Vec<Move> = order_by_score(board, &legal, &self.eval);
        proof {
            lemma_stable_sort(
                start.legal_moves(),
                static_keys(&self.eval, start, start.legal_moves()),
            );
            lemma_legal_moves_members(start, Move::Pass);
        }

        let mut total_nodes: u64 = 0;
        let mut total_millis: u32 = 0;

        let mut depth: u8 = if self.min_depth < 1 {
            1
        } else if self.min_depth > MAX_SEARCH_DEPTH {
            MAX_SEARCH_DEPTH
        } else {
            self.min_depth
        };
        let mut best_move: Move = moves[0];
        let mut best_move_score: i32 = 0;
        let mut go_on: bool = true;

        while go_on
            invariant
                *board == start,
                self.same_settings(before),
                moves.len() > 0,
                forall|m: Move| moves@.contains(m) <==> start.legal_moves().contains(m),
                moves@.contains(best_move),
                -MAX_SCORE <= best_move_score <= MAX_SCORE,
                1 <= depth <= MAX_SEARCH_DEPTH,
                (depth - start_depth(before.min_depth_spec())) % 2 == 0,
                depth >= start_depth(before.min_depth_spec()),
                !go_on ==> total_nodes >= 1,
                !go_on && depth <= TABLE_DEPTH + 1 ==> best_move_score == reply_value(
                    &before.evaluator(),
                    start,
                    depth as nat,
                    start.legal_moves(),
                ) && move_value(&before.evaluator(), start, depth as nat, best_move)
                    == best_move_score,
                forall|nodes: u64, millis: u32, depth: u8|
                    call_requires(predict, (nodes, millis, depth)),
            decreases MAX_SEARCH_DEPTH - depth + if go_on {
                1int
            } else {
                0int
            },
        {
            proof {
                lemma_reply_members(
                    &before.evaluator(),
                    start,
                    depth as nat,
                    moves@,
                    start.legal_moves(),
                );
            }
            let (score, m, iter_nodes, iter_time) = self.search_root(board, &moves, depth);
            best_move = m;
            best_move_score = score;
            total_nodes = total_nodes.saturating_add(iter_nodes);
            total_millis = total_millis.saturating_add(iter_time);

            let sorted: Vec<Move> = self.order_by_table(board, &moves, depth);
            moves = sorted;
            self.hashtable.set_replace();

            let time_prediction: u32 = predict(iter_nodes, iter_time, depth);
            if within_budget(time_prediction, total_millis, time) && depth <= MAX_SEARCH_DEPTH
                - 2 {
                depth += 2;
            } else {
                go_on = false;
            }
        }
        proof {
            lemma_legal_moves_members(start, best_move);
        }

        self.hashtable.clear();

        (best_move_score, best_move, SearchData { nodes: total_nodes, time: total_millis, depth })
    }
}

/// The score that an entry of the table holds.
pub open spec fn stored_score(score: Score) -> i32 {
    match score {
        Score::Exact(value) => value,
        Score::Lower(value) => value,
        Score::Upper(value) => value,
    }
}

/// What the table is told of a score found within the window from `alpha`
/// to `beta`: an upper bound below the window, a lower bound from `beta`
/// on, the score itself between.
pub open spec fn told_score(score: i32, alpha: i32, beta: i32) -> Score {
    if score < alpha {
        Score::Upper(score)
    } else if score >= beta {
        Score::Lower(score)
    } else {
        Score::Exact(score)
    }
}

/// The depth at which a search within a time budget starts: the least depth
/// that was set, brought within the depths of a search.
pub open spec fn start_depth(min_depth: u8) -> u8 {
    if min_depth < 1 {
        1
    } else if min_depth > MAX_SEARCH_DEPTH {
        MAX_SEARCH_DEPTH
    } else {
        min_depth
    }
}

/// A score that the table holds, brought within the bounds of a score.
pub open spec fn clamp_spec(score: i32) -> i32 {
    if score < -MAX_SCORE {
        (-MAX_SCORE) as i32
    } else {
        score
    }
}

/// Brings a score that the table holds within the bounds of a score.
fn clamp(score: i32) -> (r: i32)
    ensures
        r == clamp_spec(score),
        -MAX_SCORE <= r <= MAX_SCORE,
{
    if score < -MAX_SCORE {
        -MAX_SCORE
    } else {
        score
    }
}

} // verus!
