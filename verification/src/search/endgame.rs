//! Solving the end of the game: a search to the last move, where the
//! disks are counted.

use vstd::prelude::*;
use std::time::Instant;
use crate::bits::{lemma_popcount_le_64, lemma_mask_basics};
use crate::board::{Board, Move, list_moves};
use crate::board::order::{sort_moves, stable_sort, lemma_stable_sort};
use crate::board::rules::{
    lemma_legal_moves_members, lemma_apply_revert, lemma_apply_rank, lemma_apply_valid,
};
use crate::search::SearchData;
use crate::search::clock::millis_since;
use crate::search::eval::{Evaluator, MAX_SCORE};
use crate::search::last_square::last_square;
use crate::search::negamax::{order_by_score, static_keys, static_order};
use crate::search::tree::{
    node_value, reply_value, move_value, best_index, is_leaf, window_result, lemma_reply_step,
    lemma_reply_members, lemma_reply_bounds, lemma_best_index_value,
};

verus! {

/// The sign of a number: 1, 0 or -1.
pub open spec fn sign(x: int) -> int {
    if x > 0 {
        1
    } else if x < 0 {
        -1
    } else {
        0
    }
}

/// The number of disks of the side to move minus the number of disks of the
/// other side.
pub open spec fn material(b: Board) -> int {
    if b.black_move {
        b.disk_difference()
    } else {
        -b.disk_difference()
    }
}

/// Returns the number of disks of the side to move minus the number of
/// disks of the other side.
pub fn get_material(board: &Board) -> (r: i8)
    ensures
        r == material(*board),
        -64 <= r <= 64,
{
    let score: i32 = board.get_score();
    if board.black_move {
        score as i8
    } else {
        (-score) as i8
    }
}

/// Returns the result of a finished game for the side to move: 1 for a
/// win, 0 for a draw, -1 for a loss.
pub fn get_endgame_score(board: &Board) -> (r: i8)
    ensures
        r == sign(material(*board)),
{
    let score: i8 = get_material(board);
    if score > 0 {
        1
    } else if score < 0 {
        -1
    } else {
        0
    }
}

/// Returns the result of a finished game for the side to move as a number
/// of disks: its own minus the other side's.
pub fn get_endgame_score_full(board: &Board) -> (r: i8)
    ensures
        r == material(*board),
{
    get_material(board)
}

/// The evaluator of finished games: it counts the disks of the side to
/// move against those of the other side, or says only who has more.
pub struct FinalScore {
    /// Whether only win, draw and loss are told apart.
    pub wld: bool,
}

impl Evaluator for FinalScore {
    /// The disks of the side to move minus those of the other side, or the
    /// sign of that number.
    open spec fn score(&self, board: Board) -> int {
        if self.wld {
            sign(material(board))
        } else {
            material(board)
        }
    }

    proof fn lemma_score_bounds(&self, board: Board) {
        lemma_popcount_le_64(board.black_disks);
        lemma_popcount_le_64(board.white_disks);
    }

    fn get_score(&self, board: &Board) -> (r: i32) {
        if self.wld {
            get_endgame_score(board) as i32
        } else {
            get_endgame_score_full(board) as i32
        }
    }
}

/// The value of the position for the side to move when both sides play to
/// the end as well as they can: in disks, or as win, draw or loss. A search
/// deeper than the rank of the position reaches the end of the game on
/// every line.
pub open spec fn game_value(b: Board, wld: bool) -> int {
    node_value(&FinalScore { wld }, b, (b.rank() + 1) as nat)
}

/// The greatest value of a game: 1 for win, draw and loss, 64 in disks.
pub open spec fn value_limit(wld: bool) -> int {
    if wld {
        1
    } else {
        64
    }
}

/// A search that is deeper than the rank of a position gives the same value
/// at every depth.
pub proof fn lemma_deep_value<E: Evaluator>(eval: &E, b: Board, first: nat, second: nat)
    requires
        b.valid(),
        first > b.rank(),
        second > b.rank(),
    ensures
        node_value(eval, b, first) == node_value(eval, b, second),
    decreases b.rank(), b.legal_moves().len() + 1,
{
    lemma_apply_rank_floor(b);
    if !b.game_over() {
        assert forall|j: int| 0 <= j < b.legal_moves().len() implies b.is_legal(
            #[trigger] b.legal_moves()[j],
        ) by {
            assert(b.legal_moves().contains(b.legal_moves()[j]));
            lemma_legal_moves_members(b, b.legal_moves()[j]);
        }
        lemma_deep_reply(eval, b, first, second, b.legal_moves());
    }
}

/// The rank of a position is not negative.
pub proof fn lemma_apply_rank_floor(b: Board)
    ensures
        b.rank() >= 0,
{
    lemma_popcount_le_64(b.white_disks | b.black_disks);
}

/// A search that is deeper than the rank of a position finds the same best
/// move value at every depth.
pub proof fn lemma_deep_reply<E: Evaluator>(
    eval: &E,
    b: Board,
    first: nat,
    second: nat,
    moves: Seq<Move>,
)
    requires
        b.valid(),
        !b.game_over(),
        first > b.rank(),
        second > b.rank(),
        forall|j: int| 0 <= j < moves.len() ==> b.is_legal(#[trigger] moves[j]),
    ensures
        reply_value(eval, b, first, moves) == reply_value(eval, b, second, moves),
    decreases b.rank(), moves.len(),
{
    lemma_apply_rank_floor(b);
    if moves.len() > 0 {
        let front = moves.drop_last();
        let m = moves.last();
        assert(b.is_legal(moves[moves.len() - 1]));
        assert forall|j: int| 0 <= j < front.len() implies b.is_legal(#[trigger] front[j]) by {
            assert(front[j] == moves[j]);
        }
        lemma_deep_reply(eval, b, first, second, front);
        lemma_apply_rank(b, m);
        lemma_apply_valid(b, m);
        lemma_deep_value(eval, b.apply(m), (first - 1) as nat, (second - 1) as nat);
    }
}

/// The value of a position in which the game goes on is the value of the
/// best move, and the value of a move is the negated value of the game
/// after it.
pub proof fn lemma_game_value_unfold(b: Board, wld: bool, m: Move)
    requires
        b.valid(),
        !b.game_over(),
        b.is_legal(m),
    ensures
        move_value(&FinalScore { wld }, b, (b.rank() + 1) as nat, m) == -game_value(
            b.apply(m),
            wld,
        ),
        b.apply(m).valid(),
        0 <= b.apply(m).rank() < b.rank(),
{
    lemma_apply_rank(b, m);
    lemma_apply_valid(b, m);
    lemma_deep_value(
        &FinalScore { wld },
        b.apply(m),
        b.rank() as nat,
        (b.apply(m).rank() + 1) as nat,
    );
}

/// The value of a game lies within its limits.
pub proof fn lemma_game_value_range(b: Board, wld: bool)
    ensures
        -value_limit(wld) <= game_value(b, wld) <= value_limit(wld),
{
    lemma_value_range(&FinalScore { wld }, b, (b.rank() + 1) as nat);
}

/// The value of a position under the evaluator of finished games lies
/// within the limits of a game.
pub proof fn lemma_value_range(eval: &FinalScore, b: Board, depth: nat)
    ensures
        -value_limit(eval.wld) <= node_value(eval, b, depth) <= value_limit(eval.wld),
    decreases depth, b.legal_moves().len() + 1,
{
    if is_leaf(b, depth) {
        lemma_popcount_le_64(b.black_disks);
        lemma_popcount_le_64(b.white_disks);
    } else {
        lemma_legal_moves_members(b, Move::Pass);
        lemma_reply_range(eval, b, depth, b.legal_moves());
    }
}

/// The value of the best of some moves under the evaluator of finished
/// games lies within the limits of a game.
pub proof fn lemma_reply_range(eval: &FinalScore, b: Board, depth: nat, moves: Seq<Move>)
    requires
        depth > 0,
    ensures
        moves.len() > 0 ==> -value_limit(eval.wld) <= reply_value(eval, b, depth, moves)
            <= value_limit(eval.wld),
    decreases depth, moves.len(),
{
    if moves.len() > 0 {
        lemma_reply_range(eval, b, depth, moves.drop_last());
        lemma_reply_bounds(eval, b, depth, moves.drop_last());
        lemma_value_range(eval, b.apply(moves.last()), (depth - 1) as nat);
    }
}

/// Who wins a game is the sign of its value in disks: a search that tells
/// only win, draw and loss apart agrees with one that counts the disks.
pub proof fn lemma_wld_is_sign(b: Board)
    ensures
        game_value(b, true) == sign(game_value(b, false)),
{
    lemma_sign_value(b, (b.rank() + 1) as nat);
}

/// At every depth, the value in wins, draws and losses is the sign of the
/// value in disks.
pub proof fn lemma_sign_value(b: Board, depth: nat)
    ensures
        node_value(&FinalScore { wld: true }, b, depth) == sign(
            node_value(&FinalScore { wld: false }, b, depth),
        ),
    decreases depth, b.legal_moves().len() + 1,
{
    if !is_leaf(b, depth) {
        lemma_legal_moves_members(b, Move::Pass);
        lemma_sign_reply(b, depth, b.legal_moves());
    }
}

/// At every depth, the value of the best of some moves in wins, draws and
/// losses is the sign of its value in disks.
pub proof fn lemma_sign_reply(b: Board, depth: nat, moves: Seq<Move>)
    requires
        depth > 0,
        moves.len() > 0,
    ensures
        reply_value(&FinalScore { wld: true }, b, depth, moves) == sign(
            reply_value(&FinalScore { wld: false }, b, depth, moves),
        ),
    decreases depth, moves.len(),
{
    let front = moves.drop_last();
    let win = FinalScore { wld: true };
    let full = FinalScore { wld: false };
    lemma_sign_value(b.apply(moves.last()), (depth - 1) as nat);
    lemma_value_range(&win, b.apply(moves.last()), (depth - 1) as nat);
    lemma_value_range(&full, b.apply(moves.last()), (depth - 1) as nat);
    if front.len() > 0 {
        lemma_sign_reply(b, depth, front);
    } else {
        lemma_reply_bounds(&win, b, depth, front);
        lemma_reply_bounds(&full, b, depth, front);
    }
}

/// The keys of the fastest-first order: for each move the number of moves
/// that it leaves to the other side.
pub open spec fn reply_counts(b: Board, moves: Seq<Move>) -> Seq<i32> {
    Seq::new(moves.len(), |i: int| crate::bits::popcount(b.apply(moves[i]).moves_mask()) as i32)
}

/// The moves of the position `b`, those first that leave the other side the
/// fewest moves.
pub open spec fn fastest_first(b: Board) -> Seq<Move> {
    stable_sort(b.legal_moves(), reply_counts(b, b.legal_moves()))
}

/// Orders the moves of the position fastest first: ascending by the number
/// of moves that each leaves to the other side.
pub fn order_fastest_first(board: &Board, moves: &Vec<Move>) -> (r: Vec<Move>)
    requires
        moves@ == board.legal_moves(),
    ensures
        r@ == fastest_first(*board),
        r.len() == moves.len(),
{
    let mut keys: Vec<i32> = Vec::with_capacity(moves.len());
    let mut i: usize = 0;
    while i < moves.len()
        invariant
            i <= moves.len(),
            moves@ == board.legal_moves(),
            keys.len() == i,
            forall|j: int| 0 <= j < i ==> keys@[j] == reply_counts(*board, moves@)[j],
        decreases moves.len() - i,
    {
        let m: Move = moves[i];
        proof {
            assert(moves@.contains(m));
            lemma_legal_moves_members(*board, m);
            lemma_popcount_le_64(board.apply(m).moves_mask());
        }
        keys.push(board.move_count_after(m) as i32);
        i += 1;
    }
    assert(keys@ =~= reply_counts(*board, moves@));
    sort_moves(moves, &keys)
}

/// The number of empty squares above which a guided solver orders the
/// moves by its evaluator.
pub const GUIDED_EMPTIES: u32 = 12;

/// Searches the moves `moves` of a position in which the game goes on, each
/// to the end of the game, within the window from `alpha` to `beta`, and
/// returns a score for the side to move and the number of positions that
/// were scored. The search stops at the first move that reaches `beta`.
/// With a guide, the positions below are searched under its guidance.
#[verifier::rlimit(60)]
fn search_ordered<E: Evaluator>(
    board: &mut Board,
    moves: &Vec<Move>,
    alpha: i32,
    beta: i32,
    wld: bool,
    guide: Option<&E>,
) -> (r: (i32, u64))
    requires
        old(board).valid(),
        !old(board).game_over(),
        -MAX_SCORE <= alpha,
        -MAX_SCORE <= beta,
        moves.len() > 0,
        forall|m: Move| moves@.contains(m) <==> old(board).legal_moves().contains(m),
    ensures
        *final(board) == *old(board),
        -MAX_SCORE <= r.0 <= MAX_SCORE,
        r.1 >= 1,
        window_result(alpha as int, beta as int, game_value(*old(board), wld), r.0 as int),
        r.0 >= alpha,
    decreases old(board).rank(), 0nat,
{
    let scorer = FinalScore { wld };
    let ghost start = *board;
    let ghost plies = (start.rank() + 1) as nat;
    proof {
        lemma_apply_rank_floor(start);
        lemma_reply_members(&scorer, start, plies, moves@, start.legal_moves());
        assert(!is_leaf(start, plies));
        assert(game_value(start, wld) == reply_value(&scorer, start, plies, start.legal_moves()));
        assert(game_value(start, wld) == reply_value(&scorer, start, plies, moves@));
        assert forall|j: int| 0 <= j < moves.len() implies start.is_legal(#[trigger] moves@[j]) by {
            assert(moves@.contains(moves@[j]));
            lemma_legal_moves_members(start, moves@[j]);
        }
    }
    let ghost value = game_value(start, wld);

    let mut alpha: i32 = alpha;
    let ghost lower = alpha;
    let mut total_nodes: u64 = 0;
    let mut cut: bool = false;
    let mut i: usize = 0;
    while i < moves.len() && !cut
        invariant
            i <= moves.len(),
            moves.len() > 0,
            *board == start,
            start.valid(),
            start == *old(board),
            !start.game_over(),
            start.rank() >= 0,
            plies == start.rank() + 1,
            scorer.wld == wld,
            -MAX_SCORE <= lower <= alpha <= MAX_SCORE,
            -MAX_SCORE <= beta,
            i > 0 ==> total_nodes >= 1,
            i == 0 ==> !cut,
            forall|j: int| 0 <= j < moves.len() ==> start.is_legal(#[trigger] moves@[j]),
            cut ==> alpha >= beta,
            alpha <= lower || alpha <= reply_value(&scorer, start, plies, moves@.take(i as int)),
            reply_value(&scorer, start, plies, moves@.take(i as int)) <= lower ==> alpha == lower,
            lower < reply_value(&scorer, start, plies, moves@.take(i as int)) < beta ==> alpha
                == reply_value(&scorer, start, plies, moves@.take(i as int)),
            reply_value(&scorer, start, plies, moves@.take(i as int)) >= beta ==> alpha >= beta,
        decreases moves.len() - i,
    {
        let m: Move = moves[i];
        proof {
            assert(start.is_legal(moves@[i as int]));
            lemma_apply_revert(start, m);
            lemma_reply_step(&scorer, start, plies, moves@, i as int);
            lemma_game_value_unfold(start, wld, m);
        }
        let undo: u64 = board.make_move(m);
        let (result, nodes) = match guide {
            Some(eval) => guided_negamax(board, -beta, -alpha, wld, eval),
            None => endgame_negamax(board, -beta, -alpha, wld),
        };
        board.undo_move(undo, m);

        let result: i32 = -result;
        total_nodes = total_nodes.saturating_add(nodes);

        if result > alpha {
            alpha = result;
        }
        if alpha >= beta {
            cut = true;
        }
        i += 1;
    }
    proof {
        if i < moves.len() {
            lemma_reply_step(&scorer, start, plies, moves@, i as int);
        } else {
            assert(moves@.take(i as int) =~= moves@);
        }
        assert(window_result(lower as int, beta as int, value, alpha as int));
    }

    (alpha, total_nodes)
}

/// Tells whether the game is over, and generates the moves of the side to
/// move as a mask of squares. The moves of the other side are generated
/// only where the side to move has none.
fn own_moves_or_over(board: &Board) -> (r: (bool, u64))
    ensures
        r.0 == board.game_over(),
        r.1 == board.moves_mask(),
{
    let own_moves: u64 = if board.black_move {
        board.get_black_moves()
    } else {
        board.get_white_moves()
    };
    proof {
        lemma_over_by_moves(*board);
    }
    if own_moves == 0 {
        let other_moves: u64 = if board.black_move {
            board.get_white_moves()
        } else {
            board.get_black_moves()
        };
        (other_moves == 0, own_moves)
    } else {
        (false, own_moves)
    }
}

/// Searches the position to the end of the game within the window from
/// `alpha` to `beta`, and returns a score for the side to move and the
/// number of positions that were scored. With `wld` the score tells win,
/// draw and loss apart; without, it counts disks.
///
/// The moves are searched fastest first, in the order of the squares where
/// few moves and few empty squares are left. With one square empty the
/// disks are counted without a search.
pub fn endgame_negamax(board: &mut Board, alpha: i32, beta: i32, wld: bool) -> (r: (i32, u64))
    requires
        old(board).valid(),
        -MAX_SCORE <= alpha,
        -MAX_SCORE <= beta,
    ensures
        *final(board) == *old(board),
        -MAX_SCORE <= r.0 <= MAX_SCORE,
        r.1 >= 1,
        window_result(alpha as int, beta as int, game_value(*old(board), wld), r.0 as int),
        old(board).game_over() ==> r.0 == game_value(*old(board), wld) && r.1 == 1,
        !old(board).game_over() ==> r.0 >= alpha,
    decreases old(board).rank(), 1nat,
{
    if board.all_disks().count_zeros() == 1 {
        // The last square: the disks are counted without a search.
        let (value, over) = last_square(board, wld);
        return if over || value > alpha {
            (value, 1)
        } else {
            (alpha, 1)
        };
    }
    let (over, own_moves) = own_moves_or_over(board);
    if over {
        proof {
            lemma_apply_rank_floor(*board);
        }
        return (FinalScore { wld }.get_score(board), 1);
    }
    let legal: Vec<Move> = list_moves(own_moves);
    let move_count: u32 = own_moves.count_ones();
    let moves: Vec<Move> = if move_count > 4 || (move_count > 1 && board.all_disks().count_zeros()
        > 3) {
        order_fastest_first(board, &legal)
    } else {
        legal
    };
    proof {
        lemma_stable_sort(board.legal_moves(), reply_counts(*board, board.legal_moves()));
        lemma_legal_moves_members(*board, Move::Pass);
    }
    search_ordered::<FinalScore>(board, &moves, alpha, beta, wld, None)
}

/// Searches the position to the end of the game as `endgame_negamax` does,
/// but orders the moves by the evaluator `guide` while more than
/// `GUIDED_EMPTIES` squares are empty.
pub fn guided_negamax<E: Evaluator>(
    board: &mut Board,
    alpha: i32,
    beta: i32,
    wld: bool,
    guide: &E,
) -> (r: (i32, u64))
    requires
        old(board).valid(),
        -MAX_SCORE <= alpha,
        -MAX_SCORE <= beta,
    ensures
        *final(board) == *old(board),
        -MAX_SCORE <= r.0 <= MAX_SCORE,
        r.1 >= 1,
        window_result(alpha as int, beta as int, game_value(*old(board), wld), r.0 as int),
        old(board).game_over() ==> r.0 == game_value(*old(board), wld) && r.1 == 1,
        !old(board).game_over() ==> r.0 >= alpha,
    decreases old(board).rank(), 2nat,
{
    if board.all_disks().count_zeros() <= GUIDED_EMPTIES {
        return endgame_negamax(board, alpha, beta, wld);
    }
    let (over, own_moves) = own_moves_or_over(board);
    if over {
        proof {
            lemma_apply_rank_floor(*board);
        }
        return (FinalScore { wld }.get_score(board), 1);
    }
    let ghost start = *board;
    let legal: Vec<Move> = list_moves(own_moves);
    let moves: Vec<Move> = order_by_score(board, &legal, guide);
    proof {
        lemma_stable_sort(start.legal_moves(), static_keys(guide, start, start.legal_moves()));
        lemma_legal_moves_members(start, Move::Pass);
    }
    search_ordered(board, &moves, alpha, beta, wld, Some(guide))
}

/// Searches every move of `moves` at the root to the end of the game and
/// returns the value of the best, the first move that reached it, and the
/// number of positions that were scored. The search stops at the first move
/// that reaches the greatest value of a game.
#[verifier::rlimit(60)]
fn solve_ordered<E: Evaluator>(board: &mut Board, moves: &Vec<Move>, wld: bool, guide: Option<&E>)
    -> (r: (i32, Move, u64))
    requires
        old(board).valid(),
        moves.len() > 0,
        forall|m: Move| moves@.contains(m) <==> old(board).legal_moves().contains(m),
    ensures
        *final(board) == *old(board),
        r.0 == game_value(*old(board), wld),
        r.1 == moves@[best_index(
            &FinalScore { wld },
            *old(board),
            (old(board).rank() + 1) as nat,
            moves@,
        )],
        old(board).is_legal(r.1),
        game_value(old(board).apply(r.1), wld) == -r.0,
        r.2 >= 1,
{
    let scorer = FinalScore { wld };
    let ghost start = *board;
    let ghost plies = (start.rank() + 1) as nat;
    proof {
        lemma_apply_rank_floor(start);
        lemma_reply_members(&scorer, start, plies, moves@, start.legal_moves());
    }

    let beta: i32 = if wld {
        1
    } else {
        64
    };
    let mut best_score: i32 = -beta;
    let mut best_move: Move = moves[0];
    let mut total_nodes: u64 = 0;

    let mut cut: bool = false;
    let mut i: usize = 0;
    while i < moves.len() && !cut
        invariant
            i <= moves.len(),
            moves.len() > 0,
            *board == start,
            start.valid(),
            start.rank() >= 0,
            plies == start.rank() + 1,
            scorer.wld == wld,
            beta == value_limit(wld),
            -beta <= best_score <= beta,
            !cut ==> best_score < beta,
            forall|m: Move| moves@.contains(m) <==> start.legal_moves().contains(m),
            i == 0 ==> best_score == -beta && best_move == moves@[0] && !cut,
            i > 0 ==> total_nodes >= 1,
            i > 0 ==> best_score == reply_value(&scorer, start, plies, moves@.take(i as int)),
            i > 0 ==> best_move == moves@[best_index(&scorer, start, plies, moves@.take(i as int))],
            cut ==> best_score == beta,
        decreases moves.len() - i,
    {
        let m: Move = moves[i];
        proof {
            assert(moves@.contains(m));
            lemma_legal_moves_members(start, m);
            lemma_apply_revert(start, m);
            lemma_apply_valid(start, m);
            lemma_reply_step(&scorer, start, plies, moves@, i as int);
            lemma_value_range(&scorer, start.apply(m), (plies - 1) as nat);
            if i > 0 {
                lemma_reply_range(&scorer, start, plies, moves@.take(i as int));
            }
            lemma_solve_child(start, wld, m);
        }
        let undo: u64 = board.make_move(m);
        let (result, nodes) = match guide {
            Some(eval) => guided_negamax(board, -beta, -best_score, wld, eval),
            None => endgame_negamax(board, -beta, -best_score, wld),
        };
        board.undo_move(undo, m);

        total_nodes = total_nodes.saturating_add(nodes);

        let result: i32 = -result;

        if result >= beta {
            best_move = m;
            best_score = beta;
            cut = true;
        } else if result > best_score {
            best_move = m;
            best_score = result;
        }
        i += 1;
    }
    proof {
        lemma_reply_range(&scorer, start, plies, moves@);
        if i < moves.len() {
            lemma_solve_cut(&scorer, start, plies, moves@, i as int);
        } else {
            assert(moves@.take(i as int) =~= moves@);
        }
        let k = best_index(&scorer, start, plies, moves@);
        lemma_best_index_value(&scorer, start, plies, moves@);
        assert(moves@.contains(moves@[k]));
        lemma_legal_moves_members(start, moves@[k]);
        lemma_solve_child(start, wld, moves@[k]);
        lemma_solve_root(start, wld);
    }

    (best_score, best_move, total_nodes)
}

/// Solves the position: searches it to the end of the game, and returns
/// the value of the best move for the side to move, the best move, and a
/// report of the search. With `wld` the value tells win (1), draw (0) and
/// loss (-1) apart; without, it is the final difference in disks. Of
/// several best moves the first in fastest-first order is returned.
pub fn endgame_solve(board: &mut Board, wld: bool) -> (r: (i32, Move, SearchData))
    requires
        old(board).valid(),
    ensures
        *final(board) == *old(board),
        r.0 == game_value(*old(board), wld),
        r.1 == fastest_first(*old(board))[best_index(
            &FinalScore { wld },
            *old(board),
            (old(board).rank() + 1) as nat,
            fastest_first(*old(board)),
        )],
        old(board).is_legal(r.1),
        game_value(old(board).apply(r.1), wld) == -r.0,
        r.2.depth == old(board).empties(),
        r.2.nodes >= 1,
{
    let clock: Instant = Instant::now();

    let legal: Vec<Move> = board.get_moves();
    let moves: Vec<Move> = order_fastest_first(board, &legal);
    proof {
        lemma_stable_sort(board.legal_moves(), reply_counts(*board, board.legal_moves()));
        lemma_popcount_le_64(board.white_disks | board.black_disks);
    }
    let (best_score, best_move, total_nodes) = solve_ordered::<FinalScore>(board, &moves, wld, None);

    let time_taken: u32 = millis_since(&clock);
    let empties: u32 = board.all_disks().count_zeros();

    (best_score, best_move, SearchData { nodes: total_nodes, time: time_taken, depth: empties as u8 })
}

/// A solver that an evaluator guides: while more than `GUIDED_EMPTIES`
/// squares are empty it searches the moves in the order in which the
/// evaluator suggests them, from there on fastest first. The values that it
/// finds are those of `endgame_solve`.
pub struct EndgameSearcher<E: Evaluator> {
    eval: E,
    print: bool,
}

impl<E: Evaluator> EndgameSearcher<E> {
    /// The evaluator that orders the moves.
    pub closed spec fn guide(self) -> E {
        self.eval
    }

    /// Whether the solver wants its searches reported.
    pub closed spec fn prints(self) -> bool {
        self.print
    }

    /// The order in which the solver searches the moves of the position at
    /// the root.
    pub open spec fn root_order(self, b: Board) -> Seq<Move> {
        if b.empties() > GUIDED_EMPTIES {
            static_order(&self.guide(), b)
        } else {
            fastest_first(b)
        }
    }

    /// Creates a solver with the evaluator that guides it.
    pub fn new(eval: E, print: bool) -> (r: Self)
        ensures
            r.guide() == eval,
            r.prints() == print,
    {
        EndgameSearcher { eval, print }
    }

    /// Returns whether the solver wants its searches reported.
    pub fn print(&self) -> (r: bool)
        ensures
            r == self.prints(),
    {
        self.print
    }

    /// Solves the position: searches it to the end of the game, and returns
    /// the value of the best move for the side to move, the best move, and a
    /// report of the search. With `wld` the value tells win (1), draw (0)
    /// and loss (-1) apart; without, it is the final difference in disks. Of
    /// several best moves the first in the order of the root is returned.
    pub fn endgame_solve(&self, board: &mut Board, wld: bool) -> (r: (i32, Move, SearchData))
        requires
            old(board).valid(),
        ensures
            *final(board) == *old(board),
            r.0 == game_value(*old(board), wld),
            r.1 == self.root_order(*old(board))[best_index(
                &FinalScore { wld },
                *old(board),
                (old(board).rank() + 1) as nat,
                self.root_order(*old(board)),
            )],
            old(board).is_legal(r.1),
            game_value(old(board).apply(r.1), wld) == -r.0,
            r.2.depth == old(board).empties(),
            r.2.nodes >= 1,
    {
        let clock: Instant = Instant::now();
        let ghost start = *board;

        let legal: Vec<Move> = board.get_moves();
        proof {
            lemma_popcount_le_64(board.white_disks | board.black_disks);
        }
        let moves: Vec<Move> = if board.all_disks().count_zeros() > GUIDED_EMPTIES {
            let sorted: Vec<Move> = order_by_score(board, &legal, &self.eval);
            proof {
                lemma_stable_sort(
                    start.legal_moves(),
                    static_keys(&self.eval, start, start.legal_moves()),
                );
            }
            sorted
        } else {
            let sorted: Vec<Move> = order_fastest_first(board, &legal);
            proof {
                lemma_stable_sort(start.legal_moves(), reply_counts(start, start.legal_moves()));
            }
            sorted
        };
        let (best_score, best_move, total_nodes) = solve_ordered(
            board,
            &moves,
            wld,
            Some(&self.eval),
        );

        let time_taken: u32 = millis_since(&clock);
        let empties: u32 = board.all_disks().count_zeros();

        (
            best_score,
            best_move,
            SearchData { nodes: total_nodes, time: time_taken, depth: empties as u8 },
        )
    }
}

/// The value that the root of the solver searches for a move: the game
/// value of the position after it, whether or not the game is over.
proof fn lemma_solve_child(b: Board, wld: bool, m: Move)
    requires
        b.valid(),
        b.is_legal(m),
    ensures
        move_value(&FinalScore { wld }, b, (b.rank() + 1) as nat, m) == -game_value(
            b.apply(m),
            wld,
        ),
{
    let scorer = FinalScore { wld };
    lemma_apply_valid(b, m);
    lemma_apply_rank_floor(b);
    lemma_apply_rank_floor(b.apply(m));
    if !b.game_over() {
        lemma_game_value_unfold(b, wld, m);
    } else {
        // The game is over: so it is after the move, which is a pass or
        // changes nothing that the end of the game depends on.
        lemma_over_stays_over(b, m);
    }
}

/// A move in a finished game leaves the game finished.
proof fn lemma_over_stays_over(b: Board, m: Move)
    requires
        b.valid(),
        b.game_over(),
        b.is_legal(m),
    ensures
        m == Move::Pass,
        b.apply(m).game_over(),
{
    lemma_over_by_moves(b);
    lemma_over_by_moves(b.apply(Move::Pass));
    match m {
        Move::Play(square) => {
            lemma_mask_basics(crate::board::bitboard::square_mask(square as u64), 0);
        },
        Move::Pass => {},
    }
}

/// The game is over where neither side has a move: a side without a disk
/// has none, nor has the other side then.
pub proof fn lemma_over_by_moves(b: Board)
    ensures
        b.game_over() <==> b.white_moves() == 0 && b.black_moves() == 0,
{
    lemma_no_moves_when_over(b.black_disks, b.white_disks);
    lemma_no_moves_when_over(b.white_disks, b.black_disks);
    lemma_mask_basics(b.white_moves(), b.black_moves());
}

/// A side without a disk has no move, nor has the side that faces it.
proof fn lemma_no_moves_when_over(p: u64, o: u64)
    by (bit_vector)
    ensures
        p == 0 ==> crate::board::bitboard::all_moves_spec(p, o) == 0,
        o == 0 ==> crate::board::bitboard::all_moves_spec(p, o) == 0,
{
}

/// What the root of the solver returns is the game value of the position.
proof fn lemma_solve_root(b: Board, wld: bool)
    requires
        b.valid(),
    ensures
        reply_value(&FinalScore { wld }, b, (b.rank() + 1) as nat, b.legal_moves()) == game_value(
            b,
            wld,
        ),
{
    let scorer = FinalScore { wld };
    let plies = (b.rank() + 1) as nat;
    lemma_apply_rank_floor(b);
    if b.game_over() {
        lemma_over_by_moves(b);
        let moves = b.legal_moves();
        assert(moves =~= seq![Move::Pass]);
        assert(moves.drop_last() =~= Seq::<Move>::empty());
        assert(moves.last() == Move::Pass);
        lemma_over_stays_over(b, Move::Pass);
        lemma_popcount_le_64(b.black_disks);
        lemma_popcount_le_64(b.white_disks);
        lemma_value_range(&scorer, b.apply(Move::Pass), (plies - 1) as nat);
        lemma_reply_bounds(&scorer, b, plies, moves.drop_last());
        assert(reply_value(&scorer, b, plies, moves) == -node_value(
            &scorer,
            b.apply(Move::Pass),
            (plies - 1) as nat,
        ));
    }
}

/// Once a move reaches the greatest value of a game, no move is better.
proof fn lemma_solve_cut(eval: &FinalScore, b: Board, depth: nat, moves: Seq<Move>, i: int)
    requires
        depth > 0,
        0 < i <= moves.len(),
        reply_value(eval, b, depth, moves.take(i)) == value_limit(eval.wld),
    ensures
        reply_value(eval, b, depth, moves) == value_limit(eval.wld),
        best_index(eval, b, depth, moves) == best_index(eval, b, depth, moves.take(i)),
    decreases moves.len() - i,
{
    if i < moves.len() {
        lemma_reply_step(eval, b, depth, moves, i);
        lemma_value_range(eval, b.apply(moves[i]), (depth - 1) as nat);
        lemma_solve_cut(eval, b, depth, moves, i + 1);
    } else {
        assert(moves.take(i) =~= moves);
    }
}

} // verus!
