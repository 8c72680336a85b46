//! Static evaluation of positions.

use vstd::prelude::*;
use crate::board::{Board, Move};

pub mod pattern;
pub use self::pattern::PatternEvaluator;
pub mod pattern_util;
pub mod piecesquare;
pub use self::piecesquare::PieceSquareEvaluator;
pub mod staged;
pub use self::staged::StagedEvaluator;

verus! {

/// The greatest score, and the negation of the least: scores are negated
/// from ply to ply, so the least 32-bit integer is no score.
pub const MAX_SCORE: i32 = 0x7FFF_FFFF;

/// A static evaluator: it scores a position from the point of view of the
/// side to move, higher for a better position.
pub trait Evaluator {
    /// The score of the position `board`.
    spec fn score(&self, board: Board) -> int;

    /// Every score lies between the bounds of a score.
    proof fn lemma_score_bounds(&self, board: Board)
        ensures
            -MAX_SCORE <= self.score(board) <= MAX_SCORE,
    ;

    /// Scores the position from the point of view of the side to move.
    fn get_score(&self, board: &Board) -> (r: i32)
        ensures
            r == self.score(*board),
            -MAX_SCORE <= r <= MAX_SCORE,
    ;

    /// Scores the move `mv` for ordering: the negated score of the position
    /// to which it leads. The board is left as it was where the move can be
    /// taken back.
    fn move_order_score(&self, board: &mut Board, mv: Move) -> (r: i32)
        requires
            mv.wf(),
        ensures
            r == -self.score(old(board).apply(mv)),
            -MAX_SCORE <= r <= MAX_SCORE,
            *final(board) == old(board).apply(mv).revert(old(board).undo_token(mv), mv),
    {
        let undo = board.make_move(mv);
        let score = -self.get_score(board);
        board.undo_move(undo, mv);

        score
    }
}

} // verus!
