//! An evaluator that weighs the disks by the class of their squares.
//!
//! The board is divided into ten classes of squares, alike under the
//! symmetries of the board:
//!
//! ```text
//!     A B C D D C B A
//!     B E F G G F E B
//!     C F H I I H F C
//!     D G I J J I G D
//!     D G I J J I G D
//!     C F H I I H F C
//!     B E F G G F E B
//!     A B C D D C B A
//! ```

use vstd::prelude::*;
use crate::bits::{popcount, lemma_popcount_le_64, lemma_popcount_disjoint};
use crate::board::Board;
use crate::search::eval::{Evaluator, MAX_SCORE};

verus! {

/// The squares of the class with index `class`.
pub open spec fn class_mask(class: int) -> u64 {
    if class == 0 {
        0x81_00_00_00_00_00_00_81
    } else if class == 1 {
        0x42_81_00_00_00_00_81_42
    } else if class == 2 {
        0x24_00_81_00_00_81_00_24
    } else if class == 3 {
        0x18_00_00_81_81_00_00_18
    } else if class == 4 {
        0x00_42_00_00_00_00_42_00
    } else if class == 5 {
        0x00_24_42_00_00_42_24_00
    } else if class == 6 {
        0x00_18_00_42_42_00_18_00
    } else if class == 7 {
        0x00_00_24_00_00_24_00_00
    } else if class == 8 {
        0x00_00_18_24_24_18_00_00
    } else {
        0x00_00_00_18_18_00_00_00
    }
}

/// The squares of a class.
fn piece_square_mask(class: usize) -> (r: u64)
    ensures
        r == class_mask(class as int),
{
    if class == 0 {
        0x81_00_00_00_00_00_00_81
    } else if class == 1 {
        0x42_81_00_00_00_00_81_42
    } else if class == 2 {
        0x24_00_81_00_00_81_00_24
    } else if class == 3 {
        0x18_00_00_81_81_00_00_18
    } else if class == 4 {
        0x00_42_00_00_00_00_42_00
    } else if class == 5 {
        0x00_24_42_00_00_42_24_00
    } else if class == 6 {
        0x00_18_00_42_42_00_18_00
    } else if class == 7 {
        0x00_00_24_00_00_24_00_00
    } else if class == 8 {
        0x00_00_18_24_24_18_00_00
    } else {
        0x00_00_00_18_18_00_00_00
    }
}

/// The disks on the squares of the first `n` classes, each counted with the
/// weight of its class.
pub open spec fn weighted_disks(disks: u64, table: Seq<i32>, n: int) -> int
    decreases n,
{
    if n <= 0 {
        0
    } else {
        weighted_disks(disks, table, n - 1) + popcount(disks & class_mask(n - 1)) * table[n - 1]
    }
}

/// A score cut off at the bounds of a score.
pub open spec fn clamp_score(score: int) -> int {
    if score > MAX_SCORE {
        MAX_SCORE as int
    } else if score < -MAX_SCORE {
        -MAX_SCORE as int
    } else {
        score
    }
}

/// An evaluator with one weight for each of the ten classes of squares.
#[derive(Clone, Copy, Debug)]
pub struct PieceSquareEvaluator {
    square_table: [i32; 10],
}

impl PieceSquareEvaluator {
    /// The weights of the ten classes.
    pub closed spec fn table(&self) -> Seq<i32> {
        self.square_table@
    }

    /// The weighted disks of the side to move minus those of the other side,
    /// before it is cut off at the bounds of a score.
    pub open spec fn balance(&self, board: Board) -> int {
        let black = weighted_disks(board.black_disks, self.table(), 10);
        let white = weighted_disks(board.white_disks, self.table(), 10);
        if board.black_move {
            black - white
        } else {
            white - black
        }
    }

    /// Creates an evaluator with the usual weights: corners count most, the
    /// squares next to them count against their owner.
    pub fn new() -> (r: Self)
        ensures
            r.table() == seq![64i32, -30i32, 10i32, 5i32, -40i32, 2i32, 2i32, 5i32, 1i32, 1i32],
    {
        let r = PieceSquareEvaluator { square_table: [64, -30, 10, 5, -40, 2, 2, 5, 1, 1] };
        assert(r.square_table@ =~= seq![
            64i32,
            -30i32,
            10i32,
            5i32,
            -40i32,
            2i32,
            2i32,
            5i32,
            1i32,
            1i32,
        ]);
        r
    }

    /// Creates an evaluator with the given weights.
    pub fn from(square_table: [i32; 10]) -> (r: PieceSquareEvaluator)
        ensures
            r.table() == square_table@,
    {
        PieceSquareEvaluator { square_table }
    }

    /// Adds up the disks of a mask, each with the weight of its class.
    fn weigh(&self, disks: u64) -> (r: i64)
        ensures
            r == weighted_disks(disks, self.table(), 10),
            -0x200_0000_0000 <= r <= 0x200_0000_0000,
    {
        let mut sum: i64 = 0;
        let mut class: usize = 0;
        while class < 10
            invariant
                class <= 10,
                sum == weighted_disks(disks, self.table(), class as int),
                -0x20_0000_0000 * class <= sum <= 0x20_0000_0000 * class,
            decreases 10 - class,
        {
            let count: i64 = (disks & piece_square_mask(class)).count_ones() as i64;
            let weight: i64 = self.square_table[class] as i64;
            proof {
                lemma_popcount_le_64(disks & class_mask(class as int));
                assert(-0x20_0000_0000 <= count * weight <= 0x20_0000_0000) by (nonlinear_arith)
                    requires
                        0 <= count <= 64,
                        -0x8000_0000 <= weight <= 0x7FFF_FFFF,
                ;
            }
            sum = sum + count * weight;
            class += 1;
        }
        sum
    }
}

impl Evaluator for PieceSquareEvaluator {
    /// The weighted disks of the side to move minus those of the other side,
    /// cut off at the bounds of a score.
    open spec fn score(&self, board: Board) -> int {
        clamp_score(self.balance(board))
    }

    proof fn lemma_score_bounds(&self, board: Board) {
    }

    fn get_score(&self, board: &Board) -> (r: i32) {
        let black_score: i64 = self.weigh(board.black_disks);
        let white_score: i64 = self.weigh(board.white_disks);

        let balance: i64 = if board.black_move {
            black_score - white_score
        } else {
            white_score - black_score
        };
        if balance > MAX_SCORE as i64 {
            MAX_SCORE
        } else if balance < -(MAX_SCORE as i64) {
            -MAX_SCORE
        } else {
            balance as i32
        }
    }
}

/// The ten classes divide the board: each takes its squares from what the
/// classes before it have left, and together they take all.
proof fn lemma_classes_partition(x: u64)
    by (bit_vector)
    ensures
        (x & 0x81_00_00_00_00_00_00_81u64) & (x & 0x42_81_00_00_00_00_81_42u64) == 0,
        (x & 0x81_00_00_00_00_00_00_81u64) | (x & 0x42_81_00_00_00_00_81_42u64) == x
            & 0xC3_81_00_00_00_00_81_C3u64,
        (x & 0xC3_81_00_00_00_00_81_C3u64) & (x & 0x24_00_81_00_00_81_00_24u64) == 0,
        (x & 0xC3_81_00_00_00_00_81_C3u64) | (x & 0x24_00_81_00_00_81_00_24u64) == x
            & 0xE7_81_81_00_00_81_81_E7u64,
        (x & 0xE7_81_81_00_00_81_81_E7u64) & (x & 0x18_00_00_81_81_00_00_18u64) == 0,
        (x & 0xE7_81_81_00_00_81_81_E7u64) | (x & 0x18_00_00_81_81_00_00_18u64) == x
            & 0xFF_81_81_81_81_81_81_FFu64,
        (x & 0xFF_81_81_81_81_81_81_FFu64) & (x & 0x00_42_00_00_00_00_42_00u64) == 0,
        (x & 0xFF_81_81_81_81_81_81_FFu64) | (x & 0x00_42_00_00_00_00_42_00u64) == x
            & 0xFF_C3_81_81_81_81_C3_FFu64,
        (x & 0xFF_C3_81_81_81_81_C3_FFu64) & (x & 0x00_24_42_00_00_42_24_00u64) == 0,
        (x & 0xFF_C3_81_81_81_81_C3_FFu64) | (x & 0x00_24_42_00_00_42_24_00u64) == x
            & 0xFF_E7_C3_81_81_C3_E7_FFu64,
        (x & 0xFF_E7_C3_81_81_C3_E7_FFu64) & (x & 0x00_18_00_42_42_00_18_00u64) == 0,
        (x & 0xFF_E7_C3_81_81_C3_E7_FFu64) | (x & 0x00_18_00_42_42_00_18_00u64) == x
            & 0xFF_FF_C3_C3_C3_C3_FF_FFu64,
        (x & 0xFF_FF_C3_C3_C3_C3_FF_FFu64) & (x & 0x00_00_24_00_00_24_00_00u64) == 0,
        (x & 0xFF_FF_C3_C3_C3_C3_FF_FFu64) | (x & 0x00_00_24_00_00_24_00_00u64) == x
            & 0xFF_FF_E7_C3_C3_E7_FF_FFu64,
        (x & 0xFF_FF_E7_C3_C3_E7_FF_FFu64) & (x & 0x00_00_18_24_24_18_00_00u64) == 0,
        (x & 0xFF_FF_E7_C3_C3_E7_FF_FFu64) | (x & 0x00_00_18_24_24_18_00_00u64) == x
            & 0xFF_FF_FF_E7_E7_FF_FF_FFu64,
        (x & 0xFF_FF_FF_E7_E7_FF_FF_FFu64) & (x & 0x00_00_00_18_18_00_00_00u64) == 0,
        (x & 0xFF_FF_FF_E7_E7_FF_FF_FFu64) | (x & 0x00_00_00_18_18_00_00_00u64) == x,
{
}

/// With the weight one for every class, the weighted disks are the disks.
pub proof fn lemma_unit_weights_count(disks: u64, table: Seq<i32>)
    requires
        table.len() == 10,
        forall|i: int| 0 <= i < 10 ==> table[i] == 1,
    ensures
        weighted_disks(disks, table, 10) == popcount(disks),
{
    let x = disks;
    lemma_classes_partition(x);
    lemma_popcount_disjoint(x & 0x81_00_00_00_00_00_00_81u64, x & 0x42_81_00_00_00_00_81_42u64);
    lemma_popcount_disjoint(x & 0xC3_81_00_00_00_00_81_C3u64, x & 0x24_00_81_00_00_81_00_24u64);
    lemma_popcount_disjoint(x & 0xE7_81_81_00_00_81_81_E7u64, x & 0x18_00_00_81_81_00_00_18u64);
    lemma_popcount_disjoint(x & 0xFF_81_81_81_81_81_81_FFu64, x & 0x00_42_00_00_00_00_42_00u64);
    lemma_popcount_disjoint(x & 0xFF_C3_81_81_81_81_C3_FFu64, x & 0x00_24_42_00_00_42_24_00u64);
    lemma_popcount_disjoint(x & 0xFF_E7_C3_81_81_C3_E7_FFu64, x & 0x00_18_00_42_42_00_18_00u64);
    lemma_popcount_disjoint(x & 0xFF_FF_C3_C3_C3_C3_FF_FFu64, x & 0x00_00_24_00_00_24_00_00u64);
    lemma_popcount_disjoint(x & 0xFF_FF_E7_C3_C3_E7_FF_FFu64, x & 0x00_00_18_24_24_18_00_00u64);
    lemma_popcount_disjoint(x & 0xFF_FF_FF_E7_E7_FF_FF_FFu64, x & 0x00_00_00_18_18_00_00_00u64);
    reveal_with_fuel(weighted_disks, 11);
}

/// With the weight one for every class, the score is the number of disks of
/// the side to move minus the number of disks of the other side.
pub proof fn lemma_unit_weights_score(eval: &PieceSquareEvaluator, board: Board)
    requires
        eval.table().len() == 10,
        forall|i: int| 0 <= i < 10 ==> eval.table()[i] == 1,
    ensures
        eval.score(board) == if board.black_move {
            board.disk_difference()
        } else {
            -board.disk_difference()
        },
{
    lemma_unit_weights_count(board.black_disks, eval.table());
    lemma_unit_weights_count(board.white_disks, eval.table());
    lemma_popcount_le_64(board.black_disks);
    lemma_popcount_le_64(board.white_disks);
}

} // verus!
