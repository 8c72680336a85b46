//! The pattern evaluator: a position is scored by the weights of what it
//! shows under each of a set of patterns, in each of its four rotations.
//!
//! The weights are fixed-point numbers, `WEIGHT_UNIT` to one. The sum of
//! the weights, with a bias that depends on whether the number of empty
//! squares is even or odd, is the score in favour of black; a hundred times
//! its whole part is the score of the evaluator.

use vstd::prelude::*;
use crate::bits::popcount;
use crate::board::Board;
use crate::search::eval::{Evaluator, MAX_SCORE};
use crate::search::eval::piecesquare::clamp_score;
use crate::search::eval::pattern_util::{
    pattern_index, rotate, rotate_spec, rotate_board, rotation_indices_spec, table_len, table_size,
    fits_pattern, odd_empties, lemma_rotate_apart, lemma_rotate_union, lemma_rotate_popcount,
    MAX_PATTERN_SQUARES,
};

verus! {

/// The fixed-point number that stands for one.
pub const WEIGHT_UNIT: i64 = 65536;

/// The greatest number of patterns of an evaluator.
pub const MAX_PATTERNS: usize = 0x10_0000;

/// A sum of weights as a score: a hundred times the sum, in whole units,
/// cut off towards zero.
pub open spec fn scaled(sum: int) -> int {
    if sum >= 0 {
        sum * 100 / (WEIGHT_UNIT as int)
    } else {
        -((-sum) * 100 / (WEIGHT_UNIT as int))
    }
}

/// The number of weights of the first `n` patterns together.
pub open spec fn total_len(masks: Seq<u64>, n: int) -> int
    decreases n,
{
    if n <= 0 {
        0
    } else {
        total_len(masks, n - 1) + table_len(masks[n - 1])
    }
}

/// Whether the tables fit the patterns: there is a table for each pattern,
/// no pattern has too many squares, each table has a weight for each index
/// of its pattern, and all weights together can be counted.
pub open spec fn tables_fit(masks: Seq<u64>, tables: Seq<Seq<i32>>) -> bool {
    &&& masks.len() == tables.len()
    &&& masks.len() <= MAX_PATTERNS
    &&& forall|i: int| 0 <= i < masks.len() ==> popcount(#[trigger] masks[i]) <= MAX_PATTERN_SQUARES
    &&& forall|i: int| 0 <= i < masks.len() ==> (#[trigger] tables[i]).len() == table_len(masks[i])
    &&& total_len(masks, masks.len() as int) <= usize::MAX
}

/// Weights after the steps of an update: from each of the weights at the
/// places `touches`, in turn, `step` is taken, without leaving the range of
/// a weight.
pub open spec fn stepped(weights: Seq<i32>, touches: Seq<int>, step: i32) -> Seq<i32>
    decreases touches.len(),
{
    if touches.len() == 0 {
        weights
    } else {
        let before = stepped(weights, touches.drop_last(), step);
        let place = touches.last();
        if 0 <= place < before.len() {
            before.update(place, less(before[place], step))
        } else {
            before
        }
    }
}

/// A weight less a step, kept within the range of a weight.
pub open spec fn less(weight: i32, step: i32) -> i32 {
    if weight - step > i32::MAX {
        i32::MAX
    } else if weight - step < i32::MIN {
        i32::MIN
    } else {
        (weight - step) as i32
    }
}

/// Takes a step from a weight, keeping it within the range of a weight.
fn take_step(weight: i32, step: i32) -> (r: i32)
    ensures
        r == less(weight, step),
{
    let moved: i64 = weight as i64 - step as i64;
    if moved > i32::MAX as i64 {
        i32::MAX
    } else if moved < i32::MIN as i64 {
        i32::MIN
    } else {
        moved as i32
    }
}

/// An evaluator of patterns with their tables of weights.
pub struct PatternEvaluator {
    masks: Vec<u64>,
    offsets: Vec<usize>,
    weights: Vec<i32>,
    parity_e: i32,
    parity_o: i32,
}

impl PatternEvaluator {
    #[verifier::type_invariant]
    spec fn wf(self) -> bool {
        &&& self.masks.len() <= MAX_PATTERNS
        &&& self.offsets.len() == self.masks.len() + 1
        &&& forall|i: int|
            0 <= i <= self.masks.len() ==> #[trigger] self.offsets@[i] == total_len(self.masks@, i)
        &&& forall|i: int|
            0 <= i < self.masks.len() ==> popcount(#[trigger] self.masks@[i])
                <= MAX_PATTERN_SQUARES
        &&& self.weights.len() == total_len(self.masks@, self.masks.len() as int)
    }

    /// The patterns.
    pub closed spec fn patterns(self) -> Seq<u64> {
        self.masks@
    }

    /// All the weights, table after table.
    pub closed spec fn all_weights(self) -> Seq<i32> {
        self.weights@
    }

    /// The place among all the weights at which the table of pattern `i`
    /// starts.
    pub open spec fn table_start(self, i: int) -> int {
        total_len(self.patterns(), i)
    }

    /// The weight of pattern `i` at `index`.
    pub open spec fn weight(self, i: int, index: int) -> int {
        self.all_weights()[self.table_start(i) + index] as int
    }

    /// The table of weights of pattern `i`.
    pub open spec fn table(self, i: int) -> Seq<i32> {
        self.all_weights().subrange(self.table_start(i), self.table_start(i + 1))
    }

    /// The bias for positions with an even number of empty squares.
    pub closed spec fn parity_even(self) -> i32 {
        self.parity_e
    }

    /// The bias for positions with an odd number of empty squares.
    pub closed spec fn parity_odd(self) -> i32 {
        self.parity_o
    }

    /// The bias of the position: by whether the number of its empty
    /// squares is even or odd.
    pub open spec fn bias(self, b: Board) -> int {
        if b.empties() % 2 == 1 {
            self.parity_odd() as int
        } else {
            self.parity_even() as int
        }
    }

    /// The weights of pattern `i` for the four rotations of the position,
    /// added up.
    pub open spec fn pattern_sum(self, b: Board, i: int) -> int {
        let indices = rotation_indices_spec(b.black_disks, b.white_disks, self.patterns()[i]);
        self.weight(i, indices[0]) + self.weight(i, indices[1]) + self.weight(i, indices[2])
            + self.weight(i, indices[3])
    }

    /// The weights of the first `n` patterns for the position, added up.
    pub open spec fn patterns_sum(self, b: Board, n: int) -> int
        decreases n,
    {
        if n <= 0 {
            0
        } else {
            self.patterns_sum(b, n - 1) + self.pattern_sum(b, n - 1)
        }
    }

    /// The sum of bias and weights for the position: its worth to black, in
    /// fixed point.
    pub open spec fn black_sum(self, b: Board) -> int {
        self.bias(b) + self.patterns_sum(b, self.patterns().len() as int)
    }

    /// The places among all the weights that the position touches in the
    /// first `n` patterns: for each pattern in turn, those of its four
    /// rotations.
    pub open spec fn touches(self, b: Board, n: int) -> Seq<int>
        decreases n,
    {
        if n <= 0 {
            Seq::empty()
        } else {
            let indices = rotation_indices_spec(
                b.black_disks,
                b.white_disks,
                self.patterns()[n - 1],
            );
            let start = self.table_start(n - 1);
            self.touches(b, n - 1) + seq![
                start + indices[0],
                start + indices[1],
                start + indices[2],
                start + indices[3],
            ]
        }
    }

    /// Creates an evaluator without patterns: it scores every position by
    /// its bias, which is zero.
    pub fn new() -> (r: Self)
        ensures
            r.patterns().len() == 0,
            r.parity_even() == 0,
            r.parity_odd() == 0,
    {
        let mut offsets: Vec<usize> = Vec::new();
        offsets.push(0);
        PatternEvaluator {
            masks: Vec::new(),
            offsets,
            weights: Vec::new(),
            parity_e: 0,
            parity_o: 0,
        }
    }

    /// Creates an evaluator of the patterns `masks` with their tables of
    /// weights and the two biases. Returns `None` if the tables do not fit
    /// the patterns.
    pub fn from(masks: Vec<u64>, weights: Vec<Vec<i32>>, parity_e: i32, parity_o: i32) -> (r:
        Option<PatternEvaluator>)
        ensures
            r is Some <==> tables_fit(masks@, Seq::new(weights@.len(), |i: int| weights@[i]@)),
            r matches Some(eval) ==> {
                &&& eval.patterns() == masks@
                &&& eval.parity_even() == parity_e
                &&& eval.parity_odd() == parity_o
                &&& forall|i: int| 0 <= i < masks.len() ==> eval.table(i) == weights@[i]@
            },
    {
        let ghost tables = Seq::new(weights@.len(), |i: int| weights@[i]@);
        if masks.len() != weights.len() || masks.len() > MAX_PATTERNS {
            return None;
        }
        let mut offsets: Vec<usize> = Vec::new();
        let mut flat: Vec<i32> = Vec::new();
        offsets.push(0);

        let mut i: usize = 0;
        while i < masks.len()
            invariant
                i <= masks.len(),
                masks.len() == weights.len(),
                masks.len() <= MAX_PATTERNS,
                tables == Seq::new(weights@.len(), |i: int| weights@[i]@),
                offsets.len() == i + 1,
                flat.len() == total_len(masks@, i as int),
                forall|j: int| 0 <= j <= i ==> #[trigger] offsets@[j] == total_len(masks@, j),
                forall|j: int| 0 <= j < i ==> popcount(#[trigger] masks@[j]) <= MAX_PATTERN_SQUARES,
                forall|j: int| 0 <= j < i ==> (#[trigger] tables[j]).len() == table_len(masks@[j]),
                forall|j: int|
                    0 <= j < i ==> flat@.subrange(total_len(masks@, j), total_len(masks@, j + 1))
                        == #[trigger] tables[j],
            decreases masks.len() - i,
        {
            let mask: u64 = masks[i];
            if !fits_pattern(mask) {
                assert(!(popcount(masks@[i as int]) <= MAX_PATTERN_SQUARES));
                return None;
            }
            let size: usize = table_size(mask);
            if weights[i].len() != size {
                assert(tables[i as int].len() != table_len(masks@[i as int]));
                return None;
            }
            if size > usize::MAX - flat.len() {
                proof {
                    lemma_total_grows(masks@, i + 1, masks.len() as int);
                }
                return None;
            }
            let ghost before = flat@;
            let mut j: usize = 0;
            while j < size
                invariant
                    j <= size,
                    i < weights.len(),
                    weights[i as int].len() == size,
                    flat.len() == before.len() + j,
                    before.len() + size <= usize::MAX,
                    flat@ == before + weights@[i as int]@.take(j as int),
                decreases size - j,
            {
                flat.push(weights[i][j]);
                assert(weights@[i as int]@.take(j + 1) =~= weights@[i as int]@.take(j as int).push(
                    weights@[i as int]@[j as int],
                ));
                j += 1;
            }
            proof {
                assert(weights@[i as int]@.take(size as int) =~= weights@[i as int]@);
                assert(flat@.subrange(total_len(masks@, i as int), total_len(masks@, i + 1))
                    =~= tables[i as int]);
                assert forall|k: int| 0 <= k < i implies flat@.subrange(
                    total_len(masks@, k),
                    total_len(masks@, k + 1),
                ) == #[trigger] tables[k] by {
                    lemma_total_grows(masks@, k + 1, i as int);
                    lemma_total_grows(masks@, k, k + 1);
                    assert(flat@.subrange(total_len(masks@, k), total_len(masks@, k + 1))
                        =~= before.subrange(total_len(masks@, k), total_len(masks@, k + 1)));
                }
            }
            offsets.push(flat.len());
            i += 1;
        }
        let ghost patterns = masks@;
        let eval = PatternEvaluator { masks, offsets, weights: flat, parity_e, parity_o };
        proof {
            assert forall|k: int| 0 <= k < patterns.len() implies eval.table(k) == weights@[k]@ by {
                assert(tables[k] == weights@[k]@);
                assert(eval.table(k) == eval.weights@.subrange(
                    total_len(patterns, k),
                    total_len(patterns, k + 1),
                ));
            }
        }
        Some(eval)
    }

    /// Returns the number of patterns.
    pub fn pattern_count(&self) -> (r: usize)
        ensures
            r == self.patterns().len(),
    {
        self.masks.len()
    }

    /// Returns the pattern at place `i`.
    pub fn pattern(&self, i: usize) -> (r: u64)
        requires
            i < self.patterns().len(),
        ensures
            r == self.patterns()[i as int],
            popcount(r) <= MAX_PATTERN_SQUARES,
    {
        proof {
            use_type_invariant(self);
        }
        self.masks[i]
    }

    /// Returns the table of weights of the pattern at place `i`.
    pub fn weights_of(&self, i: usize) -> (r: Vec<i32>)
        requires
            i < self.patterns().len(),
        ensures
            r@ == self.table(i as int),
    {
        proof {
            use_type_invariant(self);
            lemma_total_grows(self.masks@, i + 1, self.masks.len() as int);
            lemma_total_grows(self.masks@, i as int, i + 1);
        }
        let start: usize = self.offsets[i];
        let end: usize = self.offsets[i + 1];
        let mut out: Vec<i32> = Vec::new();
        let mut j: usize = start;
        while j < end
            invariant
                start <= j <= end <= self.weights.len(),
                out@ == self.weights@.subrange(start as int, j as int),
            decreases end - j,
        {
            out.push(self.weights[j]);
            assert(self.weights@.subrange(start as int, j + 1) =~= self.weights@.subrange(
                start as int,
                j as int,
            ).push(self.weights@[j as int]));
            j += 1;
        }
        out
    }

    /// Returns the two biases: for an even and for an odd number of empty
    /// squares.
    pub fn parities(&self) -> (r: (i32, i32))
        ensures
            r.0 == self.parity_even(),
            r.1 == self.parity_odd(),
    {
        (self.parity_e, self.parity_o)
    }

    /// Computes the sum of bias and weights for a position in which no
    /// square holds a disk of both sides: its worth to black, in fixed
    /// point.
    pub fn get_black_sum(&self, board: &Board) -> (r: i64)
        requires
            board.valid(),
        ensures
            r == self.black_sum(*board),
            -0x40_0000_0000_0000 <= r <= 0x40_0000_0000_0000,
    {
        proof {
            use_type_invariant(self);
        }
        let black_0: u64 = board.black_disks;
        let white_0: u64 = board.white_disks;
        let black_1: u64 = rotate(black_0);
        let white_1: u64 = rotate(white_0);
        let black_2: u64 = rotate(black_1);
        let white_2: u64 = rotate(white_1);
        let black_3: u64 = rotate(black_2);
        let white_3: u64 = rotate(white_2);
        proof {
            lemma_rotate_apart(black_0, white_0);
            lemma_rotate_apart(black_1, white_1);
            lemma_rotate_apart(black_2, white_2);
        }

        let mut sum: i64 = if odd_empties(board) {
            self.parity_o as i64
        } else {
            self.parity_e as i64
        };
        let ghost bias = sum as int;

        let mut i: usize = 0;
        while i < self.masks.len()
            invariant
                i <= self.masks.len(),
                self.wf(),
                board.valid(),
                black_0 == board.black_disks,
                white_0 == board.white_disks,
                black_1 == rotate_spec(black_0),
                white_1 == rotate_spec(white_0),
                black_2 == rotate_spec(black_1),
                white_2 == rotate_spec(white_1),
                black_3 == rotate_spec(black_2),
                white_3 == rotate_spec(white_2),
                black_0 & white_0 == 0,
                black_1 & white_1 == 0,
                black_2 & white_2 == 0,
                black_3 & white_3 == 0,
                bias == self.bias(*board),
                sum == bias + self.patterns_sum(*board, i as int),
                -0x8000_0000 * (4 * i + 1) <= sum <= 0x8000_0000 * (4 * i + 1),
            decreases self.masks.len() - i,
        {
            let mask: u64 = self.masks[i];
            let start: usize = self.offsets[i];
            proof {
                assert(popcount(self.masks@[i as int]) <= MAX_PATTERN_SQUARES);
                assert(self.offsets@[i as int] == total_len(self.masks@, i as int));
                lemma_total_grows(self.masks@, i + 1, self.masks.len() as int);
            }
            let index_0: usize = pattern_index(black_0, white_0, mask);
            let index_1: usize = pattern_index(black_1, white_1, mask);
            let index_2: usize = pattern_index(black_2, white_2, mask);
            let index_3: usize = pattern_index(black_3, white_3, mask);
            sum = sum + self.weights[start + index_0] as i64 + self.weights[start + index_1] as i64
                + self.weights[start + index_2] as i64 + self.weights[start + index_3] as i64;
            i += 1;
        }
        sum
    }

    /// Takes `step` from the bias of the position and from each weight that
    /// the position touches: for each pattern, the weights of its four
    /// rotations. A weight that two rotations touch is stepped twice. No
    /// weight leaves its range. A position in which a square holds a disk
    /// of both sides changes nothing.
    pub fn adjust(&mut self, board: &Board, step: i32)
        ensures
            final(self).patterns() == old(self).patterns(),
            !board.valid() ==> final(self).all_weights() == old(self).all_weights()
                && final(self).parity_even() == old(self).parity_even() && final(self).parity_odd()
                == old(self).parity_odd(),
            board.valid() ==> {
                &&& final(self).all_weights() == stepped(
                    old(self).all_weights(),
                    old(self).touches(*board, old(self).patterns().len() as int),
                    step,
                )
                &&& final(self).parity_odd() == if board.empties() % 2 == 1 {
                    less(old(self).parity_odd(), step)
                } else {
                    old(self).parity_odd()
                }
                &&& final(self).parity_even() == if board.empties() % 2 == 1 {
                    old(self).parity_even()
                } else {
                    less(old(self).parity_even(), step)
                }
            },
    {
        proof {
            use_type_invariant(&*self);
        }
        if board.black_disks & board.white_disks != 0 {
            return;
        }
        if odd_empties(board) {
            self.parity_o = take_step(self.parity_o, step);
        } else {
            self.parity_e = take_step(self.parity_e, step);
        }

        let black_0: u64 = board.black_disks;
        let white_0: u64 = board.white_disks;
        let black_1: u64 = rotate(black_0);
        let white_1: u64 = rotate(white_0);
        let black_2: u64 = rotate(black_1);
        let white_2: u64 = rotate(white_1);
        let black_3: u64 = rotate(black_2);
        let white_3: u64 = rotate(white_2);
        proof {
            lemma_rotate_apart(black_0, white_0);
            lemma_rotate_apart(black_1, white_1);
            lemma_rotate_apart(black_2, white_2);
        }

        let ghost parity_e = self.parity_e;
        let ghost parity_o = self.parity_o;
        let mut i: usize = 0;
        while i < self.masks.len()
            invariant
                i <= self.masks.len(),
                self.parity_e == parity_e,
                self.parity_o == parity_o,
                self.masks@ == old(self).masks@,
                self.offsets@ == old(self).offsets@,
                self.weights.len() == old(self).weights.len(),
                old(self).wf(),
                self.wf(),
                black_0 == board.black_disks,
                white_0 == board.white_disks,
                black_1 == rotate_spec(black_0),
                white_1 == rotate_spec(white_0),
                black_2 == rotate_spec(black_1),
                white_2 == rotate_spec(white_1),
                black_3 == rotate_spec(black_2),
                white_3 == rotate_spec(white_2),
                black_0 & white_0 == 0,
                black_1 & white_1 == 0,
                black_2 & white_2 == 0,
                black_3 & white_3 == 0,
                self.weights@ == stepped(old(self).weights@, old(self).touches(*board, i as int), step),
            decreases self.masks.len() - i,
        {
            let mask: u64 = self.masks[i];
            let start: usize = self.offsets[i];
            proof {
                assert(popcount(self.masks@[i as int]) <= MAX_PATTERN_SQUARES);
                assert(self.offsets@[i as int] == total_len(self.masks@, i as int));
                lemma_total_grows(self.masks@, i + 1, self.masks.len() as int);
            }
            let index_0: usize = pattern_index(black_0, white_0, mask);
            let index_1: usize = pattern_index(black_1, white_1, mask);
            let index_2: usize = pattern_index(black_2, white_2, mask);
            let index_3: usize = pattern_index(black_3, white_3, mask);
            let ghost before = self.weights@;
            let ghost places = old(self).touches(*board, i as int);
            let ghost added = seq![
                start + index_0,
                start + index_1,
                start + index_2,
                start + index_3,
            ];
            self.weights[start + index_0] = take_step(self.weights[start + index_0], step);
            self.weights[start + index_1] = take_step(self.weights[start + index_1], step);
            self.weights[start + index_2] = take_step(self.weights[start + index_2], step);
            self.weights[start + index_3] = take_step(self.weights[start + index_3], step);
            proof {
                lemma_stepped_more(old(self).weights@, places, added, step);
                reveal_with_fuel(stepped, 5);
                assert(added.drop_last().drop_last().drop_last().drop_last() =~= Seq::<int>::empty());
                assert(old(self).touches(*board, i + 1) == places + added);
            }
            i += 1;
        }
    }
}

/// The steps at more places follow the steps at the places before them.
pub proof fn lemma_stepped_more(weights: Seq<i32>, first: Seq<int>, second: Seq<int>, step: i32)
    ensures
        stepped(weights, first + second, step) == stepped(stepped(weights, first, step), second, step),
        stepped(weights, first, step).len() == weights.len(),
    decreases second.len(),
{
    lemma_stepped_len(weights, first, step);
    if second.len() == 0 {
        assert(first + second =~= first);
    } else {
        lemma_stepped_more(weights, first, second.drop_last(), step);
        assert((first + second).drop_last() =~= first + second.drop_last());
        assert((first + second).last() == second.last());
    }
}

/// Steps keep the number of weights.
pub proof fn lemma_stepped_len(weights: Seq<i32>, touches: Seq<int>, step: i32)
    ensures
        stepped(weights, touches, step).len() == weights.len(),
    decreases touches.len(),
{
    if touches.len() > 0 {
        lemma_stepped_len(weights, touches.drop_last(), step);
    }
}

/// The tables of more patterns have no fewer weights.
pub proof fn lemma_total_grows(masks: Seq<u64>, fewer: int, more: int)
    requires
        0 <= fewer <= more,
    ensures
        0 <= total_len(masks, fewer) <= total_len(masks, more),
        fewer < more ==> total_len(masks, fewer) + table_len(masks[fewer]) <= total_len(
            masks,
            more,
        ),
    decreases more,
{
    if fewer < more {
        lemma_total_grows(masks, fewer, more - 1);
    } else if fewer > 0 {
        lemma_total_grows(masks, fewer - 1, fewer - 1);
    }
}

impl Clone for PatternEvaluator {
    /// Copies the patterns, the weights and the biases.
    fn clone(&self) -> (r: Self)
        ensures
            r.patterns() == self.patterns(),
            r.all_weights() == self.all_weights(),
            r.parity_even() == self.parity_even(),
            r.parity_odd() == self.parity_odd(),
    {
        proof {
            use_type_invariant(self);
        }
        let masks: Vec<u64> = self.masks.clone();
        let offsets: Vec<usize> = self.offsets.clone();
        let weights: Vec<i32> = self.weights.clone();
        assert(masks@ =~= self.masks@);
        assert(offsets@ =~= self.offsets@);
        assert(weights@ =~= self.weights@);
        PatternEvaluator {
            masks,
            offsets,
            weights,
            parity_e: self.parity_e,
            parity_o: self.parity_o,
        }
    }
}

impl Evaluator for PatternEvaluator {
    /// A hundred times the whole part of the sum of bias and weights, for
    /// the side to move, cut off at the bounds of a score; zero for a
    /// position in which a square holds a disk of both sides.
    open spec fn score(&self, board: Board) -> int {
        if !board.valid() {
            0
        } else if board.black_move {
            clamp_score(scaled(self.black_sum(board)))
        } else {
            clamp_score(-scaled(self.black_sum(board)))
        }
    }

    proof fn lemma_score_bounds(&self, board: Board) {
    }

    fn get_score(&self, board: &Board) -> (r: i32) {
        if board.black_disks & board.white_disks != 0 {
            return 0;
        }
        let sum: i64 = self.get_black_sum(board);
        let whole: i64 = if sum >= 0 {
            sum * 100 / WEIGHT_UNIT
        } else {
            -((-sum) * 100 / WEIGHT_UNIT)
        };
        let for_mover: i64 = if board.black_move {
            whole
        } else {
            -whole
        };
        if for_mover > MAX_SCORE as i64 {
            MAX_SCORE
        } else if for_mover < -(MAX_SCORE as i64) {
            -MAX_SCORE
        } else {
            for_mover as i32
        }
    }
}

/// The weights of a pattern add up to the same for a position and for the
/// position turned by a quarter.
pub proof fn lemma_pattern_sum_rotated(eval: PatternEvaluator, b: Board, i: int)
    ensures
        eval.pattern_sum(rotate_board(b), i) == eval.pattern_sum(b, i),
{
    let mask = eval.patterns()[i];
    crate::search::eval::pattern_util::lemma_rotation_shifts_indices(
        b.black_disks,
        b.white_disks,
        mask,
        0,
    );
    crate::search::eval::pattern_util::lemma_rotation_shifts_indices(
        b.black_disks,
        b.white_disks,
        mask,
        1,
    );
    crate::search::eval::pattern_util::lemma_rotation_shifts_indices(
        b.black_disks,
        b.white_disks,
        mask,
        2,
    );
    crate::search::eval::pattern_util::lemma_rotation_shifts_indices(
        b.black_disks,
        b.white_disks,
        mask,
        3,
    );
}

/// The weights of the patterns add up to the same for a position and for
/// the position turned by a quarter.
pub proof fn lemma_patterns_sum_rotated(eval: PatternEvaluator, b: Board, n: int)
    ensures
        eval.patterns_sum(rotate_board(b), n) == eval.patterns_sum(b, n),
    decreases n,
{
    if n > 0 {
        lemma_patterns_sum_rotated(eval, b, n - 1);
        lemma_pattern_sum_rotated(eval, b, n - 1);
    }
}

/// The score of a position is the score of the position turned by a
/// quarter.
pub proof fn lemma_score_rotated(eval: PatternEvaluator, b: Board)
    requires
        b.valid(),
    ensures
        eval.score(rotate_board(b)) == eval.score(b),
{
    lemma_rotate_apart(b.black_disks, b.white_disks);
    lemma_rotate_union(b.white_disks, b.black_disks);
    lemma_rotate_popcount(b.white_disks | b.black_disks);
    lemma_patterns_sum_rotated(eval, b, eval.patterns().len() as int);
}

} // verus!
