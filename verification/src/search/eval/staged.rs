//! An evaluator in stages: the number of empty squares chooses which of
//! several evaluators scores the position.

use vstd::prelude::*;
use std::collections::HashMap;
use crate::bits::lemma_popcount_le_64;
use crate::board::Board;
use crate::search::eval::Evaluator;
use crate::search::eval::pattern::{PatternEvaluator, stepped, less};

verus! {

broadcast use vstd::std_specs::hash::group_hash_axioms;

/// The number of stage ends that are not above `empties`: the stage of a
/// position with that many empty squares.
pub open spec fn stage_of(stage_ends: Seq<u32>, empties: int) -> int
    decreases stage_ends.len(),
{
    if stage_ends.len() == 0 {
        0
    } else {
        stage_of(stage_ends.drop_last(), empties) + if stage_ends.last() <= empties {
            1int
        } else {
            0int
        }
    }
}

/// Whether the stage ends ascend.
pub open spec fn ends_ascend(stage_ends: Seq<u32>) -> bool {
    forall|i: int, j: int| 0 <= i <= j < stage_ends.len() ==> stage_ends[i] <= stage_ends[j]
}

/// The stage does not fall when the empty squares grow more.
pub proof fn lemma_stage_monotone(stage_ends: Seq<u32>, fewer: int, more: int)
    requires
        fewer <= more,
    ensures
        stage_of(stage_ends, fewer) <= stage_of(stage_ends, more),
    decreases stage_ends.len(),
{
    if stage_ends.len() > 0 {
        lemma_stage_monotone(stage_ends.drop_last(), fewer, more);
    }
}

/// An evaluator in stages. The stages divide the numbers of empty squares,
/// 0 to 64, into ranges, and each range has its evaluator. A position whose
/// stage names no evaluator is scored zero.
#[derive(Clone)]
pub struct StagedEvaluator<E: Evaluator> {
    stage_map: HashMap<u32, usize>,
    evaluators: Vec<E>,
}

/// Whether the stages name an evaluator for each number of empty squares,
/// 0 to 64.
pub open spec fn stages_complete(stages: Map<u32, usize>, count: int) -> bool {
    forall|empties: u32|
        empties <= 64 ==> #[trigger] stages.contains_key(empties) && stages[empties] < count
}

impl<E: Evaluator> StagedEvaluator<E> {
    /// For each number of empty squares, the place of the evaluator that
    /// scores positions with as many.
    pub closed spec fn stages(self) -> Map<u32, usize> {
        self.stage_map@
    }

    /// The evaluators of the stages.
    pub closed spec fn parts(self) -> Seq<E> {
        self.evaluators@
    }

    /// Creates an evaluator in stages. The stage ends ascend; the first
    /// evaluator scores the positions with fewer empty squares than the
    /// first end, each further one those from one end up to the next, and
    /// the last those from the last end on.
    pub fn from(stage_ends: Vec<u32>, evaluators: Vec<E>) -> (r: StagedEvaluator<E>)
        requires
            stage_ends.len() + 1 == evaluators.len(),
            ends_ascend(stage_ends@),
        ensures
            r.parts() == evaluators@,
            forall|empties: u32| #[trigger] r.stages().contains_key(empties) <==> empties <= 64,
            forall|empties: u32|
                empties <= 64 ==> #[trigger] r.stages()[empties] == stage_of(
                    stage_ends@,
                    empties as int,
                ),
            stages_complete(r.stages(), evaluators.len() as int),
    {
        let mut stage_map: HashMap<u32, usize> = HashMap::new();
        let mut stage: usize = 0;
        let mut empties: u32 = 0;
        assert(stage_ends@.take(0) =~= Seq::<u32>::empty());
        while empties < 65
            invariant
                empties <= 65,
                stage <= stage_ends.len(),
                stage_ends.len() + 1 == evaluators.len(),
                ends_ascend(stage_ends@),
                forall|k: u32| #[trigger] stage_map@.contains_key(k) <==> k < empties,
                forall|k: u32|
                    k < empties ==> #[trigger] stage_map@[k] == stage_of(stage_ends@, k as int),
                forall|k: u32| k < empties ==> #[trigger] stage_map@[k] < evaluators.len(),
                forall|j: int| 0 <= j < stage ==> stage_ends@[j] <= empties,
                stage == stage_of(stage_ends@.take(stage as int), empties as int),
            decreases 65 - empties,
        {
            while stage < stage_ends.len() && stage_ends[stage] <= empties
                invariant
                    stage <= stage_ends.len(),
                    stage == stage_of(stage_ends@.take(stage as int), empties as int),
                    forall|j: int| 0 <= j < stage ==> stage_ends@[j] <= empties,
                decreases stage_ends.len() - stage,
            {
                proof {
                    assert(stage_ends@.take(stage + 1).drop_last() =~= stage_ends@.take(
                        stage as int,
                    ));
                }
                stage += 1;
            }
            proof {
                lemma_stage_rest(stage_ends@, stage as int, empties as int);
                lemma_stage_next(stage_ends@.take(stage as int), empties as int);
            }
            stage_map.insert(empties, stage);
            empties += 1;
        }

        StagedEvaluator { stage_map, evaluators }
    }

    /// Creates an evaluator in stages from the place of the evaluator for
    /// each number of empty squares. Returns `None` if a number from 0 to 64
    /// has no place or a place outside the evaluators.
    pub fn from_map(stage_map: HashMap<u32, usize>, evaluators: Vec<E>) -> (r: Option<
        StagedEvaluator<E>,
    >)
        ensures
            r is Some <==> stages_complete(stage_map@, evaluators.len() as int),
            r matches Some(staged) ==> staged.stages() == stage_map@ && staged.parts()
                == evaluators@,
    {
        let mut empties: u32 = 0;
        while empties < 65
            invariant
                empties <= 65,
                forall|k: u32|
                    k < empties ==> #[trigger] stage_map@.contains_key(k) && stage_map@[k]
                        < evaluators.len(),
            decreases 65 - empties,
        {
            match stage_map.get(&empties) {
                Some(stage) => {
                    if *stage >= evaluators.len() {
                        assert(stage_map@.contains_key(empties));
                        return None;
                    }
                },
                None => {
                    assert(!stage_map@.contains_key(empties));
                    return None;
                },
            }
            empties += 1;
        }
        Some(StagedEvaluator { stage_map, evaluators })
    }

    /// Returns the places of the evaluators, by the number of empty squares.
    pub fn stage_map(&self) -> (r: &HashMap<u32, usize>)
        ensures
            r@ == self.stages(),
    {
        &self.stage_map
    }

    /// Returns the number of evaluators.
    pub fn part_count(&self) -> (r: usize)
        ensures
            r == self.parts().len(),
    {
        self.evaluators.len()
    }

    /// Returns the evaluator at place `i`.
    pub fn part(&self, i: usize) -> (r: &E)
        requires
            i < self.parts().len(),
        ensures
            *r == self.parts()[i as int],
    {
        &self.evaluators[i]
    }

    /// The place of the evaluator that scores the position, if the stages
    /// name one.
    pub open spec fn stage_spec(self, board: Board) -> Option<usize> {
        if 0 <= board.empties() <= 64 && self.stages().contains_key(board.empties() as u32)
            && self.stages()[board.empties() as u32] < self.parts().len() {
            Some(self.stages()[board.empties() as u32])
        } else {
            None
        }
    }

    /// Returns the place of the evaluator that scores the position, if the
    /// stages name one.
    pub fn stage(&self, board: &Board) -> (r: Option<usize>)
        ensures
            r == self.stage_spec(*board),
    {
        proof {
            lemma_popcount_le_64(board.white_disks | board.black_disks);
        }
        let empties: u32 = board.all_disks().count_zeros();
        match self.stage_map.get(&empties) {
            Some(stage) => {
                if *stage < self.evaluators.len() {
                    Some(*stage)
                } else {
                    None
                }
            },
            None => None,
        }
    }
}

impl StagedEvaluator<PatternEvaluator> {
    /// Takes `step` from the bias and the weights that the position touches
    /// in the evaluator of its stage. The other stages stay as they are.
    pub fn adjust(&mut self, board: &Board, step: i32)
        ensures
            final(self).stages() == old(self).stages(),
            final(self).parts().len() == old(self).parts().len(),
            old(self).stage_spec(*board) is None ==> final(self).parts() == old(self).parts(),
            old(self).stage_spec(*board) matches Some(stage) ==> {
                &&& forall|i: int|
                    0 <= i < old(self).parts().len() && i != stage ==> final(self).parts()[i]
                        == old(self).parts()[i]
                &&& adjusted(old(self).parts()[stage as int], final(self).parts()[stage as int], *board, step)
            },
    {
        match self.stage(board) {
            Some(stage) => {
                self.evaluators[stage].adjust(board, step);
            },
            None => {},
        }
    }
}

/// Whether `after` is `before` with `step` taken from the bias and the
/// weights that the position touches.
pub open spec fn adjusted(before: PatternEvaluator, after: PatternEvaluator, board: Board, step: i32)
    -> bool {
    &&& after.patterns() == before.patterns()
    &&& !board.valid() ==> after.all_weights() == before.all_weights() && after.parity_even()
        == before.parity_even() && after.parity_odd() == before.parity_odd()
    &&& board.valid() ==> {
        &&& after.all_weights() == stepped(
            before.all_weights(),
            before.touches(board, before.patterns().len() as int),
            step,
        )
        &&& after.parity_odd() == if board.empties() % 2 == 1 {
            less(before.parity_odd(), step)
        } else {
            before.parity_odd()
        }
        &&& after.parity_even() == if board.empties() % 2 == 1 {
            before.parity_even()
        } else {
            less(before.parity_even(), step)
        }
    }
}

/// The ends from place `stage` on, which are all above `empties`, add no
/// stage.
proof fn lemma_stage_rest(stage_ends: Seq<u32>, stage: int, empties: int)
    requires
        0 <= stage <= stage_ends.len(),
        ends_ascend(stage_ends),
        stage < stage_ends.len() ==> stage_ends[stage] > empties,
    ensures
        stage_of(stage_ends, empties) == stage_of(stage_ends.take(stage), empties),
    decreases stage_ends.len() - stage,
{
    if stage < stage_ends.len() {
        let last = stage_ends.len() - 1;
        assert(stage_ends[stage] <= stage_ends[last]);
        let front = stage_ends.drop_last();
        assert forall|i: int, j: int| 0 <= i <= j < front.len() implies front[i] <= front[j] by {
            assert(stage_ends[i] <= stage_ends[j]);
        }
        lemma_stage_rest(front, stage, empties);
        assert(front.take(stage) =~= stage_ends.take(stage));
    } else {
        assert(stage_ends.take(stage) =~= stage_ends);
    }
}

/// Ends that are not above `empties` are not above a greater number.
proof fn lemma_stage_next(stage_ends: Seq<u32>, empties: int)
    requires
        forall|j: int| 0 <= j < stage_ends.len() ==> stage_ends[j] <= empties,
    ensures
        stage_of(stage_ends, empties) == stage_ends.len(),
        stage_of(stage_ends, empties + 1) == stage_ends.len(),
    decreases stage_ends.len(),
{
    if stage_ends.len() > 0 {
        let front = stage_ends.drop_last();
        assert forall|j: int| 0 <= j < front.len() implies front[j] <= empties by {
            assert(stage_ends[j] <= empties);
        }
        lemma_stage_next(front, empties);
    }
}

impl<E: Evaluator> Evaluator for StagedEvaluator<E> {
    /// The score that the evaluator of the position's stage gives.
    open spec fn score(&self, board: Board) -> int {
        match self.stage_spec(board) {
            Some(stage) => self.parts()[stage as int].score(board),
            None => 0,
        }
    }

    proof fn lemma_score_bounds(&self, board: Board) {
        match self.stage_spec(board) {
            Some(stage) => {
                self.parts()[stage as int].lemma_score_bounds(board);
            },
            None => {},
        }
    }

    fn get_score(&self, board: &Board) -> (r: i32) {
        match self.stage(board) {
            Some(stage) => self.evaluators[stage].get_score(board),
            None => 0,
        }
    }
}

} // verus!
