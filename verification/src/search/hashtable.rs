//! The transposition table: bounds on the scores of positions that were
//! searched, found again by the disks of the position.

use vstd::prelude::*;
use crate::board::Board;

verus! {

/// What is known of a score: the score itself, or a bound on it.
#[derive(Clone, Copy, Debug, PartialEq, Eq, Structural)]
pub enum Score {
    Exact(i32),
    Lower(i32),
    Upper(i32),
}

/// An entry of the table: the position it speaks of, as its key, the depth
/// to which the position was searched, what was found, and whether a
/// shallower search may overwrite it.
#[derive(Clone, Copy, Debug, PartialEq, Eq, Structural)]
pub struct Entry {
    pub depth: u8,
    pub score: Score,
    pub state: u128,
    pub replace: bool,
}

/// The key of a position: the black disks in the upper 64 bits, the white
/// disks in the lower 64 bits.
pub open spec fn state_key(b: Board) -> u128 {
    ((b.black_disks as u128) << 64) | (b.white_disks as u128)
}

/// The slot of a position in a table of `size` slots.
pub open spec fn slot_of(b: Board, size: int) -> int {
    state_key(b) as int % size
}

/// What a probe for the position `b` finds in `slot`: the stored score if
/// the slot speaks of this position, was searched at least `depth` plies
/// deep, and its score is exact, or a lower bound that reaches `beta`, or an
/// upper bound that does not exceed `alpha`.
pub open spec fn probe_slot(slot: Option<Entry>, b: Board, depth: u8, alpha: i32, beta: i32)
    -> Option<Score> {
    match slot {
        Some(entry) => if entry.state == state_key(b) && entry.depth >= depth {
            match entry.score {
                Score::Exact(_) => Some(entry.score),
                Score::Lower(score) => if score >= beta {
                    Some(entry.score)
                } else {
                    None
                },
                Score::Upper(score) => if score <= alpha {
                    Some(entry.score)
                } else {
                    None
                },
            }
        } else {
            None
        },
        None => None,
    }
}

/// What a slot holds after a save for the position `b`: the new entry,
/// unless the slot holds a deeper entry that is not marked for replacement.
pub open spec fn save_slot(slot: Option<Entry>, b: Board, score: Score, depth: u8) -> Option<
    Entry,
> {
    match slot {
        Some(entry) => if entry.depth > depth && !entry.replace {
            slot
        } else {
            Some(Entry { depth, score, state: state_key(b), replace: false })
        },
        None => Some(Entry { depth, score, state: state_key(b), replace: false }),
    }
}

/// A slot with its entry, if it has one, marked for replacement.
pub open spec fn aged_slot(slot: Option<Entry>) -> Option<Entry> {
    match slot {
        Some(entry) => Some(
            Entry { depth: entry.depth, score: entry.score, state: entry.state, replace: true },
        ),
        None => None,
    }
}

/// A table of a fixed number of slots, each empty or with one entry.
pub struct HashTable {
    size: usize,
    table: Vec<Option<Entry>>,
}

impl View for HashTable {
    type V = Seq<Option<Entry>>;

    closed spec fn view(&self) -> Seq<Option<Entry>> {
        self.table@
    }
}

impl HashTable {
    #[verifier::type_invariant]
    spec fn wf(self) -> bool {
        self.size > 0 && self.table.len() == self.size
    }

    /// Creates a table of `size` empty slots.
    pub fn empty(size: usize) -> (r: Self)
        requires
            size > 0,
        ensures
            r@.len() == size,
            forall|i: int| 0 <= i < size ==> r@[i] is None,
    {
        let mut table: Vec<Option<Entry>> = Vec::new();
        let mut i: usize = 0;
        while i < size
            invariant
                i <= size,
                table.len() == i,
                forall|j: int| 0 <= j < i ==> table@[j] is None,
            decreases size - i,
        {
            table.push(None);
            i += 1;
        }

        HashTable { size, table }
    }

    /// The number of slots.
    pub fn size(&self) -> (r: usize)
        ensures
            r == self@.len(),
            r > 0,
    {
        proof {
            use_type_invariant(self);
        }
        self.size
    }

    /// Computes the key of a position and its slot.
    fn slot(&self, board: &Board) -> (r: (u128, usize))
        ensures
            r.0 == state_key(*board),
            r.1 == slot_of(*board, self@.len() as int),
            r.1 < self@.len(),
            self@.len() > 0,
    {
        proof {
            use_type_invariant(self);
        }
        let state: u128 = ((board.black_disks as u128) << 64) | (board.white_disks as u128);
        let index: usize = (state % (self.size as u128)) as usize;
        (state, index)
    }

    /// Looks the position up for a search of `depth` plies within the
    /// window from `alpha` to `beta`, and returns the stored score if it can
    /// stand for that search.
    pub fn probe(&self, board: &Board, depth: u8, alpha: i32, beta: i32) -> (r: Option<Score>)
        ensures
            self@.len() > 0,
            r == probe_slot(
                self@[slot_of(*board, self@.len() as int)],
                *board,
                depth,
                alpha,
                beta,
            ),
    {
        let (state, index) = self.slot(board);
        let value: Option<Entry> = self.table[index];

        if let Some(entry) = value {
            if entry.state == state && entry.depth >= depth {
                return match entry.score {
                    Score::Exact(_) => Some(entry.score),
                    Score::Lower(score) => if score >= beta {
                        Some(entry.score)
                    } else {
                        None
                    },
                    Score::Upper(score) => if score <= alpha {
                        Some(entry.score)
                    } else {
                        None
                    },
                };
            }
        }
        None
    }

    /// Stores what a search of `depth` plies found for the position: always,
    /// except over a deeper entry that is not marked for replacement.
    pub fn save(&mut self, board: &Board, score: Score, depth: u8)
        ensures
            final(self)@.len() == old(self)@.len(),
            old(self)@.len() > 0,
            final(self)@ == old(self)@.update(
                slot_of(*board, old(self)@.len() as int),
                save_slot(old(self)@[slot_of(*board, old(self)@.len() as int)], *board, score, depth),
            ),
    {
        let (state, index) = self.slot(board);
        let value: Option<Entry> = self.table[index];
        proof {
            use_type_invariant(&*self);
        }

        let keep: bool = match value {
            Some(entry) => entry.depth > depth && !entry.replace,
            None => false,
        };
        if !keep {
            let new_entry = Entry { depth, score, state, replace: false };
            self.table[index] = Some(new_entry);
        }
        assert(self.table@ =~= old(self).table@.update(
            index as int,
            save_slot(old(self).table@[index as int], *board, score, depth),
        ));
    }

    /// Marks every entry for replacement, so that the next search may
    /// overwrite it.
    pub fn set_replace(&mut self)
        ensures
            final(self)@.len() == old(self)@.len(),
            forall|i: int| 0 <= i < old(self)@.len() ==> final(self)@[i] == aged_slot(old(self)@[i]),
    {
        proof {
            use_type_invariant(&*self);
        }
        let mut i: usize = 0;
        while i < self.table.len()
            invariant
                i <= self.table.len(),
                self.table.len() == old(self).table.len(),
                self.size == old(self).size,
                self.size > 0,
                self.table.len() == self.size,
                forall|j: int| 0 <= j < i ==> self.table@[j] == aged_slot(old(self).table@[j]),
                forall|j: int| i <= j < self.table.len() ==> self.table@[j] == old(self).table@[j],
            decreases self.table.len() - i,
        {
            let value: Option<Entry> = self.table[i];
            if let Some(entry) = value {
                self.table[i] = Some(
                    Entry {
                        depth: entry.depth,
                        score: entry.score,
                        state: entry.state,
                        replace: true,
                    },
                );
            }
            i += 1;
        }
    }

    /// Empties every slot.
    pub fn clear(&mut self)
        ensures
            final(self)@.len() == old(self)@.len(),
            forall|i: int| 0 <= i < old(self)@.len() ==> final(self)@[i] is None,
    {
        proof {
            use_type_invariant(&*self);
        }
        let mut i: usize = 0;
        while i < self.table.len()
            invariant
                i <= self.table.len(),
                self.table.len() == old(self).table.len(),
                self.size == old(self).size,
                self.size > 0,
                self.table.len() == self.size,
                forall|j: int| 0 <= j < i ==> self.table@[j] is None,
            decreases self.table.len() - i,
        {
            self.table[i] = None;
            i += 1;
        }
    }
}

} // verus!
