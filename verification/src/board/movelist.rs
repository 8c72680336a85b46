//! A list of at most 32 moves that lives on the stack.

use vstd::prelude::*;
use vstd::array::array_fill_for_copy_types;
use crate::board::{Board, Move};
use crate::board::order::{sort_moves, stable_sort};

verus! {

/// The greatest number of moves that a list holds.
pub const MOVE_LIST_CAPACITY: usize = 32;

/// The moves of `moves` whose flag is set, in their order.
pub open spec fn kept(moves: Seq<Move>, flags: Seq<bool>) -> Seq<Move>
    decreases moves.len(),
{
    if moves.len() == 0 || flags.len() != moves.len() {
        Seq::empty()
    } else if flags.last() {
        kept(moves.drop_last(), flags.drop_last()).push(moves.last())
    } else {
        kept(moves.drop_last(), flags.drop_last())
    }
}

/// No more moves are kept than there are.
pub proof fn lemma_kept_len(moves: Seq<Move>, flags: Seq<bool>)
    ensures
        kept(moves, flags).len() <= moves.len(),
    decreases moves.len(),
{
    if moves.len() > 0 && flags.len() == moves.len() {
        lemma_kept_len(moves.drop_last(), flags.drop_last());
    }
}

/// An ordered list of at most 32 moves.
#[derive(Clone, Copy)]
pub struct MoveList {
    moves: [Move; 32],
    size: u8,
}

impl View for MoveList {
    type V = Seq<Move>;

    closed spec fn view(&self) -> Seq<Move> {
        self.moves@.take(self.size as int)
    }
}

impl MoveList {
    #[verifier::type_invariant]
    spec fn wf(self) -> bool {
        self.size <= 32
    }

    /// Creates an empty list.
    pub fn new() -> (r: MoveList)
        ensures
            r@ == Seq::<Move>::empty(),
    {
        let r = MoveList { moves: array_fill_for_copy_types(Move::Pass), size: 0 };
        assert(r.moves@.take(0) =~= Seq::<Move>::empty());
        r
    }

    /// Creates a list of the moves of `arr`, in their order.
    pub fn from(arr: Vec<Move>) -> (r: MoveList)
        requires
            arr.len() <= MOVE_LIST_CAPACITY,
        ensures
            r@ == arr@,
    {
        let mut list = MoveList::new();
        let mut i: usize = 0;
        while i < arr.len()
            invariant
                i <= arr.len(),
                arr.len() <= MOVE_LIST_CAPACITY,
                list@ == arr@.take(i as int),
            decreases arr.len() - i,
        {
            list.push(arr[i]);
            assert(arr@.take(i as int).push(arr@[i as int]) =~= arr@.take(i + 1));
            i += 1;
        }
        assert(arr@.take(i as int) =~= arr@);
        list
    }

    /// Appends a move to a list that is not full.
    pub fn push(&mut self, m: Move)
        requires
            old(self)@.len() < MOVE_LIST_CAPACITY,
        ensures
            final(self)@ == old(self)@.push(m),
    {
        proof {
            use_type_invariant(&*self);
        }
        let index: usize = self.size as usize;
        self.moves[index] = m;
        self.size += 1;
        assert(self.moves@.take(self.size as int) =~= old(self).moves@.take(
            old(self).size as int,
        ).push(m));
    }

    /// Returns the number of moves.
    pub fn len(&self) -> (r: usize)
        ensures
            r == self@.len(),
            r <= MOVE_LIST_CAPACITY,
    {
        proof {
            use_type_invariant(self);
        }
        self.size as usize
    }

    /// Returns the move at place `index`.
    pub fn get(&self, index: usize) -> (r: Move)
        requires
            index < self@.len(),
        ensures
            r == self@[index as int],
    {
        proof {
            use_type_invariant(self);
        }
        self.moves[index]
    }

    /// Puts the move `m` at place `index`.
    pub fn set(&mut self, index: usize, m: Move)
        requires
            index < old(self)@.len(),
        ensures
            final(self)@ == old(self)@.update(index as int, m),
    {
        proof {
            use_type_invariant(&*self);
        }
        self.moves[index] = m;
        assert(self.moves@.take(self.size as int) =~= old(self).moves@.take(
            old(self).size as int,
        ).update(index as int, m));
    }

    /// Returns the moves as a vector, in their order.
    pub fn to_vec(&self) -> (r: Vec<Move>)
        ensures
            r@ == self@,
    {
        let mut out: Vec<Move> = Vec::new();
        let mut i: usize = 0;
        while i < self.len()
            invariant
                i <= self@.len(),
                out@ == self@.take(i as int),
            decreases self@.len() - i,
        {
            out.push(self.get(i));
            assert(self@.take(i as int).push(self@[i as int]) =~= self@.take(i + 1));
            i += 1;
        }
        assert(self@.take(i as int) =~= self@);
        out
    }

    /// Sorts the list by the keys that `f` gives to its moves, smallest key
    /// first. Each move is given its key once; moves with equal keys keep
    /// their order.
    pub fn sort_by<F: Fn(&Move) -> i32>(&mut self, f: F)
        requires
            forall|m: Move| call_requires(f, (&m,)),
        ensures
            exists|keys: Seq<i32>|
                {
                    &&& keys.len() == old(self)@.len()
                    &&& forall|i: int|
                        0 <= i < keys.len() ==> call_ensures(f, (&old(self)@[i],), #[trigger] keys[i])
                    &&& final(self)@ == stable_sort(old(self)@, keys)
                },
    {
        proof {
            use_type_invariant(&*self);
        }
        // Get and store the keys.
        let moves: Vec<Move> = self.to_vec();
        let mut keys: Vec<i32> = Vec::new();
        let mut i: usize = 0;
        while i < moves.len()
            invariant
                i <= moves.len(),
                keys.len() == i,
                moves@ == self@,
                forall|m: Move| call_requires(f, (&m,)),
                forall|j: int| 0 <= j < i ==> call_ensures(f, (&moves@[j],), #[trigger] keys@[j]),
            decreases moves.len() - i,
        {
            let key: i32 = f(&moves[i]);
            keys.push(key);
            i += 1;
        }

        // Sort the move list.
        let sorted: Vec<Move> = sort_moves(&moves, &keys);
        let result = MoveList::from(sorted);
        *self = result;
        assert(self@ == stable_sort(old(self)@, keys@));
    }

    /// Returns a list of the moves for which `pred` holds, in their order.
    /// Each move is asked once.
    pub fn filtered<P: Fn(&Move) -> bool>(&self, pred: P) -> (r: MoveList)
        requires
            forall|m: Move| call_requires(pred, (&m,)),
        ensures
            exists|flags: Seq<bool>|
                {
                    &&& flags.len() == self@.len()
                    &&& forall|i: int|
                        0 <= i < flags.len() ==> call_ensures(pred, (&self@[i],), #[trigger] flags[i])
                    &&& r@ == kept(self@, flags)
                },
    {
        let mut passes = MoveList::new();
        let ghost mut flags: Seq<bool> = Seq::empty();
        proof {
            use_type_invariant(self);
        }

        let mut i: usize = 0;
        while i < self.len()
            invariant
                i <= self@.len(),
                self@.len() <= MOVE_LIST_CAPACITY,
                flags.len() == i,
                forall|m: Move| call_requires(pred, (&m,)),
                forall|j: int| 0 <= j < i ==> call_ensures(pred, (&self@[j],), #[trigger] flags[j]),
                passes@ == kept(self@.take(i as int), flags),
            decreases self@.len() - i,
        {
            let m: Move = self.get(i);
            let pass: bool = pred(&m);
            proof {
                let next = flags.push(pass);
                assert(next.drop_last() =~= flags);
                assert(self@.take(i + 1).drop_last() =~= self@.take(i as int));
                assert(self@.take(i + 1).last() == m);
                lemma_kept_len(self@.take(i as int), flags);
                flags = next;
            }
            if pass {
                passes.push(m);
            }
            i += 1;
        }
        assert(self@.take(i as int) =~= self@);

        passes
    }

    /// Returns whether the list holds no move.
    pub fn is_empty(&self) -> (r: bool)
        ensures
            r == (self@.len() == 0),
    {
        self.len() == 0
    }

    /// Returns whether the list holds the move `m`.
    pub fn contains(&self, m: Move) -> (r: bool)
        ensures
            r == self@.contains(m),
    {
        let mut i: usize = 0;
        while i < self.len()
            invariant
                i <= self@.len(),
                forall|j: int| 0 <= j < i ==> self@[j] != m,
            decreases self@.len() - i,
        {
            if m == self.get(i) {
                return true;
            }
            i += 1;
        }

        false
    }

    /// Starts a walk through the moves of the list, first to last.
    pub fn iter(&self) -> (r: MoveListIterator<'_>)
        ensures
            r.rest() == self@,
    {
        let r = MoveListIterator { list: self, idx: 0 };
        assert(self@.skip(0) =~= self@);
        r
    }
}

impl Board {
    /// Generates the moves that the side to move can make as a list, if
    /// the list can hold them: `None` where there are more than 32.
    pub fn get_move_list(&self) -> (r: Option<MoveList>)
        ensures
            r is Some <==> self.legal_moves().len() <= MOVE_LIST_CAPACITY,
            r matches Some(list) ==> list@ == self.legal_moves(),
    {
        let moves: Vec<Move> = self.get_moves();
        if moves.len() <= MOVE_LIST_CAPACITY {
            Some(MoveList::from(moves))
        } else {
            None
        }
    }
}

/// A walk through the moves of a list.
pub struct MoveListIterator<'a> {
    list: &'a MoveList,
    idx: usize,
}

impl<'a> MoveListIterator<'a> {
    /// The moves that the walk has yet to give.
    pub closed spec fn rest(&self) -> Seq<Move> {
        if self.idx <= self.list@.len() {
            self.list@.skip(self.idx as int)
        } else {
            Seq::empty()
        }
    }

    /// Gives the next move of the list, or `None` at its end.
    pub fn next(&mut self) -> (r: Option<Move>)
        ensures
            old(self).rest().len() == 0 ==> r is None && final(self).rest() == old(self).rest(),
            old(self).rest().len() > 0 ==> r == Some(old(self).rest()[0]) && final(self).rest()
                == old(self).rest().drop_first(),
    {
        if self.idx < self.list.len() {
            let item: Move = self.list.get(self.idx);
            assert(self.list@.skip(self.idx as int).drop_first() =~= self.list@.skip(
                self.idx as int + 1,
            ));
            self.idx += 1;
            Some(item)
        } else {
            None
        }
    }
}

} // verus!
