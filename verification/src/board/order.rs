//! Ordering moves by integer keys: a stable sort, smallest key first.

use vstd::prelude::*;
use crate::board::Move;

verus! {

/// Where a new key goes into sorted keys: behind the last key that is not
/// greater.
pub open spec fn insert_pos(keys: Seq<i32>, key: i32) -> int
    decreases keys.len(),
{
    if keys.len() == 0 {
        0
    } else if keys.last() <= key {
        keys.len() as int
    } else {
        insert_pos(keys.drop_last(), key)
    }
}

/// The first `n` keys in ascending order.
pub open spec fn sorted_keys(keys: Seq<i32>, n: int) -> Seq<i32>
    decreases n,
{
    if n <= 0 {
        Seq::empty()
    } else {
        let before = sorted_keys(keys, n - 1);
        before.insert(insert_pos(before, keys[n - 1]), keys[n - 1])
    }
}

/// The first `n` moves in ascending order of their keys; moves with equal
/// keys keep their order.
pub open spec fn sorted_moves(moves: Seq<Move>, keys: Seq<i32>, n: int) -> Seq<Move>
    decreases n,
{
    if n <= 0 {
        Seq::empty()
    } else {
        sorted_moves(moves, keys, n - 1).insert(
            insert_pos(sorted_keys(keys, n - 1), keys[n - 1]),
            moves[n - 1],
        )
    }
}

/// The moves in ascending order of their keys; moves with equal keys keep
/// their order.
pub open spec fn stable_sort(moves: Seq<Move>, keys: Seq<i32>) -> Seq<Move> {
    sorted_moves(moves, keys, moves.len() as int)
}

/// Whether the keys ascend.
pub open spec fn ascending(keys: Seq<i32>) -> bool {
    forall|i: int, j: int| 0 <= i <= j < keys.len() ==> keys[i] <= keys[j]
}

/// The place of a new key lies inside the keys, behind every key that is
/// not greater and before every key that is greater.
pub proof fn lemma_insert_pos(keys: Seq<i32>, key: i32)
    requires
        ascending(keys),
    ensures
        0 <= insert_pos(keys, key) <= keys.len(),
        forall|i: int| 0 <= i < insert_pos(keys, key) ==> keys[i] <= key,
        forall|i: int| insert_pos(keys, key) <= i < keys.len() ==> keys[i] > key,
    decreases keys.len(),
{
    if keys.len() > 0 {
        let last = keys.len() - 1;
        if keys.last() > key {
            let front = keys.drop_last();
            assert forall|i: int, j: int| 0 <= i <= j < front.len() implies front[i] <= front[j] by {
                assert(keys[i] <= keys[j]);
            }
            lemma_insert_pos(front, key);
            let pos = insert_pos(front, key);
            assert forall|i: int| 0 <= i < pos implies keys[i] <= key by {
                assert(front[i] <= key);
            }
            assert forall|i: int| pos <= i < keys.len() implies keys[i] > key by {
                if i < last {
                    assert(front[i] > key);
                }
            }
        } else {
            assert forall|i: int| 0 <= i < keys.len() implies keys[i] <= key by {
                assert(keys[i] <= keys[last]);
            }
        }
    }
}

/// The place of a new key lies inside the keys.
pub proof fn lemma_insert_pos_range(keys: Seq<i32>, key: i32)
    ensures
        0 <= insert_pos(keys, key) <= keys.len(),
    decreases keys.len(),
{
    if keys.len() > 0 && keys.last() > key {
        lemma_insert_pos_range(keys.drop_last(), key);
    }
}

/// Sorting keeps the number of moves and keys.
pub proof fn lemma_sorted_len(moves: Seq<Move>, keys: Seq<i32>, n: int)
    requires
        0 <= n <= moves.len(),
        moves.len() == keys.len(),
    ensures
        sorted_moves(moves, keys, n).len() == n,
        sorted_keys(keys, n).len() == n,
    decreases n,
{
    if n > 0 {
        lemma_sorted_len(moves, keys, n - 1);
        lemma_insert_pos_range(sorted_keys(keys, n - 1), keys[n - 1]);
    }
}

/// The sorted keys ascend.
pub proof fn lemma_sorted_keys_ascend(keys: Seq<i32>, n: int)
    requires
        0 <= n <= keys.len(),
    ensures
        ascending(sorted_keys(keys, n)),
        sorted_keys(keys, n).len() == n,
    decreases n,
{
    if n > 0 {
        lemma_sorted_keys_ascend(keys, n - 1);
        let before = sorted_keys(keys, n - 1);
        lemma_insert_pos(before, keys[n - 1]);
    }
}

/// Each sorted move stands with its own key: the move at a place of the
/// sorted moves and the key at that place come from one place of the input.
pub proof fn lemma_sorted_pairs(moves: Seq<Move>, keys: Seq<i32>, n: int, j: int)
    requires
        0 <= n <= moves.len(),
        moves.len() == keys.len(),
        0 <= j < n,
    ensures
        exists|i: int|
            0 <= i < n && sorted_moves(moves, keys, n)[j] == moves[i] && sorted_keys(keys, n)[j]
                == keys[i],
    decreases n,
{
    lemma_sorted_len(moves, keys, n - 1);
    let before = sorted_keys(keys, n - 1);
    let pos = insert_pos(before, keys[n - 1]);
    lemma_insert_pos_range(before, keys[n - 1]);
    if j == pos {
        assert(sorted_moves(moves, keys, n)[j] == moves[n - 1]);
        assert(sorted_keys(keys, n)[j] == keys[n - 1]);
    } else if j < pos {
        lemma_sorted_pairs(moves, keys, n - 1, j);
        let i = choose|i: int|
            0 <= i < n - 1 && sorted_moves(moves, keys, n - 1)[j] == moves[i] && sorted_keys(
                keys,
                n - 1,
            )[j] == keys[i];
        assert(sorted_moves(moves, keys, n)[j] == moves[i]);
        assert(sorted_keys(keys, n)[j] == keys[i]);
    } else {
        lemma_sorted_pairs(moves, keys, n - 1, j - 1);
        let i = choose|i: int|
            0 <= i < n - 1 && sorted_moves(moves, keys, n - 1)[j - 1] == moves[i] && sorted_keys(
                keys,
                n - 1,
            )[j - 1] == keys[i];
        assert(sorted_moves(moves, keys, n)[j] == moves[i]);
        assert(sorted_keys(keys, n)[j] == keys[i]);
    }
}

/// Sorting neither adds nor drops a move.
pub proof fn lemma_sorted_members(moves: Seq<Move>, keys: Seq<i32>, n: int, m: Move)
    requires
        0 <= n <= moves.len(),
        moves.len() == keys.len(),
    ensures
        sorted_moves(moves, keys, n).contains(m) <==> exists|i: int| 0 <= i < n && moves[i] == m,
    decreases n,
{
    if n > 0 {
        lemma_sorted_members(moves, keys, n - 1, m);
        lemma_sorted_len(moves, keys, n - 1);
        let before = sorted_moves(moves, keys, n - 1);
        let pos = insert_pos(sorted_keys(keys, n - 1), keys[n - 1]);
        lemma_insert_pos_range(sorted_keys(keys, n - 1), keys[n - 1]);
        let now = before.insert(pos, moves[n - 1]);
        assert(now[pos] == moves[n - 1]);
        if before.contains(m) {
            let j = choose|j: int| 0 <= j < before.len() && before[j] == m;
            if j < pos {
                assert(now[j] == m);
            } else {
                assert(now[j + 1] == m);
            }
        }
        if now.contains(m) {
            let j = choose|j: int| 0 <= j < now.len() && now[j] == m;
            if j < pos {
                assert(before[j] == m);
            } else if j > pos {
                assert(before[j - 1] == m);
            }
        }
        if exists|i: int| 0 <= i < n && moves[i] == m {
            let i = choose|i: int| 0 <= i < n && moves[i] == m;
            if i < n - 1 {
                assert(before.contains(m));
            }
        }
    }
}

/// The sorted moves hold the moves that were given, and as many.
pub proof fn lemma_stable_sort(moves: Seq<Move>, keys: Seq<i32>)
    requires
        moves.len() == keys.len(),
    ensures
        stable_sort(moves, keys).len() == moves.len(),
        forall|m: Move| stable_sort(moves, keys).contains(m) <==> moves.contains(m),
{
    lemma_sorted_len(moves, keys, moves.len() as int);
    assert forall|m: Move| stable_sort(moves, keys).contains(m) <==> moves.contains(m) by {
        lemma_sorted_members(moves, keys, moves.len() as int, m);
    }
}

/// The place of the first of the `n` first keys that is as small as the
/// smallest of them.
pub open spec fn first_least(keys: Seq<i32>, n: int) -> int
    decreases n,
{
    if n <= 1 {
        0
    } else if keys[n - 1] < keys[first_least(keys, n - 1)] {
        n - 1
    } else {
        first_least(keys, n - 1)
    }
}

/// The place of the first least key lies among the keys, and no key is
/// smaller than the key there.
pub proof fn lemma_first_least(keys: Seq<i32>, n: int)
    requires
        0 < n <= keys.len(),
    ensures
        0 <= first_least(keys, n) < n,
        forall|j: int| 0 <= j < n ==> keys[first_least(keys, n)] <= #[trigger] keys[j],
        forall|j: int|
            0 <= j < first_least(keys, n) ==> keys[first_least(keys, n)] < #[trigger] keys[j],
    decreases n,
{
    if n > 1 {
        lemma_first_least(keys, n - 1);
    }
}

/// The first place with a key that is below every key before it and not
/// above any key is the place of the first least key.
pub proof fn lemma_first_least_is(keys: Seq<i32>, n: int, place: int)
    requires
        0 <= place < n <= keys.len(),
        forall|j: int| 0 <= j < n ==> keys[place] <= #[trigger] keys[j],
        forall|j: int| 0 <= j < place ==> keys[place] < #[trigger] keys[j],
    ensures
        first_least(keys, n) == place,
{
    lemma_first_least(keys, n);
}

/// The first of the sorted moves is the first move with the least key.
pub proof fn lemma_sorted_first(moves: Seq<Move>, keys: Seq<i32>, n: int)
    requires
        0 < n <= moves.len(),
        moves.len() == keys.len(),
    ensures
        sorted_moves(moves, keys, n)[0] == moves[first_least(keys, n)],
        sorted_keys(keys, n)[0] == keys[first_least(keys, n)],
    decreases n,
{
    lemma_sorted_len(moves, keys, n - 1);
    lemma_sorted_keys_ascend(keys, n - 1);
    let before = sorted_keys(keys, n - 1);
    lemma_insert_pos(before, keys[n - 1]);
    if n > 1 {
        lemma_sorted_first(moves, keys, n - 1);
        lemma_first_least(keys, n - 1);
    }
}

/// Sorts the moves by their keys, smallest key first. Moves with equal keys
/// keep their order.
pub fn sort_moves(moves: &Vec<Move>, keys: &Vec<i32>) -> (r: Vec<Move>)
    requires
        moves.len() == keys.len(),
    ensures
        r@ == stable_sort(moves@, keys@),
        r.len() == moves.len(),
{
    let mut out_moves: Vec<Move> = Vec::with_capacity(moves.len());
    let mut out_keys: Vec<i32> = Vec::with_capacity(moves.len());
    let mut i: usize = 0;
    while i < moves.len()
        invariant
            i <= moves.len(),
            moves.len() == keys.len(),
            out_moves@ == sorted_moves(moves@, keys@, i as int),
            out_keys@ == sorted_keys(keys@, i as int),
            out_moves.len() == i,
            out_keys.len() == i,
        decreases moves.len() - i,
    {
        let key: i32 = keys[i];
        let mut j: usize = i;
        assert(out_keys@.subrange(0, j as int) =~= out_keys@);
        while j > 0 && out_keys[j - 1] > key
            invariant
                j <= i,
                out_keys.len() == i,
                insert_pos(out_keys@, key) == insert_pos(out_keys@.subrange(0, j as int), key),
            decreases j,
        {
            proof {
                let part = out_keys@.subrange(0, j as int);
                assert(part.last() == out_keys@[j - 1]);
                assert(part.drop_last() =~= out_keys@.subrange(0, j - 1));
            }
            j -= 1;
        }
        proof {
            let part = out_keys@.subrange(0, j as int);
            if j > 0 {
                assert(part.last() == out_keys@[j - 1]);
            }
            assert(insert_pos(part, key) == j);
        }
        out_keys.insert(j, key);
        out_moves.insert(j, moves[i]);
        i += 1;
    }
    out_moves
}

} // verus!
