//! The list that move generation fills.
use vstd::prelude::*;
use crate::bit_move::{BitMove, Move, ScoringMove};

verus! {

/// At most this many moves are possible in a position.
pub const MAX_MOVES: usize = 255;

pub struct MoveList<T> {
    array: Vec<T>,
}

impl<T: Move> MoveList<T> {
    /// The entries, in order.
    pub closed spec fn entries(&self) -> Seq<T> {
        self.array@
    }

    /// The moves of the entries, in order.
    pub open spec fn moves(&self) -> Seq<BitMove> {
        self.entries().map_values(|x: T| x.bit_move_of())
    }

    /// An empty list.
    pub fn new() -> (r: MoveList<T>)
        ensures
            r.entries().len() == 0,
    {
        MoveList { array: Vec::new() }
    }

    /// Appends a move.
    pub fn add(&mut self, mv: T)
        ensures
            final(self).entries() == old(self).entries().push(mv),
    {
        self.array.push(mv);
    }

    /// Number of moves.
    pub fn len(&self) -> (r: usize)
        ensures
            r == self.entries().len(),
    {
        self.array.len()
    }

    /// Whether the list is empty.
    pub fn is_empty(&self) -> (r: bool)
        ensures
            r == (self.entries().len() == 0),
    {
        self.array.len() == 0
    }

    /// The entry at `index`.
    pub fn get(&self, index: usize) -> (r: T)
        requires
            index < self.entries().len(),
        ensures
            r == self.entries()[index as int],
    {
        self.array[index]
    }

    /// The entries as a slice, in order.
    pub fn iter(&self) -> (r: &[T])
        ensures
            r@ == self.entries(),
    {
        self.array.as_slice()
    }

    /// Replaces the entry at `index`.
    pub fn set(&mut self, index: usize, mv: T)
        requires
            index < old(self).entries().len(),
        ensures
            final(self).entries() == old(self).entries().update(index as int, mv),
    {
        self.array.set(index, mv);
    }

    /// Hands the entries out one by one, in order.
    pub fn into_iter(self) -> (r: MoveListIntoIter<T>)
        ensures
            r.remaining() == self.entries(),
    {
        MoveListIntoIter { move_list: self.array, idx: 0 }
    }

    /// The entries, handed over as a vector.
    pub fn into_vec(self) -> (r: Vec<T>)
        ensures
            r@ == self.entries(),
    {
        self.array
    }
}

/// The entries of a move list, handed out one by one.
pub struct MoveListIntoIter<T> {
    move_list: Vec<T>,
    idx: usize,
}

impl<T: Move> MoveListIntoIter<T> {
    /// The entries not handed out yet, in order.
    pub closed spec fn remaining(&self) -> Seq<T> {
        if self.idx <= self.move_list@.len() {
            self.move_list@.subrange(self.idx as int, self.move_list@.len() as int)
        } else {
            Seq::empty()
        }
    }

    /// The next entry, if any is left.
    pub fn next(&mut self) -> (r: Option<T>)
        ensures
            old(self).remaining().len() == 0 ==> r is None && final(self).remaining() == old(self).remaining(),
            old(self).remaining().len() > 0 ==> r == Some(old(self).remaining()[0]) && final(self).remaining()
                == old(self).remaining().drop_first(),
    {
        if self.idx >= self.move_list.len() {
            None
        } else {
            let m = self.move_list[self.idx];
            self.idx = self.idx + 1;
            proof {
                assert(final(self).remaining() =~= old(self).remaining().drop_first());
            }
            Some(m)
        }
    }
}

impl MoveList<ScoringMove> {
    /// Sorts the entries by score, highest first.
    pub fn sort_by_score(&mut self)
        ensures
            final(self).entries().to_multiset() == old(self).entries().to_multiset(),
            forall|a: int, b: int|
                0 <= a < b < final(self).entries().len() ==> (#[trigger] final(self).entries()[a]).score
                    >= (#[trigger] final(self).entries()[b]).score,
    {
        let n = self.array.len();
        let mut i: usize = 0;
        while i < n
            invariant
                i <= n,
                n == self.array@.len(),
                self.array@.to_multiset() == old(self).array@.to_multiset(),
                forall|a: int, b: int| 0 <= a < b < i ==> (#[trigger] self.array@[a]).score >= (#[trigger] self.array@[b]).score,
            decreases n - i,
        {
            let mut j: usize = i;
            while j > 0 && self.array[j - 1].score < self.array[j].score
                invariant
                    j <= i < n,
                    n == self.array@.len(),
                    self.array@.to_multiset() == old(self).array@.to_multiset(),
                    forall|a: int, b: int|
                        0 <= a < b <= i && a != j && b != j ==> (#[trigger] self.array@[a]).score >= (
                        #[trigger] self.array@[b]).score,
                    forall|b: int| j < b <= i ==> self.array@[j as int].score > (#[trigger] self.array@[b]).score,
                decreases j,
            {
                let x = self.array[j - 1];
                let y = self.array[j];
                let ghost before = self.array@;
                self.array.set(j - 1, y);
                self.array.set(j, x);
                proof {
                    broadcast use vstd::seq_lib::to_multiset_update;
                    broadcast use vstd::multiset::group_multiset_properties;
                    let mid = before.update(j - 1, y);
                    assert(mid.to_multiset() == before.to_multiset().insert(y).remove(x));
                    assert(self.array@ == mid.update(j as int, x));
                    assert(self.array@.to_multiset() == mid.to_multiset().insert(x).remove(mid[j as int]));
                    broadcast use vstd::multiset::group_multiset_axioms;
                    assert(mid[j as int] == y);
                    let m0 = before.to_multiset();
                    assert(m0.count(x) > 0) by {
                        broadcast use vstd::seq_lib::to_multiset_contains;
                        assert(before[j - 1] == x);
                        assert(before.contains(x));
                    }
                    assert(self.array@.to_multiset() =~= m0);
                }
                j = j - 1;
            }
            i = i + 1;
        }
    }

    /// The first entry with the highest score, if any.
    pub fn max_by_score(&self) -> (r: Option<ScoringMove>)
        ensures
            self.entries().len() == 0 <==> r is None,
            r matches Some(best) ==> self.entries().contains(best) && forall|i: int|
                0 <= i < self.entries().len() ==> #[trigger] self.entries()[i].score <= best.score,
    {
        if self.array.len() == 0 {
            return None;
        }
        let mut best = self.array[0];
        let mut i: usize = 1;
        while i < self.array.len()
            invariant
                1 <= i <= self.array@.len(),
                self.array@.contains(best),
                forall|j: int| 0 <= j < i ==> #[trigger] self.array@[j].score <= best.score,
            decreases self.array@.len() - i,
        {
            if self.array[i].score > best.score {
                best = self.array[i];
            }
            i = i + 1;
        }
        Some(best)
    }

    /// The first entry with the lowest score, if any.
    pub fn min_by_score(&self) -> (r: Option<ScoringMove>)
        ensures
            self.entries().len() == 0 <==> r is None,
            r matches Some(worst) ==> self.entries().contains(worst) && forall|i: int|
                0 <= i < self.entries().len() ==> worst.score <= #[trigger] self.entries()[i].score,
    {
        if self.array.len() == 0 {
            return None;
        }
        let mut worst = self.array[0];
        let mut i: usize = 1;
        while i < self.array.len()
            invariant
                1 <= i <= self.array@.len(),
                self.array@.contains(worst),
                forall|j: int| 0 <= j < i ==> worst.score <= #[trigger] self.array@[j].score,
            decreases self.array@.len() - i,
        {
            if self.array[i].score < worst.score {
                worst = self.array[i];
            }
            i = i + 1;
        }
        Some(worst)
    }
}

} // verus!
