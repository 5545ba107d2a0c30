//! Killer moves: per ply, the two latest quiet moves that caused a cutoff.
use vstd::prelude::*;
use crate::bit_move::{BitMove, EMPTY};

verus! {

/// Plies that killer moves are kept for.
pub const MAX_DEPTH: u16 = 64;

pub struct KillerMoves {
    primary: Vec<BitMove>,
    secondary: Vec<BitMove>,
}

impl KillerMoves {
    /// The latest killer move of each ply.
    pub closed spec fn primaries(&self) -> Seq<BitMove> {
        self.primary@
    }

    /// The killer move before the latest, of each ply.
    pub closed spec fn secondaries(&self) -> Seq<BitMove> {
        self.secondary@
    }

    /// There is a slot for each ply.
    pub open spec fn wf(&self) -> bool {
        self.primaries().len() == MAX_DEPTH && self.secondaries().len() == MAX_DEPTH
    }

    fn empty_moves() -> (r: Vec<BitMove>)
        ensures
            r@.len() == MAX_DEPTH,
            forall|i: int| 0 <= i < MAX_DEPTH ==> #[trigger] r@[i] == BitMove(EMPTY),
    {
        let mut v: Vec<BitMove> = Vec::new();
        let mut i: u16 = 0;
        while i < MAX_DEPTH
            invariant
                i <= MAX_DEPTH,
                v@.len() == i,
                forall|j: int| 0 <= j < i ==> #[trigger] v@[j] == BitMove(EMPTY),
            decreases MAX_DEPTH - i,
        {
            v.push(BitMove(EMPTY));
            i = i + 1;
        }
        v
    }

    /// No killer moves yet: every slot holds the empty move.
    pub fn new() -> (r: KillerMoves)
        ensures
            r.wf(),
            forall|i: int| 0 <= i < MAX_DEPTH ==> #[trigger] r.primaries()[i] == BitMove(EMPTY)
                && r.secondaries()[i] == BitMove(EMPTY),
    {
        KillerMoves { primary: Self::empty_moves(), secondary: Self::empty_moves() }
    }

    /// The latest killer move of the ply, if the ply is kept.
    pub fn get_primary(&self, ply: u16) -> (r: Option<BitMove>)
        requires
            self.wf(),
        ensures
            r == (if ply < MAX_DEPTH { Some(self.primaries()[ply as int]) } else { None }),
    {
        if ply < MAX_DEPTH {
            Some(self.primary[ply as usize])
        } else {
            None
        }
    }

    /// The killer move before the latest of the ply, if the ply is kept.
    pub fn get_secondary(&self, ply: u16) -> (r: Option<BitMove>)
        requires
            self.wf(),
        ensures
            r == (if ply < MAX_DEPTH { Some(self.secondaries()[ply as int]) } else { None }),
    {
        if ply < MAX_DEPTH {
            Some(self.secondary[ply as usize])
        } else {
            None
        }
    }

    /// Records a new killer move of the ply: the latest one moves to second
    /// place. Plies that are not kept are ignored.
    pub fn update(&mut self, bit_move: BitMove, ply: u16)
        requires
            old(self).wf(),
        ensures
            final(self).wf(),
            ply < MAX_DEPTH ==> final(self).primaries() == old(self).primaries().update(ply as int, bit_move),
            ply < MAX_DEPTH ==> final(self).secondaries() == old(self).secondaries().update(
                ply as int,
                old(self).primaries()[ply as int],
            ),
            ply >= MAX_DEPTH ==> final(self).primaries() == old(self).primaries()
                && final(self).secondaries() == old(self).secondaries(),
    {
        if ply < MAX_DEPTH {
            let previous = self.primary[ply as usize];
            self.secondary.set(ply as usize, previous);
            self.primary.set(ply as usize, bit_move);
        }
    }

    /// Forgets all killer moves.
    pub fn reset(&mut self)
        ensures
            final(self).wf(),
            forall|i: int| 0 <= i < MAX_DEPTH ==> #[trigger] final(self).primaries()[i] == BitMove(EMPTY)
                && final(self).secondaries()[i] == BitMove(EMPTY),
    {
        *self = Self::new();
    }
}

/// After a killer move is recorded for a kept ply, it is the latest one of
/// that ply and the one recorded before it comes second.
pub proof fn law_update_then_get(before: KillerMoves, after: KillerMoves, bit_move: BitMove, ply: u16)
    requires
        before.wf(),
        ply < MAX_DEPTH,
        after.primaries() == before.primaries().update(ply as int, bit_move),
        after.secondaries() == before.secondaries().update(ply as int, before.primaries()[ply as int]),
    ensures
        after.primaries()[ply as int] == bit_move,
        after.secondaries()[ply as int] == before.primaries()[ply as int],
{
}

} // verus!
