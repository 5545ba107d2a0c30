//! A position with a node counter, for performance tests.
use vstd::prelude::*;
use crate::bit_move::BitMove;
use crate::move_generation::pseudo_legal;
use crate::perft::{Perft, divide_total, is_legal, perft_nodes};
use crate::position::Position;

verus! {

pub struct Engine {
    pub position: Position,
    pub nodes: u64,
}

impl Engine {
    /// Adds to the node counter the number of sequences of `depth` legal
    /// moves from the position. Returns `false`, leaving the counter as it
    /// was, when the sum does not fit in 64 bits.
    pub fn perft_driver(&mut self, depth: u8) -> (r: bool)
        requires
            old(self).position.wf(),
            old(self).position.ply + depth <= u16::MAX,
        ensures
            final(self).position == old(self).position,
            r ==> final(self).nodes == old(self).nodes + perft_nodes(old(self).position, depth as nat),
            !r ==> final(self).nodes == old(self).nodes && old(self).nodes + perft_nodes(
                old(self).position,
                depth as nat,
            ) > u64::MAX,
    {
        match Perft::perft_driver_single_thread_clone(&self.position, depth) {
            Some(n) => {
                if n > u64::MAX - self.nodes {
                    false
                } else {
                    self.nodes = self.nodes + n;
                    true
                }
            },
            None => false,
        }
    }

    /// Counts, for each legal move of the position, the sequences of
    /// `depth` legal moves that start with it. The node counter is left at 0.
    /// `None` when the total does not fit in 64 bits.
    pub fn perft_test(&mut self, depth: u8) -> (r: Option<Vec<(BitMove, u64)>>)
        requires
            old(self).position.wf(),
            old(self).position.has_kings(),
            1 <= depth,
            old(self).position.ply + depth <= u16::MAX,
        ensures
            final(self).position == old(self).position,
            final(self).nodes == 0,
            r matches Some(v) ==> {
                let p = old(self).position;
                &&& forall|i: int| 0 <= i < v@.len() ==> is_legal(p, (#[trigger] v@[i]).0)
                    && v@[i].1 == perft_nodes(p.play(v@[i].0@), (depth - 1) as nat)
                &&& forall|bm: BitMove| bm.encoded() && pseudo_legal(p, bm@) && is_legal(p, bm)
                    ==> exists|i: int| 0 <= i < v@.len() && (#[trigger] v@[i]).0 == bm
                &&& divide_total(v@) == perft_nodes(p, depth as nat)
            },
            r is None ==> perft_nodes(old(self).position, depth as nat) > u64::MAX,
    {
        self.nodes = 0;
        Perft::perft_divide(&self.position, depth)
    }
}

} // verus!
