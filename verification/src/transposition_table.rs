//! The transposition table: search results stored by the hash of the
//! position, one entry per slot, the slot chosen by the hash.
use vstd::prelude::*;
use crate::bit_move::ScoringMove;
use crate::zobrist::ZobristKey;

verus! {

/// How a stored score relates to the true score of the position.
#[derive(Clone, Copy, PartialEq, Eq, Structural, Debug)]
pub enum TTNodeType {
    Exact,
    /// The score is at least this (a beta cutoff, fail-high).
    LowerBound,
    /// The score is at most this (an alpha fail, fail-low).
    UpperBound,
}

/// What a search stores about a position.
#[derive(Clone, Copy, PartialEq, Eq, Structural, Debug)]
pub struct TTData {
    pub best_move: ScoringMove,
    pub depth: u16,
    pub node_type: TTNodeType,
}

/// A stored result with the full hash of its position.
#[derive(Clone, Copy, PartialEq, Eq, Structural, Debug)]
pub struct TTEntry {
    pub zobrist_key: ZobristKey,
    pub data: TTData,
}

impl TTEntry {
    /// An entry storing `data` under `zobrist_key`.
    pub fn new(zobrist_key: ZobristKey, data: TTData) -> (r: TTEntry)
        ensures
            r == (TTEntry { zobrist_key, data }),
    {
        TTEntry { zobrist_key, data }
    }
}

/// One slot of the table: the main entry, and a second one for results of
/// shallower searches when both tiers are used.
#[derive(Clone, Copy, PartialEq, Eq, Structural, Debug)]
pub struct TTSlot {
    pub main_entry: Option<TTEntry>,
    pub secondary_entry: Option<TTEntry>,
}

/// Size in bytes that one slot takes.
pub const SLOT_BYTES: usize = 48;

/// Megabytes that a new table takes.
pub const TT_INIT_BYTES_SIZE: usize = 16;

pub struct TranspositionTable {
    slots: Vec<TTSlot>,
}

/// What a slot yields for a hash: the data of an entry stored under it.
pub open spec fn entry_data(entry: Option<TTEntry>, key: ZobristKey) -> Option<TTData> {
    match entry {
        Some(e) => if e.zobrist_key == key {
            Some(e.data)
        } else {
            None
        },
        None => None,
    }
}

/// The slot of a hash in a table of `len` slots.
pub open spec fn slot_index(key: ZobristKey, len: nat) -> int {
    (key.0 as nat % len) as int
}

/// Number of slots in a table of `size_mb` megabytes.
pub open spec fn slot_count(size_mb: usize) -> nat {
    (size_mb as nat * 1_000_000) / SLOT_BYTES as nat
}

impl TranspositionTable {
    /// The slots, in order.
    pub closed spec fn view_slots(&self) -> Seq<TTSlot> {
        self.slots@
    }

    /// The table has at least one slot.
    pub open spec fn wf(&self) -> bool {
        self.view_slots().len() > 0
    }

    /// What a lookup of `key` finds: the data of the entry in its slot, if
    /// that entry was stored under the same hash.
    pub open spec fn lookup(&self, key: ZobristKey) -> Option<TTData> {
        entry_data(self.view_slots()[slot_index(key, self.view_slots().len())].main_entry, key)
    }

    /// What a lookup of `key` finds when both tiers are used: the main
    /// entry of its slot if stored under that hash, else the second one if
    /// stored under it.
    pub open spec fn lookup_two_tier(&self, key: ZobristKey) -> Option<TTData> {
        let slot = self.view_slots()[slot_index(key, self.view_slots().len())];
        match entry_data(slot.main_entry, key) {
            Some(d) => Some(d),
            None => entry_data(slot.secondary_entry, key),
        }
    }

    /// Every slot is empty.
    pub open spec fn is_empty_table(&self) -> bool {
        forall|i: int| 0 <= i < self.view_slots().len() ==> #[trigger] self.view_slots()[i] == (TTSlot {
            main_entry: None,
            secondary_entry: None,
        })
    }

    fn empty_slots(n: usize) -> (r: Vec<TTSlot>)
        ensures
            r@.len() == n,
            forall|i: int| 0 <= i < n ==> #[trigger] r@[i] == (TTSlot { main_entry: None, secondary_entry: None }),
    {
        let mut v: Vec<TTSlot> = Vec::new();
        let mut i: usize = 0;
        while i < n
            invariant
                i <= n,
                v@.len() == i,
                forall|j: int| 0 <= j < i ==> #[trigger] v@[j] == (TTSlot { main_entry: None, secondary_entry: None }),
            decreases n - i,
        {
            v.push(TTSlot { main_entry: None, secondary_entry: None });
            i = i + 1;
        }
        v
    }

    /// Whether the entry was stored under `zobrist_key`.
    fn verify_key(zobrist_key: ZobristKey, entry: &TTEntry) -> (r: bool)
        ensures
            r == (entry.zobrist_key == zobrist_key),
    {
        entry.zobrist_key == zobrist_key
    }

    /// Puts an entry of `data` under `zobrist_key` in place of `entry`.
    fn store_entry(entry: &mut Option<TTEntry>, zobrist_key: ZobristKey, data: TTData)
        ensures
            *final(entry) == Some(TTEntry { zobrist_key, data }),
    {
        *entry = Some(TTEntry::new(zobrist_key, data));
    }

    /// The slot of a hash.
    fn slot_of(&self, zobrist_key: ZobristKey) -> (r: usize)
        requires
            self.wf(),
        ensures
            r == slot_index(zobrist_key, self.view_slots().len()),
            r < self.view_slots().len(),
    {
        (zobrist_key.0 % (self.slots.len() as u64)) as usize
    }

    /// An empty table of `size_mb` megabytes.
    pub fn new(size_mb: usize) -> (r: TranspositionTable)
        requires
            1 <= size_mb,
            size_mb * 1_000_000 <= usize::MAX,
        ensures
            r.wf(),
            r.view_slots().len() == slot_count(size_mb),
            r.is_empty_table(),
            forall|key: ZobristKey| #[trigger] r.lookup(key) is None,
    {
        let n = size_mb * 1_000_000 / SLOT_BYTES;
        let r = TranspositionTable { slots: Self::empty_slots(n) };
        proof {
            Self::lemma_empty_lookup(r);
        }
        r
    }

    /// A table of the default size.
    pub fn init() -> (r: TranspositionTable)
        ensures
            r.wf(),
            r.view_slots().len() == slot_count(TT_INIT_BYTES_SIZE),
            r.is_empty_table(),
            forall|key: ZobristKey| #[trigger] r.lookup(key) is None,
    {
        Self::new(TT_INIT_BYTES_SIZE)
    }

    /// Empties every slot, keeping the size.
    pub fn reset(&mut self)
        ensures
            final(self).view_slots().len() == old(self).view_slots().len(),
            final(self).is_empty_table(),
    {
        let n = self.slots.len();
        self.slots = Self::empty_slots(n);
    }

    /// Replaces the table by an empty one of `size_mb` megabytes.
    pub fn resize(&mut self, size_mb: usize)
        requires
            1 <= size_mb,
            size_mb * 1_000_000 <= usize::MAX,
        ensures
            final(self).wf(),
            final(self).view_slots().len() == slot_count(size_mb),
            final(self).is_empty_table(),
            forall|key: ZobristKey| #[trigger] final(self).lookup(key) is None,
    {
        *self = Self::new(size_mb);
    }

    /// An emptied table finds nothing.
    pub proof fn lemma_empty_lookup(table: TranspositionTable)
        requires
            table.wf(),
            table.is_empty_table(),
        ensures
            forall|key: ZobristKey| #[trigger] table.lookup(key) is None,
            forall|key: ZobristKey| #[trigger] table.lookup_two_tier(key) is None,
    {
        assert forall|key: ZobristKey| #[trigger] table.lookup(key) is None by {
            assert(table.view_slots()[slot_index(key, table.view_slots().len())].main_entry is None);
        }
        assert forall|key: ZobristKey| #[trigger] table.lookup_two_tier(key) is None by {
            assert(table.view_slots()[slot_index(key, table.view_slots().len())].main_entry is None);
        }
    }

    /// Stores `data` under `zobrist_key` as the main entry of its slot.
    pub fn store(&mut self, zobrist_key: ZobristKey, data: TTData)
        requires
            old(self).wf(),
        ensures
            final(self).wf(),
            final(self).view_slots() == old(self).view_slots().update(
                slot_index(zobrist_key, old(self).view_slots().len()),
                TTSlot {
                    main_entry: Some(TTEntry { zobrist_key, data }),
                    ..old(self).view_slots()[slot_index(zobrist_key, old(self).view_slots().len())]
                },
            ),
    {
        let index = self.slot_of(zobrist_key);
        let mut slot = self.slots[index];
        Self::store_entry(&mut slot.main_entry, zobrist_key, data);
        self.slots.set(index, slot);
    }

    /// The data of the main entry of the slot of `zobrist_key`, if it was
    /// stored under that hash.
    pub fn probe(&self, zobrist_key: ZobristKey) -> (r: Option<TTData>)
        requires
            self.wf(),
        ensures
            r == self.lookup(zobrist_key),
    {
        let slot = self.slots[self.slot_of(zobrist_key)];
        match slot.main_entry {
            Some(entry) => {
                if Self::verify_key(zobrist_key, &entry) {
                    Some(entry.data)
                } else {
                    None
                }
            },
            None => None,
        }
    }

    /// Stores `data` under `zobrist_key` with two tiers: as the main entry
    /// when the slot has none or `data` comes from a search at least as
    /// deep as the main entry's, else as the second entry.
    pub fn store_two_tier(&mut self, zobrist_key: ZobristKey, data: TTData)
        requires
            old(self).wf(),
        ensures
            final(self).wf(),
            ({
                let i = slot_index(zobrist_key, old(self).view_slots().len());
                let slot = old(self).view_slots()[i];
                let entry = Some(TTEntry { zobrist_key, data });
                final(self).view_slots() == old(self).view_slots().update(
                    i,
                    match slot.main_entry {
                        Some(existing) => if data.depth >= existing.data.depth {
                            TTSlot { main_entry: entry, ..slot }
                        } else {
                            TTSlot { secondary_entry: entry, ..slot }
                        },
                        None => TTSlot { main_entry: entry, ..slot },
                    },
                )
            }),
    {
        let index = self.slot_of(zobrist_key);
        let mut slot = self.slots[index];
        match slot.main_entry {
            Some(existing_entry) => {
                if data.depth >= existing_entry.data.depth {
                    Self::store_entry(&mut slot.main_entry, zobrist_key, data);
                } else {
                    Self::store_entry(&mut slot.secondary_entry, zobrist_key, data);
                }
            },
            None => {
                Self::store_entry(&mut slot.main_entry, zobrist_key, data);
            },
        }
        self.slots.set(index, slot);
    }

    /// The data stored under `zobrist_key` with two tiers: the main entry's
    /// if stored under that hash, else the second entry's if stored under it.
    pub fn probe_two_tier(&self, zobrist_key: ZobristKey) -> (r: Option<TTData>)
        requires
            self.wf(),
        ensures
            r == self.lookup_two_tier(zobrist_key),
    {
        let slot = self.slots[self.slot_of(zobrist_key)];
        if let Some(entry) = slot.main_entry {
            if Self::verify_key(zobrist_key, &entry) {
                return Some(entry.data);
            }
        }
        if let Some(entry) = slot.secondary_entry {
            if Self::verify_key(zobrist_key, &entry) {
                return Some(entry.data);
            }
        }
        None
    }
}

/// A lookup right after a store under the same hash finds what was stored,
/// and a store leaves every hash of another slot as it was.
pub proof fn law_store_then_probe(table: TranspositionTable, after: TranspositionTable, key: ZobristKey, data: TTData, other: ZobristKey)
    requires
        table.wf(),
        after.view_slots() == table.view_slots().update(
            slot_index(key, table.view_slots().len()),
            TTSlot {
                main_entry: Some(TTEntry { zobrist_key: key, data }),
                ..table.view_slots()[slot_index(key, table.view_slots().len())]
            },
        ),
    ensures
        after.lookup(key) == Some(data),
        slot_index(other, table.view_slots().len()) != slot_index(key, table.view_slots().len())
            ==> after.lookup(other) == table.lookup(other),
{
}

/// With two tiers, a lookup right after a store under the same hash finds
/// data of that hash: what was stored, unless the main entry already held
/// that hash from a deeper search, whose data it then finds.
pub proof fn law_two_tier_store_then_probe(table: TranspositionTable, after: TranspositionTable, key: ZobristKey, data: TTData)
    requires
        table.wf(),
        ({
            let i = slot_index(key, table.view_slots().len());
            let slot = table.view_slots()[i];
            let entry = Some(TTEntry { zobrist_key: key, data });
            after.view_slots() == table.view_slots().update(
                i,
                match slot.main_entry {
                    Some(existing) => if data.depth >= existing.data.depth {
                        TTSlot { main_entry: entry, ..slot }
                    } else {
                        TTSlot { secondary_entry: entry, ..slot }
                    },
                    None => TTSlot { main_entry: entry, ..slot },
                },
            )
        }),
    ensures
        after.lookup_two_tier(key) is Some,
        ({
            let slot = table.view_slots()[slot_index(key, table.view_slots().len())];
            match slot.main_entry {
                Some(existing) => if existing.zobrist_key == key && data.depth < existing.data.depth {
                    after.lookup_two_tier(key) == Some(existing.data)
                } else {
                    after.lookup_two_tier(key) == Some(data)
                },
                None => after.lookup_two_tier(key) == Some(data),
            }
        }),
{
}

} // verus!
