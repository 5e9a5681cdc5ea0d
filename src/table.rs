use vstd::prelude::*;
use crate::board::BreakthroughNode;
use crate::game::Evaluation;

verus! {

/// A remembered search result: the position, the depth it was searched to, and the
/// evaluation found.
pub type Entry = (BreakthroughNode, u32, Evaluation);

/// FNV-1a offset basis.
pub const FNV_OFFSET: u64 = 14695981039346656037;
/// FNV-1a prime.
pub const FNV_PRIME: u64 = 1099511628211;

/// Byte `i` (from the least significant) of `x`.
pub open spec fn byte_of(x: u64, i: nat) -> u64 {
    (x >> ((8 * i) as u64)) & 0xff
}

/// One FNV-1a step: mix in a byte, then multiply by the prime modulo 2^64.
pub open spec fn fnv_step(h: u64, byte: u64) -> u64 {
    (((h ^ byte) as nat * FNV_PRIME as nat) % 0x1_0000_0000_0000_0000) as u64
}

/// FNV-1a over the first `k` bytes of each bit-set, taken in turn: White's, then Black's.
pub open spec fn fnv_prefix(white: u64, black: u64, k: nat) -> u64
    decreases k,
{
    if k == 0 {
        FNV_OFFSET
    } else {
        let h = fnv_prefix(white, black, (k - 1) as nat);
        fnv_step(fnv_step(h, byte_of(white, (k - 1) as nat)), byte_of(black, (k - 1) as nat))
    }
}

/// The key of a position: FNV-1a over the bytes of both bit-sets. The side to move is
/// left out: pieces only advance, so an occupancy fixes whose turn it is.
#[verifier::opaque]
pub open spec fn position_hash(node: BreakthroughNode) -> u64 {
    fnv_prefix(node.bitboard_white, node.bitboard_black, 8)
}

/// The number of filled slots.
pub open spec fn filled(slots: Seq<Option<Entry>>) -> nat
    decreases slots.len(),
{
    if slots.len() == 0 {
        0
    } else {
        filled(slots.drop_last()) + if slots.last() is Some {
            1nat
        } else {
            0nat
        }
    }
}

proof fn lemma_filled_bound(slots: Seq<Option<Entry>>)
    ensures
        filled(slots) <= slots.len(),
    decreases slots.len(),
{
    if slots.len() > 0 {
        lemma_filled_bound(slots.drop_last());
    }
}

proof fn lemma_filled_update(slots: Seq<Option<Entry>>, i: int, e: Option<Entry>)
    requires
        0 <= i < slots.len(),
    ensures
        filled(slots.update(i, e)) == filled(slots) - (if slots[i] is Some {
            1int
        } else {
            0int
        }) + (if e is Some {
            1int
        } else {
            0int
        }),
    decreases slots.len(),
{
    let u = slots.update(i, e);
    if i == slots.len() - 1 {
        assert(u.drop_last() =~= slots.drop_last());
    } else {
        lemma_filled_update(slots.drop_last(), i, e);
        assert(u.drop_last() =~= slots.drop_last().update(i, e));
    }
}

/// The slot of `node` in a table of `capacity` slots.
pub open spec fn slot_index(node: BreakthroughNode, capacity: nat) -> int {
    (position_hash(node) as usize) as int % (capacity as int)
}

/// What a lookup of `node` needing at least `depth` finds in `slots`: the entry in the
/// position's slot when it is for this very position and searched deep enough. With no
/// slots, nothing.
pub open spec fn table_lookup(slots: Seq<Option<Entry>>, node: BreakthroughNode, depth: u32) -> Option<
    Entry,
> {
    if slots.len() == 0 {
        None
    } else {
        match slots[slot_index(node, slots.len())] {
            Some(e) => if e.0 == node && e.1 >= depth {
                Some(e)
            } else {
                None
            },
            None => None,
        }
    }
}

/// `slots` after storing `entry` in its position's slot. With no slots, unchanged.
pub open spec fn table_store(slots: Seq<Option<Entry>>, entry: Entry) -> Seq<Option<Entry>> {
    if slots.len() == 0 {
        slots
    } else {
        slots.update(slot_index(entry.0, slots.len()), Some(entry))
    }
}

/// A fixed number of slots, each holding at most one entry, addressed by the position's
/// hash modulo the capacity. A capacity of zero turns the table off.
pub struct TranspositionTable {
    capacity: usize,
    collisions: usize,
    occupied: usize,
    table: Vec<Option<Entry>>,
}

impl TranspositionTable {
    /// The number of slots the table was made with.
    pub closed spec fn spec_capacity(&self) -> nat {
        self.capacity as nat
    }

    /// The contents of the slots.
    pub closed spec fn slots(&self) -> Seq<Option<Entry>> {
        self.table@
    }

    /// How many slots have been filled.
    pub closed spec fn spec_occupied(&self) -> nat {
        self.occupied as nat
    }

    /// How many times an entry replaced one for another position.
    pub closed spec fn spec_collisions(&self) -> nat {
        self.collisions as nat
    }

    /// One slot per unit of capacity, and the count of filled slots is kept.
    pub closed spec fn wf(&self) -> bool {
        &&& self.table@.len() == self.capacity
        &&& self.occupied == filled(self.table@)
        &&& forall|i: int|
            0 <= i < self.table@.len() ==> (#[trigger] self.table@[i] matches Some(e)
                ==> e.2.negatable())
    }

    /// The slot that a position goes to.
    pub open spec fn slot_of(&self, node: BreakthroughNode) -> int
        recommends
            self.spec_capacity() > 0,
    {
        slot_index(node, self.spec_capacity())
    }

    /// What a lookup of `node` needing at least `depth` finds.
    pub open spec fn spec_get(&self, node: BreakthroughNode, depth: u32) -> Option<Entry> {
        table_lookup(self.slots(), node, depth)
    }

    /// The number of slots is the capacity.
    pub proof fn lemma_capacity(&self)
        requires
            self.wf(),
        ensures
            self.slots().len() == self.spec_capacity(),
    {
    }

    /// An empty table with `capacity` slots.
    pub fn new(capacity: usize) -> (r: TranspositionTable)
        ensures
            r.wf(),
            r.spec_capacity() == capacity,
            r.slots() == Seq::new(capacity as nat, |i: int| None::<Entry>),
            r.spec_occupied() == 0,
            r.spec_collisions() == 0,
    {
        let mut table: Vec<Option<Entry>> = Vec::new();
        let mut i: usize = 0;
        while i < capacity
            invariant
                i <= capacity,
                table@ == Seq::new(i as nat, |j: int| None::<Entry>),
                filled(table@) == 0,
            decreases capacity - i,
        {
            let ghost before = table@;
            table.push(None);
            assert(table@.drop_last() =~= before);
            i = i + 1;
            assert(table@ =~= Seq::new(i as nat, |j: int| None::<Entry>));
        }
        TranspositionTable { capacity, collisions: 0, occupied: 0, table }
    }

    /// FNV-1a over the bytes of both bit-sets.
    fn hash(node: &BreakthroughNode) -> (r: u64)
        ensures
            r == position_hash(*node),
    {
        let mut hash: u64 = FNV_OFFSET;
        let mut i: u64 = 0;
        while i < 8
            invariant
                i <= 8,
                hash == fnv_prefix(node.bitboard_white, node.bitboard_black, i as nat),
            decreases 8 - i,
        {
            let byte = (node.bitboard_white >> (8 * i)) & 0xff;
            hash = (hash ^ byte).wrapping_mul(FNV_PRIME);
            let byte = (node.bitboard_black >> (8 * i)) & 0xff;
            hash = (hash ^ byte).wrapping_mul(FNV_PRIME);
            i = i + 1;
        }
        proof {
            reveal(position_hash);
        }
        hash
    }

    fn get_with_index(&self, node: &BreakthroughNode) -> (r: (usize, &Option<Entry>))
        requires
            self.wf(),
            self.spec_capacity() > 0,
        ensures
            r.0 == self.slot_of(*node),
            *r.1 == self.slots()[self.slot_of(*node)],
    {
        let index: usize = (Self::hash(node) as usize) % self.capacity;
        (index, &self.table[index])
    }

    /// The entry for `node` if one is stored that was searched to at least `depth`.
    /// A slot that holds another position is a miss, never a wrong hit.
    pub fn get(&self, node: &BreakthroughNode, depth: u32) -> (r: Option<&Entry>)
        requires
            self.wf(),
        ensures
            match r {
                Some(e) => self.spec_get(*node, depth) == Some(*e),
                None => self.spec_get(*node, depth) is None,
            },
            r matches Some(e) ==> e.2.negatable(),
    {
        if self.capacity == 0 {
            return None;
        }
        let result = self.get_with_index(node).1;
        match result {
            None => None,
            Some(entry) => if entry.0 == *node && entry.1 >= depth {
                Some(entry)
            } else {
                None
            },
        }
    }

    /// Stores `entry` in its position's slot, replacing what was there. Counts a slot
    /// filled for the first time, and a slot taken from another position.
    pub fn put(&mut self, entry: Entry)
        requires
            old(self).wf(),
            entry.2.negatable(),
        ensures
            final(self).wf(),
            final(self).spec_capacity() == old(self).spec_capacity(),
            final(self).slots() == table_store(old(self).slots(), entry),
            old(self).spec_capacity() == 0 ==> final(self).spec_occupied()
                == old(self).spec_occupied() && final(self).spec_collisions()
                == old(self).spec_collisions(),
            old(self).spec_capacity() > 0 ==> {
                let prev = old(self).slots()[old(self).slot_of(entry.0)];
                &&& final(self).spec_occupied() == old(self).spec_occupied() + if prev is None {
                    1nat
                } else {
                    0nat
                }
                &&& final(self).spec_collisions() == if prev matches Some(v) && v.0 != entry.0 {
                    if old(self).spec_collisions() < usize::MAX {
                        old(self).spec_collisions() + 1
                    } else {
                        old(self).spec_collisions()
                    }
                } else {
                    old(self).spec_collisions()
                }
            },
    {
        if self.capacity == 0 {
            return;
        }
        let index = self.get_with_index(&entry.0).0;
        let current: Option<Entry> = self.table[index];
        let ghost slots = self.table@;
        proof {
            lemma_filled_update(slots, index as int, Some(entry));
            lemma_filled_bound(slots.update(index as int, Some(entry)));
        }
        self.table.set(index, Some(entry));
        assert(self.table@ == table_store(slots, entry));
        match current {
            None => {
                self.occupied = self.occupied + 1;
            },
            Some(value) => {
                if value.0 != entry.0 {
                    self.collisions = self.collisions.saturating_add(1);
                }
            },
        }
    }

    /// The capacity, the number of filled slots, and the number of slots taken over
    /// from another position so far. For diagnostics only.
    pub fn stats(&self) -> (r: (usize, usize, usize))
        ensures
            r.0 == self.spec_capacity(),
            r.1 == self.spec_occupied(),
            r.2 == self.spec_collisions(),
    {
        (self.capacity, self.occupied, self.collisions)
    }
}

} // verus!
