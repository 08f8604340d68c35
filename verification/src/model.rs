//! The mathematical model of a slab: which indices have a slot, and the
//! bytes of each.
use crate::slot::zeros;
use crate::tier::{
    lemma_tier_of_bounds, lemma_tier_of_ordered, lemma_tier_ordered, tier_end, tier_of,
    MAX_ENTRIES,
};
use vstd::prelude::*;

verus! {

/// What a slab is, apart from how it keeps its buffers.
#[verifier::ext_equal]
pub struct SlabView {
    /// Size of every slot in bytes.
    pub raw_size: nat,
    /// Number of slots in the primary buffer.
    pub capacity: nat,
    /// The bytes of every slot that has storage, by index.
    pub slots: Map<nat, Seq<u8>>,
}

impl SlabView {
    /// A slab as `with_capacity` makes it. With slot size zero every index
    /// has an (empty) slot and the capacity is the unbounded sentinel.
    pub open spec fn fresh(raw_size: nat, capacity: nat) -> SlabView {
        SlabView {
            raw_size,
            capacity: if raw_size == 0 {
                usize::MAX as nat
            } else {
                capacity
            },
            slots: Map::new(|i: nat| raw_size == 0 || i < capacity, |i: nat| zeros(raw_size)),
        }
    }

    /// Whether slot `index` has storage.
    pub open spec fn holds(self, index: nat) -> bool {
        self.slots.dom().contains(index)
    }

    /// What a lookup of slot `index` answers.
    pub open spec fn get(self, index: nat) -> Option<Seq<u8>> {
        if self.holds(index) {
            Some(self.slots[index])
        } else {
            None
        }
    }

    /// The slab after `bytes` were written to slot `index`.
    pub open spec fn written(self, index: nat, bytes: Seq<u8>) -> SlabView {
        SlabView { slots: self.slots.insert(index, bytes), ..self }
    }

    /// Every slot has the slot size, every index below the capacity has a
    /// slot, and with slot size zero every index has one.
    pub open spec fn valid(self) -> bool {
        &&& forall|i: nat| self.holds(i) ==> (#[trigger] self.slots[i]).len() == self.raw_size
        &&& forall|i: nat| i < self.capacity ==> self.holds(i)
        &&& self.raw_size == 0 ==> self.capacity == usize::MAX && forall|i: nat| self.holds(i)
    }

    /// Whether `index` has a place: in the primary buffer, or at an
    /// overflow offset that the buckets reach.
    pub open spec fn reaches(self, index: nat) -> bool {
        self.raw_size == 0 || index < self.capacity || index - self.capacity <= MAX_ENTRIES
    }

    /// The bucket of an index at or beyond the capacity.
    pub open spec fn tier(self, index: nat) -> nat {
        tier_of((index - self.capacity) as nat)
    }

    /// The slab after slot `index` got storage: nothing changes where it
    /// had storage; else its whole bucket gets storage, unwritten.
    pub open spec fn allocated(self, index: nat) -> SlabView {
        if self.holds(index) {
            self
        } else {
            SlabView {
                slots: Map::new(
                    |i: nat| self.holds(i) || (i >= self.capacity && self.tier(i) == self.tier(index)),
                    |i: nat|
                        if self.holds(i) {
                            self.slots[i]
                        } else {
                            zeros(self.raw_size)
                        },
                ),
                ..self
            }
        }
    }

    /// The capacity that holds `len` slots: the primary capacity where
    /// that is enough, else the primary capacity plus the buckets up to
    /// and including the one of overflow offset `len - capacity`.
    pub open spec fn capacity_for(self, len: nat) -> nat {
        if len > self.capacity {
            self.capacity + tier_end(self.tier(len))
        } else {
            self.capacity
        }
    }

    /// The slab after compaction to `len` slots. Where `len` is beyond the
    /// primary capacity, the primary buffer grows to `capacity_for(len)`
    /// slots and nothing else has storage; the slots below `len` keep
    /// their bytes, and every other slot of the buffer is unwritten.
    pub open spec fn settled(self, len: nat) -> SlabView {
        if self.raw_size == 0 || len <= self.capacity {
            self
        } else {
            SlabView {
                raw_size: self.raw_size,
                capacity: self.capacity_for(len),
                slots: Map::new(
                    |i: nat| i < self.capacity_for(len),
                    |i: nat|
                        if i < len && self.holds(i) {
                            self.slots[i]
                        } else {
                            zeros(self.raw_size)
                        },
                ),
            }
        }
    }

    /// The slab after its single buffer grew to hold `capacity` slots: the
    /// slots it had keep their bytes, the new ones are unwritten. A slab
    /// for slot size zero never grows.
    pub open spec fn grown(self, capacity: nat) -> SlabView {
        if self.raw_size == 0 || capacity <= self.capacity {
            self
        } else {
            SlabView {
                raw_size: self.raw_size,
                capacity,
                slots: Map::new(
                    |i: nat| i < capacity || self.holds(i),
                    |i: nat|
                        if self.holds(i) {
                            self.slots[i]
                        } else {
                            zeros(self.raw_size)
                        },
                ),
            }
        }
    }
}

impl SlabView {
    /// The slab after the slots `indices` got storage one after the other
    /// and `values[j]` was written to slot `indices[j]`.
    pub open spec fn filled(self, indices: Seq<nat>, values: Seq<Seq<u8>>) -> SlabView
        decreases indices.len(),
    {
        if indices.len() == 0 {
            self
        } else {
            self.filled(indices.drop_last(), values.drop_last()).allocated(indices.last()).written(
                indices.last(),
                values.last(),
            )
        }
    }

    /// The capacity for `len` slots holds `len` slots.
    pub proof fn lemma_capacity_covers(self, len: nat)
        ensures
            self.capacity_for(len) >= len,
            self.capacity_for(len) >= self.capacity,
    {
        if len > self.capacity {
            lemma_tier_of_bounds((len - self.capacity) as nat);
        }
    }

    /// Write/read consistency: after slots at strictly increasing indices
    /// got storage in turn and a value was written to each, a lookup of
    /// each of them answers the value written there, both before and
    /// after a compaction to a length beyond the last of them.
    pub proof fn lemma_write_read(self, indices: Seq<nat>, values: Seq<Seq<u8>>, j: int, len: nat)
        requires
            indices.len() == values.len(),
            forall|a: int, b: int| 0 <= a < b < indices.len() ==> indices[a] < indices[b],
            0 <= j < indices.len(),
            len > indices.last(),
        ensures
            self.filled(indices, values).get(indices[j]) == Some(values[j]),
            self.filled(indices, values).settled(len).get(indices[j]) == Some(values[j]),
        decreases indices.len(),
    {
        let last = (indices.len() - 1) as int;
        let before = self.filled(indices.drop_last(), values.drop_last());
        let after = self.filled(indices, values);
        if j < last {
            self.lemma_write_read(
                indices.drop_last(),
                values.drop_last(),
                j,
                (indices[last - 1] + 1) as nat,
            );
            assert(before.allocated(indices[last]).get(indices[j]) == before.get(indices[j]));
        }
        assert(indices[j] <= indices[last]);
        after.lemma_capacity_covers(len);
    }

    /// The single-buffer slab after it grew to reach each of `indices` in
    /// turn and `values[j]` was written to slot `indices[j]`.
    pub open spec fn extended(self, indices: Seq<nat>, values: Seq<Seq<u8>>) -> SlabView
        decreases indices.len(),
    {
        if indices.len() == 0 {
            self
        } else {
            self.extended(indices.drop_last(), values.drop_last()).grown(
                indices.last() + 1,
            ).written(indices.last(), values.last())
        }
    }

    /// Write/read consistency of the single-buffer slab: after it grew to
    /// reach strictly increasing indices in turn and a value was written
    /// to each, a lookup of each of them answers the value written there,
    /// and the capacity covers all of them.
    pub proof fn lemma_write_read_grown(self, indices: Seq<nat>, values: Seq<Seq<u8>>, j: int)
        requires
            indices.len() == values.len(),
            forall|a: int, b: int| 0 <= a < b < indices.len() ==> indices[a] < indices[b],
            0 <= j < indices.len(),
        ensures
            self.extended(indices, values).get(indices[j]) == Some(values[j]),
            self.extended(indices, values).raw_size == self.raw_size,
            self.raw_size != 0 ==> self.extended(indices, values).capacity > indices[j],
        decreases indices.len(),
    {
        let last = (indices.len() - 1) as int;
        let before = self.extended(indices.drop_last(), values.drop_last());
        if j < last {
            self.lemma_write_read_grown(indices.drop_last(), values.drop_last(), j);
            assert(before.grown(indices[last] + 1).get(indices[j]) == before.get(indices[j]));
        } else if last > 0 {
            self.lemma_write_read_grown(indices.drop_last(), values.drop_last(), last - 1);
        }
    }

    /// Compaction idempotence: a second compaction to the same length
    /// changes nothing, neither the capacity nor any slot.
    pub proof fn lemma_settle_idempotent(self, len: nat)
        ensures
            self.settled(len).settled(len) == self.settled(len),
    {
        self.lemma_capacity_covers(len);
    }

    /// Capacity monotonicity: the capacity for a larger length is not
    /// smaller, and the capacity for an index that got storage, plus one,
    /// covers it, however many slots got storage or were written before.
    pub proof fn lemma_capacity_monotonic(self, low: nat, high: nat, index: nat, bytes: Seq<u8>)
        requires
            low <= high,
        ensures
            self.capacity_for(low) <= self.capacity_for(high),
            self.capacity_for(index + 1) >= index + 1,
            self.allocated(index).written(index, bytes).capacity_for(low) == self.capacity_for(low),
    {
        self.lemma_capacity_covers(index + 1);
        self.lemma_capacity_covers(high);
        if low > self.capacity {
            let first = (low - self.capacity) as nat;
            let second = (high - self.capacity) as nat;
            lemma_tier_of_ordered(first, second);
            lemma_tier_ordered(tier_of(first), tier_of(second));
        }
    }

    /// Zero-size sentinel: with slot size zero the capacity for any
    /// length is the unbounded sentinel, every index has its (empty)
    /// slot, and neither giving a slot storage nor compaction changes the
    /// slab.
    pub proof fn lemma_zero_size(self, len: nat, index: nat)
        requires
            self.valid(),
            self.raw_size == 0,
            len <= usize::MAX,
        ensures
            self.capacity_for(len) == usize::MAX,
            self.get(index) == Some(zeros(0)),
            self.allocated(index) == self,
            self.grown(len) == self,
            self.settled(len) == self,
    {
        assert(self.slots[index] =~= zeros(0));
    }

    /// Sparse-bucket alignment: compaction leaves every slot below the
    /// length that had storage at its index with its bytes, whichever
    /// buckets had storage and whichever had none; the slots of the new
    /// primary buffer that had no storage are unwritten.
    pub proof fn lemma_settle_aligned(self, len: nat, index: nat)
        requires
            self.valid(),
            index < self.capacity_for(len),
        ensures
            index < len && self.holds(index) ==> self.settled(len).get(index) == self.get(index),
            !self.holds(index) ==> self.settled(len).get(index) == Some(zeros(self.raw_size)),
            self.settled(len).capacity == self.capacity_for(len) || self.raw_size == 0,
    {
        self.lemma_capacity_covers(len);
    }
}

} // verus!
