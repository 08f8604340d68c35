//! The slab whose growth never moves a slot: a primary buffer of fixed
//! size, overflow buckets beyond it, and a compaction that folds the
//! buckets back into the primary buffer.
use crate::buckets::{
    allocated_row, bucket_alloc, bucket_get, bucket_rows, empty_rows, new_buckets, take_rows,
};
use crate::model::SlabView;
use crate::slot::{append_row, blank_slot, fill_blank, kept, pad_to, payload, zeros};
use crate::tier::{
    entry_of, lemma_tier_in_range, lemma_tier_of_bounds, lemma_tier_ordered,
    lemma_tier_out_of_range, lemma_tier_step, lemma_tier_unique, place_of, tier_end, tier_len,
    tier_of, tier_start, BUCKETS, MAX_ENTRIES,
};
use pi_buckets::{Buckets, Location};
use vstd::prelude::*;

verus! {

/// Whether slot `index` has storage in a slab with the given fields.
spec fn holds_in(raw_size: usize, capacity: usize, rows: Seq<Seq<Seq<u8>>>, index: nat) -> bool {
    ||| raw_size == 0
    ||| index < capacity
    ||| index - capacity <= MAX_ENTRIES && rows[tier_of((index - capacity) as nat) as int].len() != 0
}

/// The bytes of slot `index` in a slab with the given fields.
spec fn slot_in(
    raw_size: usize,
    capacity: usize,
    vec: Seq<Vec<u8>>,
    rows: Seq<Seq<Seq<u8>>>,
    index: nat,
) -> Seq<u8> {
    if raw_size == 0 {
        zeros(0)
    } else if index < capacity {
        vec[index as int]@
    } else {
        let offset = (index - capacity) as nat;
        payload(rows[tier_of(offset) as int][entry_of(offset) as int], raw_size as nat)
    }
}

/// The model of a slab with the given fields.
spec fn model_of(raw_size: usize, capacity: usize, vec: Seq<Vec<u8>>, rows: Seq<Seq<Seq<u8>>>) -> SlabView {
    SlabView {
        raw_size: raw_size as nat,
        capacity: capacity as nat,
        slots: Map::new(
            |i: nat| holds_in(raw_size, capacity, rows, i),
            |i: nat| slot_in(raw_size, capacity, vec, rows, i),
        ),
    }
}

/// Every bucket is without storage or has its full length.
spec fn rows_shaped(rows: Seq<Seq<Seq<u8>>>) -> bool {
    &&& rows.len() == BUCKETS
    &&& forall|bucket: int|
        0 <= bucket < BUCKETS ==> (#[trigger] rows[bucket]).len() == 0 || rows[bucket].len()
            == tier_len(bucket as nat)
}

/// Without storage in any bucket, the slots are those of the primary
/// buffer.
proof fn lemma_model_without_overflow(raw_size: usize, capacity: usize, vec: Seq<Vec<u8>>)
    requires
        raw_size != 0,
    ensures
        model_of(raw_size, capacity, vec, empty_rows()).slots == Map::new(
            |i: nat| i < capacity,
            |i: nat| vec[i as int]@,
        ),
{
    assert forall|i: nat| holds_in(raw_size, capacity, empty_rows(), i) implies i < capacity by {
        if i >= capacity && i - capacity <= MAX_ENTRIES {
            lemma_tier_in_range((i - capacity) as nat);
        }
    }
    assert(model_of(raw_size, capacity, vec, empty_rows()).slots =~= Map::new(
        |i: nat| i < capacity,
        |i: nat| vec[i as int]@,
    ));
}

/// Replacing one stored vector of the primary buffer writes one slot.
proof fn lemma_model_update(
    raw_size: usize,
    capacity: usize,
    vec: Seq<Vec<u8>>,
    rows: Seq<Seq<Seq<u8>>>,
    index: int,
    stored: Vec<u8>,
)
    requires
        raw_size != 0,
        capacity == vec.len(),
        0 <= index < vec.len(),
    ensures
        model_of(raw_size, capacity, vec.update(index, stored), rows) == model_of(
            raw_size,
            capacity,
            vec,
            rows,
        ).written(index as nat, stored@),
{
    assert(model_of(raw_size, capacity, vec.update(index, stored), rows) =~= model_of(
        raw_size,
        capacity,
        vec,
        rows,
    ).written(index as nat, stored@));
}

/// Giving a bucket storage and replacing one of its entries gives the
/// slot of that entry storage and writes it.
proof fn lemma_model_alloc(
    raw_size: usize,
    capacity: usize,
    vec: Seq<Vec<u8>>,
    rows: Seq<Seq<Seq<u8>>>,
    index: nat,
    bytes: Seq<u8>,
)
    requires
        raw_size != 0,
        rows_shaped(rows),
        index >= capacity,
        index - capacity <= MAX_ENTRIES,
        bytes.len() == raw_size,
    ensures
        ({
            let bucket = tier_of((index - capacity) as nat) as int;
            let entry = entry_of((index - capacity) as nat) as int;
            let row = allocated_row(rows, bucket);
            let before = model_of(raw_size, capacity, vec, rows);
            &&& rows_shaped(rows.update(bucket, row.update(entry, bytes)))
            &&& model_of(raw_size, capacity, vec, rows.update(bucket, row.update(entry, bytes)))
                == before.allocated(index).written(index, bytes)
            &&& before.allocated(index).slots[index] == payload(row[entry], raw_size as nat)
        }),
{
    let offset = (index - capacity) as nat;
    let bucket = tier_of(offset) as int;
    let entry = entry_of(offset) as int;
    let row = allocated_row(rows, bucket);
    let after_rows = rows.update(bucket, row.update(entry, bytes));
    let before = model_of(raw_size, capacity, vec, rows);
    let after = model_of(raw_size, capacity, vec, after_rows);
    let expected = before.allocated(index).written(index, bytes);
    lemma_tier_in_range(offset);
    lemma_tier_of_bounds(offset);
    assert forall|i: nat| after.slots.dom().contains(i) == expected.slots.dom().contains(i) by {
        if i >= capacity {
            let at = (i - capacity) as nat;
            if at <= MAX_ENTRIES {
                lemma_tier_in_range(at);
            } else {
                lemma_tier_out_of_range(at);
            }
        }
    }
    assert forall|i: nat| after.slots.dom().contains(i) implies #[trigger] after.slots[i]
        == expected.slots[i] by {
        if i >= capacity {
            let at = (i - capacity) as nat;
            lemma_tier_in_range(at);
            lemma_tier_of_bounds(at);
        }
    }
    assert(after.slots =~= expected.slots);
}

/// Where compaction to `len` slots puts entry `entry` of bucket `bucket`:
/// at the index of that entry, with its payload if the entry lies below
/// `len` and the bucket has storage, else unwritten.
proof fn lemma_settled_slot(
    raw_size: usize,
    capacity: usize,
    vec: Seq<Vec<u8>>,
    rows: Seq<Seq<Seq<u8>>>,
    len: nat,
    bucket: nat,
    entry: nat,
)
    requires
        raw_size != 0,
        rows_shaped(rows),
        len > capacity,
        len - capacity <= MAX_ENTRIES,
        bucket <= tier_of((len - capacity) as nat),
        entry < tier_len(bucket),
    ensures
        capacity + tier_start(bucket) <= len,
        capacity + tier_end(bucket) <= model_of(raw_size, capacity, vec, rows).capacity_for(len),
        model_of(raw_size, capacity, vec, rows).settled(len).slots[(capacity + tier_start(bucket)
            + entry) as nat] == kept(
            rows[bucket as int],
            (len - capacity - tier_start(bucket)) as nat,
            entry as int,
            raw_size as nat,
        ),
{
    let last = tier_of((len - capacity) as nat);
    let offset = tier_start(bucket) + entry;
    lemma_tier_of_bounds((len - capacity) as nat);
    lemma_tier_in_range((len - capacity) as nat);
    lemma_tier_ordered(bucket, last);
    lemma_tier_unique(offset, bucket);
}

/// A slab whose primary buffer keeps its size between compactions, while
/// overflow buckets take every slot beyond it.
pub struct VBSlab {
    raw_size: usize,
    capacity: usize,
    vec: Vec<Vec<u8>>,
    buckets: Buckets<Vec<u8>>,
    blank: Vec<u8>,
}

impl VBSlab {
    /// The primary buffer holds `capacity` slots of `raw_size` bytes each,
    /// and every bucket is without storage or has its full length. With
    /// slot size zero the buffer holds nothing and the capacity is the
    /// sentinel.
    pub closed spec fn wf(&self) -> bool {
        &&& self.blank@ == zeros(self.raw_size as nat)
        &&& rows_shaped(bucket_rows(self.buckets))
        &&& self.raw_size == 0 ==> self.capacity == usize::MAX && self.vec@.len() == 0
        &&& self.raw_size != 0 ==> self.capacity == self.vec@.len()
        &&& forall|i: int|
            0 <= i < self.vec@.len() ==> (#[trigger] self.vec@[i])@.len() == self.raw_size
    }

    pub closed spec fn view(&self) -> SlabView {
        model_of(self.raw_size, self.capacity, self.vec@, bucket_rows(self.buckets))
    }

    /// A well-formed slab has a valid model.
    pub proof fn lemma_valid(&self)
        requires
            self.wf(),
        ensures
            self@.valid(),
    {
    }

    /// A slab with a primary buffer of `capacity` unwritten slots of
    /// `raw_size` bytes each, and no overflow. With `raw_size` zero
    /// nothing is allocated and the capacity is the unbounded sentinel.
    pub fn with_capacity(raw_size: usize, capacity: usize) -> (slab: VBSlab)
        ensures
            slab.wf(),
            slab@ == SlabView::fresh(raw_size as nat, capacity as nat),
    {
        let blank = blank_slot(raw_size);
        if raw_size == 0 {
            let slab = VBSlab {
                raw_size,
                capacity: usize::MAX,
                vec: Vec::new(),
                buckets: new_buckets(),
                blank,
            };
            assert(slab@ =~= SlabView::fresh(raw_size as nat, capacity as nat));
            return slab;
        }
        let mut vec: Vec<Vec<u8>> = Vec::with_capacity(capacity);
        pad_to(&mut vec, capacity, raw_size);
        let buckets = new_buckets();
        let slab = VBSlab { raw_size, capacity, vec, buckets, blank };
        proof {
            lemma_model_without_overflow(raw_size, capacity, slab.vec@);
        }
        assert(slab@ =~= SlabView::fresh(raw_size as nat, capacity as nat));
        slab
    }

    /// The capacity that holds `len` slots: that of the primary buffer
    /// where `len` fits it, else that of the primary buffer and of the
    /// buckets up to the one of overflow offset `len - capacity`.
    #[inline(always)]
    pub fn capacity(&self, len: usize) -> (capacity: usize)
        requires
            self.wf(),
            self@.reaches(len as nat),
            self@.capacity_for(len as nat) <= usize::MAX,
        ensures
            capacity == self@.capacity_for(len as nat),
    {
        if len > self.capacity {
            let bucket = Location::bucket(len - self.capacity);
            proof {
                lemma_tier_unique((len - self.capacity) as nat, bucket as nat);
            }
            Location::bucket_capacity(bucket) + self.capacity
        } else {
            self.capacity
        }
    }

    /// The number of slots in the primary buffer.
    #[inline(always)]
    pub fn vec_capacity(&self) -> (capacity: usize)
        ensures
            capacity == self@.capacity,
    {
        self.capacity
    }

    /// The slot at `index`, if it has storage: always in the primary
    /// buffer, and beyond it where the bucket of `index` has storage.
    /// Nothing is allocated.
    #[inline]
    pub fn get(&self, index: usize) -> (slot: Option<&[u8]>)
        requires
            self.wf(),
        ensures
            match slot {
                Some(bytes) => self@.get(index as nat) == Some(bytes@),
                None => self@.get(index as nat) is None,
            },
    {
        if self.raw_size == 0 {
            return Some(self.blank.as_slice());
        }
        if index < self.vec_capacity() {
            return Some(self.vec[index].as_slice());
        }
        let offset = index - self.capacity;
        if offset > MAX_ENTRIES {
            return None;
        }
        let (bucket, entry) = place_of(offset);
        proof {
            lemma_tier_of_bounds(offset as nat);
        }
        match bucket_get(&self.buckets, bucket, entry) {
            Some(stored) => {
                if stored.len() == self.raw_size {
                    Some(stored.as_slice())
                } else {
                    Some(self.blank.as_slice())
                }
            },
            None => None,
        }
    }

    /// The slot at `index` for writing, after it got storage: a slot of
    /// the primary buffer has it already; beyond that buffer the bucket
    /// of `index` gets its storage where it has none, unwritten. No slot
    /// that had storage moves or changes.
    ///
    /// What the slab holds afterwards depends on what the caller writes,
    /// so it is stated over the final bytes of the slot handed out. A
    /// slice keeps its length; the contract carries that as its condition.
    #[inline]
    pub fn load_alloc(&mut self, index: usize) -> (slot: &mut [u8])
        requires
            old(self).wf(),
            old(self)@.reaches(index as nat),
        ensures
            slot@ == old(self)@.allocated(index as nat).slots[index as nat],
            slot@.len() == old(self)@.raw_size,
            final(slot)@.len() == slot@.len() ==> final(self).wf() && final(self)@ == old(
                self,
            )@.allocated(index as nat).written(index as nat, final(slot)@),
    {
        let ghost before = self@;
        if self.raw_size == 0 {
            assert forall|bytes: Seq<u8>| #[trigger] bytes.len() == 0 implies bytes == zeros(0)
                && before == before.written(index as nat, bytes) by {
                assert(bytes =~= zeros(0));
                assert(before =~= before.written(index as nat, bytes));
            }
            return self.blank.as_mut_slice();
        }
        if index < self.vec_capacity() {
            assert forall|stored: Vec<u8>|
                model_of(
                    self.raw_size,
                    self.capacity,
                    #[trigger] self.vec@.update(index as int, stored),
                    bucket_rows(self.buckets),
                ) == before.written(index as nat, stored@) by {
                lemma_model_update(
                    self.raw_size,
                    self.capacity,
                    self.vec@,
                    bucket_rows(self.buckets),
                    index as int,
                    stored,
                );
            }
            return self.vec[index].as_mut_slice();
        }
        let (bucket, entry) = place_of(index - self.capacity);
        let ghost rows = bucket_rows(self.buckets);
        let ghost row = allocated_row(rows, bucket as int);
        proof {
            lemma_tier_of_bounds((index - self.capacity) as nat);
        }
        assert forall|bytes: Seq<u8>| bytes.len() == self.raw_size implies {
            &&& rows_shaped(rows.update(bucket as int, #[trigger] row.update(entry as int, bytes)))
            &&& model_of(
                self.raw_size,
                self.capacity,
                self.vec@,
                rows.update(bucket as int, row.update(entry as int, bytes)),
            ) == before.allocated(index as nat).written(index as nat, bytes)
        } by {
            lemma_model_alloc(self.raw_size, self.capacity, self.vec@, rows, index as nat, bytes);
        }
        proof {
            lemma_model_alloc(
                self.raw_size,
                self.capacity,
                self.vec@,
                rows,
                index as nat,
                zeros(self.raw_size as nat),
            );
        }
        let stored = bucket_alloc(&mut self.buckets, bucket, entry);
        if stored.len() != self.raw_size {
            *stored = blank_slot(self.raw_size);
        }
        stored.as_mut_slice()
    }

    /// Compaction: folds the overflow buckets into the primary buffer, so
    /// that it holds `len` slots and more.
    ///
    /// Where `len` fits the primary buffer nothing happens. Else the
    /// buckets are taken out of the bucket set, which is left without
    /// storage, and the primary buffer grows to `capacity(len)` slots:
    /// every slot below `len` keeps its bytes at its index, also where
    /// buckets before it had no storage, and every other slot of the
    /// buffer is unwritten.
    pub fn settle(&mut self, len: usize)
        requires
            old(self).wf(),
            old(self)@.reaches(len as nat),
            old(self)@.capacity_for(len as nat) <= usize::MAX,
        ensures
            final(self).wf(),
            final(self)@ == old(self)@.settled(len as nat),
    {
        if self.raw_size == 0 {
            return;
        }
        if len <= self.capacity {
            return;
        }
        let ghost vec0 = self.vec@;
        let ghost rows0 = bucket_rows(self.buckets);
        let ghost target = self@.settled(len as nat);
        let mut arr = self.take_buckets();
        let bucket_end = Location::bucket(len - self.capacity);
        proof {
            lemma_tier_unique((len - self.capacity) as nat, bucket_end as nat);
            lemma_tier_step(0);
            vstd::arithmetic::power2::lemma2_to64();
            assert forall|b: int| 0 <= b < BUCKETS implies (#[trigger] arr@[b]).deep_view()
                == rows0[b] by {
                assert(arr.deep_view()[b] == arr@[b].deep_view());
            }
        }
        if self.vec.len() == 0 && bucket_end == 0 {
            let ghost row = arr@[0];
            let mut first: Vec<Vec<u8>> = Vec::new();
            core::mem::swap(&mut arr[0], &mut first);
            self.vec = first;
            self.vec.truncate(len);
            fill_blank(&mut self.vec, 0, self.raw_size);
            pad_to(&mut self.vec, Location::bucket_capacity(0), self.raw_size);
            self.capacity = self.vec.len();
            proof {
                assert forall|i: nat| i < self.capacity implies self.vec@[i as int]@
                    == target.slots[i] by {
                    lemma_settled_slot(old(self).raw_size, 0, vec0, rows0, len as nat, 0, i);
                    if i < len && i < rows0[0].len() {
                        assert(row.deep_view()[i as int] == row@[i as int].deep_view());
                        assert(row@[i as int].deep_view() =~= row@[i as int]@);
                    }
                }
                lemma_model_without_overflow(self.raw_size, self.capacity, self.vec@);
                assert(self@ =~= target);
            }
            return;
        }
        let cap = Location::bucket_capacity(bucket_end) + self.capacity;
        self.vec.reserve(cap - self.vec.len());
        let mut bucket: usize = 0;
        while bucket <= bucket_end
            invariant
                self.raw_size == old(self).raw_size,
                self.raw_size != 0,
                self.capacity == old(self).capacity,
                self.blank == old(self).blank,
                bucket_rows(self.buckets) == empty_rows(),
                rows_shaped(rows0),
                len > self.capacity,
                len - self.capacity <= MAX_ENTRIES,
                bucket_end == tier_of((len - self.capacity) as nat),
                bucket_end < BUCKETS,
                target == model_of(self.raw_size, self.capacity, vec0, rows0).settled(len as nat),
                target.capacity <= usize::MAX,
                0 <= bucket <= bucket_end + 1,
                arr@.len() == BUCKETS,
                forall|b: int| bucket <= b < BUCKETS ==> (#[trigger] arr@[b]).deep_view() == rows0[b],
                self.vec@.len() == self.capacity + tier_start(bucket as nat),
                forall|i: int|
                    0 <= i < self.vec@.len() ==> (#[trigger] self.vec@[i])@ == target.slots[i as nat],
            decreases bucket_end + 1 - bucket,
        {
            let start = self.vec.len();
            let full = Location::bucket_len(bucket);
            proof {
                lemma_tier_step(bucket as nat);
                lemma_settled_slot(
                    self.raw_size,
                    self.capacity,
                    vec0,
                    rows0,
                    len as nat,
                    bucket as nat,
                    0,
                );
                assert(arr@[bucket as int].deep_view() == rows0[bucket as int]);
            }
            append_row(&mut self.vec, &mut arr[bucket], len - start, full, self.raw_size);
            proof {
                assert forall|i: int| 0 <= i < self.vec@.len() implies (#[trigger] self.vec@[i])@
                    == target.slots[i as nat] by {
                    if i >= start {
                        lemma_settled_slot(
                            self.raw_size,
                            self.capacity,
                            vec0,
                            rows0,
                            len as nat,
                            bucket as nat,
                            (i - start) as nat,
                        );
                        assert(self.vec@[start + (i - start)] == self.vec@[i]);
                    }
                }
            }
            bucket += 1;
        }
        self.capacity = self.vec.len();
        proof {
            lemma_tier_step(bucket_end as nat);
            lemma_model_without_overflow(self.raw_size, self.capacity, self.vec@);
            assert(self@ =~= target);
        }
    }

    /// Takes every bucket out of the bucket set, which is left without
    /// storage. The rows come by bucket number, each with the stored
    /// vectors of its entries.
    fn take_buckets(&mut self) -> (rows: Vec<Vec<Vec<u8>>>)
        ensures
            rows.deep_view() == bucket_rows(old(self).buckets),
            bucket_rows(final(self).buckets) == empty_rows(),
            final(self).raw_size == old(self).raw_size,
            final(self).capacity == old(self).capacity,
            final(self).vec == old(self).vec,
            final(self).blank == old(self).blank,
    {
        take_rows(&mut self.buckets)
    }

    /// The slot at `index`, which must have storage.
    #[inline]
    pub fn get_unchecked(&self, index: usize) -> (slot: &[u8])
        requires
            self.wf(),
            self@.holds(index as nat),
        ensures
            slot@ == self@.slots[index as nat],
    {
        if self.raw_size == 0 {
            return self.blank.as_slice();
        }
        if index < self.vec_capacity() {
            return self.vec[index].as_slice();
        }
        let (bucket, entry) = place_of(index - self.capacity);
        proof {
            lemma_tier_of_bounds((index - self.capacity) as nat);
        }
        let stored = bucket_get(&self.buckets, bucket, entry).unwrap();
        if stored.len() == self.raw_size {
            stored.as_slice()
        } else {
            self.blank.as_slice()
        }
    }
}

impl Default for VBSlab {
    /// The slab for elements of size zero.
    fn default() -> (slab: VBSlab)
        ensures
            slab.wf(),
            slab@ == SlabView::fresh(0, 0),
    {
        VBSlab::with_capacity(0, 0)
    }
}

} // verus!
