//! The single-owner slab: one buffer that grows as indices are touched.
use crate::model::SlabView;
use crate::slot::{blank_slot, pad_to, zeros};
use vstd::prelude::*;

verus! {

/// The model of a slab with the given fields.
spec fn model_of(raw_size: usize, capacity: usize, vec: Seq<Vec<u8>>) -> SlabView {
    SlabView {
        raw_size: raw_size as nat,
        capacity: capacity as nat,
        slots: Map::new(
            |i: nat| raw_size == 0 || i < capacity,
            |i: nat|
                if raw_size == 0 {
                    zeros(0)
                } else {
                    vec[i as int]@
                },
        ),
    }
}

/// Replacing one stored vector writes one slot of the model.
proof fn lemma_model_update(
    raw_size: usize,
    capacity: usize,
    vec: Seq<Vec<u8>>,
    index: int,
    stored: Vec<u8>,
)
    requires
        raw_size != 0,
        capacity == vec.len(),
        0 <= index < vec.len(),
    ensures
        model_of(raw_size, capacity, vec.update(index, stored)) == model_of(
            raw_size,
            capacity,
            vec,
        ).written(index as nat, stored@),
{
    assert(model_of(raw_size, capacity, vec.update(index, stored)) =~= model_of(
        raw_size,
        capacity,
        vec,
    ).written(index as nat, stored@));
}

/// A slab whose slots all live in one growable buffer.
///
/// Growth may move the buffer, so a slot handed out by one call does not
/// outlive the next call that takes the slab mutably.
pub struct VecSlab {
    raw_size: usize,
    capacity: usize,
    vec: Vec<Vec<u8>>,
    blank: Vec<u8>,
}

impl VecSlab {
    /// The buffer holds `capacity` slots of `raw_size` bytes each; with
    /// slot size zero it holds nothing and the capacity is the sentinel.
    pub closed spec fn wf(&self) -> bool {
        &&& self.blank@ == zeros(self.raw_size as nat)
        &&& self.raw_size == 0 ==> self.capacity == usize::MAX && self.vec@.len() == 0
        &&& self.raw_size != 0 ==> self.capacity == self.vec@.len()
        &&& forall|i: int|
            0 <= i < self.vec@.len() ==> (#[trigger] self.vec@[i])@.len() == self.raw_size
    }

    pub closed spec fn view(&self) -> SlabView {
        model_of(self.raw_size, self.capacity, self.vec@)
    }

    /// A well-formed slab has a valid model.
    pub proof fn lemma_valid(&self)
        requires
            self.wf(),
        ensures
            self@.valid(),
    {
    }

    /// A slab of `capacity` unwritten slots of `raw_size` bytes each. With
    /// `raw_size` zero nothing is allocated and the capacity is the
    /// unbounded sentinel.
    pub fn with_capacity(raw_size: usize, capacity: usize) -> (slab: VecSlab)
        ensures
            slab.wf(),
            slab@ == SlabView::fresh(raw_size as nat, capacity as nat),
    {
        let blank = blank_slot(raw_size);
        if raw_size == 0 {
            let slab = VecSlab { raw_size, capacity: usize::MAX, vec: Vec::new(), blank };
            assert(slab@ =~= SlabView::fresh(raw_size as nat, capacity as nat));
            return slab;
        }
        let mut vec: Vec<Vec<u8>> = Vec::with_capacity(capacity);
        pad_to(&mut vec, capacity, raw_size);
        let slab = VecSlab { raw_size, capacity, vec, blank };
        assert(slab@ =~= SlabView::fresh(raw_size as nat, capacity as nat));
        slab
    }

    /// The number of slots in the buffer, whatever `len` is.
    #[inline(always)]
    pub fn capacity(&self, _len: usize) -> (capacity: usize)
        ensures
            capacity == self@.capacity,
    {
        self.vec_capacity()
    }

    /// The number of slots in the buffer.
    #[inline(always)]
    pub fn vec_capacity(&self) -> (capacity: usize)
        ensures
            capacity == self@.capacity,
    {
        self.capacity
    }

    /// The slot at `index`, if the buffer reaches it. Nothing is
    /// allocated.
    #[inline]
    pub fn get(&self, index: usize) -> (slot: Option<&[u8]>)
        requires
            self.wf(),
        ensures
            match slot {
                Some(bytes) => self@.get(index as nat) == Some(bytes@),
                None => self@.get(index as nat) is None,
            },
    {
        if self.raw_size == 0 {
            return Some(self.blank.as_slice());
        }
        if index < self.vec_capacity() {
            return Some(self.vec[index].as_slice());
        }
        None
    }

    /// The slot at `index`, which the buffer must reach.
    #[inline]
    pub fn get_unchecked(&self, index: usize) -> (slot: &[u8])
        requires
            self.wf(),
            self@.holds(index as nat),
        ensures
            slot@ == self@.slots[index as nat],
    {
        if self.raw_size == 0 {
            return self.blank.as_slice();
        }
        self.vec[index].as_slice()
    }

    /// The slot at `index` for writing, after the buffer has grown to
    /// reach it. The new capacity is `index + 1` where it grew, and the
    /// slots in between are unwritten.
    ///
    /// What the slab holds afterwards depends on what the caller writes,
    /// so it is stated over the final bytes of the slot handed out. A
    /// slice keeps its length; the contract carries that as its condition.
    #[inline]
    pub fn load_alloc(&mut self, index: usize) -> (slot: &mut [u8])
        requires
            old(self).wf(),
            old(self)@.raw_size != 0 ==> index < usize::MAX,
        ensures
            slot@ == old(self)@.grown(index as nat + 1).slots[index as nat],
            slot@.len() == old(self)@.raw_size,
            final(slot)@.len() == slot@.len() ==> final(self).wf() && final(self)@ == old(
                self,
            )@.grown(index as nat + 1).written(index as nat, final(slot)@),
    {
        if self.raw_size == 0 {
            let ghost before = self@;
            assert forall|bytes: Seq<u8>| #[trigger] bytes.len() == 0 implies bytes == zeros(0)
                && before == before.written(index as nat, bytes) by {
                assert(bytes =~= zeros(0));
                assert(before =~= before.written(index as nat, bytes));
            }
            return self.blank.as_mut_slice();
        }
        let capacity = self.vec_capacity();
        if index >= capacity {
            self.reserve(capacity, index - capacity + 1);
        }
        assert forall|stored: Vec<u8>|
            model_of(self.raw_size, self.capacity, #[trigger] self.vec@.update(index as int, stored))
                == self@.written(index as nat, stored@) by {
            lemma_model_update(self.raw_size, self.capacity, self.vec@, index as int, stored);
        }
        self.vec[index].as_mut_slice()
    }

    /// Does nothing: this slab has no overflow to merge.
    pub fn settle(&mut self, _len: usize)
        ensures
            *final(self) == *old(self),
    {
    }

    /// Grows the buffer so that it holds `len + additional` slots, unless
    /// it holds that many already.
    fn reserve(&mut self, len: usize, additional: usize)
        requires
            old(self).wf(),
            old(self)@.raw_size != 0,
            len + additional <= usize::MAX,
        ensures
            final(self).wf(),
            final(self)@ == old(self)@.grown((len + additional) as nat),
    {
        let missing = (len + additional).saturating_sub(self.vec_capacity());
        if missing > 0 {
            self.vec.reserve(missing);
            pad_to(&mut self.vec, self.capacity + missing, self.raw_size);
            self.capacity = self.vec.len();
        }
        assert(self@ =~= old(self)@.grown((len + additional) as nat));
    }
}

impl Default for VecSlab {
    /// The slab for elements of size zero.
    fn default() -> (slab: VecSlab)
        ensures
            slab.wf(),
            slab@ == SlabView::fresh(0, 0),
    {
        VecSlab::with_capacity(0, 0)
    }
}

} // verus!
