//! Index-addressed slab stores for fixed-size elements.
//!
//! A slab maps a slot index to the bytes of that slot. Its buffers are
//! arenas indexed by element position, and a slot is an opaque payload of
//! `raw_size` bytes that callers read and write as a byte slice. Element
//! size zero is legal: such a slab allocates nothing, every index has its
//! empty slot, and the capacity it reports is `usize::MAX`.
//!
//! - [`VecSlab`] keeps every slot in a single buffer, which grows when an
//!   index beyond it is touched.
//! - [`VBSlab`] keeps a primary buffer whose size changes only during an
//!   explicit compaction. In between, a tiered set of overflow buckets
//!   takes every slot beyond the primary buffer, so that no slot that has
//!   storage ever moves; [`VBSlab::settle`] folds the buckets back.
//!
//! [`SlabView`] is the model that the contracts of both are stated over,
//! and holds the laws that relate their operations.
use vstd::prelude::*;

pub mod buckets;
pub mod model;
pub mod slot;
pub mod tier;
pub mod vb_slab;
pub mod vec_slab;

pub use model::SlabView;
pub use vb_slab::VBSlab;
pub use vec_slab::VecSlab;

verus! {

/// The slab that collections build on.
pub type RawSlab = VBSlab;

} // verus!
