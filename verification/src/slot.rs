//! Slots: the fixed-size byte payloads that a slab stores.
use crate::buckets::move_prefix;
use vstd::prelude::*;

verus! {

/// The bytes of a slot that nothing was written to.
pub open spec fn zeros(raw_size: nat) -> Seq<u8> {
    Seq::new(raw_size, |i: int| 0u8)
}

/// The bytes that a stored vector stands for: itself where it has the
/// slot size, else the bytes of an unwritten slot.
pub open spec fn payload(stored: Seq<u8>, raw_size: nat) -> Seq<u8> {
    if stored.len() == raw_size {
        stored
    } else {
        zeros(raw_size)
    }
}

/// A slot that nothing was written to.
pub fn blank_slot(raw_size: usize) -> (slot: Vec<u8>)
    ensures
        slot@ == zeros(raw_size as nat),
{
    let slot = vec![0u8; raw_size];
    assert(slot@ =~= zeros(raw_size as nat));
    slot
}

/// Appends unwritten slots to `slots` until it holds `len` of them.
pub fn pad_to(slots: &mut Vec<Vec<u8>>, len: usize, raw_size: usize)
    requires
        old(slots)@.len() <= len,
    ensures
        final(slots)@.len() == len,
        forall|i: int| 0 <= i < old(slots)@.len() ==> final(slots)@[i] == old(slots)@[i],
        forall|i: int| old(slots)@.len() <= i < len ==> (#[trigger] final(slots)@[i])@ == zeros(raw_size as nat),
{
    while slots.len() < len
        invariant
            old(slots)@.len() <= slots@.len() <= len,
            forall|i: int| 0 <= i < old(slots)@.len() ==> slots@[i] == old(slots)@[i],
            forall|i: int| old(slots)@.len() <= i < slots@.len() ==> (#[trigger] slots@[i])@ == zeros(raw_size as nat),
        decreases len - slots@.len(),
    {
        slots.push(blank_slot(raw_size));
    }
}

/// Replaces, from position `from` on, every stored vector that does not
/// have the slot size by an unwritten slot.
pub fn fill_blank(slots: &mut Vec<Vec<u8>>, from: usize, raw_size: usize)
    requires
        from <= old(slots)@.len(),
    ensures
        final(slots)@.len() == old(slots)@.len(),
        forall|i: int| 0 <= i < from ==> final(slots)@[i] == old(slots)@[i],
        forall|i: int| from <= i < old(slots)@.len() ==> (#[trigger] final(slots)@[i])@ == payload(old(slots)@[i]@, raw_size as nat),
{
    let mut at: usize = from;
    while at < slots.len()
        invariant
            from <= at <= slots@.len(),
            slots@.len() == old(slots)@.len(),
            forall|i: int| 0 <= i < from ==> slots@[i] == old(slots)@[i],
            forall|i: int| from <= i < at ==> (#[trigger] slots@[i])@ == payload(old(slots)@[i]@, raw_size as nat),
            forall|i: int| at <= i < slots@.len() ==> slots@[i] == old(slots)@[i],
        decreases slots@.len() - at,
    {
        if slots[at].len() != raw_size {
            slots[at] = blank_slot(raw_size);
        }
        at += 1;
    }
}

/// The slot that entry `at` of a bucket leaves in the primary buffer when
/// the first `live` entries of the bucket are kept: its payload where it
/// is one of them and the bucket has storage, else an unwritten slot.
pub open spec fn kept(row: Seq<Seq<u8>>, live: nat, at: int, raw_size: nat) -> Seq<u8> {
    if at < live && at < row.len() {
        payload(row[at], raw_size)
    } else {
        zeros(raw_size)
    }
}

/// Appends one bucket to the primary buffer: the first `live` entries of
/// `row` are moved over, each that was never written as an unwritten
/// slot, and unwritten slots follow up to the bucket's full length
/// `full`. A bucket without storage leaves only unwritten slots, so that
/// the buckets after it stay at the offsets of their indices.
pub fn append_row(
    primary: &mut Vec<Vec<u8>>,
    row: &mut Vec<Vec<u8>>,
    live: usize,
    full: usize,
    raw_size: usize,
)
    requires
        old(row)@.len() == 0 || old(row)@.len() == full,
        old(primary)@.len() + full <= usize::MAX,
    ensures
        final(row)@.len() == 0,
        final(primary)@.len() == old(primary)@.len() + full,
        forall|i: int| 0 <= i < old(primary)@.len() ==> final(primary)@[i] == old(primary)@[i],
        forall|i: int|
            0 <= i < full ==> (#[trigger] final(primary)@[old(primary)@.len() + i])@ == kept(
                old(row).deep_view(),
                live as nat,
                i,
                raw_size as nat,
            ),
{
    let start = primary.len();
    if row.len() > 0 {
        move_prefix(row, live, primary);
        fill_blank(primary, start, raw_size);
    }
    pad_to(primary, start + full, raw_size);
    assert forall|i: int| 0 <= i < full implies (#[trigger] primary@[start + i])@ == kept(
        old(row).deep_view(),
        live as nat,
        i,
        raw_size as nat,
    ) by {
        if i < live && i < old(row)@.len() {
            assert(old(row)@[i].deep_view() =~= old(row)@[i]@);
        }
    }
}

} // verus!
