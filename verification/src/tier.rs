//! The tiering scheme of the overflow buckets.
//!
//! Overflow offsets are partitioned into buckets of doubling size: bucket
//! `b` holds `32 * 2^b` entries and starts where bucket `b - 1` ends.
use pi_buckets::Location;
use vstd::arithmetic::power2::{lemma2_to64, lemma_pow2_pos, lemma_pow2_unfold, pow2};
use vstd::prelude::*;

verus! {

/// Number of entries in the first bucket.
pub const SKIP: usize = 32;

/// Number of buckets in a bucket set.
pub const BUCKETS: usize = 27;

/// Largest overflow offset that has a place in a bucket set.
pub const MAX_ENTRIES: usize = 0xFFFF_FFDF;

/// Number of entries in bucket `bucket`.
pub open spec fn tier_len(bucket: nat) -> nat {
    32 * pow2(bucket)
}

/// Overflow offset of the first entry of bucket `bucket`.
pub open spec fn tier_start(bucket: nat) -> nat {
    (tier_len(bucket) - 32) as nat
}

/// Number of entries in the buckets `0..=bucket` taken together, which is
/// also the overflow offset one past the last entry of bucket `bucket`.
pub open spec fn tier_end(bucket: nat) -> nat {
    tier_start(bucket) + tier_len(bucket)
}

/// The bucket that holds overflow offset `offset`.
pub open spec fn tier_of(offset: nat) -> nat
    decreases offset,
{
    if offset < 32 {
        0
    } else {
        1 + tier_of(((offset - 32) / 2) as nat)
    }
}

/// The position of overflow offset `offset` inside its bucket.
pub open spec fn entry_of(offset: nat) -> nat {
    (offset - tier_start(tier_of(offset))) as nat
}

/// Each bucket is twice as long as the one before it, and starts where
/// that one ends.
pub proof fn lemma_tier_step(bucket: nat)
    ensures
        tier_len(bucket) >= 32,
        tier_len(bucket + 1) == 2 * tier_len(bucket),
        tier_start(bucket + 1) == tier_end(bucket),
{
    lemma_pow2_unfold(bucket + 1);
    lemma_pow2_pos(bucket);
}

/// Buckets start in the order of their numbers.
pub proof fn lemma_tier_ordered(low: nat, high: nat)
    requires
        low <= high,
    ensures
        tier_start(low) <= tier_start(high),
        tier_len(low) <= tier_len(high),
        tier_end(low) <= tier_end(high),
        low < high ==> tier_end(low) <= tier_start(high),
    decreases high - low,
{
    lemma_tier_step(low);
    if low < high {
        lemma_tier_ordered(low + 1, high);
    }
}

/// Every offset lies inside the bucket that `tier_of` names.
pub proof fn lemma_tier_of_bounds(offset: nat)
    ensures
        tier_start(tier_of(offset)) <= offset < tier_end(tier_of(offset)),
        entry_of(offset) < tier_len(tier_of(offset)),
        offset == tier_start(tier_of(offset)) + entry_of(offset),
    decreases offset,
{
    if offset < 32 {
        lemma2_to64();
    } else {
        let half = ((offset - 32) / 2) as nat;
        lemma_tier_of_bounds(half);
        lemma_tier_step(tier_of(half));
    }
}

/// An offset lies in one bucket only.
pub proof fn lemma_tier_unique(offset: nat, bucket: nat)
    requires
        tier_start(bucket) <= offset < tier_end(bucket),
    ensures
        tier_of(offset) == bucket,
        entry_of(offset) == offset - tier_start(bucket),
{
    lemma_tier_of_bounds(offset);
    let found = tier_of(offset);
    if found < bucket {
        lemma_tier_ordered(found, bucket);
    } else if bucket < found {
        lemma_tier_ordered(bucket, found);
    }
}

/// Larger offsets never lie in earlier buckets.
pub proof fn lemma_tier_of_ordered(low: nat, high: nat)
    requires
        low <= high,
    ensures
        tier_of(low) <= tier_of(high),
{
    lemma_tier_of_bounds(low);
    lemma_tier_of_bounds(high);
    if tier_of(high) < tier_of(low) {
        lemma_tier_ordered(tier_of(high), tier_of(low));
    }
}

/// The last bucket ends one past `MAX_ENTRIES`.
pub proof fn lemma_last_tier()
    ensures
        tier_len(26) == 0x8000_0000,
        tier_end(26) == MAX_ENTRIES + 1,
{
    lemma2_to64();
}

/// Offsets up to `MAX_ENTRIES` lie in one of the `BUCKETS` buckets, and
/// the sizes of those buckets fit a 32-bit counter.
pub proof fn lemma_tier_in_range(offset: nat)
    requires
        offset <= MAX_ENTRIES,
    ensures
        tier_of(offset) < BUCKETS,
        tier_len(tier_of(offset)) <= 0x8000_0000,
        tier_end(tier_of(offset)) <= MAX_ENTRIES + 1,
{
    lemma_last_tier();
    lemma_tier_of_bounds(offset);
    let found = tier_of(offset);
    if found > 26 {
        lemma_tier_ordered(26, found);
    } else {
        lemma_tier_ordered(found, 26);
    }
}

/// Offsets above `MAX_ENTRIES` lie in none of the `BUCKETS` buckets.
pub proof fn lemma_tier_out_of_range(offset: nat)
    requires
        offset > MAX_ENTRIES,
    ensures
        tier_of(offset) >= BUCKETS,
{
    lemma_last_tier();
    lemma_tier_of_bounds(offset);
    let found = tier_of(offset);
    if found <= 26 {
        lemma_tier_ordered(found, 26);
    }
}

/// `Location::bucket_len` of `pi_buckets`: the number of entries of a
/// bucket, `1 << (bucket + 5)`. It panics for a bucket number that is not
/// below `BUCKETS`.
pub assume_specification[ Location::bucket_len ](bucket: usize) -> (len: usize)
    requires
        bucket < BUCKETS,
    ensures
        len == tier_len(bucket as nat),
;

/// `Location::bucket_capacity` of `pi_buckets`: the entries of the buckets
/// up to and including `bucket`, computed as `(len - 32) + len` from the
/// length of that bucket. It panics for a bucket number that is not below
/// `BUCKETS`.
pub assume_specification[ Location::bucket_capacity ](bucket: usize) -> (total: usize)
    requires
        bucket < BUCKETS,
    ensures
        total == tier_end(bucket as nat),
;

/// `Location::bucket` of `pi_buckets`: the number of the bucket that an
/// offset belongs to, which is the one whose range of offsets contains
/// it. It panics for an offset above `MAX_ENTRIES`.
pub assume_specification[ Location::bucket ](index: usize) -> (bucket: usize)
    requires
        index <= MAX_ENTRIES,
    ensures
        bucket < BUCKETS,
        tier_start(bucket as nat) <= index < tier_end(bucket as nat),
;

/// `Location::of` of `pi_buckets`, with the bucket number and the entry
/// of the location it returns: the entry is below the length of the
/// bucket, and the bucket's first offset plus the entry is the offset
/// asked for. `Location::of` panics for an offset above `MAX_ENTRIES`.
#[verifier::external_body]
pub(crate) fn locate(offset: usize) -> (place: (usize, usize))
    requires
        offset <= MAX_ENTRIES,
    ensures
        place.0 < BUCKETS,
        place.1 < tier_len(place.0 as nat),
        offset == tier_start(place.0 as nat) + place.1,
{
    let location = Location::of(offset);
    (location.bucket_index(), location.entry())
}

/// The bucket and entry of an overflow offset.
pub fn place_of(offset: usize) -> (place: (usize, usize))
    requires
        offset <= MAX_ENTRIES,
    ensures
        place.0 == tier_of(offset as nat),
        place.1 == entry_of(offset as nat),
        place.0 < BUCKETS,
{
    let place = locate(offset);
    proof {
        lemma_tier_unique(offset as nat, place.0 as nat);
    }
    place
}

} // verus!
