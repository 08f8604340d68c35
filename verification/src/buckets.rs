//! The overflow bucket set and the bulk move between buffers.
//!
//! The bucket set is the `Buckets` collection of `pi_buckets`, holding one
//! byte vector per entry. This module gives its contents a name and states
//! what each operation that the slabs call does to them.
use crate::tier::{tier_len, BUCKETS};
use pi_buckets::{Buckets, Location};
use pi_vec_remain::VecRemain;
use vstd::prelude::*;

verus! {

#[verifier::external_type_specification]
#[verifier::external_body]
#[verifier::reject_recursive_types(T)]
pub struct ExBuckets<T>(pi_buckets::Buckets<T>);

/// What a bucket set holds: for each of its `BUCKETS` buckets the entries
/// of that bucket in order, each as its bytes. A bucket that has no
/// storage yet has no entries.
pub uninterp spec fn bucket_rows(buckets: Buckets<Vec<u8>>) -> Seq<Seq<Seq<u8>>>;

/// The rows of a bucket set in which no bucket has storage.
pub open spec fn empty_rows() -> Seq<Seq<Seq<u8>>> {
    Seq::new(BUCKETS as nat, |bucket: int| Seq::<Seq<u8>>::empty())
}

/// The entries of bucket `bucket` once it has storage: those it has, or,
/// for a bucket without storage, the full bucket of default entries, each
/// of which is an empty vector.
pub open spec fn allocated_row(rows: Seq<Seq<Seq<u8>>>, bucket: int) -> Seq<Seq<u8>> {
    if rows[bucket].len() == 0 {
        Seq::new(tier_len(bucket as nat), |entry: int| Seq::<u8>::empty())
    } else {
        rows[bucket]
    }
}

/// `Buckets::new` of `pi_buckets`: a bucket set in which no bucket has
/// storage.
#[verifier::external_body]
pub(crate) fn new_buckets() -> (buckets: Buckets<Vec<u8>>)
    ensures
        bucket_rows(buckets) == empty_rows(),
{
    Buckets::new()
}

/// `Buckets::get` of `pi_buckets`, at the location made of `bucket` and
/// `entry`: nothing for a bucket without storage, else the entry.
/// `Location::new` panics unless the bucket number is below `BUCKETS` and
/// the entry below the bucket's length.
#[verifier::external_body]
pub(crate) fn bucket_get(buckets: &Buckets<Vec<u8>>, bucket: usize, entry: usize) -> (slot: Option<
    &Vec<u8>,
>)
    requires
        bucket < BUCKETS,
        entry < tier_len(bucket as nat),
    ensures
        bucket_rows(*buckets)[bucket as int].len() == 0 ==> slot is None,
        bucket_rows(*buckets)[bucket as int].len() != 0 ==> slot is Some && slot->0@
            == bucket_rows(*buckets)[bucket as int][entry as int],
{
    buckets.get(&Location::new(bucket, entry))
}

/// `Buckets::alloc` of `pi_buckets`, at the location made of `bucket` and
/// `entry`: a bucket without storage gets its full length of default
/// entries, and the entry is handed out for writing. No other entry and no
/// other bucket changes.
#[verifier::external_body]
pub(crate) fn bucket_alloc(buckets: &mut Buckets<Vec<u8>>, bucket: usize, entry: usize) -> (slot:
    &mut Vec<u8>)
    requires
        bucket < BUCKETS,
        entry < tier_len(bucket as nat),
    ensures
        slot@ == allocated_row(bucket_rows(*old(buckets)), bucket as int)[entry as int],
        bucket_rows(*final(buckets)) == bucket_rows(*old(buckets)).update(
            bucket as int,
            allocated_row(bucket_rows(*old(buckets)), bucket as int).update(
                entry as int,
                final(slot)@,
            ),
        ),
{
    buckets.alloc(&Location::new(bucket, entry))
}

/// `Buckets::take` of `pi_buckets`: hands out every bucket's entries, by
/// bucket number, and leaves the set without storage.
#[verifier::external_body]
pub(crate) fn take_rows(buckets: &mut Buckets<Vec<u8>>) -> (rows: Vec<Vec<Vec<u8>>>)
    ensures
        rows.deep_view() == bucket_rows(*old(buckets)),
        bucket_rows(*final(buckets)) == empty_rows(),
{
    buckets.take().into_iter().map(|row| row.into_vec()).collect()
}

/// `VecRemain::remain_to` of `pi_vec_remain` for the range `0..end`: the
/// first `end` items of `source`, or all of them where it has fewer, are
/// appended to `target` in order, and `source` is left empty.
#[verifier::external_body]
pub(crate) fn move_prefix(source: &mut Vec<Vec<u8>>, end: usize, target: &mut Vec<Vec<u8>>) -> (count:
    usize)
    ensures
        count == if end <= old(source)@.len() {
            end as nat
        } else {
            old(source)@.len()
        },
        final(target)@ == old(target)@ + old(source)@.subrange(0, count as int),
        final(source)@ == Seq::<Vec<u8>>::empty(),
{
    source.remain_to(0..end, target)
}

} // verus!
