use pcg_rand::Pcg64;
use pi_slab::{RawSlab, VBSlab};
use rand::{Rng, SeedableRng};

fn write(slab: &mut VBSlab, index: usize, value: usize) {
    slab.load_alloc(index).copy_from_slice(&value.to_ne_bytes());
}

fn read(slab: &VBSlab, index: usize) -> Option<usize> {
    slab.get(index).map(|bytes| usize::from_ne_bytes(bytes.try_into().unwrap()))
}

fn check3(arr: &RawSlab, len: usize) {
    for i in 0..len {
        let r = arr.get(i).unwrap();
        assert_eq!(usize::from_ne_bytes(r.try_into().unwrap()), i);
    }
}

#[test]
fn test3() {
    let mut arr = RawSlab::with_capacity(size_of::<usize>(), 0);
    let mut i = 0;
    let mut rng = Pcg64::seed_from_u64(2);
    for _ in 0..1000 {
        let x = rng.gen_range(0..1000);
        for _ in 0..x {
            let r = arr.load_alloc(i);
            r.copy_from_slice(&i.to_ne_bytes());
            i += 1;
        }
        check3(&arr, i);
        arr.settle(i);
        check3(&arr, i);
        if rng.gen_range(0..200) == 0 {
            println!("reset ----------");
            arr = RawSlab::with_capacity(size_of::<usize>(), 0);
            i = 0;
        }
    }
}

#[test]
fn thousand_slots_survive_settle() {
    let mut slab = VBSlab::with_capacity(8, 0);
    for i in 0..1000 {
        write(&mut slab, i, i);
    }
    for k in 0..1000 {
        assert_eq!(read(&slab, k), Some(k));
    }
    slab.settle(1000);
    for k in 0..1000 {
        assert_eq!(read(&slab, k), Some(k));
    }
    assert!(slab.vec_capacity() >= 1000);
    assert_eq!(slab.vec_capacity(), 2016);
    slab.settle(1000);
    assert_eq!(slab.vec_capacity(), 2016);
    for k in 0..1000 {
        assert_eq!(read(&slab, k), Some(k));
    }
}

#[test]
fn fresh_slab_has_unwritten_primary_slots() {
    let slab = VBSlab::with_capacity(3, 4);
    assert_eq!(slab.vec_capacity(), 4);
    for i in 0..4 {
        assert_eq!(slab.get(i), Some(&[0u8, 0, 0][..]));
        assert_eq!(slab.get_unchecked(i), &[0u8, 0, 0][..]);
    }
    assert_eq!(slab.get(4), None);
    assert_eq!(slab.get(usize::MAX), None);
}

#[test]
fn capacity_counts_the_buckets_that_cover_a_length() {
    let slab = VBSlab::with_capacity(8, 0);
    assert_eq!(slab.capacity(0), 0);
    assert_eq!(slab.capacity(1), 32);
    assert_eq!(slab.capacity(31), 32);
    assert_eq!(slab.capacity(32), 96);
    assert_eq!(slab.capacity(95), 96);
    assert_eq!(slab.capacity(96), 224);
    assert_eq!(slab.capacity(1000), 2016);
    let slab = VBSlab::with_capacity(8, 10);
    assert_eq!(slab.capacity(0), 10);
    assert_eq!(slab.capacity(10), 10);
    assert_eq!(slab.capacity(11), 42);
    assert_eq!(slab.capacity(42), 106);
}

#[test]
fn capacity_does_not_shrink_as_the_length_grows() {
    let mut slab = VBSlab::with_capacity(2, 5);
    let mut last = 0;
    for len in 0..3000 {
        let capacity = slab.capacity(len);
        assert!(capacity >= last);
        assert!(capacity >= len);
        last = capacity;
    }
    slab.load_alloc(700)[0] = 1;
    assert!(slab.capacity(701) >= 701);
    assert_eq!(slab.capacity(701), 5 + 992);
    assert_eq!(slab.vec_capacity(), 5);
}

#[test]
fn load_alloc_beyond_the_primary_buffer_goes_to_a_bucket() {
    let mut slab = VBSlab::with_capacity(2, 3);
    assert_eq!(slab.get(3), None);
    assert_eq!(slab.load_alloc(3), &mut [0u8, 0][..]);
    slab.load_alloc(3).copy_from_slice(&[7, 9]);
    assert_eq!(slab.get(3), Some(&[7u8, 9][..]));
    assert_eq!(slab.get_unchecked(3), &[7u8, 9][..]);
    // the rest of the first bucket has storage now, unwritten
    assert_eq!(slab.get(4), Some(&[0u8, 0][..]));
    assert_eq!(slab.get(34), Some(&[0u8, 0][..]));
    assert_eq!(slab.get_unchecked(34), &[0u8, 0][..]);
    // the second bucket has none
    assert_eq!(slab.get(35), None);
    assert_eq!(slab.vec_capacity(), 3);
    // a second call hands out the same slot
    assert_eq!(slab.load_alloc(3), &mut [7u8, 9][..]);
    slab.load_alloc(1).copy_from_slice(&[1, 2]);
    assert_eq!(slab.get(1), Some(&[1u8, 2][..]));
    assert_eq!(slab.get(3), Some(&[7u8, 9][..]));
}

#[test]
fn settle_within_the_primary_buffer_changes_nothing() {
    let mut slab = VBSlab::with_capacity(1, 4);
    slab.load_alloc(2)[0] = 5;
    slab.load_alloc(10)[0] = 6;
    slab.settle(4);
    assert_eq!(slab.vec_capacity(), 4);
    assert_eq!(slab.get(2), Some(&[5u8][..]));
    assert_eq!(slab.get(10), Some(&[6u8][..]));
    assert_eq!(slab.get(36), None);
}

#[test]
fn settle_adopts_the_first_bucket_of_an_empty_slab() {
    let mut slab = VBSlab::with_capacity(1, 0);
    slab.load_alloc(0)[0] = 1;
    slab.load_alloc(5)[0] = 2;
    slab.load_alloc(20)[0] = 3;
    slab.settle(6);
    assert_eq!(slab.vec_capacity(), 32);
    assert_eq!(slab.get(0), Some(&[1u8][..]));
    assert_eq!(slab.get(5), Some(&[2u8][..]));
    // slots at and beyond the length are unwritten afterwards
    assert_eq!(slab.get(20), Some(&[0u8][..]));
    assert_eq!(slab.get(31), Some(&[0u8][..]));
    assert_eq!(slab.get(32), None);
}

#[test]
fn settle_of_a_slab_that_nothing_was_written_to() {
    let mut slab = VBSlab::with_capacity(4, 0);
    slab.settle(3);
    assert_eq!(slab.vec_capacity(), 32);
    for i in 0..32 {
        assert_eq!(slab.get(i), Some(&[0u8; 4][..]));
    }
    assert_eq!(slab.get(32), None);
}

#[test]
fn settle_keeps_indices_aligned_across_skipped_buckets() {
    let mut slab = VBSlab::with_capacity(8, 2);
    write(&mut slab, 1, 11);
    // offsets 0..32 are bucket 0, 32..96 bucket 1, 96..224 bucket 2
    write(&mut slab, 2 + 5, 12);
    write(&mut slab, 2 + 100, 13);
    write(&mut slab, 2 + 223, 14);
    assert_eq!(read(&slab, 2 + 40), None);
    slab.settle(2 + 224);
    assert_eq!(slab.vec_capacity(), 2 + 480);
    assert_eq!(read(&slab, 1), Some(11));
    assert_eq!(read(&slab, 2 + 5), Some(12));
    assert_eq!(read(&slab, 2 + 100), Some(13));
    assert_eq!(read(&slab, 2 + 223), Some(14));
    assert_eq!(read(&slab, 0), Some(0));
    assert_eq!(read(&slab, 2 + 40), Some(0));
    assert_eq!(read(&slab, 2 + 99), Some(0));
    assert_eq!(read(&slab, 2 + 479), Some(0));
    assert_eq!(read(&slab, 2 + 480), None);
}

#[test]
fn settle_drops_what_lies_beyond_the_length() {
    let mut slab = VBSlab::with_capacity(8, 0);
    for i in 0..200 {
        write(&mut slab, i, i + 1);
    }
    slab.settle(100);
    assert_eq!(slab.vec_capacity(), 224);
    for i in 0..100 {
        assert_eq!(read(&slab, i), Some(i + 1));
    }
    for i in 100..224 {
        assert_eq!(read(&slab, i), Some(0));
    }
    assert_eq!(read(&slab, 224), None);
}

#[test]
fn settle_twice_is_settle_once() {
    let mut slab = VBSlab::with_capacity(8, 7);
    for i in 0..300 {
        write(&mut slab, i, 3 * i);
    }
    slab.settle(300);
    let capacity = slab.vec_capacity();
    assert_eq!(capacity, 7 + 480);
    let before: Vec<Option<usize>> = (0..capacity + 1).map(|i| read(&slab, i)).collect();
    slab.settle(300);
    assert_eq!(slab.vec_capacity(), capacity);
    let after: Vec<Option<usize>> = (0..capacity + 1).map(|i| read(&slab, i)).collect();
    assert_eq!(before, after);
    for i in 0..300 {
        assert_eq!(before[i], Some(3 * i));
    }
    assert_eq!(before[capacity], None);
}

#[test]
fn growth_after_settle_starts_from_the_new_capacity() {
    let mut slab = VBSlab::with_capacity(8, 0);
    write(&mut slab, 0, 1);
    slab.settle(1);
    assert_eq!(slab.vec_capacity(), 32);
    write(&mut slab, 32, 2);
    assert_eq!(slab.vec_capacity(), 32);
    assert_eq!(slab.capacity(33), 64);
    assert_eq!(read(&slab, 63), Some(0));
    assert_eq!(read(&slab, 64), None);
    slab.settle(33);
    assert_eq!(slab.vec_capacity(), 64);
    assert_eq!(read(&slab, 0), Some(1));
    assert_eq!(read(&slab, 32), Some(2));
}

#[test]
fn zero_size_slab_has_every_slot_and_no_storage() {
    let mut slab = VBSlab::with_capacity(0, 5);
    assert_eq!(slab.vec_capacity(), usize::MAX);
    assert_eq!(slab.capacity(0), usize::MAX);
    assert_eq!(slab.capacity(12345), usize::MAX);
    assert_eq!(slab.capacity(usize::MAX), usize::MAX);
    for index in [0, 1, 31, 32, 1 << 40, usize::MAX] {
        assert_eq!(slab.get(index), Some(&[0u8; 0][..]));
        assert_eq!(slab.get_unchecked(index), &[0u8; 0][..]);
        assert_eq!(slab.load_alloc(index).len(), 0);
    }
    slab.settle(1000);
    assert_eq!(slab.vec_capacity(), usize::MAX);
    assert_eq!(slab.get(999), Some(&[0u8; 0][..]));
}

#[test]
fn default_vb_slab_is_the_zero_size_slab() {
    let slab = VBSlab::default();
    assert_eq!(slab.vec_capacity(), usize::MAX);
    assert_eq!(slab.get(17), Some(&[0u8; 0][..]));
}

#[test]
fn the_last_offset_that_buckets_reach() {
    let slab = VBSlab::with_capacity(1, 3);
    assert_eq!(slab.get(3 + pi_slab::tier::MAX_ENTRIES), None);
    assert_eq!(slab.get(3 + pi_slab::tier::MAX_ENTRIES + 1), None);
    assert_eq!(slab.capacity(3 + pi_slab::tier::MAX_ENTRIES), 3 + pi_slab::tier::MAX_ENTRIES + 1);
}
