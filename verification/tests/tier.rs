use pi_slab::slot::{append_row, blank_slot, fill_blank, pad_to};
use pi_slab::tier::{place_of, BUCKETS, MAX_ENTRIES, SKIP};

#[test]
fn constants_are_those_of_the_bucket_set() {
    assert_eq!(SKIP, pi_buckets::SKIP);
    assert_eq!(BUCKETS, pi_buckets::BUCKETS);
    assert_eq!(MAX_ENTRIES, pi_buckets::MAX_ENTRIES);
    assert_eq!(BUCKETS, 27);
    assert_eq!(MAX_ENTRIES, 4294967263);
}

#[test]
fn offsets_fall_into_doubling_buckets() {
    assert_eq!(place_of(0), (0, 0));
    assert_eq!(place_of(31), (0, 31));
    assert_eq!(place_of(32), (1, 0));
    assert_eq!(place_of(95), (1, 63));
    assert_eq!(place_of(96), (2, 0));
    assert_eq!(place_of(223), (2, 127));
    assert_eq!(place_of(224), (3, 0));
    assert_eq!(place_of(1000), (5, 8));
    assert_eq!(place_of(MAX_ENTRIES), (26, (1 << 31) - 1));
}

#[test]
fn every_offset_is_the_start_of_its_bucket_plus_its_entry() {
    let mut start = 0;
    let mut len = 32;
    for bucket in 0..12 {
        for entry in [0, 1, len / 2, len - 1] {
            assert_eq!(place_of(start + entry), (bucket, entry));
        }
        start += len;
        len *= 2;
    }
}

#[test]
fn blank_slots_are_zeroed() {
    assert_eq!(blank_slot(0), Vec::<u8>::new());
    assert_eq!(blank_slot(3), vec![0u8, 0, 0]);
}

#[test]
fn padding_appends_unwritten_slots() {
    let mut slots = vec![vec![1u8, 2]];
    pad_to(&mut slots, 3, 2);
    assert_eq!(slots, vec![vec![1u8, 2], vec![0, 0], vec![0, 0]]);
    pad_to(&mut slots, 3, 2);
    assert_eq!(slots.len(), 3);
}

#[test]
fn filling_replaces_vectors_of_another_size() {
    let mut slots = vec![vec![], vec![1u8, 2], vec![], vec![3, 4], vec![5]];
    fill_blank(&mut slots, 1, 2);
    assert_eq!(slots, vec![vec![], vec![1u8, 2], vec![0, 0], vec![3, 4], vec![0, 0]]);
}

#[test]
fn appending_a_row_moves_its_live_entries_and_pads() {
    let mut primary = vec![vec![9u8]];
    let mut row = vec![vec![1u8], vec![], vec![3], vec![4]];
    append_row(&mut primary, &mut row, 3, 4, 1);
    assert_eq!(primary, vec![vec![9u8], vec![1], vec![0], vec![3], vec![0]]);
    assert!(row.is_empty());

    let mut row = vec![vec![5u8], vec![6]];
    append_row(&mut primary, &mut row, 10, 2, 1);
    assert_eq!(primary.len(), 7);
    assert_eq!(primary[5], vec![5u8]);
    assert_eq!(primary[6], vec![6u8]);

    let mut row: Vec<Vec<u8>> = Vec::new();
    append_row(&mut primary, &mut row, 1, 3, 1);
    assert_eq!(primary.len(), 10);
    assert_eq!(primary[7..], [vec![0u8], vec![0], vec![0]]);
}
