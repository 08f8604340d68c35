use pi_slab::{VBSlab, VecSlab};

fn is_send_and_sync<T: Send + Sync>() {}

#[test]
fn slabs_can_cross_threads() {
    is_send_and_sync::<VBSlab>();
    is_send_and_sync::<VecSlab>();
}

#[test]
fn interleaved_writers_fill_disjoint_ranges() {
    const WRITERS: usize = 8;
    const RANGE: usize = 500;
    let mut slab = VBSlab::with_capacity(8, 100);
    // one step of each writer in turn, each inside its own range
    for step in 0..RANGE {
        for writer in 0..WRITERS {
            let index = writer * RANGE + step;
            let value = (writer << 32) | index;
            slab.load_alloc(index).copy_from_slice(&value.to_ne_bytes());
        }
    }
    for round in 0..2 {
        for writer in 0..WRITERS {
            for index in writer * RANGE..(writer + 1) * RANGE {
                let value = (writer << 32) | index;
                assert_eq!(slab.get(index), Some(&value.to_ne_bytes()[..]), "round {round}");
            }
        }
        slab.settle(WRITERS * RANGE);
    }
}
