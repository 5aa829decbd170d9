use garage::block::{check_put_block, first_valid_block, BlockRc, BLOCK_GC_DELAY_MSEC};
use garage::data::hash;
use garage::util::error::Error;

#[test]
fn put_block_rejects_corrupt_data() {
    let data = b"some block bytes";
    let good = hash(data);
    assert!(check_put_block(&good, data).is_ok());

    let other = hash(b"different bytes");
    match check_put_block(&other, data) {
        Err(Error::CorruptData { expected_hash }) => {
            assert!(expected_hash.same(&other));
        }
        _ => panic!("a wrong hash must be rejected as corrupt data"),
    }
}

#[test]
fn get_block_takes_the_first_valid_answer() {
    let data = b"the real block".to_vec();
    let h = hash(&data);
    let corrupt = b"garbage answer".to_vec();
    let answers = vec![corrupt.clone(), data.clone()];
    assert_eq!(first_valid_block(&h, &answers), Some(data.clone()));
    let only_bad = vec![corrupt];
    assert_eq!(first_valid_block(&h, &only_bad), None);
}

#[test]
fn refcount_protects_blocks_until_the_grace_period_ends() {
    let h = hash(b"a stored block");
    let mut rc = BlockRc::new();

    // two versions reference the block
    rc.block_incref(&h, 1);
    rc.block_incref(&h, 2);
    assert!(rc.gc_candidates(u64::MAX, BLOCK_GC_DELAY_MSEC).is_empty());

    // one reference goes away: still protected
    rc.block_decref(&h, 1, 1000);
    assert!(rc.gc_candidates(u64::MAX, BLOCK_GC_DELAY_MSEC).is_empty());

    // the last reference goes away at t=2000: the grace period starts
    rc.block_decref(&h, 2, 2000);
    assert!(rc.gc_candidates(2000 + BLOCK_GC_DELAY_MSEC - 1, BLOCK_GC_DELAY_MSEC).is_empty());
    let due = rc.gc_candidates(2000 + BLOCK_GC_DELAY_MSEC, BLOCK_GC_DELAY_MSEC);
    assert_eq!(due.len(), 1);
    assert!(due[0].same(&h));

    // a concurrent writer re-references the block: protected again
    rc.block_incref(&h, 3);
    assert!(rc.gc_candidates(u64::MAX, BLOCK_GC_DELAY_MSEC).is_empty());
}
