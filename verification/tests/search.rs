use honu::search::{Batcher, BATCH_SIZE};

#[test]
fn first_candidate_goes_out_alone() {
    let mut batcher = Batcher::new();
    assert_eq!(batcher.push("foo"), Some(vec!["foo"]));
    assert_eq!(batcher.push("bar"), None);
    assert_eq!(batcher.finish(), Some(vec!["bar"]));
}

#[test]
fn later_candidates_go_out_in_full_batches() {
    let mut batcher = Batcher::new();
    let mut batches = Vec::new();
    for i in 0..(1 + 2 * BATCH_SIZE + 3) {
        if let Some(batch) = batcher.push(i) {
            batches.push(batch);
        }
    }
    let rest = batcher.finish().unwrap();
    assert_eq!(
        batches.iter().map(Vec::len).collect::<Vec<_>>(),
        [1, BATCH_SIZE, BATCH_SIZE],
    );
    assert_eq!(rest, [1 + 2 * BATCH_SIZE, 2 + 2 * BATCH_SIZE, 3 + 2 * BATCH_SIZE]);
    let all = batches.into_iter().flatten().chain(rest).collect::<Vec<_>>();
    assert_eq!(all, (0..(1 + 2 * BATCH_SIZE + 3)).collect::<Vec<_>>());
}

#[test]
fn nothing_pushed_leaves_nothing() {
    assert_eq!(Batcher::<u8>::new().finish(), None);
}
