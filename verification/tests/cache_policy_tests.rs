use local_agent::cache_policy::eviction_order;

#[test]
fn small_cache_keeps_everything_in_order() {
    assert_eq!(eviction_order(&vec![5, 0, 3], 3), vec![0, 1, 2]);
    assert_eq!(eviction_order(&vec![], 0), Vec::<usize>::new());
}

#[test]
fn eviction_keeps_most_hit_entries() {
    // a: 0 hits, b: 2 hits, c: 0 hits, in a cache of two.
    assert_eq!(eviction_order(&vec![0, 2, 0], 2), vec![2, 1]);
}

#[test]
fn eviction_sorts_stably_by_hits() {
    assert_eq!(eviction_order(&vec![3, 1, 2, 1, 0], 4), vec![1, 3, 2, 0]);
    assert_eq!(eviction_order(&vec![1, 1, 1], 1), vec![2]);
    assert_eq!(eviction_order(&vec![4, 4], 0), Vec::<usize>::new());
}
