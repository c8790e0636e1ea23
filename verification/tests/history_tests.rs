use lensing::history::snapshot_index;

#[test]
fn snapshot_index_in_range_is_identity() {
    assert_eq!(snapshot_index(0, 5), 0);
    assert_eq!(snapshot_index(3, 5), 3);
    assert_eq!(snapshot_index(4, 5), 4);
}

#[test]
fn snapshot_index_clamps_to_last() {
    assert_eq!(snapshot_index(5, 5), 4);
    assert_eq!(snapshot_index(100, 5), 4);
    assert_eq!(snapshot_index(usize::MAX, 1), 0);
}

#[test]
fn snapshot_index_is_monotonic() {
    let len = 7;
    let mut last = 0;
    for step in 0..20 {
        let i = snapshot_index(step, len);
        assert!(i >= last);
        assert!(i < len);
        last = i;
    }
}
