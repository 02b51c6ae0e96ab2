use msm::collections::drain_filter;

#[test]
fn drains_matching_items() {
    let mut items = vec![1, 2, 3, 4, 5, 6];
    let mut drained = drain_filter(&mut items, |x| x % 2 == 0);
    drained.sort();
    let mut kept = items.clone();
    kept.sort();
    assert_eq!(drained, vec![2, 4, 6]);
    assert_eq!(kept, vec![1, 3, 5]);
}

#[test]
fn swap_remove_order_of_evens() {
    let mut items = vec![1, 2, 3, 4, 5];
    let drained = drain_filter(&mut items, |x: &i32| *x % 2 == 0);
    assert_eq!(drained, vec![2, 4]);
    assert_eq!(items, vec![1, 5, 3]);
}

#[test]
fn swap_remove_order() {
    let mut items = vec![10, 1, 2, 11, 3];
    let drained = drain_filter(&mut items, |x| *x >= 10);
    assert_eq!(drained, vec![10, 11]);
    assert_eq!(items, vec![3, 1, 2]);
}

#[test]
fn drains_nothing_or_everything() {
    let mut items: Vec<u32> = vec![];
    assert!(drain_filter(&mut items, |_| true).is_empty());
    let mut items = vec![7, 8];
    assert!(drain_filter(&mut items, |_| false).is_empty());
    assert_eq!(items, vec![7, 8]);
    let drained = drain_filter(&mut items, |_| true);
    assert!(items.is_empty());
    assert_eq!(drained.len(), 2);
}
