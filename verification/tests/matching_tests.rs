use lupa::matching::{sort_scored, take_best_first, take_lowest_first, take_lowest_reversed};

#[test]
fn sorting_is_stable_and_ascending() {
    let v = vec![(0, 5), (1, 3), (2, 5), (3, 1), (4, 3)];
    assert_eq!(sort_scored(&v), vec![(3, 1), (1, 3), (4, 3), (0, 5), (2, 5)]);
}

#[test]
fn orders_of_results() {
    let v = vec![(0, 5), (1, 3), (2, 9), (3, 1)];
    assert_eq!(take_best_first(&v, 2), vec![2, 0]);
    assert_eq!(take_best_first(&v, 10), vec![2, 0, 1, 3]);
    assert_eq!(take_lowest_reversed(&v, 2), vec![1, 3]);
    assert_eq!(take_lowest_first(&v), vec![3, 1, 0, 2]);
    assert!(take_best_first(&vec![], 3).is_empty());
}
