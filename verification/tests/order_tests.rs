use note_store::order::newest_first_order;

#[test]
fn newest_first_order_of_nothing() {
    assert_eq!(newest_first_order(&vec![]), Vec::<usize>::new());
}

#[test]
fn newest_first_order_ranks_by_descending_time() {
    assert_eq!(newest_first_order(&vec![10, 30, 20]), vec![1, 2, 0]);
    assert_eq!(newest_first_order(&vec![1, 2, 3]), vec![2, 1, 0]);
    assert_eq!(newest_first_order(&vec![3, 2, 1]), vec![0, 1, 2]);
}

#[test]
fn newest_first_order_keeps_equal_times_in_place() {
    assert_eq!(newest_first_order(&vec![5, 5, 5]), vec![0, 1, 2]);
    assert_eq!(newest_first_order(&vec![5, 9, 5, 9]), vec![1, 3, 0, 2]);
}

#[test]
fn newest_first_order_puts_times_before_the_epoch_last() {
    assert_eq!(newest_first_order(&vec![-4, 0, 7, -9]), vec![2, 1, 0, 3]);
    assert_eq!(newest_first_order(&vec![i128::MIN, i128::MAX]), vec![1, 0]);
}
