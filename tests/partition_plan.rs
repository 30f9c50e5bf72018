use matrix::partition::partition_rows;

#[test]
fn one_worker_takes_all_rows() {
    assert_eq!(partition_rows(5, 1), vec![(0, 5)]);
}

#[test]
fn zero_workers_count_as_one() {
    assert_eq!(partition_rows(5, 0), vec![(0, 5)]);
}

#[test]
fn workers_equal_to_rows_take_one_row_each() {
    assert_eq!(partition_rows(3, 3), vec![(0, 1), (1, 2), (2, 3)]);
}

#[test]
fn more_workers_than_rows_leave_some_idle() {
    assert_eq!(partition_rows(3, 8), vec![(0, 1), (1, 2), (2, 3)]);
}

#[test]
fn chunks_are_rounded_up_and_last_is_shorter() {
    assert_eq!(partition_rows(10, 4), vec![(0, 3), (3, 6), (6, 9), (9, 10)]);
    assert_eq!(partition_rows(5, 3), vec![(0, 2), (2, 4), (4, 5)]);
    assert_eq!(partition_rows(4, 3), vec![(0, 2), (2, 4)]);
}

#[test]
fn no_rows_no_ranges() {
    assert_eq!(partition_rows(0, 4), Vec::<(usize, usize)>::new());
}

#[test]
fn huge_worker_count_does_not_overflow() {
    assert_eq!(partition_rows(2, usize::MAX), vec![(0, 1), (1, 2)]);
    assert_eq!(partition_rows(usize::MAX, 1), vec![(0, usize::MAX)]);
}
