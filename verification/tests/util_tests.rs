use raft_progress::util::{limited_count, NO_LIMIT};

#[test]
fn no_limit_keeps_everything() {
    let sizes = vec![100, 100, 100];
    assert_eq!(limited_count(&sizes, NO_LIMIT), 3);
}

#[test]
fn batches_of_at_most_one_entry_are_never_limited() {
    assert_eq!(limited_count(&Vec::new(), 0), 0);
    assert_eq!(limited_count(&vec![500], 1), 1);
}

#[test]
fn the_first_entry_always_survives() {
    let sizes = vec![500, 1, 1];
    assert_eq!(limited_count(&sizes, 10), 1);
}

#[test]
fn counting_stops_once_the_total_exceeds_the_limit() {
    let sizes = vec![4, 4, 4];
    assert_eq!(limited_count(&sizes, 8), 2);
    assert_eq!(limited_count(&sizes, 12), 3);
    assert_eq!(limited_count(&sizes, 11), 2);
}

#[test]
fn an_empty_first_entry_lets_the_second_through() {
    // while nothing has been counted toward the total, the next entry is
    // taken unconditionally
    let sizes = vec![0, 100, 1];
    assert_eq!(limited_count(&sizes, 1), 2);
}

#[test]
fn huge_sizes_do_not_wrap_around() {
    let sizes = vec![u64::MAX, u64::MAX, 1];
    assert_eq!(limited_count(&sizes, u64::MAX - 1), 1);
}
