use raft_progress::eraftpb::{Entry, Snapshot};
use raft_progress::log_unstable::Unstable;

fn entry(index: u64, term: u64) -> Entry {
    Entry { index, term, data: Vec::new() }
}

#[test]
fn new_unstable_knows_nothing() {
    let u = Unstable::new(5, String::from("peer-1"));
    assert_eq!(u.maybe_first_index(), None);
    assert_eq!(u.maybe_last_index(), None);
    assert_eq!(u.maybe_term(5), None);
    assert_eq!(u.offset, 5);
}

#[test]
fn append_then_stable_to_trims_the_front() {
    let mut u = Unstable::new(5, String::new());
    u.truncate_and_append(vec![entry(5, 1), entry(6, 1), entry(7, 2), entry(8, 2)]);
    assert_eq!(u.maybe_last_index(), Some(8));
    let term_of_7 = u.maybe_term(7).unwrap();
    assert_eq!(term_of_7, 2);
    u.stable_to(7, term_of_7);
    assert_eq!(u.offset, 8);
    assert_eq!(u.entries.len(), 1);
    assert_eq!(u.entries[0].index, 8);
    assert_eq!(u.maybe_term(8), Some(2));
}

#[test]
fn stable_to_with_stale_term_changes_nothing() {
    let mut u = Unstable::new(5, String::new());
    u.truncate_and_append(vec![entry(5, 1), entry(6, 2)]);
    u.stable_to(6, 1);
    assert_eq!(u.offset, 5);
    assert_eq!(u.entries.len(), 2);
}

#[test]
fn overlapping_append_discards_the_overwritten_tail() {
    let mut u = Unstable::new(5, String::new());
    u.truncate_and_append(vec![entry(5, 1), entry(6, 1), entry(7, 1)]);
    // a diverged leader rewrites from index 6 on
    u.truncate_and_append(vec![entry(6, 2)]);
    assert_eq!(u.offset, 5);
    assert_eq!(u.entries.len(), 2);
    assert_eq!(u.maybe_term(6), Some(2));
    assert_eq!(u.maybe_term(7), None);
}

#[test]
fn append_at_or_below_offset_replaces_the_tail() {
    let mut u = Unstable::new(5, String::new());
    u.truncate_and_append(vec![entry(5, 1), entry(6, 1)]);
    u.truncate_and_append(vec![entry(4, 2), entry(5, 2)]);
    assert_eq!(u.offset, 4);
    assert_eq!(u.entries.len(), 2);
    assert_eq!(u.maybe_term(5), Some(2));
}

#[test]
fn maybe_term_outside_all_bounds_is_none() {
    let mut u = Unstable::new(0, String::new());
    u.restore(Snapshot { index: 10, term: 3, data: Vec::new() });
    u.truncate_and_append(vec![entry(11, 3), entry(12, 3)]);
    // below the snapshot point
    assert_eq!(u.maybe_term(9), None);
    // at the snapshot point the snapshot answers
    assert_eq!(u.maybe_term(10), Some(3));
    // above the buffered entries
    assert_eq!(u.maybe_term(13), None);
}

#[test]
fn restore_installs_the_snapshot() {
    let mut u = Unstable::new(5, String::new());
    u.truncate_and_append(vec![entry(5, 1)]);
    u.restore(Snapshot { index: 42, term: 7, data: Vec::new() });
    assert_eq!(u.offset, 43);
    assert!(u.entries.is_empty());
    assert_eq!(u.maybe_first_index(), Some(43));
    assert_eq!(u.maybe_last_index(), Some(42));
    assert_eq!(u.maybe_term(42), Some(7));
}
