use raft_progress::progress::Inflights;

#[test]
fn window_of_three_fills_and_frees() {
    let mut w = Inflights::new(3);
    assert!(!w.full());
    w.add(1);
    w.add(2);
    w.add(3);
    assert!(w.full());
    assert_eq!(w.count(), 3);
    // a cumulative acknowledgment up to 2 frees the first two slots
    w.free_to(2);
    assert!(!w.full());
    assert_eq!(w.count(), 1);
    w.add(4);
    w.add(5);
    assert!(w.full());
    assert_eq!(w.count(), 3);
}

#[test]
fn free_to_below_the_oldest_frees_nothing() {
    let mut w = Inflights::new(2);
    w.add(10);
    w.add(20);
    w.free_to(9);
    assert_eq!(w.count(), 2);
    assert!(w.full());
}

#[test]
fn free_to_everything_empties_the_window() {
    let mut w = Inflights::new(2);
    w.add(10);
    w.add(20);
    w.free_to(20);
    assert_eq!(w.count(), 0);
}

#[test]
fn free_first_one_frees_exactly_one() {
    let mut w = Inflights::new(2);
    w.add(10);
    w.add(20);
    w.free_first_one();
    assert_eq!(w.count(), 1);
    w.add(30);
    assert!(w.full());
}

#[test]
fn reset_empties_but_keeps_capacity() {
    let mut w = Inflights::new(2);
    w.add(10);
    w.add(20);
    w.reset();
    assert_eq!(w.count(), 0);
    w.add(1);
    w.add(2);
    assert!(w.full());
}

#[test]
fn zero_capacity_window_is_always_full() {
    let w = Inflights::new(0);
    assert!(w.full());
}
