use raft_progress::progress::{Inflights, Progress, ProgressState};

fn fresh_progress() -> Progress {
    Progress {
        matched: 0,
        next_idx: 0,
        state: ProgressState::Probe,
        paused: false,
        pending_snapshot: 0,
        recent_active: false,
        ins: Inflights::new(256),
        is_learner: false,
    }
}

#[test]
fn transitions_keep_next_idx_above_matched() {
    let mut p = fresh_progress();
    p.matched = 7;
    p.become_probe();
    assert!(p.next_idx >= p.matched + 1);
    p.become_replicate();
    assert!(p.next_idx >= p.matched + 1);
    assert_eq!(p.next_idx, 8);
    p.become_snapshot(20);
    assert!(p.next_idx >= p.matched + 1);
}

#[test]
fn become_probe_resumes_past_pending_snapshot() {
    let mut p = fresh_progress();
    p.state = ProgressState::Snapshot;
    p.pending_snapshot = 10;
    p.matched = 3;
    p.become_probe();
    assert_eq!(p.next_idx, 11);
    assert_eq!(p.state, ProgressState::Probe);
    assert_eq!(p.pending_snapshot, 0);

    let mut q = fresh_progress();
    q.state = ProgressState::Snapshot;
    q.pending_snapshot = 10;
    q.matched = 15;
    q.become_probe();
    assert_eq!(q.next_idx, 16);
}

#[test]
fn become_probe_from_probe_ignores_pending_snapshot() {
    let mut p = fresh_progress();
    p.state = ProgressState::Probe;
    p.pending_snapshot = 10;
    p.matched = 3;
    p.become_probe();
    assert_eq!(p.next_idx, 4);
}

#[test]
fn maybe_update_is_monotonic_under_replay() {
    let mut p = fresh_progress();
    assert!(p.maybe_update(9));
    assert_eq!(p.matched, 9);
    assert_eq!(p.next_idx, 10);
    // replay with the same acknowledgment
    assert!(!p.maybe_update(9));
    assert_eq!(p.matched, 9);
    assert_eq!(p.next_idx, 10);
    // replay with a smaller one
    assert!(!p.maybe_update(4));
    assert_eq!(p.matched, 9);
    assert_eq!(p.next_idx, 10);
}

#[test]
fn maybe_update_resumes_sending() {
    let mut p = fresh_progress();
    p.pause();
    assert!(p.is_paused());
    assert!(p.maybe_update(2));
    assert!(!p.is_paused());
}

#[test]
fn optimistic_update_moves_only_the_cursor() {
    let mut p = fresh_progress();
    p.optimistic_update(41);
    assert_eq!(p.next_idx, 42);
    assert_eq!(p.matched, 0);
}

#[test]
fn maybe_snapshot_abort_needs_matched_at_pending() {
    let mut p = fresh_progress();
    p.become_snapshot(10);
    assert!(!p.maybe_snapshot_abort());
    p.maybe_update(10);
    assert!(p.maybe_snapshot_abort());
    p.become_probe();
    assert!(!p.maybe_snapshot_abort());
}

#[test]
fn snapshot_failure_clears_pending() {
    let mut p = fresh_progress();
    p.become_snapshot(33);
    p.snapshot_failure();
    assert_eq!(p.pending_snapshot, 0);
    assert_eq!(p.state, ProgressState::Snapshot);
}

#[test]
fn is_paused_follows_the_mode() {
    let mut p = Progress {
        matched: 0,
        next_idx: 0,
        state: ProgressState::Probe,
        paused: false,
        pending_snapshot: 0,
        recent_active: false,
        ins: Inflights::new(1),
        is_learner: false,
    };
    assert!(!p.is_paused());
    p.pause();
    assert!(p.is_paused());
    p.become_replicate();
    assert!(!p.is_paused());
    p.ins.add(5);
    assert!(p.is_paused());
    p.become_snapshot(9);
    assert!(p.is_paused());
}

#[test]
fn default_progress_starts_probing() {
    let p = Progress::default();
    assert_eq!(p.state, ProgressState::Probe);
    assert_eq!(p.matched, 0);
    assert_eq!(p.next_idx, 0);
    assert!(!p.is_learner);
}
