use raft_progress::errors::Error;
use raft_progress::progress::{Inflights, Progress, ProgressSet, ProgressState};

fn pr(matched: u64, learner: bool) -> Progress {
    Progress {
        matched,
        next_idx: matched + 1,
        state: ProgressState::Probe,
        paused: false,
        pending_snapshot: 0,
        recent_active: false,
        ins: Inflights::new(256),
        is_learner: learner,
    }
}

#[test]
fn same_id_cannot_be_voter_and_learner() {
    let mut set = ProgressSet::new(4, 4);
    assert!(set.insert_voter(7, pr(0, false)).is_ok());
    let second = set.insert_learner(7, pr(0, true));
    assert!(matches!(second, Err(Error::ConfigInvalid)));
    assert!(set.get(7).is_some());
    assert_eq!(set.learner_notes(), Vec::<u64>::new());
}

#[test]
fn duplicate_insert_fails() {
    let mut set = ProgressSet::new(4, 4);
    assert!(set.insert_voter(1, pr(0, false)).is_ok());
    assert!(matches!(set.insert_voter(1, pr(0, false)), Err(Error::ConfigInvalid)));
    assert!(set.insert_learner(2, pr(0, true)).is_ok());
    assert!(matches!(set.insert_learner(2, pr(0, true)), Err(Error::ConfigInvalid)));
}

#[test]
fn promote_learner_moves_it_to_the_voters() {
    let mut set = ProgressSet::new(4, 4);
    assert!(set.insert_learner(7, pr(3, true)).is_ok());
    assert!(set.promote_learner(7).is_ok());
    let promoted = set.get(7).expect("promoted peer is still registered");
    assert!(!promoted.is_learner);
    assert_eq!(promoted.matched, 3);
    assert_eq!(set.nodes(), vec![7]);
    assert_eq!(set.learner_notes(), Vec::<u64>::new());
}

#[test]
fn promoting_an_unknown_learner_fails() {
    let mut set = ProgressSet::new(4, 4);
    assert!(set.insert_voter(7, pr(0, false)).is_ok());
    assert!(matches!(set.promote_learner(7), Err(Error::ConfigInvalid)));
    assert!(matches!(set.promote_learner(8), Err(Error::ConfigInvalid)));
}

#[test]
fn nodes_are_sorted_and_learners_kept_apart() {
    let mut set = ProgressSet::new(4, 4);
    assert!(set.insert_voter(5, pr(0, false)).is_ok());
    assert!(set.insert_voter(1, pr(0, false)).is_ok());
    assert!(set.insert_voter(3, pr(0, false)).is_ok());
    assert!(set.insert_learner(4, pr(0, true)).is_ok());
    assert!(set.insert_learner(2, pr(0, true)).is_ok());
    assert_eq!(set.nodes(), vec![1, 3, 5]);
    assert_eq!(set.learner_notes(), vec![2, 4]);
    assert_eq!(set.voters().len(), 3);
    assert_eq!(set.learners().len(), 2);
}

#[test]
fn iter_visits_every_peer_once() {
    let mut set = ProgressSet::new(4, 4);
    assert!(set.insert_voter(5, pr(0, false)).is_ok());
    assert!(set.insert_voter(1, pr(0, false)).is_ok());
    assert!(set.insert_learner(3, pr(0, true)).is_ok());
    assert_eq!(set.iter(), vec![1, 5, 3]);
}

#[test]
fn remove_takes_from_either_side() {
    let mut set = ProgressSet::new(4, 4);
    assert!(set.insert_voter(1, pr(11, false)).is_ok());
    assert!(set.insert_learner(2, pr(22, true)).is_ok());
    let gone = set.remove(1).expect("voter 1 was registered");
    assert_eq!(gone.matched, 11);
    let gone = set.remove(2).expect("learner 2 was registered");
    assert_eq!(gone.matched, 22);
    assert!(set.remove(3).is_none());
    assert!(set.get(1).is_none());
    assert!(set.get(2).is_none());
}

#[test]
fn get_mut_feeds_updates_back_into_the_registry() {
    let mut set = ProgressSet::new(4, 4);
    assert!(set.insert_voter(1, pr(0, false)).is_ok());
    {
        let p = set.get_mut(1).expect("voter 1 was registered");
        assert!(p.maybe_update(9));
    }
    assert_eq!(set.get(1).unwrap().matched, 9);
    assert!(set.get_mut(99).is_none());
}
