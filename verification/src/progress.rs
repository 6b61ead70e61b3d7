use vstd::prelude::*;

use crate::errors::Error;

verus! {

/// The delivery mode a leader maintains toward one follower.
#[derive(Debug, PartialEq, Eq, Structural, Clone, Copy)]
pub enum ProgressState {
    /// The leader does not yet know where the follower's log diverges, so at
    /// most one outstanding probe message is permitted at a time. Every
    /// follower starts here.
    Probe,
    /// The follower is caught up to `next_idx - 1`; replication is pipelined
    /// aggressively, bounded only by the flow-control window.
    Replicate,
    /// The entries the follower needs have been compacted out of the
    /// leader's log; a full state transfer is underway and all sending is
    /// paused until it completes or fails.
    Snapshot,
}

impl Default for ProgressState {
    fn default() -> (r: ProgressState)
        ensures
            r == ProgressState::Probe,
    {
        ProgressState::Probe
    }
}

/// A bounded sliding window of outstanding (unacknowledged) replication
/// message markers for one follower. Each marker is the highest log index
/// carried by one in-flight append message; markers leave the window
/// front-first as cumulative acknowledgments arrive.
#[derive(Debug, Default)]
pub struct Inflights {
    /// Markers of the in-flight messages, oldest first.
    buffer: Vec<u64>,
    /// The most messages that may be in flight at once, fixed at
    /// construction.
    cap: usize,
}

impl Inflights {
    /// The markers currently in flight, oldest first.
    pub closed spec fn markers(self) -> Seq<u64> {
        self.buffer@
    }

    /// The capacity the window was made with.
    pub closed spec fn capacity(self) -> usize {
        self.cap
    }

    /// Well-formedness: the window never holds more than its capacity, and
    /// markers are strictly increasing (indices only grow as more is sent).
    pub open spec fn wf(self) -> bool {
        &&& self.markers().len() <= self.capacity()
        &&& forall|i: int, j: int|
            #![trigger self.markers()[i], self.markers()[j]]
            0 <= i < j < self.markers().len() ==> self.markers()[i] < self.markers()[j]
    }

    /// Whether the window is at capacity.
    pub open spec fn spec_full(self) -> bool {
        self.markers().len() == self.capacity()
    }

    /// What remains of `s` after a cumulative acknowledgment up to `idx`:
    /// the longest suffix whose leading marker exceeds `idx`.
    pub open spec fn acked_up_to(s: Seq<u64>, idx: u64) -> Seq<u64>
        decreases s.len(),
    {
        if s.len() == 0 {
            s
        } else if s[0] <= idx {
            Self::acked_up_to(s.drop_first(), idx)
        } else {
            s
        }
    }

    pub fn new(cap: usize) -> (r: Inflights)
        ensures
            r.wf(),
            r.markers() == Seq::<u64>::empty(),
            r.capacity() == cap,
    {
        let r = Inflights { buffer: Vec::new(), cap };
        proof {
            assert(r.markers() =~= Seq::<u64>::empty());
        }
        r
    }

    /// Records one more in-flight message, carrying entries up to `idx`.
    /// Adding to a full window, or out of send order, is a contract
    /// violation.
    pub fn add(&mut self, idx: u64)
        requires
            old(self).wf(),
            !old(self).spec_full(),
            old(self).markers().len() > 0 ==> idx > old(self).markers().last(),
        ensures
            final(self).wf(),
            final(self).markers() == old(self).markers().push(idx),
            final(self).capacity() == old(self).capacity(),
    {
        self.buffer.push(idx);
    }

    /// How many messages are currently in flight.
    pub fn count(&self) -> (r: usize)
        ensures
            r == self.markers().len(),
    {
        self.buffer.len()
    }

    /// Whether the window is at capacity: no further message may be sent
    /// until an acknowledgment frees a slot.
    pub fn full(&self) -> (r: bool)
        ensures
            r == self.spec_full(),
    {
        self.buffer.len() == self.cap
    }

    /// Frees every marker at or below `idx`: acknowledgments are cumulative,
    /// so a follower reporting `idx` has received everything up to it.
    pub fn free_to(&mut self, idx: u64)
        requires
            old(self).wf(),
        ensures
            final(self).wf(),
            final(self).markers() == Self::acked_up_to(old(self).markers(), idx),
            final(self).capacity() == old(self).capacity(),
    {
        while self.buffer.len() > 0 && self.buffer[0] <= idx
            invariant
                self.wf(),
                self.cap == old(self).cap,
                Self::acked_up_to(self.markers(), idx) == Self::acked_up_to(
                    old(self).markers(),
                    idx,
                ),
            decreases self.buffer.len(),
        {
            proof {
                assert(self.buffer@.drop_first() =~= self.buffer@.subrange(
                    1,
                    self.buffer@.len() as int,
                ));
            }
            self.buffer.remove(0);
        }
        proof {
            assert(Self::acked_up_to(self.markers(), idx) == self.markers());
        }
    }

    /// Frees exactly the oldest marker: one in-flight message is known lost
    /// without implying anything about the later ones.
    pub fn free_first_one(&mut self)
        requires
            old(self).wf(),
            old(self).markers().len() > 0,
        ensures
            final(self).wf(),
            final(self).markers() == old(self).markers().drop_first(),
            final(self).capacity() == old(self).capacity(),
    {
        self.buffer.remove(0);
        proof {
            assert(self.buffer@ =~= old(self).buffer@.drop_first());
        }
    }

    /// Empties the window. Called on every state transition, since in-flight
    /// accounting from a prior mode is no longer meaningful.
    pub fn reset(&mut self)
        ensures
            final(self).wf(),
            final(self).markers() == Seq::<u64>::empty(),
            final(self).capacity() == old(self).capacity(),
    {
        self.buffer.clear();
        proof {
            assert(self.buffer@ =~= Seq::<u64>::empty());
        }
    }
}

impl Clone for Inflights {
    fn clone(&self) -> (r: Inflights)
        ensures
            r.markers() == self.markers(),
            r.capacity() == self.capacity(),
    {
        let buffer = self.buffer.clone();
        proof {
            assert forall|i: int| 0 <= i < self.buffer@.len() implies buffer@[i]
                == self.buffer@[i] by {
                assert(cloned::<u64>(self.buffer@[i], buffer@[i]));
            }
            assert(buffer@ =~= self.buffer@);
        }
        Inflights { buffer, cap: self.cap }
    }
}

/// Per-follower replication state, as seen by the leader.
#[derive(Debug, Default)]
pub struct Progress {
    /// The highest log index known to be replicated to this peer.
    pub matched: u64,
    /// The next log index to send to this peer. Initialized to the leader's
    /// last index plus one.
    pub next_idx: u64,
    /// The delivery mode currently in effect toward this peer.
    pub state: ProgressState,
    /// In Probe mode, whether sending to this peer is suppressed until the
    /// outstanding probe is answered.
    pub paused: bool,
    /// In Snapshot mode, the index of the snapshot in flight.
    pub pending_snapshot: u64,
    /// Whether any message arrived from this peer recently; reset by the
    /// election timer outside this core.
    pub recent_active: bool,
    /// The sliding window bounding unacknowledged messages to this peer.
    pub ins: Inflights,
    /// Whether this peer is a non-voting learner.
    pub is_learner: bool,
}

impl Progress {
    /// Well-formedness: the window is well formed, and the indices tracked
    /// here leave room for the `+ 1` every transition computes.
    pub open spec fn wf(self) -> bool {
        &&& self.ins.wf()
        &&& self.matched < u64::MAX
        &&& self.pending_snapshot < u64::MAX
    }

    /// What `maybe_update(n)` leaves behind: `matched` raised to `n` if that
    /// advances it (which also resumes sending), and `next_idx` raised to at
    /// least `n + 1`.
    pub open spec fn spec_maybe_update(self, n: u64) -> Progress {
        Progress {
            matched: if self.matched < n {
                n
            } else {
                self.matched
            },
            paused: if self.matched < n {
                false
            } else {
                self.paused
            },
            next_idx: if self.next_idx < n + 1 {
                (n + 1) as u64
            } else {
                self.next_idx
            },
            ..self
        }
    }

    /// Whether the driver must hold off sending to this peer: in Probe mode
    /// the explicit pause flag decides, in Replicate mode back-pressure from
    /// the full window, and in Snapshot mode sending is always suspended.
    pub open spec fn spec_is_paused(self) -> bool {
        match self.state {
            ProgressState::Probe => self.paused,
            ProgressState::Replicate => self.ins.spec_full(),
            ProgressState::Snapshot => true,
        }
    }

    /// Common bookkeeping of every mode change: clear the pause flag, forget
    /// any pending snapshot, and reset the flow-control window.
    fn reset_state(&mut self, state: ProgressState)
        requires
            old(self).wf(),
        ensures
            final(self).wf(),
            final(self).state == state,
            final(self).paused == false,
            final(self).pending_snapshot == 0,
            final(self).matched == old(self).matched,
            final(self).next_idx == old(self).next_idx,
            final(self).recent_active == old(self).recent_active,
            final(self).is_learner == old(self).is_learner,
            final(self).ins.markers() == Seq::<u64>::empty(),
            final(self).ins.capacity() == old(self).ins.capacity(),
    {
        self.paused = false;
        self.pending_snapshot = 0;
        self.state = state;
        self.ins.reset();
    }

    /// Enters Probe mode. Coming out of Snapshot the probe resumes just past
    /// whichever of `matched` and the pending snapshot point is higher
    /// (assuming the transfer landed); from any other mode it resumes just
    /// past `matched`.
    pub fn become_probe(&mut self)
        requires
            old(self).wf(),
        ensures
            final(self).wf(),
            final(self).state == ProgressState::Probe,
            final(self).paused == false,
            final(self).pending_snapshot == 0,
            final(self).matched == old(self).matched,
            final(self).recent_active == old(self).recent_active,
            final(self).is_learner == old(self).is_learner,
            final(self).ins.markers() == Seq::<u64>::empty(),
            final(self).ins.capacity() == old(self).ins.capacity(),
            final(self).next_idx == if old(self).state == ProgressState::Snapshot
                && old(self).pending_snapshot > old(self).matched {
                old(self).pending_snapshot + 1
            } else {
                old(self).matched + 1
            },
            final(self).next_idx >= final(self).matched + 1,
    {
        if self.state == ProgressState::Snapshot {
            let pending_snapshot = self.pending_snapshot;
            self.reset_state(ProgressState::Probe);
            self.next_idx = if self.matched + 1 >= pending_snapshot + 1 {
                self.matched + 1
            } else {
                pending_snapshot + 1
            };
        } else {
            self.reset_state(ProgressState::Probe);
            self.next_idx = self.matched + 1;
        }
    }

    /// Enters Replicate mode: the follower is taken to be caught up to
    /// `matched`, and pipelining starts at `matched + 1`.
    pub fn become_replicate(&mut self)
        requires
            old(self).wf(),
        ensures
            final(self).wf(),
            final(self).state == ProgressState::Replicate,
            final(self).paused == false,
            final(self).pending_snapshot == 0,
            final(self).matched == old(self).matched,
            final(self).recent_active == old(self).recent_active,
            final(self).is_learner == old(self).is_learner,
            final(self).ins.markers() == Seq::<u64>::empty(),
            final(self).ins.capacity() == old(self).ins.capacity(),
            final(self).next_idx == old(self).matched + 1,
            final(self).next_idx >= final(self).matched + 1,
    {
        self.reset_state(ProgressState::Replicate);
        self.next_idx = self.matched + 1;
    }

    /// Enters Snapshot mode: a full state transfer up to `snapshot_idx` is
    /// underway, and all sending pauses until it completes or fails.
    pub fn become_snapshot(&mut self, snapshot_idx: u64)
        requires
            old(self).wf(),
            snapshot_idx < u64::MAX,
        ensures
            final(self).wf(),
            final(self).state == ProgressState::Snapshot,
            final(self).paused == false,
            final(self).pending_snapshot == snapshot_idx,
            final(self).matched == old(self).matched,
            final(self).next_idx == old(self).next_idx,
            final(self).recent_active == old(self).recent_active,
            final(self).is_learner == old(self).is_learner,
            final(self).ins.markers() == Seq::<u64>::empty(),
            final(self).ins.capacity() == old(self).ins.capacity(),
            old(self).next_idx >= old(self).matched + 1
                ==> final(self).next_idx >= final(self).matched + 1,
    {
        self.reset_state(ProgressState::Snapshot);
        self.pending_snapshot = snapshot_idx;
    }

    /// Notes that the pending snapshot transfer failed, so the next
    /// `become_probe` must not assume it landed.
    pub fn snapshot_failure(&mut self)
        ensures
            *final(self) == (Progress { pending_snapshot: 0, ..*old(self) }),
    {
        self.pending_snapshot = 0;
    }

    /// True exactly when a snapshot transfer is pending and the follower has
    /// already reached the snapshot point through some other path, so the
    /// transfer is redundant and the driver should abort it.
    pub fn maybe_snapshot_abort(&self) -> (r: bool)
        ensures
            r == (self.state == ProgressState::Snapshot && self.matched >= self.pending_snapshot),
    {
        self.state == ProgressState::Snapshot && self.matched >= self.pending_snapshot
    }

    /// Applies an acknowledgment that the follower holds the log up to `n`.
    /// Advances `matched` monotonically, resumes sending when it advanced,
    /// keeps `next_idx` at least `n + 1`, and reports whether `matched`
    /// moved — the driver recomputes the commit index exactly then.
    pub fn maybe_update(&mut self, n: u64) -> (need_update: bool)
        requires
            old(self).wf(),
            n < u64::MAX,
        ensures
            final(self).wf(),
            *final(self) == old(self).spec_maybe_update(n),
            need_update == (old(self).matched < n),
            final(self).matched >= old(self).matched,
            final(self).next_idx >= old(self).next_idx,
            old(self).next_idx >= old(self).matched + 1
                ==> final(self).next_idx >= final(self).matched + 1,
    {
        let need_update = self.matched < n;
        if need_update {
            self.matched = n;
            self.resume();
        }
        if self.next_idx < n + 1 {
            self.next_idx = n + 1;
        }
        need_update
    }

    /// Advances the send cursor to just past `n` right after sending entries
    /// up to `n`, without waiting for the acknowledgment (pipelining).
    pub fn optimistic_update(&mut self, n: u64)
        requires
            n < u64::MAX,
        ensures
            *final(self) == (Progress { next_idx: (n + 1) as u64, ..*old(self) }),
    {
        self.next_idx = n + 1;
    }

    /// Whether the driver must hold off sending to this peer right now.
    pub fn is_paused(&self) -> (r: bool)
        ensures
            r == self.spec_is_paused(),
    {
        match self.state {
            ProgressState::Probe => self.paused,
            ProgressState::Replicate => self.ins.full(),
            ProgressState::Snapshot => true,
        }
    }

    /// Suppresses Probe-mode sending, e.g. after a rejected append, until an
    /// acknowledgment or an explicit `resume` lifts it.
    pub fn pause(&mut self)
        ensures
            *final(self) == (Progress { paused: true, ..*old(self) }),
    {
        self.paused = true;
    }

    /// Lifts the Probe-mode send suppression.
    pub fn resume(&mut self)
        ensures
            *final(self) == (Progress { paused: false, ..*old(self) }),
    {
        self.paused = false;
    }
}

impl Clone for Progress {
    fn clone(&self) -> (r: Progress)
        ensures
            r.matched == self.matched,
            r.next_idx == self.next_idx,
            r.state == self.state,
            r.paused == self.paused,
            r.pending_snapshot == self.pending_snapshot,
            r.recent_active == self.recent_active,
            r.is_learner == self.is_learner,
            r.ins.markers() == self.ins.markers(),
            r.ins.capacity() == self.ins.capacity(),
    {
        Progress {
            matched: self.matched,
            next_idx: self.next_idx,
            state: self.state,
            paused: self.paused,
            pending_snapshot: self.pending_snapshot,
            recent_active: self.recent_active,
            ins: self.ins.clone(),
            is_learner: self.is_learner,
        }
    }
}

/// The ids of a roster, in roster order.
pub open spec fn pair_ids(s: Seq<(u64, Progress)>) -> Seq<u64> {
    s.map_values(|p: (u64, Progress)| p.0)
}

/// A roster is sorted when its ids strictly increase; this also makes each
/// id appear at most once.
pub open spec fn sorted_pairs(s: Seq<(u64, Progress)>) -> bool {
    forall|i: int, j: int| #![trigger s[i], s[j]] 0 <= i < j < s.len() ==> s[i].0 < s[j].0
}

/// Whether some entry of the roster carries `id`.
pub open spec fn has_id(s: Seq<(u64, Progress)>, id: u64) -> bool {
    exists|i: int| 0 <= i < s.len() && (#[trigger] s[i]).0 == id
}

/// The id-to-progress mapping a roster stands for.
pub open spec fn pair_map(s: Seq<(u64, Progress)>) -> Map<u64, Progress> {
    Map::new(
        |id: u64| has_id(s, id),
        |id: u64| s[choose|i: int| 0 <= i < s.len() && (#[trigger] s[i]).0 == id].1,
    )
}

/// In a sorted roster the entry at `i` is the one its id maps to.
proof fn lemma_pair_map_at(s: Seq<(u64, Progress)>, i: int)
    requires
        sorted_pairs(s),
        0 <= i < s.len(),
    ensures
        has_id(s, s[i].0),
        pair_map(s).dom().contains(s[i].0),
        pair_map(s)[s[i].0] == s[i].1,
{
    let id = s[i].0;
    assert(has_id(s, id));
    let j = choose|j: int| 0 <= j < s.len() && (#[trigger] s[j]).0 == id;
    if i < j {
        assert(s[i].0 < s[j].0);
    } else if j < i {
        assert(s[j].0 < s[i].0);
    }
}

/// When a scan of a sorted roster has passed position `p` without finding
/// `id`, and the entry at `p` (if any) already lies above it, `id` is absent.
proof fn lemma_pair_map_absent(s: Seq<(u64, Progress)>, id: u64, p: int)
    requires
        sorted_pairs(s),
        0 <= p <= s.len(),
        forall|i: int| 0 <= i < p ==> (#[trigger] s[i]).0 < id,
        p < s.len() ==> s[p].0 > id,
    ensures
        !has_id(s, id),
        !pair_map(s).dom().contains(id),
{
    assert forall|i: int| 0 <= i < s.len() implies (#[trigger] s[i]).0 != id by {
        if i > p {
            assert(s[p].0 < s[i].0);
        }
    }
}

/// Inserting `(id, pr)` at the position a scan found keeps the roster
/// sorted and adds exactly `id` to `pr` to the mapping it stands for.
proof fn lemma_pair_map_insert(s: Seq<(u64, Progress)>, k: int, id: u64, pr: Progress)
    requires
        sorted_pairs(s),
        0 <= k <= s.len(),
        forall|i: int| 0 <= i < k ==> (#[trigger] s[i]).0 < id,
        k < s.len() ==> s[k].0 > id,
    ensures
        sorted_pairs(s.insert(k, (id, pr))),
        pair_map(s.insert(k, (id, pr))) =~= pair_map(s).insert(id, pr),
{
    let t = s.insert(k, (id, pr));
    s.insert_ensures(k, (id, pr));
    assert forall|i: int| k < i < s.len() implies (#[trigger] s[i]).0 > id by {
        if k < s.len() {
            assert(s[k].0 < s[i].0);
        }
    }
    assert forall|i: int, j: int| #![trigger t[i], t[j]] 0 <= i < j < t.len() implies t[i].0
        < t[j].0 by {
        if i < k && j < k {
            assert(t[i] == s[i] && t[j] == s[j]);
        } else if i < k && j == k {
            assert(t[i] == s[i]);
        } else if i < k && j > k {
            assert(t[i] == s[i] && t[j] == s[j - 1]);
        } else if i == k && j > k {
            assert(t[j] == s[j - 1]);
        } else if i > k && j > k {
            assert(t[i] == s[i - 1] && t[j] == s[j - 1]);
        }
    }
    assert forall|x: u64| has_id(s, x) implies has_id(t, x) by {
        let i = choose|i: int| 0 <= i < s.len() && (#[trigger] s[i]).0 == x;
        if i < k {
            assert(t[i] == s[i]);
        } else {
            assert(t[i + 1] == s[i]);
        }
    }
    assert forall|x: u64| has_id(t, x) implies has_id(s, x) || x == id by {
        let i = choose|i: int| 0 <= i < t.len() && (#[trigger] t[i]).0 == x;
        if i < k {
            assert(t[i] == s[i]);
        } else if i > k {
            assert(t[i] == s[i - 1]);
        }
    }
    assert(t[k] == (id, pr));
    lemma_pair_map_at(t, k);
    assert forall|x: u64| has_id(s, x) && x != id implies #[trigger] pair_map(t)[x] == pair_map(
        s,
    )[x] by {
        let i = choose|i: int| 0 <= i < s.len() && (#[trigger] s[i]).0 == x;
        lemma_pair_map_at(s, i);
        if i < k {
            assert(t[i] == s[i]);
            lemma_pair_map_at(t, i);
        } else {
            assert(t[i + 1] == s[i]);
            lemma_pair_map_at(t, i + 1);
        }
    }
}

/// Removing the entry at `i` keeps a sorted roster sorted and removes
/// exactly its id from the mapping it stands for.
proof fn lemma_pair_map_remove(s: Seq<(u64, Progress)>, k: int)
    requires
        sorted_pairs(s),
        0 <= k < s.len(),
    ensures
        sorted_pairs(s.remove(k)),
        pair_map(s.remove(k)) =~= pair_map(s).remove(s[k].0),
{
    let id = s[k].0;
    let t = s.remove(k);
    s.remove_ensures(k);
    assert forall|i: int, j: int| #![trigger t[i], t[j]] 0 <= i < j < t.len() implies t[i].0
        < t[j].0 by {
        assert(t[i] == if i < k {
            s[i]
        } else {
            s[i + 1]
        });
        assert(t[j] == if j < k {
            s[j]
        } else {
            s[j + 1]
        });
    }
    assert forall|x: u64| has_id(t, x) implies has_id(s, x) && x != id by {
        let i = choose|i: int| 0 <= i < t.len() && (#[trigger] t[i]).0 == x;
        if i < k {
            assert(t[i] == s[i]);
            if s[i].0 == id {
                assert(s[i].0 < s[k].0);
            }
        } else {
            assert(t[i] == s[i + 1]);
            if s[i + 1].0 == id {
                assert(s[k].0 < s[i + 1].0);
            }
        }
    }
    assert forall|x: u64| has_id(s, x) && x != id implies has_id(t, x) by {
        let i = choose|i: int| 0 <= i < s.len() && (#[trigger] s[i]).0 == x;
        if i < k {
            assert(t[i] == s[i]);
        } else if i > k {
            assert(t[i - 1] == s[i]);
        }
    }
    assert forall|x: u64| has_id(t, x) implies #[trigger] pair_map(t)[x] == pair_map(s)[x] by {
        let i = choose|i: int| 0 <= i < t.len() && (#[trigger] t[i]).0 == x;
        lemma_pair_map_at(t, i);
        if i < k {
            assert(t[i] == s[i]);
            lemma_pair_map_at(s, i);
        } else {
            assert(t[i] == s[i + 1]);
            lemma_pair_map_at(s, i + 1);
        }
    }
}

/// Overwriting the progress at `k` with another for the same id keeps the
/// roster sorted, leaves its id set alone, and re-points exactly that id.
proof fn lemma_pair_map_update(s: Seq<(u64, Progress)>, k: int, pr: Progress)
    requires
        sorted_pairs(s),
        0 <= k < s.len(),
    ensures
        sorted_pairs(s.update(k, (s[k].0, pr))),
        forall|x: u64| has_id(s.update(k, (s[k].0, pr)), x) <==> has_id(s, x),
        pair_map(s.update(k, (s[k].0, pr))) =~= pair_map(s).insert(s[k].0, pr),
{
    let id = s[k].0;
    let t = s.update(k, (id, pr));
    assert forall|x: u64| has_id(t, x) implies has_id(s, x) by {
        let i = choose|i: int| 0 <= i < t.len() && (#[trigger] t[i]).0 == x;
        assert(s[i].0 == x);
    }
    assert forall|x: u64| has_id(s, x) implies has_id(t, x) by {
        let i = choose|i: int| 0 <= i < s.len() && (#[trigger] s[i]).0 == x;
        assert(t[i].0 == x);
    }
    lemma_pair_map_at(t, k);
    assert forall|x: u64| has_id(s, x) && x != id implies #[trigger] pair_map(t)[x] == pair_map(
        s,
    )[x] by {
        let i = choose|i: int| 0 <= i < s.len() && (#[trigger] s[i]).0 == x;
        lemma_pair_map_at(s, i);
        assert(t[i] == s[i]);
        lemma_pair_map_at(t, i);
    }
}

/// `lemma_pair_map_update`, stated for every replacement progress at once:
/// the shape a mutable lookup leaves behind is known only through the
/// reference it hands out, so the facts are needed for an arbitrary value.
proof fn lemma_pair_map_update_all(s: Seq<(u64, Progress)>, k: int)
    requires
        sorted_pairs(s),
        0 <= k < s.len(),
    ensures
        forall|v: Progress| sorted_pairs(#[trigger] s.update(k, (s[k].0, v))),
        forall|v: Progress|
            pair_map(#[trigger] s.update(k, (s[k].0, v))) =~= pair_map(s).insert(s[k].0, v),
        forall|v: Progress, x: u64|
            #![trigger has_id(s.update(k, (s[k].0, v)), x)]
            has_id(s.update(k, (s[k].0, v)), x) <==> has_id(s, x),
{
    assert forall|v: Progress| sorted_pairs(#[trigger] s.update(k, (s[k].0, v))) by {
        lemma_pair_map_update(s, k, v);
    }
    assert forall|v: Progress|
        pair_map(#[trigger] s.update(k, (s[k].0, v))) =~= pair_map(s).insert(s[k].0, v) by {
        lemma_pair_map_update(s, k, v);
    }
    assert forall|v: Progress, x: u64|
        #![trigger has_id(s.update(k, (s[k].0, v)), x)]
        has_id(s.update(k, (s[k].0, v)), x) <==> has_id(s, x) by {
        lemma_pair_map_update(s, k, v);
    }
}

/// The registry of all per-peer replication state, split into voting
/// members and non-voting learners; a peer id lives in at most one side.
pub struct ProgressSet {
    voters: Vec<(u64, Progress)>,
    learners: Vec<(u64, Progress)>,
}

impl ProgressSet {
    /// The voter roster, sorted by id.
    pub closed spec fn voter_pairs(self) -> Seq<(u64, Progress)> {
        self.voters@
    }

    /// The learner roster, sorted by id.
    pub closed spec fn learner_pairs(self) -> Seq<(u64, Progress)> {
        self.learners@
    }

    /// The voters as an id-to-progress mapping.
    pub open spec fn voters_map(self) -> Map<u64, Progress> {
        pair_map(self.voter_pairs())
    }

    /// The learners as an id-to-progress mapping.
    pub open spec fn learners_map(self) -> Map<u64, Progress> {
        pair_map(self.learner_pairs())
    }

    /// Well-formedness: both rosters are sorted by id, and no id is both a
    /// voter and a learner.
    pub open spec fn wf(self) -> bool {
        &&& sorted_pairs(self.voter_pairs())
        &&& sorted_pairs(self.learner_pairs())
        &&& forall|id: u64| #[trigger]
            has_id(self.voter_pairs(), id) ==> !has_id(self.learner_pairs(), id)
    }

    /// The first position whose id is at least `id`, in a sorted roster;
    /// the roster's length when every id lies below it.
    fn position_of(s: &Vec<(u64, Progress)>, id: u64) -> (p: usize)
        requires
            sorted_pairs(s@),
        ensures
            p <= s@.len(),
            forall|i: int| 0 <= i < p ==> (#[trigger] s@[i]).0 < id,
            p < s@.len() ==> s@[p as int].0 >= id,
    {
        let mut p: usize = 0;
        while p < s.len() && s[p].0 < id
            invariant
                p <= s@.len(),
                forall|i: int| 0 <= i < p ==> (#[trigger] s@[i]).0 < id,
            decreases s@.len() - p,
        {
            p = p + 1;
        }
        p
    }

    pub fn new(voter_size: usize, learner_size: usize) -> (r: ProgressSet)
        ensures
            r.wf(),
            r.voters_map() =~= Map::<u64, Progress>::empty(),
            r.learners_map() =~= Map::<u64, Progress>::empty(),
            r.voter_pairs() == Seq::<(u64, Progress)>::empty(),
            r.learner_pairs() == Seq::<(u64, Progress)>::empty(),
    {
        let r = ProgressSet {
            voters: Vec::with_capacity(voter_size),
            learners: Vec::with_capacity(learner_size),
        };
        proof {
            assert(r.voter_pairs() =~= Seq::<(u64, Progress)>::empty());
            assert(r.learner_pairs() =~= Seq::<(u64, Progress)>::empty());
        }
        r
    }

    /// The voter roster, sorted by id.
    pub fn voters(&self) -> (r: &Vec<(u64, Progress)>)
        ensures
            r@ == self.voter_pairs(),
    {
        &self.voters
    }

    /// The learner roster, sorted by id.
    pub fn learners(&self) -> (r: &Vec<(u64, Progress)>)
        ensures
            r@ == self.learner_pairs(),
    {
        &self.learners
    }

    /// The sorted ids of the voters; learners are left out.
    pub fn nodes(&self) -> (r: Vec<u64>)
        requires
            self.wf(),
        ensures
            r@ == pair_ids(self.voter_pairs()),
            forall|i: int, j: int| 0 <= i < j < r@.len() ==> r@[i] < r@[j],
    {
        let mut r: Vec<u64> = Vec::with_capacity(self.voters.len());
        let mut k: usize = 0;
        while k < self.voters.len()
            invariant
                k <= self.voters@.len(),
                r@.len() == k,
                forall|i: int| 0 <= i < k ==> r@[i] == (#[trigger] self.voters@[i]).0,
            decreases self.voters@.len() - k,
        {
            r.push(self.voters[k].0);
            k = k + 1;
        }
        proof {
            assert(r@ =~= pair_ids(self.voter_pairs()));
            assert forall|i: int, j: int| 0 <= i < j < r@.len() implies r@[i] < r@[j] by {
                assert(self.voters@[i].0 < self.voters@[j].0);
            }
        }
        r
    }

    /// The sorted ids of the learners.
    pub fn learner_notes(&self) -> (r: Vec<u64>)
        requires
            self.wf(),
        ensures
            r@ == pair_ids(self.learner_pairs()),
            forall|i: int, j: int| 0 <= i < j < r@.len() ==> r@[i] < r@[j],
    {
        let mut r: Vec<u64> = Vec::with_capacity(self.learners.len());
        let mut k: usize = 0;
        while k < self.learners.len()
            invariant
                k <= self.learners@.len(),
                r@.len() == k,
                forall|i: int| 0 <= i < k ==> r@[i] == (#[trigger] self.learners@[i]).0,
            decreases self.learners@.len() - k,
        {
            r.push(self.learners[k].0);
            k = k + 1;
        }
        proof {
            assert(r@ =~= pair_ids(self.learner_pairs()));
            assert forall|i: int, j: int| 0 <= i < j < r@.len() implies r@[i] < r@[j] by {
                assert(self.learners@[i].0 < self.learners@[j].0);
            }
        }
        r
    }

    /// Looks `id` up across both rosters, voters first.
    pub fn get(&self, id: u64) -> (r: Option<&Progress>)
        requires
            self.wf(),
        ensures
            match r {
                Some(pr) => {
                    &&& (self.voters_map().dom().contains(id) || self.learners_map().dom().contains(
                        id,
                    ))
                    &&& *pr == if self.voters_map().dom().contains(id) {
                        self.voters_map()[id]
                    } else {
                        self.learners_map()[id]
                    }
                },
                None => {
                    &&& !self.voters_map().dom().contains(id)
                    &&& !self.learners_map().dom().contains(id)
                },
            },
    {
        let p = Self::position_of(&self.voters, id);
        if p < self.voters.len() && self.voters[p].0 == id {
            proof {
                lemma_pair_map_at(self.voter_pairs(), p as int);
            }
            return Some(&self.voters[p].1);
        }
        proof {
            lemma_pair_map_absent(self.voter_pairs(), id, p as int);
        }
        let q = Self::position_of(&self.learners, id);
        if q < self.learners.len() && self.learners[q].0 == id {
            proof {
                lemma_pair_map_at(self.learner_pairs(), q as int);
            }
            return Some(&self.learners[q].1);
        }
        proof {
            lemma_pair_map_absent(self.learner_pairs(), id, q as int);
        }
        None
    }

    /// Looks `id` up across both rosters, voters first, for mutation: the
    /// registry afterwards holds, under `id`, whatever the caller leaves
    /// behind the returned reference.
    pub fn get_mut(&mut self, id: u64) -> (r: Option<&mut Progress>)
        requires
            old(self).wf(),
        ensures
            final(self).wf(),
            match r {
                Some(pr) => {
                    &&& (old(self).voters_map().dom().contains(id) || old(
                        self,
                    ).learners_map().dom().contains(id))
                    &&& *pr == if old(self).voters_map().dom().contains(id) {
                        old(self).voters_map()[id]
                    } else {
                        old(self).learners_map()[id]
                    }
                    &&& if old(self).voters_map().dom().contains(id) {
                        &&& final(self).voters_map() =~= old(self).voters_map().insert(
                            id,
                            *final(pr),
                        )
                        &&& final(self).learner_pairs() == old(self).learner_pairs()
                    } else {
                        &&& final(self).learners_map() =~= old(self).learners_map().insert(
                            id,
                            *final(pr),
                        )
                        &&& final(self).voter_pairs() == old(self).voter_pairs()
                    }
                },
                None => {
                    &&& *final(self) == *old(self)
                    &&& !old(self).voters_map().dom().contains(id)
                    &&& !old(self).learners_map().dom().contains(id)
                },
            },
    {
        let p = Self::position_of(&self.voters, id);
        if p < self.voters.len() && self.voters[p].0 == id {
            proof {
                lemma_pair_map_at(self.voter_pairs(), p as int);
                lemma_pair_map_update_all(self.voter_pairs(), p as int);
            }
            let pair = vstd::std_specs::vec::vec_index_mut(&mut self.voters, p);
            return Some(&mut pair.1);
        }
        proof {
            lemma_pair_map_absent(self.voter_pairs(), id, p as int);
        }
        let q = Self::position_of(&self.learners, id);
        if q < self.learners.len() && self.learners[q].0 == id {
            proof {
                lemma_pair_map_at(self.learner_pairs(), q as int);
                lemma_pair_map_update_all(self.learner_pairs(), q as int);
            }
            let pair = vstd::std_specs::vec::vec_index_mut(&mut self.learners, q);
            return Some(&mut pair.1);
        }
        proof {
            lemma_pair_map_absent(self.learner_pairs(), id, q as int);
        }
        None
    }

    /// Registers `id` as a voting member. Fails with `ConfigInvalid`, and
    /// changes nothing, when the id is already a voter or a learner.
    pub fn insert_voter(&mut self, id: u64, pr: Progress) -> (r: Result<(), Error>)
        requires
            old(self).wf(),
        ensures
            final(self).wf(),
            r is Ok <==> (!old(self).voters_map().dom().contains(id) && !old(self).learners_map().dom().contains(id)),
            r is Ok ==> final(self).voters_map() =~= old(self).voters_map().insert(id, pr) && final(self).learner_pairs() == old(self).learner_pairs(),
            r is Err ==> *final(self) == *old(self) && r == Err::<(), Error>(Error::ConfigInvalid),
    {
        let q = Self::position_of(&self.learners, id);
        if q < self.learners.len() && self.learners[q].0 == id {
            proof {
                lemma_pair_map_at(self.learner_pairs(), q as int);
            }
            return Err(Error::ConfigInvalid);
        }
        proof {
            lemma_pair_map_absent(self.learner_pairs(), id, q as int);
        }
        let p = Self::position_of(&self.voters, id);
        if p < self.voters.len() && self.voters[p].0 == id {
            proof {
                lemma_pair_map_at(self.voter_pairs(), p as int);
            }
            return Err(Error::ConfigInvalid);
        }
        proof {
            lemma_pair_map_absent(self.voter_pairs(), id, p as int);
            lemma_pair_map_insert(self.voter_pairs(), p as int, id, pr);
        }
        self.voters.insert(p, (id, pr));
        proof {
            assert forall|x: u64| #[trigger]
                has_id(self.voter_pairs(), x) implies !has_id(self.learner_pairs(), x) by {
                if x != id {
                    assert(pair_map(self.voter_pairs()).dom().contains(x));
                    assert(pair_map(old(self).voter_pairs()).dom().contains(x));
                }
            }
        }
        Ok(())
    }

    /// Registers `id` as a learner. Fails with `ConfigInvalid`, and changes
    /// nothing, when the id is already a voter or a learner.
    pub fn insert_learner(&mut self, id: u64, pr: Progress) -> (r: Result<(), Error>)
        requires
            old(self).wf(),
        ensures
            final(self).wf(),
            r is Ok <==> (!old(self).voters_map().dom().contains(id) && !old(self).learners_map().dom().contains(id)),
            r is Ok ==> final(self).learners_map() =~= old(self).learners_map().insert(id, pr)
                && final(self).voter_pairs() == old(self).voter_pairs(),
            r is Err ==> *final(self) == *old(self) && r == Err::<(), Error>(Error::ConfigInvalid),
    {
        let p = Self::position_of(&self.voters, id);
        if p < self.voters.len() && self.voters[p].0 == id {
            proof {
                lemma_pair_map_at(self.voter_pairs(), p as int);
            }
            return Err(Error::ConfigInvalid);
        }
        proof {
            lemma_pair_map_absent(self.voter_pairs(), id, p as int);
        }
        let q = Self::position_of(&self.learners, id);
        if q < self.learners.len() && self.learners[q].0 == id {
            proof {
                lemma_pair_map_at(self.learner_pairs(), q as int);
            }
            return Err(Error::ConfigInvalid);
        }
        proof {
            lemma_pair_map_absent(self.learner_pairs(), id, q as int);
            lemma_pair_map_insert(self.learner_pairs(), q as int, id, pr);
        }
        self.learners.insert(q, (id, pr));
        proof {
            assert forall|x: u64| #[trigger]
                has_id(self.voter_pairs(), x) implies !has_id(self.learner_pairs(), x) by {
                assert(pair_map(self.learner_pairs()).dom().contains(x) ==> pair_map(
                    old(self).learner_pairs(),
                ).dom().contains(x) || x == id);
            }
        }
        Ok(())
    }

    /// Removes `id` from whichever roster holds it, returning its progress.
    pub fn remove(&mut self, id: u64) -> (r: Option<Progress>)
        requires
            old(self).wf(),
        ensures
            final(self).wf(),
            match r {
                Some(pr) => {
                    &&& (old(self).voters_map().dom().contains(id) || old(self).learners_map().dom().contains(id))
                    &&& if old(self).voters_map().dom().contains(id) {
                        &&& pr == old(self).voters_map()[id]
                        &&& final(self).voters_map() =~= old(self).voters_map().remove(id)
                        &&& final(self).learner_pairs() == old(self).learner_pairs()
                    } else {
                        &&& pr == old(self).learners_map()[id]
                        &&& final(self).learners_map() =~= old(self).learners_map().remove(id)
                        &&& final(self).voter_pairs() == old(self).voter_pairs()
                    }
                },
                None => {
                    &&& *final(self) == *old(self)
                    &&& !old(self).voters_map().dom().contains(id)
                    &&& !old(self).learners_map().dom().contains(id)
                },
            },
    {
        let p = Self::position_of(&self.voters, id);
        if p < self.voters.len() && self.voters[p].0 == id {
            proof {
                lemma_pair_map_at(self.voter_pairs(), p as int);
                lemma_pair_map_remove(self.voter_pairs(), p as int);
            }
            let pair = self.voters.remove(p);
            proof {
                assert forall|x: u64| #[trigger]
                    has_id(self.voter_pairs(), x) implies !has_id(self.learner_pairs(), x) by {
                    assert(pair_map(self.voter_pairs()).dom().contains(x));
                    assert(pair_map(old(self).voter_pairs()).dom().contains(x));
                }
            }
            return Some(pair.1);
        }
        proof {
            lemma_pair_map_absent(self.voter_pairs(), id, p as int);
        }
        let q = Self::position_of(&self.learners, id);
        if q < self.learners.len() && self.learners[q].0 == id {
            proof {
                lemma_pair_map_at(self.learner_pairs(), q as int);
                lemma_pair_map_remove(self.learner_pairs(), q as int);
            }
            let pair = self.learners.remove(q);
            proof {
                assert forall|x: u64| #[trigger]
                    has_id(self.voter_pairs(), x) implies !has_id(self.learner_pairs(), x) by {
                    assert(pair_map(self.learner_pairs()).dom().contains(x) ==> pair_map(
                        old(self).learner_pairs(),
                    ).dom().contains(x));
                }
            }
            return Some(pair.1);
        }
        proof {
            lemma_pair_map_absent(self.learner_pairs(), id, q as int);
        }
        None
    }

    /// Moves a learner to voter status, clearing its learner flag. Fails
    /// with `ConfigInvalid`, and changes nothing, when `id` is not a current
    /// learner.
    pub fn promote_learner(&mut self, id: u64) -> (r: Result<(), Error>)
        requires
            old(self).wf(),
        ensures
            final(self).wf(),
            r is Ok <==> old(self).learners_map().dom().contains(id),
            r is Ok ==> final(self).learners_map() =~= old(self).learners_map().remove(id) && final(self).voters_map() =~= old(self).voters_map().insert(
                id,
                (Progress { is_learner: false, ..old(self).learners_map()[id] }),
            ),
            r is Err ==> *final(self) == *old(self) && r == Err::<(), Error>(Error::ConfigInvalid),
    {
        let q = Self::position_of(&self.learners, id);
        if q < self.learners.len() && self.learners[q].0 == id {
            proof {
                lemma_pair_map_at(self.learner_pairs(), q as int);
                lemma_pair_map_remove(self.learner_pairs(), q as int);
            }
            let mut pair = self.learners.remove(q);
            pair.1.is_learner = false;
            let p = Self::position_of(&self.voters, id);
            proof {
                assert(!has_id(old(self).voter_pairs(), id));
                assert(p < self.voters@.len() ==> self.voters@[p as int].0 != id);
                lemma_pair_map_insert(self.voter_pairs(), p as int, id, pair.1);
            }
            self.voters.insert(p, (id, pair.1));
            proof {
                assert forall|x: u64| #[trigger]
                    has_id(self.voter_pairs(), x) implies !has_id(self.learner_pairs(), x) by {
                    assert(pair_map(self.voter_pairs()).dom().contains(x));
                    if x != id {
                        assert(pair_map(old(self).voter_pairs()).dom().contains(x));
                        assert(pair_map(self.learner_pairs()).dom().contains(x) ==> pair_map(
                            old(self).learner_pairs(),
                        ).dom().contains(x));
                    } else {
                        assert(!pair_map(self.learner_pairs()).dom().contains(x));
                    }
                }
            }
            return Ok(());
        }
        proof {
            lemma_pair_map_absent(self.learner_pairs(), id, q as int);
        }
        Err(Error::ConfigInvalid)
    }

    /// One combined ordered traversal of the registry: every peer id exactly
    /// once, voters first, each roster in ascending id order. The driver
    /// visits a peer through `get` with the ids handed out here.
    pub fn iter(&self) -> (r: Vec<u64>)
        requires
            self.wf(),
        ensures
            r@ == pair_ids(self.voter_pairs()) + pair_ids(self.learner_pairs()),
            forall|i: int, j: int| 0 <= i < j < r@.len() ==> r@[i] != r@[j],
    {
        let mut r = self.nodes();
        let mut more = self.learner_notes();
        let ghost voter_ids = pair_ids(self.voter_pairs());
        let ghost learner_ids = pair_ids(self.learner_pairs());
        r.append(&mut more);
        proof {
            assert forall|i: int, j: int| 0 <= i < j < r@.len() implies r@[i] != r@[j] by {
                let n = voter_ids.len();
                if i < n && j >= n {
                    assert(r@[i] == self.voter_pairs()[i].0);
                    assert(r@[j] == self.learner_pairs()[j - n].0);
                    lemma_pair_map_at(self.voter_pairs(), i);
                    lemma_pair_map_at(self.learner_pairs(), j - n);
                }
            }
        }
        r
    }
}

/// Cumulative acknowledgments absorb replays: once a window's markers are
/// freed up to `n1`, freeing again up to the same or a smaller `n2` changes
/// nothing.
pub proof fn lemma_free_to_replay(s: Seq<u64>, n1: u64, n2: u64)
    requires
        n2 <= n1,
    ensures
        Inflights::acked_up_to(Inflights::acked_up_to(s, n1), n2) == Inflights::acked_up_to(s, n1),
    decreases s.len(),
{
    if s.len() > 0 && s[0] <= n1 {
        lemma_free_to_replay(s.drop_first(), n1, n2);
    }
}

/// Replayed acknowledgments are absorbed: after `maybe_update(n1)`, a second
/// application with the same or a smaller acknowledgment `n2` leaves both
/// `matched` and `next_idx` exactly where the first left them, so neither
/// ever decreases.
pub proof fn lemma_maybe_update_replay(p: Progress, n1: u64, n2: u64)
    requires
        n2 <= n1,
        n1 < u64::MAX,
    ensures
        p.spec_maybe_update(n1).spec_maybe_update(n2).matched == p.spec_maybe_update(n1).matched,
        p.spec_maybe_update(n1).spec_maybe_update(n2).next_idx == p.spec_maybe_update(n1).next_idx,
        p.spec_maybe_update(n1).spec_maybe_update(n2).matched >= p.matched,
        p.spec_maybe_update(n1).spec_maybe_update(n2).next_idx >= p.next_idx,
{
}

} // verus!
