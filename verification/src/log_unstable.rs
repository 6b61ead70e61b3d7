use vstd::prelude::*;

use crate::eraftpb::{Entry, Snapshot};

verus! {

/// The in-memory suffix of the log not yet confirmed durable by storage,
/// plus a possibly pending snapshot.
///
/// `entries[i]` holds the log entry at index `offset + i`. `offset` may be
/// smaller than the highest index in storage, which means the next write to
/// storage must truncate the durable log before persisting `entries`.
#[derive(Debug, PartialEq, Default)]
pub struct Unstable {
    /// A just-received snapshot, if any.
    pub snapshot: Option<Snapshot>,
    /// All entries not yet written to storage.
    pub entries: Vec<Entry>,
    /// The log index of `entries[0]`.
    pub offset: u64,
    /// A diagnostic tag naming the raft instance that owns this log tail.
    pub tag: String,
}

impl Unstable {
    /// Well-formedness: the buffered tail is contiguous starting at `offset`,
    /// and a held snapshot lies strictly below the tail.
    pub open spec fn wf(self) -> bool {
        &&& forall|i: int|
            0 <= i < self.entries.len() ==> (#[trigger] self.entries[i].index) == self.offset + i
        &&& self.entries.len() > 0 ==> self.offset + self.entries.len() - 1 <= u64::MAX
        &&& match self.snapshot {
            Some(s) => s.index < self.offset,
            None => true,
        }
    }

    /// The index just above the snapshot, if one is held; without a snapshot
    /// no floor of the unstable range is known.
    pub open spec fn spec_maybe_first_index(self) -> Option<u64> {
        match self.snapshot {
            Some(s) => Some((s.index + 1) as u64),
            None => None,
        }
    }

    /// The highest index this holds any knowledge of: the last buffered
    /// entry, or the snapshot point when no entries are buffered.
    pub open spec fn spec_maybe_last_index(self) -> Option<u64> {
        if self.entries.len() > 0 {
            Some((self.offset + self.entries.len() - 1) as u64)
        } else {
            match self.snapshot {
                Some(s) => Some(s.index),
                None => None,
            }
        }
    }

    /// The term at `idx`, when known: below `offset` only the snapshot point
    /// itself answers; at or above `offset` the buffered entry answers if
    /// `idx` does not run past the tail.
    pub open spec fn spec_maybe_term(self, idx: u64) -> Option<u64> {
        if idx < self.offset {
            match self.snapshot {
                Some(s) => if idx == s.index {
                    Some(s.term)
                } else {
                    None
                },
                None => None,
            }
        } else {
            if idx - self.offset < self.entries.len() {
                Some(self.entries[idx - self.offset].term)
            } else {
                None
            }
        }
    }

    pub fn new(offset: u64, tag: String) -> (u: Unstable)
        ensures
            u.wf(),
            u.snapshot is None,
            u.entries@.len() == 0,
            u.offset == offset,
            u.tag == tag,
    {
        Unstable { snapshot: None, entries: Vec::new(), offset, tag }
    }

    /// Returns `snapshot.index + 1` if a snapshot is held, else `None`.
    pub fn maybe_first_index(&self) -> (r: Option<u64>)
        requires
            self.wf(),
        ensures
            r == self.spec_maybe_first_index(),
    {
        match &self.snapshot {
            Some(snap) => Some(snap.index + 1),
            None => None,
        }
    }

    /// Returns the index of the last buffered entry, else the snapshot
    /// index, else `None`.
    pub fn maybe_last_index(&self) -> (r: Option<u64>)
        requires
            self.wf(),
        ensures
            r == self.spec_maybe_last_index(),
    {
        if self.entries.len() > 0 {
            let last: usize = self.entries.len() - 1;
            Some(self.entries[last].index)
        } else {
            match &self.snapshot {
                Some(snap) => Some(snap.index),
                None => None,
            }
        }
    }

    /// Returns the term of the entry at `idx`, if that index is known here.
    pub fn maybe_term(&self, idx: u64) -> (r: Option<u64>)
        requires
            self.wf(),
        ensures
            r == self.spec_maybe_term(idx),
    {
        if idx < self.offset {
            match &self.snapshot {
                Some(snap) => {
                    if idx == snap.index {
                        Some(snap.term)
                    } else {
                        None
                    }
                },
                None => None,
            }
        } else {
            match self.maybe_last_index() {
                Some(last) => {
                    if idx > last {
                        None
                    } else {
                        let pos: usize = (idx - self.offset) as usize;
                        Some(self.entries[pos].term)
                    }
                },
                None => None,
            }
        }
    }

    /// Merges newly received or proposed entries into the tail. A batch that
    /// starts at or before the current first unstable index replaces the
    /// whole tail; otherwise every buffered entry whose index is at or above
    /// the batch's first index is discarded (last writer wins on overlap) and
    /// the batch is appended, keeping the tail contiguous.
    pub fn truncate_and_append(&mut self, ents: Vec<Entry>)
        requires
            old(self).wf(),
            ents@.len() > 0,
            forall|i: int|
                0 <= i < ents@.len() ==> (#[trigger] ents@[i].index) == ents@[0].index + i,
            ents@[0].index <= old(self).offset + old(self).entries@.len(),
            match old(self).snapshot {
                Some(s) => ents@[0].index > s.index,
                None => true,
            },
        ensures
            final(self).wf(),
            final(self).snapshot == old(self).snapshot,
            final(self).tag == old(self).tag,
            final(self).offset == if ents@[0].index <= old(self).offset {
                ents@[0].index
            } else {
                old(self).offset
            },
            final(self).entries@ =~= old(self).entries@.subrange(
                0,
                if ents@[0].index <= old(self).offset {
                    0
                } else {
                    ents@[0].index - old(self).offset
                },
            ) + ents@,
    {
        let after = ents[0].index;
        proof {
            assert(ents@[ents@.len() - 1].index == ents@[0].index + (ents@.len() - 1));
        }
        if after <= self.offset {
            self.offset = after;
            self.entries = ents;
            assert(self.entries@ =~= old(self).entries@.subrange(0, 0) + ents@);
        } else {
            let keep: usize = (after - self.offset) as usize;
            let mut tail = ents;
            self.entries.truncate(keep);
            self.entries.append(&mut tail);
            assert forall|i: int| 0 <= i < self.entries@.len() implies (
            #[trigger] self.entries@[i].index) == self.offset + i by {
                if i < keep {
                    assert(old(self).entries@[i].index == old(self).offset + i);
                } else {
                    assert(ents@[i - keep].index == ents@[0].index + (i - keep));
                }
            }
        }
    }

    /// Called when storage confirms durability up to `idx` at `term`. If the
    /// buffered term at that index matches, advances `offset` past `idx` and
    /// trims the confirmed entries from the front; a stale confirmation (term
    /// mismatch, or an index below the unstable range) changes nothing.
    pub fn stable_to(&mut self, idx: u64, term: u64)
        requires
            old(self).wf(),
            idx < u64::MAX,
        ensures
            final(self).wf(),
            final(self).snapshot == old(self).snapshot,
            final(self).tag == old(self).tag,
            (idx >= old(self).offset && old(self).spec_maybe_term(idx) == Some(term)) ==> {
                &&& final(self).offset == idx + 1
                &&& final(self).entries@ =~= old(self).entries@.subrange(
                    idx + 1 - old(self).offset,
                    old(self).entries@.len() as int,
                )
            },
            !(idx >= old(self).offset && old(self).spec_maybe_term(idx) == Some(term))
                ==> *final(self) == *old(self),
    {
        let matched_term = self.maybe_term(idx);
        match matched_term {
            Some(t) => {
                if t == term && idx >= self.offset {
                    let start: usize = (idx + 1 - self.offset) as usize;
                    let tail = self.entries.split_off(start);
                    self.entries = tail;
                    self.offset = idx + 1;
                }
            },
            None => {},
        }
    }

    /// Discards all buffered entries, installs the snapshot, and restarts the
    /// tail just above it. Used when a peer has fallen so far behind that only
    /// a bulk state transfer can resynchronize it.
    pub fn restore(&mut self, snap: Snapshot)
        requires
            snap.index < u64::MAX,
        ensures
            final(self).wf(),
            final(self).entries@.len() == 0,
            final(self).offset == snap.index + 1,
            final(self).snapshot == Some(snap),
            final(self).tag == old(self).tag,
    {
        self.entries = Vec::new();
        self.offset = snap.index + 1;
        self.snapshot = Some(snap);
    }
}

/// Outside the snapshot point and the buffered range, `maybe_term` knows
/// nothing: for any index that is neither the snapshot's own index nor within
/// `[offset, offset + entries.len())`, the answer is `None`.
pub proof fn lemma_maybe_term_out_of_bounds(u: Unstable, idx: u64)
    requires
        u.wf(),
        match u.snapshot {
            Some(s) => idx != s.index,
            None => true,
        },
        idx < u.offset || idx >= u.offset + u.entries@.len(),
    ensures
        u.spec_maybe_term(idx) is None,
{
}

} // verus!
