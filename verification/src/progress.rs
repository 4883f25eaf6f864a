//! Per-peer replication bookkeeping on the leader.

use vstd::prelude::*;
use crate::inflights::Inflights;

verus! {

/// How the leader is feeding one peer.
#[derive(Debug, Clone, Copy, PartialEq, Eq, Structural)]
pub enum ProgressState {
    /// One append at a time, waiting for each answer.
    Probe,
    /// Pipelined appends, bounded by the inflight window.
    Replicate,
    /// A snapshot is being shipped; appends wait for its completion.
    Snapshot,
}

/// What the leader knows about one peer's log.
pub struct Progress {
    /// The highest log index known replicated on the peer.
    pub matched: u64,
    /// The next log index to send; always at least 1.
    pub next_idx: u64,
    /// How the peer is being fed.
    pub state: ProgressState,
    /// Whether a probe is waiting for its answer.
    pub paused: bool,
    /// While in `Snapshot` state: the index of the snapshot being shipped.
    pub pending_snapshot: u64,
    /// Whether the peer answered anything since the last quorum check.
    pub recent_active: bool,
    /// The outstanding append batches.
    pub ins: Inflights,
}

impl Progress {
    /// Bounds that every operation preserves: the next index stays positive,
    /// indexes stay below the largest representable one, and the inflight
    /// window is well formed.
    pub open spec fn wf(&self) -> bool {
        &&& self.next_idx >= 1
        &&& self.matched < u64::MAX
        &&& self.pending_snapshot < u64::MAX
        &&& self.ins.wf()
    }

    /// A fresh probe-state record.
    pub fn new(next_idx: u64, ins_size: usize) -> (r: Progress)
        requires
            1 <= next_idx,
        ensures
            r.wf(),
            r == (Progress {
                matched: 0,
                next_idx,
                state: ProgressState::Probe,
                paused: false,
                pending_snapshot: 0,
                recent_active: false,
                ins: r.ins,
            }),
            r.ins.queue@ == Seq::<u64>::empty(),
            r.ins.cap == ins_size,
    {
        Progress {
            matched: 0,
            next_idx,
            state: ProgressState::Probe,
            paused: false,
            pending_snapshot: 0,
            recent_active: false,
            ins: Inflights::new(ins_size),
        }
    }

    /// Forgets everything about the peer but the window size, restarting the
    /// probe at `next_idx`.
    pub fn reset(&mut self, next_idx: u64)
        requires
            1 <= next_idx,
        ensures
            final(self).wf(),
            final(self).matched == 0,
            final(self).next_idx == next_idx,
            final(self).state == ProgressState::Probe,
            !final(self).paused,
            final(self).pending_snapshot == 0,
            !final(self).recent_active,
            final(self).ins.queue@ == Seq::<u64>::empty(),
            final(self).ins.cap == old(self).ins.cap,
    {
        self.matched = 0;
        self.next_idx = next_idx;
        self.state = ProgressState::Probe;
        self.paused = false;
        self.pending_snapshot = 0;
        self.recent_active = false;
        self.ins.reset();
    }

    /// Drops back to probing, resuming just past what is known replicated or,
    /// leaving snapshot state, just past the shipped snapshot.
    pub fn become_probe(&mut self)
        requires
            old(self).wf(),
        ensures
            final(self).wf(),
            final(self).state == ProgressState::Probe,
            final(self).matched == old(self).matched,
            final(self).pending_snapshot == 0,
            !final(self).paused,
            final(self).recent_active == old(self).recent_active,
            final(self).ins.cap == old(self).ins.cap,
            final(self).next_idx == if old(self).state == ProgressState::Snapshot
                && old(self).pending_snapshot + 1 > old(self).matched + 1 {
                old(self).pending_snapshot + 1
            } else {
                old(self).matched + 1
            },
    {
        if self.state == ProgressState::Snapshot {
            let pending = self.pending_snapshot;
            self.reset_probe_state();
            if pending + 1 > self.matched + 1 {
                self.next_idx = pending + 1;
            } else {
                self.next_idx = self.matched + 1;
            }
        } else {
            self.reset_probe_state();
            self.next_idx = self.matched + 1;
        }
    }

    /// Clears the volatile probe bookkeeping.
    fn reset_probe_state(&mut self)
        requires
            old(self).wf(),
        ensures
            final(self).wf(),
            *final(self) == (Progress {
                state: ProgressState::Probe,
                paused: false,
                pending_snapshot: 0,
                ins: final(self).ins,
                ..*old(self)
            }),
            final(self).ins.queue@ == Seq::<u64>::empty(),
            final(self).ins.cap == old(self).ins.cap,
    {
        self.state = ProgressState::Probe;
        self.paused = false;
        self.pending_snapshot = 0;
        self.ins.reset();
    }

    /// Switches to pipelined replication just past what is known replicated.
    pub fn become_replicate(&mut self)
        requires
            old(self).wf(),
        ensures
            final(self).wf(),
            final(self).state == ProgressState::Replicate,
            final(self).matched == old(self).matched,
            final(self).next_idx == old(self).matched + 1,
            final(self).pending_snapshot == 0,
            !final(self).paused,
            final(self).recent_active == old(self).recent_active,
            final(self).ins.cap == old(self).ins.cap,
            final(self).ins.queue@ == Seq::<u64>::empty(),
    {
        self.state = ProgressState::Replicate;
        self.paused = false;
        self.pending_snapshot = 0;
        self.ins.reset();
        self.next_idx = self.matched + 1;
    }

    /// Switches to snapshot state while the snapshot at `snapshot_idx` ships.
    pub fn become_snapshot(&mut self, snapshot_idx: u64)
        requires
            old(self).wf(),
            snapshot_idx < u64::MAX,
        ensures
            final(self).wf(),
            final(self).state == ProgressState::Snapshot,
            final(self).matched == old(self).matched,
            final(self).next_idx == old(self).next_idx,
            final(self).pending_snapshot == snapshot_idx,
            !final(self).paused,
            final(self).recent_active == old(self).recent_active,
            final(self).ins.cap == old(self).ins.cap,
            final(self).ins.queue@ == Seq::<u64>::empty(),
    {
        self.state = ProgressState::Snapshot;
        self.paused = false;
        self.ins.reset();
        self.pending_snapshot = snapshot_idx;
    }

    /// The shipped snapshot failed; forget it.
    pub fn snapshot_failure(&mut self)
        ensures
            *final(self) == (Progress { pending_snapshot: 0, ..*old(self) }),
    {
        self.pending_snapshot = 0;
    }

    /// Whether snapshot state may be abandoned: the peer has caught up with
    /// the shipped snapshot through ordinary appends.
    pub fn maybe_snapshot_abort(&self) -> (r: bool)
        ensures
            r == (self.state == ProgressState::Snapshot && self.matched
                >= self.pending_snapshot),
    {
        self.state == ProgressState::Snapshot && self.matched >= self.pending_snapshot
    }

    /// Learns that the peer holds the log up to `n`.  Returns whether that is
    /// news; fresh news resumes a paused probe.  The next index never moves
    /// backwards.
    pub fn maybe_update(&mut self, n: u64) -> (updated: bool)
        requires
            old(self).wf(),
            n < u64::MAX,
        ensures
            final(self).wf(),
            final(self).matched == if n > old(self).matched {
                n
            } else {
                old(self).matched
            },
            final(self).next_idx == if old(self).next_idx < n + 1 {
                n + 1
            } else {
                old(self).next_idx as int
            },
            final(self).paused == (old(self).paused && !(n > old(self).matched)),
            *final(self) == (Progress {
                matched: final(self).matched,
                next_idx: final(self).next_idx,
                paused: final(self).paused,
                ..*old(self)
            }),
            updated == (n > old(self).matched),
    {
        let need_update = n > self.matched;
        if need_update {
            self.matched = n;
            self.resume();
        }
        if self.next_idx < n + 1 {
            self.next_idx = n + 1;
        }
        need_update
    }

    /// Moves the next index back after a rejected append carrying the
    /// follower's last index as a hint.  Returns whether anything moved.
    pub fn maybe_decr_to(&mut self, rejected: u64, last: u64) -> (r: bool)
        requires
            old(self).wf(),
            last < u64::MAX,
        ensures
            final(self).wf(),
            final(self).matched == old(self).matched,
            final(self).state == old(self).state,
            final(self).ins.queue@ == old(self).ins.queue@,
            final(self).ins.cap == old(self).ins.cap,
            final(self).recent_active == old(self).recent_active,
            final(self).pending_snapshot == old(self).pending_snapshot,
            final(self).paused == old(self).paused || !final(self).paused,
            old(self).state == ProgressState::Replicate ==> {
                &&& r == (rejected > old(self).matched)
                &&& final(self).next_idx == if rejected > old(self).matched {
                    old(self).matched + 1
                } else {
                    old(self).next_idx as int
                }
            },
            old(self).state != ProgressState::Replicate ==> {
                &&& r == (old(self).next_idx == rejected + 1)
                &&& final(self).next_idx == if old(self).next_idx == rejected + 1 {
                    if rejected < last + 1 {
                        if rejected < 1 {
                            1int
                        } else {
                            rejected as int
                        }
                    } else {
                        last + 1
                    }
                } else {
                    old(self).next_idx as int
                }
            },
    {
        if self.state == ProgressState::Replicate {
            if rejected <= self.matched {
                // The rejection is stale: the peer acknowledged further already.
                return false;
            }
            self.next_idx = self.matched + 1;
            return true;
        }

        // In probe state the whole pending append starts at next_idx - 1; a
        // rejection of anything else is stale.
        if self.next_idx == 0 || self.next_idx - 1 != rejected {
            return false;
        }

        self.next_idx = if rejected < last + 1 {
            rejected
        } else {
            last + 1
        };
        if self.next_idx < 1 {
            self.next_idx = 1;
        }
        self.paused = false;
        true
    }

    /// Whether replication to the peer should wait: a probe awaiting its
    /// answer, a full pipeline, or a snapshot in flight.
    pub fn is_paused(&self) -> (r: bool)
        ensures
            r == self.spec_paused(),
    {
        match self.state {
            ProgressState::Probe => self.paused,
            ProgressState::Replicate => self.ins.queue.len() >= self.ins.cap,
            ProgressState::Snapshot => true,
        }
    }

    /// See [`Progress::is_paused`].
    pub open spec fn spec_paused(&self) -> bool {
        match self.state {
            ProgressState::Probe => self.paused,
            ProgressState::Replicate => self.ins.queue@.len() >= self.ins.cap,
            ProgressState::Snapshot => true,
        }
    }

    /// Lets a paused probe send again.
    pub fn resume(&mut self)
        ensures
            *final(self) == (Progress { paused: false, ..*old(self) }),
    {
        self.paused = false;
    }

    /// Holds the probe until its answer arrives.
    pub fn pause(&mut self)
        ensures
            *final(self) == (Progress { paused: true, ..*old(self) }),
    {
        self.paused = true;
    }

    /// Accounts for entries just sent while in probe or replicate state: a
    /// probe pauses, a pipeline advances optimistically and occupies one
    /// window slot.
    pub fn update_state(&mut self, last: u64)
        requires
            old(self).wf(),
            old(self).state != ProgressState::Snapshot,
            old(self).state == ProgressState::Replicate ==> {
                &&& old(self).ins.queue@.len() < old(self).ins.cap
                &&& last < u64::MAX
            },
        ensures
            final(self).wf(),
            final(self).matched == old(self).matched,
            final(self).state == old(self).state,
            final(self).recent_active == old(self).recent_active,
            final(self).ins.cap == old(self).ins.cap,
            old(self).state == ProgressState::Probe ==> *final(self) == (Progress {
                paused: true,
                ..*old(self)
            }),
            old(self).state == ProgressState::Replicate ==> {
                &&& final(self).next_idx == last + 1
                &&& final(self).ins.queue@ == old(self).ins.queue@.push(last)
                &&& final(self).paused == old(self).paused
            },
    {
        match self.state {
            ProgressState::Probe => self.pause(),
            ProgressState::Replicate => {
                self.next_idx = last + 1;
                self.ins.add(last);
            },
            ProgressState::Snapshot => {
                // Excluded by the precondition.
            },
        }
    }

    /// A copy.
    pub fn dup(&self) -> (r: Progress)
        ensures
            r.matched == self.matched,
            r.next_idx == self.next_idx,
            r.state == self.state,
            r.paused == self.paused,
            r.pending_snapshot == self.pending_snapshot,
            r.recent_active == self.recent_active,
            r.ins.queue@ == self.ins.queue@,
            r.ins.cap == self.ins.cap,
    {
        Progress {
            matched: self.matched,
            next_idx: self.next_idx,
            state: self.state,
            paused: self.paused,
            pending_snapshot: self.pending_snapshot,
            recent_active: self.recent_active,
            ins: Inflights { queue: crate::message::copy_ids(&self.ins.queue), cap: self.ins.cap },
        }
    }
}

} // verus!
