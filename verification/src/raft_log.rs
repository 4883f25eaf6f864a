//! The in-memory replicated log: a compacted prefix summarized by a snapshot
//! point, the live entries after it, and the committed / applied watermarks.

use vstd::prelude::*;
use crate::errors::RaftError;
use crate::message::{Entry, EntryV, Snapshot, ents_view, copy_entries};

verus! {

/// How many entries at the front of `ents` fit in the extra budget left after
/// the first entry.
pub open spec fn fit_more(ents: Seq<EntryV>, budget: int) -> int
    decreases ents.len(),
{
    if ents.len() == 0 || ents[0].data.len() > budget {
        0
    } else {
        1 + fit_more(ents.skip(1), budget - ents[0].data.len())
    }
}

/// How many entries at the front of `ents` a message of byte budget `max` may
/// carry: at least the first, then as many as still fit.
pub open spec fn fit_count(ents: Seq<EntryV>, max: int) -> int {
    if ents.len() == 0 {
        0
    } else {
        1 + fit_more(ents.skip(1), max - ents[0].data.len())
    }
}

/// The number of fitting entries never exceeds what is there.
pub proof fn lemma_fit_more_le(ents: Seq<EntryV>, budget: int)
    ensures
        0 <= fit_more(ents, budget) <= ents.len(),
    decreases ents.len(),
{
    if !(ents.len() == 0 || ents[0].data.len() > budget) {
        lemma_fit_more_le(ents.skip(1), budget - ents[0].data.len());
    }
}

/// The replicated log.
pub struct RaftLog {
    /// The last index covered by the compacted prefix; 0 on a fresh log.
    pub snap_index: u64,
    /// The term of the entry at `snap_index`.
    pub snap_term: u64,
    /// The live entries; entry `k` has index `snap_index + 1 + k`.
    pub entries: Vec<Entry>,
    /// The highest index known committed.
    pub committed: u64,
    /// The highest index the driver has applied.
    pub applied: u64,
    /// A snapshot of this node's own state, staged by the driver for shipping
    /// to lagging peers.
    pub stored_snapshot: Option<Snapshot>,
    /// A snapshot received from the leader, awaiting the driver.
    pub unstable_snapshot: Option<Snapshot>,
}

impl RaftLog {
    /// The log's well-formedness: dense indexes after the snapshot point,
    /// bounded watermarks, and a meaningful staged snapshot.
    pub open spec fn wf(&self) -> bool {
        &&& forall|k: int|
            0 <= k < self.entries@.len() ==> (#[trigger] self.entries@[k]).index == self.snap_index
                + 1 + k
        &&& self.snap_index + self.entries@.len() < u64::MAX
        &&& self.snap_index <= self.applied <= self.committed <= self.spec_last_index()
        &&& match self.stored_snapshot {
            Some(s) => 1 <= s.metadata.index < u64::MAX,
            None => true,
        }
    }

    /// The first index the live log can answer for; everything before it is
    /// compacted away.
    pub open spec fn spec_first_index(&self) -> int {
        self.snap_index + 1
    }

    /// The index of the last entry.
    pub open spec fn spec_last_index(&self) -> int {
        self.snap_index + self.entries@.len()
    }

    /// Whether the log still knows the term of index `i`.
    pub open spec fn spec_has(&self, i: u64) -> bool {
        self.snap_index <= i <= self.spec_last_index()
    }

    /// The term of the entry at `i`; 0 outside the known range.
    pub open spec fn spec_term(&self, i: u64) -> u64 {
        if i == self.snap_index {
            self.snap_term
        } else if self.snap_index < i <= self.spec_last_index() {
            self.entries@[i - self.snap_index - 1].term
        } else {
            0
        }
    }

    /// Whether index `i` carries term `t` in this log.
    pub open spec fn spec_match(&self, i: u64, t: u64) -> bool {
        self.spec_has(i) && self.spec_term(i) == t
    }

    /// The term of the last entry.
    pub open spec fn spec_last_term(&self) -> u64 {
        self.spec_term(self.spec_last_index() as u64)
    }

    /// A fresh log continuing from a compaction point, loaded with `entries`.
    pub fn new(
        snap_index: u64,
        snap_term: u64,
        entries: Vec<Entry>,
        committed: u64,
        applied: u64,
    ) -> (r: RaftLog)
        requires
            forall|k: int|
                0 <= k < entries@.len() ==> (#[trigger] entries@[k]).index == snap_index + 1 + k,
            snap_index + entries@.len() < u64::MAX,
            snap_index <= applied <= committed <= snap_index + entries@.len(),
        ensures
            r.wf(),
            r.snap_index == snap_index,
            r.snap_term == snap_term,
            ents_view(r.entries@) == ents_view(entries@),
            r.committed == committed,
            r.applied == applied,
            r.stored_snapshot is None,
            r.unstable_snapshot is None,
            r.entries@.len() == entries@.len(),
    {
        RaftLog {
            snap_index,
            snap_term,
            entries,
            committed,
            applied,
            stored_snapshot: None,
            unstable_snapshot: None,
        }
    }

    /// The first index the live log can answer for.
    pub fn first_index(&self) -> (r: u64)
        requires
            self.wf(),
        ensures
            r == self.spec_first_index(),
    {
        self.snap_index + 1
    }

    /// The index of the last entry.
    pub fn last_index(&self) -> (r: u64)
        requires
            self.wf(),
        ensures
            r == self.spec_last_index(),
    {
        self.snap_index + self.entries.len() as u64
    }

    /// The term of the last entry.
    pub fn last_term(&self) -> (r: u64)
        requires
            self.wf(),
        ensures
            r == self.spec_last_term(),
    {
        if self.entries.len() == 0 {
            self.snap_term
        } else {
            self.entries[self.entries.len() - 1].term
        }
    }

    /// The term at index `i`, when the log still knows it.
    pub fn term(&self, i: u64) -> (r: Option<u64>)
        requires
            self.wf(),
        ensures
            r == if self.spec_has(i) {
                Some(self.spec_term(i))
            } else {
                None::<u64>
            },
    {
        if i < self.snap_index || i > self.last_index() {
            None
        } else if i == self.snap_index {
            Some(self.snap_term)
        } else {
            proof {
                assert(self.entries.len() == self.entries@.len());
                assert(i - self.snap_index - 1 < self.entries@.len());
            }
            Some(self.entries[(i - self.snap_index - 1) as usize].term)
        }
    }

    /// Whether index `i` carries term `t`.
    pub fn match_term(&self, i: u64, t: u64) -> (r: bool)
        requires
            self.wf(),
        ensures
            r == self.spec_match(i, t),
    {
        match self.term(i) {
            Some(x) => x == t,
            None => false,
        }
    }

    /// Whether a candidate whose log ends at `(idx, term)` is at least as
    /// complete as this one: its last term is newer, or equal with an index
    /// at least as large.
    pub fn is_up_to_date(&self, idx: u64, term: u64) -> (r: bool)
        requires
            self.wf(),
        ensures
            r == (term > self.spec_last_term() || (term == self.spec_last_term() && idx
                >= self.spec_last_index())),
    {
        let lt = self.last_term();
        term > lt || (term == lt && idx >= self.last_index())
    }

    /// Copies the entries `[lo, hi)`, carrying at most `max_size` payload
    /// bytes (but always at least one entry).  Refused when the range is
    /// empty, reaches into the compacted prefix, or past the end.
    pub fn slice(&self, lo: u64, hi: u64, max_size: u64) -> (r: Option<Vec<Entry>>)
        requires
            self.wf(),
        ensures
            match r {
                Some(v) => {
                    &&& self.snap_index < lo
                    &&& lo <= hi
                    &&& hi <= self.spec_last_index() + 1
                    &&& ents_view(v@) == ents_view(self.entries@).subrange(
                        lo - self.snap_index - 1,
                        hi - self.snap_index - 1,
                    ).take(
                        fit_count(
                            ents_view(self.entries@).subrange(
                                lo - self.snap_index - 1,
                                hi - self.snap_index - 1,
                            ),
                            max_size as int,
                        ),
                    )
                },
                None => !(self.snap_index < lo && lo <= hi && hi <= self.spec_last_index() + 1),
            },
    {
        if !(self.snap_index < lo && lo <= hi && hi <= self.last_index() + 1) {
            return None;
        }
        let ghost full = ents_view(self.entries@).subrange(
            lo - self.snap_index - 1,
            hi - self.snap_index - 1,
        );
        let mut v: Vec<Entry> = Vec::new();
        let mut budget: u64 = max_size;
        let mut over: bool = false;
        let mut i: u64 = lo;
        while i < hi && !over
            invariant
                self.wf(),
                self.snap_index < lo <= i <= hi <= self.spec_last_index() + 1,
                full == ents_view(self.entries@).subrange(
                    lo - self.snap_index - 1,
                    hi - self.snap_index - 1,
                ),
                !over && i == lo ==> v@.len() == 0 && budget == max_size,
                !over && i > lo ==> {
                    &&& v@.len() == i - lo
                    &&& ents_view(v@) == full.take(i - lo)
                    &&& (i - lo) + fit_more(full.skip(i - lo), budget as int) == fit_count(
                        full,
                        max_size as int,
                    )
                },
                over ==> ents_view(v@) == full.take(fit_count(full, max_size as int)),
            decreases hi - i,
        {
            let e = &self.entries[(i - self.snap_index - 1) as usize];
            let sz = e.data.len() as u64;
            proof {
                assert(self.entries.len() == self.entries@.len());
                assert(i - self.snap_index - 1 < self.entries@.len());
                assert(ents_view(self.entries@)[i - self.snap_index - 1] == self.entries@[i
                    - self.snap_index - 1]@);
                assert(full[i - lo] == self.entries@[i - self.snap_index - 1]@);
            }
            if i == lo {
                // The first entry always goes out.
                v.push(e.dup());
                proof {
                    assert(ents_view(v@) =~~= full.take(1));
                    assert(full.skip(0) == full);
                }
                if sz > max_size {
                    budget = 0;
                    over = true;
                    proof {
                        assert(fit_count(full, max_size as int) == 1 + fit_more(
                            full.skip(1),
                            max_size - full[0].data.len(),
                        ));
                        assert(fit_more(full.skip(1), max_size - full[0].data.len()) == 0);
                        assert(ents_view(v@) =~~= full.take(fit_count(full, max_size as int)));
                    }
                } else {
                    budget = max_size - sz;
                    proof {
                        assert(fit_count(full, max_size as int) == 1 + fit_more(
                            full.skip(1),
                            max_size - full[0].data.len(),
                        ));
                    }
                }
            } else {
                if sz <= budget {
                    v.push(e.dup());
                    proof {
                        let k = i - lo;
                        assert(full.skip(k)[0] == full[k]);
                        assert(full.skip(k).skip(1) =~= full.skip(k + 1));
                        assert(ents_view(v@) =~~= full.take(k + 1));
                    }
                    budget = budget - sz;
                } else {
                    over = true;
                    proof {
                        let k = i - lo;
                        assert(full.skip(k)[0] == full[k]);
                        assert(fit_more(full.skip(k), budget as int) == 0);
                        assert(ents_view(v@) =~~= full.take(fit_count(full, max_size as int)));
                    }
                }
            }
            i = i + 1;
        }
        proof {
            if !over {
                assert(full.skip(hi - lo).len() == 0);
                assert(fit_more(full.skip(hi - lo), budget as int) == 0);
                assert(ents_view(v@) =~~= full.take(fit_count(full, max_size as int)));
            }
        }
                Some(v)
    }

    /// The entries from `lo` to the end, within the byte budget.
    pub fn entries_from(&self, lo: u64, max_size: u64) -> (r: Option<Vec<Entry>>)
        requires
            self.wf(),
        ensures
            r is Some <==> self.snap_index < lo <= self.spec_last_index() + 1,
            match r {
                Some(v) => ents_view(v@) == ents_view(self.entries@).subrange(
                    lo - self.snap_index - 1,
                    self.entries@.len() as int,
                ).take(
                    fit_count(
                        ents_view(self.entries@).subrange(
                            lo - self.snap_index - 1,
                            self.entries@.len() as int,
                        ),
                        max_size as int,
                    ),
                ),
                None => true,
            },
    {
        let last = self.last_index();
        if lo > last {
            if self.snap_index < lo && lo <= last + 1 {
                return Some(Vec::new());
            }
            return None;
        }
        self.slice(lo, last + 1, max_size)
    }

    /// Appends entries that continue the log exactly at its end, returning
    /// the new last index.
    pub fn append(&mut self, ents: &Vec<Entry>) -> (r: u64)
        requires
            old(self).wf(),
            forall|k: int|
                0 <= k < ents@.len() ==> (#[trigger] ents@[k]).index == old(self).spec_last_index()
                    + 1 + k,
            old(self).spec_last_index() + ents@.len() < u64::MAX,
        ensures
            final(self).wf(),
            r == final(self).spec_last_index(),
            final(self).spec_last_index() == old(self).spec_last_index() + ents@.len(),
            ents_view(final(self).entries@) == ents_view(old(self).entries@) + ents_view(ents@),
            final(self).snap_index == old(self).snap_index,
            final(self).snap_term == old(self).snap_term,
            final(self).committed == old(self).committed,
            final(self).applied == old(self).applied,
            final(self).stored_snapshot == old(self).stored_snapshot,
            final(self).unstable_snapshot == old(self).unstable_snapshot,
    {
        let mut i: usize = 0;
        while i < ents.len()
            invariant
                i <= ents@.len(),
                forall|k: int|
                    0 <= k < ents@.len() ==> (#[trigger] ents@[k]).index == old(
                        self,
                    ).spec_last_index() + 1 + k,
                old(self).spec_last_index() + ents@.len() < u64::MAX,
                old(self).wf(),
                self.snap_index == old(self).snap_index,
                self.snap_term == old(self).snap_term,
                self.committed == old(self).committed,
                self.applied == old(self).applied,
                self.stored_snapshot == old(self).stored_snapshot,
                self.unstable_snapshot == old(self).unstable_snapshot,
                self.entries@.len() == old(self).entries@.len() + i,
                forall|k: int|
                    0 <= k < old(self).entries@.len() ==> (#[trigger] self.entries@[k])@ == old(
                        self,
                    ).entries@[k]@,
                forall|k: int|
                    0 <= k < i ==> self.entries@[old(self).entries@.len() + k]@ == (
                    #[trigger] ents@[k])@,
                forall|k: int|
                    0 <= k < self.entries@.len() ==> (#[trigger] self.entries@[k]).index
                        == self.snap_index + 1 + k,
            decreases ents@.len() - i,
        {
            self.entries.push(ents[i].dup());
            i = i + 1;
        }
        proof {
            assert(ents_view(self.entries@) =~~= ents_view(old(self).entries@) + ents_view(ents@));
        }
        self.last_index()
    }

    /// Advances the commit watermark to `idx`; never moves it backwards.
    pub fn commit_to(&mut self, idx: u64)
        requires
            old(self).wf(),
            idx > old(self).committed ==> idx <= old(self).spec_last_index(),
        ensures
            final(self).wf(),
            final(self).committed == if idx > old(self).committed {
                idx as int
            } else {
                old(self).committed as int
            },
            *final(self) == (RaftLog { committed: final(self).committed, ..*old(self) }),
    {
        if self.committed < idx {
            self.committed = idx;
        }
    }

    /// Records that the driver has applied up to `idx`; 0 is a no-op.
    pub fn applied_to(&mut self, idx: u64)
        requires
            old(self).wf(),
            idx != 0 ==> old(self).applied <= idx <= old(self).committed,
        ensures
            final(self).wf(),
            final(self).applied == if idx == 0 {
                old(self).applied
            } else {
                idx
            },
            *final(self) == (RaftLog { applied: final(self).applied, ..*old(self) }),
    {
        if idx == 0 {
            return ;
        }
        self.applied = idx;
    }

    /// Advances the commit watermark to `max_index` only if that entry exists
    /// and carries `term`, per the current-term commit gate.
    pub fn maybe_commit(&mut self, max_index: u64, term: u64) -> (r: bool)
        requires
            old(self).wf(),
        ensures
            final(self).wf(),
            r == (max_index > old(self).committed && old(self).spec_match(max_index, term)),
            final(self).committed == if r {
                max_index as int
            } else {
                old(self).committed as int
            },
            *final(self) == (RaftLog { committed: final(self).committed, ..*old(self) }),
    {
        if max_index > self.committed && self.match_term(max_index, term) {
            self.commit_to(max_index);
            true
        } else {
            false
        }
    }

    /// The first entry of `ents` that this log does not already hold with the
    /// same term; 0 when every one matches.
    pub open spec fn spec_conflict_from(&self, ents: Seq<EntryV>, k: int) -> u64
        decreases ents.len() - k,
    {
        if k < 0 || k >= ents.len() {
            0
        } else if self.spec_match(ents[k].index, ents[k].term) {
            self.spec_conflict_from(ents, k + 1)
        } else {
            ents[k].index
        }
    }

    /// Finds the first entry of `ents` whose (index, term) is not in the log.
    fn find_conflict(&self, ents: &Vec<Entry>) -> (r: u64)
        requires
            self.wf(),
        ensures
            r == self.spec_conflict_from(ents_view(ents@), 0),
    {
        let mut k: usize = 0;
        while k < ents.len()
            invariant
                self.wf(),
                k <= ents@.len(),
                self.spec_conflict_from(ents_view(ents@), 0) == self.spec_conflict_from(
                    ents_view(ents@),
                    k as int,
                ),
            decreases ents@.len() - k,
        {
            let e = &ents[k];
            if !self.match_term(e.index, e.term) {
                proof {
                    assert(ents_view(ents@)[k as int] == ents@[k as int]@);
                }
                return e.index;
            }
            k = k + 1;
        }
        0
    }

    /// Drops every entry after index `last`.
    fn truncate_to(&mut self, last: u64)
        requires
            old(self).wf(),
            old(self).snap_index <= last,
        ensures
            final(self).entries@.len() == if last < old(self).spec_last_index() {
                last - old(self).snap_index
            } else {
                old(self).entries@.len() as int
            },
            ents_view(final(self).entries@) == ents_view(old(self).entries@).take(
                final(self).entries@.len() as int,
            ),
            *final(self) == (RaftLog { entries: final(self).entries, ..*old(self) }),
    {
        let keep = if last > self.last_index() {
            self.entries.len()
        } else {
            (last - self.snap_index) as usize
        };
        self.entries.truncate(keep);
        proof {
            assert(ents_view(self.entries@) =~~= ents_view(old(self).entries@).take(
                self.entries@.len() as int,
            ));
        }
    }

    /// The standard append rule: when the log matches `(idx, term)`, keep the
    /// agreeing prefix of `ents`, replace everything after the first
    /// disagreement, and advance the commit watermark; otherwise refuse.  A
    /// disagreement below the commit watermark contradicts an already
    /// committed entry; such a batch is refused whole.
    pub fn maybe_append(&mut self, idx: u64, term: u64, committed: u64, ents: &Vec<Entry>) -> (r:
        Option<u64>)
        requires
            old(self).wf(),
            forall|k: int| 0 <= k < ents@.len() ==> (#[trigger] ents@[k]).index == idx + 1 + k,
            idx + ents@.len() < u64::MAX,
        ensures
            final(self).wf(),
            !old(self).spec_match(idx, term) ==> r is None && *final(self) == *old(self),
            old(self).spec_match(idx, term) ==> {
                let c = old(self).spec_conflict_from(ents_view(ents@), 0);
                &&& (c != 0 && c <= old(self).committed) ==> r is None && *final(self) == *old(
                    self,
                )
                &&& (c == 0 || c > old(self).committed) ==> {
                    &&& r == Some((idx + ents@.len()) as u64)
                    &&& final(self).committed == vstd::math::max(
                        old(self).committed as int,
                        vstd::math::min(committed as int, idx + ents@.len()),
                    )
                    &&& c == 0 ==> ents_view(final(self).entries@) == ents_view(
                        old(self).entries@,
                    )
                    &&& c != 0 ==> ents_view(final(self).entries@) == ents_view(
                        old(self).entries@,
                    ).take(c - old(self).snap_index - 1) + ents_view(ents@).skip(c - idx - 1)
                    &&& final(self).spec_last_index() >= idx + ents@.len()
                    &&& final(self).snap_index == old(self).snap_index
                    &&& final(self).snap_term == old(self).snap_term
                    &&& final(self).applied == old(self).applied
                }
            },
    {
        if !self.match_term(idx, term) {
            return None;
        }
        let conflict = self.find_conflict(ents);
        if conflict != 0 && conflict <= self.committed {
            // The leader contradicts an entry this node already committed;
            // refuse the whole batch rather than rewrite history.
            return None;
        }
        let last_new = idx + ents.len() as u64;
        proof {
            if old(self).spec_conflict_from(ents_view(ents@), 0) == 0 {
                lemma_no_conflict_all_match(*self, ents_view(ents@), 0);
                if ents@.len() > 0 {
                    assert(ents_view(ents@)[ents@.len() - 1].index == idx + ents@.len());
                    assert(self.spec_has((idx + ents@.len()) as u64));
                }
            }
        }
        if conflict != 0 {
            proof {
                lemma_conflict_in_range(*self, ents_view(ents@), 0, idx);
            }
            let ghost base = conflict - 1 - old(self).snap_index;
            self.truncate_to(conflict - 1);
            proof {
                assert(self.entries@.len() == base);
                assert forall|j: int| 0 <= j < base implies self.entries@[j]@ == (
                #[trigger] old(self).entries@[j])@ by {
                    assert(ents_view(self.entries@)[j] == ents_view(old(self).entries@).take(
                        base as int,
                    )[j]);
                }
                assert forall|j: int|
                    0 <= j < self.entries@.len() implies (#[trigger] self.entries@[j]).index
                    == self.snap_index + 1 + j by {
                    assert(self.entries@[j]@ == old(self).entries@[j]@);
                    assert(old(self).entries@[j].index == old(self).snap_index + 1 + j);
                }
            }
            let start = (conflict - idx - 1) as usize;
            let mut k: usize = start;
            while k < ents.len()
                invariant
                    start <= k <= ents@.len(),
                    forall|j: int|
                        0 <= j < ents@.len() ==> (#[trigger] ents@[j]).index == idx + 1 + j,
                    idx + ents@.len() < u64::MAX,
                    base == conflict - 1 - old(self).snap_index,
                    start == conflict - idx - 1,
                    0 <= base,
                    idx - old(self).snap_index == base - start,
                    self.entries@.len() == base + (k - start),
                    self.snap_index == old(self).snap_index,
                    self.snap_term == old(self).snap_term,
                    self.committed == old(self).committed,
                    self.applied == old(self).applied,
                    self.stored_snapshot == old(self).stored_snapshot,
                    self.unstable_snapshot == old(self).unstable_snapshot,
                    old(self).wf(),
                    self.snap_index <= self.applied <= self.committed,
                    self.committed <= self.snap_index + self.entries@.len(),
                    forall|j: int|
                        0 <= j < base ==> self.entries@[j]@ == (#[trigger] old(self).entries@[j])@,
                    forall|j: int|
                        start <= j < k ==> self.entries@[base + (j - start)]@ == (
                        #[trigger] ents@[j])@,
                    forall|j: int|
                        0 <= j < self.entries@.len() ==> (#[trigger] self.entries@[j]).index
                            == self.snap_index + 1 + j,
                decreases ents@.len() - k,
            {
                self.entries.push(ents[k].dup());
                k = k + 1;
            }
            proof {
                assert(ents_view(self.entries@) =~~= ents_view(old(self).entries@).take(
                    conflict - old(self).snap_index - 1,
                ) + ents_view(ents@).skip(conflict - idx - 1));
                assert(self.spec_last_index() == idx + ents@.len());
            }
        }
        let commit_new = if committed < last_new {
            committed
        } else {
            last_new
        };
        self.commit_to(commit_new);
        Some(last_new)
    }

    /// Replaces the whole log with what a snapshot covers: the snapshot point
    /// becomes the last index, and both watermarks move there.  The snapshot
    /// is kept for the driver to apply.
    pub fn restore(&mut self, snap: &Snapshot)
        requires
            old(self).wf(),
            snap.metadata.index < u64::MAX,
        ensures
            final(self).wf(),
            final(self).snap_index == snap.metadata.index,
            final(self).snap_term == snap.metadata.term,
            final(self).entries@.len() == 0,
            final(self).committed == snap.metadata.index,
            final(self).applied == snap.metadata.index,
            final(self).spec_last_index() == snap.metadata.index,
            match final(self).unstable_snapshot {
                Some(s) => s@ == snap@,
                None => false,
            },
    {
        self.snap_index = snap.metadata.index;
        self.snap_term = snap.metadata.term;
        self.entries = Vec::new();
        self.committed = snap.metadata.index;
        self.applied = snap.metadata.index;
        self.unstable_snapshot = Some(snap.dup());
    }

    /// Stages `snap` as this node's shippable snapshot.
    pub fn set_stored_snapshot(&mut self, snap: Snapshot)
        requires
            old(self).wf(),
            1 <= snap.metadata.index < u64::MAX,
        ensures
            final(self).wf(),
            match final(self).stored_snapshot {
                Some(s) => s@ == snap@,
                None => false,
            },
            *final(self) == (RaftLog { stored_snapshot: final(self).stored_snapshot, ..*old(self) }),
    {
        self.stored_snapshot = Some(snap);
    }

    /// The staged snapshot for shipping, or `SnapshotTemporarilyUnavailable`
    /// when the driver has not produced one yet.
    pub fn snapshot(&self) -> (r: Result<Snapshot, RaftError>)
        requires
            self.wf(),
        ensures
            match (r, self.stored_snapshot) {
                (Ok(s), Some(t)) => s@ == t@,
                (Err(e), None) => e == RaftError::SnapshotTemporarilyUnavailable,
                _ => false,
            },
    {
        match &self.stored_snapshot {
            Some(s) => Ok(s.dup()),
            None => Err(RaftError::SnapshotTemporarilyUnavailable),
        }
    }

    /// Hands the received snapshot to the driver, clearing the staging slot.
    pub fn take_unstable_snapshot(&mut self) -> (r: Option<Snapshot>)
        requires
            old(self).wf(),
        ensures
            final(self).wf(),
            r == old(self).unstable_snapshot,
            *final(self) == (RaftLog { unstable_snapshot: None, ..*old(self) }),
    {
        let mut r: Option<Snapshot> = None;
        core::mem::swap(&mut r, &mut self.unstable_snapshot);
        r
    }

    /// Forgets the entries up to `idx`, which becomes the new compaction
    /// point; only applied entries may be compacted.
    pub fn compact(&mut self, idx: u64)
        requires
            old(self).wf(),
            old(self).snap_index <= idx <= old(self).applied,
        ensures
            final(self).wf(),
            final(self).snap_index == idx,
            final(self).snap_term == old(self).spec_term(idx),
            final(self).spec_last_index() == old(self).spec_last_index(),
            final(self).committed == old(self).committed,
            final(self).applied == old(self).applied,
            ents_view(final(self).entries@) == ents_view(old(self).entries@).skip(
                idx - old(self).snap_index,
            ),
            forall|i: u64|
                idx <= i <= old(self).spec_last_index() ==> #[trigger] final(self).spec_term(i)
                    == old(self).spec_term(i),
    {
        let term_at = match self.term(idx) {
            Some(t) => t,
            None => 0,
        };
        proof {
            assert(self.entries.len() == self.entries@.len());
        }
        let drop_n = (idx - self.snap_index) as usize;
        let mut kept: Vec<Entry> = Vec::new();
        let mut k: usize = drop_n;
        proof {
            assert(ents_view(kept@) =~~= ents_view(self.entries@).subrange(
                drop_n as int,
                drop_n as int,
            ));
        }
        while k < self.entries.len()
            invariant
                self.wf(),
                *self == *old(self),
                drop_n == idx - self.snap_index,
                drop_n <= k <= self.entries@.len(),
                kept@.len() == k - drop_n,
                ents_view(kept@) == ents_view(self.entries@).subrange(drop_n as int, k as int),
            decreases self.entries@.len() - k,
        {
            kept.push(self.entries[k].dup());
            proof {
                assert(ents_view(kept@) =~~= ents_view(self.entries@).subrange(
                    drop_n as int,
                    k as int + 1,
                ));
            }
            k = k + 1;
        }
        proof {
            assert(ents_view(kept@) =~~= ents_view(self.entries@).skip(drop_n as int));
        }
        let ghost pre = *self;
        self.snap_term = term_at;
        self.snap_index = idx;
        self.entries = kept;
        proof {
            assert forall|k: int|
                0 <= k < self.entries@.len() implies (#[trigger] self.entries@[k]).index
                == self.snap_index + 1 + k by {
                assert(ents_view(self.entries@)[k] == ents_view(pre.entries@).skip(
                    drop_n as int,
                )[k]);
                assert(self.entries@[k]@.index == pre.entries@[drop_n + k]@.index);
                assert(pre.entries@[drop_n + k].index == pre.snap_index + 1 + drop_n + k);
            }
            assert forall|i: u64|
                idx <= i <= pre.spec_last_index() implies #[trigger] self.spec_term(i)
                == pre.spec_term(i) by {
                if i == idx {
                } else {
                    assert(self.entries@[i - idx - 1]@ == ents_view(self.entries@)[i - idx - 1]);
                    assert(ents_view(self.entries@)[i - idx - 1] == ents_view(pre.entries@)[i
                        - pre.snap_index - 1]);
                    assert(pre.entries@[i - pre.snap_index - 1]@ == ents_view(pre.entries@)[i
                        - pre.snap_index - 1]);
                }
            }
        }
    }
}

/// A non-zero conflict index of a matching batch lies within its range and
/// within one step of the log's end.
pub proof fn lemma_conflict_in_range_pub(log: RaftLog, ents: Seq<EntryV>, idx: u64)
    requires
        forall|j: int| 0 <= j < ents.len() ==> (#[trigger] ents[j]).index == idx + 1 + j,
        log.spec_conflict_from(ents, 0) != 0,
        idx <= log.spec_last_index(),
    ensures
        idx + 1 <= log.spec_conflict_from(ents, 0) <= idx + ents.len(),
        log.spec_conflict_from(ents, 0) <= log.spec_last_index() + 1,
{
    lemma_conflict_in_range(log, ents, 0, idx);
}

/// A zero conflict answer means every entry of the batch already matches.
proof fn lemma_no_conflict_all_match(log: RaftLog, ents: Seq<EntryV>, k: int)
    requires
        0 <= k <= ents.len(),
        log.spec_conflict_from(ents, k) == 0,
        forall|j: int| 0 <= j < ents.len() ==> (#[trigger] ents[j]).index >= 1,
    ensures
        forall|j: int|
            k <= j < ents.len() ==> log.spec_match((#[trigger] ents[j]).index, ents[j].term),
    decreases ents.len() - k,
{
    if k < ents.len() {
        if log.spec_match(ents[k].index, ents[k].term) {
            lemma_no_conflict_all_match(log, ents, k + 1);
        }
    }
}

/// A non-zero conflict index lies within the batch's index range and within
/// one step of the log's end.
proof fn lemma_conflict_in_range(log: RaftLog, ents: Seq<EntryV>, k: int, idx: u64)
    requires
        0 <= k <= ents.len(),
        forall|j: int| 0 <= j < ents.len() ==> (#[trigger] ents[j]).index == idx + 1 + j,
        log.spec_conflict_from(ents, k) != 0,
        idx + k <= log.spec_last_index(),
    ensures
        idx + 1 + k <= log.spec_conflict_from(ents, k) <= idx + ents.len(),
        log.spec_conflict_from(ents, k) <= log.spec_last_index() + 1,
        !log.spec_match(
            log.spec_conflict_from(ents, k),
            ents[log.spec_conflict_from(ents, k) - idx - 1].term,
        ),
    decreases ents.len() - k,
{
    if k < ents.len() {
        if log.spec_match(ents[k].index, ents[k].term) {
            assert(ents[k].index <= log.spec_last_index());
            lemma_conflict_in_range(log, ents, k + 1, idx);
        }
    }
}

} // verus!
