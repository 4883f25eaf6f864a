//! The leader's table of per-peer progress, the active configurations, and
//! the quorum arithmetic over them.  While a joint membership change is in
//! flight there are two configurations, and every quorum predicate must hold
//! in both.

use vstd::prelude::*;
use crate::errors::RaftError;
use crate::idset::{IdSet, count_where, lemma_count_le_len, lemma_count_agree, lemma_count_take_succ, lemma_count_pos_witness, lemma_count_all, lemma_min_at_least};
use crate::progress::{Progress, ProgressState};
use crate::bridge::{VoteBook, votes_of, vote_of, AckSet, acks_of, ack_contains};

verus! {

/// A membership configuration: who votes and who only replicates.
pub struct Configuration {
    /// The voting members.
    pub voters: IdSet,
    /// The non-voting members.
    pub learners: IdSet,
}

impl Configuration {
    /// Both id sets are duplicate free.
    pub open spec fn wf(&self) -> bool {
        self.voters.wf() && self.learners.wf()
    }

    /// What `valid` checks: somebody votes, and nobody both votes and learns.
    pub open spec fn spec_valid(&self) -> bool {
        &&& self.voters.items@.len() > 0
        &&& forall|x: u64| !(self.voters.has(x) && #[trigger] self.learners.has(x))
    }

    /// Whether `id` is a member in either role.
    pub open spec fn spec_contains(&self, id: u64) -> bool {
        self.voters.has(id) || self.learners.has(id)
    }

    /// Whether the configuration a `ConfState` describes can be campaigned
    /// in: its voter list is non-empty and, deduplicated, disjoint from its
    /// learner list.
    pub open spec fn new_valid_spec(cs: Option<crate::message::ConfState>) -> bool {
        match cs {
            Some(cs) => cs.nodes@.len() > 0 && forall|x: u64|
                !(cs.nodes@.contains(x) && #[trigger] cs.learners@.contains(x)),
            None => true,
        }
    }

    /// Builds a configuration from plain id lists, dropping duplicates.
    pub fn new(voters: &Vec<u64>, learners: &Vec<u64>) -> (r: Configuration)
        ensures
            r.wf(),
            forall|x: u64| #[trigger] r.voters.has(x) == voters@.contains(x),
            forall|x: u64| #[trigger] r.learners.has(x) == learners@.contains(x),
    {
        Configuration { voters: IdSet::from_ids(voters), learners: IdSet::from_ids(learners) }
    }

    /// Checks that the configuration can be campaigned in: the voter set is
    /// non-empty and disjoint from the learner set.
    pub fn valid(&self) -> (r: Result<(), RaftError>)
        requires
            self.wf(),
        ensures
            r is Ok <==> self.spec_valid(),
    {
        if self.voters.is_empty() {
            return Err(RaftError::ViolatesContract);
        }
        let mut i: usize = 0;
        while i < self.voters.items.len()
            invariant
                self.wf(),
                i <= self.voters.items@.len(),
                forall|j: int|
                    0 <= j < i ==> !self.learners.has(#[trigger] self.voters.items@[j]),
            decreases self.voters.items@.len() - i,
        {
            if self.learners.contains(self.voters.items[i]) {
                return Err(RaftError::ViolatesContract);
            }
            i = i + 1;
        }
        proof {
            assert forall|x: u64| !(self.voters.has(x) && self.learners.has(x)) by {
                if self.voters.has(x) {
                    let j = choose|j: int|
                        0 <= j < self.voters.items@.len() && self.voters.items@[j] == x;
                    assert(!self.learners.has(self.voters.items@[j]));
                }
            }
        }
        Ok(())
    }

    /// Membership test over both roles.
    pub fn contains(&self, id: u64) -> (r: bool)
        ensures
            r == self.spec_contains(id),
    {
        self.voters.contains(id) || self.learners.contains(id)
    }

    /// A copy.
    pub fn dup(&self) -> (r: Configuration)
        ensures
            r.voters.items@ == self.voters.items@,
            r.learners.items@ == self.learners.items@,
    {
        Configuration { voters: self.voters.dup(), learners: self.learners.dup() }
    }
}

/// Where a campaign stands against the active configurations.
#[derive(Debug, Clone, Copy, PartialEq, Eq, Structural)]
pub enum CandidacyStatus {
    /// A quorum granted in every active configuration.
    Elected,
    /// A quorum rejected in some active configuration: the campaign is lost.
    Ineligible,
    /// Still undecided.
    Eligible,
}

/// The size a group of `n` voters needs to decide: a strict majority.
pub open spec fn majority(n: nat) -> nat {
    n / 2 + 1
}

/// Whether `id` granted its vote in `votes`.
pub open spec fn vote_granted(votes: Map<u64, bool>, id: u64) -> bool {
    votes.contains_key(id) && votes[id]
}

/// Whether `id` denied its vote in `votes`.
pub open spec fn vote_rejected(votes: Map<u64, bool>, id: u64) -> bool {
    votes.contains_key(id) && !votes[id]
}

/// How many voters of `cfg` granted.
pub open spec fn granted_in(cfg: Configuration, votes: Map<u64, bool>) -> nat {
    count_where(cfg.voters.items@, |v: u64| vote_granted(votes, v))
}

/// How many voters of `cfg` denied.
pub open spec fn rejected_in(cfg: Configuration, votes: Map<u64, bool>) -> nat {
    count_where(cfg.voters.items@, |v: u64| vote_rejected(votes, v))
}

/// The campaign carried this configuration.
pub open spec fn cfg_elected(cfg: Configuration, votes: Map<u64, bool>) -> bool {
    granted_in(cfg, votes) >= majority(cfg.voters.items@.len() as nat)
}

/// The campaign is lost in this configuration.
pub open spec fn cfg_lost(cfg: Configuration, votes: Map<u64, bool>) -> bool {
    rejected_in(cfg, votes) >= majority(cfg.voters.items@.len() as nat)
}

/// Two progress records that agree on every field.
pub open spec fn pr_like(a: Progress, b: Progress) -> bool {
    &&& a.matched == b.matched
    &&& a.next_idx == b.next_idx
    &&& a.state == b.state
    &&& a.paused == b.paused
    &&& a.pending_snapshot == b.pending_snapshot
    &&& a.recent_active == b.recent_active
    &&& a.ins.queue@ == b.ins.queue@
    &&& a.ins.cap == b.ins.cap
}

/// The per-peer progress table plus the one or two active configurations.
pub struct ProgressSet {
    /// The tracked peer ids; parallel to `prs`, duplicate free.
    pub ids: Vec<u64>,
    /// The progress records, one per id in `ids`.
    pub prs: Vec<Progress>,
    /// The current configuration.
    pub conf: Configuration,
    /// The target configuration while a joint change is in flight.
    pub next_conf: Option<Configuration>,
}

impl ProgressSet {
    /// The representation invariant: parallel duplicate-free table, well
    /// formed progress records and configurations.
    pub open spec fn wf(&self) -> bool {
        &&& self.ids@.no_duplicates()
        &&& self.prs@.len() == self.ids@.len()
        &&& forall|k: int| 0 <= k < self.prs@.len() ==> (#[trigger] self.prs@[k]).wf()
        &&& self.conf.wf()
        &&& match self.next_conf {
            Some(c) => c.wf(),
            None => true,
        }
    }

    /// Whether a joint membership change is in flight.
    pub open spec fn spec_in_joint(&self) -> bool {
        self.next_conf is Some
    }

    /// Whether `id` has a progress record.
    pub open spec fn has_id(&self, id: u64) -> bool {
        self.ids@.contains(id)
    }

    /// The position of `id` in the table.
    pub open spec fn index_of_id(&self, id: u64) -> int {
        choose|k: int| 0 <= k < self.ids@.len() && self.ids@[k] == id
    }

    /// The progress record of `id`; meaningful only when `has_id(id)`.
    pub open spec fn pr_of(&self, id: u64) -> Progress {
        self.prs@[self.index_of_id(id)]
    }

    /// The highest index known replicated on `id`; 0 for untracked peers.
    pub open spec fn matched_of(&self, id: u64) -> u64 {
        if self.has_id(id) {
            self.pr_of(id).matched
        } else {
            0
        }
    }

    /// An empty table with an empty configuration.
    pub fn new() -> (r: ProgressSet)
        ensures
            r.wf(),
            r.ids@ == Seq::<u64>::empty(),
            r.conf.voters.items@ == Seq::<u64>::empty(),
            r.conf.learners.items@ == Seq::<u64>::empty(),
            r.next_conf is None,
    {
        ProgressSet {
            ids: Vec::new(),
            prs: Vec::new(),
            conf: Configuration { voters: IdSet::new(), learners: IdSet::new() },
            next_conf: None,
        }
    }

    /// Looks `id` up in the table.
    pub fn find(&self, id: u64) -> (r: Option<usize>)
        requires
            self.wf(),
        ensures
            match r {
                Some(i) => i < self.ids@.len() && self.ids@[i as int] == id && i
                    == self.index_of_id(id) && self.has_id(id),
                None => !self.has_id(id),
            },
    {
        let mut i: usize = 0;
        while i < self.ids.len()
            invariant
                self.wf(),
                i <= self.ids@.len(),
                forall|j: int| 0 <= j < i ==> self.ids@[j] != id,
            decreases self.ids@.len() - i,
        {
            if self.ids[i] == id {
                proof {
                    let k = self.index_of_id(id);
                    assert(self.ids@[i as int] == id);
                    assert(0 <= k < self.ids@.len() && self.ids@[k] == id);
                }
                return Some(i);
            }
            i = i + 1;
        }
        None
    }

    /// A shared borrow of the record at position `i`.
    pub fn pr_at(&self, i: usize) -> (p: &Progress)
        requires
            i < self.prs@.len(),
        ensures
            *p == self.prs@[i as int],
    {
        &self.prs[i]
    }

    /// A mutable borrow of the record at position `i`; the configurations and
    /// the id table are untouched.
    pub fn pr_at_mut(&mut self, i: usize) -> (p: &mut Progress)
        requires
            i < old(self).prs@.len(),
        ensures
            *p == old(self).prs@[i as int],
            final(self).prs@ == old(self).prs@.update(i as int, *final(p)),
            final(self).ids@ == old(self).ids@,
            final(self).conf == old(self).conf,
            final(self).next_conf == old(self).next_conf,
    {
        &mut self.prs[i]
    }

    /// Adds a record for `id`, in no configuration yet.
    fn push_pr(&mut self, id: u64, pr: Progress)
        requires
            old(self).wf(),
            !old(self).has_id(id),
            pr.wf(),
        ensures
            final(self).wf(),
            final(self).ids@ == old(self).ids@.push(id),
            final(self).prs@ == old(self).prs@.push(pr),
            final(self).conf == old(self).conf,
            final(self).next_conf == old(self).next_conf,
            forall|x: u64| #[trigger] final(self).has_id(x) == (old(self).has_id(x) || x == id),
            final(self).has_id(id),
            final(self).pr_of(id) == pr,
            forall|x: u64|
                old(self).has_id(x) ==> #[trigger] final(self).pr_of(x) == old(self).pr_of(x),
    {
        self.ids.push(id);
        self.prs.push(pr);
        proof {
            let pre = old(self).ids@;
            let post = self.ids@;
            assert forall|x: u64| post.contains(x) == (pre.contains(x) || x == id) by {
                if post.contains(x) {
                    let j = choose|j: int| 0 <= j < post.len() && post[j] == x;
                    if j < pre.len() {
                        assert(pre[j] == x);
                    }
                }
                if pre.contains(x) {
                    let j = choose|j: int| 0 <= j < pre.len() && pre[j] == x;
                    assert(post[j] == x);
                }
                assert(post[pre.len() as int] == id);
            }
            assert(post.no_duplicates());
            let k = self.index_of_id(id);
            assert(post[pre.len() as int] == id);
            assert(post[k] == id && 0 <= k < post.len());
            assert(k == pre.len() as int);
            assert(self.pr_of(id) == pr);
            assert forall|x: u64| pre.contains(x) implies #[trigger] self.pr_of(x) == old(
                self,
            ).pr_of(x) by {
                let j = old(self).index_of_id(x);
                assert(0 <= j < pre.len() && pre[j] == x);
                assert(post[j] == x);
                let k2 = self.index_of_id(x);
                assert(post[k2] == x);
                assert(k2 == j);
            }
        }
    }

    /// Whether a joint membership change is in flight.
    pub fn is_in_membership_change(&self) -> (r: bool)
        ensures
            r == self.spec_in_joint(),
    {
        match &self.next_conf {
            Some(_) => true,
            None => false,
        }
    }

    /// The campaign carried every active configuration.
    pub open spec fn spec_elected(&self, votes: Map<u64, bool>) -> bool {
        cfg_elected(self.conf, votes) && match self.next_conf {
            Some(c) => cfg_elected(c, votes),
            None => true,
        }
    }

    /// The campaign is lost in some active configuration.
    pub open spec fn spec_lost(&self, votes: Map<u64, bool>) -> bool {
        cfg_lost(self.conf, votes) || match self.next_conf {
            Some(c) => cfg_lost(c, votes),
            None => false,
        }
    }

    /// Counts the voters in `vs` whose recorded vote matches `want`.
    fn count_votes(&self, vs: &Vec<u64>, votes: &VoteBook, want: bool) -> (r: usize)
        ensures
            want ==> r == count_where(vs@, |v: u64| vote_granted(votes_of(*votes), v)),
            !want ==> r == count_where(vs@, |v: u64| vote_rejected(votes_of(*votes), v)),
    {
        let ghost f = if want {
            |v: u64| vote_granted(votes_of(*votes), v)
        } else {
            |v: u64| vote_rejected(votes_of(*votes), v)
        };
        let mut n: usize = 0;
        let mut i: usize = 0;
        while i < vs.len()
            invariant
                i <= vs@.len(),
                n <= i,
                n == count_where(vs@.take(i as int), f),
                f == if want {
                    |v: u64| vote_granted(votes_of(*votes), v)
                } else {
                    |v: u64| vote_rejected(votes_of(*votes), v)
                },
            decreases vs@.len() - i,
        {
            proof {
                lemma_count_take_succ(vs@, f, i as int);
            }
            match vote_of(votes, vs[i]) {
                Some(b) => {
                    if b == want {
                        n = n + 1;
                    }
                },
                None => {},
            }
            i = i + 1;
        }
        proof {
            assert(vs@.take(vs@.len() as int) =~= vs@);
        }
        n
    }

    /// Tallies the recorded votes against every active configuration:
    /// `Elected` when a quorum granted everywhere, `Ineligible` when a quorum
    /// denied somewhere, `Eligible` while still undecided.
    pub fn candidacy_status(&self, votes: &VoteBook) -> (r: CandidacyStatus)
        requires
            self.wf(),
        ensures
            r == CandidacyStatus::Elected <==> self.spec_elected(votes_of(*votes)),
            r == CandidacyStatus::Ineligible <==> (!self.spec_elected(votes_of(*votes))
                && self.spec_lost(votes_of(*votes))),
            r == CandidacyStatus::Eligible <==> (!self.spec_elected(votes_of(*votes))
                && !self.spec_lost(votes_of(*votes))),
    {
        let g0 = self.count_votes(&self.conf.voters.items, votes, true);
        let r0 = self.count_votes(&self.conf.voters.items, votes, false);
        let n0 = self.conf.voters.items.len();
        let mut elected = g0 >= n0 / 2 + 1;
        let mut lost = r0 >= n0 / 2 + 1;
        match &self.next_conf {
            Some(c) => {
                let g1 = self.count_votes(&c.voters.items, votes, true);
                let r1 = self.count_votes(&c.voters.items, votes, false);
                let n1 = c.voters.items.len();
                elected = elected && g1 >= n1 / 2 + 1;
                lost = lost || r1 >= n1 / 2 + 1;
                proof {
                    lemma_count_le_len(c.voters.items@, |v: u64| vote_granted(votes_of(*votes), v));
                }
            },
            None => {},
        }
        proof {
            lemma_count_le_len(
                self.conf.voters.items@,
                |v: u64| vote_granted(votes_of(*votes), v),
            );
        }
        if elected {
            CandidacyStatus::Elected
        } else if lost {
            CandidacyStatus::Ineligible
        } else {
            CandidacyStatus::Eligible
        }
    }

    /// A quorum of every active configuration acknowledged.
    pub open spec fn spec_has_quorum(&self, acks: Set<u64>) -> bool {
        &&& count_where(self.conf.voters.items@, |v: u64| acks.contains(v)) >= majority(
            self.conf.voters.items@.len() as nat,
        )
        &&& match self.next_conf {
            Some(c) => count_where(c.voters.items@, |v: u64| acks.contains(v)) >= majority(
                c.voters.items@.len() as nat,
            ),
            None => true,
        }
    }

    /// Counts the ids in `vs` that are members of `acks`.
    fn count_acked(&self, vs: &Vec<u64>, acks: &AckSet) -> (r: usize)
        ensures
            r == count_where(vs@, |v: u64| acks_of(*acks).contains(v)),
    {
        let ghost f = |v: u64| acks_of(*acks).contains(v);
        let mut n: usize = 0;
        let mut i: usize = 0;
        while i < vs.len()
            invariant
                i <= vs@.len(),
                n <= i,
                n == count_where(vs@.take(i as int), f),
                f == |v: u64| acks_of(*acks).contains(v),
            decreases vs@.len() - i,
        {
            proof {
                lemma_count_take_succ(vs@, f, i as int);
            }
            if ack_contains(acks, vs[i]) {
                n = n + 1;
            }
            i = i + 1;
        }
        proof {
            assert(vs@.take(vs@.len() as int) =~= vs@);
        }
        n
    }

    /// Whether the acknowledging ids form a quorum in every active
    /// configuration.
    pub fn has_quorum(&self, acks: &AckSet) -> (r: bool)
        requires
            self.wf(),
        ensures
            r == self.spec_has_quorum(acks_of(*acks)),
    {
        let a0 = self.count_acked(&self.conf.voters.items, acks);
        let mut ok = a0 >= self.conf.voters.items.len() / 2 + 1;
        match &self.next_conf {
            Some(c) => {
                let a1 = self.count_acked(&c.voters.items, acks);
                ok = ok && a1 >= c.voters.items.len() / 2 + 1;
            },
            None => {},
        }
        ok
    }

    /// A quorum of `cfg` has `matched` at least `idx`.
    pub open spec fn cfg_commit_ge(&self, cfg: Configuration, idx: u64) -> bool {
        count_where(cfg.voters.items@, |v: u64| self.matched_of(v) >= idx) >= majority(
            cfg.voters.items@.len() as nat,
        )
    }

    /// The entry at `idx` is replicated on a quorum of every active
    /// configuration.
    pub open spec fn spec_commit_ge(&self, idx: u64) -> bool {
        &&& self.cfg_commit_ge(self.conf, idx)
        &&& match self.next_conf {
            Some(c) => self.cfg_commit_ge(c, idx),
            None => true,
        }
    }

    /// Counts the ids in `vs` whose `matched` reaches `idx`.
    fn count_matched_ge(&self, vs: &Vec<u64>, idx: u64) -> (r: usize)
        requires
            self.wf(),
        ensures
            r == count_where(vs@, |v: u64| self.matched_of(v) >= idx),
    {
        let ghost f = |v: u64| self.matched_of(v) >= idx;
        let mut n: usize = 0;
        let mut i: usize = 0;
        while i < vs.len()
            invariant
                self.wf(),
                i <= vs@.len(),
                n <= i,
                n == count_where(vs@.take(i as int), f),
                f == |v: u64| self.matched_of(v) >= idx,
            decreases vs@.len() - i,
        {
            proof {
                lemma_count_take_succ(vs@, f, i as int);
            }
            let m = match self.find(vs[i]) {
                Some(k) => self.prs[k].matched,
                None => 0,
            };
            if m >= idx {
                n = n + 1;
            }
            i = i + 1;
        }
        proof {
            assert(vs@.take(vs@.len() as int) =~= vs@);
        }
        n
    }

    /// Whether the entry at `idx` is on a quorum everywhere.
    fn commit_ge(&self, idx: u64) -> (r: bool)
        requires
            self.wf(),
        ensures
            r == self.spec_commit_ge(idx),
    {
        let a0 = self.count_matched_ge(&self.conf.voters.items, idx);
        let mut ok = a0 >= self.conf.voters.items.len() / 2 + 1;
        match &self.next_conf {
            Some(c) => {
                let a1 = self.count_matched_ge(&c.voters.items, idx);
                ok = ok && a1 >= c.voters.items.len() / 2 + 1;
            },
            None => {},
        }
        ok
    }

    /// The commit point of the table: the unique largest index replicated on
    /// a quorum of every active configuration.
    pub open spec fn spec_mci(&self) -> u64 {
        choose|r: u64|
            self.spec_commit_ge(r) && (forall|m: u64| m > r ==> !self.spec_commit_ge(m))
    }

    /// The voters of every active configuration, concatenated.
    pub open spec fn spec_all_voters(&self) -> Seq<u64> {
        self.conf.voters.items@ + match self.next_conf {
            Some(c) => c.voters.items@,
            None => Seq::<u64>::empty(),
        }
    }

    /// The largest index replicated on a quorum of every active
    /// configuration.  No index above the result is on such a quorum.
    pub fn maximal_committed_index(&self) -> (r: u64)
        requires
            self.wf(),
            self.conf.voters.items@.len() > 0,
            match self.next_conf {
                Some(c) => c.voters.items@.len() > 0,
                None => true,
            },
        ensures
            self.spec_commit_ge(r),
            forall|m: u64| m > r ==> !self.spec_commit_ge(m),
            r == self.spec_mci(),
    {
        // Gather every voter of every active configuration.
        let mut all: Vec<u64> = crate::message::copy_ids(&self.conf.voters.items);
        match &self.next_conf {
            Some(c) => {
                let mut i: usize = 0;
                while i < c.voters.items.len()
                    invariant
                        i <= c.voters.items@.len(),
                        all@ == self.conf.voters.items@ + c.voters.items@.take(i as int),
                        self.next_conf == Some(*c),
                    decreases c.voters.items@.len() - i,
                {
                    all.push(c.voters.items[i]);
                    proof {
                        assert(all@ =~= self.conf.voters.items@ + c.voters.items@.take(
                            i as int + 1,
                        ));
                    }
                    i = i + 1;
                }
                proof {
                    assert(c.voters.items@.take(c.voters.items@.len() as int) =~= c.voters.items@);
                    assert(all@ == self.spec_all_voters());
                }
            },
            None => {
                proof {
                    assert(all@ =~= self.spec_all_voters());
                }
            },
        }

        // The candidate commit points are the matched indexes of those voters.
        let mut cands: Vec<u64> = Vec::new();
        let mut i: usize = 0;
        while i < all.len()
            invariant
                self.wf(),
                i <= all@.len(),
                cands@.len() == i,
                forall|j: int| 0 <= j < i ==> cands@[j] == self.matched_of(#[trigger] all@[j]),
            decreases all@.len() - i,
        {
            let m = match self.find(all[i]) {
                Some(k) => self.prs[k].matched,
                None => 0,
            };
            cands.push(m);
            i = i + 1;
        }

        // Index 0 is replicated everywhere by definition; search upward
        // through the candidates.
        let mut best: u64 = 0;
        proof {
            lemma_count_all(self.conf.voters.items@, |v: u64| self.matched_of(v) >= 0u64);
            match &self.next_conf {
                Some(c) => {
                    lemma_count_all(c.voters.items@, |v: u64| self.matched_of(v) >= 0u64);
                },
                None => {},
            }
        }
        let mut j: usize = 0;
        while j < cands.len()
            invariant
                self.wf(),
                self.conf.voters.items@.len() > 0,
                match self.next_conf {
                    Some(c) => c.voters.items@.len() > 0,
                    None => true,
                },
                j <= cands@.len(),
                cands@.len() == all@.len(),
                all@ == self.spec_all_voters(),
                forall|k: int| 0 <= k < all@.len() ==> cands@[k] == self.matched_of(
                    #[trigger] all@[k],
                ),
                self.spec_commit_ge(best),
                forall|k: int|
                    0 <= k < j ==> (cands@[k] <= best || !self.spec_commit_ge(#[trigger] cands@[k])),
            decreases cands@.len() - j,
        {
            let c = cands[j];
            if c > best {
                if self.commit_ge(c) {
                    best = c;
                }
            }
            j = j + 1;
        }

        proof {
            assert forall|m: u64| m > best implies !self.spec_commit_ge(m) by {
                if self.spec_commit_ge(m) {
                    let fge = |v: u64| self.matched_of(v) >= m;
                    assert(count_where(self.conf.voters.items@, fge) >= 1);
                    let v0 = lemma_count_pos_witness(self.conf.voters.items@, fge);
                    assert(self.spec_all_voters().contains(v0)) by {
                        let jj = choose|jj: int|
                            0 <= jj < self.conf.voters.items@.len()
                                && self.conf.voters.items@[jj] == v0;
                        assert(self.spec_all_voters()[jj] == v0);
                    }
                    let fm = |v: u64| self.matched_of(v);
                    assert(self.spec_all_voters().contains(v0) && fm(v0) >= m);
                    let cstar = lemma_min_at_least(self.spec_all_voters(), fm, m);
                    // Counts at `m` and at `cstar` agree in both configurations.
                    assert forall|x: u64|
                        self.conf.voters.items@.contains(x) implies #[trigger] fge(x) == (
                    |v: u64| self.matched_of(v) >= cstar)(x) by {
                        let jj = choose|jj: int|
                            0 <= jj < self.conf.voters.items@.len()
                                && self.conf.voters.items@[jj] == x;
                        assert(self.spec_all_voters()[jj] == x);
                        assert(self.spec_all_voters().contains(x));
                    }
                    lemma_count_agree(
                        self.conf.voters.items@,
                        fge,
                        |v: u64| self.matched_of(v) >= cstar,
                    );
                    match &self.next_conf {
                        Some(cc) => {
                            assert forall|x: u64| cc.voters.items@.contains(x) implies #[trigger] fge(
                                x,
                            ) == (|v: u64| self.matched_of(v) >= cstar)(x) by {
                                let jj = choose|jj: int|
                                    0 <= jj < cc.voters.items@.len() && cc.voters.items@[jj] == x;
                                assert(self.spec_all_voters()[self.conf.voters.items@.len() + jj]
                                    == x);
                                assert(self.spec_all_voters().contains(x));
                            }
                            lemma_count_agree(
                                cc.voters.items@,
                                fge,
                                |v: u64| self.matched_of(v) >= cstar,
                            );
                        },
                        None => {},
                    }
                    assert(self.spec_commit_ge(cstar));
                    // `cstar` is one of the candidates, so the loop ruled it out.
                    let w = choose|v: u64|
                        #[trigger] self.spec_all_voters().contains(v) && fm(v) == cstar;
                    let jw = choose|jw: int|
                        0 <= jw < self.spec_all_voters().len() && self.spec_all_voters()[jw] == w;
                    assert(cands@[jw] == self.matched_of(w));
                    assert(cands@[jw] == cstar);
                    assert(cstar <= best || !self.spec_commit_ge(cstar));
                    assert(false);
                }
            }
            // The witness is unique, so it is the chosen commit point.
            assert(self.spec_commit_ge(best) && (forall|m: u64|
                m > best ==> !self.spec_commit_ge(m)));
            let w = self.spec_mci();
            assert(self.spec_commit_ge(w) && (forall|m: u64| m > w ==> !self.spec_commit_ge(m)));
            if w < best {
                assert(!self.spec_commit_ge(best));
                assert(false);
            }
            if w > best {
                assert(!self.spec_commit_ge(w));
                assert(false);
            }
        }
        best
    }

    /// Whether two tables hold the same peers, records and configurations.
    pub open spec fn unchanged_from(&self, other: &ProgressSet) -> bool {
        &&& self.ids@ == other.ids@
        &&& self.prs@ == other.prs@
        &&& self.conf.voters.items@ == other.conf.voters.items@
        &&& self.conf.learners.items@ == other.conf.learners.items@
        &&& match (self.next_conf, other.next_conf) {
            (Some(a), Some(b)) => a.voters.items@ == b.voters.items@ && a.learners.items@
                == b.learners.items@,
            (None, None) => true,
            _ => false,
        }
    }

    /// Adds `id` as a voter with the record `pr`.  Refused while a membership
    /// change is in flight or when `id` is already a member.
    pub fn insert_voter(&mut self, id: u64, pr: Progress) -> (r: Result<(), RaftError>)
        requires
            old(self).wf(),
            pr.wf(),
        ensures
            final(self).wf(),
            r is Err <==> (old(self).spec_in_joint() || old(self).conf.spec_contains(id)),
            r is Err ==> final(self).unchanged_from(old(self)),
            r is Ok ==> {
                &&& forall|x: u64|
                    final(self).conf.voters.has(x) == (old(self).conf.voters.has(x) || x == id)
                &&& final(self).conf.learners.items@ == old(self).conf.learners.items@
                &&& !final(self).spec_in_joint()
                &&& forall|x: u64| #[trigger] final(self).has_id(x) == (old(self).has_id(x) || x
                    == id)
                &&& final(self).pr_of(id) == pr
                &&& forall|x: u64|
                    old(self).has_id(x) && x != id ==> #[trigger] final(self).pr_of(x) == old(
                        self,
                    ).pr_of(x)
            },
    {
        if self.is_in_membership_change() {
            return Err(RaftError::ViolatesContract);
        }
        if self.conf.contains(id) {
            return Err(RaftError::Exists);
        }
        self.conf.voters.insert(id);
        match self.find(id) {
            Some(i) => {
                let p = self.pr_at_mut(i);
                *p = pr;
                proof {
                    let k = self.index_of_id(id);
                    assert(self.ids@[k] == id && self.ids@[i as int] == id);
                    assert(k == i as int);
                    assert forall|x: u64|
                        old(self).has_id(x) && x != id implies #[trigger] self.pr_of(x) == old(
                        self,
                    ).pr_of(x) by {
                        let k1 = old(self).index_of_id(x);
                        let k2 = self.index_of_id(x);
                        assert(old(self).ids@[k1] == x && self.ids@[k2] == x);
                        assert(k1 == k2);
                        assert(k2 != i as int);
                    }
                    assert forall|x: u64| #[trigger]
                        self.has_id(x) == (old(self).has_id(x) || x == id) by {
                        assert(self.ids@ == old(self).ids@);
                        assert(self.has_id(x) == old(self).has_id(x));
                    }
                }
            },
            None => {
                self.push_pr(id, pr);
            },
        }
        Ok(())
    }

    /// Adds `id` as a learner with the record `pr`.  Refused while a
    /// membership change is in flight or when `id` is already a member.
    pub fn insert_learner(&mut self, id: u64, pr: Progress) -> (r: Result<(), RaftError>)
        requires
            old(self).wf(),
            pr.wf(),
        ensures
            final(self).wf(),
            r is Err <==> (old(self).spec_in_joint() || old(self).conf.spec_contains(id)),
            r is Err ==> final(self).unchanged_from(old(self)),
            r is Ok ==> {
                &&& forall|x: u64|
                    final(self).conf.learners.has(x) == (old(self).conf.learners.has(x) || x == id)
                &&& final(self).conf.voters.items@ == old(self).conf.voters.items@
                &&& !final(self).spec_in_joint()
                &&& forall|x: u64| #[trigger] final(self).has_id(x) == (old(self).has_id(x) || x
                    == id)
                &&& final(self).pr_of(id) == pr
                &&& forall|x: u64|
                    old(self).has_id(x) && x != id ==> #[trigger] final(self).pr_of(x) == old(
                        self,
                    ).pr_of(x)
            },
    {
        if self.is_in_membership_change() {
            return Err(RaftError::ViolatesContract);
        }
        if self.conf.contains(id) {
            return Err(RaftError::Exists);
        }
        self.conf.learners.insert(id);
        match self.find(id) {
            Some(i) => {
                let p = self.pr_at_mut(i);
                *p = pr;
                proof {
                    let k = self.index_of_id(id);
                    assert(self.ids@[k] == id && self.ids@[i as int] == id);
                    assert(k == i as int);
                    assert forall|x: u64|
                        old(self).has_id(x) && x != id implies #[trigger] self.pr_of(x) == old(
                        self,
                    ).pr_of(x) by {
                        let k1 = old(self).index_of_id(x);
                        let k2 = self.index_of_id(x);
                        assert(old(self).ids@[k1] == x && self.ids@[k2] == x);
                        assert(k1 == k2);
                        assert(k2 != i as int);
                    }
                    assert forall|x: u64| #[trigger]
                        self.has_id(x) == (old(self).has_id(x) || x == id) by {
                        assert(self.ids@ == old(self).ids@);
                        assert(self.has_id(x) == old(self).has_id(x));
                    }
                }
            },
            None => {
                self.push_pr(id, pr);
            },
        }
        Ok(())
    }

    /// Turns the learner `id` into a voter, keeping its record.  Refused
    /// while a membership change is in flight or when `id` is no learner.
    pub fn promote_learner(&mut self, id: u64) -> (r: Result<(), RaftError>)
        requires
            old(self).wf(),
        ensures
            final(self).wf(),
            r is Err <==> (old(self).spec_in_joint() || !old(self).conf.learners.has(id)),
            r is Err ==> final(self).unchanged_from(old(self)),
            r is Ok ==> {
                &&& forall|x: u64|
                    final(self).conf.voters.has(x) == (old(self).conf.voters.has(x) || x == id)
                &&& forall|x: u64|
                    final(self).conf.learners.has(x) == (old(self).conf.learners.has(x) && x != id)
                &&& final(self).ids@ == old(self).ids@
                &&& final(self).prs@ == old(self).prs@
                &&& !final(self).spec_in_joint()
            },
    {
        if self.is_in_membership_change() {
            return Err(RaftError::ViolatesContract);
        }
        if !self.conf.learners.contains(id) {
            return Err(RaftError::NotExists);
        }
        self.conf.learners.remove(id);
        self.conf.voters.insert(id);
        Ok(())
    }

    /// Forgets the peer `id` and its record.  Refused while a membership
    /// change is in flight.
    pub fn remove(&mut self, id: u64) -> (r: Result<(), RaftError>)
        requires
            old(self).wf(),
        ensures
            final(self).wf(),
            r is Err <==> old(self).spec_in_joint(),
            r is Err ==> final(self).unchanged_from(old(self)),
            r is Ok ==> {
                &&& forall|x: u64|
                    final(self).conf.voters.has(x) == (old(self).conf.voters.has(x) && x != id)
                &&& forall|x: u64|
                    final(self).conf.learners.has(x) == (old(self).conf.learners.has(x) && x != id)
                &&& forall|x: u64| #[trigger] final(self).has_id(x) == (old(self).has_id(x) && x
                    != id)
                &&& !final(self).spec_in_joint()
                &&& forall|x: u64|
                    old(self).has_id(x) && x != id ==> #[trigger] final(self).pr_of(x) == old(
                        self,
                    ).pr_of(x)
            },
    {
        if self.is_in_membership_change() {
            return Err(RaftError::ViolatesContract);
        }
        self.conf.voters.remove(id);
        self.conf.learners.remove(id);
        match self.find(id) {
            Some(i) => {
                let ghost pre_ids = self.ids@;
                let ghost pre_prs = self.prs@;
                self.ids.remove(i);
                self.prs.remove(i);
                proof {
                    lemma_parallel_remove(pre_ids, pre_prs, self.ids@, self.prs@, i as int, id);
                    assert forall|x: u64|
                        old(self).has_id(x) && x != id implies #[trigger] self.pr_of(x) == old(
                        self,
                    ).pr_of(x) by {
                        let k1 = old(self).index_of_id(x);
                        assert(pre_ids[k1] == x);
                        let k2 = self.index_of_id(x);
                        assert(self.has_id(x));
                        assert(self.ids@[k2] == x);
                        if k2 < i as int {
                            assert(self.ids@[k2] == pre_ids[k2]);
                            assert(k1 == k2);
                            assert(self.prs@[k2] == pre_prs[k2]);
                        } else {
                            assert(self.ids@[k2] == pre_ids[k2 + 1]);
                            assert(k1 == k2 + 1);
                            assert(self.prs@[k2] == pre_prs[k2 + 1]);
                        }
                    }
                }
            },
            None => {},
        }
        Ok(())
    }

    /// Adds a copy of `pr` for every id of `list` that has no record yet.
    fn insert_absent(&mut self, list: &IdSet, pr: &Progress)
        requires
            old(self).wf(),
            list.wf(),
            pr.wf(),
        ensures
            final(self).wf(),
            final(self).conf == old(self).conf,
            final(self).next_conf == old(self).next_conf,
            forall|x: u64| #[trigger] final(self).has_id(x) == (old(self).has_id(x) || list.has(
                x,
            )),
            forall|x: u64|
                old(self).has_id(x) ==> #[trigger] final(self).pr_of(x) == old(self).pr_of(x),
            forall|x: u64|
                !old(self).has_id(x) && final(self).has_id(x) ==> #[trigger] pr_like(
                    final(self).pr_of(x),
                    *pr,
                ),
    {
        let items = crate::message::copy_ids(&list.items);
        let mut i: usize = 0;
        while i < items.len()
            invariant
                self.wf(),
                pr.wf(),
                items@ == list.items@,
                i <= items@.len(),
                self.conf == old(self).conf,
                self.next_conf == old(self).next_conf,
                forall|x: u64| #[trigger]
                    self.has_id(x) == (old(self).has_id(x) || items@.take(i as int).contains(x)),
                forall|x: u64|
                    old(self).has_id(x) ==> #[trigger] self.pr_of(x) == old(self).pr_of(x),
                forall|x: u64|
                    !old(self).has_id(x) && self.has_id(x) ==> #[trigger] pr_like(
                        self.pr_of(x),
                        *pr,
                    ),
            decreases items@.len() - i,
        {
            let id = items[i];
            let ghost pre = *self;
            match self.find(id) {
                Some(_) => {},
                None => {
                    let copy = pr.dup();
                    let ghost gcopy = copy;
                    self.push_pr(id, copy);
                    proof {
                        assert(pr_like(gcopy, *pr));
                        assert(self.pr_of(id) == gcopy);
                        assert forall|x: u64|
                            !old(self).has_id(x) && self.has_id(x) implies #[trigger] pr_like(
                            self.pr_of(x),
                            *pr,
                        ) by {
                            if pre.has_id(x) {
                                assert(self.pr_of(x) == pre.pr_of(x));
                                assert(pr_like(pre.pr_of(x), *pr));
                            } else {
                                assert(x == id);
                            }
                        }
                        assert forall|x: u64|
                            old(self).has_id(x) implies #[trigger] self.pr_of(x) == old(
                            self,
                        ).pr_of(x) by {
                            assert(self.pr_of(x) == pre.pr_of(x));
                        }
                    }
                },
            }
            proof {
                assert forall|x: u64| #[trigger]
                    self.has_id(x) == (old(self).has_id(x) || items@.take(i as int + 1).contains(
                        x,
                    )) by {
                    crate::idset::lemma_take_succ_contains(items@, i as int, x);
                    assert(self.has_id(x) == (pre.has_id(x) || x == items@[i as int]));
                }
            }
            i = i + 1;
        }
        proof {
            assert(items@.take(items@.len() as int) =~= items@);
        }
    }

    /// Enters joint consensus towards `next`: the target configuration is
    /// installed as the second active one and every new peer gets a copy of
    /// `pr`.  Refused when `next` is invalid or a change is already in
    /// flight.
    #[verifier::rlimit(60)]
    pub fn begin_membership_change(&mut self, next: &Configuration, pr: &Progress) -> (r: Result<
        (),
        RaftError,
    >)
        requires
            old(self).wf(),
            next.wf(),
            pr.wf(),
        ensures
            final(self).wf(),
            r is Err <==> (old(self).spec_in_joint() || !next.spec_valid()),
            r is Err ==> final(self).unchanged_from(old(self)),
            r is Ok ==> final(self).spec_in_joint(),
            r is Ok ==> match final(self).next_conf {
                Some(c) => c.voters.items@ == next.voters.items@ && c.learners.items@
                    == next.learners.items@,
                None => false,
            },
            r is Ok ==> final(self).conf.voters.items@ == old(self).conf.voters.items@,
            r is Ok ==> final(self).conf.learners.items@ == old(self).conf.learners.items@,
            r is Ok ==> forall|x: u64| #[trigger]
                final(self).has_id(x) == (old(self).has_id(x) || next.spec_contains(x)),
            r is Ok ==> forall|x: u64|
                old(self).has_id(x) ==> #[trigger] final(self).pr_of(x) == old(self).pr_of(x),
            r is Ok ==> forall|x: u64|
                !old(self).has_id(x) && next.spec_contains(x) ==> #[trigger] pr_like(
                    final(self).pr_of(x),
                    *pr,
                ),
    {
        if self.is_in_membership_change() {
            return Err(RaftError::ViolatesContract);
        }
        if next.valid().is_err() {
            return Err(RaftError::ViolatesContract);
        }
        self.insert_absent(&next.voters, pr);
        let ghost mid = *self;
        self.insert_absent(&next.learners, pr);
        let ghost mid2 = *self;
        self.next_conf = Some(next.dup());
        proof {
            assert(self.ids@ == mid2.ids@ && self.prs@ == mid2.prs@);
            assert forall|x: u64| #[trigger]
                self.has_id(x) == (old(self).has_id(x) || next.spec_contains(x)) by {
                lemma_same_table(*self, mid2, x);
                assert(mid2.has_id(x) == (mid.has_id(x) || next.learners.has(x)));
                assert(mid.has_id(x) == (old(self).has_id(x) || next.voters.has(x)));
            }
            assert forall|x: u64|
                old(self).has_id(x) implies #[trigger] self.pr_of(x) == old(self).pr_of(x) by {
                assert(mid.has_id(x) == (old(self).has_id(x) || next.voters.has(x)));
                assert(mid2.has_id(x) == (mid.has_id(x) || next.learners.has(x)));
                lemma_same_table(*self, mid2, x);
                assert(mid2.pr_of(x) == mid.pr_of(x));
                assert(mid.pr_of(x) == old(self).pr_of(x));
            }
            assert forall|x: u64|
                !old(self).has_id(x) && next.spec_contains(x) implies #[trigger] pr_like(
                self.pr_of(x),
                *pr,
            ) by {
                assert(mid.has_id(x) == (old(self).has_id(x) || next.voters.has(x)));
                assert(mid2.has_id(x) == (mid.has_id(x) || next.learners.has(x)));
                lemma_same_table(*self, mid2, x);
                if mid.has_id(x) {
                    assert(mid2.pr_of(x) == mid.pr_of(x));
                    assert(pr_like(mid.pr_of(x), *pr));
                } else {
                    assert(pr_like(mid2.pr_of(x), *pr));
                }
            }
        }
        Ok(())
    }

    /// Leaves joint consensus: only the target configuration stays, and the
    /// records of peers outside it are dropped.  Refused when no change is in
    /// flight.
    #[verifier::rlimit(60)]
    pub fn finalize_membership_change(&mut self) -> (r: Result<(), RaftError>)
        requires
            old(self).wf(),
        ensures
            final(self).wf(),
            r is Err <==> !old(self).spec_in_joint(),
            r is Err ==> final(self).unchanged_from(old(self)),
            r is Ok ==> !final(self).spec_in_joint(),
            r is Ok ==> match old(self).next_conf {
                Some(c) => {
                    &&& final(self).conf.voters.items@ == c.voters.items@
                    &&& final(self).conf.learners.items@ == c.learners.items@
                    &&& forall|x: u64| #[trigger]
                        final(self).has_id(x) == (old(self).has_id(x) && c.spec_contains(x))
                    &&& forall|x: u64|
                        old(self).has_id(x) && c.spec_contains(x) ==> pr_like(
                            #[trigger] final(self).pr_of(x),
                            old(self).pr_of(x),
                        )
                },
                None => false,
            },
    {
        let next = match &self.next_conf {
            Some(c) => c.dup(),
            None => {
                return Err(RaftError::NoPendingMembershipChange);
            },
        };
        let mut new_ids: Vec<u64> = Vec::new();
        let mut new_prs: Vec<Progress> = Vec::new();
        let mut i: usize = 0;
        while i < self.ids.len()
            invariant
                self.wf(),
                next.wf(),
                i <= self.ids@.len(),
                self.unchanged_from(old(self)),
                next.voters.items@ == match old(self).next_conf {
                    Some(c) => c.voters.items@,
                    None => Seq::<u64>::empty(),
                },
                next.learners.items@ == match old(self).next_conf {
                    Some(c) => c.learners.items@,
                    None => Seq::<u64>::empty(),
                },
                new_ids@.len() == new_prs@.len(),
                new_ids@.no_duplicates(),
                forall|x: u64| #[trigger]
                    new_ids@.contains(x) == (self.ids@.take(i as int).contains(x)
                        && next.spec_contains(x)),
                forall|k: int|
                    0 <= k < new_ids@.len() ==> self.has_id(#[trigger] new_ids@[k]) && new_prs@[
                        k
                    ].wf() && pr_like(new_prs@[k], self.pr_of(new_ids@[k])),
            decreases self.ids@.len() - i,
        {
            let id = self.ids[i];
            if next.contains(id) {
                let ghost pre_new = new_ids@;
                new_ids.push(id);
                new_prs.push(self.pr_at(i).dup());
                proof {
                    assert(self.ids@[i as int] == id);
                    assert(self.has_id(id));
                    let k = self.index_of_id(id);
                    assert(self.ids@[k] == id);
                    assert(k == i as int);
                    assert(pr_like(new_prs@[new_ids@.len() - 1], self.pr_of(id)));
                    assert(!pre_new.contains(id)) by {
                        if pre_new.contains(id) {
                            assert(self.ids@.take(i as int).contains(id));
                            let jj = choose|jj: int|
                                0 <= jj < i && #[trigger] self.ids@.take(i as int)[jj] == id;
                            assert(self.ids@[jj] == id);
                        }
                    }
                    assert forall|x: u64| #[trigger]
                        new_ids@.contains(x) == (self.ids@.take(i as int + 1).contains(x)
                            && next.spec_contains(x)) by {
                        crate::idset::lemma_take_succ_contains(self.ids@, i as int, x);
                        assert(new_ids@ == pre_new.push(id));
                        if new_ids@.contains(x) {
                            let jj = choose|jj: int|
                                0 <= jj < new_ids@.len() && #[trigger] new_ids@[jj] == x;
                            if jj < pre_new.len() {
                                assert(pre_new[jj] == x);
                                assert(pre_new.contains(x));
                            }
                        }
                        if pre_new.contains(x) {
                            let jj = choose|jj: int|
                                0 <= jj < pre_new.len() && #[trigger] pre_new[jj] == x;
                            assert(new_ids@[jj] == x);
                        }
                        if x == id {
                            assert(new_ids@[pre_new.len() as int] == x);
                        }
                    }
                }
            } else {
                proof {
                    assert forall|x: u64| #[trigger]
                        new_ids@.contains(x) == (self.ids@.take(i as int + 1).contains(x)
                            && next.spec_contains(x)) by {
                        crate::idset::lemma_take_succ_contains(self.ids@, i as int, x);
                    }
                }
            }
            i = i + 1;
        }
        proof {
            assert(self.ids@.take(self.ids@.len() as int) =~= self.ids@);
        }
        let ghost pre = *self;
        let ghost g_ids = new_ids@;
        let ghost g_prs = new_prs@;
        self.ids = new_ids;
        self.prs = new_prs;
        self.conf = next;
        self.next_conf = None;
        proof {
            assert forall|k: int| 0 <= k < self.prs@.len() implies (#[trigger] self.prs@[k]).wf() by {
                assert(self.ids@[k] == g_ids[k]);
                assert(g_prs[k].wf());
            }
            assert forall|x: u64| #[trigger]
                self.has_id(x) == (pre.has_id(x) && self.conf.spec_contains(x)) by {
            }
            assert forall|x: u64|
                pre.has_id(x) && self.conf.spec_contains(x) implies pr_like(
                #[trigger] self.pr_of(x),
                pre.pr_of(x),
            ) by {
                assert(self.has_id(x));
                let k = self.index_of_id(x);
                assert(self.ids@[k] == x);
                assert(pr_like(self.prs@[k], pre.pr_of(x)));
                assert(self.pr_of(x) == self.prs@[k]);
            }
        }
        Ok(())
    }

    /// Rebuilds a table from snapshot metadata: the snapshot's configuration
    /// becomes current, a pending change recorded in the snapshot re-enters
    /// joint consensus, and every peer starts probing at `next_idx`.
    #[verifier::rlimit(60)]
    pub fn restore_snapmeta(
        meta: &crate::message::SnapshotMetadata,
        next_idx: u64,
        max_inflight: usize,
    ) -> (r: ProgressSet)
        requires
            1 <= next_idx,
        ensures
            r.wf(),
            forall|x: u64| #[trigger] r.conf.voters.has(x) == meta.conf_state.nodes@.contains(x),
            forall|x: u64| #[trigger] r.conf.learners.has(x)
                == meta.conf_state.learners@.contains(x),
            r.spec_in_joint() == (meta.pending_membership_change is Some
                && meta.pending_membership_change_index > 0),
            r.spec_in_joint() ==> match (r.next_conf, meta.pending_membership_change) {
                (Some(c), Some(cs)) => forall|x: u64| #[trigger]
                    c.voters.has(x) == cs.nodes@.contains(x),
                _ => false,
            },
            forall|x: u64|
                #[trigger] r.has_id(x) ==> r.pr_of(x).matched == 0 && r.pr_of(x).next_idx
                    == next_idx,
            forall|x: u64| r.conf.spec_contains(x) ==> #[trigger] r.has_id(x),
    {
        let mut table = ProgressSet::new();
        let conf = Configuration::new(&meta.conf_state.nodes, &meta.conf_state.learners);
        let probe = Progress::new(next_idx, max_inflight);
        table.insert_absent(&conf.voters, &probe);
        let ghost t1 = table;
        table.insert_absent(&conf.learners, &probe);
        let ghost t2 = table;
        proof {
            assert forall|x: u64| #[trigger] table.has_id(x) implies pr_like(
                table.pr_of(x),
                probe,
            ) by {
                if t1.has_id(x) {
                    assert(table.pr_of(x) == t1.pr_of(x));
                    assert(pr_like(t1.pr_of(x), probe));
                }
            }
        }
        let mut joint: Option<Configuration> = None;
        match &meta.pending_membership_change {
            Some(cs) => {
                if meta.pending_membership_change_index > 0 {
                    let pending = Configuration::new(&cs.nodes, &cs.learners);
                    table.insert_absent(&pending.voters, &probe);
                    let ghost t3 = table;
                    table.insert_absent(&pending.learners, &probe);
                    proof {
                        assert forall|x: u64| #[trigger] table.has_id(x) implies pr_like(
                            table.pr_of(x),
                            probe,
                        ) by {
                            if t3.has_id(x) {
                                assert(table.pr_of(x) == t3.pr_of(x));
                                if t2.has_id(x) {
                                    assert(t3.pr_of(x) == t2.pr_of(x));
                                    assert(pr_like(t2.pr_of(x), probe));
                                } else {
                                    assert(pr_like(t3.pr_of(x), probe));
                                }
                            }
                        }
                        assert forall|x: u64| t2.has_id(x) implies #[trigger] table.has_id(x) by {
                            assert(t3.has_id(x));
                        }
                    }
                    joint = Some(pending);
                }
            },
            None => {},
        }
        let ghost t4 = table;
        table.conf = conf;
        table.next_conf = joint;
        proof {
            assert(table.ids@ == t4.ids@ && table.prs@ == t4.prs@);
            assert forall|x: u64| #[trigger] table.has_id(x) implies table.pr_of(x).matched == 0
                && table.pr_of(x).next_idx == next_idx by {
                lemma_same_table(table, t4, x);
                assert(pr_like(t4.pr_of(x), probe));
            }
            assert forall|x: u64|
                table.conf.spec_contains(x) implies #[trigger] table.has_id(x) by {
                lemma_same_table(table, t4, x);
                assert(t2.has_id(x) == (t1.has_id(x) || conf.learners.has(x)));
                assert(t1.has_id(x) == (false || conf.voters.has(x)));
            }
        }
        table
    }

    /// Restarts every record as a probe at `next_idx` with nothing matched,
    /// except this node's own record, which is known to match `matched_self`.
    pub fn reset_progress(&mut self, next_idx: u64, self_id: u64, matched_self: u64)
        requires
            old(self).wf(),
            1 <= next_idx,
            matched_self < u64::MAX,
        ensures
            final(self).wf(),
            final(self).ids@ == old(self).ids@,
            final(self).conf == old(self).conf,
            final(self).next_conf == old(self).next_conf,
            final(self).prs@.len() == old(self).prs@.len(),
            forall|k: int|
                0 <= k < final(self).prs@.len() ==> {
                    let p = #[trigger] final(self).prs@[k];
                    &&& p.matched == (if final(self).ids@[k] == self_id {
                        matched_self
                    } else {
                        0u64
                    })
                    &&& p.next_idx == next_idx
                    &&& p.state == ProgressState::Probe
                    &&& !p.paused
                    &&& p.pending_snapshot == 0
                    &&& !p.recent_active
                    &&& p.ins.queue@ == Seq::<u64>::empty()
                    &&& p.ins.cap == old(self).prs@[k].ins.cap
                },
    {
        let n = self.prs.len();
        let mut i: usize = 0;
        while i < n
            invariant
                n == self.prs@.len(),
                i <= n,
                self.ids@ == old(self).ids@,
                self.ids@.len() == self.prs@.len(),
                self.conf == old(self).conf,
                self.next_conf == old(self).next_conf,
                self.prs@.len() == old(self).prs@.len(),
                self.ids@.no_duplicates(),
                old(self).conf.wf(),
                match old(self).next_conf {
                    Some(c) => c.wf(),
                    None => true,
                },
                1 <= next_idx,
                matched_self < u64::MAX,
                forall|k: int|
                    i <= k < self.prs@.len() ==> #[trigger] self.prs@[k] == old(self).prs@[k]
                        && old(self).prs@[k].wf(),
                forall|k: int|
                    0 <= k < i ==> {
                        let p = #[trigger] self.prs@[k];
                        &&& p.wf()
                        &&& p.matched == (if self.ids@[k] == self_id {
                            matched_self
                        } else {
                            0u64
                        })
                        &&& p.next_idx == next_idx
                        &&& p.state == ProgressState::Probe
                        &&& !p.paused
                        &&& p.pending_snapshot == 0
                        &&& !p.recent_active
                        &&& p.ins.queue@ == Seq::<u64>::empty()
                        &&& p.ins.cap == old(self).prs@[k].ins.cap
                    },
            decreases n - i,
        {
            let ghost pre_iter = *self;
            let is_self = self.ids[i] == self_id;
            let p = &mut self.prs[i];
            p.reset(next_idx);
            if is_self {
                p.matched = matched_self;
            }
            proof {
                assert forall|k: int|
                    0 <= k < self.prs@.len() && k != i implies #[trigger] self.prs@[k]
                    == pre_iter.prs@[k] by {
                    assert(self.prs@ == pre_iter.prs@.update(i as int, self.prs@[i as int]));
                }
            }
            i = i + 1;
        }
    }

    /// The voters counted as heard from: this node itself always, any other
    /// peer when its record's activity flag is set.
    pub open spec fn active_pred(&self, self_id: u64) -> spec_fn(u64) -> bool {
        |v: u64| v == self_id || (self.has_id(v) && self.pr_of(v).recent_active)
    }

    /// A quorum of `cfg` was heard from since the last check, counting this
    /// node itself as always heard.
    pub open spec fn cfg_active(&self, cfg: Configuration, self_id: u64) -> bool {
        count_where(cfg.voters.items@, self.active_pred(self_id)) >= majority(
            cfg.voters.items@.len() as nat,
        )
    }

    /// A quorum of every active configuration was heard from.
    pub open spec fn spec_active_quorum(&self, self_id: u64) -> bool {
        &&& self.cfg_active(self.conf, self_id)
        &&& match self.next_conf {
            Some(c) => self.cfg_active(c, self_id),
            None => true,
        }
    }

    /// Counts the ids in `vs` heard from since the last check.
    fn count_active(&self, vs: &Vec<u64>, self_id: u64) -> (r: usize)
        requires
            self.wf(),
        ensures
            r == count_where(vs@, self.active_pred(self_id)),
    {
        let ghost f = self.active_pred(self_id);
        let mut n: usize = 0;
        let mut i: usize = 0;
        while i < vs.len()
            invariant
                self.wf(),
                i <= vs@.len(),
                n <= i,
                n == count_where(vs@.take(i as int), f),
                f == self.active_pred(self_id),
            decreases vs@.len() - i,
        {
            proof {
                lemma_count_take_succ(vs@, f, i as int);
            }
            let id = vs[i];
            let hit = if id == self_id {
                true
            } else {
                match self.find(id) {
                    Some(k) => self.prs[k].recent_active,
                    None => false,
                }
            };
            if hit {
                n = n + 1;
            }
            i = i + 1;
        }
        proof {
            assert(vs@.take(vs@.len() as int) =~= vs@);
        }
        n
    }

    /// Whether a voter quorum in every active configuration has been heard
    /// from since the last check.  The check consumes the evidence: every
    /// record's activity flag is cleared.
    pub fn quorum_recently_active(&mut self, self_id: u64) -> (r: bool)
        requires
            old(self).wf(),
        ensures
            final(self).wf(),
            r == old(self).spec_active_quorum(self_id),
            final(self).ids@ == old(self).ids@,
            final(self).conf == old(self).conf,
            final(self).next_conf == old(self).next_conf,
            final(self).prs@.len() == old(self).prs@.len(),
            forall|k: int|
                0 <= k < final(self).prs@.len() ==> #[trigger] final(self).prs@[k] == (Progress {
                    recent_active: false,
                    ..old(self).prs@[k]
                }),
    {
        let a0 = self.count_active(&self.conf.voters.items, self_id);
        let mut active = a0 >= self.conf.voters.items.len() / 2 + 1;
        match &self.next_conf {
            Some(c) => {
                let a1 = self.count_active(&c.voters.items, self_id);
                active = active && a1 >= c.voters.items.len() / 2 + 1;
            },
            None => {},
        }
        let n = self.prs.len();
        let mut i: usize = 0;
        while i < n
            invariant
                n == self.prs@.len(),
                i <= n,
                self.ids@ == old(self).ids@,
                self.ids@.len() == self.prs@.len(),
                self.conf == old(self).conf,
                self.next_conf == old(self).next_conf,
                self.prs@.len() == old(self).prs@.len(),
                self.ids@.no_duplicates(),
                old(self).conf.wf(),
                match old(self).next_conf {
                    Some(c) => c.wf(),
                    None => true,
                },
                forall|k: int|
                    i <= k < self.prs@.len() ==> #[trigger] self.prs@[k] == old(self).prs@[k]
                        && old(self).prs@[k].wf(),
                forall|k: int|
                    0 <= k < i ==> #[trigger] self.prs@[k] == (Progress {
                        recent_active: false,
                        ..old(self).prs@[k]
                    }) && self.prs@[k].wf(),
            decreases n - i,
        {
            let ghost pre_iter = *self;
            let p = &mut self.prs[i];
            p.recent_active = false;
            proof {
                assert forall|k: int|
                    0 <= k < self.prs@.len() && k != i implies #[trigger] self.prs@[k]
                    == pre_iter.prs@[k] by {
                    assert(self.prs@ == pre_iter.prs@.update(i as int, self.prs@[i as int]));
                }
            }
            i = i + 1;
        }
        active
    }
}

/// Two tables with the same id and record columns agree on membership and on
/// every peer's record.
pub proof fn lemma_same_table(a: ProgressSet, b: ProgressSet, x: u64)
    requires
        a.ids@ == b.ids@,
        a.prs@ == b.prs@,
        a.ids@.no_duplicates(),
    ensures
        a.has_id(x) == b.has_id(x),
        a.has_id(x) ==> a.pr_of(x) == b.pr_of(x),
{
    if a.has_id(x) {
        let i = a.index_of_id(x);
        assert(a.ids@[i] == x);
        assert(b.ids@[i] == x);
        assert(b.has_id(x));
        let j = b.index_of_id(x);
        assert(b.ids@[j] == x);
        assert(i == j);
    }
    if b.has_id(x) {
        let j = b.index_of_id(x);
        assert(b.ids@[j] == x);
        assert(a.ids@[j] == x);
        assert(a.has_id(x));
    }
}

/// Removing position `i` keeps the pairing of every other id with its
/// record.
proof fn lemma_parallel_remove(
    pre_ids: Seq<u64>,
    pre_prs: Seq<Progress>,
    post_ids: Seq<u64>,
    post_prs: Seq<Progress>,
    i: int,
    id: u64,
)
    requires
        pre_ids.no_duplicates(),
        pre_prs.len() == pre_ids.len(),
        0 <= i < pre_ids.len(),
        pre_ids[i] == id,
        post_ids == pre_ids.remove(i),
        post_prs == pre_prs.remove(i),
    ensures
        post_ids.no_duplicates(),
        post_ids.len() == post_prs.len(),
        forall|x: u64| #[trigger] post_ids.contains(x) == (pre_ids.contains(x) && x != id),
        forall|k: int|
            0 <= k < post_ids.len() ==> #[trigger] post_ids[k] == (if k < i {
                pre_ids[k]
            } else {
                pre_ids[k + 1]
            }) && post_prs[k] == (if k < i {
                pre_prs[k]
            } else {
                pre_prs[k + 1]
            }),
{
    pre_ids.remove_ensures(i);
    pre_prs.remove_ensures(i);
    assert forall|k: int|
        0 <= k < post_ids.len() implies #[trigger] post_ids[k] == (if k < i {
        pre_ids[k]
    } else {
        pre_ids[k + 1]
    }) && post_prs[k] == (if k < i {
        pre_prs[k]
    } else {
        pre_prs[k + 1]
    }) by {
        if k < i {
            assert(pre_ids.remove(i)[k] == pre_ids[k]);
            assert(pre_prs.remove(i)[k] == pre_prs[k]);
        } else {
            assert(pre_ids.remove(i)[k] == pre_ids[k + 1]);
            assert(pre_prs.remove(i)[k] == pre_prs[k + 1]);
        }
    }
    assert forall|a: int, b: int|
        0 <= a < post_ids.len() && 0 <= b < post_ids.len() && a != b implies post_ids[a]
        != post_ids[b] by {
        let a2 = if a < i { a } else { a + 1 };
        let b2 = if b < i { b } else { b + 1 };
        assert(post_ids[a] == pre_ids[a2] && post_ids[b] == pre_ids[b2]);
        assert(pre_ids[a2] != pre_ids[b2]);
    }
    assert forall|x: u64| #[trigger] post_ids.contains(x) == (pre_ids.contains(x) && x != id) by {
        if post_ids.contains(x) {
            let j = choose|j: int| 0 <= j < post_ids.len() && post_ids[j] == x;
            if j < i {
                assert(pre_ids[j] == x);
            } else {
                assert(pre_ids[j + 1] == x);
                assert(j + 1 != i);
                assert(pre_ids[j + 1] != pre_ids[i]);
            }
            assert(pre_ids.contains(x));
            assert(x != id);
        }
        if pre_ids.contains(x) && x != id {
            let j = choose|j: int| 0 <= j < pre_ids.len() && pre_ids[j] == x;
            if j < i {
                assert(post_ids[j] == x);
                assert(post_ids.contains(x));
            } else {
                assert(j != i);
                assert(post_ids[j - 1] == x);
                assert(post_ids.contains(x));
            }
        }
    }
}

} // verus!
