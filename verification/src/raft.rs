//! The Raft peer state machine: role transitions, elections, log
//! replication, linearizable reads, leader transfer and joint-consensus
//! membership changes, driven purely by ticks and inbound messages.

use vstd::prelude::*;
use crate::bridge::{VoteBook, votes_of, new_vote_book, record_vote, clear_votes, AckSet, acks_of, new_ack_set, ack_insert, random_in_range};
use crate::config::Config;
use crate::errors::RaftError;
use crate::message::{Message, MessageType, Entry, EntryType, Snapshot, SnapshotMetadata, ConfState, HardState, ConfChange, ConfChangeType, ConfChangeV, ents_view, copy_bytes, copy_entries};
use crate::progress::{Progress, ProgressState};
use crate::progress_set::{ProgressSet, Configuration, CandidacyStatus};
use crate::raft_log::RaftLog;
use crate::read_only::{ReadOnly, ReadOnlyOption, ReadState, ReadIndexStatus, bytes_eq};
use vstd::std_specs::option::OptionAdditionalFns;

verus! {

/// A peer id that names no peer.
pub const INVALID_ID: u64 = 0;

/// A log position that names no entry.
pub const INVALID_INDEX: u64 = 0;

/// The role of the node.
#[derive(Debug, PartialEq, Eq, Structural, Clone, Copy)]
pub enum StateRole {
    /// The node is a follower of the leader.
    Follower,
    /// The node could become a leader.
    Candidate,
    /// The node is a leader.
    Leader,
    /// The node could become a candidate, if pre-vote is enabled.
    PreCandidate,
}

/// The volatile state a driver watches for changes: who leads, and in what
/// role this node is.
#[derive(Debug, PartialEq, Eq, Structural, Clone, Copy)]
pub struct SoftState {
    /// The believed current leader; 0 for none.
    pub leader_id: u64,
    /// This node's role.
    pub raft_state: StateRole,
}

/// Which campaign a node is running.
#[derive(Debug, PartialEq, Eq, Structural, Clone, Copy)]
pub enum CampaignType {
    /// The advisory round before a real election, when pre-vote is on.
    PreElection,
    /// A real election.
    Election,
    /// An election forced by leader transfer; pre-vote is skipped and lease
    /// protection is overridden.
    Transfer,
}

/// The bytes `"CampaignTransfer"`, carried as message context on the wire so
/// the receiving peers override their lease protection.
pub fn campaign_transfer_context() -> (r: Vec<u8>)
    ensures
        r@ == transfer_context_bytes(),
{
    let mut v: Vec<u8> = Vec::new();
    v.push(67);
    v.push(97);
    v.push(109);
    v.push(112);
    v.push(97);
    v.push(105);
    v.push(103);
    v.push(110);
    v.push(84);
    v.push(114);
    v.push(97);
    v.push(110);
    v.push(115);
    v.push(102);
    v.push(101);
    v.push(114);
    proof {
        assert(v@ =~= transfer_context_bytes());
    }
    v
}

/// The byte sequence `"CampaignTransfer"` in ASCII.
pub open spec fn transfer_context_bytes() -> Seq<u8> {
    seq![67u8, 97u8, 109u8, 112u8, 97u8, 105u8, 103u8, 110u8, 84u8, 114u8, 97u8, 110u8, 115u8, 102u8, 101u8, 114u8]
}

/// Builds a message of the given kind addressed to `to`; `from` may be left
/// for `send` to fill in.
pub fn new_message(to: u64, field_type: MessageType, from: Option<u64>) -> (m: Message)
    ensures
        m.msg_type == field_type,
        m.to == to,
        m.from == match from {
            Some(id) => id,
            None => 0,
        },
        m.term == 0,
        m.log_term == 0,
        m.index == 0,
        m.entries@.len() == 0,
        m.commit == 0,
        m.reject == false,
        m.reject_hint == 0,
        m.context@.len() == 0,
        m.snapshot.metadata.index == 0,
{
    Message {
        msg_type: field_type,
        to,
        from: match from {
            Some(id) => id,
            None => 0,
        },
        term: 0,
        log_term: 0,
        index: 0,
        entries: Vec::new(),
        commit: 0,
        snapshot: Snapshot::empty(),
        reject: false,
        reject_hint: 0,
        context: Vec::new(),
    }
}

/// Whether `t` asks for a vote, now or in a pre-vote round.
pub open spec fn is_vote_msg(t: MessageType) -> bool {
    t == MessageType::MsgRequestVote || t == MessageType::MsgRequestPreVote
}

/// Whether `t` answers a vote request.
pub open spec fn is_vote_resp_msg(t: MessageType) -> bool {
    t == MessageType::MsgRequestVoteResponse || t == MessageType::MsgRequestPreVoteResponse
}

/// Maps vote and pre-vote message types to their corresponding responses.
pub fn vote_resp_msg_type(t: MessageType) -> (r: MessageType)
    requires
        is_vote_msg(t),
    ensures
        t == MessageType::MsgRequestVote ==> r == MessageType::MsgRequestVoteResponse,
        t == MessageType::MsgRequestPreVote ==> r == MessageType::MsgRequestPreVoteResponse,
{
    match t {
        MessageType::MsgRequestVote => MessageType::MsgRequestVoteResponse,
        MessageType::MsgRequestPreVote => MessageType::MsgRequestPreVoteResponse,
        _ => MessageType::MsgRequestVoteResponse,
    }
}

/// `b` extends `a` without touching what was already queued.
pub open spec fn msgs_extend(a: Seq<Message>, b: Seq<Message>) -> bool {
    a.len() <= b.len() && forall|i: int| 0 <= i < a.len() ==> a[i] == #[trigger] b[i]
}

/// A struct that represents the raft consensus itself.  It holds the
/// persistent and volatile state of one peer and is stepped by the driver.
pub struct Raft {
    /// The current election term.
    pub term: u64,
    /// Which peer this node voted for in `term`; 0 for none.
    pub vote: u64,
    /// The id of this node; never 0.
    pub id: u64,
    /// Committed read-index results awaiting the driver.
    pub read_states: Vec<ReadState>,
    /// The replicated log.
    pub raft_log: RaftLog,
    /// How many append batches may be in flight to one peer.
    pub max_inflight: usize,
    /// The byte budget of a single append message.
    pub max_msg_size: u64,
    /// The per-peer progress table; taken out only momentarily by
    /// `take_prs` / `set_prs`.
    pub prs: Option<ProgressSet>,
    /// The role of this node.
    pub state: StateRole,
    /// Whether this node replicates without voting.
    pub is_learner: bool,
    /// The votes collected in the current campaign.
    pub votes: VoteBook,
    /// The outbound message buffer; drained by the driver.
    pub msgs: Vec<Message>,
    /// The believed current leader; 0 for none.
    pub leader_id: u64,
    /// The target of an in-flight leadership transfer.
    pub lead_transferee: Option<u64>,
    /// A conservative upper bound on the index of any unapplied conf-change
    /// entry; gates new conf-change proposals.
    pub pending_conf_index: u64,
    /// The membership change being driven through joint consensus, if any.
    pub pending_membership_change: Option<ConfChange>,
    /// Outstanding read-index requests.
    pub read_only: ReadOnly,
    /// Ticks since the last election timeout (or leader contact).
    pub election_elapsed: usize,
    /// Ticks since the last heartbeat was broadcast; leader only.
    pub heartbeat_elapsed: usize,
    /// Whether the leader steps down when a voter quorum goes quiet.
    pub check_quorum: bool,
    /// Whether campaigns run an advisory pre-vote round first.
    pub pre_vote: bool,
    /// Whether the leader may skip broadcasting commit updates eagerly.
    pub skip_bcast_commit: bool,
    /// Whether consecutive appends to one peer may be merged in the outbox.
    pub batch_append: bool,
    /// Ticks between leader heartbeats.
    pub heartbeat_timeout: usize,
    /// Ticks a follower waits before campaigning.
    pub election_timeout: usize,
    /// The randomized election timeout drawn for this round.
    pub randomized_election_timeout: usize,
    /// The lower bound of the randomized draw.
    pub min_election_timeout: usize,
    /// The upper bound (exclusive) of the randomized draw.
    pub max_election_timeout: usize,
}

impl Raft {
    /// The progress table, which is present except inside `take_prs` /
    /// `set_prs` windows.
    pub open spec fn spec_prs(&self) -> ProgressSet {
        match self.prs {
            Some(p) => p,
            None => arbitrary(),
        }
    }

    /// The state that never changes after construction.
    pub open spec fn fixed(pre: Raft, post: Raft) -> bool {
        &&& post.id == pre.id
        &&& post.max_inflight == pre.max_inflight
        &&& post.max_msg_size == pre.max_msg_size
        &&& post.check_quorum == pre.check_quorum
        &&& post.pre_vote == pre.pre_vote
        &&& post.heartbeat_timeout == pre.heartbeat_timeout
        &&& post.election_timeout == pre.election_timeout
        &&& post.min_election_timeout == pre.min_election_timeout
        &&& post.max_election_timeout == pre.max_election_timeout
    }

    /// What every mutating operation preserves: the term never decreases and
    /// the outbox only grows by appending.
    pub open spec fn evolves(pre: Raft, post: Raft) -> bool {
        &&& post.term >= pre.term
        &&& msgs_extend(pre.msgs@, post.msgs@)
        &&& Raft::fixed(pre, post)
    }

    /// The parts of the invariant that do not involve the progress table.
    pub open spec fn wf_core(&self) -> bool {
        &&& self.raft_log.wf()
        &&& self.read_only.wf()
        &&& self.raft_log.spec_last_term() <= self.term
        &&& self.raft_log.spec_last_index() > 0 ==> self.raft_log.spec_last_term() >= 1
        &&& self.min_election_timeout < self.max_election_timeout
        &&& self.max_inflight >= 1
        &&& self.id != 0
    }

    /// The role-independent part of the invariant: the core parts, a
    /// well-formed progress table, and the coupling of a pending membership
    /// change with the joint state of the progress table.
    pub open spec fn wf_base(&self) -> bool {
        &&& self.wf_core()
        &&& self.prs is Some
        &&& self.spec_prs().wf()
        &&& self.pending_membership_change is Some == self.spec_prs().spec_in_joint()
        &&& self.spec_prs().spec_in_joint() ==> match self.spec_prs().next_conf {
            Some(c) => c.voters.items@.len() > 0,
            None => true,
        }
    }

    /// The whole invariant, preserved by every public operation.  On top of
    /// the base parts, a leader's log always ends in its own term and its
    /// configuration always has voters.
    pub open spec fn wf(&self) -> bool {
        &&& self.wf_base()
        &&& self.state == StateRole::Leader ==> {
            &&& self.raft_log.spec_last_term() == self.term
            &&& self.term >= 1
            &&& self.spec_prs().conf.voters.items@.len() > 0
        }
        &&& self.state == StateRole::Candidate ==> self.term >= 1
    }

    /// Grabs a read-only reference to the progress table.
    pub fn prs(&self) -> (r: &ProgressSet)
        requires
            self.prs is Some,
        ensures
            *r == self.spec_prs(),
    {
        match &self.prs {
            Some(p) => p,
            None => unreached(),
        }
    }

    /// Grabs a mutable reference to the progress table.
    pub fn mut_prs(&mut self) -> (r: &mut ProgressSet)
        requires
            old(self).prs is Some,
        ensures
            *r == old(self).spec_prs(),
            final(self).prs == Some(*final(r)),
            *final(self) == (Raft { prs: final(self).prs, ..*old(self) }),
    {
        match &mut self.prs {
            Some(p) => p,
            None => unreached(),
        }
    }

    /// Takes the progress table out; the node is not well formed again until
    /// `set_prs` returns it.
    pub fn take_prs(&mut self) -> (r: ProgressSet)
        requires
            old(self).prs is Some,
        ensures
            r == old(self).spec_prs(),
            *final(self) == (Raft { prs: None, ..*old(self) }),
    {
        let mut slot: Option<ProgressSet> = None;
        core::mem::swap(&mut slot, &mut self.prs);
        match slot {
            Some(p) => p,
            None => unreached(),
        }
    }

    /// Puts the progress table back.
    pub fn set_prs(&mut self, prs: ProgressSet)
        ensures
            *final(self) == (Raft { prs: Some(prs), ..*old(self) }),
    {
        self.prs = Some(prs);
    }

    /// The volatile state a driver watches.
    pub fn soft_state(&self) -> (r: SoftState)
        ensures
            r == (SoftState { leader_id: self.leader_id, raft_state: self.state }),
    {
        SoftState { leader_id: self.leader_id, raft_state: self.state }
    }

    /// The state that must be persisted before messages are shipped.
    pub fn hard_state(&self) -> (r: HardState)
        ensures
            r == (HardState { term: self.term, vote: self.vote, commit: self.raft_log.committed }),
    {
        HardState { term: self.term, vote: self.vote, commit: self.raft_log.committed }
    }

    /// Whether this leader answers reads from its lease.
    pub fn in_lease(&self) -> (r: bool)
        ensures
            r == (self.state == StateRole::Leader && self.check_quorum),
    {
        self.state == StateRole::Leader && self.check_quorum
    }

    /// How many read requests await quorum confirmation.
    pub fn pending_read_count(&self) -> (r: usize)
        ensures
            r == self.read_only.queue@.len(),
    {
        self.read_only.pending_read_count()
    }

    /// How many read results await the driver.
    pub fn ready_read_count(&self) -> (r: usize)
        ensures
            r == self.read_states@.len(),
    {
        self.read_states.len()
    }

    /// A read-only borrow of the log, which here also plays the store.
    pub fn get_store(&self) -> (r: &RaftLog)
        ensures
            *r == self.raft_log,
    {
        &self.raft_log
    }

    /// A mutable borrow of the log, which here also plays the store.
    pub fn mut_store(&mut self) -> (r: &mut RaftLog)
        ensures
            *r == old(self).raft_log,
            *final(self) == (Raft { raft_log: *final(r), ..*old(self) }),
    {
        &mut self.raft_log
    }

    /// The snapshot received from the leader and not yet applied, if any.
    pub fn get_snap(&self) -> (r: &Option<Snapshot>)
        ensures
            *r == self.raft_log.unstable_snapshot,
    {
        &self.raft_log.unstable_snapshot
    }

    /// Pins the randomized election timeout, for deterministic tests.
    pub fn set_randomized_election_timeout(&mut self, t: usize)
        requires
            old(self).min_election_timeout <= t < old(self).max_election_timeout,
        ensures
            *final(self) == (Raft { randomized_election_timeout: t, ..*old(self) }),
    {
        self.randomized_election_timeout = t;
    }

    /// The fixed election timeout in ticks.
    pub fn get_election_timeout(&self) -> (r: usize)
        ensures
            r == self.election_timeout,
    {
        self.election_timeout
    }

    /// The heartbeat timeout in ticks.
    pub fn get_heartbeat_timeout(&self) -> (r: usize)
        ensures
            r == self.heartbeat_timeout,
    {
        self.heartbeat_timeout
    }

    /// Ticks since the last heartbeat round.
    pub fn get_heartbeat_elapsed(&self) -> (r: usize)
        ensures
            r == self.heartbeat_elapsed,
    {
        self.heartbeat_elapsed
    }

    /// The election timeout drawn for the current round.
    pub fn get_randomized_election_timeout(&self) -> (r: usize)
        ensures
            r == self.randomized_election_timeout,
    {
        self.randomized_election_timeout
    }

    /// Switches eager commit broadcasting off or on.
    pub fn skip_bcast_commit(&mut self, skip: bool)
        ensures
            *final(self) == (Raft { skip_bcast_commit: skip, ..*old(self) }),
    {
        self.skip_bcast_commit = skip;
    }

    /// Switches outbox append batching off or on.
    pub fn set_batch_append(&mut self, batch_append: bool)
        ensures
            *final(self) == (Raft { batch_append, ..*old(self) }),
    {
        self.batch_append = batch_append;
    }

    /// The membership change currently driven through joint consensus.
    pub fn pending_membership_change(&self) -> (r: &Option<ConfChange>)
        ensures
            *r == self.pending_membership_change,
    {
        &self.pending_membership_change
    }

    /// The index at which the pending membership change started, if any.
    pub fn began_membership_change_at(&self) -> (r: Option<u64>)
        ensures
            r == match self.pending_membership_change {
                Some(cc) => Some(cc.start_index),
                None => None,
            },
    {
        match &self.pending_membership_change {
            Some(cc) => Some(cc.start_index),
            None => None,
        }
    }

    /// Remembers the pending membership change and keeps the conf-change
    /// gate at least at its start index.
    fn set_pending_membership_change(&mut self, change: ConfChange)
        ensures
            final(self).pending_membership_change == Some(change),
            final(self).pending_conf_index == if change.start_index > old(self).pending_conf_index {
                change.start_index
            } else {
                old(self).pending_conf_index
            },
            *final(self) == (Raft {
                pending_membership_change: Some(change),
                pending_conf_index: final(self).pending_conf_index,
                ..*old(self)
            }),
    {
        if change.start_index > self.pending_conf_index {
            self.pending_conf_index = change.start_index;
        }
        self.pending_membership_change = Some(change);
    }

    /// Forgets the pending membership change.
    fn clear_pending_membership_change(&mut self)
        ensures
            *final(self) == (Raft { pending_membership_change: None, ..*old(self) }),
    {
        self.pending_membership_change = None;
    }

    /// Whether the message kind carries the sender's current term when sent.
    pub open spec fn sends_with_term(t: MessageType) -> bool {
        !is_vote_msg(t) && !is_vote_resp_msg(t) && t != MessageType::MsgPropose && t
            != MessageType::MsgReadIndex
    }

    /// What `send` turns a queued message into: the sender is stamped, and
    /// every kind but votes, proposals and read requests carries the current
    /// term.
    pub open spec fn spec_send_fix(&self, m: Message) -> Message {
        Message {
            from: self.id,
            term: if Raft::sends_with_term(m.msg_type) {
                self.term
            } else {
                m.term
            },
            ..m
        }
    }

    /// Stamps the sender and, where the kind demands it, the term, then
    /// queues the message.  Vote traffic must already carry a campaign term.
    fn send(&mut self, m: Message)
        requires
            is_vote_msg(m.msg_type) || is_vote_resp_msg(m.msg_type) ==> m.term != 0,
            !(is_vote_msg(m.msg_type) || is_vote_resp_msg(m.msg_type)) ==> m.term == 0,
        ensures
            final(self).msgs@ == old(self).msgs@.push(old(self).spec_send_fix(m)),
            *final(self) == (Raft { msgs: final(self).msgs, ..*old(self) }),
    {
        let mut m = m;
        m.from = self.id;
        if m.msg_type == MessageType::MsgRequestVote || m.msg_type == MessageType::MsgRequestPreVote
            || m.msg_type == MessageType::MsgRequestVoteResponse || m.msg_type
            == MessageType::MsgRequestPreVoteResponse {
            // Campaign traffic always carries the term it campaigns in.
        } else {
            if m.msg_type != MessageType::MsgPropose && m.msg_type != MessageType::MsgReadIndex {
                m.term = self.term;
            }
        }
        self.msgs.push(m);
    }

    /// Issues a message telling `to` to campaign immediately.
    pub fn send_timeout_now(&mut self, to: u64)
        ensures
            final(self).msgs@.len() == old(self).msgs@.len() + 1,
            final(self).msgs@.last().msg_type == MessageType::MsgTimeoutNow,
            final(self).msgs@.last().to == to,
            msgs_extend(old(self).msgs@, final(self).msgs@),
            *final(self) == (Raft { msgs: final(self).msgs, ..*old(self) }),
    {
        let msg = new_message(to, MessageType::MsgTimeoutNow, None);
        self.send(msg);
    }

    /// Stops an in-flight leadership transfer.
    pub fn abort_leader_transfer(&mut self)
        ensures
            *final(self) == (Raft { lead_transferee: None, ..*old(self) }),
    {
        self.lead_transferee = None;
    }

    /// Whether a joint membership change is in flight.
    pub fn is_in_membership_change(&self) -> (r: bool)
        requires
            self.prs is Some,
        ensures
            r == self.spec_prs().spec_in_joint(),
    {
        self.prs().is_in_membership_change()
    }

    /// Whether the node has waited out its randomized election timeout.
    pub fn pass_election_timeout(&self) -> (r: bool)
        ensures
            r == (self.election_elapsed >= self.randomized_election_timeout),
    {
        self.election_elapsed >= self.randomized_election_timeout
    }

    /// Draws a fresh randomized election timeout from
    /// [`min_election_timeout`, `max_election_timeout`).
    pub fn reset_randomized_election_timeout(&mut self)
        requires
            old(self).min_election_timeout < old(self).max_election_timeout,
        ensures
            old(self).min_election_timeout <= final(self).randomized_election_timeout < old(self).max_election_timeout,
            *final(self) == (Raft {
                randomized_election_timeout: final(self).randomized_election_timeout,
                ..*old(self)
            }),
    {
        let timeout = random_in_range(self.min_election_timeout, self.max_election_timeout);
        self.randomized_election_timeout = timeout;
    }

    /// Whether this node may campaign: it is a voter of the current
    /// configuration.
    pub fn promotable(&self) -> (r: bool)
        requires
            self.prs is Some,
        ensures
            r == self.spec_prs().conf.voters.has(self.id),
    {
        self.prs().conf.voters.contains(self.id)
    }

    /// Records `id`'s answer to the current campaign; only the first answer
    /// of each voter counts.
    fn register_vote(&mut self, id: u64, vote: bool)
        ensures
            votes_of(final(self).votes) == if votes_of(old(self).votes).contains_key(id) {
                votes_of(old(self).votes)
            } else {
                votes_of(old(self).votes).insert(id, vote)
            },
            *final(self) == (Raft { votes: final(self).votes, ..*old(self) }),
    {
        record_vote(&mut self.votes, id, vote);
    }
}

impl Raft {
    /// Clears the campaign and timer state for a new term: the believed
    /// leader is forgotten, timers restart with a fresh randomized timeout,
    /// an in-flight transfer dies, collected votes and outstanding reads are
    /// dropped, and every peer's progress restarts probing at the end of the
    /// log.  Moving to a new term also clears the recorded vote.
    pub fn reset(&mut self, term: u64)
        requires
            old(self).wf_base(),
            term >= old(self).raft_log.spec_last_term(),
        ensures
            final(self).wf_base(),
            final(self).term == term,
            final(self).vote == if old(self).term == term {
                old(self).vote
            } else {
                0u64
            },
            final(self).leader_id == 0,
            final(self).election_elapsed == 0,
            final(self).heartbeat_elapsed == 0,
            final(self).lead_transferee is None,
            final(self).pending_conf_index == 0,
            final(self).state == old(self).state,
            final(self).msgs@ == old(self).msgs@,
            final(self).raft_log == old(self).raft_log,
            final(self).read_only.queue@.len() == 0,
            forall|x: u64| !votes_of(final(self).votes).contains_key(x),
            Raft::fixed(*old(self), *final(self)),
            final(self).pending_membership_change == old(self).pending_membership_change,
            final(self).spec_prs().conf == old(self).spec_prs().conf,
            final(self).spec_prs().next_conf == old(self).spec_prs().next_conf,
            final(self).spec_prs().ids@ == old(self).spec_prs().ids@,
            forall|x: u64|
                #[trigger] final(self).spec_prs().matched_of(x) == if x == old(self).id
                    && old(self).spec_prs().has_id(x) {
                    old(self).raft_log.spec_last_index() as u64
                } else {
                    0u64
                },
            forall|x: u64|
                old(self).spec_prs().has_id(x) ==> #[trigger] final(self).spec_prs().pr_of(
                    x,
                ).next_idx == old(self).raft_log.spec_last_index() + 1,
            old(self).min_election_timeout <= final(self).randomized_election_timeout < old(self).max_election_timeout,
            final(self).state == StateRole::Leader ==> old(self).state == StateRole::Leader,
            final(self).is_learner == old(self).is_learner,
            final(self).read_states@ == old(self).read_states@,
            final(self).skip_bcast_commit == old(self).skip_bcast_commit,
            final(self).batch_append == old(self).batch_append,
    {
        if self.term != term {
            self.term = term;
            self.vote = 0;
        }
        self.leader_id = 0;
        self.reset_randomized_election_timeout();
        self.election_elapsed = 0;
        self.heartbeat_elapsed = 0;
        self.abort_leader_transfer();
        clear_votes(&mut self.votes);
        self.pending_conf_index = 0;
        let opt = self.read_only.option;
        self.read_only = ReadOnly::new(opt);
        let last_index = self.raft_log.last_index();
        let self_id = self.id;
        let prs = self.mut_prs();
        prs.reset_progress(last_index + 1, self_id, last_index);
        proof {
            let post = self.spec_prs();
            let pre = old(self).spec_prs();
            assert forall|x: u64|
                #[trigger] post.matched_of(x) == if x == old(self).id && pre.has_id(x) {
                    old(self).raft_log.spec_last_index() as u64
                } else {
                    0u64
                } by {
                crate::progress_set::lemma_same_table(post, post, x);
                if post.has_id(x) {
                    let k = post.index_of_id(x);
                    assert(post.ids@[k] == x);
                    assert(post.prs@[k].matched == (if post.ids@[k] == self_id {
                        last_index
                    } else {
                        0u64
                    }));
                    assert(pre.has_id(x));
                } else {
                    assert(!pre.has_id(x));
                }
            }
        }
    }

    /// Converts this node to a follower at `term`, following `leader_id`.
    pub fn become_follower(&mut self, term: u64, leader_id: u64)
        requires
            old(self).wf(),
            term >= old(self).raft_log.spec_last_term(),
            term >= old(self).term,
        ensures
            final(self).wf(),
            final(self).state == StateRole::Follower,
            final(self).term == term,
            final(self).leader_id == leader_id,
            final(self).msgs@ == old(self).msgs@,
            final(self).raft_log == old(self).raft_log,
            Raft::evolves(*old(self), *final(self)),
            final(self).vote == if old(self).term == term {
                old(self).vote
            } else {
                0u64
            },
            final(self).lead_transferee is None,
            final(self).election_elapsed == 0,
            final(self).heartbeat_elapsed == 0,
            final(self).spec_prs().conf == old(self).spec_prs().conf,
            final(self).spec_prs().next_conf == old(self).spec_prs().next_conf,
            final(self).spec_prs().ids@ == old(self).spec_prs().ids@,
            final(self).pending_membership_change == old(self).pending_membership_change,
            final(self).is_learner == old(self).is_learner,
            final(self).read_states@ == old(self).read_states@,
            forall|x: u64| !votes_of(final(self).votes).contains_key(x),
            final(self).read_only.queue@.len() == 0,
    {
        self.reset(term);
        self.leader_id = leader_id;
        self.state = StateRole::Follower;
    }

    /// Converts this node to a candidate for the next term, voting for
    /// itself.
    pub fn become_candidate(&mut self)
        requires
            old(self).wf(),
            old(self).state != StateRole::Leader,
            old(self).term < u64::MAX,
        ensures
            final(self).wf(),
            final(self).state == StateRole::Candidate,
            final(self).term == old(self).term + 1,
            final(self).vote == final(self).id,
            final(self).leader_id == 0,
            final(self).msgs@ == old(self).msgs@,
            final(self).raft_log == old(self).raft_log,
            Raft::evolves(*old(self), *final(self)),
            forall|x: u64| !votes_of(final(self).votes).contains_key(x),
            final(self).election_elapsed == 0,
            final(self).heartbeat_elapsed == 0,
            final(self).spec_prs().conf == old(self).spec_prs().conf,
            final(self).spec_prs().next_conf == old(self).spec_prs().next_conf,
            final(self).pending_membership_change == old(self).pending_membership_change,
    {
        let term = self.term + 1;
        self.reset(term);
        let id = self.id;
        self.vote = id;
        self.state = StateRole::Candidate;
    }

    /// Converts this node to a pre-candidate.  The term, the recorded vote
    /// and the timers stay; only the role, the vote tally and the believed
    /// leader change.
    pub fn become_pre_candidate(&mut self)
        requires
            old(self).wf(),
            old(self).state != StateRole::Leader,
        ensures
            final(self).wf(),
            final(self).state == StateRole::PreCandidate,
            final(self).term == old(self).term,
            final(self).leader_id == 0,
            final(self).msgs@ == old(self).msgs@,
            final(self).raft_log == old(self).raft_log,
            Raft::evolves(*old(self), *final(self)),
            forall|x: u64| !votes_of(final(self).votes).contains_key(x),
            final(self).vote == old(self).vote,
            final(self).election_elapsed == old(self).election_elapsed,
            final(self).heartbeat_elapsed == old(self).heartbeat_elapsed,
            final(self).spec_prs().conf == old(self).spec_prs().conf,
            final(self).spec_prs().next_conf == old(self).spec_prs().next_conf,
            final(self).pending_membership_change == old(self).pending_membership_change,
            (*final(self) == (Raft {
                state: StateRole::PreCandidate,
                votes: final(self).votes,
                leader_id: 0,
                ..*old(self)
            })),
    {
        self.state = StateRole::PreCandidate;
        clear_votes(&mut self.votes);
        self.leader_id = 0;
    }

    /// Stamps `es` with the current term and the next free indexes, appends
    /// them to the log, records the new end in this node's own progress, and
    /// tries to advance the commit index.
    pub fn append_entry(&mut self, es: &Vec<Entry>)
        requires
            old(self).wf_base(),
            old(self).raft_log.spec_last_index() + es@.len() < u64::MAX,
            old(self).spec_prs().conf.voters.items@.len() > 0,
            es@.len() > 0 ==> old(self).term >= 1,
        ensures
            final(self).wf_base(),
            es@.len() > 0 ==> final(self).raft_log.spec_last_term() == old(self).term,
            es@.len() == 0 ==> final(self).raft_log.spec_last_term() == old(self).raft_log.spec_last_term(),
            Raft::evolves(*old(self), *final(self)),
            final(self).msgs@ == old(self).msgs@,
            final(self).term == old(self).term,
            final(self).state == old(self).state,
            final(self).leader_id == old(self).leader_id,
            final(self).raft_log.spec_last_index() == old(self).raft_log.spec_last_index()
                + es@.len(),
            final(self).raft_log.snap_index == old(self).raft_log.snap_index,
            final(self).raft_log.entries@.len() == old(self).raft_log.entries@.len() + es@.len(),
            forall|k: int|
                #![trigger es@[k]]
                0 <= k < es@.len() ==> {
                    let e = ents_view(final(self).raft_log.entries@)[old(self).raft_log.entries@.len() + k];
                    &&& e.term == old(self).term
                    &&& e.index == old(self).raft_log.spec_last_index() + 1 + k
                    &&& e.entry_type == es@[k].entry_type
                    &&& e.data == es@[k].data@
                },
            ents_view(final(self).raft_log.entries@).take(old(self).raft_log.entries@.len() as int)
                == ents_view(old(self).raft_log.entries@),
            final(self).raft_log.committed >= old(self).raft_log.committed,
            final(self).raft_log.applied == old(self).raft_log.applied,
            final(self).election_elapsed == old(self).election_elapsed,
            final(self).heartbeat_elapsed == old(self).heartbeat_elapsed,
            final(self).pending_conf_index == old(self).pending_conf_index,
            final(self).spec_prs().conf == old(self).spec_prs().conf,
            final(self).spec_prs().next_conf == old(self).spec_prs().next_conf,
            final(self).spec_prs().ids@ == old(self).spec_prs().ids@,
            final(self).pending_membership_change == old(self).pending_membership_change,
            forall|x: u64|
                #[trigger] final(self).spec_prs().matched_of(x)
                    == old(self).spec_prs().matched_of(x)
                    || final(self).spec_prs().matched_of(x)
                    <= final(self).raft_log.spec_last_index(),
            old(self).spec_prs().has_id(old(self).id) ==> {
                &&& final(self).spec_prs().pr_of(old(self).id).state == old(self).spec_prs().pr_of(
                    old(self).id,
                ).state
                &&& final(self).spec_prs().matched_of(old(self).id) == (if old(self).raft_log.spec_last_index() + es@.len() > old(self).spec_prs().matched_of(old(self).id) {
                    (old(self).raft_log.spec_last_index() + es@.len()) as u64
                } else {
                    old(self).spec_prs().matched_of(old(self).id)
                })
            },
    {
        let li = self.raft_log.last_index();
        let mut stamped: Vec<Entry> = Vec::new();
        let mut i: usize = 0;
        while i < es.len()
            invariant
                i <= es@.len(),
                li + es@.len() < u64::MAX,
                li == old(self).raft_log.spec_last_index(),
                *self == *old(self),
                old(self).wf_base(),
                stamped@.len() == i,
                forall|k: int|
                    0 <= k < i ==> {
                        let e = (#[trigger] stamped@[k])@;
                        &&& e.term == old(self).term
                        &&& e.index == li + 1 + k
                        &&& e.entry_type == es@[k].entry_type
                        &&& e.data == es@[k].data@
                    },
                forall|k: int|
                    0 <= k < i ==> (#[trigger] stamped@[k]).index == li + 1 + k,
            decreases es@.len() - i,
        {
            let mut e = es[i].dup();
            e.term = self.term;
            e.index = li + 1 + i as u64;
            stamped.push(e);
            i = i + 1;
        }
        let ghost gstamped = stamped@;
        let ghost pre_append = *self;
        let new_last = self.raft_log.append(&stamped);
        proof {
            assert forall|k: int|
                #![trigger es@[k]]
                0 <= k < es@.len() implies {
                let e = ents_view(self.raft_log.entries@)[old(self).raft_log.entries@.len() + k];
                &&& e.term == old(self).term
                &&& e.index == li + 1 + k
                &&& e.entry_type == es@[k].entry_type
                &&& e.data == es@[k].data@
            } by {
                assert(ents_view(self.raft_log.entries@)[old(self).raft_log.entries@.len() + k]
                    == ents_view(gstamped)[k]);
                assert(ents_view(gstamped)[k] == gstamped[k]@);
            }
            assert(ents_view(self.raft_log.entries@).take(
                old(self).raft_log.entries@.len() as int,
            ) =~~= ents_view(old(self).raft_log.entries@));
            if es@.len() > 0 {
                let last = self.raft_log.spec_last_index() as u64;
                assert(ents_view(self.raft_log.entries@)[old(self).raft_log.entries@.len()
                    + es@.len() - 1].term == old(self).term);
                assert(self.raft_log.entries@[self.raft_log.entries@.len() - 1]@ == ents_view(
                    self.raft_log.entries@,
                )[self.raft_log.entries@.len() - 1]);
                assert(self.raft_log.spec_last_term() == old(self).term);
            }
        }
        // Track our own acknowledgement of what we just wrote.
        let self_id = self.id;
        let prs = self.mut_prs();
        match prs.find(self_id) {
            Some(k) => {
                let p = prs.pr_at_mut(k);
                p.maybe_update(new_last);
            },
            None => {},
        }
        proof {
            assert(self.spec_prs().wf());
            assert(self.spec_prs().conf == old(self).spec_prs().conf);
            assert(self.wf_base());
            assert forall|x: u64|
                #[trigger] self.spec_prs().matched_of(x) == old(self).spec_prs().matched_of(x)
                    || self.spec_prs().matched_of(x) <= self.raft_log.spec_last_index() by {
                let a = self.spec_prs();
                let b = old(self).spec_prs();
                if a.has_id(x) {
                    let k1 = a.index_of_id(x);
                    assert(a.ids@[k1] == x);
                    assert(b.ids@[k1] == x);
                    let k2 = b.index_of_id(x);
                    assert(b.ids@[k2] == x);
                    assert(k1 == k2);
                } else {
                    assert(!b.has_id(x));
                }
            }
            if old(self).spec_prs().has_id(old(self).id) {
                let a = self.spec_prs();
                let b = old(self).spec_prs();
                let k1 = a.index_of_id(old(self).id);
                assert(a.ids@[k1] == old(self).id);
                assert(b.ids@[k1] == old(self).id);
                let k2 = b.index_of_id(old(self).id);
                assert(b.ids@[k2] == old(self).id);
                assert(k1 == k2);
                assert(a.pr_of(old(self).id) == a.prs@[k1]);
                assert(b.pr_of(old(self).id) == b.prs@[k2]);
            }
        }
        self.maybe_commit();
    }

    /// Advances the commit index to the largest log position replicated on a
    /// quorum of every active configuration, provided that entry is from the
    /// current term.  Answers whether the commit index moved: it moves
    /// exactly when that maximal index lies above the watermark and its
    /// entry carries the current term, and then it moves exactly there.
    pub fn maybe_commit(&mut self) -> (r: bool)
        requires
            old(self).wf_base(),
            old(self).spec_prs().conf.voters.items@.len() > 0,
        ensures
            final(self).wf_base(),
            Raft::evolves(*old(self), *final(self)),
            final(self).msgs@ == old(self).msgs@,
            final(self).term == old(self).term,
            final(self).state == old(self).state,
            *final(self) == (Raft { raft_log: final(self).raft_log, ..*old(self) }),
            final(self).raft_log == (RaftLog {
                committed: final(self).raft_log.committed,
                ..old(self).raft_log
            }),
            r == {
                let mci = old(self).spec_prs().spec_mci();
                mci > old(self).raft_log.committed && old(self).raft_log.spec_match(
                    mci,
                    old(self).term,
                )
            },
            r ==> final(self).raft_log.committed == old(self).spec_prs().spec_mci(),
            !r ==> final(self).raft_log.committed == old(self).raft_log.committed,
    {
        let mci = self.prs().maximal_committed_index();
        let term = self.term;
        self.raft_log.maybe_commit(mci, term)
    }

    /// Whether an unapplied conf-change entry may still be in the log.
    pub fn has_pending_conf(&self) -> (r: bool)
        ensures
            r == (self.pending_conf_index > self.raft_log.applied
                || self.pending_membership_change is Some),
    {
        self.pending_conf_index > self.raft_log.applied || match &self.pending_membership_change {
            Some(_) => true,
            None => false,
        }
    }

    /// Whether a fresh commit must be broadcast eagerly.
    pub fn should_bcast_commit(&self) -> (r: bool)
        ensures
            r == (!self.skip_bcast_commit || self.pending_conf_index > self.raft_log.applied
                || self.pending_membership_change is Some),
    {
        !self.skip_bcast_commit || self.has_pending_conf()
    }
}

impl Raft {
    /// Prepares `m` as a snapshot message for a lagging peer: the staged
    /// snapshot is attached and the peer's progress enters snapshot state.
    /// Answers whether a snapshot could actually be sent: an inactive peer
    /// or a not-yet-staged snapshot defers the attempt.
    fn prepare_send_snapshot(&mut self, m: &mut Message, pr: &mut Progress, to: u64) -> (sent:
        bool)
        requires
            old(self).raft_log.wf(),
            old(pr).wf(),
        ensures
            *final(self) == *old(self),
            final(pr).wf(),
            final(pr).matched == old(pr).matched,
            final(pr).ins.cap == old(pr).ins.cap,
            sent == (old(pr).recent_active && old(self).raft_log.stored_snapshot is Some),
            !sent ==> *final(pr) == *old(pr) && *final(m) == *old(m),
            sent ==> {
                &&& final(m).msg_type == MessageType::MsgSnapshot
                &&& final(m).to == old(m).to
                &&& final(pr).state == ProgressState::Snapshot
                &&& final(pr).next_idx == old(pr).next_idx
                &&& match old(self).raft_log.stored_snapshot {
                    Some(st) => final(m).snapshot@ == st@ && final(pr).pending_snapshot
                        == st.metadata.index,
                    None => false,
                }
            },
            final(m).term == old(m).term,
    {
        if !pr.recent_active {
            return false;
        }
        let snap = match self.raft_log.snapshot() {
            Ok(s) => s,
            Err(_) => {
                // The snapshot is temporarily unavailable; retry later.
                return false;
            },
        };
        m.msg_type = MessageType::MsgSnapshot;
        let sindex = snap.metadata.index;
        m.snapshot = snap;
        pr.become_snapshot(sindex);
        true
    }

    /// Fills `m` with an append carrying `ents` after `(next_idx - 1, term)`
    /// and accounts for the entries as sent.
    fn prepare_send_entries(&mut self, m: &mut Message, pr: &mut Progress, term: u64, ents: Vec<
        Entry,
    >)
        requires
            old(self).raft_log.wf(),
            old(pr).wf(),
            old(pr).state != ProgressState::Snapshot,
            old(pr).state == ProgressState::Replicate ==> old(pr).ins.queue@.len() < old(pr).ins.cap,
            ents@.len() > 0 ==> ents@.last().index < u64::MAX,
        ensures
            *final(self) == *old(self),
            final(pr).wf(),
            final(pr).matched == old(pr).matched,
            final(pr).ins.cap == old(pr).ins.cap,
            final(m).msg_type == MessageType::MsgAppend,
            final(m).index == old(pr).next_idx - 1,
            final(m).log_term == term,
            final(m).commit == old(self).raft_log.committed,
            final(m).to == old(m).to,
            final(m).term == old(m).term,
            ents_view(final(m).entries@) == ents_view(ents@),
            final(m).entries@.len() == ents@.len(),
            ents@.len() == 0 ==> *final(pr) == *old(pr),
            (ents@.len() > 0 && old(pr).state == ProgressState::Probe) ==> (*final(pr) == (Progress {
                paused: true,
                ..*old(pr)
            })),
            (ents@.len() > 0 && old(pr).state == ProgressState::Replicate) ==> final(pr).next_idx
                == ents@.last().index + 1 && final(pr).state == ProgressState::Replicate,
    {
        m.msg_type = MessageType::MsgAppend;
        m.index = pr.next_idx - 1;
        m.log_term = term;
        m.commit = self.raft_log.committed;
        let has = ents.len() > 0;
        let last = if has {
            ents[ents.len() - 1].index
        } else {
            0
        };
        m.entries = ents;
        if has {
            pr.update_state(last);
        }
    }

    /// Tries to merge `ents` into an append already queued for `to`; on a
    /// hit the queued message also learns the current commit index.
    fn try_batching(&mut self, to: u64, pr: &mut Progress, ents: &Vec<Entry>) -> (batched: bool)
        requires
            old(self).raft_log.wf(),
            old(pr).wf(),
            old(pr).state != ProgressState::Snapshot,
            old(pr).state == ProgressState::Replicate ==> old(pr).ins.queue@.len() < old(pr).ins.cap,
            forall|k: int| 0 <= k < ents@.len() ==> (#[trigger] ents@[k]).index < u64::MAX,
        ensures
            final(self).msgs@.len() == old(self).msgs@.len(),
            final(self).raft_log == old(self).raft_log,
            *final(self) == (Raft { msgs: final(self).msgs, ..*old(self) }),
            final(pr).wf(),
            final(pr).matched == old(pr).matched,
            final(pr).ins.cap == old(pr).ins.cap,
            !batched ==> *final(pr) == *old(pr) && final(self).msgs@ == old(self).msgs@,
            forall|k: int|
                0 <= k < final(self).msgs@.len() ==> (#[trigger] final(self).msgs@[k]).msg_type
                    == old(self).msgs@[k].msg_type && final(self).msgs@[k].to == old(self).msgs@[k].to,
            batched ==> exists|i: int|
                0 <= i < final(self).msgs@.len() && (#[trigger] final(self).msgs@[i]).msg_type
                    == MessageType::MsgAppend && final(self).msgs@[i].to == to && final(self).msgs@[i].commit == old(self).raft_log.committed,
            forall|k: int|
                0 <= k < final(self).msgs@.len() && (#[trigger] old(self).msgs@[k]).to != to
                    ==> final(self).msgs@[k] == old(self).msgs@[k],
    {
        let mut i: usize = 0;
        let n = self.msgs.len();
        while i < n
            invariant
                n == self.msgs@.len(),
                i <= n,
                old(self).raft_log.wf(),
                old(pr).wf(),
                *pr == *old(pr),
                old(pr).state != ProgressState::Snapshot,
                old(pr).state == ProgressState::Replicate ==> old(pr).ins.queue@.len() < old(pr).ins.cap,
                forall|k: int| 0 <= k < ents@.len() ==> (#[trigger] ents@[k]).index < u64::MAX,
                self.msgs@ == old(self).msgs@,
                self.raft_log == old(self).raft_log,
                *self == (Raft { msgs: self.msgs, ..*old(self) }),
            decreases n - i,
        {
            let hit = self.msgs[i].msg_type == MessageType::MsgAppend && self.msgs[i].to == to;
            if hit {
                if ents.len() > 0 {
                    let m_len = self.msgs[i].entries.len();
                    let contiguous = if m_len == 0 {
                        false
                    } else {
                        let last_idx = self.msgs[i].entries[m_len - 1].index;
                        last_idx < u64::MAX && last_idx + 1 == ents[0].index
                    };
                    if !contiguous {
                        return false;
                    }
                    let more = copy_entries(ents);
                    proof {
                        assert forall|k: int|
                            0 <= k < more@.len() implies (#[trigger] more@[k])@ == ents@[k]@ by {
                            assert(ents_view(more@)[k] == more@[k]@);
                            assert(ents_view(ents@)[k] == ents@[k]@);
                        }
                    }
                    let mut j: usize = 0;
                    while j < more.len()
                        invariant
                            i < self.msgs@.len(),
                            j <= more@.len(),
                            more@.len() >= 1,
                            old(pr).wf(),
                            *pr == *old(pr),
                            forall|k: int|
                                0 <= k < more@.len() ==> (#[trigger] more@[k])@ == ents@[k]@,
                            forall|k: int|
                                0 <= k < ents@.len() ==> (#[trigger] ents@[k]).index < u64::MAX,
                            more@.len() == ents@.len(),
                            self.msgs@.len() == old(self).msgs@.len(),
                            self.raft_log == old(self).raft_log,
                            self.msgs@[i as int].msg_type == old(self).msgs@[i as int].msg_type,
                            self.msgs@[i as int].to == old(self).msgs@[i as int].to,
                            forall|k: int|
                                0 <= k < self.msgs@.len() && k != i ==> #[trigger] self.msgs@[k]
                                    == old(self).msgs@[k],
                            self.msgs@[i as int].entries@.len() >= j,
                            j > 0 ==> (#[trigger] self.msgs@[i as int].entries@.last())@ == ents@[j
                                - 1]@,
                            *self == (Raft { msgs: self.msgs, ..*old(self) }),
                        decreases more@.len() - j,
                    {
                        let e = more[j].dup();
                        proof {
                            assert(e@ == more@[j as int]@);
                        }
                        let msg = &mut self.msgs[i];
                        msg.entries.push(e);
                        j = j + 1;
                    }
                    let msg_len = self.msgs[i].entries.len();
                    let last_idx = self.msgs[i].entries[msg_len - 1].index;
                    proof {
                        assert((self.msgs@[i as int].entries@.last())@ == ents@[ents@.len() - 1]@);
                        assert(ents@[ents@.len() - 1].index < u64::MAX);
                        assert(last_idx == ents@[ents@.len() - 1]@.index);
                    }
                    pr.update_state(last_idx);
                }
                let commit = self.raft_log.committed;
                let msg = &mut self.msgs[i];
                msg.commit = commit;
                proof {
                    assert(self.msgs@[i as int].msg_type == MessageType::MsgAppend);
                    assert(self.msgs@[i as int].to == to);
                    assert(self.msgs@[i as int].commit == old(self).raft_log.committed);
                    assert forall|k: int|
                        0 <= k < self.msgs@.len() implies (#[trigger] self.msgs@[k]).msg_type
                        == old(self).msgs@[k].msg_type && self.msgs@[k].to == old(self).msgs@[k].to by {
                        if k != i as int {
                            assert(self.msgs@[k] == old(self).msgs@[k]);
                        }
                    }
                }
                return true;
            }
            i = i + 1;
        }
        false
    }

    /// Sends a log append (or, when the needed entries are compacted away, a
    /// snapshot) to `to`, advancing its progress accounting.  A paused peer
    /// is skipped.
    pub fn send_append(&mut self, to: u64, pr: &mut Progress)
        requires
            old(self).raft_log.wf(),
            old(pr).wf(),
        ensures
            *final(self) == (Raft { msgs: final(self).msgs, ..*old(self) }),
            msgs_extend(old(self).msgs@, final(self).msgs@) || final(self).msgs@.len() == old(self).msgs@.len(),
            final(self).msgs@.len() >= old(self).msgs@.len(),
            final(pr).wf(),
            final(pr).matched == old(pr).matched,
            final(pr).ins.cap == old(pr).ins.cap,
            old(pr).spec_paused() ==> final(self).msgs@ == old(self).msgs@ && *final(pr) == *old(pr),
            (!old(pr).spec_paused() && old(self).spec_can_append(*old(pr))) ==> ({
                &&& final(self).msgs@.len() == old(self).msgs@.len() + 1
                &&& final(self).msgs@.last().msg_type == MessageType::MsgAppend
                &&& final(self).msgs@.last().to == to
                &&& final(self).msgs@.last().index == old(pr).next_idx - 1
                &&& final(self).msgs@.last().log_term == old(self).raft_log.spec_term(
                    (old(pr).next_idx - 1) as u64,
                )
                &&& final(self).msgs@.last().commit == old(self).raft_log.committed
                &&& final(self).msgs@.last().term == old(self).term
                &&& (final(self).msgs@.last().entries@.len() == 0 ==> *final(pr) == *old(pr))
                &&& (final(self).msgs@.last().entries@.len() > 0 && old(pr).state
                    == ProgressState::Probe ==> (*final(pr) == (Progress {
                    paused: true,
                    ..*old(pr)
                })))
                &&& (final(self).msgs@.last().entries@.len() > 0 && old(pr).state
                    == ProgressState::Replicate ==> final(pr).next_idx == old(pr).next_idx + final(self).msgs@.last().entries@.len() && final(pr).state == ProgressState::Replicate)
            } || {
                &&& old(self).batch_append
                &&& final(self).msgs@.len() == old(self).msgs@.len()
                &&& exists|i: int|
                    0 <= i < final(self).msgs@.len() && (#[trigger] final(self).msgs@[i]).msg_type
                        == MessageType::MsgAppend && final(self).msgs@[i].to == to && final(self).msgs@[i].commit == old(self).raft_log.committed
            }),
            (!old(pr).spec_paused() && !old(self).spec_can_append(*old(pr))) ==> (if old(pr).recent_active && old(self).raft_log.stored_snapshot is Some {
                &&& final(self).msgs@.len() == old(self).msgs@.len() + 1
                &&& final(self).msgs@.last().msg_type == MessageType::MsgSnapshot
                &&& final(self).msgs@.last().to == to
                &&& final(pr).state == ProgressState::Snapshot
                &&& match old(self).raft_log.stored_snapshot {
                    Some(st) => final(self).msgs@.last().snapshot@ == st@ && final(pr).pending_snapshot == st.metadata.index,
                    None => false,
                }
            } else {
                final(self).msgs@ == old(self).msgs@ && *final(pr) == *old(pr)
            }),
            forall|k: int|
                0 <= k < old(self).msgs@.len() && (#[trigger] old(self).msgs@[k]).to != to
                    ==> final(self).msgs@[k] == old(self).msgs@[k],
    {
        if pr.is_paused() {
            return ;
        }
        proof {
            assert(pr.state != ProgressState::Snapshot);
            assert(pr.state == ProgressState::Replicate ==> pr.ins.queue@.len() < pr.ins.cap);
        }
        if pr.next_idx < 1 {
            return ;
        }
        let prev = pr.next_idx - 1;
        let term_r = self.raft_log.term(prev);
        let ents_r = self.raft_log.entries_from(pr.next_idx, self.max_msg_size);
        let mut m = new_message(to, MessageType::MsgAppend, None);
        match (term_r, ents_r) {
            (Some(t), Some(ents)) => {
                proof {
                    let full = ents_view(self.raft_log.entries@).subrange(
                        pr.next_idx - self.raft_log.snap_index - 1,
                        self.raft_log.entries@.len() as int,
                    );
                    let fitted = full.take(
                        crate::raft_log::fit_count(full, self.max_msg_size as int),
                    );
                    if full.len() > 0 {
                        crate::raft_log::lemma_fit_more_le(
                            full.skip(1),
                            self.max_msg_size - full[0].data.len(),
                        );
                    }
                    assert(fitted.len() <= full.len());
                    assert forall|k: int|
                        0 <= k < ents@.len() implies (#[trigger] ents@[k]).index < u64::MAX
                            && ents@[k].index == pr.next_idx + k by {
                        assert(ents@[k]@ == ents_view(ents@)[k]);
                        assert(ents_view(ents@)[k] == fitted[k]);
                        assert(fitted[k] == full[k]);
                        assert(full[k] == ents_view(self.raft_log.entries@)[pr.next_idx
                            - self.raft_log.snap_index - 1 + k]);
                        assert(self.raft_log.entries@[pr.next_idx - self.raft_log.snap_index - 1
                            + k]@ == full[k]);
                    }
                }
                if self.batch_append {
                    let batched = self.try_batching(to, pr, &ents);
                    if batched {
                        return ;
                    }
                }
                proof {
                    if ents@.len() > 0 {
                        assert(ents@.last()@ == ents_view(ents@)[ents@.len() - 1]);
                    }
                }
                self.prepare_send_entries(&mut m, pr, t, ents);
                self.send(m);
            },
            _ => {
                // The log before next_idx is compacted away: fall back to a
                // snapshot.
                let sent = self.prepare_send_snapshot(&mut m, pr, to);
                if !sent {
                    return ;
                }
                self.send(m);
            },
        }
    }

    /// Sends a heartbeat to `to`.  The commit index carried never runs past
    /// what the peer is known to hold.
    fn send_heartbeat(&mut self, to: u64, matched: u64, ctx: Option<Vec<u8>>)
        ensures
            final(self).msgs@.len() == old(self).msgs@.len() + 1,
            msgs_extend(old(self).msgs@, final(self).msgs@),
            *final(self) == (Raft { msgs: final(self).msgs, ..*old(self) }),
            final(self).msgs@.last().msg_type == MessageType::MsgHeartbeat,
            final(self).msgs@.last().to == to,
            final(self).msgs@.last().term == old(self).term,
            final(self).msgs@.last().commit == vstd::math::min(
                matched as int,
                old(self).raft_log.committed as int,
            ),
            final(self).msgs@.last().context@ == (match ctx {
                Some(c) => c@,
                None => Seq::<u8>::empty(),
            }),
    {
        let mut m = new_message(to, MessageType::MsgHeartbeat, None);
        m.commit = if matched < self.raft_log.committed {
            matched
        } else {
            self.raft_log.committed
        };
        match ctx {
            Some(c) => {
                m.context = c;
            },
            None => {},
        }
        self.send(m);
    }

    /// Sends appends to every peer that is not known to be up to date.
    pub fn bcast_append(&mut self)
        requires
            old(self).wf(),
        ensures
            final(self).wf(),
            final(self).term >= old(self).term,
            final(self).msgs@.len() >= old(self).msgs@.len(),
            Raft::fixed(*old(self), *final(self)),
            final(self).term == old(self).term,
            final(self).state == old(self).state,
            final(self).leader_id == old(self).leader_id,
            final(self).raft_log == old(self).raft_log,
            final(self).msgs@.len() >= old(self).msgs@.len(),
            final(self).spec_prs().conf == old(self).spec_prs().conf,
            final(self).spec_prs().next_conf == old(self).spec_prs().next_conf,
            final(self).spec_prs().ids@ == old(self).spec_prs().ids@,
            final(self).pending_membership_change == old(self).pending_membership_change,
            forall|x: u64|
                #[trigger] final(self).spec_prs().matched_of(x) == old(self).spec_prs().matched_of(
                    x,
                ),
            final(self).read_states@ == old(self).read_states@,
            final(self).lead_transferee == old(self).lead_transferee,
            final(self).vote == old(self).vote,
            final(self).election_elapsed == old(self).election_elapsed,
            final(self).heartbeat_elapsed == old(self).heartbeat_elapsed,
            final(self).pending_conf_index == old(self).pending_conf_index,
            forall|x: u64|
                (old(self).spec_prs().has_id(x) && x != old(self).id && !(
                #[trigger] old(self).spec_prs().pr_of(x)).spec_paused() && old(self).spec_can_append(
                    old(self).spec_prs().pr_of(x),
                )) ==> exists|k: int|
                    0 <= k < final(self).msgs@.len() && (#[trigger] final(self).msgs@[k]).msg_type
                        == MessageType::MsgAppend && final(self).msgs@[k].to == x && final(self).msgs@[k].commit == old(self).raft_log.committed,
            old(self).spec_prs().has_id(old(self).id) ==> final(self).spec_prs().pr_of(old(self).id) == old(self).spec_prs().pr_of(old(self).id),
    {
        let self_id = self.id;
        let mut prs = self.take_prs();
        let ghost gprs = prs;
        let n = prs.ids.len();
        let mut i: usize = 0;
        while i < n
            invariant
                n == prs.ids@.len(),
                i <= n,
                old(self).wf(),
                prs.wf(),
                prs.ids@ == gprs.ids@,
                prs.conf == gprs.conf,
                prs.next_conf == gprs.next_conf,
                gprs == old(self).spec_prs(),
                prs.prs@.len() == gprs.prs@.len(),
                forall|k: int|
                    0 <= k < prs.prs@.len() ==> (#[trigger] prs.prs@[k]).matched
                        == gprs.prs@[k].matched && prs.prs@[k].ins.cap == gprs.prs@[k].ins.cap,
                forall|k: int| i <= k < prs.prs@.len() ==> #[trigger] prs.prs@[k] == gprs.prs@[k],
                forall|k: int|
                    0 <= k < prs.prs@.len() && gprs.ids@[k] == self_id ==> #[trigger] prs.prs@[k]
                        == gprs.prs@[k],
                self.msgs@.len() >= old(self).msgs@.len(),
                *self == (Raft { prs: None, msgs: self.msgs, ..*old(self) }),
                forall|j: int|
                    (0 <= j < i && gprs.ids@[j] != self_id && !(
                    #[trigger] gprs.prs@[j]).spec_paused() && old(self).spec_can_append(
                        gprs.prs@[j],
                    )) ==> exists|k: int|
                        0 <= k < self.msgs@.len() && (#[trigger] self.msgs@[k]).msg_type
                            == MessageType::MsgAppend && self.msgs@[k].to == gprs.ids@[j]
                            && self.msgs@[k].commit == old(self).raft_log.committed,
            decreases n - i,
        {
            let to = prs.ids[i];
            let ghost pre_msgs = self.msgs@;
            if to != self_id {
                let p = prs.pr_at_mut(i);
                self.send_append(to, p);
            }
            i = i + 1;
            proof {
                assert forall|j: int|
                    (0 <= j < i && gprs.ids@[j] != self_id && !(
                    #[trigger] gprs.prs@[j]).spec_paused() && old(self).spec_can_append(
                        gprs.prs@[j],
                    )) implies exists|k: int|
                    0 <= k < self.msgs@.len() && (#[trigger] self.msgs@[k]).msg_type
                        == MessageType::MsgAppend && self.msgs@[k].to == gprs.ids@[j]
                        && self.msgs@[k].commit == old(self).raft_log.committed by {
                    if j < i - 1 {
                        let k = choose|k: int|
                            0 <= k < pre_msgs.len() && (#[trigger] pre_msgs[k]).msg_type
                                == MessageType::MsgAppend && pre_msgs[k].to == gprs.ids@[j]
                                && pre_msgs[k].commit == old(self).raft_log.committed;
                        assert(gprs.ids@[j] != to);
                        assert(self.msgs@[k] == pre_msgs[k]);
                    } else {
                        assert(j == i - 1 && gprs.ids@[j] == to && to != self_id);
                    }
                }
            }
        }
        let ghost done_msgs = self.msgs@;
        self.set_prs(prs);
        proof {
            assert(self.msgs@ == done_msgs);
            assert forall|x: u64|
                (old(self).spec_prs().has_id(x) && x != old(self).id && !(
                #[trigger] old(self).spec_prs().pr_of(x)).spec_paused()
                    && old(self).spec_can_append(old(self).spec_prs().pr_of(x))) implies exists|
                k: int,
            |
                0 <= k < self.msgs@.len() && (#[trigger] self.msgs@[k]).msg_type
                    == MessageType::MsgAppend && self.msgs@[k].to == x && self.msgs@[k].commit
                    == old(self).raft_log.committed by {
                let j = gprs.index_of_id(x);
                assert(0 <= j < gprs.ids@.len());
                assert(gprs.ids@[j] == x);
                assert(gprs.pr_of(x) == gprs.prs@[j]);
                assert(!gprs.prs@[j].spec_paused());
                assert(old(self).spec_can_append(gprs.prs@[j]));
                assert(gprs.ids@[j] != self_id);
                let k = choose|k: int|
                    0 <= k < done_msgs.len() && (#[trigger] done_msgs[k]).msg_type
                        == MessageType::MsgAppend && done_msgs[k].to == gprs.ids@[j]
                        && done_msgs[k].commit == old(self).raft_log.committed;
                assert(0 <= k < self.msgs@.len());
                assert(self.msgs@[k].msg_type == MessageType::MsgAppend);
                assert(self.msgs@[k].to == x);
            }
            if old(self).spec_prs().has_id(old(self).id) {
                let a = self.spec_prs();
                let b = old(self).spec_prs();
                let k1 = a.index_of_id(old(self).id);
                assert(a.ids@[k1] == old(self).id);
                assert(b.ids@[k1] == old(self).id);
                let k2 = b.index_of_id(old(self).id);
                assert(b.ids@[k2] == old(self).id);
                assert(k1 == k2);
                assert(a.prs@[k1] == b.prs@[k1]);
            }
        }
        proof {
            assert forall|x: u64|
                #[trigger] self.spec_prs().matched_of(x) == old(self).spec_prs().matched_of(
                x,
            ) by {
                let a = self.spec_prs();
                let b = old(self).spec_prs();
                if a.has_id(x) {
                    let k1 = a.index_of_id(x);
                    assert(a.ids@[k1] == x);
                    assert(b.ids@[k1] == x);
                    assert(b.has_id(x));
                    let k2 = b.index_of_id(x);
                    assert(b.ids@[k2] == x);
                    assert(k1 == k2);
                } else {
                    if b.has_id(x) {
                        let k2 = b.index_of_id(x);
                        assert(b.ids@[k2] == x);
                        assert(a.ids@[k2] == x);
                    }
                }
            }
        }
    }

    /// Broadcasts a heartbeat round, tagging it with the oldest pending
    /// read-index request: every other tracked peer gets one heartbeat whose
    /// commit never runs past what that peer is known to hold.
    pub fn bcast_heartbeat(&mut self)
        requires
            old(self).wf(),
        ensures
            final(self).wf(),
            Raft::evolves(*old(self), *final(self)),
            final(self).term == old(self).term,
            final(self).state == old(self).state,
            final(self).raft_log == old(self).raft_log,
            final(self).spec_prs() == old(self).spec_prs(),
            final(self).pending_membership_change == old(self).pending_membership_change,
            final(self).leader_id == old(self).leader_id,
            final(self).read_states@ == old(self).read_states@,
            final(self).lead_transferee == old(self).lead_transferee,
            final(self).vote == old(self).vote,
            final(self).election_elapsed == old(self).election_elapsed,
            final(self).heartbeat_elapsed == old(self).heartbeat_elapsed,
            forall|x: u64|
                #[trigger] final(self).spec_prs().matched_of(x) == old(self).spec_prs().matched_of(x),
            final(self).msgs@.len() == old(self).msgs@.len() + crate::idset::count_where(
                old(self).spec_prs().ids@,
                |v: u64| v != old(self).id,
            ),
            forall|k: int|
                old(self).msgs@.len() <= k < final(self).msgs@.len()
                    ==> (#[trigger] final(self).msgs@[k]).msg_type == MessageType::MsgHeartbeat
                    && final(self).msgs@[k].term == old(self).term,
            forall|x: u64|
                old(self).spec_prs().has_id(x) && x != old(self).id ==> exists|k: int|
                    old(self).msgs@.len() <= k < final(self).msgs@.len()
                        && (#[trigger] final(self).msgs@[k]).to == x && final(self).msgs@[k].commit
                        == vstd::math::min(
                        old(self).spec_prs().matched_of(x) as int,
                        old(self).raft_log.committed as int,
                    ),
    {
        let ctx = self.read_only.last_pending_request_ctx();
        self.bcast_heartbeat_with_ctx(ctx)
    }

    /// Broadcasts a heartbeat round carrying `ctx` as the read-index tag:
    /// every other tracked peer gets one heartbeat whose commit never runs
    /// past what that peer is known to hold.
    fn bcast_heartbeat_with_ctx(&mut self, ctx: Option<Vec<u8>>)
        requires
            old(self).wf(),
        ensures
            final(self).wf(),
            Raft::evolves(*old(self), *final(self)),
            final(self).term == old(self).term,
            final(self).state == old(self).state,
            final(self).raft_log == old(self).raft_log,
            final(self).spec_prs() == old(self).spec_prs(),
            final(self).pending_membership_change == old(self).pending_membership_change,
            final(self).leader_id == old(self).leader_id,
            final(self).read_states@ == old(self).read_states@,
            final(self).read_only == old(self).read_only,
            final(self).lead_transferee == old(self).lead_transferee,
            final(self).vote == old(self).vote,
            final(self).election_elapsed == old(self).election_elapsed,
            final(self).heartbeat_elapsed == old(self).heartbeat_elapsed,
            forall|x: u64|
                #[trigger] final(self).spec_prs().matched_of(x)
                    == old(self).spec_prs().matched_of(x),
            final(self).msgs@.len() == old(self).msgs@.len() + crate::idset::count_where(
                old(self).spec_prs().ids@,
                |v: u64| v != old(self).id,
            ),
            forall|k: int|
                old(self).msgs@.len() <= k < final(self).msgs@.len()
                    ==> (#[trigger] final(self).msgs@[k]).msg_type == MessageType::MsgHeartbeat
                    && final(self).msgs@[k].term == old(self).term && final(self).msgs@[k].context@
                    == (match ctx {
                    Some(c) => c@,
                    None => Seq::<u8>::empty(),
                }),
            forall|x: u64|
                old(self).spec_prs().has_id(x) && x != old(self).id ==> exists|k: int|
                    old(self).msgs@.len() <= k < final(self).msgs@.len()
                        && (#[trigger] final(self).msgs@[k]).to == x && final(self).msgs@[k].commit
                        == vstd::math::min(
                        old(self).spec_prs().matched_of(x) as int,
                        old(self).raft_log.committed as int,
                    ),
    {
        let self_id = self.id;
        let prs = self.take_prs();
        let n = prs.ids.len();
        let mut i: usize = 0;
        while i < n
            invariant
                n == prs.ids@.len(),
                i <= n,
                old(self).wf(),
                prs == old(self).spec_prs(),
                self_id == old(self).id,
                msgs_extend(old(self).msgs@, self.msgs@),
                self.msgs@.len() == old(self).msgs@.len() + crate::idset::count_where(
                    prs.ids@.take(i as int),
                    |v: u64| v != old(self).id,
                ),
                forall|k: int|
                    old(self).msgs@.len() <= k < self.msgs@.len()
                        ==> (#[trigger] self.msgs@[k]).msg_type == MessageType::MsgHeartbeat
                        && self.msgs@[k].term == old(self).term && self.msgs@[k].context@ == (
                        match ctx {
                        Some(c) => c@,
                        None => Seq::<u8>::empty(),
                    }),
                forall|j: int|
                    0 <= j < i && prs.ids@[j] != old(self).id ==> exists|k: int|
                        old(self).msgs@.len() <= k < self.msgs@.len() && (#[trigger] self.msgs@[
                            k
                        ]).to == prs.ids@[j] && self.msgs@[k].commit == vstd::math::min(
                            prs.matched_of(prs.ids@[j]) as int,
                            old(self).raft_log.committed as int,
                        ),
                *self == (Raft { prs: None, msgs: self.msgs, ..*old(self) }),
            decreases n - i,
        {
            let ghost pre_len = self.msgs@.len();
            let ghost pre_msgs = self.msgs@;
            proof {
                crate::idset::lemma_count_take_succ(prs.ids@, |v: u64| v != old(self).id, i as int);
            }
            let to = prs.ids[i];
            if to != self_id {
                let matched = prs.pr_at(i).matched;
                proof {
                    let k2 = prs.index_of_id(prs.ids@[i as int]);
                    assert(prs.ids@[k2] == prs.ids@[i as int]);
                    assert(k2 == i as int);
                    assert(matched == prs.matched_of(prs.ids@[i as int]));
                }
                let c = match &ctx {
                    Some(c) => Some(copy_bytes(c)),
                    None => None,
                };
                self.send_heartbeat(to, matched, c);
                proof {
                    assert(self.msgs@ == pre_msgs.push(self.msgs@[pre_len as int]));
                    assert forall|j: int|
                        0 <= j < i + 1 && prs.ids@[j] != old(self).id implies exists|k: int|
                        old(self).msgs@.len() <= k < self.msgs@.len() && (#[trigger] self.msgs@[
                            k
                        ]).to == prs.ids@[j] && self.msgs@[k].commit == vstd::math::min(
                            prs.matched_of(prs.ids@[j]) as int,
                            old(self).raft_log.committed as int,
                        ) by {
                        if j < i {
                            let k0 = choose|k0: int|
                                old(self).msgs@.len() <= k0 < pre_len && (#[trigger] pre_msgs[
                                    k0
                                ]).to == prs.ids@[j] && pre_msgs[k0].commit == vstd::math::min(
                                    prs.matched_of(prs.ids@[j]) as int,
                                    old(self).raft_log.committed as int,
                                );
                            assert(self.msgs@[k0] == pre_msgs[k0]);
                        } else {
                            assert(self.msgs@[pre_len as int].to == prs.ids@[j]);
                        }
                    }
                }
            }
            i = i + 1;
        }
        proof {
            assert(prs.ids@.take(n as int) =~= prs.ids@);
            assert forall|x: u64|
                old(self).spec_prs().has_id(x) && x != old(self).id implies exists|k: int|
                old(self).msgs@.len() <= k < self.msgs@.len() && (#[trigger] self.msgs@[k]).to == x
                    && self.msgs@[k].commit == vstd::math::min(
                    old(self).spec_prs().matched_of(x) as int,
                    old(self).raft_log.committed as int,
                ) by {
                let j = choose|j: int| 0 <= j < prs.ids@.len() && prs.ids@[j] == x;
                assert(prs.ids@[j] != old(self).id);
            }
        }
        self.set_prs(prs);
    }

    /// Appends the entry that finalizes the pending membership change and
    /// replicates it.
    fn append_finalize_conf_change_entry(&mut self)
        requires
            old(self).wf(),
            old(self).state == StateRole::Leader,
            old(self).raft_log.spec_last_index() + 1 < u64::MAX,
        ensures
            final(self).wf(),
            final(self).term >= old(self).term,
            final(self).msgs@.len() >= old(self).msgs@.len(),
            Raft::fixed(*old(self), *final(self)),
            final(self).term == old(self).term,
            final(self).state == StateRole::Leader,
            final(self).leader_id == old(self).leader_id,
            final(self).raft_log.spec_last_index() == old(self).raft_log.spec_last_index() + 1,
            final(self).spec_prs().conf == old(self).spec_prs().conf,
            final(self).spec_prs().next_conf == old(self).spec_prs().next_conf,
            final(self).pending_membership_change == old(self).pending_membership_change,
            final(self).raft_log.applied == old(self).raft_log.applied,
            final(self).election_elapsed == old(self).election_elapsed,
            final(self).heartbeat_elapsed == old(self).heartbeat_elapsed,
            final(self).pending_conf_index == old(self).pending_conf_index,
            forall|x: u64|
                #[trigger] final(self).spec_prs().matched_of(x)
                    == old(self).spec_prs().matched_of(x)
                    || final(self).spec_prs().matched_of(x)
                    <= final(self).raft_log.spec_last_index(),
            ents_view(final(self).raft_log.entries@).last().entry_type
                == EntryType::EntryConfChange,
            final(self).raft_log.snap_index == old(self).raft_log.snap_index,
            final(self).raft_log.entries@.len() == old(self).raft_log.entries@.len() + 1,
            ents_view(final(self).raft_log.entries@).take(
                old(self).raft_log.entries@.len() as int,
            ) == ents_view(old(self).raft_log.entries@),
            final(self).raft_log.spec_last_term() == old(self).term,
            final(self).spec_prs().ids@ == old(self).spec_prs().ids@,
            old(self).spec_prs().has_id(old(self).id) ==> final(self).spec_prs().pr_of(
                old(self).id,
            ).state == old(self).spec_prs().pr_of(old(self).id).state && final(self).spec_prs().matched_of(old(self).id) == (if old(self).raft_log.spec_last_index() + 1 > old(self).spec_prs().matched_of(old(self).id) {
                (old(self).raft_log.spec_last_index() + 1) as u64
            } else {
                old(self).spec_prs().matched_of(old(self).id)
            }),
    {
        let cc = ConfChange {
            change_type: ConfChangeType::FinalizeMembershipChange,
            node_id: 0,
            configuration: None,
            start_index: 0,
        };
        let data = crate::codec::encode_conf_change(&cc);
        let mut e = Entry::empty();
        e.entry_type = EntryType::EntryConfChange;
        e.data = data;
        let mut v: Vec<Entry> = Vec::new();
        v.push(e);
        proof {
            assert(v@[0].entry_type == EntryType::EntryConfChange);
        }
        self.append_entry(&v);
        proof {
            assert(v@[0].entry_type == EntryType::EntryConfChange);
            assert(self.raft_log.entries@.len() == old(self).raft_log.entries@.len() + 1);
            assert(ents_view(self.raft_log.entries@).last().entry_type
                == EntryType::EntryConfChange);
        }
        let ghost mid_fin = *self;
        self.bcast_append();
        proof {
            assert forall|x: u64|
                #[trigger] self.spec_prs().matched_of(x) == old(self).spec_prs().matched_of(x)
                    || self.spec_prs().matched_of(x) <= self.raft_log.spec_last_index() by {
                assert(self.spec_prs().matched_of(x) == mid_fin.spec_prs().matched_of(x));
            }
        }
    }

    /// Makes this node the leader of its term: its own progress enters
    /// replicate state, the conf-change gate moves to the end of the log,
    /// and the term-opening blank entry is appended.  A leader recovering in
    /// the middle of a committed membership change also re-appends the
    /// finalizing entry, which a term change would otherwise lose.
    pub fn become_leader(&mut self)
        requires
            old(self).wf(),
            old(self).state != StateRole::Follower,
            old(self).term >= 1,
            old(self).raft_log.spec_last_index() + 2 < u64::MAX,
            old(self).spec_prs().conf.voters.items@.len() > 0,
        ensures
            final(self).wf(),
            final(self).term >= old(self).term,
            final(self).msgs@.len() >= old(self).msgs@.len(),
            Raft::fixed(*old(self), *final(self)),
            final(self).state == StateRole::Leader,
            final(self).term == old(self).term,
            final(self).leader_id == final(self).id,
            final(self).raft_log.spec_last_term() == old(self).term,
            final(self).raft_log.spec_last_index() >= old(self).raft_log.spec_last_index() + 1,
            ents_view(final(self).raft_log.entries@)[old(self).raft_log.entries@.len() as int].term
                == old(self).term,
            ents_view(final(self).raft_log.entries@)[old(self).raft_log.entries@.len() as int].entry_type == EntryType::EntryNormal,
            ents_view(final(self).raft_log.entries@)[old(self).raft_log.entries@.len() as int].data.len() == 0,
            final(self).spec_prs().conf == old(self).spec_prs().conf,
            final(self).spec_prs().next_conf == old(self).spec_prs().next_conf,
            final(self).pending_membership_change == old(self).pending_membership_change,
            Raft::matched_bounded(*final(self)),
            final(self).election_elapsed == 0,
            final(self).heartbeat_elapsed == 0,
            final(self).pending_conf_index == old(self).raft_log.spec_last_index(),
            old(self).pending_membership_change is None ==> final(self).raft_log.spec_last_index()
                == old(self).raft_log.spec_last_index() + 1,
            final(self).raft_log.spec_last_index() == old(self).raft_log.spec_last_index() + 1 || (
            old(self).pending_membership_change is Some && final(self).raft_log.spec_last_index()
                == old(self).raft_log.spec_last_index() + 2 && ents_view(
                final(self).raft_log.entries@,
            ).last().entry_type == EntryType::EntryConfChange),
            old(self).spec_prs().has_id(old(self).id) ==> final(self).spec_prs().pr_of(
                old(self).id,
            ).state == ProgressState::Replicate && final(self).spec_prs().matched_of(old(self).id)
                == final(self).raft_log.spec_last_index(),
    {
        let term = self.term;
        self.reset(term);
        self.leader_id = self.id;
        self.state = StateRole::Leader;

        let ghost after_reset = *self;
        // The leader is trivially replicating to itself.
        let id = self.id;
        let prs = self.mut_prs();
        match prs.find(id) {
            Some(k) => {
                let p = prs.pr_at_mut(k);
                p.become_replicate();
            },
            None => {},
        }
        proof {
            assert(self.spec_prs().wf());
            assert forall|x: u64|
                #[trigger] self.spec_prs().matched_of(x) <= old(self).raft_log.spec_last_index() by {
                let a = self.spec_prs();
                let b = after_reset.spec_prs();
                if a.has_id(x) {
                    let k1 = a.index_of_id(x);
                    assert(a.ids@[k1] == x);
                    assert(b.ids@[k1] == x);
                    let k2 = b.index_of_id(x);
                    assert(b.ids@[k2] == x);
                    assert(k1 == k2);
                    assert(a.prs@[k1].matched == b.prs@[k1].matched);
                    assert(b.matched_of(x) <= old(self).raft_log.spec_last_index());
                } else {
                    assert(!b.has_id(x));
                }
            }
        }

        // Hold conf-change proposals until everything this term inherited is
        // committed.
        self.pending_conf_index = self.raft_log.last_index();

        let mut noop: Vec<Entry> = Vec::new();
        let blank = Entry::empty();
        proof {
            assert(blank.entry_type == EntryType::EntryNormal);
            assert(blank.data@.len() == 0);
        }
        noop.push(blank);
        let ghost pre_noop = *self;
        self.append_entry(&noop);
        proof {
            assert(self.wf());
            assert(Raft::matched_bounded(*self)) by {
                assert forall|x: u64|
                    #[trigger] self.spec_prs().matched_of(x)
                        <= self.raft_log.spec_last_index() by {
                    assert(self.spec_prs().matched_of(x) == pre_noop.spec_prs().matched_of(x)
                        || self.spec_prs().matched_of(x) <= self.raft_log.spec_last_index());
                }
            }
            assert(noop@[0] == blank);
            assert(self.raft_log.entries@.len() == old(self).raft_log.entries@.len() + 1);
            let at = old(self).raft_log.entries@.len() as int;
            assert(ents_view(self.raft_log.entries@)[at].term == old(self).term);
            assert(ents_view(self.raft_log.entries@)[at].entry_type == EntryType::EntryNormal);
            assert(ents_view(self.raft_log.entries@)[at].data.len() == 0);
        }
        let ghost mid = *self;

        // A recovering leader might have to finalize a membership change
        // whose finalize entry was lost to the term change.
        let start = match &self.pending_membership_change {
            Some(cc) => Some(cc.start_index),
            None => None,
        };
        let ghost pre_fin = *self;
        match start {
            Some(index) => {
                if index <= self.raft_log.committed {
                    self.append_finalize_conf_change_entry();
                    proof {
                        assert(Raft::matched_bounded(*self)) by {
                            assert forall|x: u64|
                                #[trigger] self.spec_prs().matched_of(x)
                                    <= self.raft_log.spec_last_index() by {
                                assert(self.spec_prs().matched_of(x)
                                    == pre_fin.spec_prs().matched_of(x)
                                    || self.spec_prs().matched_of(x)
                                    <= self.raft_log.spec_last_index());
                            }
                        }
                        let at = old(self).raft_log.entries@.len() as int;
                        assert(ents_view(self.raft_log.entries@).take(
                            mid.raft_log.entries@.len() as int,
                        ) == ents_view(mid.raft_log.entries@));
                        assert(ents_view(self.raft_log.entries@).take(
                            mid.raft_log.entries@.len() as int,
                        )[at] == ents_view(self.raft_log.entries@)[at]);
                        assert(ents_view(self.raft_log.entries@)[at] == ents_view(
                            mid.raft_log.entries@,
                        )[at]);
                    }
                }
            },
            None => {},
        }
    }
}

impl Raft {
    /// Starts a campaign of the given kind: a pre-vote round leaves the term
    /// alone, a real or transfer election opens the next term.  The node
    /// votes for itself; if that alone is a quorum it advances immediately,
    /// otherwise every other voter gets a request carrying the candidate
    /// log's credentials.
    pub fn campaign(&mut self, campaign_type: CampaignType)
        requires
            old(self).wf(),
            old(self).state != StateRole::Leader,
            old(self).term < u64::MAX,
            old(self).raft_log.spec_last_index() + 2 < u64::MAX,
        ensures
            final(self).wf(),
            final(self).term >= old(self).term,
            final(self).msgs@.len() >= old(self).msgs@.len(),
            Raft::fixed(*old(self), *final(self)),
            final(self).state != StateRole::Follower,
            Raft::campaign_settled(*final(self)),
            Raft::matched_bounded(*final(self)),
            Raft::leader_self(*final(self)),
            Raft::spec_solo_elected(*old(self)) ==> final(self).state == StateRole::Leader
                && final(self).term == old(self).term + 1 && final(self).election_elapsed == 0,
            (campaign_type == CampaignType::PreElection && !Raft::spec_solo_elected(*old(self)))
                ==> final(self).state == StateRole::PreCandidate && final(self).term == old(self).term && final(self).vote == old(self).vote && final(self).election_elapsed == old(self).election_elapsed,
            (campaign_type != CampaignType::PreElection && !Raft::spec_solo_elected(*old(self)))
                ==> final(self).state == StateRole::Candidate && final(self).term == old(self).term + 1 && final(self).vote == final(self).id && final(self).election_elapsed == 0,
            !Raft::spec_solo_elected(*old(self)) ==> {
                &&& final(self).msgs@.len() == old(self).msgs@.len() + crate::idset::count_where(
                    old(self).spec_prs().conf.voters.items@,
                    |v: u64| v != old(self).id,
                )
                &&& forall|k: int|
                    old(self).msgs@.len() <= k < final(self).msgs@.len() ==> {
                        let msg = #[trigger] final(self).msgs@[k];
                        &&& msg.msg_type == (if campaign_type == CampaignType::PreElection {
                            MessageType::MsgRequestPreVote
                        } else {
                            MessageType::MsgRequestVote
                        })
                        &&& msg.term == old(self).term + 1
                        &&& msg.index == old(self).raft_log.spec_last_index()
                        &&& msg.log_term == old(self).raft_log.spec_last_term()
                        &&& msg.from == old(self).id
                        &&& (campaign_type == CampaignType::Transfer ==> msg.context@
                            == transfer_context_bytes())
                    }
                &&& forall|v: u64|
                    old(self).spec_prs().conf.voters.has(v) && v != old(self).id
                        ==> exists|k: int|
                        old(self).msgs@.len() <= k < final(self).msgs@.len()
                            && (#[trigger] final(self).msgs@[k]).to == v
            },
        decreases (if campaign_type == CampaignType::PreElection {
            1int
        } else {
            0int
        }),
    {
        let vote_msg;
        let term;
        if campaign_type == CampaignType::PreElection {
            self.become_pre_candidate();
            vote_msg = MessageType::MsgRequestPreVote;
            term = self.term + 1;
        } else {
            self.become_candidate();
            vote_msg = MessageType::MsgRequestVote;
            term = self.term;
        }
        let self_id = self.id;
        self.register_vote(self_id, true);
        proof {
            assert(votes_of(self.votes) =~= Raft::spec_solo_votes(old(self).id));
            assert(self.spec_prs().conf == old(self).spec_prs().conf);
            assert(self.spec_prs().next_conf == old(self).spec_prs().next_conf);
            assert(self.spec_prs().spec_elected(votes_of(self.votes)) == Raft::spec_solo_elected(
                *old(self),
            ));
        }
        let status = self.prs().candidacy_status(&self.votes);
        if status == CandidacyStatus::Elected {
            // Voting for ourselves was already a quorum: a single-voter
            // cluster advances on the spot.
            proof {
                crate::idset::lemma_count_le_len(
                    self.spec_prs().conf.voters.items@,
                    |v: u64|
                        crate::progress_set::vote_granted(votes_of(self.votes), v),
                );
            }
            if campaign_type == CampaignType::PreElection {
                proof {
                    assert(Raft::spec_solo_elected(*self)) by {
                        assert(votes_of(self.votes) =~= Raft::spec_solo_votes(self.id));
                    }
                }
                self.campaign(CampaignType::Election);
            } else {
                self.become_leader();
            }
            return ;
        }
        let li = self.raft_log.last_index();
        let lt = self.raft_log.last_term();
        let ghost pre_take = *self;
        let prs = self.take_prs();
        let n = prs.conf.voters.items.len();
        let mut i: usize = 0;
        while i < n
            invariant
                n == prs.conf.voters.items@.len(),
                i <= n,
                pre_take.wf(),
                pre_take.term >= old(self).term,
                Raft::fixed(*old(self), pre_take),
                pre_take.state == StateRole::Candidate || pre_take.state
                    == StateRole::PreCandidate,
                campaign_type == CampaignType::PreElection ==> pre_take.state
                    == StateRole::PreCandidate && pre_take.term == old(self).term
                    && pre_take.vote == old(self).vote && pre_take.election_elapsed == old(self).election_elapsed,
                campaign_type != CampaignType::PreElection ==> pre_take.state
                    == StateRole::Candidate && pre_take.term == old(self).term + 1
                    && pre_take.vote == pre_take.id && pre_take.election_elapsed == 0,
                pre_take.msgs@ == old(self).msgs@,
                prs == pre_take.spec_prs(),
                prs.conf.voters.items@ == old(self).spec_prs().conf.voters.items@,
                term == old(self).term + 1,
                li == old(self).raft_log.spec_last_index(),
                lt == old(self).raft_log.spec_last_term(),
                self_id == old(self).id,
                vote_msg == (if campaign_type == CampaignType::PreElection {
                    MessageType::MsgRequestPreVote
                } else {
                    MessageType::MsgRequestVote
                }),
                self.msgs@.len() == old(self).msgs@.len() + crate::idset::count_where(
                    prs.conf.voters.items@.take(i as int),
                    |v: u64| v != old(self).id,
                ),
                forall|k: int|
                    old(self).msgs@.len() <= k < self.msgs@.len() ==> {
                        let msg = #[trigger] self.msgs@[k];
                        &&& msg.msg_type == vote_msg
                        &&& msg.term == old(self).term + 1
                        &&& msg.index == old(self).raft_log.spec_last_index()
                        &&& msg.log_term == old(self).raft_log.spec_last_term()
                        &&& msg.from == old(self).id
                        &&& (campaign_type == CampaignType::Transfer ==> msg.context@
                            == transfer_context_bytes())
                    },
                forall|j: int|
                    0 <= j < i && prs.conf.voters.items@[j] != old(self).id ==> exists|k: int|
                        old(self).msgs@.len() <= k < self.msgs@.len() && (#[trigger] self.msgs@[
                            k
                        ]).to == prs.conf.voters.items@[j],
                *self == (Raft { prs: None, msgs: self.msgs, ..pre_take }),
            decreases n - i,
        {
            let ghost pre_len = self.msgs@.len();
            let ghost pre_msgs = self.msgs@;
            proof {
                crate::idset::lemma_count_take_succ(
                    prs.conf.voters.items@,
                    |v: u64| v != old(self).id,
                    i as int,
                );
            }
            let to = prs.conf.voters.items[i];
            if to != self_id {
                let mut m = new_message(to, vote_msg, None);
                m.term = term;
                m.index = li;
                m.log_term = lt;
                if campaign_type == CampaignType::Transfer {
                    m.context = campaign_transfer_context();
                }
                self.send(m);
                proof {
                    assert(self.msgs@ == pre_msgs.push(self.msgs@[pre_len as int]));
                    assert(self.msgs@[pre_len as int].to == to);
                    assert forall|j: int|
                        0 <= j < i + 1 && prs.conf.voters.items@[j] != old(self).id implies exists|
                        k: int,
                    |
                        old(self).msgs@.len() <= k < self.msgs@.len() && (#[trigger] self.msgs@[
                            k
                        ]).to == prs.conf.voters.items@[j] by {
                        if j < i {
                            let k0 = choose|k0: int|
                                old(self).msgs@.len() <= k0 < pre_len && (#[trigger] pre_msgs[
                                    k0
                                ]).to == prs.conf.voters.items@[j];
                            assert(pre_msgs[k0].to == prs.conf.voters.items@[j]);
                            assert(self.msgs@[k0] == pre_msgs[k0]);
                            assert(self.msgs@[k0].to == prs.conf.voters.items@[j]);
                        } else {
                            assert(self.msgs@[pre_len as int].to == prs.conf.voters.items@[j]);
                        }
                    }
                }
            }
            i = i + 1;
        }
        proof {
            assert(prs.conf.voters.items@.take(n as int) =~= prs.conf.voters.items@);
            assert forall|v: u64|
                old(self).spec_prs().conf.voters.has(v) && v != old(self).id implies exists|k: int|
                old(self).msgs@.len() <= k < self.msgs@.len() && (#[trigger] self.msgs@[k]).to
                    == v by {
                let j = choose|j: int|
                    0 <= j < prs.conf.voters.items@.len() && prs.conf.voters.items@[j] == v;
                assert(prs.conf.voters.items@[j] != old(self).id);
            }
        }
        self.set_prs(prs);
    }

    /// The machine limits a message must respect before `step` can take it:
    /// index arithmetic on appends, snapshots and campaign bookkeeping must
    /// not run off the end of the integers, vote traffic must carry a term,
    /// proposals and read requests must carry their payload, and a heartbeat
    /// may not claim commits this log has never seen.
    pub open spec fn msg_fits(&self, m: Message) -> bool {
        &&& m.msg_type == MessageType::MsgPropose ==> m.entries@.len() >= 1
            && self.raft_log.spec_last_index() + m.entries@.len() < u64::MAX && m.term == 0
        &&& is_vote_msg(m.msg_type) ==> m.term >= 1
        &&& m.msg_type == MessageType::MsgHeartbeat && m.term >= self.term ==> m.commit
            <= self.raft_log.spec_last_index()
        &&& m.msg_type == MessageType::MsgAppend ==> {
            &&& forall|k: int|
                0 <= k < m.entries@.len() ==> (#[trigger] m.entries@[k]).index == m.index + 1 + k
            &&& m.index + m.entries@.len() < u64::MAX
            &&& m.term >= self.term ==> forall|k: int|
                0 <= k < m.entries@.len() ==> (#[trigger] m.entries@[k]).term <= m.term
        }
        &&& m.msg_type == MessageType::MsgSnapshot ==> {
            &&& m.snapshot.metadata.index < u64::MAX
            &&& m.term >= self.term ==> m.snapshot.metadata.term <= m.term
            &&& m.snapshot.metadata.conf_state.nodes@.len() > 0
            &&& (m.snapshot.metadata.pending_membership_change is Some
                && m.snapshot.metadata.pending_membership_change_index > 0)
                ==> match m.snapshot.metadata.pending_membership_change {
                Some(cs) => cs.nodes@.len() > 0,
                None => false,
            }
        }
        &&& m.msg_type == MessageType::MsgAppendResponse ==> m.index < u64::MAX
            && m.reject_hint < u64::MAX
        &&& (m.msg_type == MessageType::MsgHup || m.msg_type == MessageType::MsgTimeoutNow
            || is_vote_resp_msg(m.msg_type)) ==> self.term < u64::MAX
            && self.raft_log.spec_last_index() + 2 < u64::MAX
        &&& m.msg_type == MessageType::MsgTimeoutNow ==> m.term < u64::MAX
        &&& m.msg_type == MessageType::MsgReadIndex ==> m.entries@.len() == 1 && m.term == 0
        &&& m.msg_type == MessageType::MsgTransferLeader ==> (m.term == 0 || (self.state
            == StateRole::Leader && m.term == self.term))
        &&& m.msg_type == MessageType::MsgHup ==> m.term == 0
        &&& (m.msg_type == MessageType::MsgAppend || m.msg_type == MessageType::MsgHeartbeat
            || m.msg_type == MessageType::MsgSnapshot || m.msg_type
            == MessageType::MsgAppendResponse || m.msg_type == MessageType::MsgHeartbeatResponse)
            ==> m.term >= 1
        &&& m.msg_type == MessageType::MsgAppend && m.entries@.len() > 0 ==> m.entries@.last().term >= 1
        &&& m.msg_type == MessageType::MsgSnapshot && m.snapshot.metadata.index > 0
            ==> m.snapshot.metadata.term >= 1
    }

    /// What one `step` (or one tick) guarantees: the invariant is kept, the
    /// term never goes backwards, the outbox only grows, and the fixed
    /// configuration is untouched.
    pub open spec fn step_post(pre: Raft, post: Raft) -> bool {
        &&& post.wf()
        &&& post.term >= pre.term
        &&& post.msgs@.len() >= pre.msgs@.len()
        &&& Raft::fixed(pre, post)
        &&& Raft::campaign_settled(pre) ==> Raft::campaign_settled(post)
        &&& Raft::leader_self(pre) ==> Raft::leader_self(post)
    }

    /// On a leader, nothing is recorded as replicated beyond the end of its
    /// own log.
    pub open spec fn matched_bounded(r: Raft) -> bool {
        r.state == StateRole::Leader ==> forall|x: u64|
            #[trigger] r.spec_prs().matched_of(x) <= r.raft_log.spec_last_index()
    }

    /// Whether the log still holds what the peer needs next: the entry just
    /// before the peer's next index has not been compacted away.
    pub open spec fn spec_can_append(&self, pr: Progress) -> bool {
        pr.next_idx >= 1 && self.raft_log.spec_has((pr.next_idx - 1) as u64)
    }

    /// When a received snapshot actually replaces this node's state: it must
    /// reach past the commit watermark, cover ground the log does not already
    /// hold, and not silently demote a standing voter to a learner.
    pub open spec fn spec_restore_applies(pre: Raft, snap: Snapshot) -> bool {
        &&& snap.metadata.index >= pre.raft_log.committed
        &&& !pre.raft_log.spec_match(snap.metadata.index, snap.metadata.term)
        &&& !(pre.spec_prs().ids@.len() > 0 && !pre.is_learner
            && snap.metadata.conf_state.learners@.contains(pre.id))
    }

    /// A leader always believes in itself: its believed leader id is its own.
    pub open spec fn leader_self(r: Raft) -> bool {
        r.state == StateRole::Leader ==> r.leader_id == r.id
    }

    /// Whether a newer-term campaign request is shrugged off under the
    /// leader lease: check-quorum is on, a leader is known, the lease has
    /// not expired, and the request does not carry the transfer override.
    pub open spec fn spec_lease_protected(pre: Raft, m: Message) -> bool {
        &&& m.term > pre.term
        &&& pre.check_quorum
        &&& pre.leader_id != 0
        &&& pre.election_elapsed < pre.election_timeout
        &&& m.context@ != transfer_context_bytes()
    }

    /// Whether this node grants the vote request `m`: the node must be free
    /// to vote (a repeat of its recorded vote, a fresh term with no leader
    /// heard of, or any pre-vote for a future term) and the candidate's log
    /// must be at least as complete as its own.  A real vote request of a
    /// newer term first moves the node to that term, clearing its vote and
    /// believed leader.
    pub open spec fn spec_grants_vote(pre: Raft, m: Message) -> bool {
        let adopted = m.term > pre.term && m.msg_type == MessageType::MsgRequestVote;
        let cur_vote = if adopted {
            0u64
        } else {
            pre.vote
        };
        let cur_lead = if adopted {
            0u64
        } else {
            pre.leader_id
        };
        let can_vote = cur_vote == m.from || (cur_vote == 0 && cur_lead == 0) || (m.msg_type
            == MessageType::MsgRequestPreVote && m.term > pre.term);
        &&& can_vote
        &&& (m.log_term > pre.raft_log.spec_last_term() || (m.log_term
            == pre.raft_log.spec_last_term() && m.index >= pre.raft_log.spec_last_index()))
    }

    /// The tally after one vote answer is recorded: only a voter's first
    /// answer counts.
    pub open spec fn spec_after_vote(pre: Raft, m: Message) -> Map<u64, bool> {
        if votes_of(pre.votes).contains_key(m.from) {
            votes_of(pre.votes)
        } else {
            votes_of(pre.votes).insert(m.from, !m.reject)
        }
    }

    /// Whether the log still holds a membership-change entry that has been
    /// committed but not applied; campaigning waits for those.
    pub open spec fn spec_has_unapplied_conf(log: RaftLog) -> bool {
        exists|i: int|
            log.applied - log.snap_index <= i <= log.committed - log.snap_index - 1 && (
            #[trigger] ents_view(log.entries@)[i]).entry_type == EntryType::EntryConfChange
    }

    /// The tally right after a node votes for itself in a fresh campaign.
    pub open spec fn spec_solo_votes(id: u64) -> Map<u64, bool> {
        Map::empty().insert(id, true)
    }

    /// Whether this node's own vote already carries every active
    /// configuration — a single-voter cluster.
    pub open spec fn spec_solo_elected(r: Raft) -> bool {
        r.spec_prs().spec_elected(Raft::spec_solo_votes(r.id))
    }

    /// A campaign never lingers undecided: a candidate or pre-candidate that
    /// held a quorum of grants in every active configuration would already
    /// have moved on, so a settled node in either campaigning role is one
    /// whose tally is still short of a quorum somewhere.
    pub open spec fn campaign_settled(r: Raft) -> bool {
        (r.state == StateRole::Candidate || r.state == StateRole::PreCandidate)
            ==> !r.spec_prs().spec_elected(votes_of(r.votes))
    }

    /// Steps the node with an inbound or local message: term handling first,
    /// then vote handling, then dispatch by role.
    pub fn step(&mut self, m: Message) -> (r: Result<(), RaftError>)
        requires
            old(self).wf(),
            old(self).msg_fits(m),
        ensures
            Raft::step_post(*old(self), *final(self)),
            r is Err ==> r == Err::<(), RaftError>(RaftError::ProposalDropped),
            (Raft::matched_bounded(*old(self)) && (m.msg_type == MessageType::MsgAppendResponse
                ==> m.index <= old(self).raft_log.spec_last_index())) ==> Raft::matched_bounded(
                *final(self),
            ),
            (m.term > old(self).term && (m.msg_type == MessageType::MsgAppend || m.msg_type
                == MessageType::MsgHeartbeat || m.msg_type == MessageType::MsgSnapshot))
                ==> final(self).term == m.term && final(self).state == StateRole::Follower
                && final(self).leader_id == m.from,
            m.msg_type != MessageType::MsgPropose ==> r is Ok,
            (m.term >= 1 && m.term < old(self).term) ==> {
                &&& (*final(self) == (Raft { msgs: final(self).msgs, ..*old(self) }))
                &&& (((old(self).check_quorum || old(self).pre_vote) && (m.msg_type
                    == MessageType::MsgHeartbeat || m.msg_type == MessageType::MsgAppend))
                    ==> final(self).msgs@.len() == old(self).msgs@.len() + 1 && final(self).msgs@.last().msg_type == MessageType::MsgAppendResponse && final(self).msgs@.last().to
                    == m.from)
                &&& (m.msg_type == MessageType::MsgRequestPreVote ==> final(self).msgs@.len()
                    == old(self).msgs@.len() + 1 && final(self).msgs@.last().msg_type
                    == MessageType::MsgRequestPreVoteResponse && final(self).msgs@.last().to
                    == m.from && final(self).msgs@.last().reject && final(self).msgs@.last().term
                    == old(self).term)
                &&& ((!((old(self).check_quorum || old(self).pre_vote) && (m.msg_type
                    == MessageType::MsgHeartbeat || m.msg_type == MessageType::MsgAppend))
                    && m.msg_type != MessageType::MsgRequestPreVote) ==> final(self).msgs@ == old(
                    self,
                ).msgs@)
            },
            (m.msg_type == MessageType::MsgRequestVote && m.term > old(self).term
                && !Raft::spec_lease_protected(*old(self), m)) ==> final(self).term == m.term,
            (m.msg_type == MessageType::MsgHup && old(self).state != StateRole::Leader
                && Raft::spec_has_unapplied_conf(old(self).raft_log)) ==> *final(self) == *old(
                self,
            ),
            (is_vote_msg(m.msg_type) && Raft::spec_lease_protected(*old(self), m)) ==> *final(self) == *old(self),
            (is_vote_msg(m.msg_type) && m.term >= old(self).term && !Raft::spec_lease_protected(
                *old(self),
                m,
            )) ==> {
                let granted = Raft::spec_grants_vote(*old(self), m);
                let adopted = m.term > old(self).term && m.msg_type
                    == MessageType::MsgRequestVote;
                &&& final(self).msgs@.len() == old(self).msgs@.len() + 1
                &&& final(self).msgs@.last().to == m.from
                &&& (m.msg_type == MessageType::MsgRequestVote ==> final(self).msgs@.last().msg_type == MessageType::MsgRequestVoteResponse)
                &&& (m.msg_type == MessageType::MsgRequestPreVote ==> final(self).msgs@.last().msg_type == MessageType::MsgRequestPreVoteResponse)
                &&& final(self).msgs@.last().reject == !granted
                &&& (granted ==> final(self).msgs@.last().term == m.term)
                &&& (!granted ==> final(self).msgs@.last().term == (if adopted {
                    m.term
                } else {
                    old(self).term
                }))
                &&& (granted && m.msg_type == MessageType::MsgRequestVote ==> final(self).vote
                    == m.from && final(self).election_elapsed == 0 && final(self).term == m.term)
                &&& (!granted ==> final(self).vote == (if adopted {
                    0u64
                } else {
                    old(self).vote
                }))
            },
            (m.msg_type == MessageType::MsgCheckQuorum && m.term == 0 && old(self).state
                == StateRole::Leader) ==> {
                &&& (!old(self).spec_prs().spec_active_quorum(old(self).id) ==> final(self).state
                    == StateRole::Follower && final(self).term == old(self).term && final(self).leader_id == 0)
                &&& (old(self).spec_prs().spec_active_quorum(old(self).id) ==> final(self).state
                    == StateRole::Leader && final(self).election_elapsed == old(self).election_elapsed && final(self).heartbeat_elapsed == old(self).heartbeat_elapsed
                    && final(self).lead_transferee == old(self).lead_transferee)
            },
            (m.msg_type == MessageType::MsgHup && old(self).state == StateRole::Leader) ==> *final(self) == *old(self),
            m.msg_type == MessageType::MsgHup ==> final(self).election_elapsed == 0 || final(self).election_elapsed == old(self).election_elapsed,
            (m.msg_type == MessageType::MsgHup && old(self).state != StateRole::Leader
                && !Raft::spec_has_unapplied_conf(old(self).raft_log)) ==> {
                &&& final(self).state != StateRole::Follower
                &&& (!old(self).pre_vote ==> final(self).term == old(self).term + 1)
                &&& (old(self).pre_vote && !Raft::spec_solo_elected(*old(self)) ==> final(self).term == old(self).term && final(self).state == StateRole::PreCandidate)
                &&& (Raft::spec_solo_elected(*old(self)) ==> final(self).state
                    == StateRole::Leader && final(self).term == old(self).term + 1)
                &&& final(self).election_elapsed == 0 || final(self).election_elapsed == old(self).election_elapsed
            },
            (m.msg_type == MessageType::MsgTimeoutNow && (m.term == 0 || m.term == old(self).term)
                && old(self).state == StateRole::Follower && old(self).spec_prs().conf.voters.has(old(self).id)) ==> final(self).term == old(self).term + 1
                && final(self).state != StateRole::Follower && final(self).state
                != StateRole::PreCandidate,
            (m.msg_type == MessageType::MsgPropose && old(self).state == StateRole::Follower) ==> {
                &&& (r is Err <==> old(self).leader_id == 0)
                &&& (r is Ok ==> final(self).msgs@.len() == old(self).msgs@.len() + 1 && final(self).msgs@.last().to == old(self).leader_id && final(self).msgs@.last().msg_type
                    == MessageType::MsgPropose)
            },
            (m.msg_type == MessageType::MsgPropose && r is Err) ==> *final(self) == *old(self),
            (m.msg_type == MessageType::MsgPropose && old(self).state == StateRole::Leader) ==> {
                &&& (r is Err <==> (!old(self).spec_prs().conf.voters.has(old(self).id) || old(self).lead_transferee is Some))
                &&& (r is Ok ==> final(self).raft_log.spec_last_index() == old(self).raft_log.spec_last_index() + m.entries@.len())
                &&& ((r is Ok && !(old(self).pending_conf_index > old(self).raft_log.applied || old(
                    self,
                ).pending_membership_change is Some) && m.entries@.len() == 1 && m.entries@[0].entry_type == EntryType::EntryConfChange) ==> {
                    let e = ents_view(final(self).raft_log.entries@)[old(self).raft_log.entries@.len() as int];
                    &&& final(self).pending_conf_index == old(self).raft_log.spec_last_index() + 1
                    &&& e.entry_type == EntryType::EntryConfChange
                    &&& e.data == m.entries@[0].data@
                })
            },
            (m.msg_type == MessageType::MsgPropose && (old(self).state == StateRole::Candidate
                || old(self).state == StateRole::PreCandidate)) ==> r is Err,
            (old(self).state == StateRole::Candidate && m.msg_type
                == MessageType::MsgRequestVoteResponse && m.term == old(self).term && old(self).spec_prs().spec_elected(Raft::spec_after_vote(*old(self), m))) ==> final(self).state
                == StateRole::Leader && final(self).term == old(self).term,
            (old(self).state == StateRole::PreCandidate && m.msg_type
                == MessageType::MsgRequestPreVoteResponse && m.term == old(self).term && old(self).spec_prs().spec_elected(Raft::spec_after_vote(*old(self), m))) ==> final(self).term
                == old(self).term + 1 && final(self).state != StateRole::PreCandidate && final(self).state != StateRole::Follower,
            (old(self).state == StateRole::Leader && m.msg_type == MessageType::MsgBeat
                && m.term == 0) ==> {
                &&& final(self).election_elapsed == old(self).election_elapsed
                &&& final(self).heartbeat_elapsed == old(self).heartbeat_elapsed
                &&& final(self).state == StateRole::Leader
                &&& final(self).lead_transferee == old(self).lead_transferee
                &&& final(self).msgs@.len() == old(self).msgs@.len()
                    + crate::idset::count_where(
                    old(self).spec_prs().ids@,
                    |v: u64| v != old(self).id,
                )
                &&& forall|x: u64|
                    old(self).spec_prs().has_id(x) && x != old(self).id ==> exists|k: int|
                        old(self).msgs@.len() <= k < final(self).msgs@.len()
                            && (#[trigger] final(self).msgs@[k]).to == x && final(self).msgs@[k].msg_type == MessageType::MsgHeartbeat && final(self).msgs@[k].commit == vstd::math::min(
                            old(self).spec_prs().matched_of(x) as int,
                            old(self).raft_log.committed as int,
                        )
            },
    {
        if m.term == 0 {
            // A local message: no term handling.
        } else if m.term > self.term {
            if m.msg_type == MessageType::MsgRequestVote || m.msg_type
                == MessageType::MsgRequestPreVote {
                let force = bytes_eq(&m.context, &campaign_transfer_context());
                let in_lease = self.check_quorum && self.leader_id != 0 && self.election_elapsed
                    < self.election_timeout;
                if !force && in_lease {
                    // A current leader lease protects against a (possibly
                    // removed) peer's disruptive campaign.
                    return Ok(());
                }
            }
            if m.msg_type == MessageType::MsgRequestPreVote || (m.msg_type
                == MessageType::MsgRequestPreVoteResponse && !m.reject) {
                // Pre-vote traffic never moves our term.
            } else {
                let lid = if m.msg_type == MessageType::MsgAppend || m.msg_type
                    == MessageType::MsgHeartbeat || m.msg_type == MessageType::MsgSnapshot {
                    m.from
                } else {
                    0
                };
                self.become_follower(m.term, lid);
            }
        } else if m.term < self.term {
            if (self.check_quorum || self.pre_vote) && (m.msg_type == MessageType::MsgHeartbeat
                || m.msg_type == MessageType::MsgAppend) {
                // Answer so a stale leader learns the new term and steps
                // down instead of being silently ignored.
                let to_send = new_message(m.from, MessageType::MsgAppendResponse, None);
                self.send(to_send);
            } else if m.msg_type == MessageType::MsgRequestPreVote {
                let mut to_send = new_message(m.from, MessageType::MsgRequestPreVoteResponse, None);
                to_send.term = self.term;
                to_send.reject = true;
                proof {
                    assert(self.term >= 1);
                }
                self.send(to_send);
            } else {
                // Drop other stale traffic.
            }
            return Ok(());
        }

        if m.msg_type == MessageType::MsgHup {
            if self.state != StateRole::Leader {
                // Committed but unapplied membership changes forbid
                // campaigning: scan the window between the two watermarks.
                proof {
                    assert(self.raft_log.snap_index <= self.raft_log.applied);
                    assert(self.raft_log.applied - self.raft_log.snap_index
                        <= self.raft_log.entries@.len());
                    assert(self.raft_log.committed - self.raft_log.snap_index
                        <= self.raft_log.entries@.len());
                    assert(self.raft_log.entries@.len() == self.raft_log.entries.len());
                }
                let first = (self.raft_log.applied - self.raft_log.snap_index) as usize;
                let last_excl = (self.raft_log.committed - self.raft_log.snap_index) as usize;
                let mut found = false;
                let mut j: usize = first;
                while j < last_excl
                    invariant
                        *self == *old(self),
                        old(self).wf(),
                        first == old(self).raft_log.applied - old(self).raft_log.snap_index,
                        last_excl == old(self).raft_log.committed - old(self).raft_log.snap_index,
                        first <= j <= last_excl,
                        last_excl <= self.raft_log.entries@.len(),
                        found == exists|i: int|
                            first <= i < j && (#[trigger] ents_view(
                                old(self).raft_log.entries@,
                            )[i]).entry_type == EntryType::EntryConfChange,
                    decreases last_excl - j,
                {
                    if self.raft_log.entries[j].entry_type == EntryType::EntryConfChange {
                        found = true;
                        proof {
                            assert(ents_view(self.raft_log.entries@)[j as int] == self.raft_log.entries@[j as int]@);
                        }
                    }
                    proof {
                        if !found {
                            assert forall|i: int|
                                first <= i < j + 1 implies (#[trigger] ents_view(
                                old(self).raft_log.entries@,
                            )[i]).entry_type != EntryType::EntryConfChange by {
                                if i == j {
                                    assert(ents_view(self.raft_log.entries@)[i] == self.raft_log.entries@[i]@);
                                }
                            }
                        }
                    }
                    j = j + 1;
                }
                proof {
                    assert(found == Raft::spec_has_unapplied_conf(old(self).raft_log));
                }
                if found {
                    // Unapplied membership changes forbid campaigning.
                    return Ok(());
                }
                if self.pre_vote {
                    self.campaign(CampaignType::PreElection);
                } else {
                    self.campaign(CampaignType::Election);
                }
            }
            return Ok(());
        }
        if m.msg_type == MessageType::MsgRequestVote || m.msg_type == MessageType::MsgRequestPreVote
             {
            // A repeated vote, a fresh term with no leader heard of, or a
            // pre-vote for a future term may be granted, but only to a log
            // at least as complete as ours.
            let can_vote = (self.vote == m.from) || (self.vote == 0 && self.leader_id == 0) || (
            m.msg_type == MessageType::MsgRequestPreVote && m.term > self.term);
            if can_vote && self.raft_log.is_up_to_date(m.index, m.log_term) {
                let mut to_send = new_message(m.from, vote_resp_msg_type(m.msg_type), None);
                to_send.reject = false;
                to_send.term = m.term;
                self.send(to_send);
                if m.msg_type == MessageType::MsgRequestVote {
                    self.election_elapsed = 0;
                    self.vote = m.from;
                }
            } else {
                let mut to_send = new_message(m.from, vote_resp_msg_type(m.msg_type), None);
                to_send.reject = true;
                to_send.term = self.term;
                proof {
                    assert(self.term >= 1);
                }
                self.send(to_send);
            }
            return Ok(());
        }
        match self.state {
            StateRole::PreCandidate | StateRole::Candidate => self.step_candidate(m),
            StateRole::Follower => self.step_follower(m),
            StateRole::Leader => self.step_leader(m),
        }
    }
}

/// A table differing from another in a single record whose `matched` either
/// kept its value or is at most `cap` agrees elsewhere and is bounded there.
proof fn lemma_matched_shift(pre: ProgressSet, post: ProgressSet, k: int, cap: u64)
    requires
        pre.wf(),
        post.ids@ == pre.ids@,
        post.prs@.len() == pre.prs@.len(),
        0 <= k < pre.prs@.len(),
        forall|t: int| 0 <= t < post.prs@.len() && t != k ==> post.prs@[t] == pre.prs@[t],
        post.prs@[k].matched == pre.prs@[k].matched || post.prs@[k].matched <= cap,
    ensures
        forall|x: u64|
            #[trigger] post.matched_of(x) == pre.matched_of(x) || post.matched_of(x) <= cap,
{
    assert forall|x: u64|
        #[trigger] post.matched_of(x) == pre.matched_of(x) || post.matched_of(x) <= cap by {
        if post.has_id(x) {
            let k1 = post.index_of_id(x);
            assert(post.ids@[k1] == x);
            assert(pre.ids@[k1] == x);
            assert(pre.has_id(x));
            let k2 = pre.index_of_id(x);
            assert(pre.ids@[k2] == x);
            assert(k1 == k2);
        } else {
            assert(!pre.has_id(x));
        }
    }
}

impl Raft {
    /// Answers an append: an index below the commit watermark is answered
    /// with the watermark, a matching batch is taken over (advancing the
    /// commit as far as the leader allows), anything else is refused with
    /// this log's end as a probing hint.
    #[verifier::rlimit(60)]
    pub fn handle_append_entries(&mut self, m: &Message)
        requires
            old(self).wf(),
            forall|k: int|
                0 <= k < m.entries@.len() ==> (#[trigger] m.entries@[k]).index == m.index + 1 + k,
            m.index + m.entries@.len() < u64::MAX,
            forall|k: int|
                0 <= k < m.entries@.len() ==> (#[trigger] m.entries@[k]).term <= old(self).term,
            m.entries@.len() > 0 ==> m.entries@.last().term >= 1,
            old(self).state != StateRole::Leader,
        ensures
            final(self).wf(),
            final(self).term == old(self).term,
            final(self).state == old(self).state,
            final(self).msgs@.len() == old(self).msgs@.len() + 1,
            final(self).msgs@.last().msg_type == MessageType::MsgAppendResponse,
            final(self).msgs@.last().to == m.from,
            Raft::fixed(*old(self), *final(self)),
            final(self).spec_prs() == old(self).spec_prs(),
            final(self).pending_membership_change == old(self).pending_membership_change,
            final(self).leader_id == old(self).leader_id,
            (*final(self) == (Raft {
                raft_log: final(self).raft_log,
                msgs: final(self).msgs,
                ..*old(self)
            })),
            m.index < old(self).raft_log.committed ==> final(self).msgs@.last().index == old(self).raft_log.committed && final(self).raft_log == old(self).raft_log
                && final(self).msgs@.last().reject == false,
            m.index >= old(self).raft_log.committed ==> {
                let ok = old(self).raft_log.spec_match(m.index, m.log_term) && {
                    let c = old(self).raft_log.spec_conflict_from(ents_view(m.entries@), 0);
                    c == 0 || c > old(self).raft_log.committed
                };
                let c = old(self).raft_log.spec_conflict_from(ents_view(m.entries@), 0);
                &&& !final(self).msgs@.last().reject == ok
                &&& ok ==> final(self).msgs@.last().index == m.index + m.entries@.len()
                    && final(self).raft_log.committed == vstd::math::max(
                    old(self).raft_log.committed as int,
                    vstd::math::min(m.commit as int, m.index + m.entries@.len()),
                )
                &&& (ok && c == 0) ==> ents_view(final(self).raft_log.entries@) == ents_view(
                    old(self).raft_log.entries@,
                ) && final(self).raft_log.snap_index == old(self).raft_log.snap_index
                &&& (ok && c != 0) ==> ents_view(final(self).raft_log.entries@) == ents_view(
                    old(self).raft_log.entries@,
                ).take(c - old(self).raft_log.snap_index - 1) + ents_view(m.entries@).skip(
                    c - m.index - 1,
                ) && final(self).raft_log.snap_index == old(self).raft_log.snap_index
                &&& !ok ==> final(self).msgs@.last().index == m.index
                    && final(self).msgs@.last().reject_hint
                    == old(self).raft_log.spec_last_index() && final(self).raft_log == old(self).raft_log
            },
    {
        if m.index < self.raft_log.committed {
            let mut to_send = new_message(m.from, MessageType::MsgAppendResponse, None);
            to_send.index = self.raft_log.committed;
            self.send(to_send);
            return ;
        }
        let mut to_send = new_message(m.from, MessageType::MsgAppendResponse, None);
        match self.raft_log.maybe_append(m.index, m.log_term, m.commit, &m.entries) {
            Some(mlast) => {
                to_send.index = mlast;
                self.send(to_send);
            },
            None => {
                to_send.index = m.index;
                to_send.reject = true;
                to_send.reject_hint = self.raft_log.last_index();
                self.send(to_send);
            },
        }
        proof {
            if old(self).raft_log.spec_match(m.index, m.log_term) {
                let c = old(self).raft_log.spec_conflict_from(ents_view(m.entries@), 0);
                if (c == 0 || c > old(self).raft_log.committed) && c != 0 {
                    let flen = self.raft_log.entries@.len() as int;
                    assert(ents_view(self.raft_log.entries@) == ents_view(
                        old(self).raft_log.entries@,
                    ).take(c - old(self).raft_log.snap_index - 1) + ents_view(m.entries@).skip(
                        c - m.index - 1,
                    ));
                    assert(m.entries@.len() > 0);
                    assert forall|k: int|
                        0 <= k < ents_view(m.entries@).len() implies (#[trigger] ents_view(
                        m.entries@,
                    )[k]).index == m.index + 1 + k by {
                        assert(ents_view(m.entries@)[k] == m.entries@[k]@);
                        assert(m.entries@[k].index == m.index + 1 + k);
                    }
                    crate::raft_log::lemma_conflict_in_range_pub(
                        old(self).raft_log,
                        ents_view(m.entries@),
                        m.index,
                    );
                    assert(m.index + 1 <= c <= m.index + m.entries@.len());
                    assert(c <= old(self).raft_log.spec_last_index() + 1);
                    let a = ents_view(old(self).raft_log.entries@).take(
                        c - old(self).raft_log.snap_index - 1,
                    );
                    let b = ents_view(m.entries@).skip(c - m.index - 1);
                    assert(0 <= c - old(self).raft_log.snap_index - 1 <= ents_view(
                        old(self).raft_log.entries@,
                    ).len());
                    assert(0 <= c - m.index - 1 <= ents_view(m.entries@).len());
                    assert(a.len() == c - old(self).raft_log.snap_index - 1);
                    assert(b.len() == ents_view(m.entries@).len() - (c - m.index - 1));
                    assert(ents_view(self.raft_log.entries@).len() == (a + b).len());
                    assert(ents_view(self.raft_log.entries@).len() == self.raft_log.entries@.len());
                    assert(flen == a.len() + b.len());
                    assert(b.len() >= 1);
                    assert(flen > 0);
                    assert(ents_view(self.raft_log.entries@)[flen - 1] == (a + b)[flen - 1]);
                    assert((a + b)[flen - 1] == b[b.len() - 1]);
                    assert(b[b.len() - 1] == ents_view(m.entries@)[m.entries@.len() - 1]);
                    assert(ents_view(self.raft_log.entries@)[flen - 1] == ents_view(m.entries@)[
                        m.entries@.len() - 1]);
                    assert(self.raft_log.entries@[flen - 1]@ == ents_view(
                        self.raft_log.entries@,
                    )[flen - 1]);
                    assert(m.entries@[m.entries@.len() - 1]@ == ents_view(m.entries@)[
                        m.entries@.len() - 1]);
                    assert(self.raft_log.entries@[flen - 1].term <= old(self).term);
                    assert(self.raft_log.spec_last_term() <= self.term);
                }
                if c == 0 && m.index >= old(self).raft_log.committed {
                    let flen = self.raft_log.entries@.len() as int;
                    assert(ents_view(self.raft_log.entries@).len() == ents_view(
                        old(self).raft_log.entries@,
                    ).len());
                    if flen > 0 {
                        assert(self.raft_log.entries@[flen - 1]@ == ents_view(
                            self.raft_log.entries@,
                        )[flen - 1]);
                        assert(old(self).raft_log.entries@[flen - 1]@ == ents_view(
                            old(self).raft_log.entries@,
                        )[flen - 1]);
                        assert(self.raft_log.entries@[flen - 1].term == old(self).raft_log.entries@[flen - 1].term);
                    }
                    assert(self.raft_log.spec_last_term() == old(self).raft_log.spec_last_term());
                }
            }
        }
    }

    /// Answers a heartbeat: the commit watermark follows the leader and the
    /// read-index tag is echoed back.
    pub fn handle_heartbeat(&mut self, m: Message)
        requires
            old(self).wf(),
            m.commit <= old(self).raft_log.spec_last_index(),
            old(self).state != StateRole::Leader,
        ensures
            final(self).wf(),
            final(self).term == old(self).term,
            final(self).state == old(self).state,
            final(self).msgs@.len() == old(self).msgs@.len() + 1,
            final(self).msgs@.last().msg_type == MessageType::MsgHeartbeatResponse,
            final(self).msgs@.last().to == m.from,
            final(self).msgs@.last().context == m.context,
            final(self).raft_log.committed == vstd::math::max(
                old(self).raft_log.committed as int,
                m.commit as int,
            ),
            final(self).raft_log == (RaftLog {
                committed: final(self).raft_log.committed,
                ..old(self).raft_log
            }),
            Raft::fixed(*old(self), *final(self)),
            final(self).spec_prs() == old(self).spec_prs(),
            final(self).pending_membership_change == old(self).pending_membership_change,
            final(self).leader_id == old(self).leader_id,
            (*final(self) == (Raft {
                raft_log: final(self).raft_log,
                msgs: final(self).msgs,
                ..*old(self)
            })),
    {
        self.raft_log.commit_to(m.commit);
        let mut to_send = new_message(m.from, MessageType::MsgHeartbeatResponse, None);
        to_send.context = m.context;
        self.send(to_send);
    }

    /// Replaces this node's state with a received snapshot: an image no newer
    /// than the commit watermark (or already present) only fast-forwards the
    /// commit; anything else replaces the log and rebuilds the peer table
    /// from the snapshot's configuration.  Answers whether the log was
    /// replaced.
    pub fn restore(&mut self, snap: Snapshot) -> (applied: bool)
        requires
            old(self).wf(),
            snap.metadata.index < u64::MAX,
            snap.metadata.term <= old(self).term,
            snap.metadata.index > 0 ==> snap.metadata.term >= 1,
            snap.metadata.conf_state.nodes@.len() > 0,
            (snap.metadata.pending_membership_change is Some
                && snap.metadata.pending_membership_change_index > 0) ==> match snap
                .metadata
                .pending_membership_change {
                Some(cs) => cs.nodes@.len() > 0,
                None => false,
            },
            old(self).state != StateRole::Leader,
        ensures
            final(self).wf(),
            final(self).term == old(self).term,
            final(self).state == old(self).state,
            final(self).msgs@ == old(self).msgs@,
            Raft::fixed(*old(self), *final(self)),
            final(self).leader_id == old(self).leader_id,
            applied == Raft::spec_restore_applies(*old(self), snap),
            snap.metadata.index < old(self).raft_log.committed ==> *final(self) == *old(self),
            (snap.metadata.index >= old(self).raft_log.committed && old(self).raft_log.spec_match(
                snap.metadata.index,
                snap.metadata.term,
            )) ==> {
                &&& *final(self) == (Raft { raft_log: final(self).raft_log, ..*old(self) })
                &&& final(self).raft_log == (RaftLog {
                    committed: final(self).raft_log.committed,
                    ..old(self).raft_log
                })
                &&& final(self).raft_log.committed == vstd::math::max(
                    old(self).raft_log.committed as int,
                    snap.metadata.index as int,
                )
            },
            (!applied && !(snap.metadata.index >= old(self).raft_log.committed && old(self).raft_log.spec_match(snap.metadata.index, snap.metadata.term))) ==> *final(self)
                == *old(self),
            applied ==> {
                &&& final(self).raft_log.spec_last_index() == snap.metadata.index
                &&& final(self).raft_log.committed == snap.metadata.index
                &&& forall|x: u64| #[trigger]
                    final(self).spec_prs().conf.voters.has(x)
                        == snap.metadata.conf_state.nodes@.contains(x)
                &&& forall|x: u64| #[trigger]
                    final(self).spec_prs().conf.learners.has(x)
                        == snap.metadata.conf_state.learners@.contains(x)
                &&& final(self).spec_prs().spec_in_joint() == (
                snap.metadata.pending_membership_change is Some
                    && snap.metadata.pending_membership_change_index > 0)
                &&& final(self).pending_membership_change is Some == final(self).spec_prs()
                    .spec_in_joint()
                &&& final(self).is_learner == (old(self).is_learner
                    && !snap.metadata.conf_state.nodes@.contains(old(self).id))
                &&& forall|x: u64|
                    final(self).spec_prs().has_id(x) ==> (#[trigger] final(self).spec_prs().pr_of(
                        x,
                    )).next_idx == snap.metadata.index + 1
                &&& (*final(self) == (Raft {
                    raft_log: final(self).raft_log,
                    prs: final(self).prs,
                    is_learner: final(self).is_learner,
                    pending_membership_change: final(self).pending_membership_change,
                    ..*old(self)
                }))
            },
            !applied ==> final(self).raft_log.spec_last_index()
                == old(self).raft_log.spec_last_index(),
    {
        if snap.metadata.index < self.raft_log.committed {
            return false;
        }
        if self.raft_log.match_term(snap.metadata.index, snap.metadata.term) {
            // Already present: just move the commit watermark forward.
            self.raft_log.commit_to(snap.metadata.index);
            return false;
        }
        // A peer that is a voter cannot silently be demoted by a snapshot.
        let has_peers = self.prs().ids.len() > 0;
        if has_peers && !self.is_learner {
            let mut k: usize = 0;
            let n = snap.metadata.conf_state.learners.len();
            while k < n
                invariant
                    n == snap.metadata.conf_state.learners@.len(),
                    k <= n,
                    *self == *old(self),
                    old(self).wf(),
                    snap.metadata.index >= old(self).raft_log.committed,
                    !old(self).raft_log.spec_match(snap.metadata.index, snap.metadata.term),
                    old(self).spec_prs().ids@.len() > 0,
                    !old(self).is_learner,
                    forall|j: int|
                        0 <= j < k ==> snap.metadata.conf_state.learners@[j] != old(self).id,
                decreases n - k,
            {
                if snap.metadata.conf_state.learners[k] == self.id {
                    proof {
                        assert(snap.metadata.conf_state.learners@.contains(old(self).id));
                    }
                    return false;
                }
                k = k + 1;
            }
            proof {
                assert(!snap.metadata.conf_state.learners@.contains(old(self).id));
            }
        }
        self.raft_log.restore(&snap);
        let next_idx = self.raft_log.last_index() + 1;
        let mut prs = ProgressSet::restore_snapmeta(&snap.metadata, next_idx, self.max_inflight);
        let self_id = self.id;
        let ghost prs0 = prs;
        match prs.find(self_id) {
            Some(k) => {
                let p = prs.pr_at_mut(k);
                p.maybe_update(next_idx - 1);
                proof {
                    assert forall|x: u64| prs.has_id(x) implies (#[trigger] prs.pr_of(x)).next_idx
                        == next_idx by {
                        let j = prs.index_of_id(x);
                        assert(prs.ids@[j] == x);
                        assert(prs0.ids@[j] == x);
                        if j == k {
                            assert(prs0.pr_of(self_id).next_idx == next_idx);
                            assert(prs0.index_of_id(self_id) == k);
                        } else {
                            assert(prs.prs@[j] == prs0.prs@[j]);
                            assert(prs0.has_id(x));
                            assert(prs0.index_of_id(x) == j);
                            assert(prs0.pr_of(x).next_idx == next_idx);
                        }
                    }
                }
            },
            None => {},
        }
        if self.is_learner && prs.conf.voters.contains(self_id) {
            self.is_learner = false;
        }
        let was_joint = prs.is_in_membership_change();
        proof {
            if prs.spec_in_joint() {
                match (&prs.next_conf, &snap.metadata.pending_membership_change) {
                    (Some(c), Some(cs)) => {
                        assert(cs.nodes@.len() > 0);
                        let x = cs.nodes@[0];
                        assert(cs.nodes@.contains(x));
                        assert(c.voters.has(x));
                        assert(c.voters.items@.contains(x));
                        assert(c.voters.items@.len() > 0);
                    },
                    _ => {},
                }
            }
        }
        self.prs = Some(prs);
        if was_joint {
            let cs = match &snap.metadata.pending_membership_change {
                Some(cs) => cs.dup(),
                None => ConfState::empty(),
            };
            let cc = ConfChange {
                change_type: ConfChangeType::BeginMembershipChange,
                node_id: 0,
                configuration: Some(cs),
                start_index: snap.metadata.pending_membership_change_index,
            };
            self.pending_membership_change = Some(cc);
        } else {
            self.pending_membership_change = None;
        }
        proof {
            assert(!snap.metadata.conf_state.learners@.contains(old(self).id) || old(self).is_learner || old(self).spec_prs().ids@.len() == 0);
        }
        true
    }

    /// Takes a pushed snapshot: a stale one is acknowledged with the commit
    /// watermark, a fresh one replaces the state and is acknowledged with
    /// its last index.
    fn handle_snapshot(&mut self, m: Message)
        requires
            old(self).wf(),
            m.snapshot.metadata.index < u64::MAX,
            m.snapshot.metadata.term <= old(self).term,
            m.snapshot.metadata.index > 0 ==> m.snapshot.metadata.term >= 1,
            m.snapshot.metadata.conf_state.nodes@.len() > 0,
            (m.snapshot.metadata.pending_membership_change is Some
                && m.snapshot.metadata.pending_membership_change_index > 0) ==> match m
                .snapshot
                .metadata
                .pending_membership_change {
                Some(cs) => cs.nodes@.len() > 0,
                None => false,
            },
            old(self).state != StateRole::Leader,
        ensures
            final(self).wf(),
            final(self).term == old(self).term,
            final(self).state == old(self).state,
            final(self).msgs@.len() == old(self).msgs@.len() + 1,
            Raft::fixed(*old(self), *final(self)),
            final(self).leader_id == old(self).leader_id,
            final(self).election_elapsed == old(self).election_elapsed,
            final(self).heartbeat_elapsed == old(self).heartbeat_elapsed,
            final(self).vote == old(self).vote,
    {
        let applied = self.restore(m.snapshot);
        if applied {
            let mut to_send = new_message(m.from, MessageType::MsgAppendResponse, None);
            to_send.index = self.raft_log.last_index();
            self.send(to_send);
        } else {
            let mut to_send = new_message(m.from, MessageType::MsgAppendResponse, None);
            to_send.index = self.raft_log.committed;
            self.send(to_send);
        }
    }

    /// Steps a follower: proposals, transfers and reads are forwarded to the
    /// leader, appends and heartbeats are taken, a timeout order starts an
    /// immediate election.
    fn step_follower(&mut self, m: Message) -> (r: Result<(), RaftError>)
        requires
            old(self).wf(),
            old(self).state == StateRole::Follower,
            m.msg_type == MessageType::MsgPropose ==> m.term == 0,
            m.msg_type == MessageType::MsgReadIndex ==> m.term == 0,
            m.msg_type == MessageType::MsgTransferLeader ==> m.term == 0,
            m.msg_type == MessageType::MsgAppend ==> {
                &&& forall|k: int|
                    0 <= k < m.entries@.len() ==> (#[trigger] m.entries@[k]).index == m.index + 1
                        + k
                &&& m.index + m.entries@.len() < u64::MAX
                &&& forall|k: int|
                    0 <= k < m.entries@.len() ==> (#[trigger] m.entries@[k]).term <= old(self).term
                &&& m.entries@.len() > 0 ==> m.entries@.last().term >= 1
            },
            m.msg_type == MessageType::MsgHeartbeat ==> m.commit <= old(self).raft_log.spec_last_index(),
            m.msg_type == MessageType::MsgSnapshot ==> {
                &&& m.snapshot.metadata.index < u64::MAX
                &&& m.snapshot.metadata.term <= old(self).term
                &&& (m.snapshot.metadata.index > 0 ==> m.snapshot.metadata.term >= 1)
                &&& m.snapshot.metadata.conf_state.nodes@.len() > 0
                &&& (m.snapshot.metadata.pending_membership_change is Some
                    && m.snapshot.metadata.pending_membership_change_index > 0) ==> match m
                    .snapshot
                    .metadata
                    .pending_membership_change {
                    Some(cs) => cs.nodes@.len() > 0,
                    None => false,
                }
            },
            m.msg_type == MessageType::MsgTimeoutNow ==> old(self).term < u64::MAX
                && old(self).raft_log.spec_last_index() + 2 < u64::MAX,
        ensures
            Raft::step_post(*old(self), *final(self)),
            r is Err ==> r == Err::<(), RaftError>(RaftError::ProposalDropped),
            Raft::matched_bounded(*final(self)),
            m.msg_type != MessageType::MsgPropose ==> r is Ok,
            (m.msg_type == MessageType::MsgAppend || m.msg_type == MessageType::MsgHeartbeat
                || m.msg_type == MessageType::MsgSnapshot) ==> final(self).term == old(self).term
                && final(self).state == StateRole::Follower && final(self).leader_id == m.from
                && final(self).election_elapsed == 0,
            m.msg_type == MessageType::MsgPropose ==> {
                &&& (r is Err <==> old(self).leader_id == 0)
                &&& (r is Err ==> *final(self) == *old(self))
                &&& (r is Ok ==> final(self).msgs@.len() == old(self).msgs@.len() + 1 && final(self).msgs@.last().to == old(self).leader_id && final(self).msgs@.last().msg_type
                    == MessageType::MsgPropose && final(self).msgs@.last().entries@ == m.entries@
                    && final(self).msgs@.last().from == old(self).id && final(self).msgs@.last().term == m.term)
            },
            (m.msg_type == MessageType::MsgTimeoutNow && old(self).spec_prs().conf.voters.has(
                old(self).id,
            )) ==> final(self).term == old(self).term + 1 && final(self).state
                != StateRole::Follower && final(self).state != StateRole::PreCandidate,
    {
        if m.msg_type == MessageType::MsgPropose {
            if self.leader_id == 0 {
                return Err(RaftError::ProposalDropped);
            }
            let mut m = m;
            m.to = self.leader_id;
            self.send(m);
            return Ok(());
        }
        if m.msg_type == MessageType::MsgAppend {
            self.election_elapsed = 0;
            self.leader_id = m.from;
            self.handle_append_entries(&m);
            return Ok(());
        }
        if m.msg_type == MessageType::MsgHeartbeat {
            self.election_elapsed = 0;
            self.leader_id = m.from;
            self.handle_heartbeat(m);
            return Ok(());
        }
        if m.msg_type == MessageType::MsgSnapshot {
            self.election_elapsed = 0;
            self.leader_id = m.from;
            self.handle_snapshot(m);
            return Ok(());
        }
        if m.msg_type == MessageType::MsgTransferLeader {
            if self.leader_id == 0 {
                return Ok(());
            }
            let mut m = m;
            m.to = self.leader_id;
            self.send(m);
            return Ok(());
        }
        if m.msg_type == MessageType::MsgTimeoutNow {
            if self.promotable() {
                // The old leader vouches for us; skip the pre-vote round.
                self.campaign(CampaignType::Transfer);
            }
            return Ok(());
        }
        if m.msg_type == MessageType::MsgReadIndex {
            if self.leader_id == 0 {
                return Ok(());
            }
            let mut m = m;
            m.to = self.leader_id;
            self.send(m);
            return Ok(());
        }
        if m.msg_type == MessageType::MsgReadIndexResp {
            if m.entries.len() != 1 {
                return Ok(());
            }
            let mut m = m;
            let data = match m.entries.pop() {
                Some(e) => e.data,
                None => Vec::new(),
            };
            self.read_states.push(ReadState { index: m.index, request_ctx: data });
            return Ok(());
        }
        Ok(())
    }

    /// Steps a candidate or pre-candidate: leader traffic of the current
    /// term turns it into a follower; vote answers are tallied until the
    /// campaign is decided.
    fn step_candidate(&mut self, m: Message) -> (r: Result<(), RaftError>)
        requires
            old(self).wf(),
            old(self).state == StateRole::Candidate || old(self).state == StateRole::PreCandidate,
            m.msg_type == MessageType::MsgAppend ==> {
                &&& forall|k: int|
                    0 <= k < m.entries@.len() ==> (#[trigger] m.entries@[k]).index == m.index + 1
                        + k
                &&& m.index + m.entries@.len() < u64::MAX
                &&& forall|k: int|
                    0 <= k < m.entries@.len() ==> (#[trigger] m.entries@[k]).term <= old(self).term
                &&& m.entries@.len() > 0 ==> m.entries@.last().term >= 1
            },
            m.msg_type == MessageType::MsgHeartbeat ==> m.commit <= old(self).raft_log.spec_last_index(),
            m.msg_type == MessageType::MsgSnapshot ==> {
                &&& m.snapshot.metadata.index < u64::MAX
                &&& m.snapshot.metadata.term <= old(self).term
                &&& (m.snapshot.metadata.index > 0 ==> m.snapshot.metadata.term >= 1)
                &&& m.snapshot.metadata.conf_state.nodes@.len() > 0
                &&& (m.snapshot.metadata.pending_membership_change is Some
                    && m.snapshot.metadata.pending_membership_change_index > 0) ==> match m
                    .snapshot
                    .metadata
                    .pending_membership_change {
                    Some(cs) => cs.nodes@.len() > 0,
                    None => false,
                }
            },
            is_vote_resp_msg(m.msg_type) ==> old(self).term < u64::MAX
                && old(self).raft_log.spec_last_index() + 2 < u64::MAX,
        ensures
            Raft::step_post(*old(self), *final(self)),
            r is Err ==> r == Err::<(), RaftError>(RaftError::ProposalDropped),
            Raft::matched_bounded(*final(self)),
            m.msg_type != MessageType::MsgPropose ==> r is Ok,
            m.msg_type == MessageType::MsgPropose ==> r is Err && *final(self) == *old(self),
            (old(self).state == StateRole::Candidate && m.msg_type
                == MessageType::MsgRequestVoteResponse && old(self).spec_prs().spec_elected(
                Raft::spec_after_vote(*old(self), m),
            )) ==> final(self).state == StateRole::Leader && final(self).term == old(self).term,
            (old(self).state == StateRole::PreCandidate && m.msg_type
                == MessageType::MsgRequestPreVoteResponse && old(self).spec_prs().spec_elected(
                Raft::spec_after_vote(*old(self), m),
            )) ==> final(self).term == old(self).term + 1 && final(self).state
                != StateRole::PreCandidate && final(self).state != StateRole::Follower,
    {
        if m.msg_type == MessageType::MsgPropose {
            return Err(RaftError::ProposalDropped);
        }
        if m.msg_type == MessageType::MsgAppend {
            let term = self.term;
            self.become_follower(term, m.from);
            self.handle_append_entries(&m);
            return Ok(());
        }
        if m.msg_type == MessageType::MsgHeartbeat {
            let term = self.term;
            self.become_follower(term, m.from);
            self.handle_heartbeat(m);
            return Ok(());
        }
        if m.msg_type == MessageType::MsgSnapshot {
            let term = self.term;
            self.become_follower(term, m.from);
            self.handle_snapshot(m);
            return Ok(());
        }
        if m.msg_type == MessageType::MsgRequestVoteResponse || m.msg_type
            == MessageType::MsgRequestPreVoteResponse {
            // Answers from the wrong phase are stale; drop them.
            if self.state == StateRole::PreCandidate && m.msg_type
                != MessageType::MsgRequestPreVoteResponse {
                return Ok(());
            }
            if self.state == StateRole::Candidate && m.msg_type
                != MessageType::MsgRequestVoteResponse {
                return Ok(());
            }
            let acceptance = !m.reject;
            self.register_vote(m.from, acceptance);
            let status = self.prs().candidacy_status(&self.votes);
            if status == CandidacyStatus::Elected {
                proof {
                    crate::idset::lemma_count_le_len(
                        self.spec_prs().conf.voters.items@,
                        |v: u64|
                            crate::progress_set::vote_granted(votes_of(self.votes), v),
                    );
                }
                if self.state == StateRole::PreCandidate {
                    self.campaign(CampaignType::Election);
                } else {
                    self.become_leader();
                    self.bcast_append();
                }
            } else if status == CandidacyStatus::Ineligible {
                // A quorum denied somewhere: the campaign is lost.
                let term = self.term;
                self.become_follower(term, 0);
            }
            return Ok(());
        }
        Ok(())
    }
}

impl Raft {
    /// Learns from an append answer: a rejection walks the peer's next
    /// index back (dropping to probe mode), an acknowledgement advances the
    /// match, possibly completes a leadership transfer, promotes a probed
    /// peer to pipelining, releases inflight slots, and asks for a commit
    /// recheck.
    fn handle_append_response(
        &mut self,
        m: &Message,
        prs: &mut ProgressSet,
        old_paused: &mut bool,
        send_append: &mut bool,
        maybe_commit: &mut bool,
    )
        requires
            old(self).raft_log.wf(),
            old(prs).wf(),
            old(prs).has_id(m.from),
            m.index < u64::MAX,
            m.reject_hint < u64::MAX,
        ensures
            final(prs).wf(),
            final(prs).ids@ == old(prs).ids@,
            final(prs).conf == old(prs).conf,
            final(prs).next_conf == old(prs).next_conf,
            *final(self) == (Raft { msgs: final(self).msgs, ..*old(self) }),
            msgs_extend(old(self).msgs@, final(self).msgs@),
            forall|x: u64|
                #[trigger] final(prs).matched_of(x) == old(prs).matched_of(x)
                    || final(prs).matched_of(x) <= m.index,
            !m.reject ==> final(prs).matched_of(m.from) == (if m.index > old(prs).matched_of(
                m.from,
            ) {
                m.index
            } else {
                old(prs).matched_of(m.from)
            }),
            (!m.reject && m.index > old(prs).matched_of(m.from)) ==> *final(maybe_commit) == true,
            m.reject ==> final(prs).matched_of(m.from) == old(prs).matched_of(m.from) && *final(maybe_commit) == *old(maybe_commit),
            (m.reject && old(prs).pr_of(m.from).state != ProgressState::Replicate && old(prs).pr_of(m.from).next_idx == m.index + 1) ==> *final(send_append) == true,
            *old(send_append) ==> *final(send_append),
            *old(maybe_commit) ==> *final(maybe_commit),
            final(prs).pr_of(m.from).recent_active,
            !m.reject ==> final(prs).pr_of(m.from).next_idx >= m.index + 1,
            (!m.reject && m.index > old(prs).matched_of(m.from)) ==> {
                let p0 = old(prs).pr_of(m.from);
                &&& (p0.state == ProgressState::Probe ==> final(prs).pr_of(m.from).state
                    == ProgressState::Replicate)
                &&& (p0.state == ProgressState::Snapshot && m.index >= p0.pending_snapshot
                    ==> final(prs).pr_of(m.from).state == ProgressState::Probe)
                &&& (p0.state == ProgressState::Replicate ==> final(prs).pr_of(m.from).state
                    == ProgressState::Replicate && final(prs).pr_of(m.from).ins.queue@
                    == crate::inflights::drop_acked(p0.ins.queue@, m.index))
            },
            (m.reject && old(prs).pr_of(m.from).state == ProgressState::Replicate && m.index > old(
                prs,
            ).pr_of(m.from).matched) ==> final(prs).pr_of(m.from).state == ProgressState::Probe
                && *final(send_append) == true,
            (!m.reject && old(self).lead_transferee == Some(m.from) && m.index > old(
                prs,
            ).matched_of(m.from) && m.index == old(self).raft_log.spec_last_index()) ==> final(self).msgs@.len() == old(self).msgs@.len() + 1 && final(self).msgs@.last().msg_type
                == MessageType::MsgTimeoutNow && final(self).msgs@.last().to == m.from,
    {
        let from = m.from;
        let k = match prs.find(from) {
            Some(k) => k,
            None => {
                proof {
                    assert(false);
                }
                return ;
            },
        };
        let p = prs.pr_at_mut(k);
        p.recent_active = true;

        if m.reject {
            let decreased = p.maybe_decr_to(m.index, m.reject_hint);
            if decreased {
                if p.state == ProgressState::Replicate {
                    p.become_probe();
                }
                *send_append = true;
            }
            proof {
                lemma_matched_shift(*old(prs), *prs, k as int, m.index);
                assert(prs.ids@[k as int] == m.from);
                let j = prs.index_of_id(m.from);
                assert(prs.ids@[j] == m.from);
                assert(j == k as int);
                assert(prs.pr_of(m.from) == prs.prs@[k as int]);
            }
            return ;
        }

        *old_paused = p.is_paused();
        let updated = p.maybe_update(m.index);
        if !updated {
            proof {
                lemma_matched_shift(*old(prs), *prs, k as int, m.index);
                assert(prs.ids@[k as int] == m.from);
                let j = prs.index_of_id(m.from);
                assert(prs.ids@[j] == m.from);
                assert(j == k as int);
                assert(prs.pr_of(m.from) == prs.prs@[k as int]);
            }
            return ;
        }
        let matched_now = p.matched;
        match p.state {
            ProgressState::Probe => p.become_replicate(),
            ProgressState::Snapshot => {
                if p.maybe_snapshot_abort() {
                    p.become_probe();
                }
            },
            ProgressState::Replicate => {
                p.ins.free_to(m.index);
            },
        }
        *maybe_commit = true;
        proof {
            lemma_matched_shift(*old(prs), *prs, k as int, m.index);
            assert(prs.ids@[k as int] == m.from);
            let j = prs.index_of_id(m.from);
            assert(prs.ids@[j] == m.from);
            assert(j == k as int);
            assert(prs.pr_of(m.from) == prs.prs@[k as int]);
        }

        // A transfer target that just caught up gets its timeout order.
        let transferring = match self.lead_transferee {
            Some(t) => t == from,
            None => false,
        };
        if transferring && matched_now == self.raft_log.last_index() {
            self.send_timeout_now(from);
        }
    }

    /// Learns from a heartbeat answer: the peer is alive, a paused probe may
    /// resume, a stalled pipeline gets one slot freed, a lagging peer is
    /// scheduled an append, and for safe reads the answer's tag is tallied
    /// towards a read quorum.
    fn handle_heartbeat_response(
        &mut self,
        m: &Message,
        prs: &mut ProgressSet,
        send_append: &mut bool,
        more_to_send: &mut Vec<Message>,
    )
        requires
            old(self).raft_log.wf(),
            old(self).read_only.wf(),
            old(prs).wf(),
            old(prs).has_id(m.from),
        ensures
            final(prs).wf(),
            final(prs).ids@ == old(prs).ids@,
            final(prs).conf == old(prs).conf,
            final(prs).next_conf == old(prs).next_conf,
            *final(self) == (Raft {
                msgs: final(self).msgs,
                read_only: final(self).read_only,
                read_states: final(self).read_states,
                ..*old(self)
            }),
            final(self).read_only.wf(),
            final(self).msgs@ == old(self).msgs@,
            forall|x: u64| #[trigger] final(prs).matched_of(x) == old(prs).matched_of(x),
            msgs_extend(old(more_to_send)@, final(more_to_send)@),
            forall|t: int|
                old(more_to_send)@.len() <= t < final(more_to_send)@.len()
                    ==> (#[trigger] final(more_to_send)@[t]).msg_type
                    == MessageType::MsgReadIndexResp && final(more_to_send)@[t].term == 0,
            final(self).read_states@.len() >= old(self).read_states@.len(),
            forall|t: int|
                0 <= t < old(self).read_states@.len() ==> #[trigger] final(self).read_states@[t]
                    == old(self).read_states@[t],
            (old(self).read_only.option != ReadOnlyOption::Safe || m.context@.len() == 0)
                ==> final(self).read_only == old(self).read_only && final(self).read_states@ == old(
                self,
            ).read_states@ && final(more_to_send)@ == old(more_to_send)@,
            (final(self).read_only.queue@.len() == old(self).read_only.queue@.len() && final(self).read_states@ == old(self).read_states@ && final(more_to_send)@ == old(more_to_send)@)
                || (exists|p: int|
                {
                    &&& 0 <= p < old(self).read_only.queue@.len()
                    &&& old(self).read_only.ctx_at(p) == m.context@
                    &&& old(prs).spec_has_quorum(
                        acks_of(old(self).read_only.queue@[p].acks).insert(m.from),
                    )
                    &&& final(self).read_only.queue@ == old(self).read_only.queue@.skip(p + 1)
                    &&& final(self).read_states@.len() + final(more_to_send)@.len() == old(self).read_states@.len() + old(more_to_send)@.len() + p + 1
                }),
            forall|t: int|
                #![trigger final(self).read_states@[t]]
                old(self).read_states@.len() <= t < final(self).read_states@.len() ==> exists|
                    q: int,
                |
                    0 <= q < old(self).read_only.queue@.len() && final(self).read_states@[t].index
                        == (#[trigger] old(self).read_only.queue@[q]).index && final(self).read_states@[t].request_ctx@ == old(self).read_only.ctx_at(q),
            forall|t: int|
                #![trigger final(more_to_send)@[t]]
                old(more_to_send)@.len() <= t < final(more_to_send)@.len() ==> exists|q: int|
                    0 <= q < old(self).read_only.queue@.len() && final(more_to_send)@[t].to == (
                    #[trigger] old(self).read_only.queue@[q]).req.from && final(more_to_send)@[
                        t
                    ].index == old(self).read_only.queue@[q].index,
    {
        let from = m.from;
        let k = match prs.find(from) {
            Some(k) => k,
            None => {
                return ;
            },
        };
        let p = prs.pr_at_mut(k);
        p.recent_active = true;
        p.resume();
        if p.state == ProgressState::Replicate && p.ins.full() && p.ins.queue.len() > 0 {
            p.ins.free_first_one();
        }
        if p.matched < self.raft_log.last_index() {
            *send_append = true;
        }
        proof {
            lemma_matched_shift(*old(prs), *prs, k as int, 0);
        }

        if self.read_only.option != ReadOnlyOption::Safe || m.context.len() == 0 {
            return ;
        }

        let pos = match self.read_only.recv_ack(from, &m.context) {
            Some(pos) => pos,
            None => {
                return ;
            },
        };
        let quorum = prs.has_quorum(self.read_only.acks_at(pos));
        if !quorum {
            return ;
        }
        let ghost acked_ro = self.read_only;
        let mut rss = self.read_only.advance(pos);
        proof {
            assert(rss@.len() == pos + 1);
            assert forall|j: int|
                0 <= j < rss@.len() implies (#[trigger] rss@[j]).req == old(self).read_only.queue@[
                j
            ].req && rss@[j].index == old(self).read_only.queue@[j].index by {
                assert(rss@[j] == acked_ro.queue@[j]);
                if j != pos {
                    assert(acked_ro.queue@[j] == old(self).read_only.queue@[j]);
                }
            }
            assert(self.read_only.queue@ == old(self).read_only.queue@.skip(pos + 1));
        }
        let mut i: usize = 0;
        let n = rss.len();
        while i < n
            invariant
                n == rss@.len(),
                i <= n,
                n == pos + 1,
                pos < old(self).read_only.queue@.len(),
                old(self).raft_log.wf(),
                forall|j: int|
                    0 <= j < rss@.len() ==> (#[trigger] rss@[j]).req.entries@.len() >= 1,
                forall|j: int|
                    0 <= j < rss@.len() ==> (#[trigger] rss@[j]).req == old(self).read_only.queue@[
                        j
                    ].req && rss@[j].index == old(self).read_only.queue@[j].index,
                self.read_only.wf(),
                self.read_only.queue@ == old(self).read_only.queue@.skip(pos + 1),
                self.msgs@ == old(self).msgs@,
                msgs_extend(old(more_to_send)@, more_to_send@),
                forall|t: int|
                    old(more_to_send)@.len() <= t < more_to_send@.len() ==> (
                    #[trigger] more_to_send@[t]).msg_type == MessageType::MsgReadIndexResp
                        && more_to_send@[t].term == 0,
                self.read_states@.len() >= old(self).read_states@.len(),
                forall|t: int|
                    0 <= t < old(self).read_states@.len() ==> #[trigger] self.read_states@[t]
                        == old(self).read_states@[t],
                self.read_states@.len() + more_to_send@.len() == old(self).read_states@.len()
                    + old(more_to_send)@.len() + i,
                forall|t: int|
                    #![trigger self.read_states@[t]]
                    old(self).read_states@.len() <= t < self.read_states@.len() ==> exists|q: int|
                        0 <= q < old(self).read_only.queue@.len() && self.read_states@[t].index
                            == (#[trigger] old(self).read_only.queue@[q]).index && self.read_states@[t].request_ctx@ == old(self).read_only.ctx_at(q),
                forall|t: int|
                    #![trigger more_to_send@[t]]
                    old(more_to_send)@.len() <= t < more_to_send@.len() ==> exists|q: int|
                        0 <= q < old(self).read_only.queue@.len() && more_to_send@[t].to == (
                        #[trigger] old(self).read_only.queue@[q]).req.from && more_to_send@[t].index
                            == old(self).read_only.queue@[q].index,
                *self == (Raft {
                    msgs: self.msgs,
                    read_only: self.read_only,
                    read_states: self.read_states,
                    ..*old(self)
                }),
            decreases n - i,
        {
            let rs = &rss[i];
            let req_from = rs.req.from;
            let ghost pre_states = self.read_states@;
            let ghost pre_more = more_to_send@;
            if req_from == 0 || req_from == self.id {
                let ctx = copy_bytes(&rs.req.entries[0].data);
                self.read_states.push(ReadState { index: rs.index, request_ctx: ctx });
                proof {
                    let nlen = self.read_states@.len() as int;
                    assert(self.read_states@[nlen - 1].index == old(self).read_only.queue@[
                        i as int
                    ].index);
                    assert(self.read_states@[nlen - 1].request_ctx@ == old(self).read_only.ctx_at(
                        i as int,
                    ));
                    assert forall|t: int|
                        #![trigger self.read_states@[t]]
                        old(self).read_states@.len() <= t < nlen implies exists|q: int|
                        0 <= q < old(self).read_only.queue@.len() && self.read_states@[t].index
                            == (#[trigger] old(self).read_only.queue@[q]).index && self.read_states@[t].request_ctx@ == old(self).read_only.ctx_at(q) by {
                        if t < nlen - 1 {
                            let q0 = choose|q0: int|
                                0 <= q0 < old(self).read_only.queue@.len() && pre_states[t].index
                                    == (#[trigger] old(self).read_only.queue@[q0]).index
                                    && pre_states[t].request_ctx@ == old(self).read_only.ctx_at(
                                    q0,
                                );
                            assert(self.read_states@[t] == pre_states[t]);
                            assert(self.read_states@[t].index == old(self).read_only.queue@[
                                q0
                            ].index);
                            assert(self.read_states@[t].request_ctx@ == old(self).read_only.ctx_at(
                                q0,
                            ));
                        }
                    }
                }
            } else {
                let mut to_send = new_message(req_from, MessageType::MsgReadIndexResp, None);
                to_send.index = rs.index;
                to_send.entries = copy_entries(&rs.req.entries);
                more_to_send.push(to_send);
                proof {
                    let nlen = more_to_send@.len() as int;
                    assert(more_to_send@[nlen - 1].to == old(self).read_only.queue@[
                        i as int
                    ].req.from);
                    assert(more_to_send@[nlen - 1].index == old(self).read_only.queue@[
                        i as int
                    ].index);
                    assert forall|t: int|
                        #![trigger more_to_send@[t]]
                        old(more_to_send)@.len() <= t < nlen implies exists|q: int|
                        0 <= q < old(self).read_only.queue@.len() && more_to_send@[t].to == (
                        #[trigger] old(self).read_only.queue@[q]).req.from && more_to_send@[
                            t
                        ].index == old(self).read_only.queue@[q].index by {
                        if t < nlen - 1 {
                            let q0 = choose|q0: int|
                                0 <= q0 < old(self).read_only.queue@.len() && pre_more[t].to == (
                                #[trigger] old(self).read_only.queue@[q0]).req.from && pre_more[
                                    t
                                ].index == old(self).read_only.queue@[q0].index;
                            assert(more_to_send@[t] == pre_more[t]);
                            assert(more_to_send@[t].to == old(self).read_only.queue@[q0].req.from);
                            assert(more_to_send@[t].index == old(self).read_only.queue@[q0].index);
                        }
                    }
                }
            }
            i = i + 1;
        }
        proof {
            assert(acks_of(acked_ro.queue@[pos as int].acks) == acks_of(
                old(self).read_only.queue@[pos as int].acks,
            ).insert(from));
            assert(prs.spec_has_quorum(acks_of(acked_ro.queue@[pos as int].acks)));
            assert(prs.conf == old(prs).conf);
            assert(prs.next_conf == old(prs).next_conf);
            assert(old(prs).spec_has_quorum(
                acks_of(old(self).read_only.queue@[pos as int].acks).insert(from),
            ));
        }
    }

    /// Takes a transfer request: learners and the leader itself are refused,
    /// a duplicate in-flight request is ignored, and the target either gets
    /// its timeout order at once (if caught up) or the missing entries
    /// first.
    fn handle_transfer_leader(&mut self, m: &Message, prs: &mut ProgressSet)
        requires
            old(self).raft_log.wf(),
            old(prs).wf(),
        ensures
            final(prs).wf(),
            final(prs).ids@ == old(prs).ids@,
            final(prs).conf == old(prs).conf,
            final(prs).next_conf == old(prs).next_conf,
            *final(self) == (Raft {
                msgs: final(self).msgs,
                lead_transferee: final(self).lead_transferee,
                election_elapsed: final(self).election_elapsed,
                ..*old(self)
            }),
            final(self).msgs@.len() >= old(self).msgs@.len(),
            forall|x: u64| #[trigger] final(prs).matched_of(x) == old(prs).matched_of(x),
            (!old(prs).conf.learners.has(m.from) && m.from != old(self).id && old(self).lead_transferee != Some(m.from) && old(prs).has_id(m.from)) ==> {
                &&& final(self).lead_transferee == Some(m.from)
                &&& final(self).election_elapsed == 0
                &&& (old(prs).pr_of(m.from).matched == old(self).raft_log.spec_last_index()
                    ==> final(self).msgs@.len() == old(self).msgs@.len() + 1 && final(self).msgs@.last().msg_type == MessageType::MsgTimeoutNow && final(self).msgs@.last().to == m.from)
            },
            old(self).lead_transferee == Some(m.from) ==> *final(self) == *old(self) && *final(prs) == *old(prs),
    {
        let from = m.from;
        if prs.conf.learners.contains(from) {
            return ;
        }
        let lead_transferee = from;
        let last_lead_transferee = self.lead_transferee;
        match last_lead_transferee {
            Some(last) => {
                if last == lead_transferee {
                    // Already transferring there.
                    return ;
                }
                self.abort_leader_transfer();
            },
            None => {},
        }
        if lead_transferee == self.id {
            return ;
        }
        // The transfer must finish within one election timeout.
        self.election_elapsed = 0;
        self.lead_transferee = Some(lead_transferee);
        let k = match prs.find(from) {
            Some(k) => k,
            None => {
                return ;
            },
        };
        let matched = prs.pr_at(k).matched;
        if matched == self.raft_log.last_index() {
            self.send_timeout_now(lead_transferee);
        } else {
            let p = prs.pr_at_mut(k);
            self.send_append(lead_transferee, p);
            proof {
                lemma_matched_shift(*old(prs), *prs, k as int, 0);
            }
        }
    }

    /// Takes the driver's report on a shipped snapshot: either way the peer
    /// drops back to probing, and a failure also forgets the pending
    /// snapshot; the probe stays paused until the peer answers.
    fn handle_snapshot_status(&mut self, m: &Message, prs: &mut ProgressSet)
        requires
            old(prs).wf(),
        ensures
            final(prs).wf(),
            final(prs).ids@ == old(prs).ids@,
            final(prs).conf == old(prs).conf,
            final(prs).next_conf == old(prs).next_conf,
            *final(self) == *old(self),
            forall|x: u64| #[trigger] final(prs).matched_of(x) == old(prs).matched_of(x),
    {
        let k = match prs.find(m.from) {
            Some(k) => k,
            None => {
                return ;
            },
        };
        let p = prs.pr_at_mut(k);
        if p.state != ProgressState::Snapshot {
            return ;
        }
        if m.reject {
            p.snapshot_failure();
            p.become_probe();
        } else {
            p.become_probe();
        }
        p.pause();
        proof {
            lemma_matched_shift(*old(prs), *prs, k as int, 0);
        }
    }

    /// Routes a leader-side message that concerns a tracked peer to its
    /// handler, collecting what follow-up work is owed.
    fn check_message_with_progress(
        &mut self,
        m: &Message,
        send_append: &mut bool,
        old_paused: &mut bool,
        maybe_commit: &mut bool,
        more_to_send: &mut Vec<Message>,
    )
        requires
            old(self).wf(),
            m.msg_type == MessageType::MsgAppendResponse ==> m.index < u64::MAX
                && m.reject_hint < u64::MAX,
        ensures
            final(self).wf(),
            final(self).term == old(self).term,
            final(self).state == old(self).state,
            final(self).leader_id == old(self).leader_id,
            final(self).raft_log == old(self).raft_log,
            final(self).msgs@.len() >= old(self).msgs@.len(),
            Raft::fixed(*old(self), *final(self)),
            final(self).spec_prs().conf == old(self).spec_prs().conf,
            final(self).spec_prs().next_conf == old(self).spec_prs().next_conf,
            final(self).pending_membership_change == old(self).pending_membership_change,
            final(self).vote == old(self).vote,
            msgs_extend(old(more_to_send)@, final(more_to_send)@),
            forall|t: int|
                old(more_to_send)@.len() <= t < final(more_to_send)@.len()
                    ==> (#[trigger] final(more_to_send)@[t]).msg_type
                    == MessageType::MsgReadIndexResp && final(more_to_send)@[t].term == 0,
            forall|x: u64|
                #[trigger] final(self).spec_prs().matched_of(x)
                    == old(self).spec_prs().matched_of(x) || (m.msg_type
                    == MessageType::MsgAppendResponse && final(self).spec_prs().matched_of(x)
                    <= m.index),
    {
        let present = {
            let prs_ref = self.prs();
            match prs_ref.find(m.from) {
                Some(_) => true,
                None => false,
            }
        };
        if !present {
            return ;
        }
        let mut prs = self.take_prs();
        if m.msg_type == MessageType::MsgAppendResponse {
            self.handle_append_response(m, &mut prs, old_paused, send_append, maybe_commit);
        } else if m.msg_type == MessageType::MsgHeartbeatResponse {
            self.handle_heartbeat_response(m, &mut prs, send_append, more_to_send);
        } else if m.msg_type == MessageType::MsgSnapStatus {
            self.handle_snapshot_status(m, &mut prs);
        } else if m.msg_type == MessageType::MsgUnreachable {
            match prs.find(m.from) {
                Some(k) => {
                    let p = prs.pr_at_mut(k);
                    // An unreachable peer has probably lost pipelined
                    // appends; fall back to probing.
                    if p.state == ProgressState::Replicate {
                        p.become_probe();
                    }
                    proof {
                        lemma_matched_shift(old(self).spec_prs(), prs, k as int, 0);
                    }
                },
                None => {},
            }
        } else if m.msg_type == MessageType::MsgTransferLeader {
            self.handle_transfer_leader(m, &mut prs);
        }
        self.set_prs(prs);
    }

    /// Whether a voter quorum has been heard from since the last check; the
    /// check clears the activity evidence.
    fn check_quorum_active(&mut self) -> (r: bool)
        requires
            old(self).wf(),
        ensures
            final(self).wf(),
            final(self).term == old(self).term,
            final(self).state == old(self).state,
            final(self).msgs@ == old(self).msgs@,
            final(self).raft_log == old(self).raft_log,
            Raft::fixed(*old(self), *final(self)),
            final(self).spec_prs().conf == old(self).spec_prs().conf,
            final(self).spec_prs().next_conf == old(self).spec_prs().next_conf,
            final(self).pending_membership_change == old(self).pending_membership_change,
            final(self).leader_id == old(self).leader_id,
            final(self).vote == old(self).vote,
            forall|x: u64|
                #[trigger] final(self).spec_prs().matched_of(x) == old(self).spec_prs().matched_of(x),
            r == old(self).spec_prs().spec_active_quorum(old(self).id),
            final(self).spec_prs().ids@ == old(self).spec_prs().ids@,
            (*final(self) == (Raft { prs: final(self).prs, ..*old(self) })),
            forall|x: u64|
                final(self).spec_prs().has_id(x) ==> (#[trigger] final(self).spec_prs().pr_of(x))
                    == (Progress { recent_active: false, ..old(self).spec_prs().pr_of(x) }),
    {
        let self_id = self.id;
        let prs = self.mut_prs();
        let active = prs.quorum_recently_active(self_id);
        proof {
            assert forall|x: u64|
                #[trigger] self.spec_prs().matched_of(x) == old(self).spec_prs().matched_of(
                x,
            ) by {
                let a = self.spec_prs();
                let b = old(self).spec_prs();
                if a.has_id(x) {
                    let k1 = a.index_of_id(x);
                    assert(a.ids@[k1] == x);
                    assert(b.ids@[k1] == x);
                    let k2 = b.index_of_id(x);
                    assert(b.ids@[k2] == x);
                    assert(k1 == k2);
                    assert(a.prs@[k1] == (crate::progress::Progress {
                        recent_active: false,
                        ..b.prs@[k1]
                    }));
                } else {
                    assert(!b.has_id(x));
                }
            }
            assert forall|x: u64| self.spec_prs().has_id(x) implies (
            #[trigger] self.spec_prs().pr_of(x)) == (Progress {
                recent_active: false,
                ..old(self).spec_prs().pr_of(x)
            }) by {
                let a = self.spec_prs();
                let b = old(self).spec_prs();
                let k1 = a.index_of_id(x);
                assert(a.ids@[k1] == x);
                assert(b.ids@[k1] == x);
                let k2 = b.index_of_id(x);
                assert(b.ids@[k2] == x);
                assert(k1 == k2);
                assert(a.prs@[k1] == (Progress { recent_active: false, ..b.prs@[k1] }));
            }
        }
        active
    }

    /// Steps the leader: local beats and quorum checks, client proposals,
    /// linearizable reads, and the per-peer answers that drive replication.
    #[verifier::rlimit(100)]
    fn step_leader(&mut self, m: Message) -> (r: Result<(), RaftError>)
        requires
            old(self).wf(),
            old(self).state == StateRole::Leader,
            m.msg_type == MessageType::MsgPropose ==> m.entries@.len() >= 1
                && old(self).raft_log.spec_last_index() + m.entries@.len() < u64::MAX && m.term
                == 0,
            m.msg_type == MessageType::MsgReadIndex ==> m.entries@.len() == 1 && m.term == 0,
            m.msg_type == MessageType::MsgAppendResponse ==> m.index < u64::MAX
                && m.reject_hint < u64::MAX,
        ensures
            Raft::step_post(*old(self), *final(self)),
            r is Err ==> r == Err::<(), RaftError>(RaftError::ProposalDropped),
            (Raft::matched_bounded(*old(self)) && (m.msg_type == MessageType::MsgAppendResponse
                ==> m.index <= old(self).raft_log.spec_last_index())) ==> Raft::matched_bounded(
                *final(self),
            ),
            m.msg_type != MessageType::MsgPropose ==> r is Ok,
            m.msg_type == MessageType::MsgPropose ==> {
                &&& (r is Err <==> (!old(self).spec_prs().conf.voters.has(old(self).id) || old(self).lead_transferee is Some))
                &&& (r is Err ==> *final(self) == *old(self))
                &&& (r is Ok ==> final(self).raft_log.spec_last_index() == old(self).raft_log.spec_last_index() + m.entries@.len())
                &&& ((r is Ok && (old(self).pending_conf_index > old(self).raft_log.applied || old(
                    self,
                ).pending_membership_change is Some)) ==> final(self).pending_conf_index == old(
                    self,
                ).pending_conf_index && forall|k: int|
                    0 <= k < m.entries@.len() ==> (#[trigger] ents_view(
                        final(self).raft_log.entries@,
                    )[old(self).raft_log.entries@.len() + k]).entry_type
                        != EntryType::EntryConfChange)
                &&& ((r is Ok && !(old(self).pending_conf_index > old(self).raft_log.applied || old(
                    self,
                ).pending_membership_change is Some) && (forall|k: int|
                    0 <= k < m.entries@.len() ==> (#[trigger] m.entries@[k]).entry_type
                        != EntryType::EntryConfChange)) ==> final(self).pending_conf_index == old(
                    self,
                ).pending_conf_index && forall|k: int|
                    0 <= k < m.entries@.len() ==> {
                        let e = #[trigger] ents_view(final(self).raft_log.entries@)[old(self).raft_log.entries@.len() + k];
                        e.entry_type == m.entries@[k].entry_type && e.data == m.entries@[k].data@
                    })
                &&& ((r is Ok && !(old(self).pending_conf_index > old(self).raft_log.applied || old(
                    self,
                ).pending_membership_change is Some) && m.entries@.len() == 1 && m.entries@[0].entry_type == EntryType::EntryConfChange) ==> {
                    let e = ents_view(final(self).raft_log.entries@)[old(self).raft_log.entries@.len() as int];
                    &&& final(self).pending_conf_index == old(self).raft_log.spec_last_index() + 1
                    &&& e.entry_type == EntryType::EntryConfChange
                    &&& e.data == m.entries@[0].data@
                })
            },
            m.msg_type == MessageType::MsgCheckQuorum ==> {
                &&& (!old(self).spec_prs().spec_active_quorum(old(self).id) ==> final(self).state
                    == StateRole::Follower && final(self).term == old(self).term && final(self).leader_id == 0)
                &&& (old(self).spec_prs().spec_active_quorum(old(self).id) ==> final(self).state
                    == StateRole::Leader && final(self).election_elapsed == old(self).election_elapsed && final(self).heartbeat_elapsed == old(self).heartbeat_elapsed
                    && final(self).lead_transferee == old(self).lead_transferee && forall|x: u64|
                    final(self).spec_prs().has_id(x) ==> !(#[trigger] final(self).spec_prs().pr_of(
                        x,
                    )).recent_active)
            },
            m.msg_type == MessageType::MsgReadIndex ==> {
                let gate = old(self).raft_log.spec_term(old(self).raft_log.committed) == old(self).term;
                let solo = old(self).spec_prs().spec_has_quorum(
                    Set::<u64>::empty().insert(old(self).id),
                );
                &&& (!gate ==> *final(self) == *old(self))
                &&& ((gate && (solo || (old(self).read_only.option != ReadOnlyOption::Safe && (
                m.from == 0 || m.from == old(self).id)))) ==> {
                    &&& final(self).read_states@.len() == old(self).read_states@.len() + 1
                    &&& final(self).read_states@.last().index == old(self).raft_log.committed
                    &&& final(self).read_states@.last().request_ctx@ == m.entries@[0].data@
                    &&& final(self).msgs@ == old(self).msgs@
                })
                &&& ((gate && !solo && old(self).read_only.option != ReadOnlyOption::Safe && !(
                m.from == 0 || m.from == old(self).id)) ==> {
                    &&& final(self).read_states@ == old(self).read_states@
                    &&& final(self).msgs@.len() == old(self).msgs@.len() + 1
                    &&& final(self).msgs@.last().msg_type == MessageType::MsgReadIndexResp
                    &&& final(self).msgs@.last().to == m.from
                    &&& final(self).msgs@.last().index == old(self).raft_log.committed
                })
                &&& ((gate && !solo && old(self).read_only.option == ReadOnlyOption::Safe) ==> {
                    &&& final(self).read_states@ == old(self).read_states@
                    &&& final(self).read_only.queue@.len() <= old(self).read_only.queue@.len() + 1
                    &&& (final(self).read_only.queue@.len() == old(self).read_only.queue@.len() + 1
                        ==> final(self).read_only.queue@.last().req == m && final(self).read_only.queue@.last().index == old(self).raft_log.committed)
                    &&& final(self).msgs@.len() == old(self).msgs@.len()
                        + crate::idset::count_where(
                        old(self).spec_prs().ids@,
                        |v: u64| v != old(self).id,
                    )
                    &&& forall|k: int|
                        old(self).msgs@.len() <= k < final(self).msgs@.len() ==> (
                        #[trigger] final(self).msgs@[k]).msg_type == MessageType::MsgHeartbeat
                            && final(self).msgs@[k].context@ == m.entries@[0].data@
                })
            },
            m.msg_type == MessageType::MsgBeat ==> {
                &&& final(self).election_elapsed == old(self).election_elapsed
                &&& final(self).heartbeat_elapsed == old(self).heartbeat_elapsed
                &&& final(self).state == old(self).state
                &&& final(self).lead_transferee == old(self).lead_transferee
                &&& final(self).msgs@.len() == old(self).msgs@.len()
                    + crate::idset::count_where(
                    old(self).spec_prs().ids@,
                    |v: u64| v != old(self).id,
                )
                &&& forall|x: u64|
                    old(self).spec_prs().has_id(x) && x != old(self).id ==> exists|k: int|
                        old(self).msgs@.len() <= k < final(self).msgs@.len()
                            && (#[trigger] final(self).msgs@[k]).to == x && final(self).msgs@[k].msg_type == MessageType::MsgHeartbeat && final(self).msgs@[k].commit == vstd::math::min(
                            old(self).spec_prs().matched_of(x) as int,
                            old(self).raft_log.committed as int,
                        )
            },
    {
        if m.msg_type == MessageType::MsgBeat {
            self.bcast_heartbeat();
            proof {
                assert forall|x: u64|
                    old(self).spec_prs().has_id(x) && x != old(self).id implies exists|k: int|
                    old(self).msgs@.len() <= k < self.msgs@.len() && (#[trigger] self.msgs@[k]).to
                        == x && self.msgs@[k].msg_type == MessageType::MsgHeartbeat
                        && self.msgs@[k].commit == vstd::math::min(
                        old(self).spec_prs().matched_of(x) as int,
                        old(self).raft_log.committed as int,
                    ) by {
                    let k0 = choose|k0: int|
                        old(self).msgs@.len() <= k0 < self.msgs@.len() && (#[trigger] self.msgs@[
                            k0
                        ]).to == x && self.msgs@[k0].commit == vstd::math::min(
                            old(self).spec_prs().matched_of(x) as int,
                            old(self).raft_log.committed as int,
                        );
                    assert(self.msgs@[k0].msg_type == MessageType::MsgHeartbeat);
                }
            }
            return Ok(());
        }
        if m.msg_type == MessageType::MsgCheckQuorum {
            let active = self.check_quorum_active();
            if !active {
                // The quorum has gone quiet: step down rather than serve
                // stale reads.
                let term = self.term;
                self.become_follower(term, 0);
            }
            return Ok(());
        }
        if m.msg_type == MessageType::MsgPropose {
            if !self.promotable() {
                // A leader being removed takes no new proposals.
                return Err(RaftError::ProposalDropped);
            }
            match self.lead_transferee {
                Some(_) => {
                    // A transfer is in flight; do not grow the transferred log.
                    return Err(RaftError::ProposalDropped);
                },
                None => {},
            }
            let mut entries = copy_entries(&m.entries);
            let li = self.raft_log.last_index();
            let n = entries.len();
            let mut i: usize = 0;
            let ghost gated0 = old(self).pending_conf_index > old(self).raft_log.applied || old(
                self,
            ).pending_membership_change is Some;
            let ghost noconf = forall|k: int|
                0 <= k < m.entries@.len() ==> (#[trigger] m.entries@[k]).entry_type
                    != EntryType::EntryConfChange;
            while i < n
                invariant
                    n == entries@.len(),
                    i <= n,
                    old(self).wf(),
                    old(self).state == StateRole::Leader,
                    li == old(self).raft_log.spec_last_index(),
                    li + n < u64::MAX,
                    self.raft_log == old(self).raft_log,
                    self.msgs@ == old(self).msgs@,
                    *self == (Raft {
                        pending_conf_index: self.pending_conf_index,
                        ..*old(self)
                    }),
                    n == m.entries@.len(),
                    gated0 == (old(self).pending_conf_index > old(self).raft_log.applied || old(
                        self,
                    ).pending_membership_change is Some),
                    noconf == (forall|k: int|
                        0 <= k < m.entries@.len() ==> (#[trigger] m.entries@[k]).entry_type
                            != EntryType::EntryConfChange),
                    forall|k: int|
                        i <= k < n ==> (#[trigger] ents_view(entries@)[k]) == ents_view(
                            m.entries@,
                        )[k],
                    gated0 ==> self.pending_conf_index == old(self).pending_conf_index && forall|
                        k: int,
                    |
                        0 <= k < i ==> (#[trigger] ents_view(entries@)[k]).entry_type
                            != EntryType::EntryConfChange,
                    (!gated0 && noconf) ==> self.pending_conf_index == old(self).pending_conf_index
                        && forall|k: int|
                        0 <= k < i ==> (#[trigger] ents_view(entries@)[k]) == ents_view(
                            m.entries@,
                        )[k],
                    i == 0 ==> self.pending_conf_index == old(self).pending_conf_index,
                    (!gated0 && n == 1 && m.entries@[0].entry_type == EntryType::EntryConfChange
                        && i == 1) ==> self.pending_conf_index == li + 1 && ents_view(entries@)[0]
                        == ents_view(m.entries@)[0],
                decreases n - i,
            {
                proof {
                    assert(ents_view(entries@)[i as int] == entries@[i as int]@);
                    assert(ents_view(m.entries@)[i as int] == m.entries@[i as int]@);
                }
                let ghost pre_entries = entries@;
                if entries[i].entry_type == EntryType::EntryConfChange {
                    if self.has_pending_conf() {
                        // Only one conf change may be in the pipeline:
                        // neutralize the extra one.
                        let blank = Entry::empty();
                        let slot = &mut entries[i];
                        *slot = blank;
                        proof {
                            assert(ents_view(entries@)[i as int] == entries@[i as int]@);
                            assert forall|k: int| 0 <= k < n && k != i implies (#[trigger] ents_view(
                                entries@,
                            )[k]) == ents_view(pre_entries)[k] by {
                                assert(ents_view(entries@)[k] == entries@[k]@);
                                assert(entries@[k] == pre_entries[k]);
                                assert(ents_view(pre_entries)[k] == pre_entries[k]@);
                            }
                        }
                    } else {
                        self.pending_conf_index = li + i as u64 + 1;
                    }
                }
                i = i + 1;
            }
            let ghost stamped_src = entries@;
            self.append_entry(&entries);
            self.bcast_append();
            proof {
                if gated0 {
                    assert forall|k: int|
                        0 <= k < m.entries@.len() implies (#[trigger] ents_view(
                        self.raft_log.entries@,
                    )[old(self).raft_log.entries@.len() + k]).entry_type
                        != EntryType::EntryConfChange by {
                        assert(ents_view(stamped_src)[k].entry_type != EntryType::EntryConfChange);
                        assert(ents_view(stamped_src)[k] == stamped_src[k]@);
                    }
                }
                if !gated0 && noconf {
                    assert forall|k: int| 0 <= k < m.entries@.len() implies {
                        let e = #[trigger] ents_view(self.raft_log.entries@)[old(self).raft_log.entries@.len() + k];
                        e.entry_type == m.entries@[k].entry_type && e.data == m.entries@[k].data@
                    } by {
                        assert(ents_view(stamped_src)[k] == ents_view(m.entries@)[k]);
                        assert(ents_view(stamped_src)[k] == stamped_src[k]@);
                        assert(ents_view(m.entries@)[k] == m.entries@[k]@);
                    }
                }
                if !gated0 && n == 1 && m.entries@[0].entry_type == EntryType::EntryConfChange {
                    assert(ents_view(stamped_src)[0] == ents_view(m.entries@)[0]);
                    assert(ents_view(stamped_src)[0] == stamped_src[0]@);
                    assert(ents_view(m.entries@)[0] == m.entries@[0]@);
                }
            }
            return Ok(());
        }
        if m.msg_type == MessageType::MsgReadIndex {
            let committed = self.raft_log.committed;
            let current = match self.raft_log.term(committed) {
                Some(t) => t,
                None => 0,
            };
            if current != self.term {
                // Nothing of this term is committed yet: reads must wait
                // for the opening entry to land.
                return Ok(());
            }
            let mut self_set = new_ack_set();
            ack_insert(&mut self_set, self.id);
            let alone = self.prs().has_quorum(&self_set);
            if !alone {
                if self.read_only.option == ReadOnlyOption::Safe {
                    let ctx = copy_bytes(&m.entries[0].data);
                    self.read_only.add_request(committed, m);
                    self.bcast_heartbeat_with_ctx(Some(ctx));
                } else {
                    let mut m = m;
                    let from = m.from;
                    if from == 0 || from == self.id {
                        let data = match m.entries.pop() {
                            Some(e) => e.data,
                            None => Vec::new(),
                        };
                        self.read_states.push(ReadState { index: committed, request_ctx: data });
                    } else {
                        let mut to_send = new_message(from, MessageType::MsgReadIndexResp, None);
                        to_send.index = committed;
                        to_send.entries = m.entries;
                        self.send(to_send);
                    }
                }
            } else {
                let mut m = m;
                let data = match m.entries.pop() {
                    Some(e) => e.data,
                    None => Vec::new(),
                };
                self.read_states.push(ReadState { index: committed, request_ctx: data });
            }
            return Ok(());
        }

        let mut send_append = false;
        let mut maybe_commit = false;
        let mut old_paused = false;
        let mut more_to_send: Vec<Message> = Vec::new();
        self.check_message_with_progress(
            &m,
            &mut send_append,
            &mut old_paused,
            &mut maybe_commit,
            &mut more_to_send,
        );
        if maybe_commit {
            let advanced = self.maybe_commit();
            if advanced {
                if self.should_bcast_commit() {
                    self.bcast_append();
                }
            } else {
                if old_paused {
                    send_append = true;
                }
            }
        }
        if send_append {
            let from = m.from;
            let ghost pre_send = *self;
            let mut prs = self.take_prs();
            match prs.find(from) {
                Some(k) => {
                    let p = prs.pr_at_mut(k);
                    self.send_append(from, p);
                    proof {
                        assert forall|t: int|
                            0 <= t < prs.prs@.len() implies (#[trigger] prs.prs@[t]).wf() by {
                            if t != k {
                                assert(prs.prs@[t] == pre_send.spec_prs().prs@[t]);
                            }
                        }
                        lemma_matched_shift(pre_send.spec_prs(), prs, k as int, 0);
                    }
                },
                None => {},
            }
            self.set_prs(prs);
            proof {
                assert(self.wf());
                assert(forall|x: u64| #[trigger]
                    self.spec_prs().matched_of(x) == pre_send.spec_prs().matched_of(x) || self
                        .spec_prs().matched_of(x) <= 0);
            }
        }
        let mut j: usize = 0;
        let nmore = more_to_send.len();
        while j < nmore
            invariant
                nmore == more_to_send@.len(),
                j <= nmore,
                self.wf(),
                self.term >= old(self).term,
                self.msgs@.len() >= old(self).msgs@.len(),
                Raft::fixed(*old(self), *self),
                self.state != StateRole::Candidate && self.state != StateRole::PreCandidate,
                self.leader_id == old(self).leader_id,
                self.state == old(self).state,
                (Raft::matched_bounded(*old(self)) && (m.msg_type
                    == MessageType::MsgAppendResponse ==> m.index <= old(self).raft_log.spec_last_index())) ==> Raft::matched_bounded(*self),
                forall|t: int|
                    0 <= t < more_to_send@.len() ==> (#[trigger] more_to_send@[t]).msg_type
                        == MessageType::MsgReadIndexResp && more_to_send@[t].term == 0,
            decreases nmore - j,
        {
            let msg = more_to_send[j].dup();
            proof {
                assert(msg.msg_type == more_to_send@[j as int].msg_type);
            }
            self.send(msg);
            j = j + 1;
        }
        Ok(())
    }
}

/// What a driver hands a fresh peer from its stable storage: the persisted
/// hard state, the membership, a possibly unfinished membership change, and
/// the log as far as it survives.
pub struct InitialState {
    /// The persisted term, vote and commit index.
    pub hard_state: HardState,
    /// The persisted membership.
    pub conf_state: ConfState,
    /// The target of an unfinished membership change, if one was underway.
    pub pending_conf_state: Option<ConfState>,
    /// The log index the unfinished change started at; 0 when there is none.
    pub pending_conf_state_start_index: u64,
    /// The last index covered by the newest persisted snapshot.
    pub snap_index: u64,
    /// The term at that index.
    pub snap_term: u64,
    /// The surviving log entries after the snapshot point.
    pub entries: Vec<Entry>,
}

impl InitialState {
    /// A fresh peer with nothing persisted yet.
    pub fn blank(voters: Vec<u64>) -> (r: InitialState)
        ensures
            r.hard_state == (HardState { term: 0, vote: 0, commit: 0 }),
            r.conf_state.nodes@ == voters@,
            r.conf_state.learners@.len() == 0,
            r.pending_conf_state is None,
            r.pending_conf_state_start_index == 0,
            r.snap_index == 0,
            r.snap_term == 0,
            r.entries@.len() == 0,
    {
        InitialState {
            hard_state: HardState { term: 0, vote: 0, commit: 0 },
            conf_state: ConfState { nodes: voters, learners: Vec::new() },
            pending_conf_state: None,
            pending_conf_state_start_index: 0,
            snap_index: 0,
            snap_term: 0,
            entries: Vec::new(),
        }
    }

    /// The constraints under which a peer can be rebuilt from this state:
    /// the log is dense after the snapshot point, the watermarks nest, the
    /// persisted term covers the log, and an unfinished change carries both
    /// its target and its start index.
    pub open spec fn wf(&self, applied: u64) -> bool {
        &&& forall|k: int|
            0 <= k < self.entries@.len() ==> (#[trigger] self.entries@[k]).index == self.snap_index
                + 1 + k
        &&& self.snap_index + self.entries@.len() < u64::MAX
        &&& self.snap_index <= self.hard_state.commit <= self.snap_index + self.entries@.len()
        &&& applied != 0 ==> self.snap_index <= applied <= self.hard_state.commit
        &&& self.entries@.len() > 0 ==> self.entries@.last().term <= self.hard_state.term
        &&& self.entries@.len() > 0 ==> self.entries@.last().term >= 1
        &&& (self.entries@.len() == 0 && self.snap_index > 0) ==> self.snap_term >= 1
        &&& self.snap_term <= self.hard_state.term
        &&& (self.pending_conf_state is Some) == (self.pending_conf_state_start_index > 0)
        &&& match self.pending_conf_state {
            Some(cs) => cs.nodes@.len() > 0,
            None => true,
        }
    }
}

impl Raft {
    /// Builds a peer from its configuration and what the driver recovered
    /// from storage.  The peer starts as a follower at the persisted term,
    /// with every recovered voter and learner probing from the front of the
    /// log, and re-enters joint consensus if a membership change was caught
    /// in flight.
    pub fn new(c: &Config, init: InitialState) -> (r: Result<Raft, RaftError>)
        requires
            init.wf(c.applied),
        ensures
            r is Ok <==> (c.spec_valid() && (init.pending_conf_state is Some
                ==> Configuration::new_valid_spec(init.pending_conf_state))),
            match r {
                Ok(node) => {
                    &&& node.wf()
                    &&& node.id == c.id
                    &&& node.term == init.hard_state.term
                    &&& node.vote == init.hard_state.vote
                    &&& node.state == StateRole::Follower
                    &&& node.leader_id == 0
                    &&& node.raft_log.committed == init.hard_state.commit
                    &&& node.msgs@.len() == 0
                    &&& forall|x: u64| #[trigger]
                        node.spec_prs().conf.voters.has(x) == init.conf_state.nodes@.contains(x)
                    &&& node.spec_prs().spec_in_joint() == (init.pending_conf_state is Some)
                    &&& forall|x: u64| #[trigger]
                        node.spec_prs().conf.learners.has(x) == (
                        init.conf_state.learners@.contains(x)
                            && !init.conf_state.nodes@.contains(x))
                    &&& node.is_learner == (init.conf_state.learners@.contains(c.id)
                        && !init.conf_state.nodes@.contains(c.id))
                    &&& node.raft_log.applied == (if c.applied > init.snap_index {
                        c.applied
                    } else {
                        init.snap_index
                    })
                    &&& node.raft_log.snap_index == init.snap_index
                    &&& node.raft_log.snap_term == init.snap_term
                    &&& ents_view(node.raft_log.entries@) == ents_view(init.entries@)
                    &&& node.raft_log.spec_last_index() == init.snap_index + init.entries@.len()
                    &&& node.election_elapsed == 0
                    &&& node.heartbeat_elapsed == 0
                },
                Err(e) => true,
            },
    {
        if c.validate().is_err() {
            return Err(RaftError::ConfigInvalid);
        }
        let entries = copy_entries(&init.entries);
        proof {
            assert forall|k: int|
                0 <= k < entries@.len() implies (#[trigger] entries@[k]).index == init.snap_index
                + 1 + k by {
                assert(ents_view(entries@)[k] == ents_view(init.entries@)[k]);
                assert(entries@[k]@ == init.entries@[k]@);
            }
        }
        let applied0 = if c.applied > init.snap_index {
            c.applied
        } else {
            init.snap_index
        };
        let log = RaftLog::new(
            init.snap_index,
            init.snap_term,
            entries,
            init.hard_state.commit,
            applied0,
        );
        let mut prs = ProgressSet::new();
        let mut i: usize = 0;
        let nv = init.conf_state.nodes.len();
        while i < nv
            invariant
                nv == init.conf_state.nodes@.len(),
                i <= nv,
                prs.wf(),
                !prs.spec_in_joint(),
                c.max_inflight_msgs >= 1,
                forall|x: u64| #[trigger]
                    prs.conf.voters.has(x) == init.conf_state.nodes@.take(i as int).contains(x),
                prs.conf.learners.items@.len() == 0,
            decreases nv - i,
        {
            let id = init.conf_state.nodes[i];
            let pr = Progress::new(1, c.max_inflight_msgs);
            let ghost pre = prs;
            let res = prs.insert_voter(id, pr);
            proof {
                if res is Err {
                    assert(pre.conf.spec_contains(id));
                    assert(pre.conf.voters.has(id) || pre.conf.learners.has(id));
                    assert(pre.conf.learners.items@.len() == 0);
                    assert(!pre.conf.learners.has(id));
                    assert(prs.conf.voters.items@ == pre.conf.voters.items@);
                }
                assert forall|x: u64| #[trigger]
                    prs.conf.voters.has(x) == init.conf_state.nodes@.take(i as int + 1).contains(
                    x,
                ) by {
                    crate::idset::lemma_take_succ_contains(init.conf_state.nodes@, i as int, x);
                    if res is Err {
                        assert(prs.conf.voters.has(x) == pre.conf.voters.has(x));
                        assert(pre.conf.voters.has(id));
                        assert(init.conf_state.nodes@.take(i as int).contains(id));
                    } else {
                        assert(prs.conf.voters.has(x) == (pre.conf.voters.has(x) || x == id));
                    }
                    assert(init.conf_state.nodes@[i as int] == id);
                }
            }
            i = i + 1;
        }
        proof {
            assert(init.conf_state.nodes@.take(nv as int) =~= init.conf_state.nodes@);
        }
        let mut is_learner = false;
        let mut j: usize = 0;
        let nl = init.conf_state.learners.len();
        while j < nl
            invariant
                nl == init.conf_state.learners@.len(),
                j <= nl,
                prs.wf(),
                !prs.spec_in_joint(),
                c.max_inflight_msgs >= 1,
                forall|x: u64| #[trigger]
                    prs.conf.voters.has(x) == init.conf_state.nodes@.contains(x),
                forall|x: u64| #[trigger]
                    prs.conf.learners.has(x) == (init.conf_state.learners@.take(
                        j as int,
                    ).contains(x) && !init.conf_state.nodes@.contains(x)),
                is_learner == (init.conf_state.learners@.take(j as int).contains(c.id)
                    && !init.conf_state.nodes@.contains(c.id)),
            decreases nl - j,
        {
            let id = init.conf_state.learners[j];
            let pr = Progress::new(1, c.max_inflight_msgs);
            let ghost pre = prs;
            let res = prs.insert_learner(id, pr);
            proof {
                if res is Err {
                    assert(prs.conf.voters.items@ == pre.conf.voters.items@);
                } else {
                    assert(prs.conf.voters.items@ == pre.conf.voters.items@);
                }
                assert forall|x: u64| #[trigger]
                    prs.conf.voters.has(x) == init.conf_state.nodes@.contains(x) by {
                    assert(prs.conf.voters.has(x) == pre.conf.voters.has(x));
                }
                assert(init.conf_state.learners@[j as int] == id);
                assert forall|x: u64| #[trigger]
                    prs.conf.learners.has(x) == (init.conf_state.learners@.take(
                    j as int + 1,
                ).contains(x) && !init.conf_state.nodes@.contains(x)) by {
                    crate::idset::lemma_take_succ_contains(init.conf_state.learners@, j as int, x);
                    if res is Err {
                        assert(prs.conf.learners.has(x) == pre.conf.learners.has(x));
                        assert(pre.conf.spec_contains(id));
                        if x == id && !init.conf_state.nodes@.contains(id) {
                            assert(!pre.conf.voters.has(id));
                            assert(pre.conf.learners.has(id));
                            assert(init.conf_state.learners@.take(j as int).contains(id));
                        }
                    } else {
                        assert(prs.conf.learners.has(x) == (pre.conf.learners.has(x) || x == id));
                        assert(!pre.conf.spec_contains(id));
                        assert(!pre.conf.voters.has(id));
                        assert(!init.conf_state.nodes@.contains(id));
                    }
                }
            }
            if res.is_ok() && id == c.id {
                is_learner = true;
            }
            proof {
                crate::idset::lemma_take_succ_contains(init.conf_state.learners@, j as int, c.id);
            }
            j = j + 1;
        }
        let mut node = Raft {
            term: init.hard_state.term,
            vote: init.hard_state.vote,
            id: c.id,
            read_states: Vec::new(),
            raft_log: log,
            max_inflight: c.max_inflight_msgs,
            max_msg_size: c.max_size_per_msg,
            prs: Some(prs),
            state: StateRole::Follower,
            is_learner,
            votes: new_vote_book(),
            msgs: Vec::new(),
            leader_id: 0,
            lead_transferee: None,
            pending_conf_index: 0,
            pending_membership_change: None,
            read_only: ReadOnly::new(c.read_only_option),
            election_elapsed: 0,
            heartbeat_elapsed: 0,
            check_quorum: c.check_quorum,
            pre_vote: c.pre_vote,
            skip_bcast_commit: c.skip_bcast_commit,
            batch_append: c.batch_append,
            heartbeat_timeout: c.heartbeat_tick,
            election_timeout: c.election_tick,
            randomized_election_timeout: 0,
            min_election_timeout: c.min_election_tick(),
            max_election_timeout: c.max_election_tick(),
        };
        proof {
            if node.raft_log.entries@.len() > 0 {
                let fl = node.raft_log.entries@.len() as int;
                assert(node.raft_log.entries@[fl - 1]@ == ents_view(node.raft_log.entries@)[fl
                    - 1]);
                assert(ents_view(node.raft_log.entries@)[fl - 1] == ents_view(init.entries@)[fl
                    - 1]);
                assert(init.entries@[fl - 1]@ == ents_view(init.entries@)[fl - 1]);
                assert(node.raft_log.entries@[fl - 1].term == init.entries@[fl - 1].term);
                assert(init.entries@.last().term <= init.hard_state.term);
            }
            assert(node.raft_log.spec_last_term() <= node.term);
            assert(node.wf());
        }
        let ghost built = node;
        let term = node.term;
        node.become_follower(term, 0);
        let ghost after_follower = node;
        match &init.pending_conf_state {
            Some(cs) => {
                let cc = ConfChange {
                    change_type: ConfChangeType::BeginMembershipChange,
                    node_id: 0,
                    configuration: Some(cs.dup()),
                    start_index: init.pending_conf_state_start_index,
                };
                let ghost gcc = cc;
                let res = node.begin_membership_change(&cc);
                proof {
                    match (gcc.configuration, init.pending_conf_state) {
                        (Some(a), Some(b)) => {
                            assert(a@ == b@);
                            assert(a.nodes@ == b.nodes@);
                            assert(a.learners@ == b.learners@);
                            assert(Configuration::new_valid_spec(gcc.configuration)
                                == Configuration::new_valid_spec(init.pending_conf_state));
                        },
                        _ => {},
                    }
                }
                if res.is_err() {
                    return Err(RaftError::ViolatesContract);
                }
            },
            None => {},
        }
        proof {
            assert forall|x: u64| #[trigger]
                node.spec_prs().conf.voters.has(x) == init.conf_state.nodes@.contains(x) by {
                assert(after_follower.spec_prs().conf == built.spec_prs().conf);
                assert(built.spec_prs().conf.voters.has(x) == init.conf_state.nodes@.contains(x));
                assert(node.spec_prs().conf.voters.items@
                    == after_follower.spec_prs().conf.voters.items@);
                assert(node.spec_prs().conf.voters.items@.contains(x)
                    == after_follower.spec_prs().conf.voters.items@.contains(x));
            }
            assert(init.conf_state.learners@.take(nl as int) =~= init.conf_state.learners@);
            assert forall|x: u64| #[trigger]
                node.spec_prs().conf.learners.has(x) == (init.conf_state.learners@.contains(x)
                    && !init.conf_state.nodes@.contains(x)) by {
                assert(after_follower.spec_prs().conf == built.spec_prs().conf);
                assert(built.spec_prs().conf.learners.has(x) == (
                init.conf_state.learners@.contains(x) && !init.conf_state.nodes@.contains(x)));
                assert(node.spec_prs().conf.learners.items@
                    == after_follower.spec_prs().conf.learners.items@);
                assert(node.spec_prs().conf.learners.items@.contains(x)
                    == after_follower.spec_prs().conf.learners.items@.contains(x));
            }
            assert(built.is_learner == (init.conf_state.learners@.contains(c.id)
                && !init.conf_state.nodes@.contains(c.id)));
        }
        Ok(node)
    }

    /// Applies a `BeginMembershipChange` record: the carried target
    /// configuration becomes the second active one, every new peer gets a
    /// probing progress record, and the conf-change gate moves to at least
    /// the record's start index.  Refused when the record is not a
    /// well-formed begin or a change is already in flight.
    pub fn begin_membership_change(&mut self, cc: &ConfChange) -> (r: Result<(), RaftError>)
        requires
            old(self).wf(),
        ensures
            final(self).wf(),
            final(self).term == old(self).term,
            final(self).state == old(self).state,
            final(self).msgs@ == old(self).msgs@,
            final(self).vote == old(self).vote,
            final(self).leader_id == old(self).leader_id,
            final(self).raft_log == old(self).raft_log,
            final(self).spec_prs().conf.voters.items@ == old(self).spec_prs().conf.voters.items@,
            final(self).spec_prs().conf.learners.items@ == old(self).spec_prs().conf.learners.items@,
            final(self).is_learner == old(self).is_learner,
            final(self).election_elapsed == old(self).election_elapsed,
            final(self).heartbeat_elapsed == old(self).heartbeat_elapsed,
            final(self).read_states@ == old(self).read_states@,
            Raft::fixed(*old(self), *final(self)),
            r is Ok <==> (cc.change_type == ConfChangeType::BeginMembershipChange
                && cc.configuration is Some && cc.start_index != 0
                && !old(self).spec_prs().spec_in_joint() && Configuration::new_valid_spec(
                cc.configuration,
            )),
            r is Ok ==> final(self).spec_prs().spec_in_joint()
                && final(self).pending_membership_change is Some,
            r is Err ==> final(self).spec_prs().spec_in_joint() == old(self).spec_prs().spec_in_joint() && final(self).pending_membership_change == old(self).pending_membership_change,
    {
        if cc.change_type != ConfChangeType::BeginMembershipChange {
            return Err(RaftError::ViolatesContract);
        }
        let cs = match &cc.configuration {
            Some(cs) => cs,
            None => {
                return Err(RaftError::ViolatesContract);
            },
        };
        if cc.start_index == 0 {
            return Err(RaftError::ViolatesContract);
        }
        let target = Configuration::new(&cs.nodes, &cs.learners);
        proof {
            if cs.nodes@.len() > 0 {
                assert(cs.nodes@.contains(cs.nodes@[0]));
                assert(target.voters.has(cs.nodes@[0]));
                assert(target.voters.items@.contains(cs.nodes@[0]));
                assert(target.voters.items@.len() > 0);
            }
            if target.voters.items@.len() > 0 {
                assert(target.voters.items@.contains(target.voters.items@[0]));
                assert(target.voters.has(target.voters.items@[0]));
                assert(cs.nodes@.contains(target.voters.items@[0]));
            }
            if target.spec_valid() {
                assert forall|x: u64|
                    !(cs.nodes@.contains(x) && #[trigger] cs.learners@.contains(x)) by {
                    assert(cs.nodes@.contains(x) == target.voters.has(x));
                    assert(cs.learners@.contains(x) == target.learners.has(x));
                    assert(!(target.voters.has(x) && target.learners.has(x)));
                }
            }
            if Configuration::new_valid_spec(cc.configuration) {
                assert forall|x: u64|
                    !(target.voters.has(x) && #[trigger] target.learners.has(x)) by {
                    assert(cs.nodes@.contains(x) == target.voters.has(x));
                    assert(cs.learners@.contains(x) == target.learners.has(x));
                    assert(!(cs.nodes@.contains(x) && cs.learners@.contains(x)));
                }
            }
            assert(target.spec_valid() == Configuration::new_valid_spec(cc.configuration));
        }
        let next_idx = self.raft_log.last_index();
        let pr = Progress::new(if next_idx < u64::MAX {
            next_idx + 1
        } else {
            next_idx
        }, self.max_inflight);
        let prs = self.mut_prs();
        let res = prs.begin_membership_change(&target, &pr);
        if res.is_err() {
            proof {
                assert(self.spec_prs().unchanged_from(&old(self).spec_prs()));
            }
            return Err(RaftError::ViolatesContract);
        }
        self.set_pending_membership_change(cc.dup());
        proof {
            assert(self.wf());
        }
        Ok(())
    }

    /// Applies a `FinalizeMembershipChange` record: the target configuration
    /// becomes the only one, peers outside it are dropped, and a leader that
    /// legislated itself away steps down.  Refused when the record carries a
    /// configuration, and answered with `NoPendingMembershipChange` when no
    /// change is in flight, so re-finalizing changes nothing.
    pub fn finalize_membership_change(&mut self, cc: &ConfChange) -> (r: Result<(), RaftError>)
        requires
            old(self).wf(),
        ensures
            final(self).wf(),
            final(self).term == old(self).term,
            final(self).msgs@ == old(self).msgs@,
            Raft::fixed(*old(self), *final(self)),
            r is Ok <==> (cc.change_type == ConfChangeType::FinalizeMembershipChange
                && cc.configuration is None && old(self).spec_prs().spec_in_joint()),
            !old(self).spec_prs().spec_in_joint() && cc.change_type
                == ConfChangeType::FinalizeMembershipChange && cc.configuration is None ==> r
                == Err::<(), RaftError>(RaftError::NoPendingMembershipChange),
            r is Err ==> *final(self) == *old(self),
            r is Ok ==> {
                &&& !final(self).spec_prs().spec_in_joint()
                &&& final(self).pending_membership_change is None
                &&& match old(self).spec_prs().next_conf {
                    Some(c) => {
                        &&& final(self).spec_prs().conf.voters.items@ == c.voters.items@
                        &&& (old(self).state == StateRole::Leader && !c.voters.has(
                            old(self).leader_id,
                        ) && !c.learners.has(old(self).leader_id)) ==> final(self).state
                            == StateRole::Follower
                        &&& (!c.voters.has(old(self).leader_id) && !c.learners.has(
                            old(self).leader_id,
                        )) ==> final(self).leader_id == 0
                        &&& forall|x: u64| #[trigger]
                            final(self).spec_prs().has_id(x) == (old(self).spec_prs().has_id(x)
                                && (c.voters.has(x) || c.learners.has(x)))
                    },
                    None => false,
                }
            },
    {
        if cc.change_type != ConfChangeType::FinalizeMembershipChange {
            return Err(RaftError::ViolatesContract);
        }
        match &cc.configuration {
            Some(_) => {
                return Err(RaftError::ViolatesContract);
            },
            None => {},
        }
        let leader_in_new_set = {
            let prs_ref = self.prs();
            match &prs_ref.next_conf {
                Some(next) => next.contains(self.leader_id),
                None => {
                    return Err(RaftError::NoPendingMembershipChange);
                },
            }
        };
        if !leader_in_new_set {
            // A leader legislated out of the cluster steps down; a follower
            // merely forgets a leader it can no longer name.
            if self.state == StateRole::Leader {
                let last_term = self.raft_log.last_term();
                self.become_follower(last_term, 0);
            } else {
                self.leader_id = 0;
            }
        }
        let ghost mid1 = *self;
        let prs = self.mut_prs();
        let res = prs.finalize_membership_change();
        if res.is_err() {
            proof {
                assert(false);
            }
            return Err(RaftError::NoPendingMembershipChange);
        }
        self.clear_pending_membership_change();
        proof {
            assert(self.wf());
            assert(mid1.spec_prs().ids@ == old(self).spec_prs().ids@);
            assert(mid1.spec_prs().next_conf == old(self).spec_prs().next_conf);
            match old(self).spec_prs().next_conf {
                Some(c) => {
                    assert forall|x: u64| #[trigger]
                        self.spec_prs().has_id(x) == (old(self).spec_prs().has_id(x) && (
                        c.voters.has(x) || c.learners.has(x))) by {
                        assert(self.spec_prs().has_id(x) == (mid1.spec_prs().has_id(x)
                            && c.spec_contains(x)));
                        assert(mid1.spec_prs().has_id(x) == old(self).spec_prs().has_id(x));
                    }
                },
                None => {},
            }
        }
        Ok(())
    }

    /// Proposes that the cluster change its membership to `config`: a
    /// `BeginMembershipChange` record carrying the target and its future log
    /// index is serialized into a conf-change entry and routed through the
    /// ordinary proposal path.
    pub fn propose_membership_change(&mut self, config: ConfState) -> (r: Result<(), RaftError>)
        requires
            old(self).wf(),
            old(self).raft_log.spec_last_index() + 1 < u64::MAX,
        ensures
            final(self).wf(),
            final(self).term >= old(self).term,
            final(self).msgs@.len() >= old(self).msgs@.len(),
            Raft::fixed(*old(self), *final(self)),
            old(self).state != StateRole::Leader ==> (r == Err::<(), RaftError>(
                RaftError::InvalidState,
            ) && *final(self) == *old(self)),
            r is Ok <==> (old(self).state == StateRole::Leader
                && Configuration::new_valid_spec(Some(config)) && old(self).spec_prs().conf.voters.has(old(self).id) && old(self).lead_transferee is None),
            r is Err ==> *final(self) == *old(self),
            r is Ok ==> final(self).raft_log.spec_last_index() == old(self).raft_log.spec_last_index() + 1,
            (r is Ok && !(old(self).pending_conf_index > old(self).raft_log.applied || old(self).pending_membership_change is Some)) ==> {
                let e = ents_view(final(self).raft_log.entries@)[old(self).raft_log.entries@.len() as int];
                &&& final(self).pending_conf_index == old(self).raft_log.spec_last_index() + 1
                &&& e.entry_type == EntryType::EntryConfChange
                &&& e.data == crate::codec::spec_encoding(ConfChangeV {
                    change_type: ConfChangeType::BeginMembershipChange,
                    node_id: 0,
                    configuration: Some(config@),
                    start_index: (old(self).raft_log.spec_last_index() + 1) as u64,
                })
            },
    {
        if self.state != StateRole::Leader {
            return Err(RaftError::InvalidState);
        }
        let target = Configuration::new(&config.nodes, &config.learners);
        proof {
            if config.nodes@.len() > 0 {
                assert(config.nodes@.contains(config.nodes@[0]));
                assert(target.voters.has(config.nodes@[0]));
                assert(target.voters.items@.contains(config.nodes@[0]));
                assert(target.voters.items@.len() > 0);
            }
            if target.voters.items@.len() > 0 {
                assert(target.voters.items@.contains(target.voters.items@[0]));
                assert(target.voters.has(target.voters.items@[0]));
                assert(config.nodes@.contains(target.voters.items@[0]));
            }
            if target.spec_valid() {
                assert forall|x: u64|
                    !(config.nodes@.contains(x) && #[trigger] config.learners@.contains(x)) by {
                    assert(config.nodes@.contains(x) == target.voters.has(x));
                    assert(config.learners@.contains(x) == target.learners.has(x));
                    assert(!(target.voters.has(x) && target.learners.has(x)));
                }
            }
            if Configuration::new_valid_spec(Some(config)) {
                assert forall|x: u64|
                    !(target.voters.has(x) && #[trigger] target.learners.has(x)) by {
                    assert(config.nodes@.contains(x) == target.voters.has(x));
                    assert(config.learners@.contains(x) == target.learners.has(x));
                    assert(!(config.nodes@.contains(x) && config.learners@.contains(x)));
                }
            }
            assert(target.spec_valid() == Configuration::new_valid_spec(Some(config)));
        }
        if target.valid().is_err() {
            return Err(RaftError::ViolatesContract);
        }
        let destination_index = self.raft_log.last_index() + 1;
        let cc = ConfChange {
            change_type: ConfChangeType::BeginMembershipChange,
            node_id: 0,
            configuration: Some(config),
            start_index: destination_index,
        };
        let data = crate::codec::encode_conf_change(&cc);
        let mut e = Entry::empty();
        e.entry_type = EntryType::EntryConfChange;
        e.data = data;
        let mut msg = new_message(0, MessageType::MsgPropose, Some(self.id));
        msg.index = destination_index;
        msg.entries = Vec::new();
        msg.entries.push(e);
        let res = self.step(msg);
        match res {
            Ok(_) => Ok(()),
            Err(e) => Err(e),
        }
    }

    /// Records that the driver has applied the log up to `applied`; a leader
    /// that sees its pending membership change applied appends the
    /// finalizing entry right away.
    pub fn commit_apply(&mut self, applied: u64)
        requires
            old(self).wf(),
            applied != 0 ==> old(self).raft_log.applied <= applied <= old(self).raft_log.committed,
            old(self).raft_log.spec_last_index() + 1 < u64::MAX,
        ensures
            final(self).wf(),
            final(self).term == old(self).term,
            final(self).msgs@.len() >= old(self).msgs@.len(),
            Raft::fixed(*old(self), *final(self)),
            final(self).raft_log.applied == if applied == 0 {
                old(self).raft_log.applied
            } else {
                applied
            },
            ({
                let fires = applied != 0 && old(self).state == StateRole::Leader && match old(self).pending_membership_change {
                    Some(cc) => applied >= cc.start_index,
                    None => false,
                };
                &&& (fires ==> final(self).raft_log.spec_last_index() == old(self).raft_log.spec_last_index() + 1 && ents_view(
                    final(self).raft_log.entries@,
                ).last().entry_type == EntryType::EntryConfChange)
                &&& (!fires ==> final(self).msgs@ == old(self).msgs@ && final(self).raft_log == (
                RaftLog { applied: final(self).raft_log.applied, ..old(self).raft_log }))
            }),
    {
        self.raft_log.applied_to(applied);
        let start = match &self.pending_membership_change {
            Some(cc) => Some(cc.start_index),
            None => None,
        };
        match start {
            Some(index) => {
                if applied >= index && applied != 0 && self.state == StateRole::Leader {
                    self.append_finalize_conf_change_entry();
                }
            },
            None => {},
        }
    }

    /// Adds `id` as a voter.
    pub fn add_node(&mut self, id: u64) -> (r: Result<(), RaftError>)
        requires
            old(self).wf(),
            old(self).raft_log.spec_last_index() < u64::MAX,
        ensures
            final(self).wf(),
            final(self).term == old(self).term,
            final(self).msgs@ == old(self).msgs@,
            Raft::fixed(*old(self), *final(self)),
            r is Err <==> (old(self).spec_prs().spec_in_joint() || (!old(self).spec_prs().conf.learners.has(id) && old(self).spec_prs().conf.voters.has(id))),
            r is Ok ==> final(self).spec_prs().conf.voters.has(id) && !final(self).spec_prs().conf.learners.has(id) && (old(self).id == id ==> !final(self).is_learner),
    {
        self.add_voter_or_learner(id, false)
    }

    /// Adds `id` as a learner.
    pub fn add_learner(&mut self, id: u64) -> (r: Result<(), RaftError>)
        requires
            old(self).wf(),
            old(self).raft_log.spec_last_index() < u64::MAX,
        ensures
            final(self).wf(),
            final(self).term == old(self).term,
            final(self).msgs@ == old(self).msgs@,
            Raft::fixed(*old(self), *final(self)),
            r is Err <==> (old(self).spec_prs().spec_in_joint() || old(self).spec_prs().conf.spec_contains(id)),
            r is Ok ==> !final(self).spec_prs().conf.voters.has(id) && final(self).spec_prs().conf.learners.has(id) && (old(self).id == id ==> final(self).is_learner),
    {
        self.add_voter_or_learner(id, true)
    }

    /// Adds `id` in the requested role: a present learner may be promoted to
    /// voter, anything else must be new.  A fresh peer starts recently
    /// active so an imminent quorum check does not depose the leader for its
    /// silence.
    fn add_voter_or_learner(&mut self, id: u64, learner: bool) -> (r: Result<(), RaftError>)
        requires
            old(self).wf(),
            old(self).raft_log.spec_last_index() < u64::MAX,
        ensures
            final(self).wf(),
            final(self).term == old(self).term,
            final(self).msgs@ == old(self).msgs@,
            Raft::fixed(*old(self), *final(self)),
            r is Err <==> (old(self).spec_prs().spec_in_joint() || (learner && old(self).spec_prs().conf.spec_contains(id)) || (!learner && !old(self).spec_prs().conf.learners.has(id)
                && old(self).spec_prs().conf.voters.has(id))),
            r is Ok ==> {
                &&& final(self).spec_prs().conf.voters.has(id) == !learner
                &&& final(self).spec_prs().conf.learners.has(id) == learner
                &&& (old(self).id == id ==> final(self).is_learner == learner)
                &&& (final(self).spec_prs().has_id(id) ==> final(self).spec_prs().pr_of(
                    id,
                ).recent_active)
                &&& ((!old(self).spec_prs().has_id(id) && final(self).spec_prs().has_id(id)) ==> {
                    let p = final(self).spec_prs().pr_of(id);
                    p.matched == 0 && p.next_idx == old(self).raft_log.spec_last_index() + 1
                        && p.state == ProgressState::Probe
                })
            },
    {
        let next_idx = self.raft_log.last_index() + 1;
        let max_inflight = self.max_inflight;
        let is_self = self.id == id;
        let result = if learner {
            let progress = Progress::new(next_idx, max_inflight);
            let prs = self.mut_prs();
            prs.insert_learner(id, progress)
        } else {
            let already_learner = {
                let prs_ref = self.prs();
                prs_ref.conf.learners.contains(id)
            };
            if already_learner {
                let prs = self.mut_prs();
                prs.promote_learner(id)
            } else {
                let progress = Progress::new(next_idx, max_inflight);
                let prs = self.mut_prs();
                prs.insert_voter(id, progress)
            }
        };
        if result.is_err() {
            proof {
                assert(self.spec_prs().conf.voters.items@ == old(self).spec_prs().conf.voters.items@);
                assert(self.wf());
            }
            return result;
        }
        if is_self {
            self.is_learner = learner;
        }
        let ghost mid = *self;
        let prs = self.mut_prs();
        match prs.find(id) {
            Some(k) => {
                let p = prs.pr_at_mut(k);
                p.recent_active = true;
                proof {
                    assert forall|t: int|
                        0 <= t < self.spec_prs().prs@.len() implies (#[trigger] self.spec_prs()
                            .prs@[t]).wf() by {
                        if t != k {
                            assert(self.spec_prs().prs@[t] == mid.spec_prs().prs@[t]);
                        }
                    }
                    assert(self.spec_prs().ids@[k as int] == id);
                    let jx = self.spec_prs().index_of_id(id);
                    assert(self.spec_prs().ids@[jx] == id);
                    assert(jx == k as int);
                    assert(self.spec_prs().pr_of(id) == self.spec_prs().prs@[k as int]);
                    assert(mid.spec_prs().index_of_id(id) == k as int);
                    assert(mid.spec_prs().pr_of(id) == mid.spec_prs().prs@[k as int]);
                }
            },
            None => {},
        }
        proof {
            assert(self.spec_prs().wf());
            if self.state == StateRole::Leader {
                let oldv = old(self).spec_prs().conf.voters;
                let newv = self.spec_prs().conf.voters;
                assert(oldv.items@.len() > 0);
                let w = oldv.items@[0];
                assert(oldv.items@.contains(w));
                assert(oldv.has(w));
                assert(newv.has(w));
                assert(newv.items@.contains(w));
                assert(newv.items@.len() > 0);
            }
            assert(self.wf());
        }
        Ok(())
    }

    /// Removes `id` from the cluster; with peers left, a smaller quorum may
    /// let pending entries commit, and a transfer towards the removed peer
    /// is abandoned.
    pub fn remove_node(&mut self, id: u64) -> (r: Result<(), RaftError>)
        requires
            old(self).wf(),
            old(self).state == StateRole::Leader
                ==> (old(self).spec_prs().conf.voters.items@.len() > 1
                || !old(self).spec_prs().conf.voters.has(id)),
        ensures
            final(self).wf(),
            final(self).term == old(self).term,
            final(self).msgs@.len() >= old(self).msgs@.len(),
            Raft::fixed(*old(self), *final(self)),
            r is Err <==> old(self).spec_prs().spec_in_joint(),
            r is Ok ==> {
                &&& !final(self).spec_prs().conf.voters.has(id)
                &&& !final(self).spec_prs().conf.learners.has(id)
                &&& !final(self).spec_prs().has_id(id)
                &&& (old(self).state == StateRole::Leader ==> final(self).lead_transferee != Some(
                    id,
                ))
            },
    {
        {
            let prs = self.mut_prs();
            let res = prs.remove(id);
            if res.is_err() {
                proof {
                    assert(self.wf());
                }
                return Err(RaftError::ViolatesContract);
            }
        }
        proof {
            assert(self.wf_base());
            assert(!self.spec_prs().has_id(id));
            assert(!self.spec_prs().conf.voters.has(id));
            assert(!self.spec_prs().conf.learners.has(id));
            if self.state == StateRole::Leader {
                let oldv = old(self).spec_prs().conf.voters;
                let newv = self.spec_prs().conf.voters;
                assert(oldv.items@.len() > 0);
                if !oldv.has(id) {
                    let w = oldv.items@[0];
                    assert(oldv.items@.contains(w));
                    assert(oldv.has(w));
                    assert(newv.has(w));
                    assert(newv.items@.contains(w));
                    assert(newv.items@.len() > 0);
                } else {
                    assert(oldv.items@.len() > 1);
                    let a = oldv.items@[0];
                    let b = oldv.items@[1];
                    assert(oldv.items@.contains(a) && oldv.items@.contains(b));
                    assert(a != b);
                    if a != id {
                        assert(newv.has(a));
                        assert(newv.items@.contains(a));
                    } else {
                        assert(newv.has(b));
                        assert(newv.items@.contains(b));
                    }
                    assert(newv.items@.len() > 0);
                }
            }
        }
        let no_voters = {
            let prs_ref = self.prs();
            prs_ref.conf.voters.is_empty()
        };
        let no_learners = {
            let prs_ref = self.prs();
            prs_ref.conf.learners.is_empty()
        };
        if no_voters && no_learners {
            proof {
                assert(self.state != StateRole::Leader);
            }
            return Ok(());
        }
        // The quorum shrank: entries may be committable now.
        if !no_voters {
            proof {
                assert(self.wf());
            }
            if self.maybe_commit() {
                if self.should_bcast_commit() {
                    self.bcast_append();
                }
            }
        }
        let transferring_there = match self.lead_transferee {
            Some(t) => t == id,
            None => false,
        };
        if self.state == StateRole::Leader && transferring_there {
            self.abort_leader_transfer();
        }
        proof {
            assert(self.wf());
        }
        Ok(())
    }

    /// Overwrites the progress of a voter or learner, for a driver that
    /// reconstructs state.
    pub fn set_progress(&mut self, id: u64, matched: u64, next_idx: u64, is_learner: bool)
        requires
            old(self).wf(),
            !old(self).spec_prs().spec_in_joint(),
            !old(self).spec_prs().conf.spec_contains(id),
            1 <= next_idx,
            matched < u64::MAX,
        ensures
            final(self).wf(),
            final(self).term == old(self).term,
            final(self).msgs@ == old(self).msgs@,
            Raft::fixed(*old(self), *final(self)),
    {
        let mut p = Progress::new(next_idx, self.max_inflight);
        p.matched = matched;
        let prs = self.mut_prs();
        if is_learner {
            let _ = prs.insert_learner(id, p);
        } else {
            let _ = prs.insert_voter(id, p);
        }
        proof {
            assert(self.wf());
        }
    }

    /// Loads a persisted hard state into a running node.
    pub fn load_state(&mut self, hs: &HardState)
        requires
            old(self).wf(),
            old(self).raft_log.committed <= hs.commit <= old(self).raft_log.spec_last_index(),
            hs.term >= old(self).raft_log.spec_last_term(),
            old(self).state == StateRole::Leader ==> hs.term == old(self).term,
            old(self).state == StateRole::Candidate ==> hs.term >= 1,
            hs.commit >= old(self).raft_log.applied,
        ensures
            final(self).wf(),
            final(self).term == hs.term,
            final(self).vote == hs.vote,
            final(self).raft_log.committed == hs.commit,
            final(self).msgs@ == old(self).msgs@,
            Raft::fixed(*old(self), *final(self)),
            *final(self) == (Raft {
                term: hs.term,
                vote: hs.vote,
                raft_log: final(self).raft_log,
                ..*old(self)
            }),
            final(self).raft_log == (RaftLog { committed: hs.commit, ..old(self).raft_log }),
    {
        self.raft_log.commit_to(hs.commit);
        self.term = hs.term;
        self.vote = hs.vote;
    }

    /// The machine limits a tick must respect: counters and campaign
    /// bookkeeping may not overflow.
    pub open spec fn tick_fits(&self) -> bool {
        &&& self.election_elapsed < usize::MAX
        &&& self.heartbeat_elapsed < usize::MAX
        &&& self.term < u64::MAX
        &&& self.raft_log.spec_last_index() + 2 < u64::MAX
    }

    /// Advances time by one tick: a follower or candidate counts towards an
    /// election, a leader counts towards a heartbeat (and its own quorum
    /// check).  Answers whether anything observable may have happened.
    pub fn tick(&mut self) -> (r: bool)
        requires
            old(self).wf(),
            old(self).tick_fits(),
        ensures
            Raft::step_post(*old(self), *final(self)),
            Raft::matched_bounded(*old(self)) ==> Raft::matched_bounded(*final(self)),
            old(self).state != StateRole::Leader ==> {
                &&& r == (old(self).election_elapsed + 1 >= old(self).randomized_election_timeout
                    && old(self).spec_prs().conf.voters.has(old(self).id))
                &&& (!r ==> *final(self) == (Raft {
                    election_elapsed: (old(self).election_elapsed + 1) as usize,
                    ..*old(self)
                }))
                &&& (r ==> final(self).election_elapsed == 0)
                &&& ((r && !Raft::spec_has_unapplied_conf(old(self).raft_log)) ==> final(self).state != StateRole::Follower)
            },
            old(self).state == StateRole::Leader ==> {
                &&& ((old(self).election_elapsed + 1 < old(self).election_timeout && old(self).heartbeat_elapsed + 1 < old(self).heartbeat_timeout) ==> !r && *final(self) == (Raft {
                    election_elapsed: (old(self).election_elapsed + 1) as usize,
                    heartbeat_elapsed: (old(self).heartbeat_elapsed + 1) as usize,
                    ..*old(self)
                }))
                &&& ((old(self).election_elapsed + 1 < old(self).election_timeout && old(self).heartbeat_elapsed + 1 >= old(self).heartbeat_timeout) ==> r && final(self).heartbeat_elapsed == 0)
                &&& ((old(self).election_elapsed + 1 >= old(self).election_timeout && old(self).check_quorum && !old(self).spec_prs().spec_active_quorum(old(self).id)) ==> r
                    && final(self).state == StateRole::Follower && final(self).leader_id == 0
                    && final(self).term == old(self).term)
            },
    {
        match self.state {
            StateRole::Follower | StateRole::PreCandidate | StateRole::Candidate => {
                self.tick_election()
            },
            StateRole::Leader => self.tick_heartbeat(),
        }
    }

    /// One election tick: the counter advances, and a promotable node that
    /// has waited out its randomized timeout asks itself to campaign.
    pub fn tick_election(&mut self) -> (r: bool)
        requires
            old(self).wf(),
            old(self).tick_fits(),
        ensures
            Raft::step_post(*old(self), *final(self)),
            Raft::matched_bounded(*old(self)) ==> Raft::matched_bounded(*final(self)),
            r == (old(self).election_elapsed + 1 >= old(self).randomized_election_timeout && old(self).spec_prs().conf.voters.has(old(self).id)),
            !r ==> *final(self) == (Raft {
                election_elapsed: (old(self).election_elapsed + 1) as usize,
                ..*old(self)
            }),
            r ==> final(self).election_elapsed == 0,
            (r && old(self).state != StateRole::Leader && !Raft::spec_has_unapplied_conf(
                old(self).raft_log,
            )) ==> final(self).state != StateRole::Follower,
    {
        self.election_elapsed = self.election_elapsed + 1;
        if !self.pass_election_timeout() || !self.promotable() {
            return false;
        }
        self.election_elapsed = 0;
        let m = new_message(0, MessageType::MsgHup, Some(self.id));
        let _ = self.step(m);
        true
    }

    /// One heartbeat tick: a leader that reaches the election timeout checks
    /// its quorum and abandons a stuck transfer; one that reaches the
    /// heartbeat timeout asks itself to broadcast.  A quiet tick only moves
    /// the counters.
    fn tick_heartbeat(&mut self) -> (r: bool)
        requires
            old(self).wf(),
            old(self).tick_fits(),
        ensures
            Raft::step_post(*old(self), *final(self)),
            Raft::matched_bounded(*old(self)) ==> Raft::matched_bounded(*final(self)),
            (old(self).election_elapsed + 1 < old(self).election_timeout && old(self).heartbeat_elapsed + 1 < old(self).heartbeat_timeout) ==> !r && *final(self) == (Raft {
                election_elapsed: (old(self).election_elapsed + 1) as usize,
                heartbeat_elapsed: (old(self).heartbeat_elapsed + 1) as usize,
                ..*old(self)
            }),
            (old(self).state == StateRole::Leader && old(self).election_elapsed + 1 < old(self).election_timeout && old(self).heartbeat_elapsed + 1 >= old(self).heartbeat_timeout)
                ==> r && final(self).heartbeat_elapsed == 0 && final(self).msgs@.len() == old(self).msgs@.len() + crate::idset::count_where(
                old(self).spec_prs().ids@,
                |v: u64| v != old(self).id,
            ),
            (old(self).state == StateRole::Leader && old(self).election_elapsed + 1 >= old(self).election_timeout && old(self).check_quorum && !old(self).spec_prs().spec_active_quorum(
                old(self).id,
            )) ==> r && final(self).state == StateRole::Follower && final(self).term == old(self).term && final(self).leader_id == 0,
            (old(self).state == StateRole::Leader && old(self).election_elapsed + 1 >= old(self).election_timeout && (!old(self).check_quorum || old(self).spec_prs().spec_active_quorum(
                old(self).id,
            ))) ==> final(self).state == StateRole::Leader && final(self).lead_transferee is None,
    {
        self.heartbeat_elapsed = self.heartbeat_elapsed + 1;
        self.election_elapsed = self.election_elapsed + 1;
        let mut has_ready = false;
        if self.election_elapsed >= self.election_timeout {
            self.election_elapsed = 0;
            if self.check_quorum {
                let m = new_message(0, MessageType::MsgCheckQuorum, Some(self.id));
                has_ready = true;
                let _ = self.step(m);
            }
            let transferring = match self.lead_transferee {
                Some(_) => true,
                None => false,
            };
            if self.state == StateRole::Leader && transferring {
                self.abort_leader_transfer();
            }
        }
        if self.state != StateRole::Leader {
            return has_ready;
        }
        if self.heartbeat_elapsed >= self.heartbeat_timeout {
            self.heartbeat_elapsed = 0;
            has_ready = true;
            let m = new_message(0, MessageType::MsgBeat, Some(self.id));
            let _ = self.step(m);
        }
        has_ready
    }
}

} // verus!
