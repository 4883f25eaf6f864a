//! The message schema of the protocol: entries, snapshots, hard state and the
//! messages that peers exchange.  Each type with heap-backed fields has a
//! mathematical view used by the contracts.

use vstd::prelude::*;

verus! {

/// The kind of a message.
#[derive(Debug, Clone, Copy, PartialEq, Eq, Structural)]
pub enum MessageType {
    /// Local: ask this node to start an election.
    MsgHup,
    /// Local: ask the leader to send a heartbeat round.
    MsgBeat,
    /// A client proposal, possibly forwarded by a follower.
    MsgPropose,
    /// Log replication from the leader.
    MsgAppend,
    /// A follower's answer to `MsgAppend`.
    MsgAppendResponse,
    /// A candidate's vote request.
    MsgRequestVote,
    /// The answer to `MsgRequestVote`.
    MsgRequestVoteResponse,
    /// A snapshot pushed by the leader to a lagging follower.
    MsgSnapshot,
    /// The leader's heartbeat.
    MsgHeartbeat,
    /// The answer to `MsgHeartbeat`.
    MsgHeartbeatResponse,
    /// Local: a peer is reported unreachable.
    MsgUnreachable,
    /// Local: the result of shipping a snapshot.
    MsgSnapStatus,
    /// Local: ask the leader to verify its quorum is alive.
    MsgCheckQuorum,
    /// Ask the leader to hand leadership to the sender.
    MsgTransferLeader,
    /// Leader's order to a transfer target: campaign immediately.
    MsgTimeoutNow,
    /// A linearizable-read request.
    MsgReadIndex,
    /// The leader's answer to a forwarded `MsgReadIndex`.
    MsgReadIndexResp,
    /// A pre-vote request (does not bump terms).
    MsgRequestPreVote,
    /// The answer to `MsgRequestPreVote`.
    MsgRequestPreVoteResponse,
}

/// The kind of a log entry.
#[derive(Debug, Clone, Copy, PartialEq, Eq, Structural)]
pub enum EntryType {
    /// An opaque payload for the replicated state machine.
    EntryNormal,
    /// A serialized membership-change record.
    EntryConfChange,
}

/// The kind of a membership-change record.
#[derive(Debug, Clone, Copy, PartialEq, Eq, Structural)]
pub enum ConfChangeType {
    /// Add a single voter.
    AddNode,
    /// Remove a single peer.
    RemoveNode,
    /// Add a single learner.
    AddLearnerNode,
    /// Enter joint consensus towards a carried target configuration.
    BeginMembershipChange,
    /// Leave joint consensus, keeping only the target configuration.
    FinalizeMembershipChange,
}

/// A replicated log entry.
pub struct Entry {
    /// Whether the payload is opaque data or a membership change.
    pub entry_type: EntryType,
    /// The election term the entry was proposed in.
    pub term: u64,
    /// The position of the entry in the log; dense and strictly increasing.
    pub index: u64,
    /// The payload.
    pub data: Vec<u8>,
    /// An opaque request tag carried through read-index handling.
    pub context: Vec<u8>,
}

/// The mathematical value of an [`Entry`].
#[verifier::ext_equal]
pub struct EntryV {
    /// See [`Entry::entry_type`].
    pub entry_type: EntryType,
    /// See [`Entry::term`].
    pub term: u64,
    /// See [`Entry::index`].
    pub index: u64,
    /// See [`Entry::data`].
    pub data: Seq<u8>,
    /// See [`Entry::context`].
    pub context: Seq<u8>,
}

impl View for Entry {
    type V = EntryV;

    open spec fn view(&self) -> EntryV {
        EntryV {
            entry_type: self.entry_type,
            term: self.term,
            index: self.index,
            data: self.data@,
            context: self.context@,
        }
    }
}

/// The views of the entries in a vector, in order.
pub open spec fn ents_view(v: Seq<Entry>) -> Seq<EntryV> {
    v.map_values(|e: Entry| e@)
}

/// A membership configuration as carried by snapshots and change records.
pub struct ConfState {
    /// The voter ids.
    pub nodes: Vec<u64>,
    /// The learner ids.
    pub learners: Vec<u64>,
}

/// The mathematical value of a [`ConfState`].
#[verifier::ext_equal]
pub struct ConfStateV {
    /// See [`ConfState::nodes`].
    pub nodes: Seq<u64>,
    /// See [`ConfState::learners`].
    pub learners: Seq<u64>,
}

impl View for ConfState {
    type V = ConfStateV;

    open spec fn view(&self) -> ConfStateV {
        ConfStateV { nodes: self.nodes@, learners: self.learners@ }
    }
}

/// What a snapshot says about the log and the membership at its index.
pub struct SnapshotMetadata {
    /// The membership at the snapshot point.
    pub conf_state: ConfState,
    /// The last log index the snapshot covers.
    pub index: u64,
    /// The term of the entry at `index`.
    pub term: u64,
    /// The target configuration of an unfinished membership change, if any.
    pub pending_membership_change: Option<ConfState>,
    /// The start index of that unfinished change; 0 when there is none.
    pub pending_membership_change_index: u64,
}

/// The mathematical value of a [`SnapshotMetadata`].
#[verifier::ext_equal]
pub struct SnapshotMetadataV {
    /// See [`SnapshotMetadata::conf_state`].
    pub conf_state: ConfStateV,
    /// See [`SnapshotMetadata::index`].
    pub index: u64,
    /// See [`SnapshotMetadata::term`].
    pub term: u64,
    /// See [`SnapshotMetadata::pending_membership_change`].
    pub pending_membership_change: Option<ConfStateV>,
    /// See [`SnapshotMetadata::pending_membership_change_index`].
    pub pending_membership_change_index: u64,
}

impl View for SnapshotMetadata {
    type V = SnapshotMetadataV;

    open spec fn view(&self) -> SnapshotMetadataV {
        SnapshotMetadataV {
            conf_state: self.conf_state@,
            index: self.index,
            term: self.term,
            pending_membership_change: match self.pending_membership_change {
                Some(cs) => Some(cs@),
                None => None,
            },
            pending_membership_change_index: self.pending_membership_change_index,
        }
    }
}

/// A point-in-time image of the state machine up to `metadata.index`.
pub struct Snapshot {
    /// The opaque state-machine image.
    pub data: Vec<u8>,
    /// What the image covers.
    pub metadata: SnapshotMetadata,
}

/// The mathematical value of a [`Snapshot`].
#[verifier::ext_equal]
pub struct SnapshotV {
    /// See [`Snapshot::data`].
    pub data: Seq<u8>,
    /// See [`Snapshot::metadata`].
    pub metadata: SnapshotMetadataV,
}

impl View for Snapshot {
    type V = SnapshotV;

    open spec fn view(&self) -> SnapshotV {
        SnapshotV { data: self.data@, metadata: self.metadata@ }
    }
}

/// The state that must survive a restart.
#[derive(Debug, Clone, Copy, PartialEq, Eq, Structural)]
pub struct HardState {
    /// The current election term.
    pub term: u64,
    /// Who this node voted for in `term`; 0 for nobody.
    pub vote: u64,
    /// The highest log index known committed.
    pub commit: u64,
}

/// A membership-change record, carried serialized inside a conf-change entry.
pub struct ConfChange {
    /// What kind of change this is.
    pub change_type: ConfChangeType,
    /// The peer added or removed by a single-step change; otherwise 0.
    pub node_id: u64,
    /// The target configuration of a `BeginMembershipChange`.
    pub configuration: Option<ConfState>,
    /// The log index a `BeginMembershipChange` is appended at.
    pub start_index: u64,
}

/// The mathematical value of a [`ConfChange`].
#[verifier::ext_equal]
pub struct ConfChangeV {
    /// See [`ConfChange::change_type`].
    pub change_type: ConfChangeType,
    /// See [`ConfChange::node_id`].
    pub node_id: u64,
    /// See [`ConfChange::configuration`].
    pub configuration: Option<ConfStateV>,
    /// See [`ConfChange::start_index`].
    pub start_index: u64,
}

impl View for ConfChange {
    type V = ConfChangeV;

    open spec fn view(&self) -> ConfChangeV {
        ConfChangeV {
            change_type: self.change_type,
            node_id: self.node_id,
            configuration: match self.configuration {
                Some(cs) => Some(cs@),
                None => None,
            },
            start_index: self.start_index,
        }
    }
}

/// A protocol message.  Which fields are meaningful depends on `msg_type`.
pub struct Message {
    /// What kind of message this is.
    pub msg_type: MessageType,
    /// The destination peer id.
    pub to: u64,
    /// The sender peer id.
    pub from: u64,
    /// The sender's term; 0 marks a local message.
    pub term: u64,
    /// For appends and votes: the term of the entry at `index`.
    pub log_term: u64,
    /// The log index this message talks about.
    pub index: u64,
    /// The entries shipped by appends and proposals.
    pub entries: Vec<Entry>,
    /// The sender's commit index.
    pub commit: u64,
    /// The snapshot shipped by `MsgSnapshot`.
    pub snapshot: Snapshot,
    /// Whether the request this answers was refused.
    pub reject: bool,
    /// On a rejected append: the follower's last index, to speed probing.
    pub reject_hint: u64,
    /// An opaque tag: a read-index context or a campaign marker.
    pub context: Vec<u8>,
}

/// The mathematical value of a [`Message`].
#[verifier::ext_equal]
pub struct MessageV {
    /// See [`Message::msg_type`].
    pub msg_type: MessageType,
    /// See [`Message::to`].
    pub to: u64,
    /// See [`Message::from`].
    pub from: u64,
    /// See [`Message::term`].
    pub term: u64,
    /// See [`Message::log_term`].
    pub log_term: u64,
    /// See [`Message::index`].
    pub index: u64,
    /// See [`Message::entries`].
    pub entries: Seq<EntryV>,
    /// See [`Message::commit`].
    pub commit: u64,
    /// See [`Message::snapshot`].
    pub snapshot: SnapshotV,
    /// See [`Message::reject`].
    pub reject: bool,
    /// See [`Message::reject_hint`].
    pub reject_hint: u64,
    /// See [`Message::context`].
    pub context: Seq<u8>,
}

impl View for Message {
    type V = MessageV;

    open spec fn view(&self) -> MessageV {
        MessageV {
            msg_type: self.msg_type,
            to: self.to,
            from: self.from,
            term: self.term,
            log_term: self.log_term,
            index: self.index,
            entries: ents_view(self.entries@),
            commit: self.commit,
            snapshot: self.snapshot@,
            reject: self.reject,
            reject_hint: self.reject_hint,
            context: self.context@,
        }
    }
}

/// Copies a byte vector.
pub fn copy_bytes(v: &Vec<u8>) -> (r: Vec<u8>)
    ensures
        r@ == v@,
{
    let mut r: Vec<u8> = Vec::new();
    let mut i: usize = 0;
    while i < v.len()
        invariant
            i <= v.len(),
            r@ == v@.take(i as int),
        decreases v.len() - i,
    {
        r.push(v[i]);
        proof {
            assert(v@.take(i + 1 as int) == v@.take(i as int).push(v@[i as int]));
        }
        i = i + 1;
    }
    proof {
        assert(v@.take(v@.len() as int) == v@);
    }
    r
}

/// Copies a vector of peer ids.
pub fn copy_ids(v: &Vec<u64>) -> (r: Vec<u64>)
    ensures
        r@ == v@,
{
    let mut r: Vec<u64> = Vec::new();
    let mut i: usize = 0;
    while i < v.len()
        invariant
            i <= v.len(),
            r@ == v@.take(i as int),
        decreases v.len() - i,
    {
        r.push(v[i]);
        proof {
            assert(v@.take(i + 1 as int) == v@.take(i as int).push(v@[i as int]));
        }
        i = i + 1;
    }
    proof {
        assert(v@.take(v@.len() as int) == v@);
    }
    r
}

impl Entry {
    /// An empty `EntryNormal` with zero index and term.
    pub fn empty() -> (r: Entry)
        ensures
            r@ == (EntryV {
                entry_type: EntryType::EntryNormal,
                term: 0,
                index: 0,
                data: Seq::<u8>::empty(),
                context: Seq::<u8>::empty(),
            }),
    {
        Entry {
            entry_type: EntryType::EntryNormal,
            term: 0,
            index: 0,
            data: Vec::new(),
            context: Vec::new(),
        }
    }

    /// A deep copy.
    pub fn dup(&self) -> (r: Entry)
        ensures
            r@ == self@,
    {
        Entry {
            entry_type: self.entry_type,
            term: self.term,
            index: self.index,
            data: copy_bytes(&self.data),
            context: copy_bytes(&self.context),
        }
    }
}

/// Deep-copies a vector of entries.
pub fn copy_entries(v: &Vec<Entry>) -> (r: Vec<Entry>)
    ensures
        ents_view(r@) == ents_view(v@),
        r@.len() == v@.len(),
{
    let mut r: Vec<Entry> = Vec::new();
    let mut i: usize = 0;
    while i < v.len()
        invariant
            i <= v.len(),
            r@.len() == i,
            ents_view(r@) == ents_view(v@).take(i as int),
        decreases v.len() - i,
    {
        r.push(v[i].dup());
        proof {
            assert(ents_view(r@) =~= ents_view(v@).take(i + 1 as int));
        }
        i = i + 1;
    }
    proof {
        assert(ents_view(v@).take(v@.len() as int) =~= ents_view(v@));
    }
    r
}

impl ConfState {
    /// A configuration with no peers at all.
    pub fn empty() -> (r: ConfState)
        ensures
            r@.nodes.len() == 0,
            r@.learners.len() == 0,
    {
        ConfState { nodes: Vec::new(), learners: Vec::new() }
    }

    /// A deep copy.
    pub fn dup(&self) -> (r: ConfState)
        ensures
            r@ == self@,
    {
        ConfState { nodes: copy_ids(&self.nodes), learners: copy_ids(&self.learners) }
    }
}

impl SnapshotMetadata {
    /// A deep copy.
    pub fn dup(&self) -> (r: SnapshotMetadata)
        ensures
            r@ == self@,
    {
        SnapshotMetadata {
            conf_state: self.conf_state.dup(),
            index: self.index,
            term: self.term,
            pending_membership_change: match &self.pending_membership_change {
                Some(cs) => Some(cs.dup()),
                None => None,
            },
            pending_membership_change_index: self.pending_membership_change_index,
        }
    }
}

impl Snapshot {
    /// A snapshot with empty data, zero index and term, and no peers.
    pub fn empty() -> (r: Snapshot)
        ensures
            r@.metadata.index == 0,
            r@.metadata.term == 0,
            r@.data.len() == 0,
    {
        Snapshot {
            data: Vec::new(),
            metadata: SnapshotMetadata {
                conf_state: ConfState::empty(),
                index: 0,
                term: 0,
                pending_membership_change: None,
                pending_membership_change_index: 0,
            },
        }
    }

    /// A deep copy.
    pub fn dup(&self) -> (r: Snapshot)
        ensures
            r@ == self@,
    {
        Snapshot { data: copy_bytes(&self.data), metadata: self.metadata.dup() }
    }
}

impl ConfChange {
    /// A deep copy.
    pub fn dup(&self) -> (r: ConfChange)
        ensures
            r@ == self@,
    {
        ConfChange {
            change_type: self.change_type,
            node_id: self.node_id,
            configuration: match &self.configuration {
                Some(cs) => Some(cs.dup()),
                None => None,
            },
            start_index: self.start_index,
        }
    }
}

impl Message {
    /// A deep copy.
    pub fn dup(&self) -> (r: Message)
        ensures
            r@ == self@,
    {
        Message {
            msg_type: self.msg_type,
            to: self.to,
            from: self.from,
            term: self.term,
            log_term: self.log_term,
            index: self.index,
            entries: copy_entries(&self.entries),
            commit: self.commit,
            snapshot: self.snapshot.dup(),
            reject: self.reject,
            reject_hint: self.reject_hint,
            context: copy_bytes(&self.context),
        }
    }
}

} // verus!
