use raft_core::config::Config;
use raft_core::errors::RaftError;
use raft_core::message::{ConfChange, ConfChangeType, ConfState, Entry, EntryType, Message, MessageType, Snapshot, SnapshotMetadata};
use raft_core::raft::{CampaignType, InitialState, Raft, StateRole};
use raft_core::read_only::ReadOnlyOption;

fn test_config(id: u64) -> Config {
    Config {
        id,
        election_tick: 10,
        heartbeat_tick: 3,
        applied: 0,
        max_size_per_msg: u64::MAX / 2,
        max_inflight_msgs: 256,
        check_quorum: false,
        pre_vote: false,
        min_election_tick: 0,
        max_election_tick: 0,
        read_only_option: ReadOnlyOption::Safe,
        skip_bcast_commit: false,
        batch_append: false,
    }
}

fn new_node(id: u64, voters: Vec<u64>) -> Raft {
    Raft::new(&test_config(id), InitialState::blank(voters)).unwrap()
}

fn entry(index: u64, term: u64) -> Entry {
    let mut e = Entry::empty();
    e.index = index;
    e.term = term;
    e
}

fn initial_with_log(voters: Vec<u64>, entries: Vec<Entry>, term: u64, commit: u64) -> InitialState {
    let mut init = InitialState::blank(voters);
    init.entries = entries;
    init.hard_state.term = term;
    init.hard_state.commit = commit;
    init
}

fn take_msgs(node: &mut Raft) -> Vec<Message> {
    std::mem::take(&mut node.msgs)
}

/// Delivers every queued message among the given peers until the network is
/// quiet, dropping messages addressed to ids in `down`.
fn interact(nodes: &mut Vec<Raft>, down: &[u64]) {
    loop {
        let mut pending: Vec<Message> = Vec::new();
        for node in nodes.iter_mut() {
            pending.append(&mut take_msgs(node));
        }
        if pending.is_empty() {
            return;
        }
        for m in pending {
            if down.contains(&m.to) {
                continue;
            }
            for node in nodes.iter_mut() {
                if node.id == m.to {
                    let _ = node.step(m);
                    break;
                }
            }
        }
    }
}

fn elect(nodes: &mut Vec<Raft>, id: u64) {
    for node in nodes.iter_mut() {
        if node.id == id {
            node.campaign(CampaignType::Election);
        }
    }
    interact(nodes, &[]);
}

#[test]
fn single_voter_election_becomes_leader() {
    let mut node = new_node(1, vec![1]);
    node.campaign(CampaignType::Election);
    assert_eq!(node.state, StateRole::Leader);
    assert_eq!(node.term, 1);
    // The term-opening blank entry landed at index 1 and is committed alone.
    assert_eq!(node.raft_log.last_index(), 1);
    let opening = node.raft_log.entries_from(1, u64::MAX).unwrap();
    assert_eq!(opening.len(), 1);
    assert_eq!(opening[0].term, 1);
    assert_eq!(opening[0].entry_type, EntryType::EntryNormal);
    assert!(opening[0].data.is_empty());
    assert_eq!(node.raft_log.committed, 1);
    let _ = node.tick();
    assert_eq!(node.raft_log.committed, 1);
}

#[test]
fn three_node_election_and_replication() {
    let mut nodes = vec![new_node(1, vec![1, 2, 3]), new_node(2, vec![1, 2, 3]), new_node(
        3,
        vec![1, 2, 3],
    )];
    elect(&mut nodes, 1);
    assert_eq!(nodes[0].state, StateRole::Leader);
    assert_eq!(nodes[1].state, StateRole::Follower);
    assert_eq!(nodes[1].leader_id, 1);
    // A proposal reaches every follower and commits everywhere.
    let mut prop = Message {
        msg_type: MessageType::MsgPropose,
        to: 1,
        from: 1,
        term: 0,
        log_term: 0,
        index: 0,
        entries: vec![entry(0, 0)],
        commit: 0,
        snapshot: Snapshot::empty(),
        reject: false,
        reject_hint: 0,
        context: Vec::new(),
    };
    prop.entries[0].data = vec![7, 8, 9];
    nodes[0].step(prop).unwrap();
    interact(&mut nodes, &[]);
    let committed = nodes[0].raft_log.committed;
    assert_eq!(committed, 2);
    for node in nodes.iter() {
        assert!(node.raft_log.committed >= 2);
    }
}

#[test]
fn pre_vote_prevents_term_inflation() {
    let mut nodes: Vec<Raft> = (1..=3)
        .map(|id| {
            let mut c = test_config(id);
            c.pre_vote = true;
            Raft::new(&c, InitialState::blank(vec![1, 2, 3])).unwrap()
        })
        .collect();
    elect(&mut nodes, 1);
    assert_eq!(nodes[0].state, StateRole::Leader);
    let leader_term = nodes[0].term;

    // Voter 3 is cut off and times out repeatedly: the pre-vote round never
    // carries, so its term must not run away.
    for _ in 0..3 {
        nodes[2].set_randomized_election_timeout(10);
        for _ in 0..12 {
            let _ = nodes[2].tick();
        }
        // Its pre-vote requests go nowhere.
        let _ = take_msgs(&mut nodes[2]);
    }
    assert_eq!(nodes[2].term, leader_term);
    assert_eq!(nodes[2].state, StateRole::PreCandidate);

    // On heal, a heartbeat from the leader brings 3 back without any
    // election being triggered.
    let m = Message {
        msg_type: MessageType::MsgBeat,
        to: 1,
        from: 1,
        term: 0,
        log_term: 0,
        index: 0,
        entries: Vec::new(),
        commit: 0,
        snapshot: Snapshot::empty(),
        reject: false,
        reject_hint: 0,
        context: Vec::new(),
    };
    nodes[0].step(m).unwrap();
    interact(&mut nodes, &[]);
    assert_eq!(nodes[2].term, leader_term);
    assert_eq!(nodes[2].state, StateRole::Follower);
    assert_eq!(nodes[0].state, StateRole::Leader);
}

#[test]
fn vote_follows_log_completeness() {
    // B's log ends at (index 6, term 1); a candidate with (5, 2) is more
    // complete and gets the vote.
    let entries: Vec<Entry> = (1..=6).map(|i| entry(i, 1)).collect();
    let init = initial_with_log(vec![1, 2], entries, 2, 0);
    let mut b = Raft::new(&test_config(2), init).unwrap();
    let req = Message {
        msg_type: MessageType::MsgRequestVote,
        to: 2,
        from: 1,
        term: 3,
        log_term: 2,
        index: 5,
        entries: Vec::new(),
        commit: 0,
        snapshot: Snapshot::empty(),
        reject: false,
        reject_hint: 0,
        context: Vec::new(),
    };
    b.step(req).unwrap();
    let out = take_msgs(&mut b);
    assert_eq!(out.len(), 1);
    assert_eq!(out[0].msg_type, MessageType::MsgRequestVoteResponse);
    assert!(!out[0].reject);

    // The inverse: a candidate at (4, 1) against a log ending at (5, 2) is
    // behind and is refused.
    let entries: Vec<Entry> = vec![entry(1, 1), entry(2, 1), entry(3, 2), entry(4, 2), entry(5, 2)];
    let init = initial_with_log(vec![1, 2], entries, 2, 0);
    let mut b = Raft::new(&test_config(2), init).unwrap();
    let req = Message {
        msg_type: MessageType::MsgRequestVote,
        to: 2,
        from: 1,
        term: 3,
        log_term: 1,
        index: 4,
        entries: Vec::new(),
        commit: 0,
        snapshot: Snapshot::empty(),
        reject: false,
        reject_hint: 0,
        context: Vec::new(),
    };
    b.step(req).unwrap();
    let out = take_msgs(&mut b);
    assert_eq!(out.len(), 1);
    assert_eq!(out[0].msg_type, MessageType::MsgRequestVoteResponse);
    assert!(out[0].reject);
}

#[test]
fn commit_gate_holds_until_own_term_entry_lands() {
    // The new leader inherits an uncommitted term-1 entry; nothing commits
    // until the term-2 opening entry reaches the quorum, and then both do.
    let init1 = initial_with_log(vec![1, 2], vec![entry(1, 1)], 1, 0);
    let mut n1 = Raft::new(&test_config(1), init1).unwrap();
    let init2 = initial_with_log(vec![1, 2], vec![entry(1, 1)], 1, 0);
    let n2 = Raft::new(&test_config(2), init2).unwrap();
    n1.campaign(CampaignType::Election);
    assert_eq!(n1.state, StateRole::Candidate);
    let mut nodes = vec![n1, n2];
    interact(&mut nodes, &[]);
    assert_eq!(nodes[0].state, StateRole::Leader);
    // Replication has run: the opening entry of term 2 is at index 2, and
    // committing it commits the inherited entry with it.
    assert_eq!(nodes[0].raft_log.committed, 2);
    assert_eq!(nodes[0].raft_log.term(1), Some(1));
    assert_eq!(nodes[0].raft_log.term(2), Some(2));
}

#[test]
fn leader_transfer_completes() {
    let mut nodes = vec![new_node(1, vec![1, 2, 3]), new_node(2, vec![1, 2, 3]), new_node(
        3,
        vec![1, 2, 3],
    )];
    elect(&mut nodes, 1);
    assert_eq!(nodes[0].state, StateRole::Leader);
    // Node 2 is caught up; a transfer request makes the leader order an
    // immediate election over there.
    let m = Message {
        msg_type: MessageType::MsgTransferLeader,
        to: 1,
        from: 2,
        term: 0,
        log_term: 0,
        index: 0,
        entries: Vec::new(),
        commit: 0,
        snapshot: Snapshot::empty(),
        reject: false,
        reject_hint: 0,
        context: Vec::new(),
    };
    nodes[0].step(m).unwrap();
    let sent = take_msgs(&mut nodes[0]);
    assert!(sent.iter().any(|m| m.msg_type == MessageType::MsgTimeoutNow && m.to == 2));
    for m in sent {
        if m.to == 2 {
            let _ = nodes[1].step(m);
        }
    }
    // The transfer skips the pre-vote round: node 2 campaigns for real.
    assert_eq!(nodes[1].state, StateRole::Candidate);
    let requests = take_msgs(&mut nodes[1]);
    assert!(requests.iter().all(|m| m.msg_type == MessageType::MsgRequestVote));
    for m in requests {
        let to = m.to;
        for node in nodes.iter_mut() {
            if node.id == to {
                let _ = node.step(m);
                break;
            }
        }
    }
    interact(&mut nodes, &[]);
    assert_eq!(nodes[1].state, StateRole::Leader);
    assert_eq!(nodes[0].state, StateRole::Follower);
    assert_eq!(nodes[0].leader_id, 2);
}

#[test]
fn joint_consensus_add_and_remove() {
    let mut node = new_node(3, vec![1, 2, 3]);
    node.campaign(CampaignType::Election);
    // Grants from 1 and 2 elect node 3 without a live network.
    for from in [1u64, 2u64] {
        let grant = Message {
            msg_type: MessageType::MsgRequestVoteResponse,
            to: 3,
            from,
            term: 1,
            log_term: 0,
            index: 0,
            entries: Vec::new(),
            commit: 0,
            snapshot: Snapshot::empty(),
            reject: false,
            reject_hint: 0,
            context: Vec::new(),
        };
        node.step(grant).unwrap();
    }
    assert_eq!(node.state, StateRole::Leader);
    let _ = take_msgs(&mut node);

    // Propose the move to {1, 4, 5}; the conf-change entry lands in the log.
    let target = ConfState { nodes: vec![1, 4, 5], learners: Vec::new() };
    node.propose_membership_change(target).unwrap();
    let cc_index = node.raft_log.last_index();
    let ents = node.raft_log.entries_from(cc_index, u64::MAX).unwrap();
    assert_eq!(ents[0].entry_type, EntryType::EntryConfChange);
    let decoded = raft_core::codec::decode_conf_change(&ents[0].data).unwrap();
    assert_eq!(decoded.change_type, ConfChangeType::BeginMembershipChange);
    assert_eq!(decoded.start_index, cc_index);

    // Applying the begin record enters joint consensus: both configurations
    // are active and the new peers are tracked.
    node.begin_membership_change(&decoded).unwrap();
    assert!(node.is_in_membership_change());
    assert!(node.prs().find(4).is_some());
    assert!(node.prs().find(5).is_some());

    // Finalizing collapses to {1, 4, 5}; the leader was removed by the
    // change, so it steps down.
    let finalize = ConfChange {
        change_type: ConfChangeType::FinalizeMembershipChange,
        node_id: 0,
        configuration: None,
        start_index: 0,
    };
    node.finalize_membership_change(&finalize).unwrap();
    assert!(!node.is_in_membership_change());
    assert_eq!(node.state, StateRole::Follower);
    assert!(node.prs().conf.voters.contains(4));
    assert!(!node.prs().conf.voters.contains(2));

    // Re-finalizing is refused and changes nothing.
    let again = ConfChange {
        change_type: ConfChangeType::FinalizeMembershipChange,
        node_id: 0,
        configuration: None,
        start_index: 0,
    };
    assert_eq!(node.finalize_membership_change(&again), Err(RaftError::NoPendingMembershipChange));
}

#[test]
fn snapshot_restore_replays_to_identical_state() {
    // A fully replicated history...
    let mut nodes = vec![new_node(1, vec![1, 2]), new_node(2, vec![1, 2])];
    elect(&mut nodes, 1);
    for payload in [vec![1u8], vec![2u8], vec![3u8]] {
        let mut e = entry(0, 0);
        e.data = payload;
        let prop = Message {
            msg_type: MessageType::MsgPropose,
            to: 1,
            from: 1,
            term: 0,
            log_term: 0,
            index: 0,
            entries: vec![e],
            commit: 0,
            snapshot: Snapshot::empty(),
            reject: false,
            reject_hint: 0,
            context: Vec::new(),
        };
        nodes[0].step(prop).unwrap();
        interact(&mut nodes, &[]);
    }
    let full_last = nodes[0].raft_log.last_index();
    assert_eq!(full_last, 4);

    // ...a newcomer restores from a snapshot at index 2 and takes the tail
    // as ordinary appends: the result matches the unsnapshotted history.
    let mut fresh = new_node(3, vec![1, 2, 3]);
    let snap = Snapshot {
        data: Vec::new(),
        metadata: SnapshotMetadata {
            conf_state: ConfState { nodes: vec![1, 2, 3], learners: Vec::new() },
            index: 2,
            term: nodes[0].raft_log.term(2).unwrap(),
            pending_membership_change: None,
            pending_membership_change_index: 0,
        },
    };
    let snap_msg = Message {
        msg_type: MessageType::MsgSnapshot,
        to: 3,
        from: 1,
        term: nodes[0].term,
        log_term: 0,
        index: 0,
        entries: Vec::new(),
        commit: 0,
        snapshot: snap,
        reject: false,
        reject_hint: 0,
        context: Vec::new(),
    };
    fresh.step(snap_msg).unwrap();
    assert_eq!(fresh.raft_log.last_index(), 2);
    let tail = nodes[0].raft_log.entries_from(3, u64::MAX).unwrap();
    let append = Message {
        msg_type: MessageType::MsgAppend,
        to: 3,
        from: 1,
        term: nodes[0].term,
        log_term: nodes[0].raft_log.term(2).unwrap(),
        index: 2,
        entries: tail,
        commit: nodes[0].raft_log.committed,
        snapshot: Snapshot::empty(),
        reject: false,
        reject_hint: 0,
        context: Vec::new(),
    };
    fresh.step(append).unwrap();
    assert_eq!(fresh.raft_log.last_index(), full_last);
    assert_eq!(fresh.raft_log.committed, nodes[0].raft_log.committed);
    for i in 3..=full_last {
        assert_eq!(fresh.raft_log.term(i), nodes[0].raft_log.term(i));
    }
    let mine = fresh.raft_log.entries_from(3, u64::MAX).unwrap();
    let theirs = nodes[0].raft_log.entries_from(3, u64::MAX).unwrap();
    assert_eq!(mine.len(), theirs.len());
    for (a, b) in mine.iter().zip(theirs.iter()) {
        assert_eq!(a.data, b.data);
        assert_eq!(a.index, b.index);
        assert_eq!(a.term, b.term);
    }
}

#[test]
fn proposal_errors() {
    // A follower with no leader drops proposals.
    let mut lonely = new_node(1, vec![1, 2]);
    let prop = Message {
        msg_type: MessageType::MsgPropose,
        to: 1,
        from: 1,
        term: 0,
        log_term: 0,
        index: 0,
        entries: vec![entry(0, 0)],
        commit: 0,
        snapshot: Snapshot::empty(),
        reject: false,
        reject_hint: 0,
        context: Vec::new(),
    };
    assert_eq!(lonely.step(prop), Err(RaftError::ProposalDropped));
    // Only a leader may propose a membership change.
    let target = ConfState { nodes: vec![1], learners: Vec::new() };
    assert_eq!(lonely.propose_membership_change(target), Err(RaftError::InvalidState));
    // A begin record must actually be a begin record.
    let bogus = ConfChange {
        change_type: ConfChangeType::AddNode,
        node_id: 9,
        configuration: None,
        start_index: 1,
    };
    assert_eq!(lonely.begin_membership_change(&bogus), Err(RaftError::ViolatesContract));
}

#[test]
fn config_validation() {
    let mut c = test_config(0);
    match Raft::new(&c, InitialState::blank(vec![1])) {
        Ok(_) => panic!("an all-zero id must be refused"),
        Err(e) => assert_eq!(e, RaftError::ConfigInvalid),
    }
    c.id = 1;
    c.heartbeat_tick = 10;
    assert!(c.validate().is_err());
    c.heartbeat_tick = 3;
    assert!(c.validate().is_ok());
    c.read_only_option = ReadOnlyOption::LeaseBased;
    assert!(c.validate().is_err());
    c.check_quorum = true;
    assert!(c.validate().is_ok());
}

#[test]
fn membership_bookkeeping() {
    let mut node = new_node(1, vec![1]);
    node.add_node(2).unwrap();
    assert_eq!(node.add_node(2), Err(RaftError::Exists));
    node.add_learner(3).unwrap();
    assert!(node.prs().conf.learners.contains(3));
    // Adding a present learner as a voter promotes it.
    node.add_node(3).unwrap();
    assert!(node.prs().conf.voters.contains(3));
    assert!(!node.prs().conf.learners.contains(3));
    node.remove_node(2).unwrap();
    assert!(!node.prs().conf.voters.contains(2));
}

#[test]
fn randomized_timeout_stays_in_bounds() {
    let mut node = new_node(1, vec![1]);
    for _ in 0..50 {
        node.reset_randomized_election_timeout();
        let t = node.get_randomized_election_timeout();
        assert!((10..20).contains(&t));
    }
}

#[test]
fn lease_based_read_answers_from_commit_index() {
    let mut c = test_config(1);
    c.check_quorum = true;
    c.read_only_option = ReadOnlyOption::LeaseBased;
    let mut node = Raft::new(&c, InitialState::blank(vec![1])).unwrap();
    node.campaign(CampaignType::Election);
    assert_eq!(node.state, StateRole::Leader);
    let mut e = entry(0, 0);
    e.data = vec![42];
    let read = Message {
        msg_type: MessageType::MsgReadIndex,
        to: 1,
        from: 1,
        term: 0,
        log_term: 0,
        index: 0,
        entries: vec![e],
        commit: 0,
        snapshot: Snapshot::empty(),
        reject: false,
        reject_hint: 0,
        context: Vec::new(),
    };
    node.step(read).unwrap();
    assert_eq!(node.ready_read_count(), 1);
    assert_eq!(node.read_states[0].index, node.raft_log.committed);
    assert_eq!(node.read_states[0].request_ctx, vec![42]);
}

#[test]
fn safe_read_waits_for_a_heartbeat_quorum() {
    let mut nodes = vec![new_node(1, vec![1, 2, 3]), new_node(2, vec![1, 2, 3]), new_node(
        3,
        vec![1, 2, 3],
    )];
    elect(&mut nodes, 1);
    let mut e = entry(0, 0);
    e.data = vec![5];
    let read = Message {
        msg_type: MessageType::MsgReadIndex,
        to: 1,
        from: 1,
        term: 0,
        log_term: 0,
        index: 0,
        entries: vec![e],
        commit: 0,
        snapshot: Snapshot::empty(),
        reject: false,
        reject_hint: 0,
        context: Vec::new(),
    };
    nodes[0].step(read).unwrap();
    // The read is parked until a quorum echoes the tagged heartbeat.
    assert_eq!(nodes[0].ready_read_count(), 0);
    assert_eq!(nodes[0].pending_read_count(), 1);
    interact(&mut nodes, &[]);
    assert_eq!(nodes[0].pending_read_count(), 0);
    assert_eq!(nodes[0].ready_read_count(), 1);
    assert_eq!(nodes[0].read_states[0].request_ctx, vec![5]);
    assert_eq!(nodes[0].read_states[0].index, nodes[0].raft_log.committed);
}

#[test]
fn promoting_an_absent_learner_is_refused() {
    let mut prs = raft_core::progress_set::ProgressSet::new();
    assert_eq!(prs.promote_learner(9), Err(RaftError::NotExists));
}
