use raft_core::codec::{decode_conf_change, encode_conf_change};
use raft_core::errors::RaftError;
use raft_core::message::{ConfChange, ConfChangeType, ConfState, Entry, Snapshot, SnapshotMetadata};
use raft_core::raft_log::RaftLog;

fn entry(index: u64, term: u64) -> Entry {
    let mut e = Entry::empty();
    e.index = index;
    e.term = term;
    e
}

#[test]
fn conf_change_round_trips_through_the_codec() {
    let cc = ConfChange {
        change_type: ConfChangeType::BeginMembershipChange,
        node_id: 7,
        configuration: Some(ConfState { nodes: vec![1, 2, 300], learners: vec![4] }),
        start_index: 12,
    };
    let bytes = encode_conf_change(&cc);
    assert!(!bytes.is_empty());
    let back = decode_conf_change(&bytes).unwrap();
    assert_eq!(back.change_type, ConfChangeType::BeginMembershipChange);
    assert_eq!(back.node_id, 7);
    assert_eq!(back.start_index, 12);
    let cs = back.configuration.unwrap();
    assert_eq!(cs.nodes, vec![1, 2, 300]);
    assert_eq!(cs.learners, vec![4]);

    let plain = ConfChange {
        change_type: ConfChangeType::FinalizeMembershipChange,
        node_id: 0,
        configuration: None,
        start_index: 0,
    };
    let bytes = encode_conf_change(&plain);
    let back = decode_conf_change(&bytes).unwrap();
    assert_eq!(back.change_type, ConfChangeType::FinalizeMembershipChange);
    assert!(back.configuration.is_none());

    // Garbage is refused rather than misread.
    assert!(decode_conf_change(&vec![0xff, 0xff]).is_none());
}

#[test]
fn log_append_rule() {
    let mut log = RaftLog::new(0, 0, vec![entry(1, 1), entry(2, 1), entry(3, 2)], 1, 0);
    // A matching prefix takes the batch and follows the leader's commit.
    let r = log.maybe_append(2, 1, 3, &vec![entry(3, 2), entry(4, 2)]);
    assert_eq!(r, Some(4));
    assert_eq!(log.last_index(), 4);
    assert_eq!(log.committed, 3);
    // A mismatched previous entry refuses the batch.
    let r = log.maybe_append(4, 9, 4, &vec![entry(5, 9)]);
    assert_eq!(r, None);
    assert_eq!(log.last_index(), 4);
    // A conflicting suffix is replaced.
    let r = log.maybe_append(3, 2, 3, &vec![entry(4, 3), entry(5, 3)]);
    assert_eq!(r, Some(5));
    assert_eq!(log.term(4), Some(3));
    assert_eq!(log.term(5), Some(3));
    // A batch contradicting a committed entry is refused whole.
    let r = log.maybe_append(2, 1, 3, &vec![entry(3, 7)]);
    assert_eq!(r, None);
    assert_eq!(log.term(3), Some(2));
}

#[test]
fn log_up_to_date_rule() {
    let log = RaftLog::new(0, 0, vec![entry(1, 1), entry(2, 2)], 0, 0);
    // A newer last term wins regardless of length.
    assert!(log.is_up_to_date(1, 3));
    // The same last term needs at least the same length.
    assert!(log.is_up_to_date(2, 2));
    assert!(log.is_up_to_date(5, 2));
    assert!(!log.is_up_to_date(1, 2));
    // An older last term always loses.
    assert!(!log.is_up_to_date(9, 1));
}

#[test]
fn log_slice_respects_byte_budget() {
    let mut e1 = entry(1, 1);
    e1.data = vec![0; 8];
    let mut e2 = entry(2, 1);
    e2.data = vec![0; 8];
    let mut e3 = entry(3, 1);
    e3.data = vec![0; 8];
    let log = RaftLog::new(0, 0, vec![e1, e2, e3], 0, 0);
    // The first entry always goes out, then as many as fit.
    let v = log.slice(1, 4, 1).unwrap();
    assert_eq!(v.len(), 1);
    let v = log.slice(1, 4, 16).unwrap();
    assert_eq!(v.len(), 2);
    let v = log.slice(1, 4, u64::MAX).unwrap();
    assert_eq!(v.len(), 3);
    // A range reaching into the compacted prefix is refused.
    let mut log = log;
    log.compact(2);
    assert!(log.slice(1, 3, u64::MAX).is_none());
    assert_eq!(log.term(2), Some(1));
    assert_eq!(log.first_index(), 3);
    assert_eq!(log.last_index(), 3);
}

#[test]
fn snapshot_staging() {
    let mut log = RaftLog::new(0, 0, vec![entry(1, 1)], 1, 1);
    match log.snapshot() {
        Ok(_) => panic!("snapshot should not be staged yet"),
        Err(e) => assert_eq!(e, RaftError::SnapshotTemporarilyUnavailable),
    }
    let snap = Snapshot {
        data: vec![9],
        metadata: SnapshotMetadata {
            conf_state: ConfState { nodes: vec![1], learners: Vec::new() },
            index: 1,
            term: 1,
            pending_membership_change: None,
            pending_membership_change_index: 0,
        },
    };
    log.set_stored_snapshot(snap);
    let got = log.snapshot().unwrap();
    assert_eq!(got.metadata.index, 1);
    assert_eq!(got.data, vec![9]);
}
