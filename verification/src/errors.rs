//! Errors surfaced by the Raft core.

use vstd::prelude::*;

verus! {

/// An error returned by the core.  Message-level rejections (a vote denied, an
/// append refused) are not errors: they flow back as outbound messages.
#[derive(Debug, Clone, Copy, PartialEq, Eq, Structural)]
pub enum RaftError {
    /// A proposal could not be accepted right now; the caller may retry later.
    ProposalDropped,
    /// The operation requires this node to be leader, and it is not.
    InvalidState,
    /// A malformed membership-change record was handed to the core.
    ViolatesContract,
    /// A finalize was applied while no membership change is pending.
    NoPendingMembershipChange,
    /// The peer id is already tracked by the progress set.
    Exists,
    /// The peer id is not tracked by the progress set.
    NotExists,
    /// The configuration handed to the constructor is invalid.
    ConfigInvalid,
    /// The log's snapshot is not ready yet; retry later.
    SnapshotTemporarilyUnavailable,
}

} // verus!
