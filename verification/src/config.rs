//! Construction-time configuration of a peer.

use vstd::prelude::*;
use crate::errors::RaftError;
use crate::read_only::ReadOnlyOption;

verus! {

/// The knobs a peer is built with.  `validate` must pass before the peer is
/// constructed.
pub struct Config {
    /// The stable, non-zero id of this peer.
    pub id: u64,
    /// Ticks between elections; a follower that hears nothing for its
    /// randomized timeout (drawn from [`min_election_tick`, `max_election_tick`))
    /// starts a campaign.
    pub election_tick: usize,
    /// Ticks between leader heartbeats; must be smaller than `election_tick`.
    pub heartbeat_tick: usize,
    /// The index the driver has already applied on this peer; entries up to it
    /// are not reported again.
    pub applied: u64,
    /// Byte budget of a single append message.
    pub max_size_per_msg: u64,
    /// How many append batches may be in flight to one peer.
    pub max_inflight_msgs: usize,
    /// Whether the leader steps down when a voter quorum goes quiet.
    pub check_quorum: bool,
    /// Whether campaigns run an advisory pre-vote round first.
    pub pre_vote: bool,
    /// Lower bound of the randomized election timeout; 0 means `election_tick`.
    pub min_election_tick: usize,
    /// Upper bound (exclusive) of the randomized election timeout; 0 means
    /// `2 * election_tick`.
    pub max_election_tick: usize,
    /// How linearizable reads are served.
    pub read_only_option: ReadOnlyOption,
    /// Whether the leader may skip broadcasting commit updates eagerly.
    pub skip_bcast_commit: bool,
    /// Whether consecutive appends to one peer may be merged in the outbox.
    pub batch_append: bool,
}

impl Config {
    /// The effective lower bound of the randomized election timeout.
    pub open spec fn spec_min_election_tick(&self) -> usize {
        if self.min_election_tick == 0 {
            self.election_tick
        } else {
            self.min_election_tick
        }
    }

    /// The effective upper bound (exclusive) of the randomized election timeout.
    pub open spec fn spec_max_election_tick(&self) -> usize {
        if self.max_election_tick == 0 {
            if self.election_tick <= usize::MAX / 2 {
                (2 * self.election_tick) as usize
            } else {
                usize::MAX
            }
        } else {
            self.max_election_tick
        }
    }

    /// Everything `validate` checks.
    pub open spec fn spec_valid(&self) -> bool {
        &&& self.id != 0
        &&& self.heartbeat_tick > 0
        &&& self.election_tick > self.heartbeat_tick
        &&& self.election_tick <= usize::MAX / 2
        &&& self.spec_min_election_tick() >= self.election_tick
        &&& self.spec_min_election_tick() < self.spec_max_election_tick()
        &&& self.max_inflight_msgs > 0
        &&& (self.read_only_option == ReadOnlyOption::LeaseBased ==> self.check_quorum)
    }

    /// The effective lower bound of the randomized election timeout.
    pub fn min_election_tick(&self) -> (r: usize)
        ensures
            r == self.spec_min_election_tick(),
    {
        if self.min_election_tick == 0 {
            self.election_tick
        } else {
            self.min_election_tick
        }
    }

    /// The effective upper bound (exclusive) of the randomized election timeout.
    pub fn max_election_tick(&self) -> (r: usize)
        ensures
            r == self.spec_max_election_tick(),
    {
        if self.max_election_tick == 0 {
            if self.election_tick <= usize::MAX / 2 {
                2 * self.election_tick
            } else {
                usize::MAX
            }
        } else {
            self.max_election_tick
        }
    }

    /// Checks the configuration: the id must be non-zero, tick counts must
    /// nest as `election > heartbeat > 0` and
    /// `election <= min_election < max_election`, the inflight window must be
    /// positive, and lease-based reads need `check_quorum`.
    pub fn validate(&self) -> (r: Result<(), RaftError>)
        ensures
            r is Ok <==> self.spec_valid(),
    {
        if self.id == 0 {
            return Err(RaftError::ConfigInvalid);
        }
        if self.heartbeat_tick == 0 {
            return Err(RaftError::ConfigInvalid);
        }
        if self.election_tick <= self.heartbeat_tick {
            return Err(RaftError::ConfigInvalid);
        }
        if self.election_tick > usize::MAX / 2 {
            return Err(RaftError::ConfigInvalid);
        }
        if self.min_election_tick() < self.election_tick {
            return Err(RaftError::ConfigInvalid);
        }
        if self.min_election_tick() >= self.max_election_tick() {
            return Err(RaftError::ConfigInvalid);
        }
        if self.max_inflight_msgs == 0 {
            return Err(RaftError::ConfigInvalid);
        }
        if self.read_only_option == ReadOnlyOption::LeaseBased && !self.check_quorum {
            return Err(RaftError::ConfigInvalid);
        }
        Ok(())
    }
}

} // verus!
