//! Linearizable read-index bookkeeping: the queue of outstanding read
//! requests and the heartbeat acknowledgements collected for each.

use vstd::prelude::*;
use crate::bridge::{AckSet, acks_of, new_ack_set, ack_insert};
use crate::message::{Message, copy_bytes};

verus! {

/// How the leader validates a linearizable read.
#[derive(Debug, Clone, Copy, PartialEq, Eq, Structural)]
pub enum ReadOnlyOption {
    /// Validate with a heartbeat round-trip to a quorum.
    Safe,
    /// Answer from the leader lease (requires check-quorum).
    LeaseBased,
}

/// A committed read-index result awaiting delivery to the driver.
pub struct ReadState {
    /// The commit index the read may be served at.
    pub index: u64,
    /// The caller's request tag, returned verbatim.
    pub request_ctx: Vec<u8>,
}

/// One outstanding read-index request.
pub struct ReadIndexStatus {
    /// The original request message.
    pub req: Message,
    /// The commit index recorded when the request arrived.
    pub index: u64,
    /// The voters that echoed the request's tag in a heartbeat answer.
    pub acks: AckSet,
}

/// The queue of outstanding read-index requests, oldest first.
pub struct ReadOnly {
    /// How reads are validated.
    pub option: ReadOnlyOption,
    /// The outstanding requests.
    pub queue: Vec<ReadIndexStatus>,
}

/// Compares two byte strings.
pub fn bytes_eq(a: &Vec<u8>, b: &Vec<u8>) -> (r: bool)
    ensures
        r == (a@ == b@),
{
    if a.len() != b.len() {
        proof {
            assert(a@.len() != b@.len());
        }
        return false;
    }
    let mut i: usize = 0;
    while i < a.len()
        invariant
            a@.len() == b@.len(),
            i <= a@.len(),
            forall|j: int| 0 <= j < i ==> a@[j] == b@[j],
        decreases a@.len() - i,
    {
        if a[i] != b[i] {
            return false;
        }
        i = i + 1;
    }
    proof {
        assert(a@ =~= b@);
    }
    true
}

impl ReadOnly {
    /// Every queued request carries its tag in a first entry.
    pub open spec fn wf(&self) -> bool {
        forall|j: int|
            0 <= j < self.queue@.len() ==> (#[trigger] self.queue@[j]).req.entries@.len() >= 1
    }

    /// The tag of the request at position `j`.
    pub open spec fn ctx_at(&self, j: int) -> Seq<u8> {
        self.queue@[j].req.entries@[0].data@
    }

    /// An empty queue.
    pub fn new(option: ReadOnlyOption) -> (r: ReadOnly)
        ensures
            r.wf(),
            r.option == option,
            r.queue@.len() == 0,
    {
        ReadOnly { option, queue: Vec::new() }
    }

    /// How many requests are outstanding.
    pub fn pending_read_count(&self) -> (r: usize)
        ensures
            r == self.queue@.len(),
    {
        self.queue.len()
    }

    /// Finds the queued request carrying `ctx`.
    pub fn find_ctx(&self, ctx: &Vec<u8>) -> (r: Option<usize>)
        requires
            self.wf(),
        ensures
            match r {
                Some(j) => j < self.queue@.len() && self.ctx_at(j as int) == ctx@,
                None => forall|j: int| 0 <= j < self.queue@.len() ==> self.ctx_at(j) != ctx@,
            },
    {
        let mut j: usize = 0;
        while j < self.queue.len()
            invariant
                self.wf(),
                j <= self.queue@.len(),
                forall|k: int| 0 <= k < j ==> self.ctx_at(k) != ctx@,
            decreases self.queue@.len() - j,
        {
            if bytes_eq(&self.queue[j].req.entries[0].data, ctx) {
                return Some(j);
            }
            j = j + 1;
        }
        None
    }

    /// Queues a read request at the recorded commit index, unless a request
    /// with the same tag is already outstanding.
    pub fn add_request(&mut self, index: u64, m: Message)
        requires
            old(self).wf(),
            m.entries@.len() >= 1,
        ensures
            final(self).wf(),
            final(self).option == old(self).option,
            final(self).queue@.len() == old(self).queue@.len() || final(self).queue@.len() == old(
                self,
            ).queue@.len() + 1,
            final(self).queue@.len() == old(self).queue@.len() + 1 ==> {
                &&& final(self).queue@[old(self).queue@.len() as int].index == index
                &&& final(self).queue@[old(self).queue@.len() as int].req == m
                &&& forall|j: int|
                    0 <= j < old(self).queue@.len() ==> final(self).queue@[j] == old(
                        self,
                    ).queue@[j]
            },
            final(self).queue@.len() == old(self).queue@.len() ==> final(self).queue@ == old(
                self,
            ).queue@,
    {
        let present = match self.find_ctx(&m.entries[0].data) {
            Some(_) => true,
            None => false,
        };
        if !present {
            self.queue.push(ReadIndexStatus { req: m, index, acks: new_ack_set() });
        }
    }

    /// Records that `from` echoed the tag `ctx`; answers where in the queue
    /// the matching request sits.
    pub fn recv_ack(&mut self, from: u64, ctx: &Vec<u8>) -> (r: Option<usize>)
        requires
            old(self).wf(),
        ensures
            final(self).wf(),
            final(self).option == old(self).option,
            final(self).queue@.len() == old(self).queue@.len(),
            match r {
                Some(j) => {
                    &&& j < old(self).queue@.len()
                    &&& old(self).ctx_at(j as int) == ctx@
                    &&& acks_of(final(self).queue@[j as int].acks) == acks_of(
                        old(self).queue@[j as int].acks,
                    ).insert(from)
                    &&& final(self).queue@[j as int].req == old(self).queue@[j as int].req
                    &&& final(self).queue@[j as int].index == old(self).queue@[j as int].index
                    &&& forall|k: int|
                        0 <= k < old(self).queue@.len() && k != j ==> final(self).queue@[k] == old(
                            self,
                        ).queue@[k]
                },
                None => final(self).queue@ == old(self).queue@,
            },
    {
        match self.find_ctx(ctx) {
            Some(j) => {
                let st = &mut self.queue[j];
                ack_insert(&mut st.acks, from);
                Some(j)
            },
            None => None,
        }
    }

    /// A borrow of the acknowledgement set at position `j`.
    pub fn acks_at(&self, j: usize) -> (r: &AckSet)
        requires
            j < self.queue@.len(),
        ensures
            *r == self.queue@[j as int].acks,
    {
        &self.queue[j].acks
    }

    /// Releases the requests up to and including position `j`, in order.
    pub fn advance(&mut self, j: usize) -> (r: Vec<ReadIndexStatus>)
        requires
            old(self).wf(),
            j < old(self).queue@.len(),
        ensures
            final(self).wf(),
            final(self).option == old(self).option,
            r@ == old(self).queue@.take(j + 1),
            final(self).queue@ == old(self).queue@.skip(j + 1),
    {
        let mut r: Vec<ReadIndexStatus> = Vec::new();
        let mut k: usize = 0;
        while k <= j
            invariant
                old(self).wf(),
                self.option == old(self).option,
                k <= j + 1,
                j < old(self).queue.len(),
                j < old(self).queue@.len(),
                r@.len() == k,
                r@ == old(self).queue@.take(k as int),
                self.queue@ == old(self).queue@.skip(k as int),
            decreases j + 1 - k,
        {
            let st = self.queue.remove(0);
            r.push(st);
            proof {
                assert(r@ =~= old(self).queue@.take(k as int + 1));
                assert(self.queue@ =~= old(self).queue@.skip(k as int + 1));
            }
            k = k + 1;
        }
        proof {
            assert forall|i: int|
                0 <= i < self.queue@.len() implies (#[trigger] self.queue@[i]).req.entries@.len()
                >= 1 by {
                assert(self.queue@[i] == old(self).queue@[i + j + 1]);
            }
        }
        r
    }

    /// The tag of the most recent outstanding request, if any.
    pub fn last_pending_request_ctx(&self) -> (r: Option<Vec<u8>>)
        requires
            self.wf(),
        ensures
            match r {
                Some(c) => self.queue@.len() >= 1 && c@ == self.ctx_at(self.queue@.len() - 1),
                None => self.queue@.len() == 0,
            },
    {
        if self.queue.len() == 0 {
            None
        } else {
            Some(copy_bytes(&self.queue[self.queue.len() - 1].req.entries[0].data))
        }
    }
}

} // verus!
