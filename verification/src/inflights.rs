//! The sliding window of in-flight append batches to one peer.

use vstd::prelude::*;

verus! {

/// Drops the leading elements of `s` that are at most `to`.
pub open spec fn drop_acked(s: Seq<u64>, to: u64) -> Seq<u64>
    decreases s.len(),
{
    if s.len() > 0 && s[0] <= to {
        drop_acked(s.skip(1), to)
    } else {
        s
    }
}

/// The last indexes of the append batches sent and not yet acknowledged,
/// oldest first, never more than `cap` of them.
pub struct Inflights {
    /// The outstanding batches' last indexes, in send order.
    pub queue: Vec<u64>,
    /// The size of the window.
    pub cap: usize,
}

impl Inflights {
    /// The queue never outgrows the window.
    pub open spec fn wf(&self) -> bool {
        self.queue@.len() <= self.cap
    }

    /// An empty window of size `cap`.
    pub fn new(cap: usize) -> (r: Inflights)
        ensures
            r.wf(),
            r.queue@ == Seq::<u64>::empty(),
            r.cap == cap,
    {
        Inflights { queue: Vec::new(), cap }
    }

    /// Whether the window is exhausted.
    pub fn full(&self) -> (r: bool)
        ensures
            r == (self.queue@.len() >= self.cap),
    {
        self.queue.len() >= self.cap
    }

    /// Records one more in-flight batch ending at `last`.
    pub fn add(&mut self, last: u64)
        requires
            old(self).wf(),
            old(self).queue@.len() < old(self).cap,
        ensures
            final(self).wf(),
            final(self).queue@ == old(self).queue@.push(last),
            final(self).cap == old(self).cap,
    {
        self.queue.push(last);
    }

    /// Frees every batch whose last index is at most `to`, oldest first.
    pub fn free_to(&mut self, to: u64)
        requires
            old(self).wf(),
        ensures
            final(self).wf(),
            final(self).queue@ == drop_acked(old(self).queue@, to),
            final(self).cap == old(self).cap,
    {
        while self.queue.len() > 0 && self.queue[0] <= to
            invariant
                self.cap == old(self).cap,
                self.queue@.len() <= self.cap,
                drop_acked(self.queue@, to) == drop_acked(old(self).queue@, to),
            decreases self.queue@.len(),
        {
            let ghost pre = self.queue@;
            self.queue.remove(0);
            proof {
                assert(self.queue@ =~= pre.skip(1));
                assert(drop_acked(pre, to) == drop_acked(pre.skip(1), to));
            }
        }
    }

    /// Frees the oldest in-flight batch.
    pub fn free_first_one(&mut self)
        requires
            old(self).wf(),
            old(self).queue@.len() > 0,
        ensures
            final(self).wf(),
            final(self).queue@ == old(self).queue@.skip(1),
            final(self).cap == old(self).cap,
    {
        self.queue.remove(0);
        proof {
            assert(self.queue@ =~= old(self).queue@.skip(1));
        }
    }

    /// Empties the window.
    pub fn reset(&mut self)
        ensures
            final(self).wf(),
            final(self).queue@ == Seq::<u64>::empty(),
            final(self).cap == old(self).cap,
    {
        self.queue.clear();
    }
}

} // verus!
