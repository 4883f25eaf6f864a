//! A small set of peer ids, kept as a duplicate-free vector, and the counting
//! tools that quorum arithmetic is built on.

use vstd::prelude::*;
use crate::message::copy_ids;

verus! {

/// How many ids in `s` satisfy `f`.
pub open spec fn count_where(s: Seq<u64>, f: spec_fn(u64) -> bool) -> nat
    decreases s.len(),
{
    if s.len() == 0 {
        0
    } else {
        count_where(s.drop_last(), f) + if f(s.last()) {
            1nat
        } else {
            0nat
        }
    }
}

/// Counting never exceeds the length.
pub proof fn lemma_count_le_len(s: Seq<u64>, f: spec_fn(u64) -> bool)
    ensures
        count_where(s, f) <= s.len(),
    decreases s.len(),
{
    if s.len() > 0 {
        lemma_count_le_len(s.drop_last(), f);
    }
}

/// Two predicates that agree on the members of `s` count the same.
pub proof fn lemma_count_agree(s: Seq<u64>, f: spec_fn(u64) -> bool, g: spec_fn(u64) -> bool)
    requires
        forall|x: u64| s.contains(x) ==> #[trigger] f(x) == #[trigger] g(x),
    ensures
        count_where(s, f) == count_where(s, g),
    decreases s.len(),
{
    if s.len() > 0 {
        assert(s.contains(s.last()));
        assert(forall|x: u64| s.drop_last().contains(x) ==> s.contains(x));
        lemma_count_agree(s.drop_last(), f, g);
    }
}

/// Unrolls the count of a prefix by one element.
pub proof fn lemma_count_take_succ(s: Seq<u64>, f: spec_fn(u64) -> bool, i: int)
    requires
        0 <= i < s.len(),
    ensures
        count_where(s.take(i + 1), f) == count_where(s.take(i), f) + if f(s[i]) {
            1nat
        } else {
            0nat
        },
{
    assert(s.take(i + 1).drop_last() =~= s.take(i));
    assert(s.take(i + 1).last() == s[i]);
}

/// Extending a prefix by one element extends what it contains.
pub proof fn lemma_take_succ_contains(s: Seq<u64>, i: int, x: u64)
    requires
        0 <= i < s.len(),
    ensures
        s.take(i + 1).contains(x) == (s.take(i).contains(x) || s[i] == x),
{
    if s.take(i + 1).contains(x) {
        let j = choose|j: int| 0 <= j < i + 1 && #[trigger] s.take(i + 1)[j] == x;
        if j < i {
            assert(s.take(i)[j] == x);
        }
    }
    if s.take(i).contains(x) {
        let j = choose|j: int| 0 <= j < i && #[trigger] s.take(i)[j] == x;
        assert(s.take(i + 1)[j] == x);
    }
    if s[i] == x {
        assert(s.take(i + 1)[i] == x);
    }
}

/// A predicate that holds of every member counts them all.
pub proof fn lemma_count_all(s: Seq<u64>, f: spec_fn(u64) -> bool)
    requires
        forall|x: u64| s.contains(x) ==> #[trigger] f(x),
    ensures
        count_where(s, f) == s.len(),
    decreases s.len(),
{
    if s.len() > 0 {
        assert(s.contains(s.last()));
        assert(forall|x: u64| s.drop_last().contains(x) ==> s.contains(x));
        lemma_count_all(s.drop_last(), f);
    }
}

/// Among the members whose `f` value reaches `m`, one has the smallest value;
/// that value is returned.
pub proof fn lemma_min_at_least(s: Seq<u64>, f: spec_fn(u64) -> u64, m: u64) -> (c: u64)
    requires
        exists|v: u64| #[trigger] s.contains(v) && f(v) >= m,
    ensures
        c >= m,
        exists|v: u64| #[trigger] s.contains(v) && f(v) == c,
        forall|v: u64| #[trigger] s.contains(v) && f(v) >= m ==> f(v) >= c,
    decreases s.len(),
{
    let v0 = choose|v: u64| #[trigger] s.contains(v) && f(v) >= m;
    assert(s.len() > 0);
    assert(forall|v: u64| s.drop_last().contains(v) ==> s.contains(v));
    assert(s.contains(s.last()));
    assert(forall|v: u64|
        s.contains(v) ==> v == s.last() || s.drop_last().contains(v)) by {
        assert forall|v: u64| s.contains(v) implies v == s.last() || s.drop_last().contains(
            v,
        ) by {
            let j = choose|j: int| 0 <= j < s.len() && s[j] == v;
            if j < s.len() - 1 {
                assert(s.drop_last()[j] == v);
            }
        }
    }
    if exists|v: u64| #[trigger] s.drop_last().contains(v) && f(v) >= m {
        let c1 = lemma_min_at_least(s.drop_last(), f, m);
        let w1 = choose|v: u64| #[trigger] s.drop_last().contains(v) && f(v) == c1;
        assert(s.contains(w1) && f(w1) == c1);
        if f(s.last()) >= m && f(s.last()) < c1 {
            assert(s.contains(s.last()) && f(s.last()) == f(s.last()));
            f(s.last())
        } else {
            c1
        }
    } else {
        assert(v0 == s.last());
        assert(s.contains(s.last()) && f(s.last()) == f(s.last()));
        f(s.last())
    }
}

/// A positive count names a member that satisfies the predicate.
pub proof fn lemma_count_pos_witness(s: Seq<u64>, f: spec_fn(u64) -> bool) -> (x: u64)
    requires
        count_where(s, f) > 0,
    ensures
        s.contains(x) && f(x),
    decreases s.len(),
{
    if f(s.last()) {
        s.last()
    } else {
        let x = lemma_count_pos_witness(s.drop_last(), f);
        assert(s.drop_last().contains(x));
        let j = choose|j: int| 0 <= j < s.drop_last().len() && s.drop_last()[j] == x;
        assert(s[j] == x);
        x
    }
}

/// A set of peer ids.
pub struct IdSet {
    /// The members, each appearing once.
    pub items: Vec<u64>,
}

impl IdSet {
    /// The well-formedness of the representation: no id appears twice.
    pub open spec fn wf(&self) -> bool {
        self.items@.no_duplicates()
    }

    /// Whether `id` is a member.
    pub open spec fn has(&self, id: u64) -> bool {
        self.items@.contains(id)
    }

    /// The members as a mathematical set.
    pub open spec fn to_set(&self) -> Set<u64> {
        self.items@.to_set()
    }

    /// The empty set.
    pub fn new() -> (r: IdSet)
        ensures
            r.wf(),
            r.items@ == Seq::<u64>::empty(),
    {
        IdSet { items: Vec::new() }
    }

    /// How many members there are.
    pub fn len(&self) -> (r: usize)
        ensures
            r == self.items@.len(),
    {
        self.items.len()
    }

    /// Whether there are no members.
    pub fn is_empty(&self) -> (r: bool)
        ensures
            r == (self.items@.len() == 0),
    {
        self.items.len() == 0
    }

    /// Membership test.
    pub fn contains(&self, id: u64) -> (r: bool)
        ensures
            r == self.has(id),
    {
        let mut i: usize = 0;
        while i < self.items.len()
            invariant
                i <= self.items@.len(),
                forall|j: int| 0 <= j < i ==> self.items@[j] != id,
            decreases self.items@.len() - i,
        {
            if self.items[i] == id {
                return true;
            }
            i = i + 1;
        }
        false
    }

    /// Adds `id`; a no-op when it is already a member.
    pub fn insert(&mut self, id: u64)
        requires
            old(self).wf(),
        ensures
            final(self).wf(),
            final(self).items@ == if old(self).has(id) {
                old(self).items@
            } else {
                old(self).items@.push(id)
            },
            forall|x: u64| #[trigger] final(self).has(x) == (old(self).has(x) || x == id),
    {
        if !self.contains(id) {
            self.items.push(id);
            proof {
                assert forall|x: u64| self.has(x) == (old(self).has(x) || x == id) by {
                    if self.has(x) {
                        let j = choose|j: int|
                            0 <= j < self.items@.len() && self.items@[j] == x;
                        if j < old(self).items@.len() {
                            assert(old(self).items@[j] == x);
                        }
                    }
                    if old(self).has(x) {
                        let j = choose|j: int|
                            0 <= j < old(self).items@.len() && old(self).items@[j] == x;
                        assert(self.items@[j] == x);
                    }
                    if x == id {
                        assert(self.items@[old(self).items@.len() as int] == id);
                    }
                }
            }
        }
    }

    /// Removes `id`; a no-op when it is not a member.
    pub fn remove(&mut self, id: u64)
        requires
            old(self).wf(),
        ensures
            final(self).wf(),
            forall|x: u64| #[trigger] final(self).has(x) == (old(self).has(x) && x != id),
            final(self).items@.len() == old(self).items@.len() - (if old(self).has(id) {
                1int
            } else {
                0int
            }),
    {
        let mut i: usize = 0;
        while i < self.items.len()
            invariant
                i <= self.items@.len(),
                self.items@ == old(self).items@,
                self.items@.no_duplicates(),
                forall|j: int| 0 <= j < i ==> self.items@[j] != id,
            decreases self.items@.len() - i,
        {
            if self.items[i] == id {
                self.items.remove(i);
                proof {
                    let pre = old(self).items@;
                    let post = self.items@;
                    pre.remove_ensures(i as int);
                    assert(pre[i as int] == id);
                    assert(post == pre.remove(i as int));
                    assert(post.len() == pre.len() - 1);
                    assert forall|k: int| 0 <= k < post.len() implies #[trigger] post[k] == (
                    if k < i as int {
                        pre[k]
                    } else {
                        pre[k + 1]
                    }) by {
                        if k < i as int {
                            assert(pre.remove(i as int)[k] == pre[k]);
                        } else {
                            assert(pre.remove(i as int)[k] == pre[k + 1]);
                        }
                    }
                    assert forall|a: int, b: int|
                        0 <= a < post.len() && 0 <= b < post.len() && a != b implies post[a]
                        != post[b] by {
                        let a2 = if a < i as int { a } else { a + 1 };
                        let b2 = if b < i as int { b } else { b + 1 };
                        assert(post[a] == pre[a2] && post[b] == pre[b2]);
                        assert(0 <= a2 < pre.len() && 0 <= b2 < pre.len() && a2 != b2);
                        assert(pre[a2] != pre[b2]);
                    }
                    assert(post.no_duplicates());
                    assert forall|x: u64| post.contains(x) == (pre.contains(x) && x != id) by {
                        if post.contains(x) {
                            let j = choose|j: int| 0 <= j < post.len() && post[j] == x;
                            if j < i as int {
                                assert(pre[j] == x);
                                assert(pre.contains(x));
                            } else {
                                assert(pre[j + 1] == x);
                                assert(pre.contains(x));
                                assert(j + 1 != i as int);
                                assert(pre[j + 1] != pre[i as int]);
                            }
                            assert(x != id);
                        }
                        if pre.contains(x) && x != id {
                            let j = choose|j: int| 0 <= j < pre.len() && pre[j] == x;
                            if j < i as int {
                                assert(post[j] == x);
                                assert(post.contains(x));
                            } else {
                                assert(j != i as int);
                                assert(post[j - 1] == x);
                                assert(post.contains(x));
                            }
                        }
                    }
                }
                return ;
            }
            i = i + 1;
        }
        proof {
            assert(!old(self).has(id));
        }
    }

    /// A copy.
    pub fn dup(&self) -> (r: IdSet)
        ensures
            r.items@ == self.items@,
    {
        IdSet { items: copy_ids(&self.items) }
    }

    /// The set holding exactly the ids listed in `v`.
    pub fn from_ids(v: &Vec<u64>) -> (r: IdSet)
        ensures
            r.wf(),
            forall|x: u64| #[trigger] r.has(x) == v@.contains(x),
    {
        let mut r = IdSet::new();
        let mut i: usize = 0;
        while i < v.len()
            invariant
                i <= v@.len(),
                r.wf(),
                forall|x: u64| r.has(x) == v@.take(i as int).contains(x),
            decreases v@.len() - i,
        {
            let ghost pre = r;
            r.insert(v[i]);
            proof {
                assert forall|x: u64| r.has(x) == v@.take(i as int + 1).contains(x) by {
                    assert(r.has(x) == (pre.has(x) || x == v@[i as int]));
                    if v@.take(i as int + 1).contains(x) {
                        let j = choose|j: int| 0 <= j < i as int + 1 && #[trigger] v@.take(i as int + 1)[j] == x;
                        if j < i {
                            assert(v@.take(i as int)[j] == x);
                            assert(v@.take(i as int).contains(x));
                        }
                    }
                    if pre.has(x) {
                        let j = choose|j: int| 0 <= j < i && v@.take(i as int)[j] == x;
                        assert(v@.take(i as int + 1)[j] == x);
                    }
                    if x == v@[i as int] {
                        assert(v@.take(i as int + 1)[i as int] == x);
                    }
                }
            }
            i = i + 1;
        }
        proof {
            assert(v@.take(v@.len() as int) =~= v@);
        }
        r
    }
}

} // verus!
