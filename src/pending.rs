//! The pending set: entries kept with the soonest due time last.
use vstd::prelude::*;

verus! {

/// A callback waiting to run, with the instant (nanoseconds on the monotonic
/// clock) at or after which it may run.
pub struct Entry<T> {
    pub due_at: u64,
    pub callback: T,
}

impl<T> Entry<T> {
    /// Whether `self` is due strictly earlier than `other`; entries due at the
    /// same instant are not ordered against each other.
    pub fn runs_before(&self, other: &Entry<T>) -> (r: bool)
        ensures
            r == (self.due_at < other.due_at),
    {
        self.due_at < other.due_at
    }
}

/// The entries of `q` lie with the soonest due time last: due times never
/// increase from front to back.
pub open spec fn soonest_last<T>(q: Seq<Entry<T>>) -> bool {
    forall|i: int, j: int| 0 <= i <= j < q.len() ==> q[j].due_at <= q[i].due_at
}

/// Index at which an entry due at `due_at` joins `q`: behind every entry due
/// later and in front of every entry due no later, so that among entries due
/// at the same instant the one submitted first runs first.
pub open spec fn slot<T>(q: Seq<Entry<T>>, due_at: u64) -> int
    decreases q.len(),
{
    if q.len() == 0 {
        0
    } else if q.last().due_at > due_at {
        q.len() as int
    } else {
        slot(q.drop_last(), due_at)
    }
}

/// `q` once `e` has joined it.
pub open spec fn enqueue<T>(q: Seq<Entry<T>>, e: Entry<T>) -> Seq<Entry<T>> {
    q.insert(slot(q, e.due_at), e)
}

/// `i` splits `q` into the entries due later than `due_at` and those due no later.
spec fn splits_at<T>(q: Seq<Entry<T>>, i: int, due_at: u64) -> bool {
    &&& 0 <= i <= q.len()
    &&& forall|j: int| 0 <= j < i ==> q[j].due_at > due_at
    &&& forall|j: int| i <= j < q.len() ==> q[j].due_at <= due_at
}

/// In an ordered sequence, the index that splits it at `due_at` is its slot.
proof fn lemma_split_is_slot<T>(q: Seq<Entry<T>>, i: int, due_at: u64)
    requires
        soonest_last(q),
        splits_at(q, i, due_at),
    ensures
        slot(q, due_at) == i,
    decreases q.len(),
{
    if q.len() > 0 && q.last().due_at <= due_at {
        let p = q.drop_last();
        assert(splits_at(p, i, due_at));
        lemma_split_is_slot(p, i, due_at);
    }
}

/// An ordered sequence has an index that splits it at any due time.
proof fn lemma_split_exists<T>(q: Seq<Entry<T>>, due_at: u64) -> (i: int)
    requires
        soonest_last(q),
    ensures
        splits_at(q, i, due_at),
    decreases q.len(),
{
    if q.len() == 0 {
        0
    } else if q.last().due_at > due_at {
        q.len() as int
    } else {
        let p = q.drop_last();
        let i = lemma_split_exists(p, due_at);
        assert forall|j: int| i <= j < q.len() implies q[j].due_at <= due_at by {
            if j < p.len() {
                assert(q[j] == p[j]);
            }
        }
        assert forall|j: int| 0 <= j < i implies q[j].due_at > due_at by {
            assert(q[j] == p[j]);
        }
        i
    }
}

/// Joining an entry keeps an ordered sequence ordered.
pub(crate) proof fn lemma_enqueue_ordered<T>(q: Seq<Entry<T>>, e: Entry<T>)
    requires
        soonest_last(q),
    ensures
        soonest_last(enqueue(q, e)),
        enqueue(q, e).len() == q.len() + 1,
        enqueue(q, e).to_multiset() == q.to_multiset().insert(e),
{
    let i = lemma_split_exists(q, e.due_at);
    lemma_split_is_slot(q, i, e.due_at);
    let r = q.insert(i, e);
    assert forall|a: int, b: int| 0 <= a <= b < r.len() implies r[b].due_at <= r[a].due_at by {
        if a < i && b > i {
            assert(r[a] == q[a] && r[b] == q[b - 1]);
        }
    }
    q.to_multiset_ensures();
    vstd::seq_lib::to_multiset_insert(q, i, e);
}

/// The callbacks not yet run, each with its due time, kept so that the soonest
/// is found and removed in constant time; an insertion finds its place by
/// binary search, then shifts the entries behind it. Among entries due at the same instant, the one
/// that joined first leaves first.
pub struct PendingSet<T> {
    entries: Vec<Entry<T>>,
}

impl<T> PendingSet<T> {
    /// The pending entries, soonest last.
    pub closed spec fn view(&self) -> Seq<Entry<T>> {
        self.entries@
    }

    pub open spec fn wf(&self) -> bool {
        soonest_last(self@)
    }

    /// An empty pending set.
    pub fn new() -> (r: Self)
        ensures
            r.wf(),
            r@ == Seq::<Entry<T>>::empty(),
    {
        PendingSet { entries: Vec::new() }
    }

    /// Number of pending entries.
    pub fn len(&self) -> (r: usize)
        ensures
            r == self@.len(),
    {
        self.entries.len()
    }

    /// Due time of the soonest entry, or `None` when nothing is pending.
    pub fn peek_due(&self) -> (r: Option<u64>)
        ensures
            r == (if self@.len() == 0 {
                None
            } else {
                Some(self@.last().due_at)
            }),
    {
        let n = self.entries.len();
        if n == 0 {
            None
        } else {
            Some(self.entries[n - 1].due_at)
        }
    }

    /// Adds `e`, behind every entry due later and in front of every entry due
    /// no later; the place is found by binary search.
    pub fn insert(&mut self, e: Entry<T>)
        requires
            old(self).wf(),
        ensures
            final(self).wf(),
            final(self)@ == enqueue(old(self)@, e),
    {
        let ghost q = self@;
        let mut lo: usize = 0;
        let mut hi: usize = self.entries.len();
        while lo < hi
            invariant
                q == self@,
                soonest_last(q),
                0 <= lo <= hi <= q.len(),
                forall|j: int| 0 <= j < lo ==> q[j].due_at > e.due_at,
                forall|j: int| hi <= j < q.len() ==> q[j].due_at <= e.due_at,
            decreases hi - lo,
        {
            let mid = lo + (hi - lo) / 2;
            if e.runs_before(&self.entries[mid]) {
                lo = mid + 1;
            } else {
                hi = mid;
            }
        }
        proof {
            assert(splits_at(q, lo as int, e.due_at));
            lemma_split_is_slot(q, lo as int, e.due_at);
            lemma_enqueue_ordered(q, e);
        }
        self.entries.insert(lo, e);
    }

    /// Removes and returns the soonest entry.
    pub fn pop_soonest(&mut self) -> (r: Entry<T>)
        requires
            old(self).wf(),
            old(self)@.len() > 0,
        ensures
            final(self).wf(),
            r == old(self)@.last(),
            final(self)@ == old(self)@.drop_last(),
    {
        self.entries.pop().unwrap()
    }
}

} // verus!
