//! What holds of the worker's decisions over any pending set and any sequence
//! of submissions.
use vstd::prelude::*;

use crate::pending::{enqueue, soonest_last, Entry};
use crate::scheduler::{action_for, after_step, Action};

verus! {

/// The entries that successive calls of `next_action` at time `now` run, in
/// the order they run, until the worker has to wait.
pub open spec fn drain<T>(q: Seq<Entry<T>>, now: u64) -> Seq<Entry<T>>
    decreases q.len(),
{
    if action_for(q, now) is Run {
        seq![q.last()] + drain(after_step(q, now), now)
    } else {
        Seq::empty()
    }
}

/// The entries still pending once the worker, at time `now`, has run all it
/// can and has to wait.
pub open spec fn settle<T>(q: Seq<Entry<T>>, now: u64) -> Seq<Entry<T>>
    decreases q.len(),
{
    if action_for(q, now) is Run {
        settle(after_step(q, now), now)
    } else {
        q
    }
}

/// At any time, what the worker runs is the back of the pending set, taken
/// from the back, and what it leaves is the front: the entry in front of the
/// cut is not yet due.
pub proof fn lemma_drain_cut<T>(q: Seq<Entry<T>>, now: u64) -> (k: int)
    ensures
        0 <= k <= q.len(),
        settle(q, now) == q.subrange(0, k),
        drain(q, now) == q.subrange(k, q.len() as int).reverse(),
        forall|j: int| k <= j < q.len() ==> q[j].due_at <= now,
        k == 0 || q[k - 1].due_at > now,
    decreases q.len(),
{
    if action_for(q, now) is Run {
        let p = q.drop_last();
        let k = lemma_drain_cut(p, now);
        assert(settle(q, now) =~= q.subrange(0, k));
        assert(drain(q, now) =~= q.subrange(k, q.len() as int).reverse());
        assert forall|j: int| k <= j < q.len() implies q[j].due_at <= now by {
            if j < p.len() {
                assert(q[j] == p[j]);
            }
        }
        if k > 0 {
            assert(q[k - 1] == p[k - 1]);
        }
        k
    } else {
        assert(q.subrange(0, q.len() as int) =~= q);
        assert(drain(q, now) =~= q.subrange(q.len() as int, q.len() as int).reverse());
        q.len() as int
    }
}

/// No early execution: a callback the worker runs at time `now` was due at or
/// before `now`.
pub proof fn lemma_never_early<T>(q: Seq<Entry<T>>, now: u64)
    ensures
        action_for(q, now) is Run ==> q.last().due_at <= now,
        forall|k: int| 0 <= k < drain(q, now).len() ==> #[trigger] drain(q, now)[k].due_at <= now,
{
    let c = lemma_drain_cut(q, now);
    let d = drain(q, now);
    assert forall|k: int| 0 <= k < d.len() implies #[trigger] d[k].due_at <= now by {
        assert(d[k] == q[q.len() - 1 - k]);
    }
}

/// Eventual execution: while anything is pending the worker never idles, and
/// it waits no longer than until the soonest entry is due; once an entry is
/// due, the worker runs it before it next has to wait.
pub proof fn lemma_eventual_execution<T>(q: Seq<Entry<T>>, i: int, now: u64)
    requires
        soonest_last(q),
        0 <= i < q.len(),
    ensures
        action_for(q, now) !is Idle,
        action_for(q, now) matches Action::WaitFor(w) ==> now + w == q.last().due_at,
        q[i].due_at <= now ==> drain(q, now).contains(q[i]),
{
    let k = lemma_drain_cut(q, now);
    if q[i].due_at <= now {
        if i < k {
            assert(q[k - 1].due_at <= q[i].due_at);
        }
        let d = drain(q, now);
        assert(d[q.len() - 1 - i] == q[i]);
    }
}

/// Exactly once: the worker runs each entry it takes once, and what it runs
/// together with what it leaves is exactly what was pending, nothing lost and
/// nothing repeated.
pub proof fn lemma_runs_exactly_once<T>(q: Seq<Entry<T>>, now: u64)
    ensures
        settle(q, now) + drain(q, now).reverse() == q,
        settle(q, now).to_multiset().add(drain(q, now).to_multiset()) == q.to_multiset(),
{
    let k = lemma_drain_cut(q, now);
    let d = drain(q, now);
    let s = settle(q, now);
    assert(d.reverse() =~= q.subrange(k, q.len() as int));
    assert(s + d.reverse() =~= q);
    vstd::seq_lib::lemma_multiset_commutative(s, d.reverse());
    d.lemma_reverse_to_multiset();
}

/// Exactly once: a submission adds its entry to the pending set once and
/// leaves every other entry there.
pub proof fn lemma_submission_adds_once<T>(q: Seq<Entry<T>>, e: Entry<T>)
    requires
        soonest_last(q),
    ensures
        soonest_last(enqueue(q, e)),
        enqueue(q, e).to_multiset() == q.to_multiset().insert(e),
{
    crate::pending::lemma_enqueue_ordered(q, e);
}

/// Order: the worker runs pending entries soonest first; of two entries due
/// at different times, the earlier runs first, and every entry it runs is due
/// no later than any it leaves pending.
pub proof fn lemma_soonest_first<T>(q: Seq<Entry<T>>, now: u64)
    requires
        soonest_last(q),
    ensures
        action_for(q, now) is Run ==> forall|j: int|
            0 <= j < after_step(q, now).len() ==> q.last().due_at <= #[trigger] after_step(
                q,
                now,
            )[j].due_at,
        forall|a: int, b: int|
            0 <= a < drain(q, now).len() && 0 <= b < drain(q, now).len() && #[trigger] drain(
                q,
                now,
            )[a].due_at < #[trigger] drain(q, now)[b].due_at ==> a < b,
        forall|a: int, j: int|
            0 <= a < drain(q, now).len() && 0 <= j < settle(q, now).len() ==> #[trigger] drain(
                q,
                now,
            )[a].due_at < #[trigger] settle(q, now)[j].due_at,
{
    let k = lemma_drain_cut(q, now);
    let d = drain(q, now);
    let s = settle(q, now);
    let n = q.len();
    assert forall|a: int, b: int|
        0 <= a < d.len() && 0 <= b < d.len() && #[trigger] d[a].due_at < #[trigger] d[b].due_at implies a < b by {
        assert(d[a] == q[n - 1 - a]);
        assert(d[b] == q[n - 1 - b]);
    }
    assert forall|a: int, j: int|
        0 <= a < d.len() && 0 <= j < s.len() implies #[trigger] d[a].due_at < #[trigger] s[j].due_at by {
        assert(d[a] == q[n - 1 - a]);
        assert(s[j] == q[j]);
        assert(q[k - 1].due_at <= q[j].due_at);
    }
}

/// Idle to armed: the first submission to an empty scheduler has the worker,
/// once woken, run the callback if it is already due, and otherwise wait for
/// exactly as long as remains until it is due.
pub proof fn lemma_first_submission_arms<T>(e: Entry<T>, now: u64)
    ensures
        action_for(Seq::<Entry<T>>::empty(), now) == Action::<T>::Idle,
        action_for(enqueue(Seq::empty(), e), now) == (if e.due_at <= now {
            Action::Run(e.callback)
        } else {
            Action::WaitFor((e.due_at - now) as u64)
        }),
{
    assert(enqueue(Seq::empty(), e) =~= seq![e]);
}

/// Re-evaluation on preemption: when the worker is waiting for the soonest
/// entry and an entry due sooner (but not yet due) is submitted, the worker,
/// once woken, waits only until the new entry is due.
pub proof fn lemma_preemption_retargets<T>(q: Seq<Entry<T>>, e: Entry<T>, now: u64)
    requires
        soonest_last(q),
        q.len() > 0,
        now < e.due_at < q.last().due_at,
    ensures
        action_for(q, now) == Action::<T>::WaitFor((q.last().due_at - now) as u64),
        action_for(enqueue(q, e), now) == Action::<T>::WaitFor((e.due_at - now) as u64),
        e.due_at - now < q.last().due_at - now,
{
    assert(enqueue(q, e) =~= q.push(e));
}

} // verus!
