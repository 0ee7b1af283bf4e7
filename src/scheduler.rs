//! The scheduler's state and the decisions of its worker.
//!
//! The worker repeatedly asks `next_action` what to do at the current time:
//! run a callback that is due, wait for the soonest entry (or until woken by
//! a submission), or wait without a deadline when nothing is pending. Since
//! every answer is derived afresh from the pending set, a wake-up for any
//! reason, spurious or not, is handled by simply asking again.
use vstd::prelude::*;

use crate::pending::{enqueue, soonest_last, Entry, PendingSet};

verus! {

/// What the worker does next.
pub enum Action<T> {
    /// Run this callback now; it has left the pending set.
    Run(T),
    /// Wait until woken, or for at most this many nanoseconds, then ask again.
    WaitFor(u64),
    /// Nothing is pending: wait until a submission wakes the worker.
    Idle,
}

/// The worker's next action on pending entries `q` at time `now`.
pub open spec fn action_for<T>(q: Seq<Entry<T>>, now: u64) -> Action<T> {
    if q.len() == 0 {
        Action::Idle
    } else if q.last().due_at <= now {
        Action::Run(q.last().callback)
    } else {
        Action::WaitFor((q.last().due_at - now) as u64)
    }
}

/// The pending entries once the worker has taken its next action at `now`.
pub open spec fn after_step<T>(q: Seq<Entry<T>>, now: u64) -> Seq<Entry<T>> {
    if q.len() > 0 && q.last().due_at <= now {
        q.drop_last()
    } else {
        q
    }
}

/// The instant `delay` nanoseconds after `now`; an instant past the clock's
/// range is taken as its last instant.
pub open spec fn due_after(now: u64, delay: u64) -> u64 {
    now.saturating_add(delay)
}

/// The state shared by everyone who submits callbacks and by the worker that
/// runs them: the pending set.
pub struct Scheduler<T> {
    pending: PendingSet<T>,
}

impl<T> Scheduler<T> {
    /// The pending entries, soonest last.
    pub closed spec fn view(&self) -> Seq<Entry<T>> {
        self.pending@
    }

    pub open spec fn wf(&self) -> bool {
        soonest_last(self@)
    }

    /// A scheduler with nothing pending.
    pub fn new() -> (s: Self)
        ensures
            s.wf(),
            s@ == Seq::<Entry<T>>::empty(),
    {
        Scheduler { pending: PendingSet::new() }
    }

    /// Number of callbacks waiting to run.
    pub fn pending_count(&self) -> (r: usize)
        ensures
            r == self@.len(),
    {
        self.pending.len()
    }

    /// Submits `func` to run at or after `instant`. The worker must be woken
    /// afterwards, so that it reconsiders what it is waiting for.
    pub fn after_instant(&mut self, instant: u64, func: T)
        requires
            old(self).wf(),
        ensures
            final(self).wf(),
            final(self)@ == enqueue(old(self)@, Entry { due_at: instant, callback: func }),
    {
        self.pending.insert(Entry { due_at: instant, callback: func });
    }

    /// Submits `func` to run at or after `duration` nanoseconds past `now`.
    pub fn after_duration(&mut self, now: u64, duration: u64, func: T)
        requires
            old(self).wf(),
        ensures
            final(self).wf(),
            final(self)@ == enqueue(
                old(self)@,
                Entry { due_at: due_after(now, duration), callback: func },
            ),
    {
        self.after_instant(now.saturating_add(duration), func)
    }

    /// The worker's next action at time `now`. A due callback is taken out of
    /// the pending set and handed back, so it can run only once.
    pub fn next_action(&mut self, now: u64) -> (a: Action<T>)
        requires
            old(self).wf(),
        ensures
            final(self).wf(),
            a == action_for(old(self)@, now),
            final(self)@ == after_step(old(self)@, now),
    {
        match self.pending.peek_due() {
            None => Action::Idle,
            Some(due_at) => {
                if due_at <= now {
                    let e = self.pending.pop_soonest();
                    Action::Run(e.callback)
                } else {
                    Action::WaitFor(due_at - now)
                }
            },
        }
    }
}

} // verus!
