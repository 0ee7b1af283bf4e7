use std::cell::RefCell;
use std::rc::Rc;

use deferred::{Action, Entry, PendingSet, Scheduler};

type Job = Box<dyn FnOnce()>;

const MS: u64 = 1_000_000;

/// Plays the worker at time `now`: runs every due callback, then reports what
/// it would wait for.
fn run_due(s: &mut Scheduler<Job>, now: u64) -> Action<Job> {
    loop {
        match s.next_action(now) {
            Action::Run(job) => job(),
            other => return other,
        }
    }
}

fn recorder(log: &Rc<RefCell<Vec<u32>>>, tag: u32) -> Job {
    let log = log.clone();
    Box::new(move || log.borrow_mut().push(tag))
}

#[test]
fn test() {
    let flag = Rc::new(RefCell::new(false));
    let mut s: Scheduler<Job> = Scheduler::new();
    {
        let flag = flag.clone();
        s.after_instant(10 * MS, Box::new(move || *flag.borrow_mut() = true));
    }
    assert!(matches!(run_due(&mut s, 100 * MS), Action::Idle));
    assert_eq!(*flag.borrow(), true);
}

#[test]
fn relative_delay_runs_after_it_elapses() {
    let flag = Rc::new(RefCell::new(false));
    let mut s: Scheduler<Job> = Scheduler::new();
    {
        let flag = flag.clone();
        s.after_duration(0, 10 * MS, Box::new(move || *flag.borrow_mut() = true));
    }
    assert!(matches!(run_due(&mut s, 100 * MS), Action::Idle));
    assert_eq!(*flag.borrow(), true);
}

#[test]
fn shorter_delay_runs_first() {
    let log = Rc::new(RefCell::new(Vec::new()));
    let mut s: Scheduler<Job> = Scheduler::new();
    s.after_duration(0, 50 * MS, recorder(&log, 50));
    s.after_duration(0, 10 * MS, recorder(&log, 10));
    match run_due(&mut s, 30 * MS) {
        Action::WaitFor(w) => assert_eq!(w, 20 * MS),
        _ => panic!("expected a bounded wait"),
    }
    assert_eq!(*log.borrow(), vec![10]);
    assert!(matches!(run_due(&mut s, 60 * MS), Action::Idle));
    assert_eq!(*log.borrow(), vec![10, 50]);
}

#[test]
fn never_runs_before_due() {
    let log = Rc::new(RefCell::new(Vec::new()));
    let mut s: Scheduler<Job> = Scheduler::new();
    s.after_instant(100, recorder(&log, 1));
    match s.next_action(99) {
        Action::WaitFor(w) => assert_eq!(w, 1),
        _ => panic!("expected a wait of one nanosecond"),
    }
    assert!(log.borrow().is_empty());
    assert_eq!(s.pending_count(), 1);
    assert!(matches!(run_due(&mut s, 100), Action::Idle));
    assert_eq!(*log.borrow(), vec![1]);
}

#[test]
fn each_callback_runs_once() {
    let log = Rc::new(RefCell::new(Vec::new()));
    let mut s: Scheduler<Job> = Scheduler::new();
    for tag in 0..5u32 {
        s.after_instant(7, recorder(&log, tag));
    }
    assert_eq!(s.pending_count(), 5);
    assert!(matches!(run_due(&mut s, 7), Action::Idle));
    assert!(matches!(run_due(&mut s, 1_000), Action::Idle));
    assert_eq!(s.pending_count(), 0);
    assert_eq!(log.borrow().len(), 5);
}

#[test]
fn equal_due_times_run_in_submission_order() {
    let mut s: Scheduler<u32> = Scheduler::new();
    s.after_instant(5, 1);
    s.after_instant(3, 2);
    s.after_instant(5, 3);
    s.after_instant(3, 4);
    let mut ran = Vec::new();
    while let Action::Run(tag) = s.next_action(10) {
        ran.push(tag);
    }
    assert_eq!(ran, vec![2, 4, 1, 3]);
}

#[test]
fn earlier_due_runs_first_whatever_the_submission_order() {
    let mut s: Scheduler<u32> = Scheduler::new();
    for due in [40u64, 10, 30, 20, 50] {
        s.after_instant(due, due as u32);
    }
    let mut ran = Vec::new();
    while let Action::Run(tag) = s.next_action(35) {
        ran.push(tag);
    }
    assert_eq!(ran, vec![10, 20, 30]);
    assert!(matches!(s.next_action(35), Action::WaitFor(5)));
}

#[test]
fn idle_until_first_submission() {
    let mut s: Scheduler<u32> = Scheduler::new();
    assert!(matches!(s.next_action(5), Action::Idle));
    s.after_duration(5, 20, 9);
    assert!(matches!(s.next_action(5), Action::WaitFor(20)));
    assert!(matches!(s.next_action(25), Action::Run(9)));
    assert!(matches!(s.next_action(25), Action::Idle));
}

#[test]
fn sooner_submission_shortens_the_wait() {
    let mut s: Scheduler<u32> = Scheduler::new();
    s.after_instant(1_000, 1);
    assert!(matches!(s.next_action(100), Action::WaitFor(900)));
    s.after_instant(300, 2);
    assert!(matches!(s.next_action(100), Action::WaitFor(200)));
    s.after_instant(600, 3);
    assert!(matches!(s.next_action(100), Action::WaitFor(200)));
}

#[test]
fn zero_delay_is_due_at_once() {
    let mut s: Scheduler<u32> = Scheduler::new();
    s.after_duration(42, 0, 7);
    assert!(matches!(s.next_action(42), Action::Run(7)));
}

#[test]
fn past_instant_is_due_at_once() {
    let mut s: Scheduler<u32> = Scheduler::new();
    s.after_instant(10, 7);
    assert!(matches!(s.next_action(500), Action::Run(7)));
}

#[test]
fn delay_past_the_clock_range_saturates() {
    let mut s: Scheduler<u32> = Scheduler::new();
    s.after_duration(u64::MAX - 1, 10, 7);
    assert!(matches!(s.next_action(u64::MAX - 1), Action::WaitFor(1)));
    assert!(matches!(s.next_action(u64::MAX), Action::Run(7)));
}

#[test]
fn pending_set_yields_soonest() {
    let mut p: PendingSet<char> = PendingSet::new();
    assert_eq!(p.len(), 0);
    assert_eq!(p.peek_due(), None);
    p.insert(Entry { due_at: 20, callback: 'b' });
    p.insert(Entry { due_at: 30, callback: 'c' });
    p.insert(Entry { due_at: 10, callback: 'a' });
    assert_eq!(p.len(), 3);
    assert_eq!(p.peek_due(), Some(10));
    let e = p.pop_soonest();
    assert_eq!((e.due_at, e.callback), (10, 'a'));
    assert_eq!(p.peek_due(), Some(20));
    assert_eq!(p.pop_soonest().callback, 'b');
    assert_eq!(p.pop_soonest().callback, 'c');
    assert_eq!(p.len(), 0);
}

#[test]
fn runs_before_compares_due_times_only() {
    let a = Entry { due_at: 1, callback: 'x' };
    let b = Entry { due_at: 2, callback: 'x' };
    let c = Entry { due_at: 2, callback: 'y' };
    assert!(a.runs_before(&b));
    assert!(!b.runs_before(&a));
    assert!(!b.runs_before(&c));
    assert!(!c.runs_before(&b));
}
