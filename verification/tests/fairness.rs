use futures_task::{waker, ArcWake};
use futures_taskset::{OpPoll, Operation, PollOutcome, TaskSet, WakeHandle, FAIRNESS_BOUND};
use std::sync::atomic::{AtomicUsize, Ordering};
use std::sync::Arc;

/// Counts how often the multiplexer's owner was rescheduled.
struct CountingWake(AtomicUsize);

impl ArcWake for CountingWake {
    fn wake_by_ref(arc_self: &Arc<Self>) {
        arc_self.0.fetch_add(1, Ordering::SeqCst);
    }
}

/// Never completes; re-wakes itself on every poll and counts its polls.
struct Restless {
    polls: Arc<AtomicUsize>,
}

impl Operation for Restless {
    type Output = usize;

    fn poll_op(&mut self, wake: &WakeHandle) -> OpPoll<usize> {
        self.polls.fetch_add(1, Ordering::SeqCst);
        wake.wake();
        OpPoll::Pending
    }
}

#[test]
fn fairness_bound_limits_one_call() {
    let counter = Arc::new(CountingWake(AtomicUsize::new(0)));
    let w = waker(counter.clone());
    let polls = Arc::new(AtomicUsize::new(0));

    let mut queue = TaskSet::with_capacity(64);
    let n = FAIRNESS_BOUND + 8;
    for _ in 0..n {
        queue.push(Restless { polls: polls.clone() });
    }

    // One call terminates and polls exactly the fairness bound of perpetually
    // pending operations, not all of them.
    assert!(matches!(queue.poll_next(&w), PollOutcome::Pending));
    assert_eq!(polls.load(Ordering::SeqCst), FAIRNESS_BOUND);
    assert_eq!(queue.len(), n);

    // Stopping at the bound re-signals the caller so it gets polled again.
    assert!(counter.0.load(Ordering::SeqCst) >= 1);

    // The next call carries on with the remaining work list.
    assert!(matches!(queue.poll_next(&w), PollOutcome::Pending));
    assert_eq!(polls.load(Ordering::SeqCst), 2 * FAIRNESS_BOUND);
}

/// One-shot operation driven from outside through a stored wake handle.
struct Gated {
    ready: Arc<AtomicUsize>,
    output: usize,
    stash: Arc<std::sync::Mutex<Option<WakeHandle>>>,
}

impl Operation for Gated {
    type Output = usize;

    fn poll_op(&mut self, wake: &WakeHandle) -> OpPoll<usize> {
        if self.ready.load(Ordering::SeqCst) != 0 {
            OpPoll::Ready(self.output)
        } else {
            *self.stash.lock().unwrap() = Some(wake.duplicate());
            OpPoll::Pending
        }
    }
}

#[test]
fn redundant_wakes_coalesce_into_one_reschedule() {
    let counter = Arc::new(CountingWake(AtomicUsize::new(0)));
    let w = waker(counter.clone());

    let mut queue = TaskSet::new();
    let ready_a = Arc::new(AtomicUsize::new(0));
    let stash_a = Arc::new(std::sync::Mutex::new(None));
    queue.push(Gated { ready: ready_a.clone(), output: 5, stash: stash_a.clone() });
    let ready_b = Arc::new(AtomicUsize::new(0));
    let stash_b = Arc::new(std::sync::Mutex::new(None));
    queue.push(Gated { ready: ready_b.clone(), output: 6, stash: stash_b.clone() });

    assert!(matches!(queue.poll_next(&w), PollOutcome::Pending));
    assert_eq!(counter.0.load(Ordering::SeqCst), 0);

    // Two readiness signals before the next poll collapse into a single
    // reschedule: the outer-waker slot is taken by the first wake.
    ready_a.store(1, Ordering::SeqCst);
    stash_a.lock().unwrap().take().unwrap().wake();
    ready_b.store(1, Ordering::SeqCst);
    stash_b.lock().unwrap().take().unwrap().wake();
    assert_eq!(counter.0.load(Ordering::SeqCst), 1);

    // Both operations were recorded ready and surface in wake order.
    match queue.poll_next(&w) {
        PollOutcome::Completed(_, v) => assert_eq!(v, 5),
        _ => panic!("first wake should surface"),
    }
    match queue.poll_next(&w) {
        PollOutcome::Completed(_, v) => assert_eq!(v, 6),
        _ => panic!("second wake should surface"),
    }
    assert!(matches!(queue.poll_next(&w), PollOutcome::Finished));
}

#[test]
fn duplicate_wakes_of_one_operation_are_suppressed() {
    let counter = Arc::new(CountingWake(AtomicUsize::new(0)));
    let w = waker(counter.clone());

    let mut queue = TaskSet::new();
    let ready = Arc::new(AtomicUsize::new(0));
    let stash = Arc::new(std::sync::Mutex::new(None));
    queue.push(Gated { ready: ready.clone(), output: 3, stash: stash.clone() });
    assert!(matches!(queue.poll_next(&w), PollOutcome::Pending));

    // Waking the same operation repeatedly before it is polled queues it once:
    // later wakes see the queued flag already set and do nothing, so only the
    // first can take the outer waker.
    ready.store(1, Ordering::SeqCst);
    let h = stash.lock().unwrap().take().unwrap();
    h.wake();
    h.wake();
    h.wake();
    assert_eq!(counter.0.load(Ordering::SeqCst), 1);

    match queue.poll_next(&w) {
        PollOutcome::Completed(_, v) => assert_eq!(v, 3),
        _ => panic!("the woken operation should surface"),
    }
    assert!(matches!(queue.poll_next(&w), PollOutcome::Finished));
}
