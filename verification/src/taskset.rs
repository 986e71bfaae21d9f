use vstd::prelude::*;
use std::collections::VecDeque;
use crate::arena::Arena;
use crate::notify::{wake_now, ReadyShared, WakeHandle};
use core::task::Waker;

verus! {

broadcast use vstd::set::group_set_axioms;

/// Cap on the number of still-pending operations one `poll_next` call will
/// poll before it gives control back to its caller.
pub const FAIRNESS_BOUND: usize = 32;

/// Result of polling a single tracked operation.
pub enum OpPoll<O> {
    Ready(O),
    Pending,
}

/// A unit of work the multiplexer can drive: polled to completion, and obliged
/// to invoke its wake capability when a pending poll may progress again.
pub trait Operation: Sized {
    type Output;

    /// Make progress. If this returns `OpPoll::Pending`, the operation must
    /// arrange for `wake.wake()` (on this handle or a `duplicate` of it, from
    /// any thread) once it may be able to progress, or it will not be polled
    /// again.
    fn poll_op(&mut self, wake: &WakeHandle) -> OpPoll<Self::Output>;
}

/// Result of one `poll_next` call: a completed operation's key and output, or
/// not-ready, or the terminal state where no operations remain.
pub enum PollOutcome<O> {
    Completed(usize, O),
    Pending,
    Finished,
}

/// What one `poll_next` call did, with the completed output abstracted away.
pub enum PollEvent {
    Surfaced(usize),
    NotReady,
    Done,
}

pub open spec fn poll_event<O>(r: PollOutcome<O>) -> PollEvent {
    match r {
        PollOutcome::Completed(key, _) => PollEvent::Surfaced(key),
        PollOutcome::Pending => PollEvent::NotReady,
        PollOutcome::Finished => PollEvent::Done,
    }
}

/// Abstract state of a multiplexer: the live operations by key, and the local
/// work list of keys awaiting a poll.
pub struct TaskSetModel<T> {
    pub ops: Map<usize, T>,
    pub queue: Seq<usize>,
}

/// How `push` changes the abstract state: a fresh key now maps to `op` and is
/// appended to the work list.
pub open spec fn push_step<T>(pre: TaskSetModel<T>, post: TaskSetModel<T>, key: usize, op: T) -> bool {
    &&& !pre.ops.dom().contains(key)
    &&& post.ops == pre.ops.insert(key, op)
    &&& post.queue == pre.queue.push(key)
}

/// How one `poll_next` call changes the abstract state, given the keys `extra`
/// that draining the ready queue appended to the work list. The work list is
/// consumed front to back; surfacing key `i` removes exactly that operation
/// and leaves the rest of the work list for the next call.
pub open spec fn poll_step_within<T>(
    pre: TaskSetModel<T>,
    post: TaskSetModel<T>,
    ev: PollEvent,
    extra: Seq<usize>,
) -> bool {
    let work = pre.queue + extra;
    match ev {
        PollEvent::Surfaced(key) => {
            &&& pre.ops.dom().contains(key)
            &&& post.ops.dom() == pre.ops.dom().remove(key)
            &&& exists|i: int|
                0 <= i < work.len() && work[i] == key && post.queue == #[trigger] work.skip(i + 1)
        },
        PollEvent::NotReady => {
            &&& pre.ops.dom().len() > 0
            &&& post.ops.dom() == pre.ops.dom()
            &&& exists|i: int| 0 <= i <= work.len() && post.queue == #[trigger] work.skip(i)
        },
        PollEvent::Done => {
            &&& pre.ops.dom() == Set::<usize>::empty()
            &&& post.ops.dom() == pre.ops.dom()
            &&& post.queue == Seq::<usize>::empty()
        },
    }
}

/// `poll_next`'s contract: some sequence of drained keys explains the call.
pub open spec fn poll_step<T>(pre: TaskSetModel<T>, post: TaskSetModel<T>, ev: PollEvent) -> bool {
    exists|extra: Seq<usize>| #[trigger] poll_step_within(pre, post, ev, extra)
}

struct Entry<T> {
    op: T,
    handle: WakeHandle,
}

/// A set of independently progressing operations, surfaced one completion at a
/// time in the order they finish.
pub struct TaskSet<T> {
    dequeue: VecDeque<usize>,
    ready_queue: ReadyShared,
    tasks: Arena<Entry<T>>,
}

impl<T> View for TaskSet<T> {
    type V = TaskSetModel<T>;

    closed spec fn view(&self) -> TaskSetModel<T> {
        TaskSetModel {
            ops: self.tasks@.map_values(|e: Entry<T>| e.op),
            queue: self.dequeue@,
        }
    }
}

impl<T> TaskSet<T> {
    pub closed spec fn wf(&self) -> bool {
        self.tasks.wf()
    }

    /// The abstract operation map has exactly the arena's keys.
    proof fn lemma_ops_dom(&self)
        ensures
            self@.ops.dom() == self.tasks@.dom(),
    {
        assert(self@.ops.dom() =~= self.tasks@.dom());
    }

    pub fn with_capacity(cap: usize) -> (s: TaskSet<T>)
        ensures
            s.wf(),
            s@.ops == Map::<usize, T>::empty(),
            s@.queue == Seq::<usize>::empty(),
    {
        let s = TaskSet {
            dequeue: VecDeque::with_capacity(cap),
            ready_queue: ReadyShared::with_capacity(cap),
            tasks: Arena::new(),
        };
        proof {
            assert(s@.ops =~= Map::<usize, T>::empty());
        }
        s
    }

    pub fn new() -> (s: TaskSet<T>)
        ensures
            s.wf(),
            s@.ops == Map::<usize, T>::empty(),
            s@.queue == Seq::<usize>::empty(),
    {
        TaskSet::with_capacity(0)
    }

    /// Inserts `op` under a fresh key, which is immediately marked ready, so
    /// the operation is polled on the next `poll_next` call.
    pub fn push(&mut self, op: T) -> (key: usize)
        requires
            old(self).wf(),
        ensures
            final(self).wf(),
            push_step(old(self)@, final(self)@, key, op),
    {
        let key = self.tasks.vacant_key();
        let handle = self.ready_queue.make_handle(key);
        let inserted = self.tasks.insert(Entry { op, handle });
        self.dequeue.push_back(inserted);
        proof {
            old(self).lemma_ops_dom();
            assert(self@.ops =~= old(self)@.ops.insert(key, op));
        }
        inserted
    }

    pub fn is_empty(&self) -> (r: bool)
        requires
            self.wf(),
        ensures
            r == self@.ops.dom().is_empty(),
    {
        proof {
            self.lemma_ops_dom();
        }
        self.tasks.is_empty()
    }

    /// The number of live (pushed, not yet surfaced) operations.
    pub fn len(&self) -> (n: usize)
        requires
            self.wf(),
        ensures
            n == self@.ops.dom().len(),
    {
        proof {
            self.lemma_ops_dom();
        }
        self.tasks.len()
    }
}

impl<T> Default for TaskSet<T> {
    fn default() -> (s: TaskSet<T>)
        ensures
            s.wf(),
            s@.ops == Map::<usize, T>::empty(),
            s@.queue == Seq::<usize>::empty(),
    {
        TaskSet::with_capacity(0)
    }
}

proof fn intro_surfaced<T>(
    pre: TaskSetModel<T>,
    post: TaskSetModel<T>,
    key: usize,
    extra: Seq<usize>,
    i: int,
)
    requires
        pre.ops.dom().contains(key),
        post.ops.dom() == pre.ops.dom().remove(key),
        0 <= i < (pre.queue + extra).len(),
        (pre.queue + extra)[i] == key,
        post.queue == (pre.queue + extra).skip(i + 1),
    ensures
        poll_step(pre, post, PollEvent::Surfaced(key)),
{
    let work = pre.queue + extra;
    assert(post.queue == work.skip(i + 1));
    assert(poll_step_within(pre, post, PollEvent::Surfaced(key), extra));
}

proof fn intro_not_ready<T>(
    pre: TaskSetModel<T>,
    post: TaskSetModel<T>,
    extra: Seq<usize>,
    i: int,
)
    requires
        pre.ops.dom().len() > 0,
        post.ops.dom() == pre.ops.dom(),
        0 <= i <= (pre.queue + extra).len(),
        post.queue == (pre.queue + extra).skip(i),
    ensures
        poll_step(pre, post, PollEvent::NotReady),
{
    let work = pre.queue + extra;
    assert(post.queue == work.skip(i));
    assert(poll_step_within(pre, post, PollEvent::NotReady, extra));
}

proof fn intro_done<T>(pre: TaskSetModel<T>, post: TaskSetModel<T>, extra: Seq<usize>)
    requires
        pre.ops.dom() == Set::<usize>::empty(),
        post.ops.dom() == pre.ops.dom(),
        post.queue == Seq::<usize>::empty(),
    ensures
        poll_step(pre, post, PollEvent::Done),
{
    assert(poll_step_within(pre, post, PollEvent::Done, extra));
}

impl<T: Operation> TaskSet<T> {
    /// Drives the set one step: registers `w` so a later wake reschedules the
    /// caller, drains the ready queue into the work list, and polls candidates
    /// front to back until one completes, the work list runs dry, or the
    /// fairness bound stops the call.
    ///
    /// Exactly when no operations are live, the call returns `Finished`, and
    /// the set stays empty: the terminal state is lasting. A completion
    /// surfaces the operation's key and output and removes exactly that
    /// operation; a not-ready call keeps every live operation.
    pub fn poll_next(&mut self, w: &Waker) -> (r: PollOutcome<T::Output>)
        requires
            old(self).wf(),
        ensures
            final(self).wf(),
            poll_step(old(self)@, final(self)@, poll_event(r)),
            r is Finished <==> old(self)@.ops.dom().is_empty(),
            r is Finished ==> final(self)@.ops.dom().is_empty(),
    {
        // Register the outer waker first: a wake racing with this call either
        // lands in the ready queue before the drain below, or fires the waker
        // just registered, so no readiness signal is lost.
        self.ready_queue.register_waker(w);

        let drained = self.ready_queue.drain();
        let ghost extra = drained@;
        let mut di: usize = 0;
        while di < drained.len()
            invariant
                self.tasks == old(self).tasks,
                di <= drained.len(),
                self.dequeue@ == old(self).dequeue@ + drained@.take(di as int),
            decreases drained@.len() - di,
        {
            self.dequeue.push_back(drained[di]);
            di = di + 1;
            proof {
                assert(self.dequeue@ =~= old(self).dequeue@ + drained@.take(di as int));
            }
        }
        let ghost work = old(self)@.queue + extra;
        proof {
            assert(drained@.take(drained@.len() as int) =~= drained@);
            assert(self.dequeue@ =~= work);
            assert(work.skip(0) =~= work);
            old(self).lemma_ops_dom();
        }

        let ghost mut pos: int = 0;
        let mut polled: usize = 0;
        while self.dequeue.len() != 0
            invariant
                old(self).tasks.wf(),
                self.tasks.wf(),
                self.tasks@.dom() == old(self).tasks@.dom(),
                work == old(self)@.queue + extra,
                0 <= pos <= work.len(),
                self.dequeue@ == work.skip(pos),
                polled < FAIRNESS_BOUND,
                old(self)@.ops.dom() == old(self).tasks@.dom(),
            decreases self.dequeue@.len(),
        {
            let key = self.dequeue.pop_front().unwrap();
            proof {
                assert(work.skip(pos).len() == work.len() - pos);
                assert(pos < work.len());
                assert(key == work[pos]);
                assert(self.dequeue@ =~= work.skip(pos + 1));
                pos = pos + 1;
                assert(pos <= work.len());
            }
            match self.tasks.swap_out(key) {
                None => {
                    // Stale key: the entry completed and was removed after
                    // this key was enqueued. Skipping it is the intended path.
                }
                Some(mut entry) => {
                    // Clear the queued flag before polling, so a wake arriving
                    // during the poll re-enqueues the key rather than being
                    // swallowed by the flag.
                    entry.handle.clear_queued();
                    match entry.op.poll_op(&entry.handle) {
                        OpPoll::Ready(output) => {
                            self.tasks.release(key);
                            proof {
                                self.lemma_ops_dom();
                                assert(self@.ops.dom() =~= old(self)@.ops.dom().remove(key));
                                intro_surfaced(old(self)@, self@, key, extra, pos - 1);
                            }
                            return PollOutcome::Completed(key, output);
                        }
                        OpPoll::Pending => {
                            self.tasks.put_back(key, entry);
                            proof {
                                assert(self.tasks@.dom() =~= old(self).tasks@.dom());
                            }
                            polled = polled + 1;
                            if polled >= FAIRNESS_BOUND {
                                // Fairness bound: plenty of operations are
                                // still pending; reschedule ourselves and
                                // yield instead of draining the whole list.
                                wake_now(w);
                                proof {
                                    self.lemma_ops_dom();
                                    old(self).tasks.lemma_finite();
                                    assert(old(self)@.ops.dom().contains(key));
                                    vstd::set::axiom_set_contains_len(
                                        old(self)@.ops.dom(),
                                        key,
                                    );
                                    intro_not_ready(old(self)@, self@, extra, pos);
                                }
                                return PollOutcome::Pending;
                            }
                        }
                    }
                }
            }
        }

        proof {
            assert(self.dequeue@ =~= Seq::<usize>::empty());
            assert(pos == work.len());
        }
        if self.tasks.is_empty() {
            proof {
                self.lemma_ops_dom();
                assert(old(self)@.ops.dom() =~= Set::<usize>::empty());
                assert(self@.ops.dom() == old(self)@.ops.dom());
                intro_done(old(self)@, self@, extra);
            }
            PollOutcome::Finished
        } else {
            proof {
                self.lemma_ops_dom();
                old(self).tasks.lemma_finite();
                if old(self)@.ops.dom().len() == 0 {
                    old(self)@.ops.dom().lemma_len0_is_empty();
                }
                intro_not_ready(old(self)@, self@, extra, pos);
            }
            PollOutcome::Pending
        }
    }
}

} // verus!
