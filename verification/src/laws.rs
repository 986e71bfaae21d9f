use vstd::prelude::*;
use crate::taskset::{poll_step, poll_step_within, push_step, PollEvent, TaskSetModel};

verus! {

broadcast use vstd::set::group_set_axioms;

/// One observable action on a multiplexer: a push of an operation under a
/// fresh key, or one poll call with its outcome.
pub enum SetEvent<T> {
    Pushed(usize, T),
    Polled(PollEvent),
}

pub open spec fn step<T>(pre: TaskSetModel<T>, ev: SetEvent<T>, post: TaskSetModel<T>) -> bool {
    match ev {
        SetEvent::Pushed(key, op) => push_step(pre, post, key, op),
        SetEvent::Polled(pe) => poll_step(pre, post, pe),
    }
}

/// `states` is a run of the multiplexer under `events`: state `i` steps to
/// state `i + 1` by event `i`.
pub open spec fn valid_trace<T>(states: Seq<TaskSetModel<T>>, events: Seq<SetEvent<T>>) -> bool {
    &&& states.len() == events.len() + 1
    &&& forall|i: int| 0 <= i < events.len() ==> step(states[i], #[trigger] events[i], states[i + 1])
}

pub open spec fn pushes_key<T>(ev: SetEvent<T>, key: usize) -> bool {
    ev matches SetEvent::Pushed(k, _) && k == key
}

pub open spec fn surfaces_key<T>(ev: SetEvent<T>, key: usize) -> bool {
    ev matches SetEvent::Polled(pe) && pe == PollEvent::Surfaced(key)
}

/// A key that is not live stays not live until some push introduces it: no
/// poll ever adds an operation.
proof fn lemma_absent_until_pushed<T>(
    states: Seq<TaskSetModel<T>>,
    events: Seq<SetEvent<T>>,
    key: usize,
    a: int,
    b: int,
)
    requires
        valid_trace(states, events),
        0 <= a <= b <= events.len(),
        !states[a].ops.dom().contains(key),
        forall|m: int| a <= m < b ==> !pushes_key(#[trigger] events[m], key),
    ensures
        !states[b].ops.dom().contains(key),
    decreases b - a,
{
    if a < b {
        assert(step(states[a], events[a], states[a + 1]));
        match events[a] {
            SetEvent::Pushed(_, _) => {
                assert(!pushes_key(events[a], key));
                assert(!states[a + 1].ops.dom().contains(key));
            },
            SetEvent::Polled(pe) => {
                let extra = choose|e: Seq<usize>|
                    #[trigger] poll_step_within(states[a], states[a + 1], pe, e);
                assert(poll_step_within(states[a], states[a + 1], pe, extra));
                assert(!states[a + 1].ops.dom().contains(key));
            },
        }
        lemma_absent_until_pushed(states, events, key, a + 1, b);
    }
}

/// Exhaustion is terminal: a poll that reports the set finished leaves it
/// empty, and the next poll must report finished again, whatever happens on
/// other threads in between.
pub proof fn lemma_exhaustion_terminal<T>(
    s1: TaskSetModel<T>,
    s2: TaskSetModel<T>,
    s3: TaskSetModel<T>,
    ev: PollEvent,
)
    requires
        poll_step(s1, s2, PollEvent::Done),
        poll_step(s2, s3, ev),
    ensures
        ev is Done,
        s2.ops.dom().is_empty(),
        s3.ops.dom().is_empty(),
{
    let e1 = choose|e: Seq<usize>| #[trigger] poll_step_within(s1, s2, PollEvent::Done, e);
    assert(poll_step_within(s1, s2, PollEvent::Done, e1));
    let e2 = choose|e: Seq<usize>| #[trigger] poll_step_within(s2, s3, ev, e);
    assert(poll_step_within(s2, s3, ev, e2));
    match ev {
        PollEvent::Surfaced(k) => {
            assert(s2.ops.dom().contains(k));
            assert(false);
        },
        PollEvent::NotReady => {
            assert(s2.ops.dom().len() > 0);
            assert(Set::<usize>::empty().len() == 0);
            assert(false);
        },
        PollEvent::Done => {},
    }
}

pub open spec fn count_pushes<T>(events: Seq<SetEvent<T>>) -> int
    decreases events.len(),
{
    if events.len() == 0 {
        0
    } else {
        count_pushes(events.drop_last()) + if events.last() matches SetEvent::Pushed(_, _) {
            1int
        } else {
            0int
        }
    }
}

pub open spec fn count_surfacings<T>(events: Seq<SetEvent<T>>) -> int
    decreases events.len(),
{
    if events.len() == 0 {
        0
    } else {
        count_surfacings(events.drop_last()) + if events.last() matches SetEvent::Polled(
            PollEvent::Surfaced(_),
        ) {
            1int
        } else {
            0int
        }
    }
}

/// Conservation of live operations: along any run, the number of live
/// operations changes by exactly the pushes minus the surfaced completions.
pub proof fn lemma_live_count<T>(states: Seq<TaskSetModel<T>>, events: Seq<SetEvent<T>>)
    requires
        valid_trace(states, events),
        states[0].ops.dom().finite(),
    ensures
        states.last().ops.dom().finite(),
        states.last().ops.dom().len() - states[0].ops.dom().len() == count_pushes(events)
            - count_surfacings(events),
    decreases events.len(),
{
    if events.len() == 0 {
        assert(states.last() == states[0]);
    } else {
        let n = events.len() as int;
        let states2 = states.drop_last();
        let events2 = events.drop_last();
        assert(valid_trace(states2, events2)) by {
            assert forall|i: int|
                0 <= i < events2.len() implies step(states2[i], #[trigger] events2[i], states2[i + 1]) by {
                assert(step(states[i], events[i], states[i + 1]));
            }
        }
        lemma_live_count(states2, events2);
        assert(states2.last() == states[n - 1]);
        assert(step(states[n - 1], events[n - 1], states[n]));
        let pre = states[n - 1];
        let post = states[n];
        match events[n - 1] {
            SetEvent::Pushed(k, _) => {
                vstd::set::axiom_set_insert_len(pre.ops.dom(), k);
            },
            SetEvent::Polled(pe) => {
                let extra = choose|e: Seq<usize>| #[trigger] poll_step_within(pre, post, pe, e);
                assert(poll_step_within(pre, post, pe, extra));
                match pe {
                    PollEvent::Surfaced(k) => {
                        vstd::set::axiom_set_remove_len(pre.ops.dom(), k);
                    },
                    PollEvent::NotReady => {},
                    PollEvent::Done => {},
                }
            },
        }
    }
}

/// Exhaustion accounting: in a run that starts empty and ends with a poll
/// reporting finished, every pushed operation was surfaced, once each: the
/// surfaced completions number exactly the pushes.
pub proof fn lemma_exhaustion_accounting<T>(states: Seq<TaskSetModel<T>>, events: Seq<SetEvent<T>>)
    requires
        valid_trace(states, events),
        states[0].ops.dom() == Set::<usize>::empty(),
        events.len() > 0,
        events.last() == SetEvent::<T>::Polled(PollEvent::Done),
    ensures
        count_pushes(events) == count_surfacings(events),
{
    lemma_live_count(states, events);
    let n = events.len() as int;
    assert(step(states[n - 1], events[n - 1], states[n]));
    let extra = choose|e: Seq<usize>|
        #[trigger] poll_step_within(states[n - 1], states[n], PollEvent::Done, e);
    assert(poll_step_within(states[n - 1], states[n], PollEvent::Done, extra));
    assert(states.last().ops.dom().len() == 0);
}

/// No duplicate surfacing: an operation's output is surfaced at most once.
/// If the same key is surfaced twice in a run, some push strictly in between
/// re-used the key, so the second surfacing belongs to a different operation.
pub proof fn lemma_no_duplicate_surfacing<T>(
    states: Seq<TaskSetModel<T>>,
    events: Seq<SetEvent<T>>,
    key: usize,
    i: int,
    j: int,
)
    requires
        valid_trace(states, events),
        0 <= i < j < events.len(),
        surfaces_key(events[i], key),
        surfaces_key(events[j], key),
    ensures
        exists|m: int| i < m < j && pushes_key(#[trigger] events[m], key),
{
    if !(exists|m: int| i < m < j && pushes_key(#[trigger] events[m], key)) {
        assert(forall|m: int| i < m < j ==> !pushes_key(#[trigger] events[m], key));
        assert(step(states[i], events[i], states[i + 1]));
        let e1 = choose|e: Seq<usize>|
            #[trigger] poll_step_within(states[i], states[i + 1], PollEvent::Surfaced(key), e);
        assert(poll_step_within(states[i], states[i + 1], PollEvent::Surfaced(key), e1));
        assert(!states[i + 1].ops.dom().contains(key));
        lemma_absent_until_pushed(states, events, key, i + 1, j);
        assert(step(states[j], events[j], states[j + 1]));
        let e2 = choose|e: Seq<usize>|
            #[trigger] poll_step_within(states[j], states[j + 1], PollEvent::Surfaced(key), e);
        assert(poll_step_within(states[j], states[j + 1], PollEvent::Surfaced(key), e2));
        assert(states[j].ops.dom().contains(key));
        assert(false);
    }
}

} // verus!
