use vstd::prelude::*;
use core::sync::atomic::{AtomicBool, Ordering};
use core::task::Waker;
use parking_lot::Mutex;
use std::sync::{Arc, Weak};

verus! {

// `core::task::Waker` appears in signatures of this crate; Verus knows nothing
// of it beyond its existence.
#[verifier::external_type_specification]
#[verifier::external_body]
pub struct ExWaker(Waker);

/// State behind the mutex: the keys awaiting re-poll, in the order their wakes
/// arrived, and the single outer-waker slot.
#[verifier::external_body]
struct ReadyInner {
    queue: Vec<usize>,
    waker: Option<Waker>,
}

/// State of one wake adapter: the key it marks ready, the flag that suppresses
/// duplicate enqueues, and a weak link back to the shared ready state, so an
/// adapter that outlives its multiplexer degrades to a no-op.
#[verifier::external_body]
struct AdapterState {
    key: usize,
    queued: AtomicBool,
    ready: Weak<Mutex<ReadyInner>>,
}

/// The thread-safe ready queue plus the outer-waker slot. One strong reference
/// lives in the multiplexer; every wake adapter holds a weak one. The contents
/// are written by arbitrary notifier threads, so no contract here can pin them;
/// the verified consumer is proved safe for every sequence of drained keys.
#[verifier::external_body]
pub struct ReadyShared {
    inner: Arc<Mutex<ReadyInner>>,
}

/// Wake capability handed to one tracked operation. Invoking it from any
/// thread enqueues the operation's key for re-polling and fires the currently
/// registered outer waker, if any.
#[verifier::external_body]
pub struct WakeHandle {
    state: Arc<AdapterState>,
}

impl ReadyShared {
    /// Relies on `parking_lot::Mutex::new` and `Arc::new` to build the shared
    /// state; the queue starts empty and no outer waker is registered.
    #[verifier::external_body]
    pub(crate) fn with_capacity(cap: usize) -> (r: ReadyShared) {
        ReadyShared {
            inner: Arc::new(Mutex::new(ReadyInner { queue: Vec::with_capacity(cap), waker: None })),
        }
    }

    /// Relies on `parking_lot::Mutex::lock`, `Waker::will_wake` and
    /// `Waker::clone`: stores `w` in the outer-waker slot, replacing any
    /// previous occupant, unless the occupant already wakes the same party.
    #[verifier::external_body]
    pub(crate) fn register_waker(&self, w: &Waker) {
        let mut inner = self.inner.lock();
        match inner.waker.as_ref() {
            Some(cur) if cur.will_wake(w) => {}
            _ => inner.waker = Some(w.clone()),
        }
    }

    /// Relies on `parking_lot::Mutex::lock` and `core::mem::take`: empties the
    /// shared queue and returns what it held. Concurrent wakes may append at
    /// any moment, so nothing can be promised of the returned keys; the caller
    /// is verified to cope with every possible sequence.
    #[verifier::external_body]
    pub(crate) fn drain(&self) -> (keys: Vec<usize>) {
        core::mem::take(&mut self.inner.lock().queue)
    }

    /// Relies on `Arc::new`, `Arc::downgrade` and `AtomicBool::new`: builds the
    /// wake adapter for `key`, born with its queued flag set, since a fresh
    /// entry is enqueued for its first poll by the caller itself.
    #[verifier::external_body]
    pub(crate) fn make_handle(&self, key: usize) -> (h: WakeHandle) {
        WakeHandle {
            state: Arc::new(AdapterState {
                key,
                queued: AtomicBool::new(true),
                ready: Arc::downgrade(&self.inner),
            }),
        }
    }
}

impl WakeHandle {
    /// Relies on `AtomicBool::swap`, `Weak::upgrade`, `parking_lot::Mutex::lock`
    /// and `Waker::wake`: unless the key is already queued, enqueues it in the
    /// shared ready queue and fires the registered outer waker, if any. If the
    /// multiplexer is gone the weak reference fails to resolve and the call is
    /// a no-op. Safe from any thread at any time.
    #[verifier::external_body]
    pub fn wake(&self) {
        if !self.state.queued.swap(true, Ordering::SeqCst) {
            if let Some(ready) = self.state.ready.upgrade() {
                let mut inner = ready.lock();
                inner.queue.push(self.state.key);
                if let Some(w) = inner.waker.take() {
                    w.wake();
                }
            }
        }
    }

    /// Relies on `AtomicBool::store`: clears the queued flag. Done just before
    /// the operation is polled, so a wake arriving during that poll re-enqueues
    /// the key instead of being lost.
    #[verifier::external_body]
    pub(crate) fn clear_queued(&self) {
        self.state.queued.store(false, Ordering::SeqCst);
    }

    /// Relies on `Arc::clone`: another handle to the same adapter, for an
    /// operation that stores its wake capability away or hands it to another
    /// thread.
    #[verifier::external_body]
    pub fn duplicate(&self) -> (h: WakeHandle) {
        WakeHandle { state: Arc::clone(&self.state) }
    }
}

/// Relies on `Waker::wake_by_ref`: schedules the current caller to be polled
/// again, used when a poll call stops at the fairness bound with work left.
#[verifier::external_body]
pub(crate) fn wake_now(w: &Waker) {
    w.wake_by_ref();
}

} // verus!
