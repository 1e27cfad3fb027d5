//! One-shot notifications between tasks.
//!
//! The flag and the waker cell are shared with other threads, so which way
//! a poll goes depends on them; the contracts state what is handed over.
use vstd::prelude::*;
use core::sync::atomic::{AtomicBool, Ordering};
use core::task::Waker;
use futures::task::AtomicWaker;
use std::sync::Arc;
use crate::array_queue::share;
use crate::atomic_waker::{new_atomic_waker, register_waker};
use crate::waker::Poll;

verus! {

/// The state that the two ends share: whether a notification has come,
/// and the waker of the task that waits for it.
#[derive(Debug)]
pub struct Shared {
    ready: AtomicBool,
    waker: AtomicWaker,
}

impl Shared {
    /// The cell that holds the waker of the waiting task.
    pub closed spec fn waker(&self) -> AtomicWaker {
        self.waker
    }

    fn new() -> Self {
        Shared { ready: AtomicBool::new(false), waker: new_atomic_waker() }
    }
}

/// Waits for the next notification.
pub struct NotificationFuture {
    shared: Arc<Shared>,
}

impl NotificationFuture {
    pub closed spec fn shared(&self) -> Arc<Shared> {
        self.shared
    }

    fn new(shared: Arc<Shared>) -> (f: Self)
        ensures
            f.shared() == shared,
    {
        NotificationFuture { shared }
    }

    /// Ready once a notification has come; otherwise registers `waker` to
    /// be woken by the next one.
    pub fn poll(&self, waker: &Waker) -> Poll<()> {
        let ready = self.shared.ready.load(Ordering::Relaxed);
        self.poll_ready(ready, waker)
    }

    /// Decides a poll, given whether the notification had come when the
    /// flag was read: ready if it had, else the waker is registered.
    pub fn poll_ready(&self, ready: bool, waker: &Waker) -> (r: Poll<()>)
        ensures
            r == if ready {
                Poll::Ready(())
            } else {
                Poll::<()>::Pending
            },
    {
        if ready {
            Poll::Ready(())
        } else {
            register_waker(&self.shared.waker, waker);
            Poll::Pending
        }
    }
}

/// The notifying end.
#[derive(Debug)]
pub struct Sender {
    shared: Arc<Shared>,
}

impl Sender {
    pub closed spec fn shared(&self) -> Arc<Shared> {
        self.shared
    }

    fn new(shared: Arc<Shared>) -> (s: Self)
        ensures
            s.shared() == shared,
    {
        Sender { shared }
    }

    /// Marks the notification as come. The waiting task is then to be
    /// woken, through `waiter`: the caller does that.
    pub fn notify(&self) {
        self.shared.ready.store(true, Ordering::Relaxed);
    }

    /// The cell that holds the waker of the waiting task.
    pub fn waiter(&self) -> (w: &AtomicWaker)
        ensures
            *w == self.shared().waker(),
    {
        &self.shared.waker
    }
}

/// The waiting end.
pub struct Receiver {
    shared: Arc<Shared>,
}

impl Receiver {
    pub closed spec fn shared(&self) -> Arc<Shared> {
        self.shared
    }

    fn new(shared: Arc<Shared>) -> (r: Self)
        ensures
            r.shared() == shared,
    {
        Receiver { shared }
    }

    /// Forgets any earlier notification and waits for the next one.
    pub fn wait(&self) -> (f: NotificationFuture)
        ensures
            f.shared() == self.shared(),
    {
        self.shared.ready.store(false, Ordering::Relaxed);
        NotificationFuture::new(share(&self.shared))
    }
}

/// The two ends of a new notification.
pub fn notification() -> (r: (Sender, Receiver))
    ensures
        r.0.shared() == r.1.shared(),
{
    let shared = Arc::new(Shared::new());
    (Sender::new(share(&shared)), Receiver::new(shared))
}

} // verus!
