//! Futures driven from interrupt handlers, and yielding.
use vstd::prelude::*;
use crate::waker::Poll;

verus! {

/// A future that waits exactly once: its first poll asks for its task to be
/// woken and reports `Pending`, every later poll reports `Ready`.
#[derive(Debug)]
pub struct YieldFuture {
    done: bool,
}

impl YieldFuture {
    pub closed spec fn done(&self) -> bool {
        self.done
    }

    pub fn new() -> (y: Self)
        ensures
            !y.done(),
    {
        YieldFuture { done: false }
    }

    /// Polls once. The second part of the result says whether the task's
    /// waker is to be woken now, so that the task is polled again: on the
    /// first poll, and only then.
    pub fn poll(&mut self) -> (r: (Poll<()>, bool))
        ensures
            final(self).done(),
            r.0 == if old(self).done() {
                Poll::Ready(())
            } else {
                Poll::<()>::Pending
            },
            r.1 == !old(self).done(),
    {
        if !self.done {
            self.done = true;
            (Poll::Pending, true)
        } else {
            (Poll::Ready(()), false)
        }
    }
}

/// Gives way to the other tasks once.
pub fn yield_now() -> (y: YieldFuture)
    ensures
        !y.done(),
{
    YieldFuture::new()
}

/// A future that an interrupt handler polls each time it runs.
pub struct Interrupt<F> {
    future: F,
}

impl<F> Interrupt<F> {
    pub closed spec fn future(&self) -> F {
        self.future
    }

    /// Makes the future by calling `future_fn`.
    pub fn new<G: FnOnce() -> F>(future_fn: G) -> (i: Self)
        requires
            future_fn.requires(()),
        ensures
            future_fn.ensures((), i.future()),
    {
        Interrupt { future: future_fn() }
    }

    /// The future, to be polled.
    pub fn future_mut(&mut self) -> (f: &mut F)
        ensures
            *f == old(self).future(),
            final(self).future() == *final(f),
    {
        &mut self.future
    }
}

} // verus!
