//! A bounded multi-producer channel whose receiver registers its waker, to
//! be woken when an item arrives.
use vstd::prelude::*;
use core::task::Waker;
use crossbeam_queue::ArrayQueue;
use futures::task::AtomicWaker;
use crate::atomic_waker::{new_atomic_waker, register_waker, take_registered};
use std::sync::Arc;
use crate::array_queue::{accepted, new_queue, queue_pop, queue_push, share};
use crate::waker::Poll;

verus! {

/// A queue and the waker of the task that waits on it.
#[verifier::reject_recursive_types(T)]
pub struct Channel<T> {
    queue: ArrayQueue<T>,
    waker: AtomicWaker,
}

impl<T> Channel<T> {
    /// The cell that holds the waker of the receiving task.
    pub closed spec fn waker(&self) -> AtomicWaker {
        self.waker
    }

    pub fn new(capacity: usize) -> (c: Channel<T>)
        requires
            0 < capacity <= isize::MAX,
    {
        Channel { queue: new_queue(capacity), waker: new_atomic_waker() }
    }

    /// The two ends of the shared channel.
    pub fn channel(this: Arc<Self>) -> (r: (Sender<T>, Receiver<T>))
        ensures
            r.0.channel() == this,
            r.1.channel() == this,
    {
        (Sender { channel: share(&this) }, Receiver { channel: share(&this) })
    }
}

/// The sending end of a channel.
#[verifier::reject_recursive_types(T)]
pub struct Sender<T> {
    channel: Arc<Channel<T>>,
}

impl<T> Clone for Sender<T> {
    fn clone(&self) -> (s: Self)
        ensures
            s == *self,
    {
        Sender { channel: share(&self.channel) }
    }
}

impl<T> Sender<T> {
    pub closed spec fn channel(&self) -> Arc<Channel<T>> {
        self.channel
    }

    /// `msg` was queued on this sender's channel: its queue took it in.
    pub closed spec fn queued(&self, msg: T) -> bool {
        accepted(self.channel.queue, msg)
    }

    /// Queues `msg`; a full channel hands it back. After `Ok` the receiving
    /// task is to be woken, through `receiver_waker`: the caller does that.
    pub fn try_send(&mut self, msg: T) -> (r: Result<(), T>)
        ensures
            r is Ok || r == Err::<(), T>(msg),
            r is Ok ==> old(self).queued(msg),
            *final(self) == *old(self),
    {
        queue_push(&self.channel.queue, msg)
    }

    /// The cell that holds the waker of the receiving task, which a
    /// successful `try_send` is to wake.
    pub fn receiver_waker(&self) -> (w: &AtomicWaker)
        ensures
            *w == self.channel().waker(),
    {
        &self.channel.waker
    }
}

/// What a poll of the receiver gives for what the queue handed out: the
/// item if there was one, else `Pending`. The channel never reports its end.
pub open spec fn polled<T>(popped: Option<T>) -> Poll<Option<T>> {
    match popped {
        Some(x) => Poll::Ready(Some(x)),
        None => Poll::Pending,
    }
}

/// Turns what the queue handed out into the result of a poll.
pub fn on_popped<T>(popped: Option<T>) -> (r: Poll<Option<T>>)
    ensures
        r == polled(popped),
{
    match popped {
        Some(x) => Poll::Ready(Some(x)),
        None => Poll::Pending,
    }
}

/// The receiving end of a channel.
#[verifier::reject_recursive_types(T)]
pub struct Receiver<T> {
    channel: Arc<Channel<T>>,
}

impl<T> Receiver<T> {
    pub closed spec fn channel(&self) -> Arc<Channel<T>> {
        self.channel
    }

    /// Takes the next item, or registers `waker` to be woken when one is
    /// sent. If the queue was empty, the waker is registered and the queue
    /// is tried once more, so that an item sent meanwhile is not missed; the
    /// result is what `on_popped` makes of the last thing the queue handed
    /// out, which is never the channel's end.
    pub fn poll_next(&mut self, waker: &Waker) -> (r: Poll<Option<T>>)
        ensures
            exists|popped: Option<T>| r == polled(popped),
            r is Pending || r matches Poll::Ready(Some(_)),
            *final(self) == *old(self),
    {
        let first = queue_pop(&self.channel.queue);
        if first.is_some() {
            return on_popped(first);
        }
        register_waker(&self.channel.waker, waker);
        let second = queue_pop(&self.channel.queue);
        if second.is_some() {
            let _ = take_registered(&self.channel.waker);
        }
        on_popped(second)
    }
}

/// Makes a channel of the given capacity.
pub fn channel<T>(capacity: usize) -> (r: (Sender<T>, Receiver<T>))
    requires
        0 < capacity <= isize::MAX,
    ensures
        r.0.channel() == r.1.channel(),
{
    let channel = Arc::new(Channel::new(capacity));
    Channel::channel(channel)
}

} // verus!
