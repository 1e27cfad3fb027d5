//! A channel whose receiver hands out items in priority order.
//!
//! Senders push into a bounded shared queue; the receiver drains that
//! queue into a priority queue of its own, up to its capacity, and takes
//! the first item from there.
use vstd::prelude::*;
use vstd::multiset::Multiset;
use crossbeam_queue::ArrayQueue;
use std::sync::Arc;
use crate::array_queue::{accepted, new_queue, queue_pop, queue_push, share};
use crate::priority_queue::{is_first, Keyed, Kind, PeekMut, PriorityQueue};

verus! {

proof fn lemma_subset_nonempty<T>(a: Multiset<T>, b: Multiset<T>)
    requires
        a.subset_of(b),
        a.len() > 0,
    ensures
        b.len() > 0,
{
    vstd::multiset::lemma_multiset_empty_len(a);
    vstd::multiset::lemma_multiset_empty_len(b);
    let v = choose|v: T| 0 < a.count(v);
    assert(b.count(v) > 0);
}

/// A take-in from the shared queue, which changed the record of what was
/// taken in from `before` to `after` and the buffer's size from `had` to
/// `has`, took in everything it could: the record only grew; if the buffer
/// had room, at least one thing was taken in; every new entry but the last
/// is an item; and it stopped with the buffer full or the queue found empty.
pub open spec fn took_in_all<T>(before: Seq<Option<T>>, after: Seq<Option<T>>, had: nat, has: nat, cap: nat) -> bool {
    &&& before.len() <= after.len()
    &&& after.subrange(0, before.len() as int) == before
    &&& had < cap ==> before.len() < after.len()
    &&& forall|i: int| before.len() <= i < after.len() - 1 ==> (#[trigger] after[i]) is Some
    &&& has == cap || (before.len() < after.len() && after.last() is None)
}

/// An item that a channel can carry.
pub trait Item: Keyed {}

impl Item for u32 {}

impl Item for u64 {}

#[verifier::reject_recursive_types(T)]
struct Channel<T, K, const N: usize> {
    in_queue: Arc<ArrayQueue<T>>,
    out_queue: PriorityQueue<T, K, N>,
}

impl<T: Item, K: Kind, const N: usize> Channel<T, K, N> {
    fn new() -> (c: Self)
        requires
            0 < N <= isize::MAX,
        ensures
            c.out_queue.wf(),
            c.out_queue@ == Multiset::<T>::empty(),
    {
        Channel { in_queue: Arc::new(new_queue(N)), out_queue: PriorityQueue::new() }
    }
}

/// The sending end of a channel.
#[verifier::reject_recursive_types(T)]
pub struct Sender<T> {
    queue: Arc<ArrayQueue<T>>,
}

impl<T: Item> Sender<T> {
    fn new(queue: Arc<ArrayQueue<T>>) -> (s: Self)
        ensures
            s.queue == queue,
    {
        Sender { queue }
    }

    /// `item` was queued on this sender's channel: its shared queue took it
    /// in.
    pub closed spec fn queued(&self, item: T) -> bool {
        accepted(*self.queue, item)
    }

    /// Sends `item`; a full channel hands it back.
    pub fn send(&self, item: T) -> (r: Result<(), T>)
        ensures
            r is Ok || r == Err::<(), T>(item),
            r is Ok ==> self.queued(item),
    {
        match queue_push(&self.queue, item) {
            Err(item) => Err(item),
            Ok(()) => Ok(()),
        }
    }
}

/// Another sender into the same channel.
impl<T> Clone for Sender<T> {
    fn clone(&self) -> (s: Self)
        ensures
            s == *self,
    {
        Sender { queue: share(&self.queue) }
    }
}

/// The receiver found nothing to hand out.
#[derive(Debug, PartialEq, Eq, Structural)]
pub struct RecvError {}

impl RecvError {
    /// What went wrong, in words.
    pub fn message(&self) -> (s: &'static str)
        ensures
            s@ == "failed to receive item!"@,
    {
        "failed to receive item!"
    }
}

/// The receiving end of a channel.
#[verifier::reject_recursive_types(T)]
pub struct Receiver<T, K, const N: usize> {
    channel: Channel<T, K, N>,
    intake: Ghost<Seq<Option<T>>>,
}

impl<T: Item, K: Kind, const N: usize> Receiver<T, K, N> {
    pub closed spec fn wf(&self) -> bool {
        self.channel.out_queue.wf() && N > 0
    }

    /// The items taken from the senders and not handed out yet.
    pub closed spec fn buffered(&self) -> Multiset<T> {
        self.channel.out_queue@
    }

    /// What the receiver has taken in from the shared queue, in order:
    /// each item it popped, and `None` each time it found the queue empty.
    pub closed spec fn intake(&self) -> Seq<Option<T>> {
        self.intake@
    }

    fn new(channel: Channel<T, K, N>) -> (r: Self)
        ensures
            r.channel == channel,
            r.intake() == Seq::<Option<T>>::empty(),
    {
        Receiver { channel, intake: Ghost(Seq::empty()) }
    }

    /// Takes in what the shared queue handed out: an item goes into the
    /// buffer while there is room (a full buffer drops it), and `None`
    /// tells that nothing more was sent. Returns whether to go on.
    pub fn take_in(&mut self, popped: Option<T>) -> (more: bool)
        requires
            old(self).wf(),
        ensures
            final(self).wf(),
            more == popped is Some,
            popped matches Some(x) ==> (old(self).buffered().len() < N ==> final(self).buffered()
                == old(self).buffered().insert(x)),
            popped is None || old(self).buffered().len() >= N ==> final(self).buffered() == old(
                self,
            ).buffered(),
            final(self).intake() == old(self).intake().push(popped),
    {
        proof {
            self.intake@ = self.intake@.push(popped);
        }
        match popped {
            Some(item) => {
                let _ = self.channel.out_queue.push(item);
                true
            },
            None => false,
        }
    }

    /// Moves sent items into the priority queue while it has room: it stops
    /// once the buffer is full or the shared queue is found empty.
    fn sort_incoming(&mut self)
        requires
            old(self).wf(),
        ensures
            final(self).wf(),
            old(self).buffered().subset_of(final(self).buffered()),
            took_in_all(old(self).intake(), final(self).intake(), old(self).buffered().len(), final(self).buffered().len(), N as nat),
    {
        let mut more = true;
        while more && self.channel.out_queue.len() < N
            invariant
                self.wf(),
                old(self).buffered().subset_of(self.buffered()),
                self.intake().len() >= old(self).intake().len(),
                self.intake().subrange(0, old(self).intake().len() as int) == old(self).intake(),
                self.intake().len() == old(self).intake().len() ==> self.buffered() == old(self).buffered(),
                !more ==> self.intake().len() > old(self).intake().len() && self.intake().last() is None,
                forall|i: int|
                    old(self).intake().len() <= i < self.intake().len() - (if more { 0int } else { 1int })
                        ==> (#[trigger] self.intake()[i]) is Some,
            decreases N - self.buffered().len() + (if more { 1int } else { 0int }),
        {
            proof {
                self.channel.out_queue.lemma_len_bound();
            }
            let popped = queue_pop(&self.channel.in_queue);
            let ghost before = self.intake();
            more = self.take_in(popped);
            proof {
                assert(self.intake().subrange(0, old(self).intake().len() as int) =~= before.subrange(
                    0,
                    old(self).intake().len() as int,
                ));
            }
        }
        proof {
            self.channel.out_queue.lemma_len_bound();
        }
    }

    /// Takes the first of the received items, after taking in what the
    /// senders have sent; an error when there is none.
    pub fn recv(&mut self) -> (r: Result<T, RecvError>)
        requires
            old(self).wf(),
        ensures
            final(self).wf(),
            old(self).buffered().len() > 0 ==> r is Ok,
            r matches Ok(x) ==> {
                let all = final(self).buffered().insert(x);
                &&& old(self).buffered().subset_of(all)
                &&& is_first(K::spec_kind(), all, x)
            },
            r is Err ==> final(self).buffered() == Multiset::<T>::empty(),
            took_in_all(
                old(self).intake(),
                final(self).intake(),
                old(self).buffered().len(),
                final(self).buffered().len() + if r is Ok {
                    1nat
                } else {
                    0nat
                },
                N as nat,
            ),
    {
        self.sort_incoming();
        proof {
            if old(self).buffered().len() > 0 {
                lemma_subset_nonempty(old(self).buffered(), self.buffered());
            }
        }
        let ghost drained = self.buffered();
        match self.channel.out_queue.pop() {
            Some(item) => {
                proof {
                    assert(self.buffered().insert(item) =~= drained);
                }
                Ok(item)
            },
            None => {
                proof {
                    assert(self.buffered() =~= Multiset::<T>::empty());
                }
                Err(RecvError {})
            },
        }
    }

    /// Access to the first of the received items, after taking in what
    /// the senders have sent; an error when there is none.
    pub fn peek_mut(&mut self) -> (r: Result<PeekMut<'_, T, K, N>, RecvError>)
        requires
            old(self).wf(),
        ensures
            old(self).buffered().len() > 0 ==> r is Ok,
            r matches Ok(p) ==> p.queue().wf() && p.queue()@.len() > 0 && p.queue().stack_items().len()
                == 0 && old(self).buffered().subset_of(p.queue()@),
            r matches Ok(p) ==> took_in_all(
                old(self).intake(),
                final(self).intake(),
                old(self).buffered().len(),
                p.queue()@.len(),
                N as nat,
            ),
            r is Err ==> took_in_all(
                old(self).intake(),
                final(self).intake(),
                old(self).buffered().len(),
                0,
                N as nat,
            ),
    {
        self.sort_incoming();
        proof {
            if old(self).buffered().len() > 0 {
                lemma_subset_nonempty(old(self).buffered(), self.buffered());
            }
        }
        match self.channel.out_queue.peek_mut() {
            Some(item) => Ok(item),
            None => Err(RecvError {}),
        }
    }
}

/// Makes a channel of capacity `N`.
pub fn channel<T: Item, K: Kind, const N: usize>() -> (r: (Sender<T>, Receiver<T, K, N>))
    requires
        0 < N <= isize::MAX,
    ensures
        r.1.wf(),
        r.1.buffered() == Multiset::<T>::empty(),
{
    let pri_queue = Channel::new();
    (Sender::new(share(&pri_queue.in_queue)), Receiver::new(pri_queue))
}

} // verus!
