//! Publish and subscribe: messages sent to the hub go to every subscriber
//! of the message's class.
use vstd::prelude::*;
use std::collections::BTreeMap;
use crate::waker::Poll;
use core::task::Waker;

pub mod mpsc;

use mpsc::{channel, Receiver, Sender};

verus! {

/// A message that belongs to a class of type `C`.
pub trait ClassMember<C> {
    /// The class of the message.
    spec fn class(&self) -> C;

    fn get_class(&self) -> (c: C)
        ensures
            c == self.class(),
    ;
}

/// The senders of the subscribers of `class` in `subscribers`; none when
/// the class has no subscriber.
pub open spec fn class_senders<T, C>(subscribers: Map<C, Seq<Sender<T>>>, class: C) -> Seq<Sender<T>> {
    if subscribers.contains_key(class) {
        subscribers[class]
    } else {
        Seq::<Sender<T>>::empty()
    }
}

/// `outcomes` pairs each of `senders`, in order, with what sending
/// `message` through it gave: `Ok`, when the message was queued on that
/// sender's channel, or the message handed back by a full channel.
pub open spec fn sent_to_each<T>(
    senders: Seq<Sender<T>>,
    message: T,
    outcomes: Seq<(Sender<T>, Result<(), T>)>,
) -> bool {
    &&& outcomes.len() == senders.len()
    &&& forall|i: int|
        0 <= i < senders.len() ==> (#[trigger] outcomes[i]).0 == senders[i] && (outcomes[i].1 is Ok
            || outcomes[i].1 == Err::<(), T>(message)) && (outcomes[i].1 is Ok ==> senders[i].queued(
            message,
        ))
}

/// A copy of a list of senders, each a sender into the same channel.
fn copy_senders<T>(senders: &Vec<Sender<T>>) -> (r: Vec<Sender<T>>)
    ensures
        r@ == senders@,
{
    let mut r: Vec<Sender<T>> = Vec::new();
    let n = senders.len();
    let mut i: usize = 0;
    while i < n
        invariant
            i <= n,
            n == senders@.len(),
            r@ == senders@.subrange(0, i as int),
        decreases n - i,
    {
        r.push(senders[i].clone());
        i = i + 1;
        proof {
            assert(r@ =~= senders@.subrange(0, i as int));
        }
    }
    proof {
        assert(r@ =~= senders@);
    }
    r
}

/// A subscriber: its own channel, of which the hub keeps the sender.
#[verifier::reject_recursive_types(T)]
pub struct Subscriber<T: Copy> {
    sender: Sender<T>,
    pub receiver: Receiver<T>,
}

impl<T: Copy> Subscriber<T> {
    /// The sender into this subscriber's channel.
    pub closed spec fn sender(&self) -> Sender<T> {
        self.sender
    }

    /// The receiving end of this subscriber's channel.
    pub closed spec fn receiver_end(&self) -> Receiver<T> {
        self.receiver
    }

    pub fn new(capacity: usize) -> (s: Subscriber<T>)
        requires
            0 < capacity <= isize::MAX,
        ensures
            s.sender().channel() == s.receiver_end().channel(),
    {
        let (sender, receiver) = channel(capacity);
        Subscriber { sender, receiver }
    }
}

/// The hub: an incoming channel and, for each class, the senders of its
/// subscribers in the order in which they subscribed.
#[verifier::reject_recursive_types(T)]
#[verifier::reject_recursive_types(C)]
pub struct PubSub<T: Copy + ClassMember<C>, C: Ord> {
    incoming: (Sender<T>, Receiver<T>),
    subscribers: BTreeMap<C, Vec<Sender<T>>>,
}

impl<T: Copy + ClassMember<C>, C: Ord> PubSub<T, C> {
    /// The senders of each class's subscribers.
    pub closed spec fn subscribers(&self) -> Map<C, Seq<Sender<T>>> {
        self.subscribers@.map_values(|v: Vec<Sender<T>>| v@)
    }

    pub fn new(capacity: usize) -> (p: PubSub<T, C>)
        requires
            0 < capacity <= isize::MAX,
        ensures
            vstd::laws_cmp::obeys_cmp::<C>() ==> p.subscribers() == Map::<
                C,
                Seq<Sender<T>>,
            >::empty(),
    {
        let p = PubSub { incoming: channel(capacity), subscribers: BTreeMap::new() };
        
        proof {
            assert(p.subscribers() =~= Map::<C, Seq<Sender<T>>>::empty());
        }
        p
    }

    /// Adds `subscriber` to the subscribers of `class`.
    pub fn subscribe(&mut self, class: C, subscriber: &Subscriber<T>)
        ensures
            vstd::laws_cmp::obeys_cmp::<C>() ==> final(self).subscribers() == old(
                self,
            ).subscribers().insert(
                class,
                if old(self).subscribers().contains_key(class) {
                    old(self).subscribers()[class]
                } else {
                    Seq::<Sender<T>>::empty()
                }.push(subscriber.sender()),
            ),
    {
        let mut senders = match self.subscribers.remove(&class) {
            Some(senders) => senders,
            None => Vec::new(),
        };
        senders.push(subscriber.sender.clone());
        self.subscribers.insert(class, senders);
        proof {
            if vstd::laws_cmp::obeys_cmp::<C>() {
                assert(self.subscribers() =~= old(self).subscribers().insert(
                    class,
                    if old(self).subscribers().contains_key(class) {
                        old(self).subscribers()[class]
                    } else {
                        Seq::<Sender<T>>::empty()
                    }.push(subscriber.sender()),
                ));
            }
        }
    }

    /// The senders of the subscribers of `class`, in the order in which
    /// they subscribed; none when the class has no subscriber.
    pub fn senders_of(&self, class: &C) -> (r: Vec<Sender<T>>)
        ensures
            vstd::laws_cmp::obeys_cmp::<C>() ==> r@ == if self.subscribers().contains_key(*class) {
                self.subscribers()[*class]
            } else {
                Seq::<Sender<T>>::empty()
            },
    {
        match self.subscribers.get(class) {
            Some(senders) => copy_senders(senders),
            None => Vec::new(),
        }
    }

    /// Sends `message` to every subscriber of its class, in the order in
    /// which they subscribed, and says for each sender what the send gave; a
    /// subscriber whose channel is full misses the message. The receiving
    /// task of each sender that got `Ok` is to be woken, through the
    /// sender's `receiver_waker`: the caller does that. The hub itself is
    /// left as it was.
    pub fn publish(&mut self, message: T) -> (r: Vec<(Sender<T>, Result<(), T>)>)
        ensures
            *final(self) == *old(self),
            vstd::laws_cmp::obeys_cmp::<C>() ==> sent_to_each(
                class_senders(old(self).subscribers(), message.class()),
                message,
                r@,
            ),
    {
        let class = message.get_class();
        let senders = self.senders_of(&class);
        let n = senders.len();
        let mut r: Vec<(Sender<T>, Result<(), T>)> = Vec::new();
        let mut i: usize = 0;
        while i < n
            invariant
                i <= n,
                n == senders@.len(),
                r@.len() == i,
                forall|k: int|
                    0 <= k < i ==> (#[trigger] r@[k]).0 == senders@[k] && (r@[k].1 is Ok || r@[k].1
                        == Err::<(), T>(message)) && (r@[k].1 is Ok ==> senders@[k].queued(message)),
            decreases n - i,
        {
            let mut subscriber = senders[i].clone();
            let outcome = subscriber.try_send(message);
            r.push((subscriber, outcome));
            i = i + 1;
        }
        r
    }

    /// The sending end of the hub's incoming channel.
    pub closed spec fn incoming_sender(&self) -> Sender<T> {
        self.incoming.0
    }

    /// A sender into the hub.
    pub fn get_sender(&self) -> (s: Sender<T>)
        ensures
            s == self.incoming_sender(),
    {
        self.incoming.0.clone()
    }

    /// Acts on what polling the incoming channel gave: a message is
    /// published, and what `publish` gave is handed on; otherwise the hub
    /// waits.
    pub fn on_incoming(&mut self, polled: Poll<Option<T>>) -> (r: Poll<
        Vec<(Sender<T>, Result<(), T>)>,
    >)
        ensures
            *final(self) == *old(self),
            r is Ready <==> polled matches Poll::Ready(Some(_)),
            polled matches Poll::Ready(Some(m)) ==> (r matches Poll::Ready(out) && (
            vstd::laws_cmp::obeys_cmp::<C>() ==> sent_to_each(
                class_senders(old(self).subscribers(), m.class()),
                m,
                out@,
            ))),
    {
        match polled {
            Poll::Ready(Some(message)) => Poll::Ready(self.publish(message)),
            _ => Poll::Pending,
        }
    }

    /// Takes the next incoming message and publishes it, or registers
    /// `waker` to be woken when one arrives; hands on what `on_incoming`
    /// gives, whose `Ok` senders' receivers are to be woken.
    pub fn poll_task(&mut self, waker: &Waker) -> (r: Poll<Vec<(Sender<T>, Result<(), T>)>>)
        ensures
            final(self).subscribers() == old(self).subscribers(),
    {
        let polled = self.incoming.1.poll_next(waker);
        self.on_incoming(polled)
    }
}

/// The classes of the example messages.
#[derive(Debug, Clone, Copy, PartialEq, Eq, PartialOrd, Ord)]
pub enum Class {
    Class1,
    Class2,
    Class3,
}

/// Example messages.
#[derive(Debug, Clone, Copy, PartialEq, Eq, PartialOrd, Ord)]
pub enum Message {
    SomeEvent(u8),
    OtherEvent(u32),
    ThirdEvent(u8),
}

impl ClassMember<Class> for Message {
    open spec fn class(&self) -> Class {
        match self {
            Message::SomeEvent(..) | Message::OtherEvent(..) => Class::Class1,
            Message::ThirdEvent(..) => Class::Class2,
        }
    }

    fn get_class(&self) -> (c: Class) {
        match self {
            Message::SomeEvent(..) | Message::OtherEvent(..) => Class::Class1,
            Message::ThirdEvent(..) => Class::Class2,
        }
    }
}

} // verus!
