use hyperloop::notify::{notification, Sender as NotifySender};
use hyperloop::priority_channel::{channel, RecvError};
use hyperloop::priority_queue::{Max, Min};
use hyperloop::pubsub::mpsc;
use hyperloop::pubsub::{Class, ClassMember, Message, PubSub, Subscriber};
use hyperloop::waker::Poll;
use std::sync::atomic::{AtomicBool, Ordering};
use std::sync::Arc;
use std::task::{Wake, Waker};

struct MockWaker {
    woke: AtomicBool,
}

impl MockWaker {
    fn new() -> Self {
        Self { woke: AtomicBool::new(false) }
    }
}

impl Wake for MockWaker {
    fn wake(self: Arc<Self>) {
        self.woke.store(true, Ordering::Relaxed);
    }
}

/// Notifies as a task would: sets the flag, then wakes the waiting task.
fn send_notification(sender: &NotifySender) {
    sender.notify();
    sender.waiter().wake();
}

#[test]
fn test_priority_channel() {
    let (sender, mut receiver) = channel::<u32, Max, 5>();

    sender.send(2).unwrap();
    sender.send(4).unwrap();
    sender.send(1).unwrap();
    sender.send(3).unwrap();
    sender.send(5).unwrap();

    assert_eq!(sender.send(6), Err(6));

    assert_eq!(receiver.recv(), Ok(5));
    assert_eq!(receiver.recv(), Ok(4));
    assert_eq!(receiver.recv(), Ok(3));
    assert_eq!(receiver.recv(), Ok(2));
    assert_eq!(receiver.recv(), Ok(1));
    assert_eq!(receiver.recv(), Err(RecvError {}));
}

#[test]
fn priority_channel_peek_and_min_order() {
    let (sender, mut receiver) = channel::<u64, Min, 3>();
    assert!(receiver.peek_mut().is_err());
    let other = sender.clone();
    other.send(30).unwrap();
    sender.send(10).unwrap();
    {
        let mut first = receiver.peek_mut().ok().unwrap();
        assert_eq!(*first.get(), 10);
        assert_eq!(first.pop(), 10);
    }
    assert_eq!(receiver.recv(), Ok(30));
    assert_eq!(receiver.recv(), Err(RecvError {}));
    assert_eq!(RecvError {}.message(), "failed to receive item!");
}

#[test]
fn notification_wakes_waiting_task() {
    let (sender, receiver) = notification();
    let mockwaker = Arc::new(MockWaker::new());
    let waker: Waker = mockwaker.clone().into();

    let future = receiver.wait();
    assert_eq!(future.poll(&waker), Poll::Pending);
    assert!(!mockwaker.woke.load(Ordering::Relaxed));
    send_notification(&sender);
    assert!(mockwaker.woke.load(Ordering::Relaxed));
    assert_eq!(future.poll(&waker), Poll::Ready(()));

    let future = receiver.wait();
    assert_eq!(future.poll(&waker), Poll::Pending);
    send_notification(&sender);
    assert_eq!(future.poll(&waker), Poll::Ready(()));
}

#[test]
fn mpsc_delivers_in_order_and_refuses_when_full() {
    let (mut sender, mut receiver) = mpsc::channel::<u32>(2);
    let mockwaker = Arc::new(MockWaker::new());
    let waker: Waker = mockwaker.clone().into();

    assert_eq!(receiver.poll_next(&waker), Poll::Pending);
    assert_eq!(sender.try_send(1), Ok(()));
    assert!(!mockwaker.woke.load(Ordering::Relaxed));
    sender.receiver_waker().wake();
    assert!(mockwaker.woke.load(Ordering::Relaxed));
    assert_eq!(sender.try_send(2), Ok(()));
    assert_eq!(sender.try_send(3), Err(3));
    assert_eq!(receiver.poll_next(&waker), Poll::Ready(Some(1)));
    assert_eq!(receiver.poll_next(&waker), Poll::Ready(Some(2)));
    assert_eq!(receiver.poll_next(&waker), Poll::Pending);
}

#[test]
fn message_classes() {
    assert_eq!(Message::SomeEvent(1).get_class(), Class::Class1);
    assert_eq!(Message::OtherEvent(1).get_class(), Class::Class1);
    assert_eq!(Message::ThirdEvent(1).get_class(), Class::Class2);
}

#[test]
fn pubsub_routes_by_class() {
    let waker: Waker = Arc::new(MockWaker::new()).into();
    let mut pubsub: PubSub<Message, Class> = PubSub::new(10);

    let mut first: Subscriber<Message> = Subscriber::new(10);
    let mut second: Subscriber<Message> = Subscriber::new(10);
    pubsub.subscribe(Class::Class2, &first);
    pubsub.subscribe(Class::Class1, &second);

    let mut sender = pubsub.get_sender();
    sender.try_send(Message::SomeEvent(8)).unwrap();
    sender.try_send(Message::OtherEvent(8)).unwrap();
    sender.try_send(Message::ThirdEvent(8)).unwrap();

    for _ in 0..3 {
        assert!(matches!(pubsub.poll_task(&waker), Poll::Ready(ref out) if out.len() == 1));
    }
    assert!(matches!(pubsub.poll_task(&waker), Poll::Pending));

    assert_eq!(first.receiver.poll_next(&waker), Poll::Ready(Some(Message::ThirdEvent(8))));
    assert_eq!(first.receiver.poll_next(&waker), Poll::Pending);
    assert_eq!(second.receiver.poll_next(&waker), Poll::Ready(Some(Message::SomeEvent(8))));
    assert_eq!(second.receiver.poll_next(&waker), Poll::Ready(Some(Message::OtherEvent(8))));
    assert_eq!(second.receiver.poll_next(&waker), Poll::Pending);
}

#[test]
fn publish_with_no_subscribers_drops_message() {
    let waker: Waker = Arc::new(MockWaker::new()).into();
    let mut pubsub: PubSub<Message, Class> = PubSub::new(4);
    let mut sub: Subscriber<Message> = Subscriber::new(1);
    pubsub.subscribe(Class::Class1, &sub);
    assert!(pubsub.publish(Message::ThirdEvent(1)).is_empty());
    let out = pubsub.publish(Message::SomeEvent(1));
    assert_eq!(out.len(), 1);
    assert_eq!(out[0].1, Ok(()));
    let out = pubsub.publish(Message::SomeEvent(2));
    assert_eq!(out.len(), 1);
    assert_eq!(out[0].1, Err(Message::SomeEvent(2)));
    assert_eq!(sub.receiver.poll_next(&waker), Poll::Ready(Some(Message::SomeEvent(1))));
    assert_eq!(sub.receiver.poll_next(&waker), Poll::Pending);
}

#[test]
fn notification_poll_follows_the_flag() {
    let (_sender, receiver) = notification();
    let mockwaker = Arc::new(MockWaker::new());
    let waker: Waker = mockwaker.into();
    let future = receiver.wait();
    assert_eq!(future.poll_ready(true, &waker), Poll::Ready(()));
    assert_eq!(future.poll_ready(false, &waker), Poll::Pending);
}

#[test]
fn take_in_buffers_popped_items_while_there_is_room() {
    let (_sender, mut receiver) = channel::<u32, Max, 2>();
    assert!(receiver.take_in(Some(3)));
    assert!(receiver.take_in(Some(8)));
    assert!(receiver.take_in(Some(9)));
    assert!(!receiver.take_in(None));
    assert_eq!(receiver.recv(), Ok(8));
    assert_eq!(receiver.recv(), Ok(3));
    assert_eq!(receiver.recv(), Err(RecvError {}));
}

#[test]
fn hub_hands_messages_to_the_senders_of_their_class() {
    let mut pubsub: PubSub<Message, Class> = PubSub::new(4);
    let mut first: Subscriber<Message> = Subscriber::new(4);
    let mut second: Subscriber<Message> = Subscriber::new(4);
    pubsub.subscribe(Class::Class1, &first);
    pubsub.subscribe(Class::Class1, &second);
    assert_eq!(pubsub.senders_of(&Class::Class1).len(), 2);
    assert_eq!(pubsub.senders_of(&Class::Class2).len(), 0);

    let waker: Waker = Arc::new(MockWaker::new()).into();
    assert!(matches!(
        pubsub.on_incoming(Poll::Ready(Some(Message::OtherEvent(5)))),
        Poll::Ready(ref out) if out.len() == 2 && out.iter().all(|(_, r)| r.is_ok())
    ));
    assert!(matches!(pubsub.on_incoming(Poll::Pending), Poll::Pending));
    assert!(matches!(pubsub.on_incoming(Poll::Ready(None)), Poll::Pending));
    assert_eq!(first.receiver.poll_next(&waker), Poll::Ready(Some(Message::OtherEvent(5))));
    assert_eq!(second.receiver.poll_next(&waker), Poll::Ready(Some(Message::OtherEvent(5))));
    assert_eq!(first.receiver.poll_next(&waker), Poll::Pending);
}
