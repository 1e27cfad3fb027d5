use hyperloop::timer::list::{List, Node};
use hyperloop::timer::{delay_to_ticks, DelayFuture, Scheduler, Ticket, TimeoutFuture};
use hyperloop::waker::Poll;
use std::sync::atomic::{AtomicBool, Ordering};
use std::sync::Arc;
use std::task::{Wake, Waker};

/// Wakes the tasks of the tickets that a scheduler handed out.
fn wake_all(tickets: Vec<Ticket>) {
    for ticket in tickets {
        ticket.waker.wake();
    }
}

struct MockWaker {
    woke: AtomicBool,
}

impl MockWaker {
    fn new() -> Self {
        Self { woke: AtomicBool::new(false) }
    }
}

impl Wake for MockWaker {
    fn wake(self: Arc<Self>) {
        self.woke.store(true, Ordering::Relaxed);
    }
}

#[test]
fn state() {
    let mut scheduler = Scheduler::<0>::new(1000);

    assert_eq!(scheduler.get_count(), 0);

    wake_all(scheduler.tick());
    assert_eq!(scheduler.get_count(), 1);

    wake_all(scheduler.tick());

    assert_eq!(scheduler.get_count(), 2);
}

#[test]
fn linked_list() {
    let mut root = List::new();
    let list = &mut root;

    let items = (0..10).map(|i: u32| Node::new(i)).collect::<Vec<_>>();

    for item in items {
        list.insert(item);
    }

    let mut v = Vec::new();

    while let Some(item) = list.pop() {
        v.push(item);
    }

    assert_eq!(v, [0, 1, 2, 3, 4, 5, 6, 7, 8, 9]);
}

#[test]
fn list_keeps_key_order_and_insertion_order() {
    let mut list: List<u32> = List::new();
    for i in [5u32, 1, 3, 1, 9, 0] {
        list.insert(Node::new(i));
    }
    {
        let first = list.peek_mut().unwrap();
        assert_eq!(*first.get(), 0);
        assert_eq!(first.pop(), 0);
    }
    let mut v = Vec::new();
    while let Some(item) = list.pop() {
        v.push(item);
    }
    assert_eq!(v, [1, 1, 3, 5, 9]);
    assert!(list.peek_mut().is_none());
}

#[test]
fn node_holds_its_item() {
    let node = Node::new(7u32);
    assert_eq!(*node.get_item(), 7);
}

#[test]
fn delay_to_ticks_counts_whole_periods() {
    assert_eq!(delay_to_ticks(1000, 0, 10), 10);
    assert_eq!(delay_to_ticks(1000, 5, 0), 5);
    assert_eq!(delay_to_ticks(100, 3, 25), 5);
    assert_eq!(delay_to_ticks(1, 0, 1000), 1);
    let scheduler = Scheduler::<1>::new(500);
    assert_eq!(scheduler.delay_to_ticks(7), 3);
}

#[test]
fn delay_waits_until_counter_passes_expiry() {
    let mut scheduler = Scheduler::<10>::new(1000);
    let mockwaker = Arc::new(MockWaker::new());
    let waker: Waker = mockwaker.clone().into();

    let mut future = DelayFuture::new(1);

    assert_eq!(future.poll(&mut scheduler, &waker), Poll::Pending);
    assert_eq!(future.poll(&mut scheduler, &waker), Poll::Pending);
    assert_eq!(future.poll(&mut scheduler, &waker), Poll::Pending);

    scheduler.increment();
    scheduler.increment();

    assert_eq!(future.poll(&mut scheduler, &waker), Poll::Ready(()));

    let mut future = DelayFuture::new(20);
    assert_eq!(future.poll(&mut scheduler, &waker), Poll::Pending);
    let mut future = DelayFuture::new(15);
    assert_eq!(future.poll(&mut scheduler, &waker), Poll::Pending);

    assert!(!mockwaker.woke.load(Ordering::Relaxed));
    wake_all(scheduler.take_expired());
    assert!(mockwaker.woke.load(Ordering::Relaxed));
}

#[test]
fn tick_wakes_only_expired_tickets() {
    let mut scheduler = Scheduler::<4>::new(1000);
    let early = Arc::new(MockWaker::new());
    let late = Arc::new(MockWaker::new());

    let early_waker: Waker = early.clone().into();
    let late_waker: Waker = late.clone().into();
    assert!(scheduler.send(Ticket::new(2, early_waker)).is_ok());
    assert!(scheduler.send(Ticket::new(5, late_waker)).is_ok());

    for _ in 0..3 {
        wake_all(scheduler.tick());
    }
    assert!(early.woke.load(Ordering::Relaxed));
    assert!(!late.woke.load(Ordering::Relaxed));

    for _ in 0..2 {
        wake_all(scheduler.tick());
    }
    assert!(!late.woke.load(Ordering::Relaxed));

    wake_all(scheduler.tick());
    assert!(late.woke.load(Ordering::Relaxed));
    assert!(scheduler.next_waker().is_none());
}

#[test]
fn full_scheduler_refuses_ticket() {
    let mut scheduler = Scheduler::<1>::new(1000);
    let waker: Waker = Arc::new(MockWaker::new()).into();
    assert!(scheduler.send(Ticket::new(2, waker.clone())).is_ok());
    let refused = scheduler.send(Ticket::new(1, waker));
    assert_eq!(refused.map_err(|t| t.expires), Err(1));
}

#[test]
fn timeout_reports_inner_result_or_expiry() {
    let mut scheduler = Scheduler::<2>::new(1000);
    let waker: Waker = Arc::new(MockWaker::new()).into();

    let mut timeout = TimeoutFuture::new(7u32, 3);
    assert_eq!(*timeout.future_mut(), 7);
    assert_eq!(timeout.poll_with(Poll::<u32>::Pending, &mut scheduler, &waker), Poll::Pending);
    for _ in 0..3 {
        scheduler.increment();
    }
    assert_eq!(timeout.poll_with(Poll::<u32>::Pending, &mut scheduler, &waker), Poll::Pending);
    scheduler.increment();
    assert_eq!(
        timeout.poll_with(Poll::<u32>::Pending, &mut scheduler, &waker),
        Poll::Ready(Err(()))
    );
    assert_eq!(timeout.poll_with(Poll::Ready(5u32), &mut scheduler, &waker), Poll::Ready(Ok(5)));
}

#[test]
fn delay_ends_after_its_duration_and_within_one_tick() {
    // A 100 Hz clock: one tick every 10 ms. A delay of 25 ms started at
    // tick 3 expires at tick 5 and is ready from tick 6 on: 30 ms later.
    let mut scheduler = Scheduler::<4>::new(100);
    for _ in 0..3 {
        scheduler.increment();
    }
    let waker: Waker = Arc::new(MockWaker::new()).into();
    let expires = scheduler.delay_to_ticks(25);
    assert_eq!(expires, 5);
    let mut delay = DelayFuture::new(expires);
    assert_eq!(delay.poll(&mut scheduler, &waker), Poll::Pending);
    wake_all(scheduler.tick());
    assert_eq!(delay.poll(&mut scheduler, &waker), Poll::Pending);
    wake_all(scheduler.tick());
    assert_eq!(delay.poll(&mut scheduler, &waker), Poll::Pending);
    wake_all(scheduler.tick());
    assert_eq!(scheduler.get_count(), 6);
    assert_eq!(delay.poll(&mut scheduler, &waker), Poll::Ready(()));
}

#[test]
fn zero_delay_is_ready_after_the_next_tick() {
    let mut scheduler = Scheduler::<1>::new(1000);
    let waker: Waker = Arc::new(MockWaker::new()).into();
    let mut delay = DelayFuture::new(scheduler.delay_to_ticks(0));
    assert_eq!(delay.poll(&mut scheduler, &waker), Poll::Pending);
    assert_eq!(delay.poll(&mut scheduler, &waker), Poll::Pending);
    wake_all(scheduler.tick());
    assert_eq!(delay.poll(&mut scheduler, &waker), Poll::Ready(()));
}

#[test]
fn delay() {
    let mut scheduler = Scheduler::<10>::new(1000);

    let mockwaker = Arc::new(MockWaker::new());
    let waker: Waker = mockwaker.clone().into();

    let mut future = DelayFuture::new(1);

    assert_eq!(future.poll(&mut scheduler, &waker), Poll::Pending);
    assert_eq!(future.poll(&mut scheduler, &waker), Poll::Pending);
    assert_eq!(future.poll(&mut scheduler, &waker), Poll::Pending);
    assert_eq!(future.started, true);

    scheduler.increment();
    scheduler.increment();

    assert_eq!(future.poll(&mut scheduler, &waker), Poll::Ready(()));

    let mut future = DelayFuture::new(20);

    assert_eq!(future.poll(&mut scheduler, &waker), Poll::Pending);

    let mut future = DelayFuture::new(15);

    assert_eq!(future.poll(&mut scheduler, &waker), Poll::Pending);

    if let Some(ticket) = scheduler.pop_ticket() {
        assert_eq!(ticket.expires, 1);
        ticket.waker.wake();
        assert_eq!(mockwaker.woke.load(Ordering::Relaxed), true)
    }

    if let Some(ticket) = scheduler.pop_ticket() {
        assert_eq!(ticket.expires, 15);
    }

    if let Some(ticket) = scheduler.pop_ticket() {
        assert_eq!(ticket.expires, 20);
    }
}

#[test]
fn timeout_queues_its_delay_ticket_on_first_poll() {
    let mut scheduler = Scheduler::<2>::new(1000);
    let mockwaker = Arc::new(MockWaker::new());
    let waker: Waker = mockwaker.clone().into();
    let mut timeout = TimeoutFuture::new(0u32, 2);
    assert_eq!(timeout.poll_with(Poll::<u32>::Pending, &mut scheduler, &waker), Poll::Pending);
    for _ in 0..3 {
        wake_all(scheduler.tick());
    }
    assert!(mockwaker.woke.load(Ordering::Relaxed));
    assert_eq!(
        timeout.poll_with(Poll::<u32>::Pending, &mut scheduler, &waker),
        Poll::Ready(Err(()))
    );
}

#[test]
fn pop_ticket_hands_out_earliest_first_expired_or_not() {
    let mut scheduler = Scheduler::<3>::new(1000);
    assert!(scheduler.pop_ticket().is_none());
    let waker: Waker = Arc::new(MockWaker::new()).into();
    assert!(scheduler.send(Ticket::new(9, waker.clone())).is_ok());
    assert!(scheduler.send(Ticket::new(4, waker.clone())).is_ok());
    assert!(scheduler.send(Ticket::new(6, waker)).is_ok());
    assert_eq!(scheduler.pop_ticket().map(|t| t.expires), Some(4));
    assert_eq!(scheduler.pop_ticket().map(|t| t.expires), Some(6));
    assert_eq!(scheduler.pop_ticket().map(|t| t.expires), Some(9));
    assert!(scheduler.pop_ticket().is_none());
    assert_eq!(scheduler.get_count(), 0);
}

#[test]
fn take_expired_hands_out_expired_tickets_earliest_first() {
    let mut scheduler = Scheduler::<4>::new(1000);
    let waker: Waker = Arc::new(MockWaker::new()).into();
    assert!(scheduler.send(Ticket::new(9, waker.clone())).is_ok());
    assert!(scheduler.send(Ticket::new(4, waker.clone())).is_ok());
    assert!(scheduler.send(Ticket::new(12, waker.clone())).is_ok());
    assert!(scheduler.send(Ticket::new(6, waker)).is_ok());
    assert!(scheduler.take_expired().is_empty());
    for _ in 0..9 {
        scheduler.increment();
    }
    let expired: Vec<u64> = scheduler.take_expired().iter().map(|t| t.expires).collect();
    assert_eq!(expired, vec![4, 6]);
    let expired: Vec<u64> = scheduler.tick().iter().map(|t| t.expires).collect();
    assert_eq!(expired, vec![9]);
    assert_eq!(scheduler.pop_ticket().map(|t| t.expires), Some(12));
}
