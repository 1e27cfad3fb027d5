//! The executor, the scheduler and delays working together, with tasks
//! written out as the state machines that `async` would make of them.
use hyperloop::executor::Executor;
use hyperloop::interrupt::{yield_now, Interrupt, YieldFuture};
use hyperloop::notify::{notification, NotificationFuture, Receiver, Sender as NotifySender};
use hyperloop::task::{Task, TaskHandle};
use hyperloop::timer::{DelayFuture, Scheduler, Ticket, TimeoutFuture};
use hyperloop::waker::Poll;
use std::collections::VecDeque;
use std::sync::atomic::{AtomicBool, Ordering};
use std::sync::Arc;
use std::task::{Wake, Waker};

/// Polls a yield as a task would: wakes the task when the poll asks for it.
fn poll_yield(future: &mut YieldFuture, waker: &Waker) -> Poll<()> {
    let (r, wake) = future.poll();
    if wake {
        waker.wake_by_ref();
    }
    r
}

/// Wakes the tasks of the tickets that a scheduler handed out.
fn wake_all(tickets: Vec<Ticket>) {
    for ticket in tickets {
        ticket.waker.wake();
    }
}

struct FlagWaker {
    woke: AtomicBool,
}

impl Wake for FlagWaker {
    fn wake(self: Arc<Self>) {
        self.woke.store(true, Ordering::Relaxed);
    }
}

fn flag_waker() -> (Arc<FlagWaker>, Waker) {
    let flag = Arc::new(FlagWaker { woke: AtomicBool::new(false) });
    let waker: Waker = flag.clone().into();
    (flag, waker)
}

/// Hands a wake-up of task 0 on to the executor.
fn forward<const N: usize>(flag: &FlagWaker, executor: &mut Executor<N>) {
    if flag.woke.swap(false, Ordering::Relaxed) {
        executor.wake(0);
    }
}

/// Notifies as a task would: sets the flag, then wakes the waiting task.
fn send_notification(sender: &NotifySender) {
    sender.notify();
    sender.waiter().wake();
}

#[test]
fn test_executor() {
    let mut queue = VecDeque::new();
    let values = [1u32, 2, 3, 4];
    let mut executor = Executor::new([
        TaskHandle::new(1),
        TaskHandle::new(3),
        TaskHandle::new(2),
        TaskHandle::new(4),
    ]);
    executor.init();

    while let Some(task) = executor.next_task() {
        queue.push_back(values[task as usize]);
    }

    assert_eq!(queue.pop_front().unwrap(), 4);
    assert_eq!(queue.pop_front().unwrap(), 2);
    assert_eq!(queue.pop_front().unwrap(), 3);
    assert_eq!(queue.pop_front().unwrap(), 1);
}

#[test]
fn test_pending_wake() {
    // One task that pushes 0, 1, 2, ... and waits for a notification
    // after each push.
    let mut queue = VecDeque::new();
    let mut next = 0u32;
    let mut executor = Executor::new([TaskHandle::new(1)]);
    executor.init();

    let mut poll_tasks = |executor: &mut Executor<1>, queue: &mut VecDeque<u32>| {
        while let Some(_) = executor.next_task() {
            queue.push_back(next);
            next += 1;
        }
    };

    poll_tasks(&mut executor, &mut queue);
    assert_eq!(queue.pop_front().unwrap(), 0);
    assert!(queue.pop_front().is_none());

    executor.wake(0);
    poll_tasks(&mut executor, &mut queue);
    assert_eq!(queue.pop_front().unwrap(), 1);
    assert!(queue.pop_front().is_none());

    poll_tasks(&mut executor, &mut queue);
    assert!(queue.pop_front().is_none());

    executor.wake(0);
    executor.wake(0);
    poll_tasks(&mut executor, &mut queue);
    assert_eq!(queue.pop_front().unwrap(), 2);
    assert!(queue.pop_front().is_none());
}

/// push 1; delay 0 ms; push 2; delay 1 ms; push 3; delay 1 ms; push 4;
/// delay 1 ms; push 5; delay 10 ms; push 6.
struct DelayingTask {
    pushed: u32,
    delay: Option<DelayFuture>,
}

impl DelayingTask {
    fn poll(&mut self, scheduler: &mut Scheduler<10>, waker: &Waker, queue: &mut VecDeque<u32>) {
        let delays = [0u32, 1, 1, 1, 10];
        loop {
            if let Some(delay) = self.delay.as_mut() {
                if delay.poll(scheduler, waker) == Poll::Pending {
                    return;
                }
                self.delay = None;
            }
            if self.pushed == 6 {
                return;
            }
            self.pushed += 1;
            queue.push_back(self.pushed);
            if (self.pushed as usize) <= delays.len() {
                let ms = delays[self.pushed as usize - 1];
                self.delay = Some(DelayFuture::new(scheduler.delay_to_ticks(ms)));
            }
        }
    }
}

#[test]
fn timer() {
    let mut scheduler = Scheduler::<10>::new(1000);
    let mut queue = VecDeque::new();
    let mut executor = Executor::new([TaskHandle::new(1)]);
    let (flag, waker) = flag_waker();
    let mut task = DelayingTask { pushed: 0, delay: None };
    executor.init();

    let mut poll_tasks = |executor: &mut Executor<1>,
                          scheduler: &mut Scheduler<10>,
                          queue: &mut VecDeque<u32>| {
        forward(&flag, executor);
        while let Some(_) = executor.next_task() {
            task.poll(scheduler, &waker, queue);
        }
    };

    poll_tasks(&mut executor, &mut scheduler, &mut queue);
    assert_eq!(queue.pop_front(), Some(1));
    assert_eq!(queue.pop_front(), None);

    wake_all(scheduler.tick());
    poll_tasks(&mut executor, &mut scheduler, &mut queue);
    assert_eq!(queue.pop_front(), Some(2));
    assert_eq!(queue.pop_front(), None);

    wake_all(scheduler.take_expired());
    poll_tasks(&mut executor, &mut scheduler, &mut queue);
    assert_eq!(queue.pop_front(), None);

    wake_all(scheduler.tick());
    wake_all(scheduler.tick());
    poll_tasks(&mut executor, &mut scheduler, &mut queue);
    assert_eq!(queue.pop_front(), Some(3));
    assert_eq!(queue.pop_front(), None);

    wake_all(scheduler.tick());
    wake_all(scheduler.tick());
    poll_tasks(&mut executor, &mut scheduler, &mut queue);
    assert_eq!(queue.pop_front(), Some(4));
    assert_eq!(queue.pop_front(), None);

    wake_all(scheduler.tick());
    wake_all(scheduler.tick());
    poll_tasks(&mut executor, &mut scheduler, &mut queue);
    assert_eq!(queue.pop_front(), Some(5));
    assert_eq!(queue.pop_front(), None);

    for _ in 0..10 {
        wake_all(scheduler.tick());
        poll_tasks(&mut executor, &mut scheduler, &mut queue);
        assert_eq!(queue.pop_front(), None);
    }

    wake_all(scheduler.tick());
    poll_tasks(&mut executor, &mut scheduler, &mut queue);
    assert_eq!(queue.pop_front(), Some(6));
    assert_eq!(queue.pop_front(), None);
}

/// push 1; a 1000 ms delay under a 100 ms limit must time out; push 2;
/// a 1000 ms delay under a 1001 ms limit must finish; push 3.
struct TimeoutTask {
    pushed: u32,
    timeout: Option<TimeoutFuture<DelayFuture>>,
}

impl TimeoutTask {
    fn poll(&mut self, scheduler: &mut Scheduler<2>, waker: &Waker, queue: &mut VecDeque<u32>) {
        loop {
            if let Some(timeout) = self.timeout.as_mut() {
                let inner = timeout.future_mut().poll(scheduler, waker);
                match timeout.poll_with(inner, scheduler, waker) {
                    Poll::Pending => return,
                    Poll::Ready(result) => {
                        if self.pushed == 1 {
                            assert_eq!(result, Err(()));
                        } else {
                            assert_eq!(result, Ok(()));
                        }
                    },
                }
                self.timeout = None;
            }
            if self.pushed == 3 {
                return;
            }
            self.pushed += 1;
            queue.push_back(self.pushed);
            if self.pushed < 3 {
                let slow = DelayFuture::new(scheduler.delay_to_ticks(1000));
                let limit = if self.pushed == 1 { 100 } else { 1001 };
                self.timeout = Some(TimeoutFuture::new(slow, scheduler.delay_to_ticks(limit)));
            }
        }
    }
}

#[test]
fn timeout() {
    let mut scheduler = Scheduler::<2>::new(1000);
    let mut queue = VecDeque::new();
    let mut executor = Executor::new([TaskHandle::new(1)]);
    let (flag, waker) = flag_waker();
    let mut task = TimeoutTask { pushed: 0, timeout: None };
    executor.init();

    let mut poll_tasks = |executor: &mut Executor<1>,
                          scheduler: &mut Scheduler<2>,
                          queue: &mut VecDeque<u32>| {
        forward(&flag, executor);
        while let Some(_) = executor.next_task() {
            task.poll(scheduler, &waker, queue);
        }
    };

    poll_tasks(&mut executor, &mut scheduler, &mut queue);
    assert_eq!(queue.pop_front(), Some(1));
    assert_eq!(queue.pop_front(), None);

    for _ in 0..101 {
        scheduler.increment();
    }
    wake_all(scheduler.take_expired());
    poll_tasks(&mut executor, &mut scheduler, &mut queue);
    assert_eq!(queue.pop_front(), Some(2));
    assert_eq!(queue.pop_front(), None);

    for _ in 0..1000 {
        scheduler.increment();
        wake_all(scheduler.take_expired());
        poll_tasks(&mut executor, &mut scheduler, &mut queue);
        assert_eq!(queue.pop_front(), None);
    }

    scheduler.increment();
    wake_all(scheduler.take_expired());
    poll_tasks(&mut executor, &mut scheduler, &mut queue);
    assert_eq!(queue.pop_front(), Some(3));
    assert_eq!(queue.pop_front(), None);
}

/// for i in 0.. { push i; yield_now().await }
struct YieldingLoop {
    next: u32,
    yielding: Option<YieldFuture>,
}

impl YieldingLoop {
    fn new() -> Self {
        Self { next: 0, yielding: None }
    }

    fn poll(&mut self, waker: &Waker, queue: &mut VecDeque<u32>) -> Poll<()> {
        loop {
            if let Some(y) = self.yielding.as_mut() {
                if poll_yield(y, waker) == Poll::Pending {
                    return Poll::Pending;
                }
            }
            queue.push_back(self.next);
            self.next += 1;
            self.yielding = Some(yield_now());
        }
    }
}

#[test]
fn test_interrupt() {
    let mut queue = VecDeque::new();
    let (_flag, waker) = flag_waker();
    let mut interrupt = Interrupt::new(YieldingLoop::new);

    let mut handler = |queue: &mut VecDeque<u32>| {
        let _ = interrupt.future_mut().poll(&waker, queue);
    };

    handler(&mut queue);

    assert_eq!(queue.pop_front(), Some(0));
    assert_eq!(queue.pop_front(), None);

    handler(&mut queue);
    assert_eq!(queue.pop_front(), Some(1));
    assert_eq!(queue.pop_front(), None);

    handler(&mut queue);
    handler(&mut queue);
    handler(&mut queue);
    handler(&mut queue);
    assert_eq!(queue.pop_front(), Some(2));
    assert_eq!(queue.pop_front(), Some(3));
    assert_eq!(queue.pop_front(), Some(4));
    assert_eq!(queue.pop_front(), Some(5));
    assert_eq!(queue.pop_front(), None);
}

#[test]
fn task() {
    let mut queue = VecDeque::new();
    let mut task = Task::new(YieldingLoop::new, 1);
    let (_flag, waker) = flag_waker();

    assert_eq!(task.future_mut().poll(&waker, &mut queue), Poll::Pending);

    assert_eq!(queue.pop_front().unwrap(), 0);
    assert!(queue.pop_front().is_none());

    assert_eq!(task.future_mut().poll(&waker, &mut queue), Poll::Pending);

    assert_eq!(queue.pop_front().unwrap(), 1);
    assert!(queue.pop_front().is_none());
}

/// push 1; receiver.wait().await; push 2; receiver.wait().await; push 3.
struct WaitingTask {
    receiver: Receiver,
    pushed: u32,
    waiting: Option<NotificationFuture>,
}

impl WaitingTask {
    fn poll(&mut self, waker: &Waker, queue: &mut VecDeque<u32>) {
        loop {
            if let Some(wait) = self.waiting.as_ref() {
                if wait.poll(waker) == Poll::Pending {
                    return;
                }
                self.waiting = None;
            }
            if self.pushed == 3 {
                return;
            }
            self.pushed += 1;
            queue.push_back(self.pushed);
            if self.pushed < 3 {
                self.waiting = Some(self.receiver.wait());
            }
        }
    }
}

#[test]
fn notify() {
    let (sender, receiver) = notification();

    let mut executor = Executor::new([TaskHandle::new(1)]);
    let mut queue = VecDeque::new();
    let (flag, waker) = flag_waker();
    let mut task1 = WaitingTask { receiver, pushed: 0, waiting: None };
    executor.init();

    let mut poll_tasks = |executor: &mut Executor<1>, queue: &mut VecDeque<u32>| {
        forward(&flag, executor);
        while let Some(_) = executor.next_task() {
            task1.poll(&waker, queue);
        }
    };

    poll_tasks(&mut executor, &mut queue);

    assert_eq!(queue.pop_front(), Some(1));
    assert_eq!(queue.pop_front(), None);

    poll_tasks(&mut executor, &mut queue);

    assert_eq!(queue.pop_front(), None);

    send_notification(&sender);

    poll_tasks(&mut executor, &mut queue);

    assert_eq!(queue.pop_front(), Some(2));
    assert_eq!(queue.pop_front(), None);

    poll_tasks(&mut executor, &mut queue);

    assert_eq!(queue.pop_front(), None);

    send_notification(&sender);

    poll_tasks(&mut executor, &mut queue);

    assert_eq!(queue.pop_front(), Some(3));
    assert_eq!(queue.pop_front(), None);
}
