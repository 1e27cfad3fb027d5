use hyperloop::interrupt::{yield_now, Interrupt, YieldFuture};
use hyperloop::waker::Poll;
use std::sync::atomic::{AtomicBool, Ordering};
use std::sync::Arc;
use std::task::{Wake, Waker};

struct MockWaker {
    woke: AtomicBool,
}

impl MockWaker {
    fn new() -> Self {
        Self { woke: AtomicBool::new(false) }
    }
}

impl Wake for MockWaker {
    fn wake(self: Arc<Self>) {
        self.woke.store(true, Ordering::Relaxed);
    }
}

/// Polls a yield as a task would: wakes the task when the poll asks for it.
fn poll_yield(future: &mut YieldFuture, waker: &Waker) -> Poll<()> {
    let (r, wake) = future.poll();
    if wake {
        waker.wake_by_ref();
    }
    r
}

#[test]
fn test_yield_now() {
    let mut future = yield_now();
    let mockwaker = Arc::new(MockWaker::new());
    let waker: Waker = mockwaker.into();

    assert_eq!(poll_yield(&mut future, &waker), Poll::Pending);
    assert_eq!(poll_yield(&mut future, &waker), Poll::Ready(()));
    assert_eq!(poll_yield(&mut future, &waker), Poll::Ready(()));
}

#[test]
fn yield_wakes_its_task_once() {
    let mut future = yield_now();
    let mockwaker = Arc::new(MockWaker::new());
    let waker: Waker = mockwaker.clone().into();

    assert_eq!(poll_yield(&mut future, &waker), Poll::Pending);
    assert!(mockwaker.woke.load(Ordering::Relaxed));
    mockwaker.woke.store(false, Ordering::Relaxed);
    assert_eq!(poll_yield(&mut future, &waker), Poll::Ready(()));
    assert!(!mockwaker.woke.load(Ordering::Relaxed));
}

#[test]
fn interrupt_makes_its_future() {
    let mut interrupt = Interrupt::new(|| 41u32 + 1);
    assert_eq!(*interrupt.future_mut(), 42);
}

#[test]
fn yield_asks_for_a_wake_on_its_first_poll_only() {
    let mut future = yield_now();
    assert_eq!(future.poll(), (Poll::Pending, true));
    assert_eq!(future.poll(), (Poll::Ready(()), false));
    assert_eq!(future.poll(), (Poll::Ready(()), false));
}
