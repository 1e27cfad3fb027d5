//! Timers: a tick counter and the wakers that wait for it.
//!
//! The scheduler counts ticks of a clock of `rate` hertz and keeps the
//! wakers of delayed tasks in a queue ordered by the tick at which they
//! expire. A delay waits until the counter has passed its expiry, so it
//! never ends early and may end up to one tick late. The scheduler hands
//! the expired tickets out, earliest first; waking their tasks is left to
//! the caller.
use vstd::prelude::*;
use vstd::multiset::Multiset;
use core::task::Waker;
use embedded_time::duration::Milliseconds;
use embedded_time::fixed_point::FixedPoint;
use embedded_time::rate::{Hertz, Rate};
use crate::priority_queue::{is_first, Keyed, Kind, Min, PriorityQueue};
use crate::waker::{clone_waker, Poll};

pub mod list;

verus! {

broadcast use vstd::multiset::group_multiset_axioms, vstd::seq_lib::group_to_multiset_ensures;

pub type Tick = u64;

/// The length in milliseconds of one period of a clock of `hz` hertz, as
/// `embedded_time` converts a rate into a duration: `None` for 0 Hz.
pub open spec fn period_of(hz: u32) -> Option<u32> {
    if hz == 0 {
        None
    } else {
        Some((1000u32 / hz) as u32)
    }
}

/// Calls `Rate::to_duration::<Milliseconds<u32>>` on `Hertz(hz)` and takes
/// the integer of the result. Its source computes `1000 / hz` and fails
/// with `DivByZero` for 0 Hz only; the contract states that.
#[verifier::external_body]
fn period_ms(hz: u32) -> (r: Option<u32>)
    ensures
        r == period_of(hz),
{
    match Hertz(hz).to_duration::<Milliseconds<u32>>() {
        Ok(period) => Some(period.integer()),
        Err(_) => None,
    }
}

/// The tick at which a delay of `duration_ms` milliseconds, started at tick
/// `count` of a clock of `rate_hz` hertz, expires.
pub open spec fn expiry(rate_hz: u32, count: Tick, duration_ms: u32) -> int {
    count + (duration_ms as int) / (1000int / rate_hz as int)
}

/// Converts a delay into the tick at which it expires. A delay is either
/// zero or at least one clock period long.
pub fn delay_to_ticks(rate_hz: u32, count: Tick, duration_ms: u32) -> (r: Tick)
    requires
        0 < rate_hz <= 1000,
        duration_ms == 0 || duration_ms >= 1000int / rate_hz as int,
        expiry(rate_hz, count, duration_ms) <= u64::MAX,
    ensures
        r == expiry(rate_hz, count, duration_ms),
{
    let rate = period_ms(rate_hz).unwrap();
    proof {
        assert(1000u32 / rate_hz >= 1) by (nonlinear_arith)
            requires
                0 < rate_hz <= 1000,
        ;
    }
    let ticks: Tick = (duration_ms / rate) as Tick;
    count + ticks
}

/// A delay never ends early and ends at most one clock period late: at any
/// tick count past its expiry more than `duration_ms` milliseconds have
/// passed since it started, and at the first such count no more than
/// `duration_ms` plus one period have.
pub proof fn law_delay_bounds(rate_hz: u32, start: Tick, duration_ms: u32, now: Tick)
    requires
        0 < rate_hz <= 1000,
        now > expiry(rate_hz, start, duration_ms),
    ensures
        (now - start) * (1000int / rate_hz as int) > duration_ms,
        now == expiry(rate_hz, start, duration_ms) + 1 ==> (now - start) * (1000int
            / rate_hz as int) <= duration_ms + 1000int / rate_hz as int,
{
    let p = 1000int / rate_hz as int;
    assert(p >= 1) by (nonlinear_arith)
        requires
            0 < rate_hz <= 1000,
            p == 1000int / rate_hz as int,
    ;
    let d = duration_ms as int;
    let q = d / p;
    let e = (now - start) as int;
    assert(e >= q + 1);
    assert(q * p <= d && d < q * p + p) by (nonlinear_arith)
        requires
            p >= 1,
            q == d / p,
            d >= 0,
    ;
    assert(e * p >= (q + 1) * p) by (nonlinear_arith)
        requires
            e >= q + 1,
            p >= 1,
    ;
    assert((q + 1) * p == q * p + p) by (nonlinear_arith);
    assert(e * p > d);
    if e == q + 1 {
        assert(e * p == q * p + p) by (nonlinear_arith)
            requires
                e == q + 1,
        ;
    }
}

/// A waker that waits for the tick counter to pass `expires`.
pub struct Ticket {
    pub expires: Tick,
    pub waker: Waker,
}

impl Ticket {
    pub fn new(expires: Tick, waker: Waker) -> (t: Self)
        ensures
            t.expires == expires,
            t.waker == waker,
    {
        Ticket { expires, waker }
    }
}

/// Tickets are equal when they expire at the same tick.
impl PartialEq for Ticket {
    fn eq(&self, other: &Self) -> (r: bool) {
        self.expires == other.expires
    }
}

impl vstd::std_specs::cmp::PartialEqSpecImpl for Ticket {
    open spec fn obeys_eq_spec() -> bool {
        true
    }

    open spec fn eq_spec(&self, other: &Ticket) -> bool {
        self.expires == other.expires
    }
}

impl Keyed for Ticket {
    open spec fn order_key(&self) -> u64 {
        self.expires
    }

    fn key(&self) -> (k: u64) {
        self.expires
    }
}

/// Tickets are handed out by expiry: a ticket that is first among
/// `tickets` expires no later than any ticket there.
pub proof fn law_first_ticket_expires_earliest(tickets: Multiset<Ticket>, t: Ticket)
    ensures
        is_first(Min::spec_kind(), tickets, t) ==> forall|y: Ticket|
            #[trigger] tickets.contains(y) ==> t.expires <= y.expires,
{
    assert forall|y: Ticket| is_first(Min::spec_kind(), tickets, t) && #[trigger] tickets.contains(y) implies t.expires <= y.expires by {
        assert(!crate::priority_queue::ranks_before(Min::spec_kind(), y.order_key(), t.order_key()));
    }
}

/// The tick counter and the tickets that wait for it.
pub struct Scheduler<const N: usize> {
    rate: u32,
    counter: Tick,
    /// The tickets, first the one that expires first.
    queue: PriorityQueue<Ticket, Min, N>,
}

impl<const N: usize> Scheduler<N> {
    pub closed spec fn wf(&self) -> bool {
        self.queue.wf()
    }

    /// The rate of the clock, in hertz.
    pub closed spec fn rate(&self) -> u32 {
        self.rate
    }

    /// The ticks counted so far.
    pub closed spec fn counter(&self) -> Tick {
        self.counter
    }

    /// The tickets that wait.
    pub closed spec fn tickets(&self) -> Multiset<Ticket> {
        self.queue@
    }

    pub fn new(rate: u32) -> (s: Self)
        requires
            N <= isize::MAX,
        ensures
            s.wf(),
            s.rate() == rate,
            s.counter() == 0,
            s.tickets() == Multiset::<Ticket>::empty(),
    {
        Scheduler { rate, counter: 0, queue: PriorityQueue::new() }
    }

    pub fn get_rate(&self) -> (r: u32)
        ensures
            r == self.rate(),
    {
        self.rate
    }

    pub fn get_count(&self) -> (r: Tick)
        ensures
            r == self.counter(),
    {
        self.counter
    }

    /// Counts one tick.
    pub fn increment(&mut self)
        requires
            old(self).counter() < u64::MAX,
        ensures
            final(self).counter() == old(self).counter() + 1,
            final(self).rate() == old(self).rate(),
            final(self).tickets() == old(self).tickets(),
            final(self).wf() == old(self).wf(),
    {
        self.counter = self.counter + 1;
    }

    /// Queues a ticket; a full queue hands it back.
    pub fn send(&mut self, ticket: Ticket) -> (r: Result<(), Ticket>)
        requires
            old(self).wf(),
        ensures
            final(self).wf(),
            final(self).counter() == old(self).counter(),
            final(self).rate() == old(self).rate(),
            r is Ok <==> old(self).tickets().len() < N,
            r is Ok ==> final(self).tickets() == old(self).tickets().insert(ticket),
            r is Err ==> r == Err::<(), Ticket>(ticket) && final(self).tickets() == old(
                self,
            ).tickets(),
    {
        self.queue.push(ticket)
    }

    /// Takes out the ticket that expires first, expired or not.
    pub fn pop_ticket(&mut self) -> (r: Option<Ticket>)
        requires
            old(self).wf(),
        ensures
            final(self).wf(),
            final(self).counter() == old(self).counter(),
            final(self).rate() == old(self).rate(),
            r is None <==> old(self).tickets().len() == 0,
            r is None ==> final(self).tickets() == old(self).tickets(),
            r matches Some(t) ==> {
                &&& old(self).tickets().contains(t)
                &&& is_first(Min::spec_kind(), old(self).tickets(), t)
                &&& final(self).tickets() == old(self).tickets().remove(t)
            },
    {
        if self.queue.len() == 0 {
            return None;
        }
        self.queue.pop()
    }

    /// Takes out the first ticket if it has expired.
    fn next_expired(&mut self) -> (r: Option<Ticket>)
        requires
            old(self).wf(),
        ensures
            final(self).wf(),
            final(self).counter() == old(self).counter(),
            final(self).rate() == old(self).rate(),
            r is None <==> forall|t: Ticket|
                #[trigger] old(self).tickets().contains(t) ==> old(self).counter() <= t.expires,
            r is None ==> final(self).tickets() == old(self).tickets(),
            r matches Some(t) ==> {
                &&& old(self).tickets().contains(t)
                &&& t.expires < old(self).counter()
                &&& is_first(Min::spec_kind(), old(self).tickets(), t)
                &&& final(self).tickets() == old(self).tickets().remove(t)
            },
    {
        let counter = self.counter;
        self.queue.sort();
        if self.queue.len() > 0 {
            let first = self.queue.peek_first();
            let expires = first.expires;
            let ghost q0 = self.queue@;
            let ghost f = *first;
            if counter > expires {
                let ticket = self.queue.pop().unwrap();
                proof {
                    assert(!crate::priority_queue::ranks_before(
                        Min::spec_kind(),
                        f.order_key(),
                        ticket.order_key(),
                    ));
                    assert(q0.contains(ticket) && ticket.expires < counter);
                    assert(old(self).tickets() == q0);
                    assert(old(self).tickets().contains(ticket));
                }
                return Some(ticket);
            } else {
                proof {
                    let q = self.queue@;
                    assert forall|t: Ticket| #[trigger] q.contains(t) implies counter <= t.expires by {
                        assert(!crate::priority_queue::ranks_before(
                            Min::spec_kind(),
                            t.order_key(),
                            expires,
                        ));
                    }
                }
            }
        }
        None
    }

    /// Takes the waker of the first ticket if it has expired.
    pub fn next_waker(&mut self) -> (r: Option<Waker>)
        requires
            old(self).wf(),
        ensures
            final(self).wf(),
            final(self).counter() == old(self).counter(),
            final(self).rate() == old(self).rate(),
            r is None <==> forall|t: Ticket|
                #[trigger] old(self).tickets().contains(t) ==> old(self).counter() <= t.expires,
            r is None ==> final(self).tickets() == old(self).tickets(),
            r matches Some(w) ==> exists|t: Ticket|
                {
                    &&& #[trigger] old(self).tickets().contains(t)
                    &&& t.expires < old(self).counter()
                    &&& t.waker == w
                    &&& is_first(Min::spec_kind(), old(self).tickets(), t)
                    &&& final(self).tickets() == old(self).tickets().remove(t)
                },
    {
        match self.next_expired() {
            Some(ticket) => Some(ticket.waker),
            None => None,
        }
    }

    /// Takes out every expired ticket, first the one that expires first.
    /// The tasks of their wakers are due to be woken.
    pub fn take_expired(&mut self) -> (r: Vec<Ticket>)
        requires
            old(self).wf(),
        ensures
            final(self).wf(),
            final(self).counter() == old(self).counter(),
            final(self).rate() == old(self).rate(),
            forall|t: Ticket|
                #[trigger] final(self).tickets().count(t) == if t.expires < old(self).counter() {
                    0
                } else {
                    old(self).tickets().count(t)
                },
            expired_in_order(old(self).tickets(), old(self).counter(), r@),
    {
        let mut r: Vec<Ticket> = Vec::new();
        let mut more = true;
        while more
            invariant
                self.wf(),
                self.counter() == old(self).counter(),
                self.rate() == old(self).rate(),
                forall|t: Ticket|
                    #[trigger] self.tickets().count(t) + r@.to_multiset().count(t) == old(
                        self,
                    ).tickets().count(t),
                forall|i: int| 0 <= i < r@.len() ==> (#[trigger] r@[i]).expires < self.counter(),
                forall|i: int, j: int|
                    0 <= i <= j < r@.len() ==> (#[trigger] r@[i]).expires <= (#[trigger] r@[j]).expires,
                forall|i: int, t: Ticket|
                    0 <= i < r@.len() && #[trigger] self.tickets().contains(t) ==> (#[trigger] r@[i]).expires
                        <= t.expires,
                !more ==> forall|t: Ticket|
                    #[trigger] self.tickets().contains(t) ==> self.counter() <= t.expires,
            decreases self.tickets().len() + (if more { 1int } else { 0int }),
        {
            let ghost before = self.tickets();
            let ghost r0 = r@;
            match self.next_expired() {
                Some(ticket) => {
                    r.push(ticket);
                    proof {
                        assert(r@ == r0.push(ticket));
                        assert(r@.to_multiset() =~= r0.to_multiset().insert(ticket));
                        assert forall|y: Ticket| before.contains(y) implies ticket.expires <= y.expires by {
                            assert(!crate::priority_queue::ranks_before(
                                Min::spec_kind(),
                                y.order_key(),
                                ticket.order_key(),
                            ));
                        }
                        assert forall|t: Ticket| #[trigger] self.tickets().contains(t) implies before.contains(t) by {
                            assert(self.tickets().count(t) <= before.count(t));
                        }
                        assert forall|i: int, j: int|
                            0 <= i <= j < r@.len() implies (#[trigger] r@[i]).expires <= (#[trigger] r@[j]).expires by {
                            if j == r@.len() - 1 && i < j {
                                assert(r@[i] == r0[i]);
                                assert(before.contains(ticket));
                            }
                        }
                        assert forall|i: int, t: Ticket|
                            0 <= i < r@.len() && #[trigger] self.tickets().contains(t) implies (#[trigger] r@[i]).expires
                                <= t.expires by {
                            assert(before.contains(t));
                            if i < r@.len() - 1 {
                                assert(r@[i] == r0[i]);
                            }
                        }
                    }
                },
                None => {
                    more = false;
                },
            }
        }
        proof {
            assert forall|t: Ticket| #[trigger] r@.to_multiset().count(t) == if t.expires < old(self).counter() {
                old(self).tickets().count(t)
            } else {
                0
            } by {
                if t.expires < old(self).counter() {
                    if self.tickets().count(t) > 0 {
                        assert(self.tickets().contains(t));
                    }
                } else if r@.to_multiset().count(t) > 0 {
                    assert(r@.contains(t));
                    let i = choose|i: int| 0 <= i < r@.len() && r@[i] == t;
                    assert(r@[i].expires < self.counter());
                }
            }
        }
        r
    }

    /// Counts one tick and takes out the tickets whose delays have passed,
    /// first the one that expires first; their tasks are due to be woken.
    pub fn tick(&mut self) -> (r: Vec<Ticket>)
        requires
            old(self).wf(),
            old(self).counter() < u64::MAX,
        ensures
            final(self).wf(),
            final(self).counter() == old(self).counter() + 1,
            final(self).rate() == old(self).rate(),
            forall|t: Ticket|
                #[trigger] final(self).tickets().count(t) == if t.expires < final(self).counter() {
                    0
                } else {
                    old(self).tickets().count(t)
                },
            expired_in_order(old(self).tickets(), final(self).counter(), r@),
    {
        self.increment();
        self.take_expired()
    }

    /// The tick at which a delay of `duration_ms` milliseconds that starts
    /// now expires.
    pub fn delay_to_ticks(&self, duration_ms: u32) -> (r: Tick)
        requires
            0 < self.rate() <= 1000,
            duration_ms == 0 || duration_ms >= 1000int / self.rate() as int,
            expiry(self.rate(), self.counter(), duration_ms) <= u64::MAX,
        ensures
            r == expiry(self.rate(), self.counter(), duration_ms),
    {
        delay_to_ticks(self.rate, self.counter, duration_ms)
    }
}

/// `taken` holds the tickets of `tickets` that have expired by `counter`,
/// as often as `tickets` holds them and no other, in order of expiry.
pub open spec fn expired_in_order(tickets: Multiset<Ticket>, counter: Tick, taken: Seq<Ticket>) -> bool {
    &&& forall|t: Ticket|
        #[trigger] taken.to_multiset().count(t) == if t.expires < counter {
            tickets.count(t)
        } else {
            0
        }
    &&& forall|i: int, j: int|
        0 <= i <= j < taken.len() ==> (#[trigger] taken[i]).expires <= (#[trigger] taken[j]).expires
}

/// `new` is `old` with one more ticket, which expires at `expires`.
pub open spec fn ticket_added(old: Multiset<Ticket>, new: Multiset<Ticket>, expires: Tick) -> bool {
    exists|t: Ticket| #[trigger] new.contains(t) && t.expires == expires && new == old.insert(t)
}

/// `new` is `old` with one more ticket, which expires at `expires` and
/// wakes the task of `waker`.
pub open spec fn ticket_added_for(
    old: Multiset<Ticket>,
    new: Multiset<Ticket>,
    expires: Tick,
    waker: Waker,
) -> bool {
    new == old.insert(Ticket { expires, waker })
}

/// A delay that ends once the tick counter has passed `expires`.
pub struct DelayFuture {
    pub expires: Tick,
    /// Whether the ticket has been sent.
    pub started: bool,
}

impl DelayFuture {
    pub closed spec fn expires(&self) -> Tick {
        self.expires
    }

    pub closed spec fn started(&self) -> bool {
        self.started
    }

    pub fn new(expires: Tick) -> (d: Self)
        ensures
            d.expires() == expires,
            !d.started(),
    {
        DelayFuture { expires, started: false }
    }

    /// On the first poll, queues a ticket for the task of `waker` (a full
    /// queue drops it) and waits; after that, ends once the counter has
    /// passed the expiry.
    pub fn poll<const N: usize>(&mut self, scheduler: &mut Scheduler<N>, waker: &Waker) -> (r: Poll<()>)
        requires
            old(scheduler).wf(),
        ensures
            final(scheduler).wf(),
            final(scheduler).counter() == old(scheduler).counter(),
            final(scheduler).rate() == old(scheduler).rate(),
            final(self).expires() == old(self).expires(),
            final(self).started(),
            !old(self).started() ==> {
                &&& r == Poll::<()>::Pending
                &&& old(scheduler).tickets().len() < N ==> ticket_added(
                    old(scheduler).tickets(),
                    final(scheduler).tickets(),
                    old(self).expires(),
                )
                &&& old(scheduler).tickets().len() < N ==> ticket_added_for(
                    old(scheduler).tickets(),
                    final(scheduler).tickets(),
                    old(self).expires(),
                    *waker,
                )
                &&& old(scheduler).tickets().len() >= N ==> final(scheduler).tickets() == old(
                    scheduler,
                ).tickets()
            },
            old(self).started() ==> {
                &&& r == if old(scheduler).counter() > old(self).expires() {
                    Poll::Ready(())
                } else {
                    Poll::<()>::Pending
                }
                &&& final(scheduler).tickets() == old(scheduler).tickets()
            },
    {
        if !self.started {
            let ticket = Ticket::new(self.expires, clone_waker(waker));
            let ghost t = ticket;
            let sent = scheduler.send(ticket);
            proof {
                if sent is Ok {
                    assert(scheduler.tickets().contains(t));
                }
            }
            self.started = true;
            Poll::Pending
        } else {
            if scheduler.get_count() > self.expires {
                Poll::Ready(())
            } else {
                Poll::Pending
            }
        }
    }
}

/// Runs a future with a time limit.
pub struct TimeoutFuture<F> {
    future: F,
    delay: DelayFuture,
}

impl<F> TimeoutFuture<F> {
    pub closed spec fn delay(&self) -> DelayFuture {
        self.delay
    }

    pub closed spec fn future(&self) -> F {
        self.future
    }

    pub fn new(future: F, expires: Tick) -> (t: Self)
        ensures
            t.future() == future,
            t.delay().expires() == expires,
            !t.delay().started(),
    {
        TimeoutFuture { future, delay: DelayFuture::new(expires) }
    }

    /// The future that runs under the time limit.
    pub fn future_mut(&mut self) -> (f: &mut F)
        ensures
            *f == old(self).future(),
            final(self).future() == *final(f),
            final(self).delay() == old(self).delay(),
    {
        &mut self.future
    }

    /// Decides the outcome of one poll, given what polling the inner future
    /// gave: the inner result wins; otherwise the delay is polled and, once
    /// it has passed, the timeout is reported.
    pub fn poll_with<T, const N: usize>(
        &mut self,
        inner: Poll<T>,
        scheduler: &mut Scheduler<N>,
        waker: &Waker,
    ) -> (r: Poll<Result<T, ()>>)
        requires
            old(scheduler).wf(),
        ensures
            final(scheduler).wf(),
            final(scheduler).counter() == old(scheduler).counter(),
            final(self).future() == old(self).future(),
            inner matches Poll::Ready(v) ==> r == Poll::Ready(Ok::<T, ()>(v)) && *final(scheduler)
                == *old(scheduler) && *final(self) == *old(self),
            inner is Pending ==> {
                &&& final(self).delay().expires() == old(self).delay().expires()
                &&& final(self).delay().started()
                &&& (r is Ready <==> old(self).delay().started() && old(scheduler).counter() > old(
                    self,
                ).delay().expires())
                &&& r is Ready ==> r == Poll::Ready(Err::<T, ()>(()))
                &&& !old(self).delay().started() && old(scheduler).tickets().len() < N
                    ==> ticket_added(
                    old(scheduler).tickets(),
                    final(scheduler).tickets(),
                    old(self).delay().expires(),
                )
                &&& !old(self).delay().started() && old(scheduler).tickets().len() < N
                    ==> ticket_added_for(
                    old(scheduler).tickets(),
                    final(scheduler).tickets(),
                    old(self).delay().expires(),
                    *waker,
                )
                &&& (old(self).delay().started() || old(scheduler).tickets().len() >= N)
                    ==> final(scheduler).tickets() == old(scheduler).tickets()
                &&& final(scheduler).rate() == old(scheduler).rate()
            },
    {
        match inner {
            Poll::Ready(v) => Poll::Ready(Ok(v)),
            Poll::Pending => {
                let polled = self.delay.poll(scheduler, waker);
                match polled {
                    Poll::Ready(()) => Poll::Ready(Err(())),
                    Poll::Pending => Poll::Pending,
                }
            },
        }
    }
}

} // verus!
