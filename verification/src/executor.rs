//! The task scheduler: it decides which task runs next.
//!
//! Each task has a priority and a "pending wake" flag. Waking a task whose
//! flag is clear sets the flag and queues a ticket for it; the scheduler
//! hands out the queued tasks highest priority first and clears the flag of
//! the task it hands out. Running the task itself is left to the caller.
use vstd::prelude::*;
use vstd::multiset::Multiset;
use crate::priority_queue::{is_first, Keyed, Kind, Max, PriorityQueue};
use crate::task::{Priority, TaskHandle};

verus! {

broadcast use vstd::multiset::group_multiset_axioms;

pub type TaskId = u16;

/// A request to run a task, ordered by the task's priority.
#[derive(Clone, Copy, Debug)]
pub struct Ticket {
    pub task: TaskId,
    pub priority: Priority,
}

impl Ticket {
    pub fn new(task: TaskId, priority: Priority) -> (t: Self)
        ensures
            t.task == task,
            t.priority == priority,
    {
        Ticket { task, priority }
    }
}

/// Tickets are equal when their priorities are.
impl PartialEq for Ticket {
    fn eq(&self, other: &Self) -> (r: bool) {
        self.priority == other.priority
    }
}

impl vstd::std_specs::cmp::PartialEqSpecImpl for Ticket {
    open spec fn obeys_eq_spec() -> bool {
        true
    }

    open spec fn eq_spec(&self, other: &Ticket) -> bool {
        self.priority == other.priority
    }
}

impl Keyed for Ticket {
    open spec fn order_key(&self) -> u64 {
        self.priority as u64
    }

    fn key(&self) -> (k: u64) {
        self.priority as u64
    }
}

struct ExecutorTask {
    task_id: TaskId,
    priority: Priority,
    pending_wake: bool,
}

impl ExecutorTask {
    fn new(task_id: TaskId, priority: Priority) -> (t: Self)
        ensures
            t.task_id == task_id,
            t.priority == priority,
            !t.pending_wake,
    {
        ExecutorTask { task_id, priority, pending_wake: false }
    }
}

spec fn ticket_of(t: ExecutorTask) -> Ticket {
    Ticket { task: t.task_id, priority: t.priority }
}

/// The tickets of the pending tasks among the first `n`.
spec fn tickets_of(tasks: Seq<ExecutorTask>, n: int) -> Multiset<Ticket>
    decreases n,
{
    if n <= 0 {
        Multiset::empty()
    } else if tasks[n - 1].pending_wake {
        tickets_of(tasks, n - 1).insert(ticket_of(tasks[n - 1]))
    } else {
        tickets_of(tasks, n - 1)
    }
}

spec fn ids_ok(tasks: Seq<ExecutorTask>) -> bool {
    forall|i: int| 0 <= i < tasks.len() ==> (#[trigger] tasks[i]).task_id == i
}

proof fn lemma_tickets_prefix(a: Seq<ExecutorTask>, b: Seq<ExecutorTask>, n: int)
    requires
        0 <= n <= a.len(),
        n <= b.len(),
        forall|i: int| 0 <= i < n ==> a[i] == b[i],
    ensures
        tickets_of(a, n) == tickets_of(b, n),
    decreases n,
{
    if n > 0 {
        lemma_tickets_prefix(a, b, n - 1);
    }
}

/// Changing the flag of task `j` adds or removes exactly its ticket.
proof fn lemma_tickets_update(tasks: Seq<ExecutorTask>, j: int, t: ExecutorTask, n: int)
    requires
        0 <= j < n <= tasks.len(),
        t.task_id == tasks[j].task_id,
        t.priority == tasks[j].priority,
    ensures
        !tasks[j].pending_wake && t.pending_wake ==> tickets_of(tasks.update(j, t), n)
            == tickets_of(tasks, n).insert(ticket_of(t)),
        tasks[j].pending_wake && !t.pending_wake ==> tickets_of(tasks.update(j, t), n)
            == tickets_of(tasks, n).remove(ticket_of(t)),
        tasks[j].pending_wake == t.pending_wake ==> tickets_of(tasks.update(j, t), n)
            == tickets_of(tasks, n),
    decreases n,
{
    let u = tasks.update(j, t);
    if n - 1 == j {
        lemma_tickets_prefix(tasks, u, n - 1);
        if tasks[j].pending_wake && !t.pending_wake {
            assert(tickets_of(tasks, n).remove(ticket_of(t)) =~= tickets_of(tasks, n - 1));
        }
    } else {
        lemma_tickets_update(tasks, j, t, n - 1);
        assert(u[n - 1] == tasks[n - 1]);
        if tasks[j].pending_wake && !t.pending_wake {
            assert(tickets_of(tasks, n - 1).contains(ticket_of(t))) by {
                lemma_ticket_in(tasks, j, n - 1);
            }
            if tasks[n - 1].pending_wake {
                assert(tickets_of(tasks, n - 1).remove(ticket_of(t)).insert(ticket_of(tasks[n - 1]))
                    =~= tickets_of(tasks, n - 1).insert(ticket_of(tasks[n - 1])).remove(
                    ticket_of(t),
                ));
            }
        }
        if !tasks[j].pending_wake && t.pending_wake {
            if tasks[n - 1].pending_wake {
                assert(tickets_of(tasks, n - 1).insert(ticket_of(t)).insert(ticket_of(tasks[n - 1]))
                    =~= tickets_of(tasks, n - 1).insert(ticket_of(tasks[n - 1])).insert(
                    ticket_of(t),
                ));
            }
        }
    }
}

/// The ticket of a pending task is queued.
proof fn lemma_ticket_in(tasks: Seq<ExecutorTask>, j: int, n: int)
    requires
        0 <= j < n <= tasks.len(),
        tasks[j].pending_wake,
    ensures
        tickets_of(tasks, n).contains(ticket_of(tasks[j])),
    decreases n,
{
    if n - 1 != j {
        lemma_ticket_in(tasks, j, n - 1);
    }
}

/// Every queued ticket is that of a pending task.
proof fn lemma_ticket_from(tasks: Seq<ExecutorTask>, x: Ticket, n: int)
    requires
        0 <= n <= tasks.len(),
        ids_ok(tasks),
        tickets_of(tasks, n).contains(x),
    ensures
        0 <= x.task < n,
        tasks[x.task as int].pending_wake,
        ticket_of(tasks[x.task as int]) == x,
    decreases n,
{
    if n > 0 {
        if tasks[n - 1].pending_wake && x == ticket_of(tasks[n - 1]) {
        } else {
            lemma_ticket_from(tasks, x, n - 1);
        }
    }
}

/// A task that is not pending leaves room in a queue of one slot per task.
proof fn lemma_tickets_len(tasks: Seq<ExecutorTask>, j: int, n: int)
    requires
        0 <= n <= tasks.len(),
    ensures
        tickets_of(tasks, n).len() <= n,
        0 <= j < n && !tasks[j].pending_wake ==> tickets_of(tasks, n).len() < n,
    decreases n,
{
    if n > 0 {
        lemma_tickets_len(tasks, j, n - 1);
    }
}

/// Tickets are handed out by priority: a ticket that is first among
/// `tickets` has a priority at least that of every ticket there.
pub proof fn law_first_ticket_has_highest_priority(tickets: Multiset<Ticket>, t: Ticket)
    ensures
        is_first(Max::spec_kind(), tickets, t) ==> forall|y: Ticket|
            #[trigger] tickets.contains(y) ==> y.priority <= t.priority,
{
    assert forall|y: Ticket| is_first(Max::spec_kind(), tickets, t) && #[trigger] tickets.contains(y) implies y.priority <= t.priority by {
        assert(!crate::priority_queue::ranks_before(Max::spec_kind(), y.order_key(), t.order_key()));
    }
}

/// Waking a task that is already pending changes nothing: a task woken
/// several times before it runs is queued, and handed out, once.
pub proof fn law_wake_idempotent(pending: Seq<bool>, task: int)
    requires
        0 <= task < pending.len(),
    ensures
        pending.update(task, true).update(task, true) == pending.update(task, true),
        pending[task] ==> pending.update(task, true) == pending,
{
    assert(pending.update(task, true).update(task, true) =~= pending.update(task, true));
    if pending[task] {
        assert(pending.update(task, true) =~= pending);
    }
}

/// The scheduling state of `N` tasks.
pub struct Executor<const N: usize> {
    tasks: Vec<ExecutorTask>,
    queue: PriorityQueue<Ticket, Max, N>,
}

impl<const N: usize> Executor<N> {
    pub closed spec fn wf(&self) -> bool {
        &&& self.tasks@.len() == N
        &&& N <= u16::MAX
        &&& ids_ok(self.tasks@)
        &&& self.queue.wf()
        &&& self.queue@ == tickets_of(self.tasks@, N as int)
    }

    /// The priority of each task.
    pub closed spec fn priorities(&self) -> Seq<Priority> {
        self.tasks@.map_values(|t: ExecutorTask| t.priority)
    }

    /// Which tasks have been woken and not yet handed out.
    pub closed spec fn pending(&self) -> Seq<bool> {
        self.tasks@.map_values(|t: ExecutorTask| t.pending_wake)
    }

    /// A well-formed executor has one priority and one pending flag per task.
    pub proof fn lemma_lengths(&self)
        requires
            self.wf(),
        ensures
            self.pending().len() == N,
            self.priorities().len() == N,
    {
    }

    /// On any well-formed executor, waking a task twice leaves the same
    /// pending flags as waking it once, and waking a pending task changes
    /// nothing.
    pub proof fn law_wake_twice_is_once(&self, task: int)
        requires
            self.wf(),
            0 <= task < N,
        ensures
            self.pending().update(task, true).update(task, true) == self.pending().update(
                task,
                true,
            ),
            self.pending()[task] ==> self.pending().update(task, true) == self.pending(),
    {
        law_wake_idempotent(self.pending(), task);
    }

    /// Sets up the scheduling state of the given tasks; none is pending.
    pub fn new(tasks: [TaskHandle; N]) -> (e: Self)
        requires
            N <= u16::MAX,
        ensures
            e.wf(),
            e.pending().len() == N,
            e.priorities().len() == N,
            e.priorities() == tasks@.map_values(|t: TaskHandle| t.priority),
            e.pending() == Seq::new(N as nat, |i: int| false),
    {
        let mut v: Vec<ExecutorTask> = Vec::new();
        let mut i: usize = 0;
        while i < N
            invariant
                i <= N,
                N <= u16::MAX,
                v@.len() == i,
                ids_ok(v@),
                forall|j: int| 0 <= j < i ==> (#[trigger] v@[j]).priority == tasks@[j].priority,
                forall|j: int| 0 <= j < i ==> !(#[trigger] v@[j]).pending_wake,
            decreases N - i,
        {
            let priority = tasks[i].priority;
            v.push(ExecutorTask::new(i as TaskId, priority));
            i = i + 1;
        }
        let e = Executor { tasks: v, queue: PriorityQueue::new() };
        proof {
            lemma_no_tickets(e.tasks@, N as int);
            assert(e.priorities() =~= tasks@.map_values(|t: TaskHandle| t.priority));
            assert(e.pending() =~= Seq::new(N as nat, |i: int| false));
        }
        e
    }

    /// Wakes task `task_id`: queues it unless it is already pending.
    pub fn wake(&mut self, task_id: TaskId)
        requires
            old(self).wf(),
            task_id < N,
        ensures
            final(self).wf(),
            final(self).pending().len() == N,
            final(self).priorities().len() == N,
            final(self).priorities() == old(self).priorities(),
            final(self).pending() == old(self).pending().update(task_id as int, true),
    {
        let i = task_id as usize;
        if !self.tasks[i].pending_wake {
            let ghost old_tasks = self.tasks@;
            let t = ExecutorTask { task_id: self.tasks[i].task_id, priority: self.tasks[i].priority, pending_wake: true };
            let ticket = Ticket::new(t.task_id, t.priority);
            proof {
                lemma_tickets_len(old_tasks, i as int, N as int);
                lemma_tickets_update(old_tasks, i as int, t, N as int);
            }
            self.tasks.set(i, t);
            let r = self.queue.push(ticket);
            proof {
                assert(r is Ok);
                assert(ids_ok(self.tasks@)) by {
                    assert forall|k: int| 0 <= k < self.tasks@.len() implies (#[trigger] self.tasks@[k]).task_id == k by {
                        assert(old_tasks[k].task_id == k);
                    }
                }
            }
        }
        proof {
            assert(self.priorities() =~= old(self).priorities());
            assert(self.pending() =~= old(self).pending().update(task_id as int, true));
        }
    }

    /// Clears the pending flag of task `task_id` whose ticket has just been
    /// taken out of the queue.
    fn clear_pending_wake_flag(&mut self, task_id: TaskId)
        requires
            old(self).tasks@.len() == N,
            N <= u16::MAX,
            ids_ok(old(self).tasks@),
            old(self).queue.wf(),
            task_id < N,
            old(self).tasks@[task_id as int].pending_wake,
            old(self).queue@ == tickets_of(old(self).tasks@, N as int).remove(
                ticket_of(old(self).tasks@[task_id as int]),
            ),
        ensures
            final(self).wf(),
            final(self).pending().len() == N,
            final(self).priorities().len() == N,
            final(self).priorities() == old(self).priorities(),
            final(self).pending() == old(self).pending().update(task_id as int, false),
    {
        let i = task_id as usize;
        let ghost old_tasks = self.tasks@;
        let t = ExecutorTask { task_id: self.tasks[i].task_id, priority: self.tasks[i].priority, pending_wake: false };
        proof {
            lemma_tickets_update(old_tasks, i as int, t, N as int);
        }
        self.tasks.set(i, t);
        proof {
            assert(ids_ok(self.tasks@)) by {
                assert forall|k: int| 0 <= k < self.tasks@.len() implies (#[trigger] self.tasks@[k]).task_id == k by {
                    assert(old_tasks[k].task_id == k);
                }
            }
            assert(self.priorities() =~= old(self).priorities());
            assert(self.pending() =~= old(self).pending().update(task_id as int, false));
        }
    }

    /// Wakes every task once, as the executor does when it starts.
    pub fn init(&mut self)
        requires
            old(self).wf(),
        ensures
            final(self).wf(),
            final(self).pending().len() == N,
            final(self).priorities().len() == N,
            final(self).priorities() == old(self).priorities(),
            final(self).pending() == Seq::new(N as nat, |i: int| true),
    {
        let mut i: usize = 0;
        while i < N
            invariant
                self.wf(),
                i <= N,
                self.priorities() == old(self).priorities(),
                forall|j: int| 0 <= j < i ==> #[trigger] self.pending()[j],
                forall|j: int| i <= j < N ==> #[trigger] self.pending()[j] == old(self).pending()[j],
            decreases N - i,
        {
            self.wake(i as TaskId);
            i = i + 1;
        }
        proof {
            assert(self.pending() =~= Seq::new(N as nat, |i: int| true));
        }
    }

    /// Hands out the pending task of highest priority and clears its
    /// pending flag; `None` when no task is pending.
    pub fn next_task(&mut self) -> (r: Option<TaskId>)
        requires
            old(self).wf(),
            N > 0,
        ensures
            final(self).wf(),
            final(self).pending().len() == N,
            final(self).priorities().len() == N,
            final(self).priorities() == old(self).priorities(),
            r is None <==> forall|i: int| 0 <= i < N ==> !(#[trigger] old(self).pending()[i]),
            r is None ==> final(self).pending() == old(self).pending(),
            r matches Some(id) ==> {
                &&& id < N
                &&& old(self).pending()[id as int]
                &&& final(self).pending() == old(self).pending().update(id as int, false)
                &&& forall|j: int|
                    0 <= j < N && #[trigger] old(self).pending()[j] ==> old(self).priorities()[j]
                        <= old(self).priorities()[id as int]
            },
    {
        let ghost tasks0 = self.tasks@;
        match self.queue.pop() {
            Some(ticket) => {
                proof {
                    lemma_ticket_from(tasks0, ticket, N as int);
                    assert forall|j: int|
                        0 <= j < N && #[trigger] old(self).pending()[j] implies old(
                        self,
                    ).priorities()[j] <= old(self).priorities()[ticket.task as int] by {
                        assert(old(self).pending()[j] == tasks0[j].pending_wake);
                        lemma_ticket_in(tasks0, j, N as int);
                        let y = ticket_of(tasks0[j]);
                        assert(is_first(Max::spec_kind(), tickets_of(tasks0, N as int), ticket));
                        assert(tickets_of(tasks0, N as int).contains(y));
                        assert(!crate::priority_queue::ranks_before(
                            Max::spec_kind(),
                            y.order_key(),
                            ticket.order_key(),
                        ));
                        assert(old(self).priorities()[j] == tasks0[j].priority);
                        assert(old(self).priorities()[ticket.task as int] == ticket.priority);
                    }
                    assert(old(self).pending()[ticket.task as int]);
                }
                self.clear_pending_wake_flag(ticket.task);
                Some(ticket.task)
            },
            None => {
                proof {
                    assert forall|i: int| 0 <= i < N implies !(#[trigger] old(self).pending()[i]) by {
                        if tasks0[i].pending_wake {
                            lemma_ticket_in(tasks0, i, N as int);
                        }
                    }
                    assert(self.pending() =~= old(self).pending());
                }
                None
            },
        }
    }

    /// Hands the executor over to a handle, which wakes every task once.
    pub fn get_handle(&'static mut self) -> (h: ExecutorHandle<N>)
        requires
            old(self).wf(),
        ensures
            h.executor().wf(),
            h.executor().pending().len() == N,
            h.executor().priorities().len() == N,
            h.executor().priorities() == old(self).priorities(),
            h.executor().pending() == Seq::new(N as nat, |i: int| true),
    {
        ExecutorHandle::new(self)
    }
}

proof fn lemma_no_tickets(tasks: Seq<ExecutorTask>, n: int)
    requires
        0 <= n <= tasks.len(),
        forall|j: int| 0 <= j < n ==> !(#[trigger] tasks[j]).pending_wake,
    ensures
        tickets_of(tasks, n) == Multiset::<Ticket>::empty(),
    decreases n,
{
    if n > 0 {
        lemma_no_tickets(tasks, n - 1);
    }
}

/// A started executor.
pub struct ExecutorHandle<const N: usize> {
    executor: &'static mut Executor<N>,
}

impl<const N: usize> ExecutorHandle<N> {
    pub closed spec fn executor(&self) -> Executor<N> {
        *self.executor
    }

    /// Starts the executor: every task is woken once.
    pub fn new(executor: &'static mut Executor<N>) -> (h: Self)
        requires
            old(executor).wf(),
        ensures
            h.executor().wf(),
            h.executor().pending().len() == N,
            h.executor().priorities().len() == N,
            h.executor().priorities() == old(executor).priorities(),
            h.executor().pending() == Seq::new(N as nat, |i: int| true),
    {
        executor.init();
        ExecutorHandle { executor }
    }

    /// See `Executor::next_task`.
    pub fn next_task(&mut self) -> (r: Option<TaskId>)
        requires
            old(self).executor().wf(),
            N > 0,
        ensures
            final(self).executor().wf(),
            final(self).executor().pending().len() == N,
            final(self).executor().priorities().len() == N,
            final(self).executor().priorities() == old(self).executor().priorities(),
            r is None <==> forall|i: int|
                0 <= i < N ==> !(#[trigger] old(self).executor().pending()[i]),
            r is None ==> final(self).executor().pending() == old(self).executor().pending(),
            r matches Some(id) ==> {
                &&& id < N
                &&& old(self).executor().pending()[id as int]
                &&& final(self).executor().pending() == old(self).executor().pending().update(
                    id as int,
                    false,
                )
                &&& forall|j: int|
                    0 <= j < N && #[trigger] old(self).executor().pending()[j] ==> old(
                        self,
                    ).executor().priorities()[j] <= old(self).executor().priorities()[id as int]
            },
    {
        self.executor.next_task()
    }

    /// See `Executor::wake`.
    pub fn wake(&mut self, task_id: TaskId)
        requires
            old(self).executor().wf(),
            task_id < N,
        ensures
            final(self).executor().wf(),
            final(self).executor().pending().len() == N,
            final(self).executor().priorities().len() == N,
            final(self).executor().priorities() == old(self).executor().priorities(),
            final(self).executor().pending() == old(self).executor().pending().update(
                task_id as int,
                true,
            ),
    {
        self.executor.wake(task_id)
    }
}

} // verus!
