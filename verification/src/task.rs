//! Tasks: a future with a priority.
use vstd::prelude::*;

verus! {

pub type Priority = u8;

/// A future together with the priority at which it is scheduled.
pub struct Task<F> {
    future: F,
    priority: Priority,
}

impl<F> Task<F> {
    pub closed spec fn future(&self) -> F {
        self.future
    }

    pub closed spec fn priority_spec(&self) -> Priority {
        self.priority
    }

    /// Makes the future by calling `future_fn`.
    pub fn new<G: FnOnce() -> F>(future_fn: G, priority: Priority) -> (t: Self)
        requires
            future_fn.requires(()),
        ensures
            future_fn.ensures((), t.future()),
            t.priority_spec() == priority,
    {
        Task { future: future_fn(), priority }
    }

    pub fn priority(&self) -> (p: Priority)
        ensures
            p == self.priority_spec(),
    {
        self.priority
    }

    /// The future, to be polled.
    pub fn future_mut(&mut self) -> (f: &mut F)
        ensures
            *f == old(self).future(),
            final(self).future() == *final(f),
            final(self).priority_spec() == old(self).priority_spec(),
    {
        &mut self.future
    }

    /// What the scheduler needs to know of the task.
    pub fn get_handle(&self) -> (h: TaskHandle)
        ensures
            h.priority == self.priority_spec(),
    {
        TaskHandle::new(self.priority)
    }
}

/// What the scheduler knows of a task: its priority.
#[derive(Clone, Copy, Debug)]
pub struct TaskHandle {
    pub priority: Priority,
}

impl TaskHandle {
    pub fn new(priority: Priority) -> (h: Self)
        ensures
            h.priority == priority,
    {
        TaskHandle { priority }
    }
}

} // verus!
