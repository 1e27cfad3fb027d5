//! A priority-based runtime for stackless tasks: the scheduling state
//! machines, queues and timers, with their contracts.
pub mod priority_queue;
pub mod executor;
pub mod timer;
pub mod waker;
pub mod interrupt;
pub mod task;
pub mod array_queue;
pub mod priority_channel;
pub mod pubsub;
pub mod atomic_waker;
pub mod notify;
