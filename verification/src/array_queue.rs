//! The bounded multi-producer queue of `crossbeam_queue`, shared through an
//! `Arc`. Other holders of the `Arc` push and pop concurrently, so what the
//! queue holds is not modelled: only what each call hands back is.
use vstd::prelude::*;
use crossbeam_queue::ArrayQueue;
use std::sync::Arc;

verus! {

#[verifier::external_type_specification]
#[verifier::external_body]
#[verifier::reject_recursive_types(T)]
pub struct ExArrayQueue<T>(ArrayQueue<T>);

/// Calls `ArrayQueue::new`. Its source panics on a capacity of zero and on
/// one whose next power of two above it overflows, which `requires` leaves
/// out.
#[verifier::external_body]
pub(crate) fn new_queue<T>(cap: usize) -> ArrayQueue<T>
    requires
        0 < cap <= isize::MAX,
{
    ArrayQueue::new(cap)
}

/// `queue` took `value` in. What the queue holds is not modelled, so the
/// body records no more than that; the fact is closed, so that outside this
/// module only `queue_push` states it, when the push succeeded.
pub closed spec fn accepted<T>(queue: ArrayQueue<T>, value: T) -> bool {
    true
}

/// Calls `ArrayQueue::push`: as its documentation says, a full queue hands
/// the value back, and otherwise the value is in the queue. Whether the
/// queue is full depends on the other holders.
#[verifier::external_body]
pub(crate) fn queue_push<T>(queue: &ArrayQueue<T>, value: T) -> (r: Result<(), T>)
    ensures
        r matches Err(v) ==> v == value,
        r is Ok ==> accepted(*queue, value),
{
    queue.push(value)
}

/// Calls `ArrayQueue::pop`. What comes out depends on the other holders,
/// so nothing is stated of it.
#[verifier::external_body]
pub(crate) fn queue_pop<T>(queue: &ArrayQueue<T>) -> Option<T> {
    queue.pop()
}

/// Calls `Arc::clone`: another pointer to the same value.
#[verifier::external_body]
pub(crate) fn share<T>(arc: &Arc<T>) -> (r: Arc<T>)
    ensures
        r == *arc,
{
    Arc::clone(arc)
}

} // verus!
