//! The waker cell of `futures`, which one task registers its waker in and
//! other threads wake.
use vstd::prelude::*;
use core::task::Waker;
use futures::task::AtomicWaker;

verus! {

#[verifier::external_type_specification]
#[verifier::external_body]
pub struct ExAtomicWaker(AtomicWaker);

/// Calls `AtomicWaker::new`: no waker is registered yet.
#[verifier::external_body]
pub(crate) fn new_atomic_waker() -> AtomicWaker {
    AtomicWaker::new()
}

/// Calls `AtomicWaker::register`, which keeps `waker` to be woken later.
/// The cell is shared with other threads, so nothing is stated of it.
#[verifier::external_body]
pub(crate) fn register_waker(cell: &AtomicWaker, waker: &Waker) {
    cell.register(waker)
}

/// Calls `AtomicWaker::take`, which hands out the waker registered last;
/// whether there is one depends on the other threads.
#[verifier::external_body]
pub(crate) fn take_registered(cell: &AtomicWaker) -> Option<Waker> {
    cell.take()
}

} // verus!
