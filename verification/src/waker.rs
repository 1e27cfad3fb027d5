//! Wakers and poll results.
use vstd::prelude::*;
use core::task::Waker;

verus! {

/// The waker of a task, as the standard library defines it.
#[verifier::external_type_specification]
#[verifier::external_body]
pub struct ExWaker(Waker);

/// The result of polling a future once.
#[derive(PartialEq, Eq, Structural, Debug)]
pub enum Poll<T> {
    Ready(T),
    Pending,
}

/// Calls `Waker::clone`. A waker is modelled by the task that it wakes, and
/// the documentation of `RawWakerVTable::clone` requires that waking the
/// clone wakes the same task as waking the original; so the clone is the
/// same waker in the model.
#[verifier::external_body]
pub(crate) fn clone_waker(waker: &Waker) -> (r: Waker)
    ensures
        r == *waker,
{
    waker.clone()
}

} // verus!
