//! Wakers are carried through the state machines of this crate and woken
//! when a waiting task may make progress.
use vstd::prelude::*;

verus! {

/// `std::task::Waker`, carried opaquely.
#[verifier::external_type_specification]
#[verifier::external_body]
pub struct ExWaker(std::task::Waker);

/// Calls `Waker::will_wake`. Its answer compares the wakers' data pointers
/// and vtables, so no clause states it: callers are correct for both answers.
#[verifier::external_body]
pub(crate) fn will_wake(waker: &std::task::Waker, other: &std::task::Waker) -> bool {
    waker.will_wake(other)
}

/// Calls `Waker::clone`. The clone wakes the same task; as wakers are opaque
/// here, nothing is stated of the result.
#[verifier::external_body]
pub(crate) fn clone_waker(waker: &std::task::Waker) -> std::task::Waker {
    waker.clone()
}

} // verus!
