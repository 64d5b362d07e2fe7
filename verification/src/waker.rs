//! Wakers, and what a poll answers.
//!
//! The library stores [`Waker`]s and hands them out when their task is due; it never looks
//! inside one. Calling `wake` is left to whoever drives the library, once no lock is held.
use vstd::prelude::*;
use std::task::Waker;

verus! {

/// Declares [`std::task::Waker`], which stays opaque.
#[verifier::external_type_specification]
#[verifier::external_body]
pub struct ExWaker(Waker);

/// Calls [`futures::task::noop_waker`], which makes a waker that does nothing when it is woken.
///
/// Nothing is claimed of the result: a waker is opaque here, so its doing nothing cannot be
/// written down.
#[verifier::external_body]
pub(crate) fn noop_waker() -> Waker {
    futures::task::noop_waker()
}

/// [`Waker::will_wake`], a best effort test of whether two wakers wake the same task.
///
/// Nothing is claimed of the answer: it may be `false` for two wakers of one task.
pub assume_specification[ Waker::will_wake ](waker: &Waker, other: &Waker) -> bool;

/// Asks `f` about two wakers.
pub(crate) fn ask<F: Fn(&Waker, &Waker) -> bool>(f: F, held: &Waker, other: &Waker) -> (same: bool)
    requires
        call_requires(f, (held, other)),
    ensures
        call_ensures(f, (held, other), same),
{
    f(held, other)
}

/// The answer to a poll.
pub enum Poll<R> {
    /// The awaited value.
    Ready(R),
    /// Not yet; the waker that came with the poll has been stored.
    Pending,
}

} // verus!
