//! Telling a pause on the clock from any other suspension.

use core::future::Future;
use core::task::Poll;
use vstd::prelude::*;

verus! {

/// `core::task::Poll`, with its two variants `Ready` and `Pending`.
#[verifier::external_type_specification]
pub struct ExPoll<T>(Poll<T>);

/// A future `.0` together with a condition `.1` that is asked whenever the
/// future suspends: where it answers `true`, the suspension is a pause, and
/// the wrapper is done with the answer "paused"; where it answers `false`,
/// the wrapper itself suspends.
pub struct PauseWhen<F, C>(pub F, pub C) where F: Future, C: Fn() -> bool;

impl<F, C> PauseWhen<F, C> where F: Future, C: Fn() -> bool {
    /// What the wrapper answers to a poll, given what its future answered.
    ///
    /// A finished future finishes the wrapper, with `Ready(Ready(..))`. For a
    /// suspended one the condition is asked once: `Ready(Pending)` stands for
    /// a pause, `Pending` for any other suspension.
    pub fn poll(&self, inner: Poll<F::Output>) -> (outer: Poll<Poll<F::Output>>)
        requires
            call_requires(self.1, ()),
        ensures
            inner matches Poll::Ready(output) ==> outer == Poll::Ready(Poll::Ready(output)),
            inner is Pending ==> (outer == Poll::Ready(Poll::<F::Output>::Pending) && call_ensures(
                self.1,
                (),
                true,
            )) || (outer == Poll::<Poll<F::Output>>::Pending && call_ensures(self.1, (), false)),
    {
        match inner {
            Poll::Ready(output) => Poll::Ready(Poll::Ready(output)),
            Poll::Pending => {
                if (self.1)() {
                    Poll::Ready(Poll::Pending)
                } else {
                    Poll::Pending
                }
            },
        }
    }
}

} // verus!
