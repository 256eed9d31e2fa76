//! Generic stateful projection stages.

use super::compose::Then;
use super::value::Projection;
use crate::stream::StreamOffset;
use vstd::prelude::*;

verus! {

/// Transforms one root-coordinate projection into another projection.
///
/// The trait intentionally has no thread-safety or storage bounds. A
/// projector may retain local state as needed.
pub trait Projector<Input> {
    type Output;
    type Error;

    /// Whether this projector, run on `input`, may return `result` and be
    /// left in state `after`. A projector that does not say leaves every
    /// outcome possible.
    open spec fn projects(
        &self,
        input: Projection<Input>,
        after: Self,
        result: Result<Projection<Self::Output>, Self::Error>,
    ) -> bool where Self: Sized {
        true
    }

    fn project(&mut self, input: &Projection<Input>) -> (r: Result<Projection<Self::Output>, Self::Error>) where Self: Sized
        ensures
            old(self).projects(*input, *final(self), r),
    ;

    /// Returns the earliest root coordinate needed to reconstruct output from
    /// `output_from` using the projector's currently retained state.
    ///
    /// The result is conservative and remains in the shared root coordinate
    /// space. Implementors must always return `restart_from(X) <= X`.
    ///
    /// Unless an implementor says otherwise, a projector keeps no state that
    /// reaches back, and restarts exactly at `output_from`.
    fn restart_from(&self, output_from: StreamOffset) -> (r: StreamOffset)
        ensures
            r.0 <= output_from.0,
        default_ensures
            r == output_from,
    {
        output_from
    }
}

/// Extension methods for statically composing projectors.
pub trait ProjectorExt<Input>: Projector<Input> + Sized {
    /// Runs `self` first, then `next` on what `self` produced.
    fn then<P>(self, next: P) -> (r: Then<Self, P>) where P: Projector<Self::Output>
        ensures
            r.first == self,
            r.second == next,
    {
        Then::new(self, next)
    }
}

impl<Input, P> ProjectorExt<Input> for P where P: Projector<Input> + Sized {

}

} // verus!
