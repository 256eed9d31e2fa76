//! Static composition of projection stages.

use super::projector::Projector;
use super::validate::{ProjectionRelationError, lemma_relation_transitive, relation_check, validate_projection_relation};
use super::value::{Projection, ProjectionView};
use crate::stream::StreamOffset;
use vstd::prelude::*;

verus! {

/// A statically typed two-stage projector composition.
pub struct Then<A, B> {
    pub first: A,
    pub second: B,
}

impl<A, B> Then<A, B> {
    pub(crate) fn new(first: A, second: B) -> (r: Self)
        ensures
            r.first == first,
            r.second == second,
    {
        Then { first, second }
    }
}

/// Errors from either projector or either stage's relation contract.
#[non_exhaustive]
#[derive(Debug)]
pub enum ThenError<A, B> {
    First(A),
    FirstRelation(ProjectionRelationError),
    Second(B),
    SecondRelation(ProjectionRelationError),
}

impl<Input, A, B> Projector<Input> for Then<A, B> where A: Projector<Input>, B: Projector<A::Output> {
    type Output = B::Output;
    type Error = ThenError<A::Error, B::Error>;

    /// The first stage runs on the input. Its error is passed on; otherwise
    /// its output is checked against the input, and a failed check is
    /// passed on. Otherwise the second stage runs on the first stage's
    /// output, its error is passed on, its output is checked against that
    /// output, and a failed check is passed on; otherwise its output is the
    /// result. A stage that does not run keeps its state.
    open spec fn projects(
        &self,
        input: Projection<Input>,
        after: Self,
        result: Result<Projection<B::Output>, ThenError<A::Error, B::Error>>,
    ) -> bool {
        exists|first_result: Result<Projection<A::Output>, A::Error>|
            #[trigger] self.first.projects(input, after.first, first_result) && match first_result {
                Err(e) => result == Err::<Projection<B::Output>, ThenError<A::Error, B::Error>>(ThenError::First(e))
                    && after.second == self.second,
                Ok(middle) => match relation_check(input@, middle@) {
                    Err(e) => result == Err::<Projection<B::Output>, ThenError<A::Error, B::Error>>(
                        ThenError::FirstRelation(e),
                    ) && after.second == self.second,
                    Ok(()) => exists|second_result: Result<Projection<B::Output>, B::Error>|
                        #[trigger] self.second.projects(middle, after.second, second_result) && match second_result {
                            Err(e) => result == Err::<Projection<B::Output>, ThenError<A::Error, B::Error>>(
                                ThenError::Second(e),
                            ),
                            Ok(output) => match relation_check(middle@, output@) {
                                Err(e) => result == Err::<Projection<B::Output>, ThenError<A::Error, B::Error>>(
                                    ThenError::SecondRelation(e),
                                ),
                                Ok(()) => result == Ok::<Projection<B::Output>, ThenError<A::Error, B::Error>>(
                                    output,
                                ),
                            },
                        },
                },
            }
    }

    /// Runs both stages, checking each stage's output against its input; a
    /// composed result accounts for a prefix of the input.
    fn project(&mut self, input: &Projection<Input>) -> (r: Result<Projection<Self::Output>, Self::Error>)
        ensures
            r matches Ok(output) ==> relation_check(input@, output@) is Ok,
            r matches Ok(output) ==> exists|middle: ProjectionView<A::Output>|
                relation_check(input@, middle) is Ok && relation_check(middle, output@) is Ok,
    {
        let ghost start = *self;
        let first_result = self.first.project(input);
        let ghost first_result_view = first_result;
        let ghost first_after = self.first;
        proof {
            assert(start.first.projects(*input, first_after, first_result_view));
        }
        let middle = match first_result {
            Ok(middle) => middle,
            Err(error) => {
                return Err(ThenError::First(error));
            },
        };
        match validate_projection_relation(input, &middle) {
            Ok(()) => {},
            Err(error) => {
                proof {
                    assert(relation_check(input@, middle@) == Err::<(), ProjectionRelationError>(error));
                }
                return Err(ThenError::FirstRelation(error));
            },
        }
        proof {
            assert(first_result_view == Ok::<Projection<A::Output>, A::Error>(middle));
            assert(relation_check(input@, middle@) is Ok);
        }
        let second_result = self.second.project(&middle);
        let ghost second_result_view = second_result;
        proof {
            assert(start.second.projects(middle, self.second, second_result_view));
            assert(self.first == first_after);
        }
        let output = match second_result {
            Ok(output) => output,
            Err(error) => {
                proof {
                    assert(second_result_view == Err::<Projection<B::Output>, B::Error>(error));
                    assert(start.first.projects(*input, self.first, first_result_view));
                }
                return Err(ThenError::Second(error));
            },
        };
        match validate_projection_relation(&middle, &output) {
            Ok(()) => {},
            Err(error) => {
                proof {
                    assert(relation_check(input@, middle@) is Ok);
                    assert(relation_check(middle@, output@) == Err::<(), ProjectionRelationError>(error));
                    assert(second_result_view == Ok::<Projection<B::Output>, B::Error>(output));
                    assert(start.first.projects(*input, self.first, first_result_view));
                }
                return Err(ThenError::SecondRelation(error));
            },
        }
        proof {
            lemma_relation_transitive(input@, middle@, output@);
            assert(relation_check(input@, middle@) is Ok && relation_check(middle@, output@) is Ok);
        }
        Ok(output)
    }

    /// Restarts the second stage from `output_from`, then the first stage
    /// from where the second must restart.
    fn restart_from(&self, output_from: StreamOffset) -> (r: StreamOffset)
        ensures
            exists|middle: StreamOffset|
                call_ensures(B::restart_from, (&self.second, output_from), middle) && call_ensures(
                    A::restart_from,
                    (&self.first, middle),
                    r,
                ),
    {
        let second_restart = B::restart_from;
        let second = second_restart(&self.second, output_from);
        let first_restart = A::restart_from;
        let first = first_restart(&self.first, second);
        first
    }
}

} // verus!
