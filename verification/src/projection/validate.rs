//! Validation for projection values, relationships, and transitions.

use super::value::{
    Projection, ProjectionSpan, ProjectionView, SpanView, lemma_valid_projection_tiles, span_views,
    tiles,
};
use crate::stream::StreamOffset;
use vstd::prelude::*;
use vstd::std_specs::cmp::PartialEqSpec;

verus! {

/// Construction failures for a projection.
#[non_exhaustive]
#[derive(Debug, Clone, Copy, PartialEq, Eq, Structural)]
pub enum ProjectionValidationError {
    InvalidFrontier,
    EmptySpan,
    FirstSpanDoesNotStartAtBase,
    GapOrOverlap,
    SpanBeyondSourceEnd,
    TrailingUncoveredSource,
    StableFrontierInsideSpan,
    SealedBeforeStableEnd,
}

/// Failures when comparing successive snapshots of one projection stage.
#[non_exhaustive]
#[derive(Debug, Clone, Copy, PartialEq, Eq, Structural)]
pub enum ProjectionTransitionError {
    SourceBaseRegressed,
    SourceBaseBeyondPreviousStability,
    SourceEndRegressed,
    StabilityRegressed,
    StablePrefixChanged,
    UnsealedAfterSeal,
    ChangedAfterSeal,
}

/// Failures when checking an output projection against its input projection.
#[non_exhaustive]
#[derive(Debug, Clone, Copy, PartialEq, Eq, Structural)]
pub enum ProjectionRelationError {
    SourceBaseMismatch,
    OutputEndBeyondInput,
    OutputStabilityBeyondInput,
    OutputSealedBeforeInput,
    SealedOutputNotCaughtUp,
}

/// The outcome of checking an output stage against its input stage, failures
/// in the order they are checked.
pub open spec fn relation_check<I, O>(input: ProjectionView<I>, output: ProjectionView<O>) -> Result<
    (),
    ProjectionRelationError,
> {
    if output.source_base != input.source_base {
        Err(ProjectionRelationError::SourceBaseMismatch)
    } else if output.source_end > input.source_end {
        Err(ProjectionRelationError::OutputEndBeyondInput)
    } else if output.stable_through > input.stable_through {
        Err(ProjectionRelationError::OutputStabilityBeyondInput)
    } else if output.sealed && !input.sealed {
        Err(ProjectionRelationError::OutputSealedBeforeInput)
    } else if output.sealed && output.source_end != input.source_end {
        Err(ProjectionRelationError::SealedOutputNotCaughtUp)
    } else {
        Ok(())
    }
}

/// Validates that an output stage accounts for a prefix of its input stage.
pub fn validate_projection_relation<I, O>(input: &Projection<I>, output: &Projection<O>) -> (r: Result<
    (),
    ProjectionRelationError,
>)
    ensures
        r == relation_check(input@, output@),
{
    if output.source_base().0 != input.source_base().0 {
        return Err(ProjectionRelationError::SourceBaseMismatch);
    }
    if output.source_end().0 > input.source_end().0 {
        return Err(ProjectionRelationError::OutputEndBeyondInput);
    }
    if output.stable_through().0 > input.stable_through().0 {
        return Err(ProjectionRelationError::OutputStabilityBeyondInput);
    }
    if output.is_sealed() && !input.is_sealed() {
        return Err(ProjectionRelationError::OutputSealedBeforeInput);
    }
    if output.is_sealed() && output.source_end().0 != input.source_end().0 {
        return Err(ProjectionRelationError::SealedOutputNotCaughtUp);
    }
    Ok(())
}

/// Every projection accounts for itself.
pub proof fn lemma_relation_reflexive<T>(p: ProjectionView<T>)
    ensures
        relation_check(p, p) is Ok,
{
}

/// Relations compose: when a middle stage accounts for a prefix of its input
/// and an output stage accounts for a prefix of the middle one, the output
/// accounts for a prefix of the input.
pub proof fn lemma_relation_transitive<A, B, C>(
    input: ProjectionView<A>,
    middle: ProjectionView<B>,
    output: ProjectionView<C>,
)
    requires
        relation_check(input, middle) is Ok,
        relation_check(middle, output) is Ok,
    ensures
        relation_check(input, output) is Ok,
{
}

/// Two value sequences compare equal element by element.
pub open spec fn values_same<T: PartialEq>(a: Seq<T>, b: Seq<T>) -> bool {
    &&& a.len() == b.len()
    &&& forall|i: int| 0 <= i < a.len() ==> (#[trigger] a[i]).eq_spec(&b[i])
}

/// Two projections compare equal field by field, spans element by element.
pub open spec fn projections_same<T: PartialEq>(a: ProjectionView<T>, b: ProjectionView<T>) -> bool {
    &&& a.source_base == b.source_base
    &&& a.stable_through == b.stable_through
    &&& a.source_end == b.source_end
    &&& a.sealed == b.sealed
    &&& a.spans.len() == b.spans.len()
    &&& forall|i: int|
        0 <= i < a.spans.len() ==> {
            &&& (#[trigger] a.spans[i]).start == b.spans[i].start
            &&& a.spans[i].end == b.spans[i].end
            &&& values_same(a.spans[i].values, b.spans[i].values)
        }
}

/// The index of the first span, from `i` on, that ends after `offset`
/// (the number of spans if there is none).
pub open spec fn first_end_after<T>(spans: Seq<SpanView<T>>, offset: u64, i: int) -> int
    decreases spans.len() - i,
{
    if i >= spans.len() {
        spans.len() as int
    } else if spans[i].end > offset {
        i
    } else {
        first_end_after(spans, offset, i + 1)
    }
}

/// Walks both span sequences in step from `cursor` to `end`: each pair of
/// spans must cover the cursor, end at the same clipped boundary and hold
/// equal values.
pub open spec fn stable_walk<T: PartialEq>(
    previous: Seq<SpanView<T>>,
    next: Seq<SpanView<T>>,
    pi: int,
    ni: int,
    cursor: int,
    end: int,
) -> bool
    decreases end - cursor,
{
    if cursor >= end {
        cursor == end
    } else if !(0 <= pi < previous.len() && 0 <= ni < next.len()) {
        false
    } else {
        let p = previous[pi];
        let n = next[ni];
        if p.start > cursor || n.start > cursor || p.end <= cursor || n.end <= cursor {
            false
        } else {
            let p_end = if p.end < end { p.end as int } else { end };
            let n_end = if n.end < end { n.end as int } else { end };
            if p_end != n_end || !values_same(p.values, n.values) {
                false
            } else {
                stable_walk(previous, next, pi + 1, ni + 1, p_end, end)
            }
        }
    }
}

/// The stable interval `[start, end)` is projected identically by both span
/// sequences.
pub open spec fn same_stable_spec<T: PartialEq>(
    previous: Seq<SpanView<T>>,
    next: Seq<SpanView<T>>,
    start: u64,
    end: u64,
) -> bool {
    let pi = first_end_after(previous, start, 0);
    let ni = first_end_after(next, start, 0);
    if pi >= previous.len() || ni >= next.len() {
        false
    } else {
        stable_walk(previous, next, pi, ni, start as int, end as int)
    }
}

/// The outcome of checking a transition between two snapshots of one stage,
/// failures in the order they are checked.
pub open spec fn transition_check<T: PartialEq>(
    previous: ProjectionView<T>,
    next: ProjectionView<T>,
) -> Result<(), ProjectionTransitionError> {
    if previous.sealed {
        if !next.sealed {
            Err(ProjectionTransitionError::UnsealedAfterSeal)
        } else if !projections_same(previous, next) {
            Err(ProjectionTransitionError::ChangedAfterSeal)
        } else {
            Ok(())
        }
    } else if next.source_base < previous.source_base {
        Err(ProjectionTransitionError::SourceBaseRegressed)
    } else if next.source_base > previous.stable_through {
        Err(ProjectionTransitionError::SourceBaseBeyondPreviousStability)
    } else if next.source_end < previous.source_end {
        Err(ProjectionTransitionError::SourceEndRegressed)
    } else if next.stable_through < previous.stable_through {
        Err(ProjectionTransitionError::StabilityRegressed)
    } else if next.sealed && next.stable_through != next.source_end {
        Err(ProjectionTransitionError::ChangedAfterSeal)
    } else if previous.stable_through > next.source_base && !same_stable_spec(
        previous.spans,
        next.spans,
        next.source_base,
        previous.stable_through,
    ) {
        Err(ProjectionTransitionError::StablePrefixChanged)
    } else {
        Ok(())
    }
}

/// Validates the monotonic transition between two snapshots of one stage.
///
/// Values are compared with their own `==`; the outcome is stated for value
/// types whose `==` follows its specification.
pub fn validate_projection_transition<T: PartialEq>(
    previous: &Projection<T>,
    next: &Projection<T>,
) -> (r: Result<(), ProjectionTransitionError>)
    ensures
        T::obeys_eq_spec() ==> r == transition_check(previous@, next@),
{
    let previous_sealed = previous.is_sealed();
    let next_sealed = next.is_sealed();
    if previous_sealed {
        if !next_sealed {
            return Err(ProjectionTransitionError::UnsealedAfterSeal);
        }
        if !same_projection(previous, next) {
            return Err(ProjectionTransitionError::ChangedAfterSeal);
        }
        return Ok(());
    }
    let previous_base = previous.source_base();
    let previous_stable = previous.stable_through();
    let previous_end = previous.source_end();
    let next_base = next.source_base();
    let next_stable = next.stable_through();
    let next_end = next.source_end();
    if next_base.0 < previous_base.0 {
        return Err(ProjectionTransitionError::SourceBaseRegressed);
    }
    if next_base.0 > previous_stable.0 {
        return Err(ProjectionTransitionError::SourceBaseBeyondPreviousStability);
    }
    if next_end.0 < previous_end.0 {
        return Err(ProjectionTransitionError::SourceEndRegressed);
    }
    if next_stable.0 < previous_stable.0 {
        return Err(ProjectionTransitionError::StabilityRegressed);
    }
    if next_sealed && next_stable.0 != next_end.0 {
        return Err(ProjectionTransitionError::ChangedAfterSeal);
    }
    let overlap_end = previous_stable;
    if overlap_end.0 > next_base.0 {
        let previous_spans = previous.spans();
        let next_spans = next.spans();
        proof {
            lemma_valid_ends_increase(previous@);
            lemma_valid_ends_increase(next@);
        }
        if !same_stable_projection(previous_spans, next_spans, next_base, overlap_end) {
            return Err(ProjectionTransitionError::StablePrefixChanged);
        }
    }
    Ok(())
}

/// In a valid projection the span ends increase.
proof fn lemma_valid_ends_increase<T>(p: ProjectionView<T>)
    requires
        super::value::valid_projection(p),
    ensures
        forall|i: int, j: int| 0 <= i < j < p.spans.len() ==> #[trigger] p.spans[i].end <= #[trigger] p.spans[j].end,
{
    lemma_valid_projection_tiles(p);
    assert forall|i: int, j: int| 0 <= i < j < p.spans.len() implies #[trigger] p.spans[i].end
        <= #[trigger] p.spans[j].end by {
        assert(p.spans[i].end <= p.spans[j].start);
    }
}

/// Compares two value slices element by element.
fn values_equal<T: PartialEq>(a: &[T], b: &[T]) -> (r: bool)
    ensures
        T::obeys_eq_spec() ==> r == values_same(a@, b@),
{
    if a.len() != b.len() {
        return false;
    }
    let mut index: usize = 0;
    while index < a.len()
        invariant
            a@.len() == b@.len(),
            0 <= index <= a@.len(),
            T::obeys_eq_spec() ==> forall|i: int| 0 <= i < index ==> (#[trigger] a@[i]).eq_spec(&b@[i]),
        decreases a@.len() - index,
    {
        if !(a[index] == b[index]) {
            return false;
        }
        index += 1;
    }
    true
}

/// Compares two projections field by field, as their `==` does.
fn same_projection<T: PartialEq>(a: &Projection<T>, b: &Projection<T>) -> (r: bool)
    ensures
        T::obeys_eq_spec() ==> r == projections_same(a@, b@),
{
    if a.source_base().0 != b.source_base().0 || a.stable_through().0 != b.stable_through().0
        || a.source_end().0 != b.source_end().0 || a.is_sealed() != b.is_sealed() {
        return false;
    }
    let a_spans = a.spans();
    let b_spans = b.spans();
    if a_spans.len() != b_spans.len() {
        return false;
    }
    let mut index: usize = 0;
    while index < a_spans.len()
        invariant
            a_spans@.len() == b_spans@.len(),
            span_views(a_spans@) == a@.spans,
            span_views(b_spans@) == b@.spans,
            a@.source_base == b@.source_base,
            a@.stable_through == b@.stable_through,
            a@.source_end == b@.source_end,
            a@.sealed == b@.sealed,
            0 <= index <= a_spans@.len(),
            T::obeys_eq_spec() ==> forall|i: int|
                0 <= i < index ==> {
                    &&& (#[trigger] a@.spans[i]).start == b@.spans[i].start
                    &&& a@.spans[i].end == b@.spans[i].end
                    &&& values_same(a@.spans[i].values, b@.spans[i].values)
                },
        decreases a_spans@.len() - index,
    {
        assert(a@.spans[index as int] == a_spans@[index as int]@);
        assert(b@.spans[index as int] == b_spans@[index as int]@);
        let a_source = a_spans[index].source();
        let b_source = b_spans[index].source();
        if a_source.start.0 != b_source.start.0 || a_source.end.0 != b_source.end.0 {
            return false;
        }
        if !values_equal(a_spans[index].values(), b_spans[index].values()) {
            return false;
        }
        index += 1;
    }
    true
}

proof fn lemma_first_end_after<T>(spans: Seq<SpanView<T>>, offset: u64, k: int, i: int)
    requires
        0 <= i <= k <= spans.len(),
        forall|j: int| 0 <= j < k ==> (#[trigger] spans[j]).end <= offset,
        k == spans.len() || spans[k].end > offset,
    ensures
        first_end_after(spans, offset, i) == k,
    decreases k - i,
{
    if i < k {
        lemma_first_end_after(spans, offset, k, i + 1);
    }
}

/// The first span that ends after `offset`, found by bisection over spans
/// whose ends increase.
fn first_span_at_or_after<T>(spans: &[ProjectionSpan<T>], offset: StreamOffset) -> (r: Option<usize>)
    requires
        forall|i: int, j: int|
            0 <= i < j < spans@.len() ==> #[trigger] span_views(spans@)[i].end <= #[trigger] span_views(
                spans@,
            )[j].end,
    ensures
        match r {
            Some(index) => index as int == first_end_after(span_views(spans@), offset.0, 0) && index
                < spans@.len(),
            None => first_end_after(span_views(spans@), offset.0, 0) >= spans@.len(),
        },
{
    let ghost views = span_views(spans@);
    let mut low: usize = 0;
    let mut high: usize = spans.len();
    while low < high
        invariant
            views == span_views(spans@),
            0 <= low <= high <= spans@.len(),
            forall|i: int, j: int| 0 <= i < j < spans@.len() ==> #[trigger] views[i].end <= #[trigger] views[j].end,
            forall|j: int| 0 <= j < low ==> (#[trigger] views[j]).end <= offset.0,
            forall|j: int| high <= j < spans@.len() ==> (#[trigger] views[j]).end > offset.0,
        decreases high - low,
    {
        let middle = low + (high - low) / 2;
        assert(views[middle as int] == spans@[middle as int]@);
        if spans[middle].source().end.0 <= offset.0 {
            assert forall|j: int| 0 <= j < middle + 1 implies (#[trigger] views[j]).end <= offset.0 by {
                if j < middle {
                    assert(views[j].end <= views[middle as int].end);
                }
            }
            low = middle + 1;
        } else {
            assert forall|j: int| middle <= j < spans@.len() implies (#[trigger] views[j]).end > offset.0 by {
                if j > middle {
                    assert(views[middle as int].end <= views[j].end);
                }
            }
            high = middle;
        }
    }
    proof {
        lemma_first_end_after(views, offset.0, low as int, 0);
    }
    if low < spans.len() {
        Some(low)
    } else {
        None
    }
}

/// Checks that both span sequences project `[start, end)` identically.
fn same_stable_projection<T: PartialEq>(
    previous: &[ProjectionSpan<T>],
    next: &[ProjectionSpan<T>],
    start: StreamOffset,
    end: StreamOffset,
) -> (r: bool)
    requires
        forall|i: int, j: int|
            0 <= i < j < previous@.len() ==> #[trigger] span_views(previous@)[i].end
                <= #[trigger] span_views(previous@)[j].end,
        forall|i: int, j: int|
            0 <= i < j < next@.len() ==> #[trigger] span_views(next@)[i].end <= #[trigger] span_views(
                next@,
            )[j].end,
        start.0 < end.0,
    ensures
        T::obeys_eq_spec() ==> r == same_stable_spec(span_views(previous@), span_views(next@), start.0, end.0),
{
    let ghost pv = span_views(previous@);
    let ghost nv = span_views(next@);
    let mut previous_index = match first_span_at_or_after(previous, start) {
        Some(index) => index,
        None => {
            return false;
        },
    };
    let mut next_index = match first_span_at_or_after(next, start) {
        Some(index) => index,
        None => {
            return false;
        },
    };
    let mut cursor = start;
    while cursor.0 < end.0
        invariant
            pv == span_views(previous@),
            nv == span_views(next@),
            start.0 <= cursor.0 <= end.0,
            T::obeys_eq_spec() ==> same_stable_spec(pv, nv, start.0, end.0) == stable_walk(
                pv,
                nv,
                previous_index as int,
                next_index as int,
                cursor.0 as int,
                end.0 as int,
            ),
        decreases end.0 - cursor.0,
    {
        if previous_index >= previous.len() || next_index >= next.len() {
            return false;
        }
        assert(pv[previous_index as int] == previous@[previous_index as int]@);
        assert(nv[next_index as int] == next@[next_index as int]@);
        let previous_source = previous[previous_index].source();
        let next_source = next[next_index].source();
        if previous_source.start.0 > cursor.0 || next_source.start.0 > cursor.0
            || previous_source.end.0 <= cursor.0 || next_source.end.0 <= cursor.0 {
            return false;
        }
        // Clipping the first span permits compaction inside a span. Every
        // subsequent end must match, preserving stable segmentation.
        let previous_end = if previous_source.end.0 < end.0 {
            previous_source.end
        } else {
            end
        };
        let next_end = if next_source.end.0 < end.0 {
            next_source.end
        } else {
            end
        };
        if previous_end.0 != next_end.0 || !values_equal(
            previous[previous_index].values(),
            next[next_index].values(),
        ) {
            return false;
        }
        cursor = previous_end;
        previous_index += 1;
        next_index += 1;
    }
    cursor.0 == end.0
}

proof fn lemma_stable_walk_reflexive<T: PartialEq>(
    spans: Seq<SpanView<T>>,
    base: u64,
    end: u64,
    stable: u64,
    i: int,
)
    requires
        tiles(spans, base, end, spans.len() as int),
        0 <= i < spans.len(),
        spans[i].start < stable <= end,
        forall|value: T| #[trigger] value.eq_spec(&value),
    ensures
        stable_walk(spans, spans, i, i, spans[i].start as int, stable as int),
    decreases stable - spans[i].start,
{
    let span = spans[i];
    assert(values_same(span.values, span.values));
    if span.end < stable {
        assert(i + 1 < spans.len());
        assert(spans[i + 1].start == span.end);
        lemma_stable_walk_reflexive(spans, base, end, stable, i + 1);
    } else {
        assert(stable_walk(spans, spans, i + 1, i + 1, stable as int, stable as int));
    }
}

/// The transition check accepts any valid projection followed by itself,
/// for values whose equality holds of every value and itself (it fails for
/// a value that is not equal to itself, as a float NaN is not).
pub proof fn lemma_transition_reflexive<T: PartialEq>(p: ProjectionView<T>)
    requires
        super::value::valid_projection(p),
        forall|value: T| #[trigger] value.eq_spec(&value),
    ensures
        transition_check(p, p) is Ok,
{
    lemma_valid_projection_tiles(p);
    assert forall|i: int| 0 <= i < p.spans.len() implies values_same(
        (#[trigger] p.spans[i]).values,
        p.spans[i].values,
    ) by {}
    if !p.sealed && p.stable_through > p.source_base {
        assert(p.spans.len() > 0);
        assert(p.spans[0].end > p.source_base);
        assert(first_end_after(p.spans, p.source_base, 0) == 0);
        lemma_stable_walk_reflexive(p.spans, p.source_base, p.source_end, p.stable_through, 0);
    }
}

} // verus!
