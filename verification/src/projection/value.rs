//! Root-coordinate projections with explicit source coverage.

use super::validate::ProjectionValidationError;
use crate::stream::{StreamOffset, StreamRange};
use vstd::prelude::*;

verus! {

/// A validated projection of a contiguous interval in one root source space.
///
/// Every non-empty source interval is represented by exactly one or more
/// contiguous [`ProjectionSpan`] values. A span may contain no output values;
/// that is explicit elision, not an uncovered source gap.
#[derive(Debug, PartialEq)]
pub struct Projection<T> {
    pub(crate) source_base: StreamOffset,
    pub(crate) stable_through: StreamOffset,
    pub(crate) source_end: StreamOffset,
    pub(crate) sealed: bool,
    pub(crate) spans: Vec<ProjectionSpan<T>>,
}

/// One contiguous source interval and the values projected from it.
#[derive(Debug, PartialEq)]
pub struct ProjectionSpan<T> {
    pub(crate) source: StreamRange,
    pub(crate) values: Vec<T>,
}

/// Validated construction boundary for a [`Projection`].
#[derive(Debug)]
pub struct ProjectionBuilder<T> {
    source_base: StreamOffset,
    stable_through: StreamOffset,
    source_end: StreamOffset,
    sealed: bool,
    spans: Vec<ProjectionSpan<T>>,
}

/// The mathematical content of a span: its source interval and its values.
pub struct SpanView<T> {
    pub start: u64,
    pub end: u64,
    pub values: Seq<T>,
}

/// The mathematical content of a projection (or of a builder's pending one).
pub struct ProjectionView<T> {
    pub source_base: u64,
    pub stable_through: u64,
    pub source_end: u64,
    pub sealed: bool,
    pub spans: Seq<SpanView<T>>,
}

impl<T> View for ProjectionSpan<T> {
    type V = SpanView<T>;

    closed spec fn view(&self) -> SpanView<T> {
        SpanView { start: self.source.start.0, end: self.source.end.0, values: self.values@ }
    }
}

/// The views of a sequence of spans.
pub open spec fn span_views<T>(spans: Seq<ProjectionSpan<T>>) -> Seq<SpanView<T>> {
    spans.map_values(|span: ProjectionSpan<T>| span@)
}

impl<T> View for Projection<T> {
    type V = ProjectionView<T>;

    closed spec fn view(&self) -> ProjectionView<T> {
        ProjectionView {
            source_base: self.source_base.0,
            stable_through: self.stable_through.0,
            source_end: self.source_end.0,
            sealed: self.sealed,
            spans: span_views(self.spans@),
        }
    }
}

impl<T> View for ProjectionBuilder<T> {
    type V = ProjectionView<T>;

    closed spec fn view(&self) -> ProjectionView<T> {
        ProjectionView {
            source_base: self.source_base.0,
            stable_through: self.stable_through.0,
            source_end: self.source_end.0,
            sealed: self.sealed,
            spans: span_views(self.spans@),
        }
    }
}

/// The span checks of construction, applied to the first `n` spans in order:
/// the source end reached so far, or the first failure.
pub open spec fn scan_spans<T>(spans: Seq<SpanView<T>>, base: u64, end: u64, n: int) -> Result<
    u64,
    ProjectionValidationError,
>
    decreases n,
{
    if n <= 0 {
        Ok(base)
    } else {
        match scan_spans(spans, base, end, n - 1) {
            Err(error) => Err(error),
            Ok(expected) => {
                let span = spans[n - 1];
                if span.start >= span.end {
                    Err(ProjectionValidationError::EmptySpan)
                } else if span.end > end {
                    Err(ProjectionValidationError::SpanBeyondSourceEnd)
                } else if n - 1 == 0 && span.start != base {
                    Err(ProjectionValidationError::FirstSpanDoesNotStartAtBase)
                } else if span.start != expected {
                    Err(ProjectionValidationError::GapOrOverlap)
                } else {
                    Ok(span.end)
                }
            },
        }
    }
}

/// The stable frontier lies on a span boundary (or at either end).
pub open spec fn stable_on_boundary<T>(p: ProjectionView<T>) -> bool {
    ||| p.stable_through == p.source_base
    ||| p.stable_through == p.source_end
    ||| exists|i: int| 0 <= i < p.spans.len() && #[trigger] p.spans[i].end == p.stable_through
}

/// The outcome of validating a projection, failures in the order they are
/// checked.
pub open spec fn projection_check<T>(p: ProjectionView<T>) -> Result<(), ProjectionValidationError> {
    if p.source_base > p.stable_through || p.stable_through > p.source_end {
        Err(ProjectionValidationError::InvalidFrontier)
    } else if p.sealed && p.stable_through != p.source_end {
        Err(ProjectionValidationError::SealedBeforeStableEnd)
    } else if p.source_base == p.source_end {
        if p.spans.len() == 0 {
            Ok(())
        } else {
            Err(ProjectionValidationError::SpanBeyondSourceEnd)
        }
    } else {
        match scan_spans(p.spans, p.source_base, p.source_end, p.spans.len() as int) {
            Err(error) => Err(error),
            Ok(expected) => {
                if expected != p.source_end {
                    Err(ProjectionValidationError::TrailingUncoveredSource)
                } else if !stable_on_boundary(p) {
                    Err(ProjectionValidationError::StableFrontierInsideSpan)
                } else {
                    Ok(())
                }
            },
        }
    }
}

pub open spec fn valid_projection<T>(p: ProjectionView<T>) -> bool {
    projection_check(p) is Ok
}

/// The spans tile `[base, expected)` in order, each non-empty.
pub open spec fn tiles<T>(spans: Seq<SpanView<T>>, base: u64, expected: u64, n: int) -> bool {
    &&& 0 <= n <= spans.len()
    &&& n == 0 ==> expected == base
    &&& n > 0 ==> spans[0].start == base && spans[n - 1].end == expected
    &&& forall|i: int| 0 <= i < n ==> base <= #[trigger] spans[i].start < spans[i].end <= expected
    &&& forall|i: int| 0 <= i < n - 1 ==> #[trigger] spans[i].end == spans[i + 1].start
    &&& forall|i: int, j: int| 0 <= i < j < n ==> #[trigger] spans[i].end <= #[trigger] spans[j].start
}

proof fn lemma_scan_error_persists<T>(spans: Seq<SpanView<T>>, base: u64, end: u64, n: int, m: int)
    requires
        n <= m,
        scan_spans(spans, base, end, n) is Err,
    ensures
        scan_spans(spans, base, end, m) == scan_spans(spans, base, end, n),
    decreases m - n,
{
    if n < m {
        lemma_scan_error_persists(spans, base, end, n, m - 1);
    }
}

proof fn lemma_scan_tiles<T>(spans: Seq<SpanView<T>>, base: u64, end: u64, n: int)
    requires
        0 <= n <= spans.len(),
        scan_spans(spans, base, end, n) is Ok,
    ensures
        tiles(spans, base, scan_spans(spans, base, end, n)->Ok_0, n),
        scan_spans(spans, base, end, n)->Ok_0 <= end || n == 0,
    decreases n,
{
    if n > 0 {
        lemma_scan_tiles(spans, base, end, n - 1);
        let previous = scan_spans(spans, base, end, n - 1)->Ok_0;
        assert forall|i: int, j: int| 0 <= i < j < n implies #[trigger] spans[i].end <= #[trigger] spans[j].start by {
            if j == n - 1 && i < n - 1 {
                assert(spans[i].end <= previous);
            }
        }
    }
}

/// A valid projection accounts for every offset of its source range exactly
/// once: each offset in `[source_base, source_end)` lies in one span and in no
/// other.
pub proof fn lemma_valid_projection_covers_once<T>(p: ProjectionView<T>, offset: u64)
    requires
        valid_projection(p),
        p.source_base <= offset < p.source_end,
    ensures
        exists|i: int| 0 <= i < p.spans.len() && #[trigger] p.spans[i].start <= offset < p.spans[i].end,
        forall|i: int, j: int|
            #![trigger p.spans[i], p.spans[j]]
            0 <= i < p.spans.len() && 0 <= j < p.spans.len() && p.spans[i].start <= offset
                < p.spans[i].end && p.spans[j].start <= offset < p.spans[j].end ==> i == j,
{
    let n = p.spans.len() as int;
    lemma_scan_tiles(p.spans, p.source_base, p.source_end, n);
    lemma_tiles_cover(p.spans, p.source_base, p.source_end, n, offset);
    assert forall|i: int, j: int|
        #![trigger p.spans[i], p.spans[j]]
        0 <= i < p.spans.len() && 0 <= j < p.spans.len() && p.spans[i].start <= offset
            < p.spans[i].end && p.spans[j].start <= offset < p.spans[j].end implies i == j by {
        if i < j {
            assert(p.spans[i].end <= p.spans[j].start);
        } else if j < i {
            assert(p.spans[j].end <= p.spans[i].start);
        }
    }
}

proof fn lemma_tiles_cover<T>(spans: Seq<SpanView<T>>, base: u64, expected: u64, n: int, offset: u64)
    requires
        tiles(spans, base, expected, n),
        base <= offset < expected,
    ensures
        exists|i: int| 0 <= i < n && #[trigger] spans[i].start <= offset < spans[i].end,
    decreases n,
{
    if n > 0 {
        if offset >= spans[n - 1].start {
            assert(spans[n - 1].start <= offset < spans[n - 1].end);
        } else {
            let previous = if n == 1 { base } else { spans[n - 2].end };
            assert(tiles(spans, base, previous, n - 1));
            lemma_tiles_cover(spans, base, previous, n - 1, offset);
        }
    }
}

/// In a valid projection the spans follow one another without gaps, each
/// non-empty, from the source base to the source end.
pub proof fn lemma_valid_projection_tiles<T>(p: ProjectionView<T>)
    requires
        valid_projection(p),
    ensures
        tiles(p.spans, p.source_base, p.source_end, p.spans.len() as int),
        p.source_base <= p.stable_through <= p.source_end,
        p.sealed ==> p.stable_through == p.source_end,
        stable_on_boundary(p),
{
    if p.source_base != p.source_end {
        lemma_scan_tiles(p.spans, p.source_base, p.source_end, p.spans.len() as int);
    }
}

impl<T> Projection<T> {
    #[verifier::type_invariant]
    spec fn projection_is_valid(self) -> bool {
        valid_projection(self@)
    }

    pub fn source_base(&self) -> (r: StreamOffset)
        ensures
            r.0 == self@.source_base,
            valid_projection(self@),
    {
        proof {
            use_type_invariant(self);
        }
        self.source_base
    }

    pub fn stable_through(&self) -> (r: StreamOffset)
        ensures
            r.0 == self@.stable_through,
            valid_projection(self@),
    {
        proof {
            use_type_invariant(self);
        }
        self.stable_through
    }

    pub fn source_end(&self) -> (r: StreamOffset)
        ensures
            r.0 == self@.source_end,
            valid_projection(self@),
    {
        proof {
            use_type_invariant(self);
        }
        self.source_end
    }

    pub fn is_sealed(&self) -> (r: bool)
        ensures
            r == self@.sealed,
            valid_projection(self@),
    {
        proof {
            use_type_invariant(self);
        }
        self.sealed
    }

    pub fn spans(&self) -> (r: &[ProjectionSpan<T>])
        ensures
            span_views(r@) == self@.spans,
            valid_projection(self@),
    {
        proof {
            use_type_invariant(self);
        }
        self.spans.as_slice()
    }

    /// Changes the value type without changing ownership or stability metadata.
    pub fn map<U, F: Fn(T) -> U>(self, map: F) -> (r: Projection<U>)
        requires
            forall|value: T| call_requires(map, (value,)),
        ensures
            r@.source_base == self@.source_base,
            r@.stable_through == self@.stable_through,
            r@.source_end == self@.source_end,
            r@.sealed == self@.sealed,
            r@.spans.len() == self@.spans.len(),
            forall|i: int|
                0 <= i < self@.spans.len() ==> {
                    &&& (#[trigger] r@.spans[i]).start == self@.spans[i].start
                    &&& r@.spans[i].end == self@.spans[i].end
                    &&& r@.spans[i].values.len() == self@.spans[i].values.len()
                    &&& forall|j: int|
                        0 <= j < self@.spans[i].values.len() ==> call_ensures(
                            map,
                            (self@.spans[i].values[j],),
                            #[trigger] r@.spans[i].values[j],
                        )
                },
    {
        proof {
            use_type_invariant(&self);
        }
        let ghost old_view = self@;
        let Projection { source_base, stable_through, source_end, sealed, spans } = self;
        let ghost old_spans = spans@;
        let mut mapped: Vec<ProjectionSpan<U>> = Vec::new();
        for span in iter: spans
            invariant
                forall|value: T| call_requires(map, (value,)),
                iter.seq() == old_spans,
                mapped@.len() == iter.index(),
                forall|i: int|
                    0 <= i < mapped@.len() ==> {
                        &&& (#[trigger] mapped@[i]).source == old_spans[i].source
                        &&& mapped@[i].values@.len() == old_spans[i].values@.len()
                        &&& forall|j: int|
                            0 <= j < old_spans[i].values@.len() ==> call_ensures(
                                map,
                                (old_spans[i].values@[j],),
                                #[trigger] mapped@[i].values@[j],
                            )
                    },
        {
            let ghost old_values = span.values@;
            let mut values: Vec<U> = Vec::new();
            for value in viter: span.values
                invariant
                    forall|value: T| call_requires(map, (value,)),
                    viter.seq() == old_values,
                    values@.len() == viter.index(),
                    forall|j: int|
                        0 <= j < values@.len() ==> call_ensures(map, (old_values[j],), #[trigger] values@[j]),
            {
                values.push(map(value));
            }
            mapped.push(ProjectionSpan { source: span.source, values });
        }
        proof {
            assert(span_views(mapped@).len() == span_views(old_spans).len());
            assert forall|i: int| 0 <= i < mapped@.len() implies (#[trigger] span_views(mapped@)[i]).start
                == span_views(old_spans)[i].start && span_views(mapped@)[i].end == span_views(old_spans)[i].end by {}
            lemma_same_sources_same_check(
                old_view,
                ProjectionView {
                    source_base: source_base.0,
                    stable_through: stable_through.0,
                    source_end: source_end.0,
                    sealed,
                    spans: span_views(mapped@),
                },
            );
        }
        Projection { source_base, stable_through, source_end, sealed, spans: mapped }
    }
}

/// Validation looks only at the frontiers and the span boundaries.
proof fn lemma_same_sources_same_check<T, U>(a: ProjectionView<T>, b: ProjectionView<U>)
    requires
        a.source_base == b.source_base,
        a.stable_through == b.stable_through,
        a.source_end == b.source_end,
        a.sealed == b.sealed,
        a.spans.len() == b.spans.len(),
        forall|i: int| 0 <= i < a.spans.len() ==> (#[trigger] a.spans[i]).start == b.spans[i].start
            && a.spans[i].end == b.spans[i].end,
    ensures
        projection_check(a) == projection_check(b),
{
    lemma_same_sources_same_scan(a.spans, b.spans, a.source_base, a.source_end, a.spans.len() as int);
    if stable_on_boundary(a) {
        if a.stable_through != a.source_base && a.stable_through != a.source_end {
            let i = choose|i: int| 0 <= i < a.spans.len() && #[trigger] a.spans[i].end == a.stable_through;
            assert(b.spans[i].end == b.stable_through);
        }
    }
    if stable_on_boundary(b) {
        if b.stable_through != b.source_base && b.stable_through != b.source_end {
            let i = choose|i: int| 0 <= i < b.spans.len() && #[trigger] b.spans[i].end == b.stable_through;
            assert(a.spans[i].end == a.stable_through);
        }
    }
}

proof fn lemma_same_sources_same_scan<T, U>(
    a: Seq<SpanView<T>>,
    b: Seq<SpanView<U>>,
    base: u64,
    end: u64,
    n: int,
)
    requires
        n <= a.len() == b.len(),
        forall|i: int| 0 <= i < a.len() ==> (#[trigger] a[i]).start == b[i].start && a[i].end == b[i].end,
    ensures
        scan_spans(a, base, end, n) == scan_spans(b, base, end, n),
    decreases n,
{
    if n > 0 {
        lemma_same_sources_same_scan(a, b, base, end, n - 1);
    }
}

impl<T: Clone> Clone for ProjectionSpan<T> {
    fn clone(&self) -> (r: Self)
        ensures
            r@.start == self@.start,
            r@.end == self@.end,
            r@.values.len() == self@.values.len(),
            forall|i: int| 0 <= i < self@.values.len() ==> cloned(self@.values[i], #[trigger] r@.values[i]),
    {
        ProjectionSpan { source: self.source, values: self.values.clone() }
    }
}

impl<T: Clone> Clone for Projection<T> {
    fn clone(&self) -> (r: Self)
        ensures
            r@.source_base == self@.source_base,
            r@.stable_through == self@.stable_through,
            r@.source_end == self@.source_end,
            r@.sealed == self@.sealed,
            r@.spans.len() == self@.spans.len(),
            forall|i: int|
                0 <= i < self@.spans.len() ==> (#[trigger] r@.spans[i]).start == self@.spans[i].start
                    && r@.spans[i].end == self@.spans[i].end,
    {
        proof {
            use_type_invariant(self);
        }
        let mut spans: Vec<ProjectionSpan<T>> = Vec::new();
        let mut index: usize = 0;
        while index < self.spans.len()
            invariant
                0 <= index <= self.spans@.len(),
                spans@.len() == index,
                forall|i: int|
                    0 <= i < index ==> (#[trigger] spans@[i])@.start == self.spans@[i]@.start
                        && spans@[i]@.end == self.spans@[i]@.end,
            decreases self.spans@.len() - index,
        {
            spans.push(self.spans[index].clone());
            index += 1;
        }
        proof {
            let copy = ProjectionView {
                source_base: self.source_base.0,
                stable_through: self.stable_through.0,
                source_end: self.source_end.0,
                sealed: self.sealed,
                spans: span_views(spans@),
            };
            lemma_same_sources_same_check(self@, copy);
        }
        Projection {
            source_base: self.source_base,
            stable_through: self.stable_through,
            source_end: self.source_end,
            sealed: self.sealed,
            spans,
        }
    }
}

/// `copy` has the frontiers and span sources of `p`, its values being
/// clones of those of `p`, position by position.
pub open spec fn cloned_view<T: Clone>(p: ProjectionView<T>, copy: ProjectionView<T>) -> bool {
    &&& same_sources(p, copy)
    &&& forall|i: int|
        0 <= i < p.spans.len() ==> {
            &&& (#[trigger] copy.spans[i]).values.len() == p.spans[i].values.len()
            &&& forall|j: int|
                0 <= j < p.spans[i].values.len() ==> cloned(p.spans[i].values[j], #[trigger] copy.spans[i].values[j])
        }
}

/// `a` and `b` have the same frontiers and the same span sources, in order.
pub open spec fn same_sources<T, U>(a: ProjectionView<T>, b: ProjectionView<U>) -> bool {
    &&& a.source_base == b.source_base
    &&& a.stable_through == b.stable_through
    &&& a.source_end == b.source_end
    &&& a.sealed == b.sealed
    &&& a.spans.len() == b.spans.len()
    &&& forall|i: int| 0 <= i < a.spans.len() ==> (#[trigger] a.spans[i]).start == b.spans[i].start && a.spans[i].end
        == b.spans[i].end
}

impl<T: Clone> Clone for ProjectionBuilder<T> {
    fn clone(&self) -> (r: Self)
        ensures
            cloned_view(self@, r@),
    {
        let mut spans: Vec<ProjectionSpan<T>> = Vec::new();
        let mut index: usize = 0;
        while index < self.spans.len()
            invariant
                0 <= index <= self.spans@.len(),
                spans@.len() == index,
                forall|i: int|
                    0 <= i < index ==> {
                        &&& (#[trigger] spans@[i])@.start == self.spans@[i]@.start
                        &&& spans@[i]@.end == self.spans@[i]@.end
                        &&& spans@[i]@.values.len() == self.spans@[i]@.values.len()
                        &&& forall|j: int|
                            0 <= j < self.spans@[i]@.values.len() ==> cloned(
                                self.spans@[i]@.values[j],
                                #[trigger] spans@[i]@.values[j],
                            )
                    },
            decreases self.spans@.len() - index,
        {
            spans.push(self.spans[index].clone());
            index += 1;
        }
        let r = ProjectionBuilder {
            source_base: self.source_base,
            stable_through: self.stable_through,
            source_end: self.source_end,
            sealed: self.sealed,
            spans,
        };
        proof {
            assert forall|i: int| 0 <= i < self@.spans.len() implies (#[trigger] r@.spans[i]).start
                == self@.spans[i].start && r@.spans[i].end == self@.spans[i].end by {
                assert(r@.spans[i] == spans@[i]@);
                assert(self@.spans[i] == self.spans@[i]@);
            }
            assert forall|i: int| 0 <= i < self@.spans.len() implies {
                &&& (#[trigger] r@.spans[i]).values.len() == self@.spans[i].values.len()
                &&& forall|j: int|
                    0 <= j < self@.spans[i].values.len() ==> cloned(
                        self@.spans[i].values[j],
                        #[trigger] r@.spans[i].values[j],
                    )
            } by {
                assert(r@.spans[i] == spans@[i]@);
                assert(self@.spans[i] == self.spans@[i]@);
            }
        }
        r
    }
}

impl<T> ProjectionSpan<T> {
    pub fn source(&self) -> (r: StreamRange)
        ensures
            r.start.0 == self@.start,
            r.end.0 == self@.end,
    {
        self.source
    }

    pub fn values(&self) -> (r: &[T])
        ensures
            r@ == self@.values,
    {
        self.values.as_slice()
    }
}

/// The span that a builder call adds for `source` with `values`.
pub open spec fn source_span<T>(source: StreamRange, values: Seq<T>) -> SpanView<T> {
    SpanView { start: source.start.0, end: source.end.0, values }
}

/// The pending projection after one more span: the frontiers stay as they
/// were and `span` follows the spans added before it.
pub open spec fn with_span<T>(p: ProjectionView<T>, span: SpanView<T>) -> ProjectionView<T> {
    ProjectionView { spans: p.spans.push(span), ..p }
}

/// The pending projection after a chain of builder calls that add `added`,
/// one span per call, in order.
pub open spec fn with_spans<T>(p: ProjectionView<T>, added: Seq<SpanView<T>>) -> ProjectionView<T>
    decreases added.len(),
{
    if added.len() == 0 {
        p
    } else {
        with_span(with_spans(p, added.drop_last()), added.last())
    }
}

/// Builders with the same frontiers and span sources (a builder and its
/// clone, say) finish alike after each adds a span for the same source,
/// whatever values either span holds: `finish` succeeds on both or fails on
/// both with the same error, and the results keep the same frontiers and
/// span sources. So emitting a value on one clone and a list of just that
/// value on another, or eliding on one and emitting no values on another,
/// finish alike.
pub proof fn lemma_same_sources_finish_alike<T>(
    a: ProjectionView<T>,
    b: ProjectionView<T>,
    source: StreamRange,
    a_values: Seq<T>,
    b_values: Seq<T>,
)
    requires
        same_sources(a, b),
    ensures
        same_sources(with_span(a, source_span(source, a_values)), with_span(b, source_span(source, b_values))),
        projection_check(with_span(a, source_span(source, a_values))) == projection_check(
            with_span(b, source_span(source, b_values)),
        ),
{
    let x = with_span(a, source_span(source, a_values));
    let y = with_span(b, source_span(source, b_values));
    assert forall|i: int| 0 <= i < x.spans.len() implies (#[trigger] x.spans[i]).start == y.spans[i].start
        && x.spans[i].end == y.spans[i].end by {
        if i < a.spans.len() {
            assert(x.spans[i] == a.spans[i]);
            assert(y.spans[i] == b.spans[i]);
        }
    }
    lemma_same_sources_same_check(x, y);
}

/// Where cloning a value gives back an equal value, every clone of a
/// builder has the builder's pending projection; so emitting a cloned value
/// on one clone and a list of just the value on another leave equal pending
/// projections, as do eliding on one clone and emitting no values on
/// another, and `finish` returns equal results for them.
pub proof fn lemma_clones_finish_equal<T: Clone>(
    builder: ProjectionView<T>,
    first: ProjectionView<T>,
    second: ProjectionView<T>,
    source: StreamRange,
    value: T,
    copy: T,
)
    requires
        cloned_view(builder, first),
        cloned_view(builder, second),
        cloned(value, copy),
        forall|x: T, y: T| #[trigger] cloned(x, y) ==> x == y,
    ensures
        first == builder,
        second == builder,
        with_span(first, source_span(source, seq![copy])) == with_span(second, source_span(source, seq![value])),
        with_span(first, source_span(source, Seq::empty())) == with_span(second, source_span(source, Seq::empty())),
{
    lemma_clone_equal(builder, first);
    lemma_clone_equal(builder, second);
}

proof fn lemma_clone_equal<T: Clone>(builder: ProjectionView<T>, copy: ProjectionView<T>)
    requires
        cloned_view(builder, copy),
        forall|x: T, y: T| #[trigger] cloned(x, y) ==> x == y,
    ensures
        copy == builder,
{
    assert forall|i: int| 0 <= i < builder.spans.len() implies #[trigger] copy.spans[i] == builder.spans[i] by {
        assert forall|j: int| 0 <= j < builder.spans[i].values.len() implies copy.spans[i].values[j]
            == builder.spans[i].values[j] by {
            assert(cloned(builder.spans[i].values[j], copy.spans[i].values[j]));
        }
        assert(copy.spans[i].values =~= builder.spans[i].values);
    }
    assert(copy.spans =~= builder.spans);
}

/// Emitting one value is emitting a list that holds just that value: both
/// calls leave the same pending projection, so `finish` answers both alike.
pub proof fn lemma_emit_is_emit_many_of_one<T>(
    before: ProjectionView<T>,
    source: StreamRange,
    value: T,
    values: Seq<T>,
)
    requires
        values == seq![value],
    ensures
        with_span(before, source_span(source, seq![value])) == with_span(before, source_span(source, values)),
        projection_check(with_span(before, source_span(source, seq![value]))) == projection_check(
            with_span(before, source_span(source, values)),
        ),
{
}

/// Eliding a source interval is emitting an empty list of values for it:
/// both calls leave the same pending projection, whose last span covers the
/// interval and holds no value.
pub proof fn lemma_elide_is_emit_many_of_none<T>(before: ProjectionView<T>, source: StreamRange, values: Seq<T>)
    requires
        values.len() == 0,
    ensures
        with_span(before, source_span(source, Seq::empty())) == with_span(before, source_span(source, values)),
        projection_check(with_span(before, source_span(source, Seq::empty()))) == projection_check(
            with_span(before, source_span(source, values)),
        ),
        with_span(before, source_span(source, values)).spans.last() == source_span(source, Seq::<T>::empty()),
{
    assert(values =~= Seq::<T>::empty());
}

/// Builder calls never touch the frontiers: after any chain of them the
/// pending projection keeps the base, the stable frontier, the source end and
/// the seal it was made with, and lists the added spans after the earlier
/// ones in call order. A projection that `finish` returns is that pending
/// projection.
pub proof fn lemma_builder_keeps_frontiers<T>(start: ProjectionView<T>, added: Seq<SpanView<T>>)
    ensures
        with_spans(start, added).source_base == start.source_base,
        with_spans(start, added).stable_through == start.stable_through,
        with_spans(start, added).source_end == start.source_end,
        with_spans(start, added).sealed == start.sealed,
        with_spans(start, added).spans == start.spans + added,
    decreases added.len(),
{
    if added.len() > 0 {
        lemma_builder_keeps_frontiers(start, added.drop_last());
        assert(start.spans + added =~= (start.spans + added.drop_last()).push(added.last()));
    } else {
        assert(start.spans + added =~= start.spans);
    }
}

impl<T> ProjectionBuilder<T> {
    pub fn new(
        source_base: StreamOffset,
        stable_through: StreamOffset,
        source_end: StreamOffset,
        sealed: bool,
    ) -> (r: Self)
        ensures
            r@ == (ProjectionView::<T> {
                source_base: source_base.0,
                stable_through: stable_through.0,
                source_end: source_end.0,
                sealed,
                spans: Seq::empty(),
            }),
    {
        let r = ProjectionBuilder { source_base, stable_through, source_end, sealed, spans: Vec::new() };
        assert(span_views(r.spans@) =~= Seq::empty());
        r
    }

    /// Adds one output value for a source interval.
    pub fn emit(self, source: StreamRange, value: T) -> (r: Self)
        ensures
            r@ == with_span(self@, source_span(source, seq![value])),
    {
        let mut values: Vec<T> = Vec::new();
        values.push(value);
        self.emit_many(source, values)
    }

    /// Adds any number of output values for a source interval.
    pub fn emit_many(self, source: StreamRange, values: Vec<T>) -> (r: Self)
        ensures
            r@ == with_span(self@, source_span(source, values@)),
    {
        let ProjectionBuilder { source_base, stable_through, source_end, sealed, spans } = self;
        let mut spans = spans;
        let ghost before = spans@;
        spans.push(ProjectionSpan { source, values });
        assert(span_views(spans@) =~= span_views(before).push(spans@[before.len() as int]@));
        ProjectionBuilder { source_base, stable_through, source_end, sealed, spans }
    }

    /// Explicitly accounts for a source interval with no projected values.
    pub fn elide(self, source: StreamRange) -> (r: Self)
        ensures
            r@ == with_span(self@, source_span(source, Seq::empty())),
    {
        let r = self.emit_many(source, Vec::new());
        assert(r@.spans =~= with_span(self@, source_span(source, Seq::<T>::empty())).spans);
        r
    }

    /// Validates the pending projection; on success it is returned unchanged.
    pub fn finish(self) -> (r: Result<Projection<T>, ProjectionValidationError>)
        ensures
            match r {
                Ok(projection) => projection_check(self@) is Ok && projection@ == self@,
                Err(error) => projection_check(self@) == Err::<(), ProjectionValidationError>(error),
            },
    {
        match validate_projection(&self) {
            Err(error) => Err(error),
            Ok(()) => {
                let ProjectionBuilder { source_base, stable_through, source_end, sealed, spans } = self;
                Ok(Projection { source_base, stable_through, source_end, sealed, spans })
            },
        }
    }
}

/// Checks a pending projection as [`ProjectionBuilder::finish`] does.
pub(crate) fn validate_projection<T>(projection: &ProjectionBuilder<T>) -> (r: Result<
    (),
    ProjectionValidationError,
>)
    ensures
        r == projection_check(projection@),
{
    let ghost view = projection@;
    if projection.source_base.0 > projection.stable_through.0 || projection.stable_through.0
        > projection.source_end.0 {
        return Err(ProjectionValidationError::InvalidFrontier);
    }
    if projection.sealed && projection.stable_through.0 != projection.source_end.0 {
        return Err(ProjectionValidationError::SealedBeforeStableEnd);
    }
    if projection.source_base.0 == projection.source_end.0 {
        if projection.spans.len() == 0 {
            return Ok(());
        }
        return Err(ProjectionValidationError::SpanBeyondSourceEnd);
    }
    let mut expected = projection.source_base;
    let mut index: usize = 0;
    while index < projection.spans.len()
        invariant
            view == projection@,
            view.source_base <= view.stable_through <= view.source_end,
            !(view.sealed && view.stable_through != view.source_end),
            view.source_base != view.source_end,
            0 <= index <= projection.spans@.len(),
            scan_spans(view.spans, view.source_base, view.source_end, index as int) == Ok::<
                u64,
                ProjectionValidationError,
            >(expected.0),
        decreases projection.spans@.len() - index,
    {
        let span = &projection.spans[index];
        assert(view.spans[index as int] == span@);
        let ghost at_next = scan_spans(view.spans, view.source_base, view.source_end, index + 1);
        if span.source.start.0 >= span.source.end.0 {
            proof {
                lemma_scan_error_persists(view.spans, view.source_base, view.source_end, index + 1, view.spans.len() as int);
            }
            return Err(ProjectionValidationError::EmptySpan);
        }
        if span.source.end.0 > projection.source_end.0 {
            proof {
                lemma_scan_error_persists(view.spans, view.source_base, view.source_end, index + 1, view.spans.len() as int);
            }
            return Err(ProjectionValidationError::SpanBeyondSourceEnd);
        }
        if index == 0 && span.source.start.0 != projection.source_base.0 {
            proof {
                lemma_scan_error_persists(view.spans, view.source_base, view.source_end, index + 1, view.spans.len() as int);
            }
            return Err(ProjectionValidationError::FirstSpanDoesNotStartAtBase);
        }
        if span.source.start.0 != expected.0 {
            proof {
                lemma_scan_error_persists(view.spans, view.source_base, view.source_end, index + 1, view.spans.len() as int);
            }
            return Err(ProjectionValidationError::GapOrOverlap);
        }
        expected = span.source.end;
        index += 1;
    }
    if expected.0 != projection.source_end.0 {
        return Err(ProjectionValidationError::TrailingUncoveredSource);
    }
    if projection.stable_through.0 != projection.source_base.0 && projection.stable_through.0
        != projection.source_end.0 {
        let mut found = false;
        let mut index: usize = 0;
        while index < projection.spans.len()
            invariant
                view == projection@,
                view.stable_through != view.source_base,
                view.stable_through != view.source_end,
                0 <= index <= projection.spans@.len(),
                found == exists|i: int| 0 <= i < index && #[trigger] view.spans[i].end == view.stable_through,
            decreases projection.spans@.len() - index,
        {
            assert(view.spans[index as int] == projection.spans@[index as int]@);
            if projection.spans[index].source.end.0 == projection.stable_through.0 {
                found = true;
            }
            proof {
                if found {
                    if view.spans[index as int].end == view.stable_through {
                        assert(0 <= index < index + 1 && view.spans[index as int].end == view.stable_through);
                    }
                } else {
                    assert forall|i: int| 0 <= i < index + 1 implies #[trigger] view.spans[i].end != view.stable_through by {
                        if i < index {
                        }
                    }
                }
            }
            index += 1;
        }
        if !found {
            return Err(ProjectionValidationError::StableFrontierInsideSpan);
        }
    }
    Ok(())
}

} // verus!
