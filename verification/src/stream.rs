//! Generic stream vocabulary: monotonic source coordinates, half-open source
//! ranges and snapshot revisions.

use crate::style::{StyleSpec, style_same, styles_equal};
use crate::chars::{char_len_utf8, chars_of, string_of};
use crate::unicode::{concat_all, graphemes, spec_graphemes, string_views};
use crate::view::{
    ColumnView, Decoration, HorizontalAlign, RowChild, TextSpan, View, ViewKind, WidthRule, WrapMode, same_view,
};
use crate::wrap::cluster_start;
use vstd::prelude::*;
use vstd::utf8::encode_utf8;
use vstd::view::View as _;

verus! {

/// Opaque monotonic coordinate within a stream's source space.
#[derive(Debug, Clone, Copy, PartialEq, Eq, PartialOrd, Ord, Hash, Default, Structural)]
pub struct StreamOffset(pub u64);

impl StreamOffset {
    /// The first coordinate of every stream.
    pub fn zero() -> (r: Self)
        ensures
            r.0 == 0,
    {
        StreamOffset(0)
    }

    pub fn new(offset: u64) -> (r: Self)
        ensures
            r.0 == offset,
    {
        StreamOffset(offset)
    }

    pub fn as_u64(self) -> (r: u64)
        ensures
            r == self.0,
    {
        self.0
    }

    /// Advances by `rhs`, stopping at the largest representable offset.
    pub fn saturating_add(self, rhs: u64) -> (r: Self)
        ensures
            r.0 == (if self.0 + rhs > u64::MAX { u64::MAX as int } else { self.0 + rhs }),
    {
        if self.0 > u64::MAX - rhs {
            StreamOffset(u64::MAX)
        } else {
            StreamOffset(self.0 + rhs)
        }
    }
}

/// Monotonic revision counter for stream snapshots.
#[derive(Debug, Clone, Copy, PartialEq, Eq, PartialOrd, Ord, Hash, Default, Structural)]
pub struct StreamRevision(pub u64);

impl StreamRevision {
    /// The revision before any snapshot.
    pub fn zero() -> (r: Self)
        ensures
            r.0 == 0,
    {
        StreamRevision(0)
    }

    pub fn new(rev: u64) -> (r: Self)
        ensures
            r.0 == rev,
    {
        StreamRevision(rev)
    }

    /// The following revision; the counter wraps after the largest value.
    pub fn next(self) -> (r: Self)
        ensures
            r.0 == (if self.0 == u64::MAX { 0 } else { self.0 + 1 }),
    {
        StreamRevision(self.0.wrapping_add(1))
    }
}

/// A half-open source range `[start, end)` in monotonic stream coordinates.
#[derive(Debug, Clone, Copy, PartialEq, Eq, Hash, Default, Structural)]
pub struct StreamRange {
    pub start: StreamOffset,
    pub end: StreamOffset,
}

impl StreamRange {
    pub fn new(start: StreamOffset, end: StreamOffset) -> (r: Self)
        ensures
            r == (StreamRange { start, end }),
    {
        StreamRange { start, end }
    }

    /// The empty range at `at`.
    pub fn empty(at: StreamOffset) -> (r: Self)
        ensures
            r == (StreamRange { start: at, end: at }),
    {
        StreamRange { start: at, end: at }
    }

    pub fn start(&self) -> (r: StreamOffset)
        ensures
            r == self.start,
    {
        self.start
    }

    pub fn end(&self) -> (r: StreamOffset)
        ensures
            r == self.end,
    {
        self.end
    }

    pub fn is_empty(&self) -> (r: bool)
        ensures
            r == (self.start.0 >= self.end.0),
    {
        self.start.0 >= self.end.0
    }

    /// The number of source units in the range; an inverted range has none.
    pub fn len(&self) -> (r: u64)
        ensures
            r == (if self.end.0 >= self.start.0 { self.end.0 - self.start.0 } else { 0 }),
    {
        if self.end.0 >= self.start.0 {
            self.end.0 - self.start.0
        } else {
            0
        }
    }

    pub fn contains_offset(&self, offset: StreamOffset) -> (r: bool)
        ensures
            r == (self.start.0 <= offset.0 && offset.0 < self.end.0),
    {
        offset.0 >= self.start.0 && offset.0 < self.end.0
    }
}

/// Structural terminator owned by a projected text node after its visible text.
#[derive(Debug, Clone, Copy, PartialEq, Eq, Structural)]
pub enum ExactTerminator {
    NoTerminator,
    HardNewline,
}

impl ExactTerminator {
    pub open spec fn spec_source_len(self) -> u64 {
        match self {
            ExactTerminator::NoTerminator => 0,
            ExactTerminator::HardNewline => 1,
        }
    }

    /// Source units owned by the terminator.
    pub fn source_len(self) -> (r: u64)
        ensures
            r == self.spec_source_len(),
    {
        match self {
            ExactTerminator::NoTerminator => 0,
            ExactTerminator::HardNewline => 1,
        }
    }
}

impl Default for ExactTerminator {
    fn default() -> (r: Self)
        ensures
            r == ExactTerminator::NoTerminator,
    {
        ExactTerminator::NoTerminator
    }
}

/// `a + b`, stopping at the largest `u64`.
pub open spec fn sat_add(a: u64, b: int) -> u64 {
    if a + b > u64::MAX {
        u64::MAX
    } else if a + b < 0 {
        0
    } else {
        (a + b) as u64
    }
}

/// The length in bytes that `str::len` reports for text `s`: the size of
/// its UTF-8 encoding.
pub open spec fn byte_len(s: Seq<char>) -> nat {
    (encode_utf8(s).len() as usize) as nat
}

/// Encoding a concatenation concatenates the encodings.
pub proof fn lemma_encode_concat(a: Seq<char>, b: Seq<char>)
    ensures
        encode_utf8(a + b) == encode_utf8(a) + encode_utf8(b),
    decreases a.len(),
{
    if a.len() > 0 {
        lemma_encode_concat(a.drop_first(), b);
        assert((a + b).drop_first() =~= a.drop_first() + b);
        assert(encode_utf8(a + b) =~= encode_utf8(a) + encode_utf8(b));
    } else {
        assert(a + b =~= b);
    }
}

/// A non-empty string has a non-empty encoding.
pub proof fn lemma_encode_nonempty(s: Seq<char>)
    requires
        s.len() > 0,
    ensures
        encode_utf8(s).len() > 0,
{
    assert(encode_utf8(s) == vstd::utf8::encode_scalar(s[0] as u32) + encode_utf8(s.drop_first()));
}

/// Semantic provenance attached to stream view nodes.
#[derive(Debug, Clone, Copy, PartialEq, Eq, Structural)]
pub enum StreamProvenance {
    /// A source-mapped text flow whose physical rows can expose monotonic
    /// source checkpoints, including transformed Markdown text.
    Projected(StreamRange),
    /// Presentation is genuinely indivisible and must be committed as one unit.
    Atomic(StreamRange),
}

/// How a projected text node is laid out.
#[derive(Debug, PartialEq)]
pub enum ProjectedTextLayout {
    Plain,
    Hanging {
        body_column: u16,
        prefix: String,
        prefix_style: StyleSpec,
        prefix_source: StreamRange,
        show_prefix: bool,
    },
}

/// One styled run of projected text and the source it owns.
#[derive(Debug, PartialEq)]
pub struct ProjectedTextRun {
    pub display: String,
    pub style: StyleSpec,
    pub owned: StreamRange,
    pub exact_visible: Option<StreamRange>,
}

/// Source-mapped text with an optional typed structural terminator.
#[derive(Debug, PartialEq)]
pub struct ProjectedText {
    pub content_range: StreamRange,
    pub terminator: ExactTerminator,
    pub width: WidthRule,
    pub wrap: WrapMode,
    pub align: HorizontalAlign,
    pub layout: ProjectedTextLayout,
    pub runs: Vec<ProjectedTextRun>,
}

/// The mathematical content of a run.
pub struct RunModel {
    pub display: Seq<char>,
    pub style: StyleSpec,
    pub owned: StreamRange,
    pub visible: Option<StreamRange>,
}

pub open spec fn run_model(run: ProjectedTextRun) -> RunModel {
    RunModel { display: run.display@, style: run.style, owned: run.owned, visible: run.exact_visible }
}

pub open spec fn run_models(runs: Seq<ProjectedTextRun>) -> Seq<RunModel> {
    runs.map_values(|run: ProjectedTextRun| run_model(run))
}

/// The runs of identity text over the first `n` spans, and the source
/// cursor after them: empty spans are skipped, and a span continues the
/// previous run when their styles compare equal.
pub open spec fn identity_fold(spans: Seq<TextSpan>, start: u64, n: int) -> (Seq<RunModel>, u64)
    decreases n,
{
    if n <= 0 {
        (Seq::empty(), start)
    } else {
        let (runs, cursor) = identity_fold(spans, start, n - 1);
        let span = spans[n - 1];
        if span.text@.len() == 0 {
            (runs, cursor)
        } else {
            let next = sat_add(cursor, byte_len(span.text@) as int);
            if runs.len() > 0 && style_same(runs.last().style, span.style) && runs.last().owned.end.0 == cursor {
                let last = runs.last();
                (
                    runs.update(
                        runs.len() - 1,
                        RunModel {
                            display: last.display + span.text@,
                            style: last.style,
                            owned: StreamRange { start: last.owned.start, end: StreamOffset(next) },
                            visible: Some(StreamRange { start: last.owned.start, end: StreamOffset(next) }),
                        },
                    ),
                    next,
                )
            } else {
                (
                    runs.push(
                        RunModel {
                            display: span.text@,
                            style: span.style,
                            owned: StreamRange { start: StreamOffset(cursor), end: StreamOffset(next) },
                            visible: Some(StreamRange { start: StreamOffset(cursor), end: StreamOffset(next) }),
                        },
                    ),
                    next,
                )
            }
        }
    }
}

impl ProjectedText {
    pub open spec fn spec_owned_range(self) -> StreamRange {
        StreamRange {
            start: self.content_range.start,
            end: StreamOffset(sat_add(self.content_range.end.0, self.terminator.spec_source_len() as int)),
        }
    }

    /// The source owned by the text, including its terminator.
    pub fn owned_range(&self) -> (r: StreamRange)
        ensures
            r == self.spec_owned_range(),
    {
        StreamRange::new(
            self.content_range.start,
            self.content_range.end.saturating_add(self.terminator.source_len()),
        )
    }

    /// Exact text: every span's bytes own their own source, in order from
    /// `content_range.start`.
    pub fn identity(content_range: StreamRange, terminator: ExactTerminator, spans: Vec<TextSpan>) -> (r: Self)
        ensures
            r.content_range == content_range,
            r.terminator == terminator,
            r.width == WidthRule::Fit,
            r.wrap == WrapMode::WordThenGrapheme,
            r.align == HorizontalAlign::Start,
            r.layout == ProjectedTextLayout::Plain,
            run_models(r.runs@) == identity_fold(spans@, content_range.start.0, spans@.len() as int).0,
    {
        let ghost all = spans@;
        let mut cursor = content_range.start;
        let mut runs: Vec<ProjectedTextRun> = Vec::new();
        for span in iter: spans
            invariant
                iter.seq() == all,
                run_models(runs@) == identity_fold(all, content_range.start.0, iter.index() as int).0,
                cursor.0 == identity_fold(all, content_range.start.0, iter.index() as int).1,
        {
            let ghost index = iter.index();
            let ghost before = runs@;
            assert(span == all[index]);
            if span.text.as_str().is_empty() {
            } else {
                let length = span.text.as_str().len();
                let start = cursor;
                cursor = cursor.saturating_add(length as u64);
                let merge = if runs.len() > 0 {
                    let previous = &runs[runs.len() - 1];
                    styles_equal(&previous.style, &span.style) && previous.owned.end.0 == start.0
                } else {
                    false
                };
                if merge {
                    let mut previous = runs.pop().unwrap();
                    previous.display.append(span.text.as_str());
                    previous.owned.end = cursor;
                    previous.exact_visible = Some(StreamRange::new(previous.owned.start, cursor));
                    runs.push(previous);
                    assert(run_models(runs@) =~= identity_fold(all, content_range.start.0, index + 1).0);
                } else {
                    runs.push(
                        ProjectedTextRun {
                            display: span.text,
                            style: span.style,
                            owned: StreamRange::new(start, cursor),
                            exact_visible: Some(StreamRange::new(start, cursor)),
                        },
                    );
                    assert(run_models(runs@) =~= identity_fold(all, content_range.start.0, index + 1).0);
                }
            }
        }
        ProjectedText {
            content_range,
            terminator,
            width: WidthRule::Fit,
            wrap: WrapMode::WordThenGrapheme,
            align: HorizontalAlign::Start,
            layout: ProjectedTextLayout::Plain,
            runs,
        }
    }
}

/// A semantic presentation node with truthful provenance.
///
/// Exact text is statically constrained to projected text plus an optional
/// typed structural terminator, making arbitrary hidden source
/// unrepresentable.
#[derive(Debug, PartialEq)]
pub enum StreamNode {
    Text(ProjectedText),
    Atomic { range: StreamRange, view: View },
}

impl StreamNode {
    pub open spec fn spec_owned_range(self) -> StreamRange {
        match self {
            StreamNode::Text(text) => text.spec_owned_range(),
            StreamNode::Atomic { range, .. } => range,
        }
    }

    pub fn projected_text(text: ProjectedText) -> (r: Self)
        ensures
            r == StreamNode::Text(text),
    {
        StreamNode::Text(text)
    }

    /// Exact text with no terminator.
    pub fn exact_text(text_range: StreamRange, spans: Vec<TextSpan>) -> (r: Self)
        ensures
            r matches StreamNode::Text(text) && text.content_range == text_range && text.terminator
                == ExactTerminator::NoTerminator && text.layout == ProjectedTextLayout::Plain && text.width
                == WidthRule::Fit && run_models(text.runs@) == identity_fold(
                spans@,
                text_range.start.0,
                spans@.len() as int,
            ).0,
    {
        StreamNode::Text(ProjectedText::identity(text_range, ExactTerminator::NoTerminator, spans))
    }

    /// Exact text, terminated by a hard newline when `has_newline`.
    pub fn exact_line(text_range: StreamRange, spans: Vec<TextSpan>, has_newline: bool) -> (r: Self)
        ensures
            r matches StreamNode::Text(text) && text.content_range == text_range && text.terminator == (
            if has_newline {
                ExactTerminator::HardNewline
            } else {
                ExactTerminator::NoTerminator
            }) && text.layout == ProjectedTextLayout::Plain && text.width == WidthRule::Fit && run_models(
                text.runs@,
            ) == identity_fold(spans@, text_range.start.0, spans@.len() as int).0,
    {
        let terminator = if has_newline {
            ExactTerminator::HardNewline
        } else {
            ExactTerminator::NoTerminator
        };
        StreamNode::Text(ProjectedText::identity(text_range, terminator, spans))
    }

    /// Sets the width rule of a text node; atomic nodes are unchanged.
    pub fn with_width(self, width_rule: WidthRule) -> (r: Self)
        ensures
            r == (match self {
                StreamNode::Text(text) => StreamNode::Text(ProjectedText { width: width_rule, ..text }),
                _ => self,
            }),
    {
        match self {
            StreamNode::Text(text) => StreamNode::Text(ProjectedText { width: width_rule, ..text }),
            node => node,
        }
    }

    pub fn atomic(range: StreamRange, view: View) -> (r: Self)
        ensures
            r == (StreamNode::Atomic { range, view }),
    {
        StreamNode::Atomic { range, view }
    }

    /// The full monotonic source range owned by this node, including any
    /// typed structural terminator.
    pub fn owned_range(&self) -> (r: StreamRange)
        ensures
            r == self.spec_owned_range(),
    {
        match self {
            StreamNode::Text(text) => text.owned_range(),
            StreamNode::Atomic { range, .. } => *range,
        }
    }

    pub fn source_range(&self) -> (r: StreamRange)
        ensures
            r == self.spec_owned_range(),
    {
        self.owned_range()
    }

    pub fn provenance(&self) -> (r: StreamProvenance)
        ensures
            r == (match self {
                StreamNode::Text(_) => StreamProvenance::Projected(self.spec_owned_range()),
                StreamNode::Atomic { range, .. } => StreamProvenance::Atomic(*range),
            }),
    {
        match self {
            StreamNode::Text(_) => StreamProvenance::Projected(self.owned_range()),
            StreamNode::Atomic { range, .. } => StreamProvenance::Atomic(*range),
        }
    }
}

/// The run checks of projected-text validation over the first `n` runs: the
/// source reached so far, or `None` once a run fails.
pub open spec fn runs_scan(runs: Seq<RunModel>, expected: u64, content_end: u64, n: int) -> Option<u64>
    decreases n,
{
    if n <= 0 {
        Some(expected)
    } else {
        match runs_scan(runs, expected, content_end, n - 1) {
            None => None,
            Some(at) => {
                let run = runs[n - 1];
                if run.owned.start.0 != at || run.owned.start.0 >= run.owned.end.0 {
                    None
                } else if run.owned.end.0 > content_end {
                    None
                } else if match run.visible {
                    Some(visible) => visible.start.0 < run.owned.start.0 || visible.end.0 > run.owned.end.0
                        || visible.start.0 > visible.end.0 || byte_len(run.display) != ((visible.end.0
                        - visible.start.0) as u64) as usize,
                    None => false,
                } {
                    None
                } else {
                    Some(run.owned.end.0)
                }
            },
        }
    }
}

/// Where the runs of `text` must begin, or `None` when a shown prefix lies
/// outside the content.
pub open spec fn runs_start(text: ProjectedText) -> Option<u64> {
    match text.layout {
        ProjectedTextLayout::Plain => Some(text.content_range.start.0),
        ProjectedTextLayout::Hanging { prefix_source, show_prefix, .. } => {
            if show_prefix {
                if prefix_source.start.0 != text.content_range.start.0 || prefix_source.end.0
                    > text.content_range.end.0 {
                    None
                } else {
                    Some(prefix_source.end.0)
                }
            } else {
                Some(text.content_range.start.0)
            }
        },
    }
}

/// Projected text whose runs tile its content exactly, each exact run's
/// display having as many bytes as the source it shows.
pub open spec fn projected_text_valid(text: ProjectedText) -> bool {
    &&& text.content_range.start.0 <= text.content_range.end.0
    &&& runs_start(text) matches Some(start) && runs_scan(
        run_models(text.runs@),
        start,
        text.content_range.end.0,
        text.runs@.len() as int,
    ) == Some(text.content_range.end.0)
}

pub(crate) proof fn lemma_runs_scan_none_persists(runs: Seq<RunModel>, expected: u64, content_end: u64, n: int, m: int)
    requires
        n <= m,
        runs_scan(runs, expected, content_end, n) is None,
    ensures
        runs_scan(runs, expected, content_end, m) is None,
    decreases m - n,
{
    if n < m {
        lemma_runs_scan_none_persists(runs, expected, content_end, n, m - 1);
    }
}

pub(crate) fn validate_projected_text(text: &ProjectedText) -> (r: bool)
    ensures
        r == projected_text_valid(*text),
{
    if text.content_range.start.0 > text.content_range.end.0 {
        return false;
    }
    let mut expected: u64 = match &text.layout {
        ProjectedTextLayout::Plain => text.content_range.start.0,
        ProjectedTextLayout::Hanging { prefix_source, show_prefix, .. } => {
            if *show_prefix {
                if prefix_source.start.0 != text.content_range.start.0 || prefix_source.end.0
                    > text.content_range.end.0 {
                    return false;
                }
                prefix_source.end.0
            } else {
                text.content_range.start.0
            }
        },
    };
    let ghost start = expected;
    let ghost models = run_models(text.runs@);
    let mut index: usize = 0;
    while index < text.runs.len()
        invariant
            models == run_models(text.runs@),
            runs_start(*text) == Some(start),
            0 <= index <= text.runs@.len(),
            runs_scan(models, start, text.content_range.end.0, index as int) == Some(expected),
        decreases text.runs@.len() - index,
    {
        let run = &text.runs[index];
        assert(models[index as int] == run_model(*run));
        assert(models[index as int].visible == run.exact_visible);
        assert(models[index as int].owned == run.owned);
        if run.owned.start.0 != expected || run.owned.start.0 >= run.owned.end.0 {
            proof {
                lemma_runs_scan_none_persists(models, start, text.content_range.end.0, index + 1, models.len() as int);
            }
            return false;
        }
        if run.owned.end.0 > text.content_range.end.0 {
            proof {
                lemma_runs_scan_none_persists(models, start, text.content_range.end.0, index + 1, models.len() as int);
            }
            return false;
        }
        if let Some(visible) = run.exact_visible {
            if visible.start.0 < run.owned.start.0 || visible.end.0 > run.owned.end.0 || visible.start.0
                > visible.end.0 {
                proof {
                    lemma_runs_scan_none_persists(models, start, text.content_range.end.0, index + 1, models.len() as int);
                }
                return false;
            }
            if run.display.as_str().len() != visible.len() as usize {
                proof {
                    lemma_runs_scan_none_persists(models, start, text.content_range.end.0, index + 1, models.len() as int);
                }
                return false;
            }
        }
        expected = run.owned.end.0;
        index += 1;
    }
    expected == text.content_range.end.0
}

/// Linear stream view: an ordered sequence of provenance-bearing semantic
/// blocks.
#[derive(Debug, PartialEq)]
pub struct StreamView {
    pub nodes: Vec<StreamNode>,
}

/// The runs with visible text among the first `n`.
pub open spec fn shown_runs(runs: Seq<RunModel>, n: int) -> Seq<RunModel>
    decreases n,
{
    if n <= 0 {
        Seq::empty()
    } else if runs[n - 1].display.len() > 0 {
        shown_runs(runs, n - 1).push(runs[n - 1])
    } else {
        shown_runs(runs, n - 1)
    }
}

/// Text spans showing exactly `runs`, in order, with their styles.
pub open spec fn spans_show(spans: Seq<TextSpan>, runs: Seq<RunModel>) -> bool {
    &&& spans.len() == runs.len()
    &&& forall|i: int| 0 <= i < spans.len() ==> (#[trigger] spans[i]).text@ == runs[i].display && spans[i].style
        == runs[i].style
}

/// A text view of `runs` with the default wrap and alignment.
pub open spec fn shows_runs(view: View, width: WidthRule, runs: Seq<RunModel>) -> bool {
    &&& view.width == width
    &&& view.decoration == Decoration::spec_default()
    &&& view.kind matches ViewKind::Text(text) && text.wrap == WrapMode::WordThenGrapheme && text.align
        == HorizontalAlign::Start && spans_show(text.spans@, runs)
}

/// The static view a stream node lowers to: atomic views as they are,
/// projected text as its visible runs (after a fixed-width prefix column when
/// hanging).
pub open spec fn lowered(node: StreamNode, child: View) -> bool {
    match node {
        StreamNode::Atomic { view, .. } => child == view,
        StreamNode::Text(text) => {
            let runs = shown_runs(run_models(text.runs@), text.runs@.len() as int);
            match text.layout {
                ProjectedTextLayout::Plain => shows_runs(child, text.width, runs),
                ProjectedTextLayout::Hanging { body_column, prefix, prefix_style, show_prefix, .. } => {
                    &&& child.width == WidthRule::Fill
                    &&& child.decoration == Decoration::spec_default()
                    &&& child.kind matches ViewKind::Row(row) && row.gap == 0 && row.vertical_align
                        == crate::style::VerticalAlign::Top && row.children@.len() == 2
                        && row.children@[0].track == crate::tracks::TrackSize::Fixed(body_column)
                        && row.children@[1].track == (crate::tracks::TrackSize::Flex { min: 1 })
                        && shows_runs(row.children@[1].view, WidthRule::Fill, runs) && (if show_prefix {
                        row.children@[0].view.kind matches ViewKind::Text(p) && p.wrap == WrapMode::NoWrap
                            && row.children@[0].view.width == WidthRule::Fit && spans_show(
                            p.spans@,
                            seq![
                                RunModel {
                                    display: prefix@,
                                    style: prefix_style,
                                    owned: StreamRange { start: StreamOffset(0), end: StreamOffset(0) },
                                    visible: None,
                                },
                            ],
                        )
                    } else {
                        row.children@[0].view.kind matches ViewKind::Text(p) && row.children@[0].view.width
                            == WidthRule::Fill && p.spans@.len() == 1 && p.spans@[0].text@.len() == 0
                    })
                },
            }
        },
    }
}

impl StreamView {
    pub fn new(nodes: Vec<StreamNode>) -> (r: Self)
        ensures
            r.nodes@ == nodes@,
    {
        StreamView { nodes }
    }

    pub fn empty() -> (r: Self)
        ensures
            r.nodes@.len() == 0,
    {
        StreamView { nodes: Vec::new() }
    }

    pub fn push(&mut self, node: StreamNode)
        ensures
            final(self).nodes@ == old(self).nodes@.push(node),
    {
        self.nodes.push(node);
    }

    /// Single exact text block.
    pub fn exact_text(range: StreamRange, spans: Vec<TextSpan>) -> (r: Self)
        ensures
            r.nodes@.len() == 1,
            r.nodes@[0] matches StreamNode::Text(text) && text.content_range == range && text.terminator
                == ExactTerminator::NoTerminator && text.layout == ProjectedTextLayout::Plain && run_models(
                text.runs@,
            ) == identity_fold(spans@, range.start.0, spans@.len() as int).0,
    {
        let mut nodes: Vec<StreamNode> = Vec::new();
        nodes.push(StreamNode::exact_text(range, spans));
        StreamView { nodes }
    }

    /// Single atomic view.
    pub fn atomic(range: StreamRange, view: View) -> (r: Self)
        ensures
            r.nodes@ == seq![StreamNode::Atomic { range, view }],
    {
        let mut nodes: Vec<StreamNode> = Vec::new();
        nodes.push(StreamNode::atomic(range, view));
        StreamView { nodes }
    }

    /// Lowers the stream's exact and atomic presentation into the ordinary
    /// static view vocabulary without changing visible content. Structural
    /// source terminators remain provenance metadata and are not emitted.
    pub fn into_static_view(self) -> (r: View)
        ensures
            r.width == WidthRule::Fit,
            r.decoration == Decoration::spec_default(),
            r.kind matches ViewKind::Column(column) && column.gap == 0 && column.children@.len()
                == self.nodes@.len() && forall|i: int|
                0 <= i < self.nodes@.len() ==> lowered(self.nodes@[i], #[trigger] column.children@[i]),
    {
        let ghost all = self.nodes@;
        let mut children: Vec<View> = Vec::new();
        for node in iter: self.nodes
            invariant
                iter.seq() == all,
                children@.len() == iter.index(),
                forall|i: int| 0 <= i < children@.len() ==> lowered(all[i], #[trigger] children@[i]),
        {
            let child = lower_node(node);
            children.push(child);
        }
        View {
            width: WidthRule::Fit,
            decoration: Decoration::default(),
            kind: ViewKind::Column(ColumnView { children, gap: 0 }),
        }
    }
}

/// The text spans showing the visible runs of `runs`.
fn shown_spans(runs: &Vec<ProjectedTextRun>) -> (r: Vec<TextSpan>)
    ensures
        spans_show(r@, shown_runs(run_models(runs@), runs@.len() as int)),
{
    let ghost models = run_models(runs@);
    let mut spans: Vec<TextSpan> = Vec::new();
    let mut index: usize = 0;
    while index < runs.len()
        invariant
            models == run_models(runs@),
            0 <= index <= runs@.len(),
            spans_show(spans@, shown_runs(models, index as int)),
        decreases runs@.len() - index,
    {
        let run = &runs[index];
        assert(models[index as int] == run_model(*run));
        if !run.display.as_str().is_empty() {
            spans.push(TextSpan { text: run.display.clone(), style: run.style.duplicate() });
        }
        index += 1;
    }
    spans
}

fn lower_node(node: StreamNode) -> (r: View)
    ensures
        lowered(node, r),
{
    match node {
        StreamNode::Atomic { view, .. } => view,
        StreamNode::Text(text) => {
            let spans = shown_spans(&text.runs);
            let body_width = match &text.layout {
                ProjectedTextLayout::Plain => text.width,
                ProjectedTextLayout::Hanging { .. } => WidthRule::Fill,
            };
            let body = View::styled_text(spans).width(body_width);
            match &text.layout {
                ProjectedTextLayout::Plain => body.into_canonical_view(),
                ProjectedTextLayout::Hanging { body_column, prefix, prefix_style, show_prefix, .. } => {
                    let prefix_view = if *show_prefix {
                        let mut prefix_spans: Vec<TextSpan> = Vec::new();
                        prefix_spans.push(TextSpan { text: prefix.clone(), style: prefix_style.duplicate() });
                        View::styled_text(prefix_spans).no_wrap().into_canonical_view()
                    } else {
                        let mut empty_spans: Vec<TextSpan> = Vec::new();
                        empty_spans.push(TextSpan { text: String::new(), style: StyleSpec::new() });
                        View::styled_text(empty_spans).width(WidthRule::Fill).into_canonical_view()
                    };
                    let mut children: Vec<RowChild> = Vec::new();
                    children.push(RowChild::fixed(*body_column, prefix_view));
                    children.push(RowChild::flex(body.into_canonical_view()));
                    View::row(children, 0)
                },
            }
        },
    }
}

/// Width-independent snapshot of the current unacknowledged stream state.
#[derive(Debug, Clone, PartialEq)]
pub struct StreamSnapshot {
    pub revision: StreamRevision,
    /// Earliest source represented by this snapshot.
    pub source_base: StreamOffset,
    /// End of all source received or presented so far.
    pub source_end: StreamOffset,
    /// Largest semantic source prefix guaranteed never to change presentation
    /// because of future appends.
    pub stable_through: StreamOffset,
    pub view: StreamView,
}

/// The node checks of snapshot validation over the first `n` nodes: the
/// source reached so far, or `None` once a node fails.
pub open spec fn nodes_scan(nodes: Seq<StreamNode>, base: u64, end: u64, n: int) -> Option<u64>
    decreases n,
{
    if n <= 0 {
        Some(base)
    } else {
        match nodes_scan(nodes, base, end, n - 1) {
            None => None,
            Some(at) => {
                let owned = nodes[n - 1].spec_owned_range();
                if owned.start.0 != at {
                    None
                } else if owned.end.0 > end {
                    None
                } else if nodes[n - 1] matches StreamNode::Text(text) && !projected_text_valid(text) {
                    None
                } else {
                    Some(owned.end.0)
                }
            },
        }
    }
}

impl StreamSnapshot {
    /// Ordered frontiers, and nodes that follow one another from the source
    /// base to the source end, each projected text valid.
    pub open spec fn spec_valid(self) -> bool {
        &&& self.source_base.0 <= self.stable_through.0 <= self.source_end.0
        &&& nodes_scan(self.view.nodes@, self.source_base.0, self.source_end.0, self.view.nodes@.len() as int)
            == Some(self.source_end.0)
    }

    /// Validates snapshot ordering, provenance invariants, and source contiguity.
    pub fn validate(&self) -> (r: bool)
        ensures
            r == self.spec_valid(),
    {
        if self.source_base.0 > self.stable_through.0 || self.stable_through.0 > self.source_end.0 {
            return false;
        }
        let ghost nodes = self.view.nodes@;
        let mut expected = self.source_base;
        let mut index: usize = 0;
        while index < self.view.nodes.len()
            invariant
                nodes == self.view.nodes@,
                0 <= index <= nodes.len(),
                nodes_scan(nodes, self.source_base.0, self.source_end.0, index as int) == Some(expected.0),
            decreases nodes.len() - index,
        {
            let node = &self.view.nodes[index];
            let owned = node.owned_range();
            // Contiguity: each node must start exactly where the previous one ended.
            if owned.start.0 != expected.0 {
                proof {
                    lemma_nodes_scan_none_persists(nodes, self.source_base.0, self.source_end.0, index + 1, nodes.len() as int);
                }
                return false;
            }
            if owned.end.0 > self.source_end.0 {
                proof {
                    lemma_nodes_scan_none_persists(nodes, self.source_base.0, self.source_end.0, index + 1, nodes.len() as int);
                }
                return false;
            }
            match node {
                StreamNode::Text(text) => {
                    if !validate_projected_text(text) {
                        proof {
                            lemma_nodes_scan_none_persists(nodes, self.source_base.0, self.source_end.0, index + 1, nodes.len() as int);
                        }
                        return false;
                    }
                },
                StreamNode::Atomic { .. } => {},
            }
            expected = owned.end;
            index += 1;
        }
        // All source must be covered by nodes (no trailing uncovered source).
        expected.0 == self.source_end.0
    }
}

proof fn lemma_nodes_scan_none_persists(nodes: Seq<StreamNode>, base: u64, end: u64, n: int, m: int)
    requires
        n <= m,
        nodes_scan(nodes, base, end, n) is None,
    ensures
        nodes_scan(nodes, base, end, m) is None,
    decreases m - n,
{
    if n < m {
        lemma_nodes_scan_none_persists(nodes, base, end, n, m - 1);
    }
}

/// A valid snapshot's nodes follow one another without gaps from the source
/// base to the source end.
pub proof fn lemma_valid_snapshot_nodes_contiguous(snapshot: StreamSnapshot)
    requires
        snapshot.spec_valid(),
    ensures
        ({
            let nodes = snapshot.view.nodes@;
            &&& nodes.len() == 0 ==> snapshot.source_base == snapshot.source_end
            &&& nodes.len() > 0 ==> nodes[0].spec_owned_range().start == snapshot.source_base
                && nodes.last().spec_owned_range().end == snapshot.source_end
            &&& forall|i: int| 0 <= i < nodes.len() - 1 ==> (#[trigger] nodes[i]).spec_owned_range().end
                == nodes[i + 1].spec_owned_range().start
            &&& forall|i: int| 0 <= i < nodes.len() ==> (#[trigger] nodes[i]).spec_owned_range().end.0
                <= snapshot.source_end.0
        }),
{
    lemma_nodes_scan_shape(
        snapshot.view.nodes@,
        snapshot.source_base.0,
        snapshot.source_end.0,
        snapshot.view.nodes@.len() as int,
    );
}

proof fn lemma_nodes_scan_shape(nodes: Seq<StreamNode>, base: u64, end: u64, n: int)
    requires
        0 <= n <= nodes.len(),
        nodes_scan(nodes, base, end, n) is Some,
    ensures
        n == 0 ==> nodes_scan(nodes, base, end, n) == Some(base),
        n > 0 ==> nodes[0].spec_owned_range().start.0 == base && nodes_scan(nodes, base, end, n) == Some(
            nodes[n - 1].spec_owned_range().end.0,
        ),
        forall|i: int| 0 <= i < n - 1 ==> (#[trigger] nodes[i]).spec_owned_range().end == nodes[i
            + 1].spec_owned_range().start,
        forall|i: int| 0 <= i < n ==> (#[trigger] nodes[i]).spec_owned_range().end.0 <= end,
    decreases n,
{
    if n > 0 {
        lemma_nodes_scan_shape(nodes, base, end, n - 1);
    }
}

/// Returns the offset through which append-only text is stable.
///
/// When sealed, the entire text is stable. When open, the trailing extended
/// grapheme cluster is held back so that partial UTF-8 or combining sequences
/// are never committed before completion.
pub fn append_only_text_stable_frontier(source: &str, base: StreamOffset, sealed: bool) -> (r: StreamOffset)
    requires
        encode_utf8(source@).len() <= usize::MAX,
    ensures
        r.0 == sat_add(
            base.0,
            if sealed || source@.len() == 0 {
                byte_len(source@) as int
            } else {
                byte_len(source@) - byte_len(spec_graphemes(source@).last())
            },
        ),
{
    if sealed || source.is_empty() {
        return base.saturating_add(source.len() as u64);
    }
    let pieces = graphemes(source);
    proof {
        if pieces@.len() == 0 {
            assert(string_views(pieces@) =~= Seq::<Seq<char>>::empty());
        }
    }
    let last = &pieces[pieces.len() - 1];
    proof {
        let views = string_views(pieces@);
        assert(views.last() == last@);
        assert(concat_all(views) == concat_all(views.drop_last()) + views.last());
        lemma_encode_concat(concat_all(views.drop_last()), views.last());
    }
    let last_offset = source.len() - last.as_str().len();
    base.saturating_add(last_offset as u64)
}

impl Clone for ProjectedTextRun {
    fn clone(&self) -> (r: Self)
        ensures
            r == *self,
    {
        ProjectedTextRun {
            display: self.display.clone(),
            style: self.style.duplicate(),
            owned: self.owned,
            exact_visible: self.exact_visible,
        }
    }
}

impl Clone for ProjectedTextLayout {
    fn clone(&self) -> (r: Self)
        ensures
            r == *self,
    {
        match self {
            ProjectedTextLayout::Plain => ProjectedTextLayout::Plain,
            ProjectedTextLayout::Hanging { body_column, prefix, prefix_style, prefix_source, show_prefix } => {
                ProjectedTextLayout::Hanging {
                    body_column: *body_column,
                    prefix: prefix.clone(),
                    prefix_style: prefix_style.duplicate(),
                    prefix_source: *prefix_source,
                    show_prefix: *show_prefix,
                }
            },
        }
    }
}

/// Two projected texts with the same fields and runs of the same content.
pub open spec fn same_text(a: ProjectedText, b: ProjectedText) -> bool {
    &&& a.content_range == b.content_range
    &&& a.terminator == b.terminator
    &&& a.width == b.width
    &&& a.wrap == b.wrap
    &&& a.align == b.align
    &&& a.layout == b.layout
    &&& run_models(a.runs@) == run_models(b.runs@)
}

/// Two stream nodes with the same content.
pub open spec fn same_node(a: StreamNode, b: StreamNode) -> bool {
    match a {
        StreamNode::Text(x) => b matches StreamNode::Text(y) && same_text(x, y),
        StreamNode::Atomic { range, view } => b matches StreamNode::Atomic { range: r, view: v } && r == range
            && same_view(v, view),
    }
}

impl Clone for ProjectedText {
    fn clone(&self) -> (r: Self)
        ensures
            same_text(*self, r),
    {
        self.duplicate()
    }
}

impl ProjectedText {
    /// A copy with the same fields and runs of the same content.
    pub fn duplicate(&self) -> (r: Self)
        ensures
            same_text(*self, r),
    {
        let mut runs: Vec<ProjectedTextRun> = Vec::new();
        let mut index: usize = 0;
        while index < self.runs.len()
            invariant
                0 <= index <= self.runs@.len(),
                runs@ == self.runs@.take(index as int),
            decreases self.runs@.len() - index,
        {
            runs.push(self.runs[index].clone());
            index += 1;
            proof {
                assert(runs@ =~= self.runs@.take(index as int));
            }
        }
        proof {
            assert(self.runs@.take(index as int) =~= self.runs@);
        }
        ProjectedText {
            content_range: self.content_range,
            terminator: self.terminator,
            width: self.width,
            wrap: self.wrap,
            align: self.align,
            layout: self.layout.clone(),
            runs,
        }
    }
}

impl Clone for StreamNode {
    fn clone(&self) -> (r: Self)
        ensures
            same_node(*self, r),
    {
        match self {
            StreamNode::Text(text) => StreamNode::Text(text.duplicate()),
            StreamNode::Atomic { range, view } => StreamNode::Atomic { range: *range, view: view.clone() },
        }
    }
}

impl Clone for StreamView {
    fn clone(&self) -> (r: Self)
        ensures
            r.nodes@.len() == self.nodes@.len(),
            forall|i: int| 0 <= i < self.nodes@.len() ==> same_node(#[trigger] self.nodes@[i], r.nodes@[i]),
    {
        let mut nodes: Vec<StreamNode> = Vec::new();
        let mut index: usize = 0;
        while index < self.nodes.len()
            invariant
                0 <= index <= self.nodes@.len(),
                nodes@.len() == index,
                forall|i: int| 0 <= i < index ==> same_node(#[trigger] self.nodes@[i], nodes@[i]),
            decreases self.nodes@.len() - index,
        {
            nodes.push(self.nodes[index].clone());
            index += 1;
        }
        StreamView { nodes }
    }
}

/// Whether byte `b` of the UTF-8 encoding of `s` starts one of its extended
/// grapheme clusters.
pub open spec fn starts_grapheme(s: Seq<char>, b: int) -> bool {
    exists|j: int| 0 <= j < spec_graphemes(s).len() && cluster_start(spec_graphemes(s), j) == b
}

/// The characters of `s` after its first `b` UTF-8 bytes, for a `b` that
/// falls between characters.
pub open spec fn after_bytes(s: Seq<char>, b: int) -> Seq<char> {
    s.skip(choose|k: int| 0 <= k <= s.len() && encode_utf8(s.take(k)).len() == b)
}

/// A run can be cut at `offset` when it does not straddle it, or when it
/// shows its source exactly there and the offset starts one of its grapheme
/// clusters.
pub open spec fn cuttable_run(run: RunModel, offset: u64) -> bool {
    run.owned.start.0 < offset < run.owned.end.0 ==> (run.visible matches Some(v) && v.start.0 <= offset <= v.end.0
        && starts_grapheme(run.display, offset - v.start.0))
}

/// The part of a straddling run from `offset` on.
pub open spec fn cut_run(run: RunModel, offset: u64) -> RunModel {
    let v = run.visible.unwrap();
    RunModel {
        display: after_bytes(run.display, offset - v.start.0),
        style: run.style,
        owned: StreamRange { start: StreamOffset(offset), end: run.owned.end },
        visible: Some(StreamRange { start: StreamOffset(offset), end: v.end }),
    }
}

/// The runs from `offset` on: runs that end by it are dropped, runs that
/// start at or after it are kept, and a straddling run is cut.
pub open spec fn runs_from(runs: Seq<RunModel>, offset: u64) -> Seq<RunModel>
    decreases runs.len(),
{
    if runs.len() == 0 {
        Seq::empty()
    } else {
        let rest = runs_from(runs.drop_last(), offset);
        let run = runs.last();
        if run.owned.end.0 <= offset {
            rest
        } else if run.owned.start.0 >= offset {
            rest.push(run)
        } else {
            rest.push(cut_run(run, offset))
        }
    }
}

/// A hanging prefix is shown only while its source lies at or after `offset`.
pub open spec fn layout_from(layout: ProjectedTextLayout, offset: u64) -> ProjectedTextLayout {
    match layout {
        ProjectedTextLayout::Plain => ProjectedTextLayout::Plain,
        ProjectedTextLayout::Hanging { body_column, prefix, prefix_style, prefix_source, .. } => {
            ProjectedTextLayout::Hanging {
                body_column,
                prefix,
                prefix_style,
                prefix_source,
                show_prefix: offset <= prefix_source.start.0,
            }
        },
    }
}

/// `text` can be cut at `offset`: strictly inside its owned source, not
/// inside its terminator, and at a point every run can be cut.
pub open spec fn can_slice(text: ProjectedText, offset: u64) -> bool {
    &&& text.content_range.start.0 < offset
    &&& offset < text.spec_owned_range().end.0
    &&& offset <= text.content_range.end.0
    &&& forall|i: int| 0 <= i < text.runs@.len() ==> cuttable_run(run_model(#[trigger] text.runs@[i]), offset)
}

/// Concatenating a prefix and the rest of a sequence of parts.
proof fn lemma_concat_all_split(parts: Seq<Seq<char>>, j: int)
    requires
        0 <= j <= parts.len(),
    ensures
        concat_all(parts) == concat_all(parts.take(j)) + concat_all(parts.skip(j)),
    decreases parts.len(),
{
    if j == parts.len() {
        assert(parts.take(j) =~= parts);
        assert(parts.skip(j) =~= Seq::<Seq<char>>::empty());
        assert(concat_all(parts) + Seq::<char>::empty() =~= concat_all(parts));
    } else {
        lemma_concat_all_split(parts.drop_last(), j);
        assert(parts.drop_last().take(j) =~= parts.take(j));
        assert(parts.skip(j).drop_last() =~= parts.drop_last().skip(j));
        assert(parts.skip(j).last() == parts.last());
        assert(concat_all(parts) =~= concat_all(parts.take(j)) + concat_all(parts.skip(j)));
    }
}

/// Longer character prefixes have longer encodings.
pub(crate) proof fn lemma_encode_prefix_grows(s: Seq<char>, i: int, k: int)
    requires
        0 <= i < k <= s.len(),
    ensures
        encode_utf8(s.take(i)).len() < encode_utf8(s.take(k)).len(),
{
    assert(s.take(k) =~= s.take(i) + s.subrange(i, k));
    lemma_encode_concat(s.take(i), s.subrange(i, k));
    lemma_encode_nonempty(s.subrange(i, k));
}

/// The characters of `display` after byte `relative`, which starts one of
/// its grapheme clusters.
fn display_after(display: &String, relative: u64) -> (r: String)
    requires
        starts_grapheme(display@, relative as int),
    ensures
        r@ == after_bytes(display@, relative as int),
{
    let clusters = graphemes(display.as_str());
    let characters = chars_of(display.as_str());
    let ghost s = display@;
    let ghost parts = spec_graphemes(s);
    let ghost j = choose|j: int| 0 <= j < parts.len() && cluster_start(parts, j) == relative;
    let ghost k0 = concat_all(parts.take(j)).len() as int;
    proof {
        lemma_concat_all_split(parts, j);
        assert(s.take(k0) =~= concat_all(parts.take(j)));
        assert(encode_utf8(s.take(k0)).len() == relative);
    }
    let mut consumed: u64 = 0;
    let mut index: usize = 0;
    while consumed < relative && index < characters.len()
        invariant
            characters@ == s,
            0 <= index <= k0 <= s.len(),
            encode_utf8(s.take(k0)).len() == relative,
            consumed == encode_utf8(s.take(index as int)).len(),
        decreases k0 - index,
    {
        proof {
            if index == k0 {
                assert(false);
            }
            lemma_encode_prefix_grows(s, index as int, k0);
            lemma_encode_prefix_grows(s, index as int, index + 1);
            if index + 1 < k0 {
                lemma_encode_prefix_grows(s, index + 1, k0);
            }
            assert(s.take(index + 1) =~= s.take(index as int) + seq![s[index as int]]);
            lemma_encode_concat(s.take(index as int), seq![s[index as int]]);
        }
        let width = char_len_utf8(characters[index]);
        consumed = consumed + width as u64;
        index += 1;
    }
    proof {
        if index < k0 {
            lemma_encode_prefix_grows(s, index as int, k0);
        }
        assert(index == k0);
        let k = choose|k: int| 0 <= k <= s.len() && encode_utf8(s.take(k)).len() == relative;
        if k < k0 {
            lemma_encode_prefix_grows(s, k, k0);
        } else if k > k0 {
            lemma_encode_prefix_grows(s, k0, k);
        }
        assert(s.subrange(index as int, s.len() as int) =~= s.skip(index as int));
    }
    string_of(&characters, index, characters.len())
}

/// `out` is `text` from source `offset` on: the content range starts at the
/// offset, the runs are cut there, and a hanging prefix whose source lies
/// before the offset is hidden.
pub open spec fn sliced_text(text: ProjectedText, offset: u64, out: ProjectedText) -> bool {
    &&& out.content_range == (StreamRange { start: StreamOffset(offset), end: text.content_range.end })
    &&& out.terminator == text.terminator
    &&& out.width == text.width
    &&& out.wrap == text.wrap
    &&& out.align == text.align
    &&& out.layout == layout_from(text.layout, offset)
    &&& run_models(out.runs@) == runs_from(run_models(text.runs@), offset)
}

/// The projected text from source `offset` on.
pub fn slice_projected_text(text: &ProjectedText, offset: StreamOffset) -> (r: ProjectedText)
    requires
        can_slice(*text, offset.0),
    ensures
        sliced_text(*text, offset.0, r),
{
    let mut runs: Vec<ProjectedTextRun> = Vec::new();
    let mut index: usize = 0;
    while index < text.runs.len()
        invariant
            0 <= index <= text.runs@.len(),
            can_slice(*text, offset.0),
            run_models(runs@) == runs_from(run_models(text.runs@.take(index as int)), offset.0),
        decreases text.runs@.len() - index,
    {
        let run = &text.runs[index];
        let ghost before = run_models(runs@);
        proof {
            assert(run_models(text.runs@.take(index + 1)).drop_last() =~= run_models(text.runs@.take(index as int)));
            assert(run_models(text.runs@.take(index + 1)).last() == run_model(text.runs@[index as int]));
        }
        if run.owned.end.0 <= offset.0 {
        } else if run.owned.start.0 >= offset.0 {
            runs.push(run.clone());
            proof {
                assert(run_models(runs@) =~= before.push(run_model(*run)));
            }
        } else {
            proof {
                assert(cuttable_run(run_model(text.runs@[index as int]), offset.0));
            }
            let visible = match run.exact_visible {
                Some(v) => v,
                None => {
                    proof {
                        assert(false);
                    }
                    StreamRange::new(offset, offset)
                },
            };
            let relative = offset.0 - visible.start.0;
            let display = display_after(&run.display, relative);
            runs.push(
                ProjectedTextRun {
                    display,
                    style: run.style.duplicate(),
                    owned: StreamRange::new(offset, run.owned.end),
                    exact_visible: Some(StreamRange::new(offset, visible.end)),
                },
            );
            proof {
                assert(run_models(runs@) =~= before.push(cut_run(run_model(*run), offset.0)));
            }
        }
        index += 1;
    }
    proof {
        assert(text.runs@.take(index as int) =~= text.runs@);
    }
    let layout = match &text.layout {
        ProjectedTextLayout::Plain => ProjectedTextLayout::Plain,
        ProjectedTextLayout::Hanging { body_column, prefix, prefix_style, prefix_source, .. } => {
            ProjectedTextLayout::Hanging {
                body_column: *body_column,
                prefix: prefix.clone(),
                prefix_style: prefix_style.duplicate(),
                prefix_source: *prefix_source,
                show_prefix: offset.0 <= prefix_source.start.0,
            }
        },
    };
    ProjectedText {
        content_range: StreamRange::new(offset, text.content_range.end),
        terminator: text.terminator,
        width: text.width,
        wrap: text.wrap,
        align: text.align,
        layout,
        runs,
    }
}

/// `out` holds the nodes of `nodes` from source `offset` on, in order: nodes
/// that end by the offset are dropped, nodes that start at or after it are
/// copied, and projected text that straddles it is cut.
pub open spec fn suffix_nodes(nodes: Seq<StreamNode>, offset: u64, out: Seq<StreamNode>) -> bool
    decreases nodes.len(),
{
    if nodes.len() == 0 {
        out.len() == 0
    } else {
        let node = nodes.last();
        let range = node.spec_owned_range();
        if range.end.0 <= offset {
            suffix_nodes(nodes.drop_last(), offset, out)
        } else {
            &&& out.len() > 0
            &&& suffix_nodes(nodes.drop_last(), offset, out.drop_last())
            &&& if range.start.0 >= offset {
                same_node(node, out.last())
            } else {
                node matches StreamNode::Text(text) && out.last() matches StreamNode::Text(cut) && sliced_text(
                    text,
                    offset,
                    cut,
                )
            }
        }
    }
}

/// Every node that straddles `offset` is projected text that can be cut
/// there; an atomic node is indivisible.
pub open spec fn can_suffix(nodes: Seq<StreamNode>, offset: u64) -> bool {
    forall|i: int|
        0 <= i < nodes.len() && (#[trigger] nodes[i]).spec_owned_range().start.0 < offset
            < nodes[i].spec_owned_range().end.0 ==> (nodes[i] matches StreamNode::Text(text) && can_slice(
            text,
            offset,
        ))
}

impl StreamView {
    /// The stream from source `offset` on.
    pub fn suffix_from(&self, offset: StreamOffset) -> (r: Self)
        requires
            can_suffix(self.nodes@, offset.0),
        ensures
            suffix_nodes(self.nodes@, offset.0, r.nodes@),
    {
        let mut nodes: Vec<StreamNode> = Vec::new();
        let mut index: usize = 0;
        while index < self.nodes.len()
            invariant
                0 <= index <= self.nodes@.len(),
                can_suffix(self.nodes@, offset.0),
                suffix_nodes(self.nodes@.take(index as int), offset.0, nodes@),
            decreases self.nodes@.len() - index,
        {
            let node = &self.nodes[index];
            let ghost before = nodes@;
            proof {
                assert(self.nodes@.take(index + 1).drop_last() =~= self.nodes@.take(index as int));
                assert(self.nodes@.take(index + 1).last() == self.nodes@[index as int]);
            }
            let range = node.owned_range();
            if range.end.0 <= offset.0 {
            } else if range.start.0 >= offset.0 {
                nodes.push(node.clone());
                proof {
                    assert(nodes@.drop_last() =~= before);
                }
            } else {
                match node {
                    StreamNode::Text(text) => {
                        nodes.push(StreamNode::Text(slice_projected_text(text, offset)));
                        proof {
                            assert(nodes@.drop_last() =~= before);
                        }
                    },
                    StreamNode::Atomic { .. } => {
                        proof {
                            assert(false);
                        }
                    },
                }
            }
            index += 1;
        }
        proof {
            assert(self.nodes@.take(index as int) =~= self.nodes@);
        }
        StreamView { nodes }
    }
}

} // verus!
