//! Compilation of projected stream text into physical rows.
//!
//! Adjacent exact runs are tokenized as one visible string, so that an
//! extended grapheme cluster is never split merely because style or
//! provenance changes at a run boundary; replacement runs stay indivisible.

use crate::physical::{merged, push_merged, span_views, PhysicalLine, PhysicalSpan, PhysicalStyle};
use crate::stream::{
    byte_len, lemma_encode_concat, ProjectedText, ProjectedTextRun, RunModel, StreamOffset, StreamRange,
    runs_scan, run_models, runs_start, projected_text_valid,
};
use crate::theme::{Theme, ThemeResolver};
use crate::unicode::{concat_all, graphemes, spec_graphemes, spec_str_width, str_width, string_views};
use crate::text_flow::{flow_width, widest, widest_line};
use crate::view::{TextSpan, TextView, WidthRule, WrapMode};
use crate::stream::ProjectedTextLayout;
use crate::wrap::{
    graphemes_sized, hard_line_fragments, spans_bytes, split_spans, styled_hard_lines, tokenized,
    all_rows, cluster_start, graphemes_text, join_rows, lemma_cluster_bounds, lemma_wrapping_preserves_content,
    line_rows, lines_fit, row_fits, widths_sum, wrap_styled_lines, StyledGrapheme, WrappedLine,
};
use core::ops::Range;
use vstd::prelude::*;
use vstd::utf8::encode_utf8;

verus! {

/// An exact run gathered for tokenizing: where its display lies in the
/// joined display bytes, its resolved style, and the source it owns and shows.
#[derive(Clone, Copy)]
pub struct ProjectedExactFragment {
    pub display_start: usize,
    pub display_end: usize,
    pub style: PhysicalStyle,
    pub owned: StreamRange,
    pub visible: StreamRange,
}

/// A grapheme as plain values.
pub struct GraphemeModel {
    pub text: Seq<char>,
    pub width: nat,
    pub style: PhysicalStyle,
    pub source: Option<Range<usize>>,
}

pub open spec fn grapheme_model(g: StyledGrapheme) -> GraphemeModel {
    GraphemeModel { text: g.text@, width: g.width as nat, style: g.style, source: g.source }
}

/// The graphemes of each line as plain values.
pub open spec fn line_models(lines: Seq<Vec<StyledGrapheme>>) -> Seq<Seq<GraphemeModel>> {
    lines.map_values(|line: Vec<StyledGrapheme>| line@.map_values(|g: StyledGrapheme| grapheme_model(g)))
}

/// Lines whose graphemes all come from source ending at most `limit`.
pub open spec fn sources_within(lines: Seq<Vec<StyledGrapheme>>, limit: int) -> bool {
    forall|i: int, j: int|
        0 <= i < lines.len() && 0 <= j < lines[i]@.len() ==> ((#[trigger] lines[i]@[j]).source matches Some(r)
            && r.end <= limit)
}

/// Lines whose graphemes all have text, of no more bytes than the machine's
/// sizes hold.
pub open spec fn texts_sized(lines: Seq<Vec<StyledGrapheme>>) -> bool {
    forall|i: int, j: int|
        0 <= i < lines.len() && 0 <= j < lines[i]@.len() ==> (#[trigger] lines[i]@[j]).text@.len() > 0
            && encode_utf8(lines[i]@[j].text@).len() <= usize::MAX
}

/// Fragments that cover `[0, total)` one after another, none empty.
pub open spec fn tiles(frags: Seq<ProjectedExactFragment>, total: int) -> bool {
    &&& frags.len() == 0 ==> total == 0
    &&& frags.len() > 0 ==> frags[0].display_start == 0 && frags.last().display_end == total
    &&& forall|k: int| 0 <= k < frags.len() ==> (#[trigger] frags[k]).display_start < frags[k].display_end
    &&& forall|k: int|
        0 <= k < frags.len() - 1 ==> (#[trigger] frags[k]).display_end == frags[k + 1].display_start
}

/// A fragment whose shown source lies in its owned source, which lies in
/// `[content_start, content_end)`, and whose display has as many bytes as
/// the source it shows.
pub open spec fn fragment_in(frag: ProjectedExactFragment, content_start: u64, content_end: u64) -> bool {
    &&& content_start <= frag.owned.start.0 <= frag.visible.start.0 <= frag.visible.end.0 <= frag.owned.end.0
        <= content_end
    &&& frag.display_end - frag.display_start == frag.visible.end.0 - frag.visible.start.0
}

/// The first fragment, from `k` on, that shares a byte with `[start, end)`.
pub open spec fn first_overlap(frags: Seq<ProjectedExactFragment>, start: int, end: int, k: int) -> int
    decreases frags.len() - k,
{
    if k < 0 || k >= frags.len() {
        frags.len() as int
    } else if start < frags[k].display_end && end > frags[k].display_start {
        k
    } else {
        first_overlap(frags, start, end, k + 1)
    }
}

/// The last of the first `k` fragments that starts before `end`; `-1` when
/// none does.
pub open spec fn last_starting_before(frags: Seq<ProjectedExactFragment>, end: int, k: int) -> int
    decreases k,
{
    if k <= 0 {
        -1
    } else if frags[k - 1].display_start < end {
        k - 1
    } else {
        last_starting_before(frags, end, k - 1)
    }
}

/// The grapheme for `cluster`, which starts at byte `start` of the joined
/// display: the width of its text and the style of the fragment holding its
/// first byte. Its source starts where that fragment's owned source starts
/// when the cluster begins the fragment, else at the matching shown byte;
/// it ends where the fragment holding its last byte ends its owned source
/// when the cluster ends that fragment, else at the matching shown byte.
/// Offsets are taken from `content_start`.
pub open spec fn mapped_cluster(
    cluster: Seq<char>,
    start: int,
    frags: Seq<ProjectedExactFragment>,
    content_start: u64,
) -> GraphemeModel {
    let end = start + encode_utf8(cluster).len();
    let first = frags[first_overlap(frags, start, end, 0)];
    let last = frags[last_starting_before(frags, end, frags.len() as int)];
    let source_start = if start == first.display_start {
        first.owned.start.0 as int
    } else {
        first.visible.start.0 + (start - first.display_start)
    };
    let source_end = if end == last.display_end {
        last.owned.end.0 as int
    } else {
        last.visible.start.0 + (end - last.display_start)
    };
    GraphemeModel {
        text: cluster,
        width: spec_str_width(cluster),
        style: first.style,
        source: Some(
            Range { start: (source_start - content_start) as usize, end: (source_end - content_start) as usize },
        ),
    }
}

/// `lines` with one more grapheme: a newline cluster opens a new line, any
/// other joins the last line.
pub open spec fn with_grapheme(lines: Seq<Seq<GraphemeModel>>, g: GraphemeModel) -> Seq<Seq<GraphemeModel>> {
    if g.text == seq!['\n'] {
        lines.push(Seq::empty())
    } else {
        lines.update(lines.len() - 1, lines.last().push(g))
    }
}

/// `lines` after the first `n` clusters of `display`.
pub open spec fn exact_lines(
    lines: Seq<Seq<GraphemeModel>>,
    display: Seq<char>,
    frags: Seq<ProjectedExactFragment>,
    content_start: u64,
    n: int,
) -> Seq<Seq<GraphemeModel>>
    decreases n,
{
    if n <= 0 {
        lines
    } else {
        let clusters = spec_graphemes(display);
        with_grapheme(
            exact_lines(lines, display, frags, content_start, n - 1),
            mapped_cluster(clusters[n - 1], cluster_start(clusters, n - 1), frags, content_start),
        )
    }
}

/// `lines` after every cluster of the gathered exact display.
pub open spec fn flushed(
    lines: Seq<Seq<GraphemeModel>>,
    display: Seq<char>,
    frags: Seq<ProjectedExactFragment>,
    content_start: u64,
) -> Seq<Seq<GraphemeModel>> {
    exact_lines(lines, display, frags, content_start, spec_graphemes(display).len() as int)
}

/// The tokenizer's state between runs: the lines so far, and the exact
/// display and fragments gathered since the last flush.
pub struct ExactState {
    pub lines: Seq<Seq<GraphemeModel>>,
    pub display: Seq<char>,
    pub frags: Seq<ProjectedExactFragment>,
}

/// The state after one run. An empty run changes nothing. A replacement run
/// flushes the gathered exact text, then stands as one grapheme owning its
/// whole source. An exact run is gathered.
pub open spec fn run_state(
    theme: ThemeResolver,
    inherited: PhysicalStyle,
    content_start: u64,
    state: ExactState,
    run: ProjectedTextRun,
) -> ExactState {
    if run.display@.len() == 0 {
        state
    } else {
        let style = theme.spec_apply_style(inherited, run.style);
        match run.exact_visible {
            None => {
                let lines = flushed(state.lines, state.display, state.frags, content_start);
                let atom = GraphemeModel {
                    text: run.display@,
                    width: spec_str_width(run.display@),
                    style,
                    source: Some(
                        Range {
                            start: (run.owned.start.0 - content_start) as usize,
                            end: (run.owned.end.0 - content_start) as usize,
                        },
                    ),
                };
                ExactState {
                    lines: lines.update(lines.len() - 1, lines.last().push(atom)),
                    display: Seq::empty(),
                    frags: Seq::empty(),
                }
            },
            Some(visible) => ExactState {
                lines: state.lines,
                display: state.display + run.display@,
                frags: state.frags.push(
                    ProjectedExactFragment {
                        display_start: encode_utf8(state.display).len() as usize,
                        display_end: encode_utf8(state.display + run.display@).len() as usize,
                        style,
                        owned: run.owned,
                        visible,
                    },
                ),
            },
        }
    }
}

/// The state after the first `n` runs.
pub open spec fn runs_state(
    theme: ThemeResolver,
    inherited: PhysicalStyle,
    content_start: u64,
    runs: Seq<ProjectedTextRun>,
    n: int,
) -> ExactState
    decreases n,
{
    if n <= 0 {
        ExactState { lines: seq![Seq::empty()], display: Seq::empty(), frags: Seq::empty() }
    } else {
        run_state(theme, inherited, content_start, runs_state(theme, inherited, content_start, runs, n - 1), runs[n - 1])
    }
}

/// The hard lines of projected text: its runs tokenized, styled over
/// `inherited`, with sources relative to the start of its content.
pub open spec fn projected_lines(theme: ThemeResolver, text: ProjectedText, inherited: PhysicalStyle) -> Seq<
    Seq<GraphemeModel>,
> {
    let cs = text.content_range.start.0;
    let state = runs_state(theme, inherited, cs, text.runs@, text.runs@.len() as int);
    flushed(state.lines, state.display, state.frags, cs)
}

/// Projected text that can be compiled: valid, its runs starting inside its
/// content, and its content no longer than the machine's offsets.
pub open spec fn compilable(text: ProjectedText) -> bool {
    &&& projected_text_valid(text)
    &&& runs_start(text) matches Some(start) && start >= text.content_range.start.0
    &&& text.content_range.end.0 - text.content_range.start.0 <= usize::MAX
}

proof fn lemma_first_overlap(frags: Seq<ProjectedExactFragment>, total: int, s: int, e: int, k: int)
    requires
        tiles(frags, total),
        0 <= s < e <= total,
        0 <= k < frags.len(),
        frags[k].display_start <= s,
    ensures
        k <= first_overlap(frags, s, e, k) < frags.len(),
        frags[first_overlap(frags, s, e, k)].display_start <= s < frags[first_overlap(frags, s, e, k)].display_end,
    decreases frags.len() - k,
{
    if s < frags[k].display_end {
    } else {
        if k == frags.len() - 1 {
            assert(frags.last().display_end == total);
        }
        assert(frags[k].display_end == frags[k + 1].display_start);
        lemma_first_overlap(frags, total, s, e, k + 1);
    }
}

proof fn lemma_last_starting_before(frags: Seq<ProjectedExactFragment>, total: int, e: int, k: int)
    requires
        tiles(frags, total),
        0 < e <= total,
        0 < k <= frags.len(),
        k < frags.len() ==> frags[k].display_start >= e,
    ensures
        0 <= last_starting_before(frags, e, k) < k,
        frags[last_starting_before(frags, e, k)].display_start < e <= frags[last_starting_before(
            frags,
            e,
            k,
        )].display_end,
    decreases k,
{
    if frags[k - 1].display_start < e {
        if k < frags.len() {
            assert(frags[k - 1].display_end == frags[k].display_start);
        } else {
            assert(frags.last().display_end == total);
        }
    } else {
        if k - 1 == 0 {
            assert(frags[0].display_start == 0);
        }
        lemma_last_starting_before(frags, total, e, k - 1);
    }
}

proof fn lemma_first_overlap_at_least(frags: Seq<ProjectedExactFragment>, s: int, e: int, k: int)
    requires
        0 <= k <= frags.len(),
    ensures
        k <= first_overlap(frags, s, e, k) <= frags.len(),
    decreases frags.len() - k,
{
    if k < frags.len() {
        lemma_first_overlap_at_least(frags, s, e, k + 1);
    }
}

proof fn lemma_last_starting_below(frags: Seq<ProjectedExactFragment>, e: int, k: int)
    requires
        0 <= k,
    ensures
        -1 <= last_starting_before(frags, e, k) < k,
    decreases k,
{
    if k > 0 {
        lemma_last_starting_below(frags, e, k - 1);
    }
}

/// The first fragment that shares a byte with `[s, e)`.
fn find_first(fragments: &Vec<ProjectedExactFragment>, s: usize, e: usize, Ghost(total): Ghost<int>) -> (f: usize)
    requires
        tiles(fragments@, total),
        0 <= s < e <= total,
    ensures
        f == first_overlap(fragments@, s as int, e as int, 0),
        f < fragments@.len(),
        fragments@[f as int].display_start <= s < fragments@[f as int].display_end,
{
    let ghost frags = fragments@;
    proof {
        lemma_first_overlap(frags, total, s as int, e as int, 0);
    }
    let count = fragments.len();
    let mut f: usize = 0;
    while !(s < fragments[f].display_end && e > fragments[f].display_start)
        invariant
            count == frags.len(),
            0 <= f <= first_overlap(frags, s as int, e as int, 0),
            first_overlap(frags, s as int, e as int, 0) < frags.len(),
            frags == fragments@,
            first_overlap(frags, s as int, e as int, f as int) == first_overlap(frags, s as int, e as int, 0),
        decreases first_overlap(frags, s as int, e as int, 0) - f,
    {
        assert(first_overlap(frags, s as int, e as int, f as int) == first_overlap(frags, s as int, e as int, f + 1));
        proof {
            lemma_first_overlap_at_least(frags, s as int, e as int, f + 1);
        }
        f = f + 1;
    }
    f
}

/// The last fragment that starts before byte `e`.
fn find_last(fragments: &Vec<ProjectedExactFragment>, e: usize, Ghost(total): Ghost<int>) -> (l: usize)
    requires
        tiles(fragments@, total),
        0 < e <= total,
    ensures
        l == last_starting_before(fragments@, e as int, fragments@.len() as int),
        l < fragments@.len(),
        fragments@[l as int].display_start < e <= fragments@[l as int].display_end,
{
    let ghost frags = fragments@;
    proof {
        lemma_last_starting_before(frags, total, e as int, frags.len() as int);
    }
    let mut l: usize = fragments.len();
    while !(fragments[l - 1].display_start < e)
        invariant
            0 <= last_starting_before(frags, e as int, frags.len() as int) < l <= frags.len(),
            frags == fragments@,
            last_starting_before(frags, e as int, l as int) == last_starting_before(frags, e as int, frags.len() as int),
        decreases l,
    {
        proof {
            lemma_last_starting_below(frags, e as int, l - 1);
        }
        l = l - 1;
    }
    l - 1
}

/// The grapheme for the cluster `grapheme` at byte `s` of the joined display;
/// see [`mapped_cluster`].
fn map_cluster(
    grapheme: &String,
    s: usize,
    fragments: &Vec<ProjectedExactFragment>,
    content_start: StreamOffset,
    Ghost(content_end): Ghost<u64>,
    Ghost(total): Ghost<int>,
) -> (r: StyledGrapheme)
    requires
        tiles(fragments@, total),
        grapheme@.len() > 0,
        s + encode_utf8(grapheme@).len() <= total,
        forall|k: int| 0 <= k < fragments@.len() ==> fragment_in(#[trigger] fragments@[k], content_start.0, content_end),
        content_end - content_start.0 <= usize::MAX,
    ensures
        grapheme_model(r) == mapped_cluster(grapheme@, s as int, fragments@, content_start.0),
        r.text@ == grapheme@,
        r.source matches Some(range) && range.end <= content_end - content_start.0,
{
    proof {
        crate::stream::lemma_encode_nonempty(grapheme@);
    }
    let e = s + grapheme.as_str().len();
    let f = find_first(fragments, s, e, Ghost(total));
    let l = find_last(fragments, e, Ghost(total));
    let first = fragments[f];
    let last = fragments[l];
    proof {
        assert(fragment_in(fragments@[f as int], content_start.0, content_end));
        assert(fragment_in(fragments@[l as int], content_start.0, content_end));
    }
    let first_offset = s - first.display_start;
    let source_start = if first_offset == 0 {
        first.owned.start
    } else {
        first.visible.start.saturating_add(first_offset as u64)
    };
    let last_offset_end = e - last.display_start;
    let last_display_len = last.display_end - last.display_start;
    let source_end = if last_offset_end == last_display_len {
        last.owned.end
    } else {
        last.visible.start.saturating_add(last_offset_end as u64)
    };
    StyledGrapheme {
        text: grapheme.clone(),
        width: str_width(grapheme.as_str()),
        style: first.style,
        source: Some(
            Range {
                start: (source_start.as_u64() - content_start.as_u64()) as usize,
                end: (source_end.as_u64() - content_start.as_u64()) as usize,
            },
        ),
    }
}

/// Whether `g` is the one-character text `"\n"`.
fn is_newline(g: &String) -> (r: bool)
    ensures
        r == (g@ == seq!['\n']),
{
    let r = g.as_str().unicode_len() == 1 && g.as_str().get_char(0) == '\n';
    proof {
        if g@ == seq!['\n'] {
            assert(g@.len() == 1);
        }
        if r {
            assert(g@ =~= seq!['\n']);
        }
    }
    r
}

/// Adds `g` at the end of the last line.
fn push_onto_last(hard_lines: &mut Vec<Vec<StyledGrapheme>>, g: StyledGrapheme, Ghost(limit): Ghost<int>)
    requires
        old(hard_lines)@.len() > 0,
        texts_sized(old(hard_lines)@),
        sources_within(old(hard_lines)@, limit),
        g.text@.len() > 0,
        encode_utf8(g.text@).len() <= usize::MAX,
        g.source matches Some(r) && r.end <= limit,
    ensures
        final(hard_lines)@.len() == old(hard_lines)@.len(),
        texts_sized(final(hard_lines)@),
        sources_within(final(hard_lines)@, limit),
        line_models(final(hard_lines)@) == line_models(old(hard_lines)@).update(
            old(hard_lines)@.len() - 1,
            line_models(old(hard_lines)@).last().push(grapheme_model(g)),
        ),
{
    let ghost before = line_models(hard_lines@);
    let ghost lines_before = hard_lines@;
    let mut line = hard_lines.pop().unwrap();
    let ghost line_before = line@;
    line.push(g);
    hard_lines.push(line);
    proof {
        assert(line_before == lines_before.last()@);
        assert(line@.map_values(|g: StyledGrapheme| grapheme_model(g)) =~= before.last().push(grapheme_model(g)));
        assert(line_models(hard_lines@) =~~= before.update(before.len() - 1, before.last().push(grapheme_model(g))));
        assert forall|a: int, b: int|
            0 <= a < hard_lines@.len() && 0 <= b < hard_lines@[a]@.len() implies (#[trigger] hard_lines@[a]@[b]).text@.len() > 0
                && encode_utf8(hard_lines@[a]@[b].text@).len() <= usize::MAX
                && (hard_lines@[a]@[b].source matches Some(r) && r.end <= limit) by {
            if a < hard_lines@.len() - 1 {
                assert(hard_lines@[a] == lines_before[a]);
            } else if b < line_before.len() {
                assert(hard_lines@[a]@[b] == lines_before.last()@[b]);
            }
        }
    }
}

/// Appends the clusters of the gathered exact display to `hard_lines`.
#[verifier::rlimit(40)]
fn append_projected_exact(
    hard_lines: &mut Vec<Vec<StyledGrapheme>>,
    display: &str,
    fragments: &Vec<ProjectedExactFragment>,
    content_start: StreamOffset,
    Ghost(content_end): Ghost<u64>,
)
    requires
        old(hard_lines)@.len() > 0,
        texts_sized(old(hard_lines)@),
        sources_within(old(hard_lines)@, content_end - content_start.0),
        tiles(fragments@, encode_utf8(display@).len() as int),
        forall|k: int| 0 <= k < fragments@.len() ==> fragment_in(#[trigger] fragments@[k], content_start.0, content_end),
        content_end - content_start.0 <= usize::MAX,
    ensures
        final(hard_lines)@.len() > 0,
        texts_sized(final(hard_lines)@),
        sources_within(final(hard_lines)@, content_end - content_start.0),
        line_models(final(hard_lines)@) == flushed(line_models(old(hard_lines)@), display@, fragments@, content_start.0),
{
    let pieces = graphemes(display);
    let ghost clusters = spec_graphemes(display@);
    let ghost total = encode_utf8(display@).len() as int;
    let ghost start_lines = line_models(old(hard_lines)@);
    proof {
        assert forall|j: int| 0 <= j < clusters.len() implies (#[trigger] clusters[j]).len() > 0 by {
            assert(clusters[j] == pieces@[j]@);
        }
    }
    let mut relative: usize = 0;
    let mut i: usize = 0;
    while i < pieces.len()
        invariant
            0 <= i <= pieces@.len(),
            string_views(pieces@) == clusters,
            clusters == spec_graphemes(display@),
            concat_all(clusters) == display@,
            forall|j: int| 0 <= j < clusters.len() ==> (#[trigger] clusters[j]).len() > 0,
            total == encode_utf8(display@).len(),
            tiles(fragments@, total),
            forall|k: int| 0 <= k < fragments@.len() ==> fragment_in(#[trigger] fragments@[k], content_start.0, content_end),
            content_end - content_start.0 <= usize::MAX,
            relative == cluster_start(clusters, i as int),
            hard_lines@.len() > 0,
            texts_sized(hard_lines@),
            sources_within(hard_lines@, content_end - content_start.0),
            line_models(hard_lines@) == exact_lines(start_lines, display@, fragments@, content_start.0, i as int),
        decreases pieces@.len() - i,
    {
        let grapheme = &pieces[i];
        proof {
            assert(clusters[i as int] == grapheme@);
            lemma_cluster_bounds(clusters, i as int);
            if fragments@.len() > 0 {
                assert(total == fragments@.last().display_end);
            }
        }
        let mapped = map_cluster(grapheme, relative, fragments, content_start, Ghost(content_end), Ghost(total));
        let ghost before = line_models(hard_lines@);
        if is_newline(grapheme) {
            hard_lines.push(Vec::new());
            proof {
                assert(line_models(hard_lines@) =~~= before.push(Seq::empty()));
                assert forall|a: int, b: int|
                    0 <= a < hard_lines@.len() && 0 <= b < hard_lines@[a]@.len() implies (#[trigger] hard_lines@[a]@[b]).text@.len() > 0
                        && encode_utf8(hard_lines@[a]@[b].text@).len() <= usize::MAX
                        && (hard_lines@[a]@[b].source matches Some(r) && r.end <= content_end - content_start.0) by {
                    assert(a < hard_lines@.len() - 1);
                }
            }
        } else {
            push_onto_last(hard_lines, mapped, Ghost(content_end - content_start.0));
        }
        relative = relative + grapheme.as_str().len();
        i = i + 1;
    }
}

/// Per-run facts of a validity scan that got through its first `n` runs.
proof fn lemma_scan_prefix(runs: Seq<RunModel>, expected: u64, content_end: u64, k: int, n: int)
    requires
        0 <= k <= n <= runs.len(),
        runs_scan(runs, expected, content_end, n) is Some,
    ensures
        runs_scan(runs, expected, content_end, k) is Some,
    decreases n - k,
{
    if k < n {
        if runs_scan(runs, expected, content_end, k) is None {
            crate::stream::lemma_runs_scan_none_persists(runs, expected, content_end, k, n);
        }
    }
}

/// Projected text whose runs' displays each fit the machine's sizes.
pub open spec fn displays_fit(text: ProjectedText) -> bool {
    forall|i: int| 0 <= i < text.runs@.len() ==> encode_utf8((#[trigger] text.runs@[i]).display@).len() <= usize::MAX
}

/// The hard lines of `text`; see [`projected_lines`].
#[verifier::rlimit(40)]
pub fn projected_hard_lines(theme: &ThemeResolver, text: &ProjectedText, inherited: PhysicalStyle) -> (r: Vec<
    Vec<StyledGrapheme>,
>)
    requires
        compilable(*text),
        displays_fit(*text),
    ensures
        r@.len() > 0,
        texts_sized(r@),
        sources_within(r@, text.content_range.end.0 - text.content_range.start.0),
        line_models(r@) == projected_lines(*theme, *text, inherited),
{
    let ghost cs = text.content_range.start.0;
    let ghost ce = text.content_range.end.0;
    let ghost models = run_models(text.runs@);
    let ghost start = runs_start(*text).unwrap();
    let content_start = text.content_range.start;
    let mut hard_lines: Vec<Vec<StyledGrapheme>> = Vec::new();
    hard_lines.push(Vec::new());
    assert(texts_sized(hard_lines@));
    let mut exact_display = String::new();
    let mut exact_fragments: Vec<ProjectedExactFragment> = Vec::new();
    let ghost mut at: u64 = start;
    proof {
        assert(line_models(hard_lines@) =~~= runs_state(*theme, inherited, cs, text.runs@, 0).lines);
        assert(exact_display@ =~= Seq::<char>::empty());
    }
    let mut index: usize = 0;
    while index < text.runs.len()
        invariant
            0 <= index <= text.runs@.len(),
            compilable(*text),
            displays_fit(*text),
            cs == text.content_range.start.0,
            ce == text.content_range.end.0,
            content_start == text.content_range.start,
            models == run_models(text.runs@),
            runs_start(*text) == Some(start),
            runs_scan(models, start, ce, index as int) == Some(at),
            cs <= start <= at <= ce,
            hard_lines@.len() > 0,
            texts_sized(hard_lines@),
            sources_within(hard_lines@, ce - cs),
            line_models(hard_lines@) == runs_state(*theme, inherited, cs, text.runs@, index as int).lines,
            exact_display@ == runs_state(*theme, inherited, cs, text.runs@, index as int).display,
            exact_fragments@ == runs_state(*theme, inherited, cs, text.runs@, index as int).frags,
            tiles(exact_fragments@, encode_utf8(exact_display@).len() as int),
            encode_utf8(exact_display@).len() <= at - cs,
            forall|k: int|
                0 <= k < exact_fragments@.len() ==> fragment_in(#[trigger] exact_fragments@[k], cs, ce),
        decreases text.runs@.len() - index,
    {
        let run = &text.runs[index];
        let ghost state = runs_state(*theme, inherited, cs, text.runs@, index as int);
        proof {
            lemma_scan_prefix(models, start, ce, index + 1, models.len() as int);
            assert(models[index as int] == crate::stream::run_model(*run));
            assert(encode_utf8(run.display@).len() <= usize::MAX);
        }
        if run.display.as_str().is_empty() {
            proof {
                assert(run.display@.len() == 0) by {
                    if run.display@.len() > 0 {
                        crate::stream::lemma_encode_nonempty(run.display@);
                    }
                }
                at = run.owned.end.0;
            }
        } else {
            proof {
                if run.display@.len() == 0 {
                    assert(encode_utf8(run.display@) =~= Seq::<u8>::empty());
                }
            }
            let style = theme.apply_style(inherited, &run.style);
            match run.exact_visible {
                None => {
                    append_projected_exact(&mut hard_lines, exact_display.as_str(), &exact_fragments, content_start, Ghost(ce));
                    exact_display = String::new();
                    exact_fragments = Vec::new();
                    let atom = StyledGrapheme {
                        text: run.display.clone(),
                        width: str_width(run.display.as_str()),
                        style,
                        source: Some(
                            Range {
                                start: (run.owned.start.as_u64() - content_start.as_u64()) as usize,
                                end: (run.owned.end.as_u64() - content_start.as_u64()) as usize,
                            },
                        ),
                    };
                    proof {
                        crate::stream::lemma_encode_nonempty(run.display@);
                    }
                    push_onto_last(&mut hard_lines, atom, Ghost(ce - cs));
                    proof {
                        assert(exact_display@ =~= Seq::<char>::empty());
                        at = run.owned.end.0;
                    }
                },
                Some(visible) => {
                    let display_start = exact_display.as_str().len();
                    let ghost old_display = exact_display@;
                    exact_display.append(run.display.as_str());
                    proof {
                        lemma_encode_concat(old_display, run.display@);
                        crate::stream::lemma_encode_nonempty(run.display@);
                    }
                    let display_end = exact_display.as_str().len();
                    let ghost old_frags = exact_fragments@;
                    exact_fragments.push(
                        ProjectedExactFragment { display_start, display_end, style, owned: run.owned, visible },
                    );
                    proof {
                        at = run.owned.end.0;
                        assert(tiles(exact_fragments@, encode_utf8(exact_display@).len() as int)) by {
                            if old_frags.len() > 0 {
                                assert(old_frags.last().display_end == encode_utf8(old_display).len());
                            }
                        }
                    }
                },
            }
        }
        index = index + 1;
    }
    append_projected_exact(&mut hard_lines, exact_display.as_str(), &exact_fragments, content_start, Ghost(ce));
    hard_lines
}

/// The total width of grapheme models.
pub open spec fn model_width(line: Seq<GraphemeModel>) -> int
    decreases line.len(),
{
    if line.len() == 0 {
        0
    } else {
        model_width(line.drop_last()) + line.last().width
    }
}

/// The text of the first `n` grapheme models, one after another.
pub open spec fn model_text(line: Seq<GraphemeModel>, n: int) -> Seq<char>
    decreases n,
{
    if n <= 0 {
        Seq::empty()
    } else {
        model_text(line, n - 1) + line[n - 1].text
    }
}

/// Hard lines whose total widths and text bytes fit the machine's sizes.
pub open spec fn lines_within_limits(lines: Seq<Seq<GraphemeModel>>) -> bool {
    forall|i: int|
        0 <= i < lines.len() ==> model_width(#[trigger] lines[i]) <= usize::MAX && encode_utf8(
            model_text(lines[i], lines[i].len() as int),
        ).len() <= usize::MAX
}

proof fn lemma_models_measure(line: Seq<StyledGrapheme>, n: int)
    requires
        0 <= n <= line.len(),
    ensures
        graphemes_text(line, n) == model_text(line.map_values(|g: StyledGrapheme| grapheme_model(g)), n),
        widths_sum(line) == model_width(line.map_values(|g: StyledGrapheme| grapheme_model(g))),
    decreases line.len(), n,
{
    let models = line.map_values(|g: StyledGrapheme| grapheme_model(g));
    if n > 0 {
        lemma_models_measure(line, n - 1);
    }
    if line.len() > 0 {
        assert(line.drop_last().map_values(|g: StyledGrapheme| grapheme_model(g)) =~= models.drop_last());
        lemma_models_measure(line.drop_last(), 0);
    }
}

proof fn lemma_lines_fit(lines: Seq<Vec<StyledGrapheme>>)
    requires
        texts_sized(lines),
        lines_within_limits(line_models(lines)),
    ensures
        lines_fit(lines),
{
    assert forall|i: int| 0 <= i < lines.len() implies {
        &&& widths_sum((#[trigger] lines[i])@) <= usize::MAX
        &&& forall|j: int| 0 <= j < lines[i]@.len() ==> (#[trigger] lines[i]@[j]).text@.len() > 0
        &&& encode_utf8(graphemes_text(lines[i]@, lines[i]@.len() as int)).len() <= usize::MAX
    } by {
        lemma_models_measure(lines[i]@, lines[i]@.len() as int);
        assert(line_models(lines)[i] == lines[i]@.map_values(|g: StyledGrapheme| grapheme_model(g)));
    }
}

proof fn lemma_join_member(rows: Seq<Seq<StyledGrapheme>>, k: int, j: int)
    requires
        0 <= k < rows.len(),
        0 <= j < rows[k].len(),
    ensures
        exists|m: int| 0 <= m < join_rows(rows).len() && join_rows(rows)[m] == rows[k][j],
    decreases k,
{
    if k == 0 {
        assert(join_rows(rows)[j] == rows[0][j]);
    } else {
        let rest = rows.drop_first();
        lemma_join_member(rest, k - 1, j);
        let m = choose|m: int| 0 <= m < join_rows(rest).len() && join_rows(rest)[m] == rest[k - 1][j];
        assert(join_rows(rows)[rows[0].len() + m] == rows[k][j]);
    }
}

/// Every grapheme of every wrapped row comes from source ending at most `limit`
/// when every grapheme of the hard lines does.
proof fn lemma_rows_sources(lines: Seq<Vec<StyledGrapheme>>, width: int, mode: WrapMode, n: int, limit: int)
    requires
        0 <= n <= lines.len(),
        sources_within(lines, limit),
    ensures
        forall|k: int, j: int|
            0 <= k < all_rows(lines, width, mode, n).len() && 0 <= j < all_rows(lines, width, mode, n)[k].len() ==> (
            (#[trigger] all_rows(lines, width, mode, n)[k][j]).source matches Some(r) && r.end <= limit),
    decreases n,
{
    if n > 0 {
        lemma_rows_sources(lines, width, mode, n - 1, limit);
        let before = all_rows(lines, width, mode, n - 1);
        let line = lines[n - 1]@;
        let added = line_rows(line, width, mode);
        assert forall|k: int, j: int|
            0 <= k < all_rows(lines, width, mode, n).len() && 0 <= j < all_rows(lines, width, mode, n)[k].len() implies (
            (#[trigger] all_rows(lines, width, mode, n)[k][j]).source matches Some(r) && r.end <= limit) by {
            if k < before.len() {
                assert(all_rows(lines, width, mode, n)[k] == before[k]);
            } else {
                assert(all_rows(lines, width, mode, n)[k] == added[k - before.len()]);
                lemma_join_member(added, k - before.len(), j);
                lemma_wrapping_preserves_content(line, width, mode);
                let m = choose|m: int| 0 <= m < join_rows(added).len() && join_rows(added)[m] == added[k - before.len()][j];
                assert(line[m] == lines[n - 1]@[m]);
            }
        }
    }
}

/// A compiled row: its styled runs, where its source ends relative to the
/// start of the text's content, whether it fits, and its width in cells.
pub struct CompiledTextRow {
    pub line: PhysicalLine,
    pub source_end: Option<usize>,
    pub fits: bool,
    pub width: usize,
}

/// A compiled row as plain values.
pub struct RowModel {
    pub spans: Seq<(Seq<char>, PhysicalStyle)>,
    pub source_end: Option<usize>,
    pub fits: bool,
    pub width: usize,
}

pub open spec fn row_model(r: CompiledTextRow) -> RowModel {
    RowModel { spans: span_views(r.line.spans@), source_end: r.source_end, fits: r.fits, width: r.width }
}

pub open spec fn row_models(rows: Seq<CompiledTextRow>) -> Seq<RowModel> {
    rows.map_values(|r: CompiledTextRow| row_model(r))
}

/// The text and style of each grapheme.
pub open spec fn grapheme_pieces(row: Seq<StyledGrapheme>) -> Seq<(Seq<char>, PhysicalStyle)> {
    row.map_values(|g: StyledGrapheme| (g.text@, g.style))
}

/// Where the last grapheme's source ends, if the row has one with a source.
pub open spec fn last_source_end(row: Seq<StyledGrapheme>) -> Option<usize> {
    if row.len() > 0 {
        match row.last().source {
            Some(r) => Some(r.end),
            None => None,
        }
    } else {
        None
    }
}

/// The compiled form of a wrapped row at a target width: its graphemes
/// joined into runs of one style, the end of its last grapheme's source,
/// whether it fits, and its width.
pub open spec fn wrapped_row(row: Seq<StyledGrapheme>, target: int) -> RowModel {
    RowModel {
        spans: merged(grapheme_pieces(row), row.len() as int),
        source_end: last_source_end(row),
        fits: row_fits(row.len() as int, widths_sum(row), target),
        width: widths_sum(row) as usize,
    }
}

/// The compiled rows of hard lines wrapped at `width`.
pub open spec fn plain_rows(lines: Seq<Vec<StyledGrapheme>>, width: u16, wrap: WrapMode) -> Seq<RowModel> {
    let rows = all_rows(lines, width as int, wrap, lines.len() as int);
    Seq::new(rows.len(), |i: int| wrapped_row(rows[i], width as int))
}

/// The width a flow of hard lines takes under `rule` within `max_width`.
pub open spec fn plain_width(lines: Seq<Vec<StyledGrapheme>>, rule: WidthRule, max_width: u16) -> u16 {
    flow_width(lines, None, max_width, rule) as u16
}

/// `n` spaces.
pub open spec fn spaces(n: nat) -> Seq<char> {
    Seq::new(n, |i: int| ' ')
}

/// Where the body of projected text begins: at its first run, or at the end
/// of its content when it has none.
pub open spec fn body_start(text: ProjectedText) -> StreamOffset {
    if text.runs@.len() > 0 {
        text.runs@[0].owned.start
    } else {
        text.content_range.end
    }
}

/// The text whose hard lines are wrapped: hanging text wraps its body, from
/// its first run on, filling the width left beside the prefix column.
pub open spec fn flow_text(text: ProjectedText) -> ProjectedText {
    match text.layout {
        ProjectedTextLayout::Plain => text,
        ProjectedTextLayout::Hanging { .. } => ProjectedText {
            content_range: StreamRange { start: body_start(text), end: text.content_range.end },
            width: WidthRule::Fill,
            layout: ProjectedTextLayout::Plain,
            ..text
        },
    }
}

/// The width of the body beside a hanging prefix column: what is left of
/// `max_width`, at least one cell.
pub open spec fn body_width(max_width: u16, body_column: u16) -> u16 {
    if max_width > body_column && max_width - body_column >= 1 {
        (max_width - body_column) as u16
    } else {
        1
    }
}

/// A body row of hanging text with its prefix column: the first row shows
/// the prefix in its own style when the prefix is shown, every other row a
/// blank column in the inherited style. The column's width is added, with
/// saturation, to the row's; the row fits when that stays within
/// `max_width`; its source end moves by `shift`.
pub open spec fn hung_row(
    row: RowModel,
    index: int,
    prefix: Seq<char>,
    prefix_style: PhysicalStyle,
    show_prefix: bool,
    body_column: u16,
    inherited: PhysicalStyle,
    max_width: u16,
    shift: int,
) -> RowModel {
    let first = index == 0 && show_prefix;
    let indent = if first { prefix } else { spaces(body_column as nat) };
    let style = if first { prefix_style } else { inherited };
    let added: int = if first { spec_str_width(prefix) as int } else { body_column as int };
    let width: int = if row.width + added > usize::MAX { usize::MAX as int } else { row.width + added };
    RowModel {
        spans: merged(seq![(indent, style)] + row.spans, row.spans.len() + 1int),
        source_end: match row.source_end {
            Some(end) => Some((end + shift) as usize),
            None => None,
        },
        fits: width <= max_width,
        width: width as usize,
    }
}

/// The width and rows `text` compiles to at `max_width`, given the hard
/// lines of its flow text.
pub open spec fn compiled_text(
    theme: ThemeResolver,
    text: ProjectedText,
    inherited: PhysicalStyle,
    max_width: u16,
    lines: Seq<Vec<StyledGrapheme>>,
) -> (u16, Seq<RowModel>) {
    match text.layout {
        ProjectedTextLayout::Plain => {
            let width = plain_width(lines, text.width, max_width);
            (width, plain_rows(lines, width, text.wrap))
        },
        ProjectedTextLayout::Hanging { body_column, prefix, prefix_style, show_prefix, .. } => {
            let body = plain_rows(lines, body_width(max_width, body_column), text.wrap);
            let shift = body_start(text).0 - text.content_range.start.0;
            (
                max_width,
                Seq::new(
                    body.len(),
                    |i: int|
                        hung_row(
                            body[i],
                            i,
                            prefix@,
                            theme.spec_apply_style(inherited, prefix_style),
                            show_prefix,
                            body_column,
                            inherited,
                            max_width,
                            shift,
                        ),
                ),
            )
        },
    }
}

/// Text that compiles: compilable, with displays and flow lines within the
/// machine's sizes.
pub open spec fn text_compiles(theme: ThemeResolver, text: ProjectedText, inherited: PhysicalStyle) -> bool {
    &&& compilable(text)
    &&& displays_fit(text)
    &&& lines_within_limits(projected_lines(theme, flow_text(text), inherited))
}

fn row_from_wrapped(line: &WrappedLine, Ghost(target): Ghost<int>) -> (r: CompiledTextRow)
    requires
        line.width == widths_sum(line.graphemes@),
        line.fits == row_fits(line.graphemes@.len() as int, widths_sum(line.graphemes@), target),
    ensures
        row_model(r) == wrapped_row(line.graphemes@, target),
{
    let ghost pieces = grapheme_pieces(line.graphemes@);
    let mut spans: Vec<PhysicalSpan> = Vec::new();
    let mut k: usize = 0;
    while k < line.graphemes.len()
        invariant
            0 <= k <= line.graphemes@.len(),
            pieces == grapheme_pieces(line.graphemes@),
            span_views(spans@) == merged(pieces, k as int),
        decreases line.graphemes@.len() - k,
    {
        let g = &line.graphemes[k];
        push_merged(&mut spans, g.text.as_str(), g.style);
        k = k + 1;
    }
    let n = line.graphemes.len();
    let source_end = if n > 0 {
        match &line.graphemes[n - 1].source {
            Some(range) => Some(range.end),
            None => None,
        }
    } else {
        None
    };
    CompiledTextRow { line: PhysicalLine { spans }, source_end, fits: line.fits, width: line.width }
}

/// A copy of `runs`.
fn copy_runs(runs: &Vec<ProjectedTextRun>) -> (r: Vec<ProjectedTextRun>)
    ensures
        r@ == runs@,
{
    let mut out: Vec<ProjectedTextRun> = Vec::new();
    let mut index: usize = 0;
    while index < runs.len()
        invariant
            0 <= index <= runs@.len(),
            out@ == runs@.take(index as int),
        decreases runs@.len() - index,
    {
        out.push(runs[index].clone());
        proof {
            assert(out@ =~= runs@.take(index + 1));
        }
        index = index + 1;
    }
    proof {
        assert(runs@.take(runs@.len() as int) =~= runs@);
    }
    out
}

/// `n` spaces.
fn space_string(n: u16) -> (r: String)
    ensures
        r@ == spaces(n as nat),
{
    let mut s = String::new();
    let mut k: u16 = 0;
    while k < n
        invariant
            k <= n,
            s@ == spaces(k as nat),
        decreases n - k,
    {
        crate::unicode::push_char(&mut s, ' ');
        proof {
            assert(s@ =~= spaces((k + 1) as nat));
        }
        k = k + 1;
    }
    s
}

/// The body of hanging text: its runs, as plain text filling its width,
/// from its first run on.
fn hanging_body(text: &ProjectedText) -> (body: ProjectedText)
    requires
        compilable(*text),
        displays_fit(*text),
        text.layout is Hanging,
    ensures
        compilable(body),
        displays_fit(body),
        body.content_range == (StreamRange { start: body_start(*text), end: text.content_range.end }),
        body.runs@ == text.runs@,
        body.layout == ProjectedTextLayout::Plain,
        body.width == WidthRule::Fill,
        body.wrap == text.wrap,
        text.content_range.start.0 <= body_start(*text).0 <= text.content_range.end.0,
{
    let ghost models = run_models(text.runs@);
    let ghost start = runs_start(*text).unwrap();
    let ghost ce = text.content_range.end.0;
    let body_start = if text.runs.len() > 0 {
        text.runs[0].owned.start
    } else {
        text.content_range.end
    };
    proof {
        assert(projected_text_valid(*text));
        assert(runs_scan(models, start, ce, models.len() as int) == Some(ce));
        assert(runs_scan(models, start, ce, 0) == Some(start));
        if text.runs@.len() > 0 {
            lemma_scan_prefix(models, start, ce, 1, models.len() as int);
            assert(models[0] == crate::stream::run_model(text.runs@[0]));
            assert(models[0].owned.start.0 == start);
            assert(models[0].owned.end.0 <= ce);
        }
    }
    let body = ProjectedText {
        content_range: StreamRange::new(body_start, text.content_range.end),
        terminator: text.terminator,
        width: WidthRule::Fill,
        wrap: text.wrap,
        align: text.align,
        layout: ProjectedTextLayout::Plain,
        runs: copy_runs(&text.runs),
    };
    proof {
        assert(run_models(body.runs@) == models);
        assert(runs_start(body) == Some(body_start.0));
        if text.runs@.len() > 0 {
            assert(body_start.0 == start);
        } else {
            assert(runs_scan(models, body_start.0, ce, 0) == Some(body_start.0));
        }
        assert(runs_scan(run_models(body.runs@), body_start.0, ce, body.runs@.len() as int) == Some(ce));
        assert(projected_text_valid(body));
    }
    body
}

proof fn lemma_model_width_prefix(models: Seq<GraphemeModel>, k: int)
    requires
        0 <= k <= models.len(),
    ensures
        model_width(models.take(k)) <= model_width(models),
        k < models.len() ==> model_width(models.take(k + 1)) == model_width(models.take(k)) + models[k].width,
    decreases models.len() - k,
{
    if k < models.len() {
        assert(models.take(k + 1).drop_last() =~= models.take(k));
        lemma_model_width_prefix(models, k + 1);
    } else {
        assert(models.take(k) =~= models);
    }
}

proof fn lemma_model_text_prefix(models: Seq<GraphemeModel>, k: int, n: int)
    requires
        0 <= k <= n <= models.len(),
    ensures
        encode_utf8(model_text(models, k)).len() <= encode_utf8(model_text(models, n)).len(),
    decreases n - k,
{
    if k < n {
        lemma_model_text_prefix(models, k, n - 1);
        lemma_encode_concat(model_text(models, n - 1), models[n - 1].text);
    }
}

/// Whether every line's total width and text bytes fit the machine's sizes.
fn lines_within(lines: &Vec<Vec<StyledGrapheme>>) -> (r: bool)
    requires
        texts_sized(lines@),
    ensures
        r == lines_within_limits(line_models(lines@)),
{
    let mut i: usize = 0;
    while i < lines.len()
        invariant
            0 <= i <= lines@.len(),
            texts_sized(lines@),
            forall|a: int| 0 <= a < i ==> {
                let m = #[trigger] line_models(lines@)[a];
                model_width(m) <= usize::MAX && encode_utf8(model_text(m, m.len() as int)).len() <= usize::MAX
            },
        decreases lines@.len() - i,
    {
        let line = &lines[i];
        let ghost models = line_models(lines@)[i as int];
        proof {
            assert(models == line@.map_values(|g: StyledGrapheme| grapheme_model(g)));
        }
        let mut width: usize = 0;
        let mut bytes: usize = 0;
        let mut j: usize = 0;
        while j < line.len()
            invariant
                0 <= j <= line@.len(),
                i < lines@.len(),
                texts_sized(lines@),
                line == lines@[i as int],
                models == line_models(lines@)[i as int],
                models == line@.map_values(|g: StyledGrapheme| grapheme_model(g)),
                width == model_width(models.take(j as int)),
                bytes == encode_utf8(model_text(models, j as int)).len(),
            decreases line@.len() - j,
        {
            let g = &line[j];
            proof {
                assert(models[j as int] == grapheme_model(*g));
                lemma_model_width_prefix(models, j as int);
                lemma_encode_concat(model_text(models, j as int), g.text@);
                assert(lines@[i as int]@[j as int] == *g);
                assert(encode_utf8(g.text@).len() <= usize::MAX);
            }
            let length = g.text.as_str().len();
            match width.checked_add(g.width) {
                Some(w) => {
                    width = w;
                },
                None => {
                    proof {
                        lemma_model_width_prefix(models, j + 1);
                        assert(model_width(line_models(lines@)[i as int]) > usize::MAX);
                    }
                    return false;
                },
            }
            match bytes.checked_add(length) {
                Some(b) => {
                    bytes = b;
                },
                None => {
                    proof {
                        lemma_model_text_prefix(models, j + 1, models.len() as int);
                        let m = line_models(lines@)[i as int];
                        assert(encode_utf8(model_text(m, m.len() as int)).len() > usize::MAX);
                    }
                    return false;
                },
            }
            j = j + 1;
        }
        proof {
            assert(models.take(models.len() as int) =~= models);
        }
        i = i + 1;
    }
    true
}

/// The width hard lines take under `rule` within `max_width`, and their
/// rows wrapped at that width; see [`plain_rows`].
fn rows_of_lines(hard_lines: &Vec<Vec<StyledGrapheme>>, rule: WidthRule, max_width: u16, wrap: WrapMode) -> (r: (
    u16,
    Vec<CompiledTextRow>,
))
    requires
        lines_fit(hard_lines@),
    ensures
        r.0 == plain_width(hard_lines@, rule, max_width),
        row_models(r.1@) == plain_rows(hard_lines@, r.0, wrap),
{
        let intrinsic = widest(&hard_lines);
        let width: u16 = match rule {
            WidthRule::Fit => if intrinsic < max_width as usize {
                intrinsic as u16
            } else {
                max_width
            },
            WidthRule::Fill => max_width,
        };
        let wrapped = wrap_styled_lines(hard_lines.as_slice(), width, wrap);
        let ghost rows = all_rows(hard_lines@, width as int, wrap, hard_lines@.len() as int);
        let mut out: Vec<CompiledTextRow> = Vec::new();
        let mut i: usize = 0;
        while i < wrapped.len()
            invariant
                0 <= i <= wrapped@.len(),
                wrapped@.len() == rows.len(),
                rows == all_rows(hard_lines@, width as int, wrap, hard_lines@.len() as int),
                forall|k: int|
                    0 <= k < wrapped@.len() ==> {
                        &&& (#[trigger] wrapped@[k]).graphemes@ == rows[k]
                        &&& wrapped@[k].width == widths_sum(rows[k])
                        &&& wrapped@[k].fits == row_fits(rows[k].len() as int, widths_sum(rows[k]), width as int)
                    },
                out@.len() == i,
                row_models(out@) == Seq::new(i as nat, |k: int| wrapped_row(rows[k], width as int)),
            decreases wrapped@.len() - i,
        {
            let row = row_from_wrapped(&wrapped[i], Ghost(width as int));
            let ghost before = out@;
            out.push(row);
            proof {
                assert(wrapped@[i as int].graphemes@ == rows[i as int]);
                assert(row_model(out@[i as int]) == wrapped_row(rows[i as int], width as int));
                assert forall|k: int| 0 <= k < i implies row_model(#[trigger] out@[k]) == wrapped_row(rows[k], width as int) by {
                    assert(out@[k] == before[k]);
                    assert(row_models(before)[k] == row_model(before[k]));
                }
                assert(row_models(out@) =~= Seq::new((i + 1) as nat, |k: int| wrapped_row(rows[k], width as int)));
            }
            i = i + 1;
        }
        proof {
            assert(row_models(out@) =~= plain_rows(hard_lines@, width, wrap));
        }
    (width, out)
}

/// The bytes of the first `n` span texts of a view.
pub open spec fn view_bytes(spans: Seq<TextSpan>, n: int) -> int
    decreases n,
{
    if n <= 0 {
        0
    } else {
        view_bytes(spans, n - 1) + encode_utf8(spans[n - 1].text@).len()
    }
}

/// The spans a text view hands to hard-line splitting: each span's text,
/// its style resolved over `inherited`, and, when sources are tracked, the
/// byte at which the span begins in the view's joined text.
pub open spec fn spans_for(
    theme: ThemeResolver,
    text: TextView,
    inherited: PhysicalStyle,
    track: bool,
    spans: Seq<(&str, PhysicalStyle, Option<usize>)>,
) -> bool {
    &&& spans.len() == text.spans@.len()
    &&& forall|i: int|
        0 <= i < spans.len() ==> {
            &&& (#[trigger] spans[i]).0@ == text.spans@[i].text@
            &&& spans[i].1 == theme.spec_apply_style(inherited, text.spans@[i].style)
            &&& spans[i].2 == if track {
                Some(view_bytes(text.spans@, i) as usize)
            } else {
                None
            }
        }
}

/// Hard lines that tokenize the fragments split from `spans`.
pub open spec fn tokenized_lines(spans: Seq<(&str, PhysicalStyle, Option<usize>)>, lines: Seq<Vec<StyledGrapheme>>) -> bool {
    &&& lines.len() == hard_line_fragments(spans).len()
    &&& forall|i: int| 0 <= i < lines.len() ==> tokenized(hard_line_fragments(spans)[i], #[trigger] lines[i]@)
}

/// Whether `m` models hard lines split and tokenized from the spans of a
/// text view.
pub open spec fn view_lines_are(
    theme: ThemeResolver,
    text: TextView,
    inherited: PhysicalStyle,
    track: bool,
    m: Seq<Seq<GraphemeModel>>,
) -> bool {
    exists|spans: Seq<(&str, PhysicalStyle, Option<usize>)>, lines: Seq<Vec<StyledGrapheme>>|
        #![trigger spans_for(theme, text, inherited, track, spans), tokenized_lines(spans, lines)]
        {
            &&& spans_for(theme, text, inherited, track, spans)
            &&& tokenized_lines(spans, lines)
            &&& line_models(lines) == m
        }
}

/// The hard lines of a text view as plain values: its spans split at every
/// newline, each hard line tokenized into extended grapheme clusters across
/// span boundaries (see [`tokenized`]).
pub open spec fn view_lines(theme: ThemeResolver, text: TextView, inherited: PhysicalStyle, track: bool) -> Seq<
    Seq<GraphemeModel>,
> {
    choose|m: Seq<Seq<GraphemeModel>>| #[trigger] view_lines_are(theme, text, inherited, track, m)
}

proof fn lemma_split_spans_congruent(
    a: Seq<(&str, PhysicalStyle, Option<usize>)>,
    b: Seq<(&str, PhysicalStyle, Option<usize>)>,
    n: int,
)
    requires
        0 <= n <= a.len(),
        n <= b.len(),
        forall|k: int| 0 <= k < n ==> (#[trigger] a[k]).0@ == b[k].0@ && a[k].1 == b[k].1 && a[k].2 == b[k].2,
    ensures
        split_spans(a, n) == split_spans(b, n),
    decreases n,
{
    if n > 0 {
        lemma_split_spans_congruent(a, b, n - 1);
        assert(a[n - 1].0@ == b[n - 1].0@);
    }
}

proof fn lemma_tokenized_unique(
    fragments: Seq<crate::wrap::FragmentModel>,
    a: Seq<StyledGrapheme>,
    b: Seq<StyledGrapheme>,
)
    requires
        tokenized(fragments, a),
        tokenized(fragments, b),
    ensures
        a.map_values(|g: StyledGrapheme| grapheme_model(g)) == b.map_values(|g: StyledGrapheme| grapheme_model(g)),
{
    assert(a.map_values(|g: StyledGrapheme| grapheme_model(g)) =~= b.map_values(|g: StyledGrapheme| grapheme_model(g)));
}

/// Any spans and hard lines of a view have the models [`view_lines`] names.
proof fn lemma_view_lines(
    theme: ThemeResolver,
    text: TextView,
    inherited: PhysicalStyle,
    track: bool,
    spans: Seq<(&str, PhysicalStyle, Option<usize>)>,
    lines: Seq<Vec<StyledGrapheme>>,
)
    requires
        spans_for(theme, text, inherited, track, spans),
        tokenized_lines(spans, lines),
    ensures
        view_lines(theme, text, inherited, track) == line_models(lines),
{
    let m = view_lines(theme, text, inherited, track);
    assert(spans_for(theme, text, inherited, track, spans) && tokenized_lines(spans, lines));
    assert(view_lines_are(theme, text, inherited, track, line_models(lines)));
    assert(view_lines_are(theme, text, inherited, track, m));
    let (s2, l2) = choose|s: Seq<(&str, PhysicalStyle, Option<usize>)>, l: Seq<Vec<StyledGrapheme>>|
        #![trigger spans_for(theme, text, inherited, track, s), tokenized_lines(s, l)]
        {
            &&& spans_for(theme, text, inherited, track, s)
            &&& tokenized_lines(s, l)
            &&& line_models(l) == m
        };
    assert forall|k: int| 0 <= k < spans.len() implies (#[trigger] spans[k]).0@ == s2[k].0@ && spans[k].1 == s2[k].1
        && spans[k].2 == s2[k].2 by {
        assert(spans[k].0@ == text.spans@[k].text@);
        assert(s2[k].0@ == text.spans@[k].text@);
    }
    lemma_split_spans_congruent(spans, s2, spans.len() as int);
    assert(hard_line_fragments(spans) == hard_line_fragments(s2));
    assert forall|i: int| 0 <= i < lines.len() implies #[trigger] line_models(lines)[i] == line_models(l2)[i] by {
        lemma_tokenized_unique(hard_line_fragments(spans)[i], lines[i]@, l2[i]@);
    }
    assert(line_models(lines) =~= line_models(l2));
}

proof fn lemma_view_bytes_prefix(spans: Seq<TextSpan>, k: int, n: int)
    requires
        0 <= k <= n,
    ensures
        view_bytes(spans, k) <= view_bytes(spans, n),
    decreases n - k,
{
    if k < n {
        lemma_view_bytes_prefix(spans, k, n - 1);
    }
}

proof fn lemma_spans_bytes_match(spans: Seq<(&str, PhysicalStyle, Option<usize>)>, text: Seq<TextSpan>, n: int)
    requires
        0 <= n <= spans.len(),
        n <= text.len(),
        forall|k: int| 0 <= k < n ==> (#[trigger] spans[k]).0@ == text[k].text@,
    ensures
        spans_bytes(spans, n) == view_bytes(text, n),
    decreases n,
{
    if n > 0 {
        lemma_spans_bytes_match(spans, text, n - 1);
        assert(spans[n - 1].0@ == text[n - 1].text@);
    }
}

/// The spans of `text` for hard-line splitting; see [`spans_for`].
fn view_spans<'a>(theme: &ThemeResolver, text: &'a TextView, inherited: PhysicalStyle, track_source: bool) -> (r: Vec<
    (&'a str, PhysicalStyle, Option<usize>),
>)
    requires
        view_bytes(text.spans@, text.spans@.len() as int) <= usize::MAX,
    ensures
        spans_for(*theme, *text, inherited, track_source, r@),
{
    let mut relative: usize = 0;
    let mut spans: Vec<(&'a str, PhysicalStyle, Option<usize>)> = Vec::new();
    let mut i: usize = 0;
    while i < text.spans.len()
        invariant
            0 <= i <= text.spans@.len(),
            view_bytes(text.spans@, text.spans@.len() as int) <= usize::MAX,
            track_source ==> relative == view_bytes(text.spans@, i as int),
            spans@.len() == i,
            forall|k: int|
                0 <= k < i ==> {
                    &&& (#[trigger] spans@[k]).0@ == text.spans@[k].text@
                    &&& spans@[k].1 == theme.spec_apply_style(inherited, text.spans@[k].style)
                    &&& spans@[k].2 == if track_source {
                        Some(view_bytes(text.spans@, k) as usize)
                    } else {
                        None
                    }
                },
        decreases text.spans@.len() - i,
    {
        let span = &text.spans[i];
        proof {
            lemma_view_bytes_prefix(text.spans@, i + 1, text.spans@.len() as int);
        }
        let base = if track_source {
            let current = relative;
            relative = relative + span.text.as_str().len();
            Some(current)
        } else {
            None
        };
        spans.push((span.text.as_str(), theme.apply_style(inherited, &span.style), base));
        i = i + 1;
    }
    spans
}

/// The compiler of semantic text into physical rows, with the theme it
/// resolves styles against.
pub struct ViewCompiler {
    pub theme: ThemeResolver,
}

impl ViewCompiler {
    /// A compiler resolving styles against `theme`.
    pub fn new(theme: &Theme) -> (r: Self)
        ensures
            forall|q: Seq<char>| #[trigger] r.theme.theme.color_of(q) == theme.color_of(q),
            forall|q: Seq<char>| #[trigger] r.theme.theme.style_of(q) == theme.style_of(q),
    {
        ViewCompiler { theme: ThemeResolver::new(theme) }
    }

    /// Compiles a text view into rows at most `max_width` wide under
    /// `width_rule`, styled over `inherited`, with sources relative to the
    /// view's joined text when `track_source`.
    pub fn compile_text_with_metadata(
        &self,
        text: &TextView,
        max_width: u16,
        width_rule: WidthRule,
        inherited: PhysicalStyle,
        track_source: bool,
    ) -> (r: (u16, Vec<CompiledTextRow>))
        requires
            view_bytes(text.spans@, text.spans@.len() as int) <= usize::MAX,
            lines_within_limits(view_lines(self.theme, *text, inherited, track_source)),
        ensures
            exists|lines: Seq<Vec<StyledGrapheme>>|
                {
                    &&& line_models(lines) == view_lines(self.theme, *text, inherited, track_source)
                    &&& r.0 == plain_width(lines, width_rule, max_width)
                    &&& row_models(r.1@) == plain_rows(lines, r.0, text.wrap)
                },
    {
        let spans = view_spans(&self.theme, text, inherited, track_source);
        let ghost spans_view = spans@;
        proof {
            lemma_spans_bytes_match(spans_view, text.spans@, spans_view.len() as int);
            assert forall|i: int| 0 <= i < spans_view.len() implies {
                &&& encode_utf8((#[trigger] spans_view[i]).0@).len() <= usize::MAX
                &&& spans_view[i].2 matches Some(base) ==> base + encode_utf8(spans_view[i].0@).len() <= usize::MAX
            } by {
                lemma_view_bytes_prefix(text.spans@, i + 1, text.spans@.len() as int);
                lemma_view_bytes_prefix(text.spans@, 0, i);
                assert(spans_view[i].0@ == text.spans@[i].text@);
                assert(view_bytes(text.spans@, i + 1) == view_bytes(text.spans@, i) + encode_utf8(
                    text.spans@[i].text@,
                ).len());
            }
        }
        let hard_lines = styled_hard_lines(spans);
        proof {
            lemma_view_lines(self.theme, *text, inherited, track_source, spans_view, hard_lines@);
            assert(texts_sized(hard_lines@)) by {
                assert forall|i: int, j: int|
                    0 <= i < hard_lines@.len() && 0 <= j < hard_lines@[i]@.len() implies (#[trigger] hard_lines@[i]@[j]).text@.len()
                        > 0 && encode_utf8(hard_lines@[i]@[j].text@).len() <= usize::MAX by {
                    assert(graphemes_sized(hard_lines@[i]@));
                }
            }
            lemma_lines_fit(hard_lines@);
        }
        rows_of_lines(&hard_lines, width_rule, max_width, text.wrap)
    }

    /// Compiles a text view as [`ViewCompiler::compile_text_with_metadata`]
    /// does, where its lines fit the machine's sizes; `None` where a line is
    /// too wide or too long.
    pub fn try_compile_text(
        &self,
        text: &TextView,
        max_width: u16,
        width_rule: WidthRule,
        inherited: PhysicalStyle,
        track_source: bool,
    ) -> (r: Option<(u16, Vec<CompiledTextRow>)>)
        requires
            view_bytes(text.spans@, text.spans@.len() as int) <= usize::MAX,
        ensures
            r is Some <==> lines_within_limits(view_lines(self.theme, *text, inherited, track_source)),
            r matches Some(out) ==> exists|lines: Seq<Vec<StyledGrapheme>>|
                {
                    &&& line_models(lines) == view_lines(self.theme, *text, inherited, track_source)
                    &&& out.0 == plain_width(lines, width_rule, max_width)
                    &&& row_models(out.1@) == plain_rows(lines, out.0, text.wrap)
                },
    {
        let spans = view_spans(&self.theme, text, inherited, track_source);
        let ghost spans_view = spans@;
        proof {
            lemma_spans_bytes_match(spans_view, text.spans@, spans_view.len() as int);
            assert forall|i: int| 0 <= i < spans_view.len() implies {
                &&& encode_utf8((#[trigger] spans_view[i]).0@).len() <= usize::MAX
                &&& spans_view[i].2 matches Some(base) ==> base + encode_utf8(spans_view[i].0@).len() <= usize::MAX
            } by {
                lemma_view_bytes_prefix(text.spans@, i + 1, text.spans@.len() as int);
                lemma_view_bytes_prefix(text.spans@, 0, i);
                assert(spans_view[i].0@ == text.spans@[i].text@);
                assert(view_bytes(text.spans@, i + 1) == view_bytes(text.spans@, i) + encode_utf8(
                    text.spans@[i].text@,
                ).len());
            }
        }
        let hard_lines = styled_hard_lines(spans);
        proof {
            lemma_view_lines(self.theme, *text, inherited, track_source, spans_view, hard_lines@);
            assert(texts_sized(hard_lines@)) by {
                assert forall|i: int, j: int|
                    0 <= i < hard_lines@.len() && 0 <= j < hard_lines@[i]@.len() implies (#[trigger] hard_lines@[i]@[j]).text@.len()
                        > 0 && encode_utf8(hard_lines@[i]@[j].text@).len() <= usize::MAX by {
                    assert(graphemes_sized(hard_lines@[i]@));
                }
            }
        }
        if lines_within(&hard_lines) {
            Some(self.compile_text_with_metadata(text, max_width, width_rule, inherited, track_source))
        } else {
            None
        }
    }

    /// Compiles the runs of `text`, ignoring its layout, into rows at most
    /// `max_width` wide.
    fn compile_flow(&self, text: &ProjectedText, max_width: u16, inherited: PhysicalStyle) -> (r: (
        u16,
        Vec<CompiledTextRow>,
    ))
        requires
            compilable(*text),
            displays_fit(*text),
            lines_within_limits(projected_lines(self.theme, *text, inherited)),
        ensures
            exists|lines: Seq<Vec<StyledGrapheme>>|
                {
                    &&& line_models(lines) == projected_lines(self.theme, *text, inherited)
                    &&& texts_sized(lines)
                    &&& sources_within(lines, text.content_range.end.0 - text.content_range.start.0)
                    &&& r.0 == plain_width(lines, text.width, max_width)
                    &&& row_models(r.1@) == plain_rows(lines, r.0, text.wrap)
                },
            forall|k: int|
                0 <= k < r.1@.len() ==> ((#[trigger] r.1@[k]).source_end matches Some(end) ==> end
                    <= text.content_range.end.0 - text.content_range.start.0),
    {
        let hard_lines = projected_hard_lines(&self.theme, text, inherited);
        proof {
            lemma_lines_fit(hard_lines@);
        }
        let (width, out) = rows_of_lines(&hard_lines, text.width, max_width, text.wrap);
        let ghost rows = all_rows(hard_lines@, width as int, text.wrap, hard_lines@.len() as int);
        proof {
            let limit = text.content_range.end.0 - text.content_range.start.0;
            lemma_rows_sources(hard_lines@, width as int, text.wrap, hard_lines@.len() as int, limit);
            assert forall|k: int| 0 <= k < out@.len() implies ((#[trigger] out@[k]).source_end matches Some(end) ==> end
                <= limit) by {
                assert(row_models(out@)[k] == row_model(out@[k]));
                assert(row_models(out@).len() == rows.len());
                assert(row_models(out@)[k] == wrapped_row(rows[k], width as int));
                let row = rows[k];
                if row.len() > 0 {
                    assert(row[row.len() - 1] == row.last());
                }
            }
        }
        (width, out)
    }

    /// Compiles `text` into rows at most `max_width` wide, styled over
    /// `inherited`; see [`compiled_text`].
    fn compile_projected_text_with_style(&self, text: &ProjectedText, max_width: u16, inherited: PhysicalStyle) -> (r: (
        u16,
        Vec<CompiledTextRow>,
    ))
        requires
            text_compiles(self.theme, *text, inherited),
        ensures
            exists|lines: Seq<Vec<StyledGrapheme>>|
                {
                    &&& line_models(lines) == projected_lines(self.theme, flow_text(*text), inherited)
                    &&& (r.0, row_models(r.1@)) == compiled_text(self.theme, *text, inherited, max_width, lines)
                },
            forall|k: int|
                0 <= k < r.1@.len() ==> ((#[trigger] r.1@[k]).source_end matches Some(end) ==> end
                    <= text.content_range.end.0 - text.content_range.start.0),
    {
        match &text.layout {
            ProjectedTextLayout::Hanging { body_column, prefix, prefix_style, show_prefix, .. } => {
                let body = hanging_body(text);
                let body_start = body.content_range.start;
                proof {
                    assert(projected_lines(self.theme, body, inherited) == projected_lines(
                        self.theme,
                        flow_text(*text),
                        inherited,
                    ));
                }
                let width = if max_width > *body_column && max_width - *body_column >= 1 {
                    max_width - *body_column
                } else {
                    1
                };
                let (_, body_rows) = self.compile_flow(&body, width, inherited);
                let ghost lines = choose|lines: Seq<Vec<StyledGrapheme>>|
                    {
                        &&& line_models(lines) == projected_lines(self.theme, body, inherited)
                        &&& texts_sized(lines)
                        &&& sources_within(lines, body.content_range.end.0 - body.content_range.start.0)
                        &&& width == plain_width(lines, body.width, width)
                        &&& row_models(body_rows@) == plain_rows(lines, width, body.wrap)
                    };
                let ghost limit = body.content_range.end.0 - body.content_range.start.0;
                let ghost body_models = plain_rows(lines, width, text.wrap);
                proof {
                    lemma_rows_sources(lines, width as int, text.wrap, lines.len() as int, limit);
                }
                let prefix_width = str_width(prefix.as_str());
                let prefix_resolved = self.theme.apply_style(inherited, prefix_style);
                let shift = (body_start.as_u64() - text.content_range.start.as_u64()) as usize;
                let mut rows: Vec<CompiledTextRow> = Vec::new();
                let mut index: usize = 0;
                while index < body_rows.len()
                    invariant
                        0 <= index <= body_rows@.len(),
                        row_models(body_rows@) == body_models,
                        body_models == plain_rows(lines, width, text.wrap),
                        forall|k: int, j: int|
                            0 <= k < all_rows(lines, width as int, text.wrap, lines.len() as int).len() && 0 <= j
                                < all_rows(lines, width as int, text.wrap, lines.len() as int)[k].len() ==> ((
                            #[trigger] all_rows(lines, width as int, text.wrap, lines.len() as int)[k][j]).source matches Some(
                                range,
                            ) && range.end <= limit),
                        limit == text.content_range.end.0 - body_start.0,
                        shift == body_start.0 - text.content_range.start.0,
                        text.content_range.end.0 - text.content_range.start.0 <= usize::MAX,
                        prefix_width == spec_str_width(prefix@),
                        prefix_resolved == self.theme.spec_apply_style(inherited, *prefix_style),
                        rows@.len() == index,
                        forall|k: int|
                            0 <= k < rows@.len() ==> ((#[trigger] rows@[k]).source_end matches Some(end) ==> end
                                <= text.content_range.end.0 - text.content_range.start.0),
                        row_models(rows@) == Seq::new(
                            index as nat,
                            |k: int|
                                hung_row(
                                    body_models[k],
                                    k,
                                    prefix@,
                                    prefix_resolved,
                                    *show_prefix,
                                    *body_column,
                                    inherited,
                                    max_width,
                                    shift as int,
                                ),
                        ),
                    decreases body_rows@.len() - index,
                {
                    let row = &body_rows[index];
                    let ghost model = body_models[index as int];
                    proof {
                        assert(body_models.len() == body_rows@.len());
                    }
                    proof {
                        assert(row_models(body_rows@)[index as int] == row_model(*row));
                    }
                    let first = index == 0 && *show_prefix;
                    let indent = if first {
                        prefix.clone()
                    } else {
                        space_string(*body_column)
                    };
                    let style = if first {
                        prefix_resolved
                    } else {
                        inherited
                    };
                    let ghost pieces = seq![(indent@, style)] + model.spans;
                    let mut spans: Vec<PhysicalSpan> = Vec::new();
                    proof {
                        assert(span_views(spans@) =~= Seq::empty());
                        assert(merged(pieces, 0) =~= Seq::empty());
                    }
                    push_merged(&mut spans, indent.as_str(), style);
                    proof {
                        assert(span_views(spans@) =~= merged(pieces, 1));
                    }
                    let mut k: usize = 0;
                    while k < row.line.spans.len()
                        invariant
                            0 <= k <= row.line.spans@.len(),
                            model.spans == span_views(row.line.spans@),
                            pieces == seq![(indent@, style)] + model.spans,
                            span_views(spans@) == merged(pieces, k + 1),
                        decreases row.line.spans@.len() - k,
                    {
                        let span = &row.line.spans[k];
                        push_merged(&mut spans, span.text.as_str(), span.style);
                        proof {
                            assert(pieces[k + 1] == (span.text@, span.style));
                        }
                        k = k + 1;
                    }
                    let added: usize = if first {
                        prefix_width
                    } else {
                        *body_column as usize
                    };
                    let row_width = row.width.saturating_add(added);
                    let fits = row_width <= max_width as usize;
                    let source_end = match row.source_end {
                        Some(end) => {
                            proof {
                                let all = all_rows(lines, width as int, text.wrap, lines.len() as int);
                                assert(model == wrapped_row(all[index as int], width as int));
                                assert(all[index as int][all[index as int].len() - 1] == all[index as int].last());
                            }
                            Some(end + shift)
                        },
                        None => None,
                    };
                    let compiled = CompiledTextRow { line: PhysicalLine { spans }, source_end, fits, width: row_width };
                    let ghost before = rows@;
                    rows.push(compiled);
                    proof {
                        assert(row_model(compiled) == hung_row(
                            model,
                            index as int,
                            prefix@,
                            prefix_resolved,
                            *show_prefix,
                            *body_column,
                            inherited,
                            max_width,
                            shift as int,
                        ));
                        assert forall|j: int| 0 <= j < index + 1 implies ((#[trigger] rows@[j]).source_end matches Some(end)
                            ==> end <= text.content_range.end.0 - text.content_range.start.0) by {
                            if j < index {
                                assert(rows@[j] == before[j]);
                            }
                        }
                        assert forall|j: int| 0 <= j < index implies row_model(#[trigger] rows@[j]) == hung_row(
                            body_models[j],
                            j,
                            prefix@,
                            prefix_resolved,
                            *show_prefix,
                            *body_column,
                            inherited,
                            max_width,
                            shift as int,
                        ) by {
                            assert(rows@[j] == before[j]);
                            assert(row_models(before)[j] == row_model(before[j]));
                        }
                        assert(row_models(rows@) =~= Seq::new(
                            (index + 1) as nat,
                            |k: int|
                                hung_row(
                                    body_models[k],
                                    k,
                                    prefix@,
                                    prefix_resolved,
                                    *show_prefix,
                                    *body_column,
                                    inherited,
                                    max_width,
                                    shift as int,
                                ),
                        ));
                    }
                    index = index + 1;
                }
                proof {
                    assert(line_models(lines) == projected_lines(self.theme, flow_text(*text), inherited));
                    assert((max_width, row_models(rows@)) == compiled_text(self.theme, *text, inherited, max_width, lines));
                }
                (max_width, rows)
            },
            ProjectedTextLayout::Plain => self.compile_flow(text, max_width, inherited),
        }
    }

    /// Compiles `text` into rows at most `max_width` wide, styled over the
    /// terminal's defaults; see [`compiled_text`].
    pub fn compile_projected_text_with_metadata(&self, text: &ProjectedText, max_width: u16) -> (r: (
        u16,
        Vec<CompiledTextRow>,
    ))
        requires
            text_compiles(self.theme, *text, PhysicalStyle::spec_default()),
        ensures
            exists|lines: Seq<Vec<StyledGrapheme>>|
                {
                    &&& line_models(lines) == projected_lines(self.theme, flow_text(*text), PhysicalStyle::spec_default())
                    &&& (r.0, row_models(r.1@)) == compiled_text(
                        self.theme,
                        *text,
                        PhysicalStyle::spec_default(),
                        max_width,
                        lines,
                    )
                },
            forall|k: int|
                0 <= k < r.1@.len() ==> ((#[trigger] r.1@[k]).source_end matches Some(end) ==> end
                    <= text.content_range.end.0 - text.content_range.start.0),
    {
        self.compile_projected_text_with_style(text, max_width, PhysicalStyle::default())
    }

    /// Compiles `text` as [`ViewCompiler::compile_projected_text_with_metadata`]
    /// does, where it compiles; `None` where it is not valid projected text
    /// starting inside its content, or a line of it is too wide or too long
    /// for the machine's sizes.
    pub fn try_compile_projected_text(&self, text: &ProjectedText, max_width: u16) -> (r: Option<
        (u16, Vec<CompiledTextRow>),
    >)
        requires
            displays_fit(*text),
        ensures
            r is Some <==> text_compiles(self.theme, *text, PhysicalStyle::spec_default()),
            r matches Some(out) ==> exists|lines: Seq<Vec<StyledGrapheme>>|
                {
                    &&& line_models(lines) == projected_lines(self.theme, flow_text(*text), PhysicalStyle::spec_default())
                    &&& (out.0, row_models(out.1@)) == compiled_text(
                        self.theme,
                        *text,
                        PhysicalStyle::spec_default(),
                        max_width,
                        lines,
                    )
                },
            r matches Some(out) ==> forall|k: int|
                0 <= k < out.1@.len() ==> ((#[trigger] out.1@[k]).source_end matches Some(end) ==> end
                    <= text.content_range.end.0 - text.content_range.start.0),
    {
        if !is_compilable(text) {
            return None;
        }
        let fits = match &text.layout {
            ProjectedTextLayout::Plain => {
                let lines = projected_hard_lines(&self.theme, text, PhysicalStyle::default());
                lines_within(&lines)
            },
            ProjectedTextLayout::Hanging { .. } => {
                let body = hanging_body(text);
                proof {
                    assert(projected_lines(self.theme, body, PhysicalStyle::spec_default()) == projected_lines(
                        self.theme,
                        flow_text(*text),
                        PhysicalStyle::spec_default(),
                    ));
                }
                let lines = projected_hard_lines(&self.theme, &body, PhysicalStyle::default());
                lines_within(&lines)
            },
        };
        if fits {
            Some(self.compile_projected_text_with_metadata(text, max_width))
        } else {
            None
        }
    }
}

impl Default for ViewCompiler {
    /// A compiler whose theme names no colors and no styles.
    fn default() -> (r: Self)
        ensures
            forall|q: Seq<char>| #[trigger] r.theme.theme.color_of(q) is None && r.theme.theme.style_of(q) is None,
    {
        ViewCompiler { theme: ThemeResolver::default() }
    }
}

/// Whether `text` can be compiled; see [`compilable`].
pub fn is_compilable(text: &ProjectedText) -> (r: bool)
    ensures
        r == compilable(*text),
{
    if !crate::stream::validate_projected_text(text) {
        return false;
    }
    let start: u64 = match &text.layout {
        ProjectedTextLayout::Plain => text.content_range.start.0,
        ProjectedTextLayout::Hanging { prefix_source, show_prefix, .. } => {
            if *show_prefix {
                prefix_source.end.0
            } else {
                text.content_range.start.0
            }
        },
    };
    start >= text.content_range.start.0 && text.content_range.end.0 - text.content_range.start.0 <= usize::MAX as u64
}

/// The displays of the first `n` runs, one after another.
pub open spec fn joined_displays(runs: Seq<ProjectedTextRun>, n: int) -> Seq<char>
    decreases n,
{
    if n <= 0 {
        Seq::empty()
    } else {
        joined_displays(runs, n - 1) + runs[n - 1].display@
    }
}

proof fn lemma_exact_runs_gather(
    theme: ThemeResolver,
    inherited: PhysicalStyle,
    content_start: u64,
    runs: Seq<ProjectedTextRun>,
    n: int,
)
    requires
        0 <= n <= runs.len(),
        forall|i: int| 0 <= i < runs.len() ==> (#[trigger] runs[i]).exact_visible is Some,
    ensures
        runs_state(theme, inherited, content_start, runs, n).lines == seq![Seq::<GraphemeModel>::empty()],
        runs_state(theme, inherited, content_start, runs, n).display == joined_displays(runs, n),
    decreases n,
{
    if n > 0 {
        lemma_exact_runs_gather(theme, inherited, content_start, runs, n - 1);
        assert(runs[n - 1].exact_visible is Some);
        if runs[n - 1].display@.len() == 0 {
            assert(joined_displays(runs, n - 1) + runs[n - 1].display@ =~= joined_displays(runs, n - 1));
        }
    }
}

/// Runs that all show exact source are tokenized as one text: the lines of
/// such projected text are the grapheme clusters of all their displays
/// joined, so no cluster is split where one run ends and the next begins,
/// whatever their styles.
pub proof fn lemma_exact_runs_tokenize_together(theme: ThemeResolver, text: ProjectedText, inherited: PhysicalStyle)
    requires
        forall|i: int| 0 <= i < text.runs@.len() ==> (#[trigger] text.runs@[i]).exact_visible is Some,
    ensures
        exists|frags: Seq<ProjectedExactFragment>|
            projected_lines(theme, text, inherited) == flushed(
                seq![Seq::<GraphemeModel>::empty()],
                joined_displays(text.runs@, text.runs@.len() as int),
                frags,
                text.content_range.start.0,
            ),
{
    let cs = text.content_range.start.0;
    lemma_exact_runs_gather(theme, inherited, cs, text.runs@, text.runs@.len() as int);
    let state = runs_state(theme, inherited, cs, text.runs@, text.runs@.len() as int);
    assert(projected_lines(theme, text, inherited) == flushed(
        seq![Seq::<GraphemeModel>::empty()],
        joined_displays(text.runs@, text.runs@.len() as int),
        state.frags,
        cs,
    ));
}

} // verus!
