//! Compilation of a stream view into physical rows with commit metadata.
//!
//! Text nodes go through the same text compiler as ordinary text views, so
//! styles, grapheme clusters and wrapping agree between the stream and view
//! paths. Each row is classified for native history: an exact source
//! boundary, a row of a stable atomic block, or blocked. The committable
//! prefix ends at the first row that does not fit, reaches past the stable
//! frontier, or belongs to an atomic block that is unstable or physically
//! incomplete; every row after it is blocked.

use crate::commit::{CompiledStream, StreamAtomicId, StreamRowCommit};
use crate::physical::{span_views, PhysicalLine, PhysicalStyle};
use crate::stream::{sat_add, ProjectedText, StreamNode, StreamOffset, StreamRange, StreamView};
use crate::text_compile::{
    compiled_text, flow_text, line_models, projected_lines, row_models, text_compiles, CompiledTextRow, ViewCompiler,
};
use crate::wrap::StyledGrapheme;
use vstd::prelude::*;

verus! {

/// A physical row as its styled runs.
pub type LineView = Seq<(Seq<char>, PhysicalStyle)>;

/// The styled runs of a physical row.
pub open spec fn line_view(line: PhysicalLine) -> LineView {
    span_views(line.spans@)
}

/// The styled runs of each row.
pub open spec fn line_views(lines: Seq<PhysicalLine>) -> Seq<LineView> {
    lines.map_values(|line: PhysicalLine| line_view(line))
}

/// The rows of each atomic block and whether the block is physically complete.
pub open spec fn block_views(blocks: Seq<(Vec<PhysicalLine>, bool)>) -> Seq<(Seq<LineView>, bool)> {
    blocks.map_values(|block: (Vec<PhysicalLine>, bool)| (line_views(block.0@), block.1))
}

/// What the compiler has produced so far: the rows, their commit metadata,
/// the committable prefix, whether a row has been blocked, and how many
/// atomic nodes were met.
pub struct CompileState {
    pub rows: Seq<LineView>,
    pub commit: Seq<StreamRowCommit>,
    pub prefix: int,
    pub blocked: bool,
    pub atomics: int,
}

pub open spec fn initial_state() -> CompileState {
    CompileState { rows: Seq::empty(), commit: Seq::empty(), prefix: 0, blocked: false, atomics: 0 }
}

/// `st` after a text row `row` whose source boundary is `offset`: it
/// commits exactly to `offset` while nothing is blocked, the row fits and
/// `offset` is stable; otherwise it is blocked.
pub open spec fn push_text_row(
    st: CompileState,
    row: LineView,
    offset: StreamOffset,
    fits: bool,
    stable: StreamOffset,
) -> CompileState {
    if !st.blocked && fits && offset.0 <= stable.0 {
        CompileState {
            rows: st.rows.push(row),
            commit: st.commit.push(StreamRowCommit::Exact(offset)),
            prefix: st.prefix + 1,
            ..st
        }
    } else {
        CompileState { rows: st.rows.push(row), commit: st.commit.push(StreamRowCommit::Blocked), blocked: true, ..st }
    }
}

/// The source boundary of text row `k` of `rows`: the end of the text's
/// owned source for the last row, else the content start moved by the
/// row's relative source end (the content start when it has none).
pub open spec fn text_row_offset(text: ProjectedText, rows: Seq<CompiledTextRow>, k: int) -> StreamOffset {
    if k + 1 == rows.len() {
        text.spec_owned_range().end
    } else {
        match rows[k].source_end {
            Some(relative) => StreamOffset(sat_add(text.content_range.start.0, relative as int)),
            None => text.content_range.start,
        }
    }
}

/// `st` after the first `k` rows of a text node.
pub open spec fn text_rows_fold(
    st: CompileState,
    text: ProjectedText,
    rows: Seq<CompiledTextRow>,
    stable: StreamOffset,
    k: int,
) -> CompileState
    decreases k,
{
    if k <= 0 {
        st
    } else {
        push_text_row(
            text_rows_fold(st, text, rows, stable, k - 1),
            line_view(rows[k - 1].line),
            text_row_offset(text, rows, k - 1),
            rows[k - 1].fits,
            stable,
        )
    }
}

/// `st` after a text node compiled to `rows`; a text that compiles to no
/// row still takes one empty row, bounded by the end of its owned source.
pub open spec fn text_node_step(
    st: CompileState,
    text: ProjectedText,
    rows: Seq<CompiledTextRow>,
    stable: StreamOffset,
) -> CompileState {
    if rows.len() == 0 {
        push_text_row(st, Seq::empty(), text.spec_owned_range().end, true, stable)
    } else {
        text_rows_fold(st, text, rows, stable, rows.len() as int)
    }
}

/// `st` after the first `k` rows of an atomic block of group `group`
/// ending its source at `source_end`, all committable when `safe`.
pub open spec fn atomic_rows_fold(
    st: CompileState,
    lines: Seq<LineView>,
    group: StreamAtomicId,
    source_end: StreamOffset,
    safe: bool,
    k: int,
) -> CompileState
    decreases k,
{
    if k <= 0 {
        st
    } else {
        let prev = atomic_rows_fold(st, lines, group, source_end, safe, k - 1);
        if safe {
            CompileState {
                rows: prev.rows.push(lines[k - 1]),
                commit: prev.commit.push(StreamRowCommit::Atomic { group, source_end }),
                prefix: prev.prefix + 1,
                ..prev
            }
        } else {
            CompileState {
                rows: prev.rows.push(lines[k - 1]),
                commit: prev.commit.push(StreamRowCommit::Blocked),
                blocked: true,
                ..prev
            }
        }
    }
}

/// `st` after an atomic node over `range` whose compiled block is `block`:
/// the node is the next atomic group, and its rows commit together while
/// nothing is blocked, the range is stable and the block is complete.
pub open spec fn atomic_node_step(
    st: CompileState,
    range: StreamRange,
    block: (Seq<LineView>, bool),
    stable: StreamOffset,
) -> CompileState {
    let group = StreamAtomicId((st.atomics + 1) as usize);
    let safe = !st.blocked && range.end.0 <= stable.0 && block.1;
    let after = atomic_rows_fold(st, block.0, group, range.end, safe, block.0.len() as int);
    CompileState { atomics: st.atomics + 1, ..after }
}

/// The state after compiling `nodes`, the text nodes having compiled to
/// `text_rows` (one entry per node) and the atomic nodes to `blocks`, in
/// order.
pub open spec fn stream_fold(
    nodes: Seq<StreamNode>,
    text_rows: Seq<Seq<CompiledTextRow>>,
    blocks: Seq<(Seq<LineView>, bool)>,
    stable: StreamOffset,
) -> CompileState
    decreases nodes.len(),
{
    if nodes.len() == 0 {
        initial_state()
    } else {
        let st = stream_fold(nodes.drop_last(), text_rows.drop_last(), blocks, stable);
        match nodes.last() {
            StreamNode::Text(text) => text_node_step(st, text, text_rows.last(), stable),
            StreamNode::Atomic { range, .. } => atomic_node_step(st, range, blocks[st.atomics], stable),
        }
    }
}

/// How many of `nodes` are atomic.
pub open spec fn atomic_count(nodes: Seq<StreamNode>) -> int
    decreases nodes.len(),
{
    if nodes.len() == 0 {
        0
    } else {
        atomic_count(nodes.drop_last()) + if nodes.last() is Atomic {
            1int
        } else {
            0int
        }
    }
}

/// Every text node of `nodes` compiles.
pub open spec fn texts_compile(theme: crate::theme::ThemeResolver, nodes: Seq<StreamNode>) -> bool {
    forall|i: int|
        0 <= i < nodes.len() ==> (#[trigger] nodes[i] matches StreamNode::Text(text) ==> text_compiles(
            theme,
            text,
            PhysicalStyle::spec_default(),
        ))
}

/// `rows` are what the text compiler gives for `text` at `width` over the
/// terminal's default style.
pub open spec fn text_rows_of(
    theme: crate::theme::ThemeResolver,
    text: ProjectedText,
    width: u16,
    rows: Seq<CompiledTextRow>,
) -> bool {
    exists|lines: Seq<Vec<StyledGrapheme>>|
        {
            &&& line_models(lines) == projected_lines(theme, flow_text(text), PhysicalStyle::spec_default())
            &&& row_models(rows) == compiled_text(theme, text, PhysicalStyle::spec_default(), width, lines).1
        }
}

/// The committable rows come first, each committing no further than the
/// stable frontier, and every row after them is blocked.
pub open spec fn shape_ok(st: CompileState, stable: StreamOffset) -> bool {
    &&& st.rows.len() == st.commit.len()
    &&& 0 <= st.prefix <= st.commit.len()
    &&& st.blocked == (st.prefix < st.commit.len())
    &&& forall|i: int| 0 <= i < st.commit.len() ==> ((#[trigger] st.commit[i] is Blocked) <==> i >= st.prefix)
    &&& forall|i: int|
        0 <= i < st.commit.len() ==> match #[trigger] st.commit[i] {
            StreamRowCommit::Exact(o) => o.0 <= stable.0,
            StreamRowCommit::Atomic { source_end, .. } => source_end.0 <= stable.0,
            StreamRowCommit::Blocked => true,
        }
}

proof fn lemma_push_text_row_shape(st: CompileState, row: LineView, offset: StreamOffset, fits: bool, stable: StreamOffset)
    requires
        shape_ok(st, stable),
    ensures
        shape_ok(push_text_row(st, row, offset, fits, stable), stable),
        push_text_row(st, row, offset, fits, stable).atomics == st.atomics,
{
    let next = push_text_row(st, row, offset, fits, stable);
    assert forall|i: int| 0 <= i < next.commit.len() implies ((#[trigger] next.commit[i] is Blocked) <==> i
        >= next.prefix) by {
        if i < st.commit.len() {
            assert(next.commit[i] == st.commit[i]);
        }
    }
    assert forall|i: int| 0 <= i < next.commit.len() implies match #[trigger] next.commit[i] {
        StreamRowCommit::Exact(o) => o.0 <= stable.0,
        StreamRowCommit::Atomic { source_end, .. } => source_end.0 <= stable.0,
        StreamRowCommit::Blocked => true,
    } by {
        if i < st.commit.len() {
            assert(next.commit[i] == st.commit[i]);
        }
    }
}

proof fn lemma_atomic_rows_shape(
    st: CompileState,
    lines: Seq<LineView>,
    group: StreamAtomicId,
    source_end: StreamOffset,
    safe: bool,
    stable: StreamOffset,
    k: int,
)
    requires
        shape_ok(st, stable),
        safe ==> !st.blocked && source_end.0 <= stable.0,
        0 <= k,
    ensures
        shape_ok(atomic_rows_fold(st, lines, group, source_end, safe, k), stable),
        atomic_rows_fold(st, lines, group, source_end, safe, k).atomics == st.atomics,
    decreases k,
{
    if k > 0 {
        lemma_atomic_rows_shape(st, lines, group, source_end, safe, stable, k - 1);
        let prev = atomic_rows_fold(st, lines, group, source_end, safe, k - 1);
        let next = atomic_rows_fold(st, lines, group, source_end, safe, k);
        if safe {
            lemma_atomic_rows_unblocked(st, lines, group, source_end, stable, k - 1);
        }
        assert forall|i: int| 0 <= i < next.commit.len() implies ((#[trigger] next.commit[i] is Blocked) <==> i
            >= next.prefix) by {
            if i < prev.commit.len() {
                assert(next.commit[i] == prev.commit[i]);
            }
        }
        assert forall|i: int| 0 <= i < next.commit.len() implies match #[trigger] next.commit[i] {
            StreamRowCommit::Exact(o) => o.0 <= stable.0,
            StreamRowCommit::Atomic { source_end, .. } => source_end.0 <= stable.0,
            StreamRowCommit::Blocked => true,
        } by {
            if i < prev.commit.len() {
                assert(next.commit[i] == prev.commit[i]);
            }
        }
    }
}

proof fn lemma_atomic_rows_unblocked(
    st: CompileState,
    lines: Seq<LineView>,
    group: StreamAtomicId,
    source_end: StreamOffset,
    stable: StreamOffset,
    k: int,
)
    requires
        !st.blocked,
    ensures
        !atomic_rows_fold(st, lines, group, source_end, true, k).blocked,
    decreases k,
{
    if k > 0 {
        lemma_atomic_rows_unblocked(st, lines, group, source_end, stable, k - 1);
    }
}

proof fn lemma_atomic_count_step(nodes: Seq<StreamNode>, i: int)
    requires
        0 <= i < nodes.len(),
    ensures
        atomic_count(nodes.take(i + 1)) == atomic_count(nodes.take(i)) + if nodes[i] is Atomic {
            1int
        } else {
            0int
        },
{
    assert(nodes.take(i + 1).drop_last() =~= nodes.take(i));
}

proof fn lemma_atomic_count_bounded(nodes: Seq<StreamNode>, i: int)
    requires
        0 <= i <= nodes.len(),
    ensures
        0 <= atomic_count(nodes.take(i)) <= atomic_count(nodes),
    decreases nodes.len() - i,
{
    if i < nodes.len() {
        lemma_atomic_count_step(nodes, i);
        lemma_atomic_count_bounded(nodes, i + 1);
        lemma_atomic_count_nonneg(nodes.take(i));
    } else {
        assert(nodes.take(i) =~= nodes);
        lemma_atomic_count_nonneg(nodes);
    }
}

proof fn lemma_atomic_count_nonneg(nodes: Seq<StreamNode>)
    ensures
        atomic_count(nodes) >= 0,
    decreases nodes.len(),
{
    if nodes.len() > 0 {
        lemma_atomic_count_nonneg(nodes.drop_last());
    }
}

/// The exec state as mathematical values.
pub open spec fn state_of(
    rows: Seq<PhysicalLine>,
    commit: Seq<StreamRowCommit>,
    prefix: usize,
    blocked: bool,
    atomics: usize,
) -> CompileState {
    CompileState { rows: line_views(rows), commit, prefix: prefix as int, blocked, atomics: atomics as int }
}

/// `r` is the compiled stream of `nodes` at `max_width` (at least one
/// column) against `stable`, the atomic nodes having compiled to `blocks`:
/// its rows and commit metadata are the fold over the nodes, text nodes
/// compiled by the text compiler; the committable rows come first, each
/// committing no further than `stable`, and every row after them is blocked.
pub open spec fn compiled_stream_ok(
    theme: crate::theme::ThemeResolver,
    nodes: Seq<StreamNode>,
    max_width: u16,
    stable: StreamOffset,
    blocks: Seq<(Seq<LineView>, bool)>,
    r: CompiledStream<PhysicalLine>,
) -> bool {
    &&& r.wf()
    &&& forall|i: int| 0 <= i < r.commit@.len() ==> ((#[trigger] r.commit@[i] is Blocked) <==> i >= r.committable_prefix_rows)
    &&& forall|i: int|
        0 <= i < r.commit@.len() ==> match #[trigger] r.commit@[i] {
            StreamRowCommit::Exact(o) => o.0 <= stable.0,
            StreamRowCommit::Atomic { source_end, .. } => source_end.0 <= stable.0,
            StreamRowCommit::Blocked => true,
        }
    &&& exists|text_rows: Seq<Seq<CompiledTextRow>>|
        {
            &&& text_rows.len() == nodes.len()
            &&& forall|i: int|
                0 <= i < nodes.len() ==> (#[trigger] nodes[i] matches StreamNode::Text(text) ==> text_rows_of(
                    theme,
                    text,
                    if max_width == 0 { 1 } else { max_width },
                    text_rows[i],
                ))
            &&& line_views(r.rows@) == stream_fold(nodes, text_rows, blocks, stable).rows
            &&& r.commit@ == stream_fold(nodes, text_rows, blocks, stable).commit
            &&& r.committable_prefix_rows == stream_fold(nodes, text_rows, blocks, stable).prefix
        }
}

/// Compiles `view` into physical rows at `max_width` (at least one column)
/// with commit metadata against `stable_through`. `atomic_blocks` holds,
/// for each atomic node in order, the rows its view compiles to and
/// whether they represent it completely.
pub fn compile_stream(
    compiler: &ViewCompiler,
    view: &StreamView,
    max_width: u16,
    stable_through: StreamOffset,
    atomic_blocks: Vec<(Vec<PhysicalLine>, bool)>,
) -> (r: CompiledStream<PhysicalLine>)
    requires
        atomic_count(view.nodes@) == atomic_blocks@.len(),
        texts_compile(compiler.theme, view.nodes@),
    ensures
        compiled_stream_ok(compiler.theme, view.nodes@, max_width, stable_through, block_views(atomic_blocks@), r),
{
    let width: u16 = if max_width == 0 {
        1
    } else {
        max_width
    };
    let ghost nodes = view.nodes@;
    let ghost all_blocks = block_views(atomic_blocks@);
    let total = atomic_blocks.len();
    let mut blocks = atomic_blocks;
    let mut rows: Vec<PhysicalLine> = Vec::new();
    let mut commit: Vec<StreamRowCommit> = Vec::new();
    let mut prefix: usize = 0;
    let mut blocked = false;
    let mut atomics: usize = 0;
    let ghost mut text_rows: Seq<Seq<CompiledTextRow>> = Seq::empty();
    proof {
        assert(nodes.take(0) =~= Seq::<StreamNode>::empty());
        assert(line_views(rows@) =~= Seq::<LineView>::empty());
        assert(state_of(rows@, commit@, prefix, blocked, atomics) == initial_state());
        assert(all_blocks.skip(0) =~= all_blocks);
    }
    let mut i: usize = 0;
    while i < view.nodes.len()
        invariant
            nodes == view.nodes@,
            0 <= i <= nodes.len(),
            texts_compile(compiler.theme, nodes),
            atomic_count(nodes) == all_blocks.len(),
            all_blocks.len() == total,
            atomics as int == atomic_count(nodes.take(i as int)),
            block_views(blocks@) == all_blocks.skip(atomics as int),
            width == if max_width == 0 { 1 } else { max_width },
            text_rows.len() == i,
            forall|j: int|
                0 <= j < i ==> (#[trigger] nodes[j] matches StreamNode::Text(text) ==> text_rows_of(
                    compiler.theme,
                    text,
                    width,
                    text_rows[j],
                )),
            state_of(rows@, commit@, prefix, blocked, atomics) == stream_fold(
                nodes.take(i as int),
                text_rows,
                all_blocks,
                stable_through,
            ),
            shape_ok(state_of(rows@, commit@, prefix, blocked, atomics), stable_through),
        decreases nodes.len() - i,
    {
        let ghost st0 = state_of(rows@, commit@, prefix, blocked, atomics);
        let ghost old_text_rows = text_rows;
        proof {
            assert(nodes.take(i + 1).drop_last() =~= nodes.take(i as int));
            assert(nodes.take(i + 1).last() == nodes[i as int]);
            lemma_atomic_count_step(nodes, i as int);
            lemma_atomic_count_bounded(nodes, i + 1);
        }
        match &view.nodes[i] {
            StreamNode::Text(text) => {
                let (_w, compiled_rows) = compiler.compile_projected_text_with_metadata(text, width);
                let ghost crows = compiled_rows@;
                let final_offset = text.owned_range().end;
                let row_count = compiled_rows.len();
                if row_count == 0 {
                    let empty = PhysicalLine { spans: Vec::new() };
                    let ghost before_rows = rows@;
                    proof {
                        assert(line_view(empty) =~= Seq::<(Seq<char>, PhysicalStyle)>::empty());
                        lemma_push_text_row_shape(st0, Seq::empty(), final_offset, true, stable_through);
                    }
                    rows.push(empty);
                    if !blocked && final_offset.0 <= stable_through.0 {
                        commit.push(StreamRowCommit::Exact(final_offset));
                        let _ = commit.len();
                        prefix = prefix + 1;
                    } else {
                        blocked = true;
                        commit.push(StreamRowCommit::Blocked);
                    }
                    proof {
                        assert(line_views(rows@) =~= line_views(before_rows).push(Seq::empty()));
                    }
                } else {
                    let mut r_idx: usize = 0;
                    for row in it: compiled_rows
                        invariant
                            it.seq() == crows,
                            r_idx == it.index(),
                            row_count == crows.len(),
                            final_offset == text.spec_owned_range().end,
                            shape_ok(st0, stable_through),
                            state_of(rows@, commit@, prefix, blocked, atomics) == text_rows_fold(
                                st0,
                                *text,
                                crows,
                                stable_through,
                                r_idx as int,
                            ),
                            shape_ok(state_of(rows@, commit@, prefix, blocked, atomics), stable_through),
                    {
                        let ghost here = state_of(rows@, commit@, prefix, blocked, atomics);
                        let ghost before_rows = rows@;
                        let is_last = r_idx + 1 == row_count;
                        let offset = if is_last {
                            final_offset
                        } else {
                            match row.source_end {
                                Some(relative) => text.content_range.start.saturating_add(relative as u64),
                                None => text.content_range.start,
                            }
                        };
                        proof {
                            assert(row == crows[r_idx as int]);
                            assert(offset == text_row_offset(*text, crows, r_idx as int));
                            lemma_push_text_row_shape(here, line_view(row.line), offset, row.fits, stable_through);
                        }
                        let fits = row.fits;
                        rows.push(row.line);
                        if !blocked && fits && offset.0 <= stable_through.0 {
                            commit.push(StreamRowCommit::Exact(offset));
                            let _ = commit.len();
                            prefix = prefix + 1;
                        } else {
                            blocked = true;
                            commit.push(StreamRowCommit::Blocked);
                        }
                        proof {
                            assert(line_views(rows@) =~= line_views(before_rows).push(line_view(crows[r_idx as int].line)));
                        }
                        r_idx = r_idx + 1;
                    }
                }
                proof {
                    text_rows = text_rows.push(crows);
                    assert(text_rows.drop_last() =~= old_text_rows);
                }
            },
            StreamNode::Atomic { range, .. } => {
                proof {
                    assert(nodes[i as int] is Atomic);
                    assert(block_views(blocks@).len() == blocks@.len());
                    assert(blocks@.len() > 0);
                    assert(block_views(blocks@)[0] == all_blocks[atomics as int]);
                }
                let ghost old_blocks = blocks@;
                let (lines, complete) = blocks.remove(0);
                let ghost lseq = lines@;
                let ghost block = (line_views(lseq), complete);
                let all_safe = !blocked && range.end.0 <= stable_through.0 && complete;
                atomics = atomics + 1;
                let group = StreamAtomicId(atomics);
                proof {
                    assert(block == all_blocks[st0.atomics]);
                    assert(blocks@ =~= old_blocks.subrange(1, old_blocks.len() as int));
                    assert forall|k: int| 0 <= k < blocks@.len() implies #[trigger] block_views(blocks@)[k]
                        == all_blocks.skip(atomics as int)[k] by {
                        assert(block_views(blocks@)[k] == block_views(old_blocks)[k + 1]);
                    }
                    assert(block_views(blocks@) =~= all_blocks.skip(atomics as int));
                }
                let line_count = lines.len();
                let mut r_idx: usize = 0;
                for line in it: lines
                    invariant
                        it.seq() == lseq,
                        line_count == lseq.len(),
                        r_idx == it.index(),
                        block == (line_views(lseq), complete),
                        group == StreamAtomicId((st0.atomics + 1) as usize),
                        atomics as int == st0.atomics + 1,
                        all_safe == (!st0.blocked && range.end.0 <= stable_through.0 && complete),
                        shape_ok(st0, stable_through),
                        state_of(rows@, commit@, prefix, blocked, atomics) == (CompileState {
                            atomics: st0.atomics + 1,
                            ..atomic_rows_fold(st0, block.0, group, range.end, all_safe, r_idx as int)
                        }),
                {
                    let ghost before_rows = rows@;
                    proof {
                        assert(line == lseq[r_idx as int]);
                        lemma_atomic_rows_shape(st0, block.0, group, range.end, all_safe, stable_through, r_idx + 1);
                    }
                    rows.push(line);
                    if all_safe {
                        commit.push(StreamRowCommit::Atomic { group, source_end: range.end });
                        let _ = commit.len();
                        prefix = prefix + 1;
                    } else {
                        blocked = true;
                        commit.push(StreamRowCommit::Blocked);
                    }
                    proof {
                        assert(line_views(rows@) =~= line_views(before_rows).push(block.0[r_idx as int]));
                    }
                    r_idx = r_idx + 1;
                }
                proof {
                    lemma_atomic_rows_shape(st0, block.0, group, range.end, all_safe, stable_through, lseq.len() as int);
                    text_rows = text_rows.push(Seq::empty());
                    assert(text_rows.drop_last() =~= old_text_rows);
                }
            },
        }
        i = i + 1;
    }
    proof {
        assert(nodes.take(i as int) =~= nodes);
    }
    CompiledStream { rows, commit, committable_prefix_rows: prefix }
}

} // verus!
