//! The commit state of a hosted conversation stream: its leading boundary
//! row, its native-history cursor and a frozen atomic remainder, with the
//! frame preparation and the commit acknowledgement that move it.

use crate::commit::{
    cloned_rows, lemma_plan_cursor_monotone, lemma_plan_respects_desired_rows, lemma_plan_stays_in_committable_prefix,
    monotone_boundaries, plan_commit, plan_commit_ok, CommitPayload, CommitPlan, CompiledStream, FrozenPhysicalRows,
    StreamPartialCommit,
};
use crate::stream::{can_suffix, suffix_nodes, StreamNode, StreamOffset, StreamSnapshot, lowered};
use crate::view::{Decoration, View, ViewKind, WidthRule};
use crate::physical::PhysicalLine;
use crate::stream_compile::{atomic_count, block_views, compile_stream, compiled_stream_ok, line_views, texts_compile};
use crate::text_compile::ViewCompiler;
use vstd::prelude::*;
use vstd::view::View as _;

verus! {

/// Whether a hosted unit still owes the blank row that separates it from
/// the unit before it.
#[derive(Debug, Clone, Copy, PartialEq, Eq, Structural)]
pub enum LeadingBoundaryState {
    /// The unit has no leading boundary (it is the first one).
    NoBoundary,
    /// The boundary row is shown live and not yet in native history.
    Pending,
    /// The boundary row has been written to native history.
    Committed,
}

/// The exact physical native-history write and the semantic acknowledgement
/// it carries.
#[derive(Debug, PartialEq)]
pub struct PreparedHistoryWrite<R> {
    pub rows: FrozenPhysicalRows<R>,
    pub semantic_plan: CommitPlan<R>,
    pub commit_leading_boundary: bool,
}

/// A prepared live projection and its exact terminal-history transaction.
#[derive(Debug, PartialEq)]
pub struct PreparedStreamFrame<R> {
    pub live_rows: Vec<R>,
    pub history: PreparedHistoryWrite<R>,
}

/// The commit state of a hosted stream.
#[derive(Debug, PartialEq)]
pub struct StreamCommitState<R> {
    pub leading_boundary: LeadingBoundaryState,
    pub committed_through: StreamOffset,
    pub partial: Option<StreamPartialCommit<R>>,
}

/// The partial commit as the planner takes it.
pub open spec fn partial_ref<'a, R>(partial: &'a Option<StreamPartialCommit<R>>) -> Option<&'a StreamPartialCommit<R>> {
    match partial {
        Some(p) => Some(p),
        None => None,
    }
}

/// The rows a commit plan writes.
pub open spec fn planned_rows<R>(compiled: CompiledStream<R>, plan: CommitPlan<R>) -> Seq<R> {
    match plan.payload {
        CommitPayload::Compiled { start, len } => compiled.rows@.subrange(start as int, start + len),
        CommitPayload::Frozen { rows } => rows.0@,
    }
}

/// The rows shown live before any boundary row: what is left of a frozen
/// atomic group, then the compiled rows.
pub open spec fn live_source<R>(compiled: CompiledStream<R>, partial: Option<StreamPartialCommit<R>>) -> Seq<R> {
    match partial {
        Some(StreamPartialCommit::FrozenAtomic { rows, committed_rows, .. }) => rows.0@.skip(
            committed_rows as int,
        ) + compiled.rows@,
        None => compiled.rows@,
    }
}

/// `out` is `rows` copied, after a copy of `blank` when `first` holds.
pub open spec fn copied_after<R: Clone>(first: bool, blank: R, rows: Seq<R>, out: Seq<R>) -> bool {
    if first {
        &&& out.len() == rows.len() + 1
        &&& cloned::<R>(blank, out[0])
        &&& cloned_rows(rows, out.skip(1))
    } else {
        cloned_rows(rows, out)
    }
}

/// The rows asked of the planner: the pending boundary row counts against
/// the rows the terminal may take, though it is never written alone.
pub open spec fn semantic_desired(desired: usize, leading: LeadingBoundaryState) -> usize {
    if leading == LeadingBoundaryState::Pending {
        if desired >= 1 {
            (desired - 1) as usize
        } else {
            0
        }
    } else {
        desired
    }
}

/// A frozen atomic remainder never counts more written rows than it holds.
pub open spec fn partial_ok<R>(partial: Option<StreamPartialCommit<R>>) -> bool {
    partial matches Some(StreamPartialCommit::FrozenAtomic { rows, committed_rows, .. }) ==> committed_rows
        <= rows.0@.len()
}

/// `frame` is the frame prepared from `state` over `compiled` when the
/// terminal may take `desired` history rows.
pub open spec fn frame_ok<R: Clone>(
    state: StreamCommitState<R>,
    compiled: CompiledStream<R>,
    desired: usize,
    blank: R,
    frame: PreparedStreamFrame<R>,
) -> bool {
    let pending = state.leading_boundary == LeadingBoundaryState::Pending;
    let plan = frame.history.semantic_plan;
    let written = planned_rows(compiled, plan);
    &&& plan_commit_ok(
        plan,
        compiled,
        semantic_desired(desired, state.leading_boundary),
        partial_ref(&state.partial),
        state.committed_through,
    )
    &&& frame.history.commit_leading_boundary == (pending && written.len() > 0)
    &&& copied_after(frame.history.commit_leading_boundary, blank, written, frame.history.rows.0@)
    &&& copied_after(pending, blank, live_source(compiled, state.partial), frame.live_rows@)
}

/// The state after `history` was written in full.
pub open spec fn after_commit<R>(state: StreamCommitState<R>, history: PreparedHistoryWrite<R>) -> StreamCommitState<R> {
    StreamCommitState {
        leading_boundary: if history.commit_leading_boundary {
            LeadingBoundaryState::Committed
        } else {
            state.leading_boundary
        },
        committed_through: history.semantic_plan.next_committed_through,
        partial: history.semantic_plan.next_partial,
    }
}

/// Copies `rows[from..to]`, after a copy of `blank` when `first` holds.
fn copy_after<R: Clone>(first: bool, blank: &R, rows: &Vec<R>, from: usize, to: usize) -> (r: Vec<R>)
    requires
        from <= to <= rows@.len(),
    ensures
        copied_after(first, *blank, rows@.subrange(from as int, to as int), r@),
{
    let mut out: Vec<R> = Vec::new();
    if first {
        out.push(blank.clone());
    }
    let ghost lead: int = out@.len() as int;
    let mut i: usize = from;
    while i < to
        invariant
            from <= i <= to <= rows@.len(),
            lead == if first { 1int } else { 0int },
            out@.len() == lead + (i - from),
            first ==> cloned::<R>(*blank, out@[0]),
            forall|k: int| 0 <= k < i - from ==> cloned::<R>(rows@[from + k], #[trigger] out@[lead + k]),
        decreases to - i,
    {
        out.push(rows[i].clone());
        i += 1;
    }
    proof {
        assert forall|k: int| 0 <= k < to - from implies cloned::<R>(
            #[trigger] rows@.subrange(from as int, to as int)[k],
            out@.skip(lead)[k],
        ) by {
            assert(out@.skip(lead)[k] == out@[lead + k]);
        }
        if !first {
            assert(out@.skip(0) =~= out@);
        }
    }
    out
}

impl<R: Clone> StreamCommitState<R> {
    /// A fresh hosted stream: nothing committed, with the given boundary.
    pub fn new(leading_boundary: LeadingBoundaryState) -> (r: Self)
        ensures
            r.leading_boundary == leading_boundary,
            r.committed_through == StreamOffset(0),
            r.partial is None,
    {
        StreamCommitState { leading_boundary, committed_through: StreamOffset::zero(), partial: None }
    }

    /// Prepares the live rows and the history write over `compiled`, the
    /// stream compiled from the commit cursor (from the end of a frozen
    /// group's source while one is being drained). A pending boundary row
    /// leads the live rows, and is written only together with stream rows.
    pub fn prepare_frame(&self, compiled: &CompiledStream<R>, desired_commit_rows: usize, blank: &R) -> (r:
        PreparedStreamFrame<R>)
        requires
            compiled.wf(),
            partial_ok(self.partial),
        ensures
            frame_ok(*self, *compiled, desired_commit_rows, *blank, r),
    {
        let pending = self.leading_boundary == LeadingBoundaryState::Pending;
        let semantic_desired_rows = if pending {
            if desired_commit_rows >= 1 {
                desired_commit_rows - 1
            } else {
                0
            }
        } else {
            desired_commit_rows
        };
        let partial = match &self.partial {
            Some(p) => Some(p),
            None => None,
        };
        let semantic_plan = plan_commit(compiled, semantic_desired_rows, partial, self.committed_through);
        let live_rows = match &self.partial {
            Some(StreamPartialCommit::FrozenAtomic { rows, committed_rows, .. }) => {
                let mut live = copy_after(pending, blank, &rows.0, *committed_rows, rows.0.len());
                proof {
                    assert(rows.0@.subrange(*committed_rows as int, rows.0@.len() as int) =~= rows.0@.skip(
                        *committed_rows as int,
                    ));
                }
                let ghost head = live@;
                let mut i: usize = 0;
                while i < compiled.rows.len()
                    invariant
                        0 <= i <= compiled.rows@.len(),
                        live@.len() == head.len() + i,
                        forall|k: int| 0 <= k < head.len() ==> live@[k] == head[k],
                        forall|k: int| 0 <= k < i ==> cloned::<R>(compiled.rows@[k], #[trigger] live@[head.len() + k]),
                    decreases compiled.rows@.len() - i,
                {
                    live.push(compiled.rows[i].clone());
                    i += 1;
                }
                proof {
                    let source = rows.0@.skip(*committed_rows as int);
                    let lead = if pending { 1int } else { 0int };
                    assert forall|k: int| 0 <= k < source.len() + compiled.rows@.len() implies cloned::<R>(
                        #[trigger] (source + compiled.rows@)[k],
                        live@.skip(lead)[k],
                    ) by {
                        if k < source.len() {
                            assert(head.skip(lead)[k] == head[lead + k]);
                            assert(live@.skip(lead)[k] == live@[lead + k]);
                        } else {
                            assert(live@.skip(lead)[k] == live@[head.len() + (k - source.len())]);
                        }
                    }
                    if pending {
                        assert(live@[0] == head[0]);
                    } else {
                        assert(live@.skip(0) =~= live@);
                    }
                }
                live
            },
            None => {
                let live = copy_after(pending, blank, &compiled.rows, 0, compiled.rows.len());
                proof {
                    assert(compiled.rows@.subrange(0, compiled.rows@.len() as int) =~= compiled.rows@);
                }
                live
            },
        };
        let written = semantic_plan.payload.rows_to_write();
        let commit_leading_boundary = pending && written > 0;
        let history_rows = match &semantic_plan.payload {
            CommitPayload::Compiled { start, len } => {
                proof {
                    lemma_plan_stays_in_committable_prefix(
                        semantic_plan,
                        *compiled,
                        semantic_desired_rows,
                        self.committed_through,
                    );
                }
                copy_after(commit_leading_boundary, blank, &compiled.rows, *start, *start + *len)
            },
            CommitPayload::Frozen { rows } => {
                let copies = copy_after(commit_leading_boundary, blank, &rows.0, 0, rows.0.len());
                proof {
                    assert(rows.0@.subrange(0, rows.0@.len() as int) =~= rows.0@);
                }
                copies
            },
        };
        PreparedStreamFrame {
            live_rows,
            history: PreparedHistoryWrite {
                rows: FrozenPhysicalRows::new(history_rows),
                semantic_plan,
                commit_leading_boundary,
            },
        }
    }

    /// Records that `transaction` was written to native history in full.
    pub fn apply_commit_success(&mut self, transaction: PreparedHistoryWrite<R>)
        ensures
            *final(self) == after_commit(*old(self), transaction),
    {
        if transaction.commit_leading_boundary {
            self.leading_boundary = LeadingBoundaryState::Committed;
        }
        let plan = transaction.semantic_plan;
        self.committed_through = plan.next_committed_through;
        self.partial = plan.next_partial;
    }

    /// The frozen rows that must still be written before the stream can be
    /// handed off.
    pub fn handoff_blocking_rows(&self) -> (r: usize)
        ensures
            r == match self.partial {
                Some(StreamPartialCommit::FrozenAtomic { rows, committed_rows, .. }) => if rows.0@.len()
                    >= committed_rows {
                    rows.0@.len() - committed_rows
                } else {
                    0
                },
                None => 0,
            },
    {
        match &self.partial {
            Some(StreamPartialCommit::FrozenAtomic { rows, committed_rows, .. }) => {
                if rows.len() >= *committed_rows {
                    rows.len() - *committed_rows
                } else {
                    0
                }
            },
            None => 0,
        }
    }
}

/// The leading boundary row is written only while it is pending, and never
/// alone: a history write that carries it carries at least one stream row
/// after it. A unit that owes no boundary never writes one.
pub proof fn lemma_boundary_never_written_alone<R: Clone>(
    state: StreamCommitState<R>,
    compiled: CompiledStream<R>,
    desired: usize,
    blank: R,
    frame: PreparedStreamFrame<R>,
)
    requires
        frame_ok(state, compiled, desired, blank, frame),
    ensures
        frame.history.commit_leading_boundary ==> state.leading_boundary == LeadingBoundaryState::Pending
            && frame.history.rows.0@.len() >= 2,
        state.leading_boundary != LeadingBoundaryState::Pending ==> !frame.history.commit_leading_boundary,
{
}

/// Preparing a frame is repeatable: two frames prepared from one state over
/// one compiled stream, for the same terminal room, decide the same history
/// write (the same boundary decision, the same cursor and partial commit to
/// follow, as many rows) and show as many live rows. Where cloning a row
/// gives back an equal row, the two frames hold the very same rows.
pub proof fn lemma_prepare_frame_repeatable<R: Clone>(
    state: StreamCommitState<R>,
    compiled: CompiledStream<R>,
    desired: usize,
    blank: R,
    first: PreparedStreamFrame<R>,
    second: PreparedStreamFrame<R>,
)
    requires
        frame_ok(state, compiled, desired, blank, first),
        frame_ok(state, compiled, desired, blank, second),
    ensures
        first.history.commit_leading_boundary == second.history.commit_leading_boundary,
        first.history.semantic_plan.next_committed_through == second.history.semantic_plan.next_committed_through,
        first.history.semantic_plan.next_partial is None <==> second.history.semantic_plan.next_partial is None,
        first.history.semantic_plan.payload.spec_rows_to_write()
            == second.history.semantic_plan.payload.spec_rows_to_write(),
        first.history.rows.0@.len() == second.history.rows.0@.len(),
        first.live_rows@.len() == second.live_rows@.len(),
        (forall|a: R, b: R| #[trigger] cloned::<R>(a, b) ==> a == b) ==> {
            &&& first.history.rows.0@ == second.history.rows.0@
            &&& first.live_rows@ == second.live_rows@
        },
{
    let pending = state.leading_boundary == LeadingBoundaryState::Pending;
    let written1 = planned_rows(compiled, first.history.semantic_plan);
    let written2 = planned_rows(compiled, second.history.semantic_plan);
    assert(written1.len() == written2.len());
    if forall|a: R, b: R| #[trigger] cloned::<R>(a, b) ==> a == b {
        assert(written1 =~= written2) by {
            if state.partial is Some {
                assert forall|k: int| 0 <= k < written1.len() implies written1[k] == written2[k] by {
                    let partial = state.partial->Some_0;
                    let rows = partial->FrozenAtomic_rows.0@;
                    let from = partial->FrozenAtomic_committed_rows as int;
                    assert(cloned::<R>(rows.subrange(from, from + written1.len())[k], written1[k]));
                    assert(cloned::<R>(rows.subrange(from, from + written1.len())[k], written2[k]));
                }
            }
        }
        lemma_copies_agree(first.history.commit_leading_boundary, blank, written1, first.history.rows.0@, second.history.rows.0@);
        lemma_copies_agree(pending, blank, live_source(compiled, state.partial), first.live_rows@, second.live_rows@);
    }
}

/// Two copies of the same rows, behind the same optional blank, agree where
/// cloning gives back an equal value.
proof fn lemma_copies_agree<R: Clone>(first: bool, blank: R, rows: Seq<R>, a: Seq<R>, b: Seq<R>)
    requires
        copied_after(first, blank, rows, a),
        copied_after(first, blank, rows, b),
        forall|x: R, y: R| #[trigger] cloned::<R>(x, y) ==> x == y,
    ensures
        a == b,
{
    let lead = if first { 1int } else { 0int };
    assert forall|k: int| 0 <= k < a.len() implies a[k] == b[k] by {
        if first && k == 0 {
            assert(cloned::<R>(blank, a[0]));
            assert(cloned::<R>(blank, b[0]));
        } else {
            assert(a.skip(lead)[k - lead] == a[k]);
            assert(b.skip(lead)[k - lead] == b[k]);
            assert(cloned::<R>(rows[k - lead], a.skip(lead)[k - lead]));
            assert(cloned::<R>(rows[k - lead], b.skip(lead)[k - lead]));
        }
    }
    if !first {
        assert(a.skip(0) =~= a);
        assert(b.skip(0) =~= b);
    }
    assert(a =~= b);
}

/// For physical rows, preparing a frame is repeatable in full: two frames
/// prepared from one state over one compiled stream, for the same terminal
/// room and the same blank row, write the same history rows and show the
/// same live rows, run for run, besides making the same plan decisions.
pub proof fn lemma_line_frame_repeatable(
    state: StreamCommitState<PhysicalLine>,
    compiled: CompiledStream<PhysicalLine>,
    desired: usize,
    blank: PhysicalLine,
    first: PreparedStreamFrame<PhysicalLine>,
    second: PreparedStreamFrame<PhysicalLine>,
)
    requires
        frame_ok(state, compiled, desired, blank, first),
        frame_ok(state, compiled, desired, blank, second),
    ensures
        first.history.commit_leading_boundary == second.history.commit_leading_boundary,
        first.history.semantic_plan.next_committed_through == second.history.semantic_plan.next_committed_through,
        first.history.semantic_plan.payload.spec_rows_to_write()
            == second.history.semantic_plan.payload.spec_rows_to_write(),
        line_views(first.history.rows.0@) == line_views(second.history.rows.0@),
        line_views(first.live_rows@) == line_views(second.live_rows@),
{
    lemma_prepare_frame_repeatable(state, compiled, desired, blank, first, second);
    let pending = state.leading_boundary == LeadingBoundaryState::Pending;
    let written1 = planned_rows(compiled, first.history.semantic_plan);
    let written2 = planned_rows(compiled, second.history.semantic_plan);
    assert(line_views(written1) =~= line_views(written2)) by {
        if state.partial is Some {
            assert forall|k: int| 0 <= k < written1.len() implies line_views(written1)[k] == line_views(
                written2,
            )[k] by {
                let partial = state.partial->Some_0;
                let rows = partial->FrozenAtomic_rows.0@;
                let from = partial->FrozenAtomic_committed_rows as int;
                assert(cloned::<PhysicalLine>(rows.subrange(from, from + written1.len())[k], written1[k]));
                assert(cloned::<PhysicalLine>(rows.subrange(from, from + written1.len())[k], written2[k]));
            }
        }
    }
    lemma_line_copies_agree(
        first.history.commit_leading_boundary,
        blank,
        written1,
        written2,
        first.history.rows.0@,
        second.history.rows.0@,
    );
    lemma_line_copies_agree(
        pending,
        blank,
        live_source(compiled, state.partial),
        live_source(compiled, state.partial),
        first.live_rows@,
        second.live_rows@,
    );
}

/// Copies of rows with the same runs, behind the same optional blank row,
/// have the same runs.
proof fn lemma_line_copies_agree(
    first: bool,
    blank: PhysicalLine,
    rows_a: Seq<PhysicalLine>,
    rows_b: Seq<PhysicalLine>,
    a: Seq<PhysicalLine>,
    b: Seq<PhysicalLine>,
)
    requires
        line_views(rows_a) == line_views(rows_b),
        copied_after(first, blank, rows_a, a),
        copied_after(first, blank, rows_b, b),
    ensures
        line_views(a) == line_views(b),
{
    let lead = if first { 1int } else { 0int };
    assert(rows_a.len() == line_views(rows_a).len());
    assert forall|k: int| 0 <= k < a.len() implies line_views(a)[k] == line_views(b)[k] by {
        if first && k == 0 {
            assert(cloned::<PhysicalLine>(blank, a[0]));
            assert(cloned::<PhysicalLine>(blank, b[0]));
        } else {
            assert(a.skip(lead)[k - lead] == a[k]);
            assert(b.skip(lead)[k - lead] == b[k]);
            assert(cloned::<PhysicalLine>(rows_a[k - lead], a.skip(lead)[k - lead]));
            assert(cloned::<PhysicalLine>(rows_b[k - lead], b.skip(lead)[k - lead]));
            assert(line_views(rows_a)[k - lead] == line_views(rows_b)[k - lead]);
        }
    }
    assert(line_views(a) =~= line_views(b));
}

/// A history write holds exactly the rows its plan writes, plus the
/// boundary row when it carries one; it carries the boundary row exactly
/// when the boundary is pending and the plan writes some row.
pub proof fn lemma_history_rows_match_plan<R: Clone>(
    state: StreamCommitState<R>,
    compiled: CompiledStream<R>,
    desired: usize,
    blank: R,
    frame: PreparedStreamFrame<R>,
)
    requires
        compiled.wf(),
        frame_ok(state, compiled, desired, blank, frame),
    ensures
        frame.history.commit_leading_boundary == (state.leading_boundary == LeadingBoundaryState::Pending
            && frame.history.semantic_plan.payload.spec_rows_to_write() > 0),
        frame.history.rows.0@.len() == frame.history.semantic_plan.payload.spec_rows_to_write() + if frame.history.commit_leading_boundary {
            1int
        } else {
            0int
        },
{
    if state.partial is None {
        lemma_plan_stays_in_committable_prefix(
            frame.history.semantic_plan,
            compiled,
            semantic_desired(desired, state.leading_boundary),
            state.committed_through,
        );
    }
}

/// Once a history write carrying the boundary row has been acknowledged,
/// the boundary is committed and no later frame writes it again.
pub proof fn lemma_boundary_written_once<R: Clone>(
    state: StreamCommitState<R>,
    compiled: CompiledStream<R>,
    desired: usize,
    blank: R,
    frame: PreparedStreamFrame<R>,
    later_compiled: CompiledStream<R>,
    later_desired: usize,
    later_blank: R,
    later: PreparedStreamFrame<R>,
)
    requires
        frame_ok(state, compiled, desired, blank, frame),
        frame.history.commit_leading_boundary,
        frame_ok(after_commit(state, frame.history), later_compiled, later_desired, later_blank, later),
    ensures
        after_commit(state, frame.history).leading_boundary == LeadingBoundaryState::Committed,
        !later.history.commit_leading_boundary,
{
}

/// A history write, boundary row included, never holds more rows than the
/// terminal may take.
pub proof fn lemma_history_respects_desired_rows<R: Clone>(
    state: StreamCommitState<R>,
    compiled: CompiledStream<R>,
    desired: usize,
    blank: R,
    frame: PreparedStreamFrame<R>,
)
    requires
        compiled.wf(),
        frame_ok(state, compiled, desired, blank, frame),
    ensures
        frame.history.rows.0@.len() <= desired,
{
    let plan = frame.history.semantic_plan;
    lemma_plan_respects_desired_rows(
        plan,
        compiled,
        semantic_desired(desired, state.leading_boundary),
        partial_ref(&state.partial),
        state.committed_through,
    );
    if state.partial is None {
        lemma_plan_stays_in_committable_prefix(
            plan,
            compiled,
            semantic_desired(desired, state.leading_boundary),
            state.committed_through,
        );
    }
}

/// Acknowledging a prepared write never moves the commit cursor backwards,
/// when the compiled rows carry non-decreasing source boundaries and a
/// frozen group's source does not end before the cursor.
pub proof fn lemma_commit_cursor_never_regresses<R: Clone>(
    state: StreamCommitState<R>,
    compiled: CompiledStream<R>,
    desired: usize,
    blank: R,
    frame: PreparedStreamFrame<R>,
)
    requires
        compiled.wf(),
        monotone_boundaries(compiled.commit@, compiled.committable_prefix_rows as int),
        state.partial matches Some(StreamPartialCommit::FrozenAtomic { source_end, .. }) ==> state.committed_through.0
            <= source_end.0,
        frame_ok(state, compiled, desired, blank, frame),
    ensures
        state.committed_through.0 <= after_commit(state, frame.history).committed_through.0,
{
    if state.partial is None {
        lemma_plan_cursor_monotone(
            frame.history.semantic_plan,
            compiled,
            semantic_desired(desired, state.leading_boundary),
            state.committed_through,
        );
    }
}

/// The immutable remainder of a sealed stream, handed to the transcript.
#[derive(Debug, PartialEq)]
pub struct ResidentStreamHandoff {
    pub unit_id: TranscriptUnitId,
    pub source_base: StreamOffset,
    pub source_end: StreamOffset,
    pub view: View,
    pub leading_boundary: LeadingBoundaryState,
}

/// `view` is the static lowering of `nodes`: a column holding each node's
/// lowered view, in order.
pub open spec fn static_view_of(nodes: Seq<StreamNode>, view: View) -> bool {
    &&& view.width == WidthRule::Fit
    &&& view.decoration == Decoration::spec_default()
    &&& view.kind matches ViewKind::Column(column) && column.gap == 0 && column.children@.len() == nodes.len()
        && forall|i: int| 0 <= i < nodes.len() ==> lowered(nodes[i], #[trigger] column.children@[i])
}

/// What a handoff of `snapshot` needs: a valid, fully stable snapshot whose
/// base is not past the commit cursor, a boundary that is no longer pending
/// once source has been dropped, and a cursor that cuts no atomic node.
pub open spec fn handoff_ok<R>(state: StreamCommitState<R>, snapshot: StreamSnapshot) -> bool {
    &&& snapshot.spec_valid()
    &&& snapshot.source_base.0 <= state.committed_through.0
    &&& snapshot.stable_through == snapshot.source_end
    &&& snapshot.source_base.0 > 0 ==> state.leading_boundary != LeadingBoundaryState::Pending
    &&& can_suffix(snapshot.view.nodes@, state.committed_through.0)
}

impl<R: Clone> StreamCommitState<R> {
    /// A sealed stream with nothing frozen may be handed off.
    pub fn can_handoff(&self, sealed: bool) -> (r: bool)
        ensures
            r == (sealed && self.partial is None),
    {
        sealed && self.partial.is_none()
    }

    /// Hands the part of the final `snapshot` that is not yet in native
    /// history to the transcript as unit `unit_id`, lowered to a static view.
    pub fn into_resident_handoff(self, unit_id: TranscriptUnitId, snapshot: &StreamSnapshot) -> (r:
        ResidentStreamHandoff)
        requires
            self.partial is None,
            handoff_ok(self, *snapshot),
        ensures
            r.unit_id == unit_id,
            r.source_base == self.committed_through,
            r.source_end == snapshot.source_end,
            r.leading_boundary == self.leading_boundary,
            exists|nodes: Seq<StreamNode>| suffix_nodes(snapshot.view.nodes@, self.committed_through.0, nodes)
                && static_view_of(nodes, r.view),
    {
        let suffix = snapshot.view.suffix_from(self.committed_through);
        let ghost nodes = suffix.nodes@;
        let view = suffix.into_static_view();
        proof {
            assert(static_view_of(nodes, view));
            assert(suffix_nodes(snapshot.view.nodes@, self.committed_through.0, nodes));
        }
        ResidentStreamHandoff {
            unit_id,
            source_base: self.committed_through,
            source_end: snapshot.source_end,
            view,
            leading_boundary: self.leading_boundary,
        }
    }
}

/// Process-local identity of one transcript unit.
#[derive(Debug, Clone, Copy, PartialEq, Eq, Hash, Structural)]
pub struct TranscriptUnitId(pub u64);

/// Whether a transcript entry may still change.
#[derive(Debug, Clone, Copy, PartialEq, Eq, Structural)]
pub enum EntryLifecycle {
    Open,
    Sealed,
}

/// Append-only streaming content with explicit source coordinates and
/// semantic stability.
pub trait StreamingContent {
    /// Whether compacting this content before `offset` may leave `after`.
    /// Content that does not say leaves every outcome possible.
    open spec fn compacts(&self, offset: StreamOffset, after: Self) -> bool where Self: Sized {
        true
    }

    /// Whether sealing this content may leave `after`. Content that does not
    /// say leaves every outcome possible.
    open spec fn seals(&self, after: Self) -> bool where Self: Sized {
        true
    }

    /// Width-independent semantic presentation of the current
    /// unacknowledged stream state.
    fn snapshot(&self) -> StreamSnapshot;

    /// Called only after native-history ownership has advanced to
    /// `offset`; the content may discard its state strictly before it.
    fn compact_before(&mut self, offset: StreamOffset) where Self: Sized
        ensures
            old(self).compacts(offset, *final(self)),
    ;

    /// Seals the stream against further mutation, stabilizing its final
    /// semantic content in place.
    fn seal(&mut self) where Self: Sized
        ensures
            old(self).seals(*final(self)),
    ;

    /// Whether the stream has been sealed.
    fn is_sealed(&self) -> bool;
}

/// A host-managed conversation stream: its unit identity, its content, and
/// the commit state that tracks how much of it native history owns.
#[derive(Debug)]
pub struct HostedStream<C, R> {
    pub unit_id: TranscriptUnitId,
    pub content: C,
    pub commit: StreamCommitState<R>,
    pub lifecycle: EntryLifecycle,
}

impl<C: StreamingContent, R: Clone> HostedStream<C, R> {
    /// An open stream for unit `unit_id` over `content`: nothing committed,
    /// with the given boundary.
    pub fn new(unit_id: TranscriptUnitId, content: C, leading_boundary: LeadingBoundaryState) -> (r: Self)
        ensures
            r.unit_id == unit_id,
            r.content == content,
            r.commit.leading_boundary == leading_boundary,
            r.commit.committed_through == StreamOffset(0),
            r.commit.partial is None,
            r.lifecycle == EntryLifecycle::Open,
    {
        HostedStream {
            unit_id,
            content,
            commit: StreamCommitState::new(leading_boundary),
            lifecycle: EntryLifecycle::Open,
        }
    }

    /// The content's current snapshot.
    pub fn snapshot(&self) -> (r: StreamSnapshot)
        ensures
            call_ensures(C::snapshot, (&self.content,), r),
    {
        let take = C::snapshot;
        take(&self.content)
    }

    /// Prepares the live rows and the history write over `compiled`, the
    /// content compiled from the commit cursor (from the end of a frozen
    /// group's source while one is being drained); the stream is not changed.
    pub fn prepare_frame(&self, compiled: &CompiledStream<R>, desired_commit_rows: usize, blank: &R) -> (r:
        PreparedStreamFrame<R>)
        requires
            compiled.wf(),
            partial_ok(self.commit.partial),
        ensures
            frame_ok(self.commit, *compiled, desired_commit_rows, *blank, r),
    {
        self.commit.prepare_frame(compiled, desired_commit_rows, blank)
    }

    /// Confirms that the complete prepared history `transaction` was
    /// written: the commit state moves on, the content is compacted before
    /// the new commit cursor, and the unit keeps its identity.
    pub fn apply_commit_success(&mut self, transaction: PreparedHistoryWrite<R>)
        ensures
            final(self).commit == after_commit(old(self).commit, transaction),
            old(self).content.compacts(final(self).commit.committed_through, final(self).content),
            final(self).unit_id == old(self).unit_id,
            final(self).lifecycle == old(self).lifecycle,
    {
        self.commit.apply_commit_success(transaction);
        let cursor = self.commit.committed_through;
        self.content.compact_before(cursor);
    }

    /// Whether the stream is sealed, by its own lifecycle or by its content.
    pub fn is_sealed(&self) -> (r: bool)
        ensures
            exists|content_sealed: bool|
                call_ensures(C::is_sealed, (&self.content,), content_sealed) && r == (self.lifecycle
                    == EntryLifecycle::Sealed || content_sealed),
    {
        if self.lifecycle == EntryLifecycle::Sealed {
            let ask = C::is_sealed;
            let _content_sealed = ask(&self.content);
            return true;
        }
        let ask = C::is_sealed;
        ask(&self.content)
    }

    /// Seals the stream: an unsealed stream is marked sealed and its content
    /// sealed; a sealed one is left as it is. The unit keeps its identity and
    /// commit state.
    pub fn seal(&mut self)
        ensures
            final(self).unit_id == old(self).unit_id,
            final(self).commit == old(self).commit,
            exists|was_sealed: bool|
                call_ensures(C::is_sealed, (&old(self).content,), was_sealed) && if old(self).lifecycle
                    == EntryLifecycle::Sealed || was_sealed {
                    final(self).lifecycle == old(self).lifecycle && final(self).content == old(self).content
                } else {
                    final(self).lifecycle == EntryLifecycle::Sealed && old(self).content.seals(final(self).content)
                },
    {
        if self.is_sealed() {
            return;
        }
        self.lifecycle = EntryLifecycle::Sealed;
        self.content.seal();
    }

    /// How many frozen rows must still be written before a handoff.
    pub fn handoff_blocking_rows(&self) -> (r: usize)
        ensures
            r == match self.commit.partial {
                Some(StreamPartialCommit::FrozenAtomic { rows, committed_rows, .. }) => if rows.0@.len()
                    >= committed_rows {
                    rows.0@.len() - committed_rows
                } else {
                    0
                },
                None => 0,
            },
    {
        self.commit.handoff_blocking_rows()
    }

    /// A sealed stream with nothing frozen may be handed off.
    pub fn can_handoff(&self) -> (r: bool)
        ensures
            exists|sealed: bool|
                call_ensures(C::is_sealed, (&self.content,), sealed) && r == ((self.lifecycle
                    == EntryLifecycle::Sealed || sealed) && self.commit.partial is None),
    {
        let sealed = self.is_sealed();
        self.commit.can_handoff(sealed)
    }

    /// Hands the part of the content's final `snapshot` that is not yet in
    /// native history to the transcript under this unit's identity.
    pub fn into_resident_handoff(self, snapshot: &StreamSnapshot) -> (r: ResidentStreamHandoff)
        requires
            self.commit.partial is None,
            handoff_ok(self.commit, *snapshot),
        ensures
            r.unit_id == self.unit_id,
            r.source_base == self.commit.committed_through,
            r.source_end == snapshot.source_end,
            r.leading_boundary == self.commit.leading_boundary,
            exists|nodes: Seq<StreamNode>| suffix_nodes(snapshot.view.nodes@, self.commit.committed_through.0, nodes)
                && static_view_of(nodes, r.view),
    {
        let HostedStream { unit_id, commit, .. } = self;
        commit.into_resident_handoff(unit_id, snapshot)
    }
}

/// Where the live stream starts: the end of a frozen group's source while
/// one is being drained, else the commit cursor.
pub open spec fn live_cut<R>(state: StreamCommitState<R>) -> StreamOffset {
    match state.partial {
        Some(StreamPartialCommit::FrozenAtomic { source_end, .. }) => source_end,
        None => state.committed_through,
    }
}

/// What compiling the live part of `snapshot` for `state` needs: the cut
/// splits no atomic node, and every live stream has one compiled block per
/// atomic node and text that compiles.
pub open spec fn frame_source_ok<R>(
    state: StreamCommitState<R>,
    compiler: ViewCompiler,
    snapshot: StreamSnapshot,
    blocks: Seq<(Vec<PhysicalLine>, bool)>,
) -> bool {
    &&& can_suffix(snapshot.view.nodes@, live_cut(state).0)
    &&& forall|live: Seq<StreamNode>|
        #[trigger] suffix_nodes(snapshot.view.nodes@, live_cut(state).0, live) ==> atomic_count(live) == blocks.len()
            && texts_compile(compiler.theme, live)
}

impl<C: StreamingContent> HostedStream<C, PhysicalLine> {
    /// Prepares the frame at `width` from the content's `snapshot`: the
    /// part of it from the live cut on is compiled against the snapshot's
    /// stable frontier (its atomic nodes having compiled to
    /// `atomic_blocks`), then planned as [`HostedStream::prepare_frame`]
    /// does, with empty rows for the boundary. The stream is not changed.
    pub fn prepare_frame_from_snapshot(
        &self,
        compiler: &ViewCompiler,
        snapshot: &StreamSnapshot,
        width: u16,
        desired_commit_rows: usize,
        atomic_blocks: Vec<(Vec<PhysicalLine>, bool)>,
    ) -> (r: PreparedStreamFrame<PhysicalLine>)
        requires
            partial_ok(self.commit.partial),
            frame_source_ok(self.commit, *compiler, *snapshot, atomic_blocks@),
        ensures
            exists|live: Seq<StreamNode>, compiled: CompiledStream<PhysicalLine>, blank: PhysicalLine|
                {
                    &&& suffix_nodes(snapshot.view.nodes@, live_cut(self.commit).0, live)
                    &&& compiled_stream_ok(
                        compiler.theme,
                        live,
                        width,
                        snapshot.stable_through,
                        block_views(atomic_blocks@),
                        compiled,
                    )
                    &&& blank.spans@.len() == 0
                    &&& frame_ok(self.commit, compiled, desired_commit_rows, blank, r)
                },
    {
        let cut = match &self.commit.partial {
            Some(StreamPartialCommit::FrozenAtomic { source_end, .. }) => *source_end,
            None => self.commit.committed_through,
        };
        let live = snapshot.view.suffix_from(cut);
        let ghost blocks = atomic_blocks@;
        let compiled = compile_stream(compiler, &live, width, snapshot.stable_through, atomic_blocks);
        let blank = PhysicalLine { spans: Vec::new() };
        let frame = self.commit.prepare_frame(&compiled, desired_commit_rows, &blank);
        proof {
            assert(suffix_nodes(snapshot.view.nodes@, live_cut(self.commit).0, live.nodes@));
        }
        frame
    }
}

} // verus!
