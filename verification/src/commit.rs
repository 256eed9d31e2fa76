//! Planning the promotion of compiled stream rows into native terminal
//! history: which physical rows may be written now, how far the semantic
//! commit cursor advances, and how a partially written atomic group is frozen.

use crate::stream::StreamOffset;
use vstd::prelude::*;

verus! {

/// Unique identifier for an atomic presentation group within a stream snapshot.
#[derive(Debug, Clone, Copy, PartialEq, Eq, Hash, Default, Structural)]
pub struct StreamAtomicId(pub usize);

/// Physical row commit metadata produced by the stream compiler.
#[derive(Debug, Clone, Copy, PartialEq, Eq, Structural)]
pub enum StreamRowCommit {
    /// The entire physical row may advance directly to this source boundary.
    Exact(StreamOffset),
    /// The row belongs to a stable atomic semantic region.
    Atomic { group: StreamAtomicId, source_end: StreamOffset },
    /// The row may not enter native history.
    Blocked,
}

/// Renderer-owned physical rows for atomic freeze.
#[derive(Debug, Clone, PartialEq)]
pub struct FrozenPhysicalRows<R>(pub Vec<R>);

impl<R> FrozenPhysicalRows<R> {
    pub fn new(rows: Vec<R>) -> (r: Self)
        ensures
            r.0@ == rows@,
    {
        FrozenPhysicalRows(rows)
    }

    pub fn len(&self) -> (r: usize)
        ensures
            r == self.0@.len(),
    {
        self.0.len()
    }

    pub fn is_empty(&self) -> (r: bool)
        ensures
            r == (self.0@.len() == 0),
    {
        self.0.len() == 0
    }

    pub fn as_slice(&self) -> (r: &[R])
        ensures
            r@ == self.0@,
    {
        self.0.as_slice()
    }
}

/// Payload specifying the exact physical rows to write to the terminal.
#[derive(Debug, Clone, PartialEq)]
pub enum CommitPayload<R> {
    /// Slice of rows from the compiled stream layout.
    Compiled { start: usize, len: usize },
    /// Slice of frozen physical rows from a prior atomic partial commit.
    Frozen { rows: FrozenPhysicalRows<R> },
}

impl<R> CommitPayload<R> {
    pub open spec fn spec_rows_to_write(&self) -> nat {
        match self {
            CommitPayload::Compiled { len, .. } => *len as nat,
            CommitPayload::Frozen { rows } => rows.0@.len(),
        }
    }

    pub fn rows_to_write(&self) -> (r: usize)
        ensures
            r == self.spec_rows_to_write(),
    {
        match self {
            CommitPayload::Compiled { len, .. } => *len,
            CommitPayload::Frozen { rows } => rows.len(),
        }
    }

    pub fn is_empty(&self) -> (r: bool)
        ensures
            r == (self.spec_rows_to_write() == 0),
    {
        self.rows_to_write() == 0
    }
}

/// A compiled stream layout at a specific physical width.
#[derive(Debug, Clone, PartialEq)]
pub struct CompiledStream<R> {
    pub rows: Vec<R>,
    pub commit: Vec<StreamRowCommit>,
    pub committable_prefix_rows: usize,
}

impl<R> CompiledStream<R> {
    /// Row and commit metadata agree, and the committable prefix lies inside them.
    pub open spec fn wf(&self) -> bool {
        &&& self.rows@.len() == self.commit@.len()
        &&& self.committable_prefix_rows <= self.commit@.len()
    }
}

/// Persistent partial-commit state across frame / resize boundaries.
#[derive(Debug, Clone, PartialEq)]
pub enum StreamPartialCommit<R> {
    /// Frozen physical rows of an atomic region that was partially committed to history.
    FrozenAtomic {
        group: StreamAtomicId,
        source_end: StreamOffset,
        rows: FrozenPhysicalRows<R>,
        committed_rows: usize,
    },
}

/// Plan for promoting physical stream rows into native history.
#[derive(Debug, Clone, PartialEq)]
pub struct CommitPlan<R> {
    /// Exact physical rows to write to the terminal.
    pub payload: CommitPayload<R>,
    /// Source offset confirmed by native history after rows are successfully written.
    pub next_committed_through: StreamOffset,
    /// Next partial commit state after rows are successfully written.
    pub next_partial: Option<StreamPartialCommit<R>>,
}

/// Whether `dst` holds, element by element, clones of `src`.
pub open spec fn cloned_rows<R: Clone>(src: Seq<R>, dst: Seq<R>) -> bool {
    &&& src.len() == dst.len()
    &&& forall|i: int| 0 <= i < src.len() ==> cloned::<R>(#[trigger] src[i], dst[i])
}

/// A row whose source has already entered native history at `current`.
pub open spec fn already_committed(row: StreamRowCommit, current: StreamOffset) -> bool {
    match row {
        StreamRowCommit::Exact(end) => end.0 <= current.0,
        StreamRowCommit::Atomic { source_end, .. } => source_end.0 <= current.0,
        StreamRowCommit::Blocked => false,
    }
}

/// Whether a row belongs to atomic group `group`.
pub open spec fn is_group_row(row: StreamRowCommit, group: StreamAtomicId) -> bool {
    match row {
        StreamRowCommit::Atomic { group: g, .. } => g == group,
        _ => false,
    }
}

/// First index at or after `idx` of the contiguous run of rows of atomic
/// group `group` that starts at `idx`, i.e. the end of that run.
pub open spec fn atomic_run_end(commit: Seq<StreamRowCommit>, idx: int, group: StreamAtomicId) -> int
    decreases commit.len() - idx,
{
    if 0 <= idx < commit.len() && is_group_row(commit[idx], group) {
        atomic_run_end(commit, idx + 1, group)
    } else {
        idx
    }
}

pub proof fn lemma_atomic_run_end(commit: Seq<StreamRowCommit>, idx: int, group: StreamAtomicId)
    requires
        0 <= idx,
    ensures
        idx <= atomic_run_end(commit, idx, group),
        idx <= commit.len() ==> atomic_run_end(commit, idx, group) <= commit.len(),
        forall|k: int|
            idx <= k < atomic_run_end(commit, idx, group) ==> is_group_row(#[trigger] commit[k], group),
        atomic_run_end(commit, idx, group) < commit.len() ==> !is_group_row(commit[atomic_run_end(commit, idx, group)], group),
    decreases commit.len() - idx,
{
    if 0 <= idx < commit.len() && is_group_row(commit[idx], group) {
        lemma_atomic_run_end(commit, idx + 1, group);
    }
}

/// How the commit walk over the uncommitted rows ended.
pub enum CommitWalk {
    /// Every row up to `end` is written; the cursor advanced to `cursor`.
    Complete { end: int, cursor: StreamOffset },
    /// An atomic group starting at `group_start` did not fit: the rows before
    /// it plus `take` of its rows are written and the group is frozen.
    Split {
        group_start: int,
        group_end: int,
        group: StreamAtomicId,
        source_end: StreamOffset,
        take: int,
        cursor: StreamOffset,
    },
}

/// The walk that writes rows from `idx` on: exact rows advance the cursor to
/// their boundary, a whole atomic group advances it to the group's source
/// end, a blocked row or the committable bound stops the walk, and at most
/// `desired` rows counted from `start` are written.
pub open spec fn commit_walk(
    commit: Seq<StreamRowCommit>,
    bound: int,
    desired: int,
    start: int,
    idx: int,
    cursor: StreamOffset,
) -> CommitWalk
    decreases bound - idx,
{
    if idx >= bound || idx < 0 || idx - start >= desired {
        CommitWalk::Complete { end: idx, cursor }
    } else {
        match commit[idx] {
            StreamRowCommit::Exact(offset) => commit_walk(commit, bound, desired, start, idx + 1, offset),
            StreamRowCommit::Atomic { group, source_end } => {
                let group_end = atomic_run_end(commit, idx, group);
                if group_end - idx <= desired - (idx - start) && group_end <= bound && group_end > idx {
                    commit_walk(commit, bound, desired, start, group_end, source_end)
                } else {
                    let room = desired - (idx - start);
                    let left = bound - idx;
                    CommitWalk::Split {
                        group_start: idx,
                        group_end,
                        group,
                        source_end,
                        take: if room < left { room } else { left },
                        cursor,
                    }
                }
            },
            StreamRowCommit::Blocked => CommitWalk::Complete { end: idx, cursor },
        }
    }
}

/// The first index at or after `idx` whose row has not already been
/// committed, bounded by `bound`.
pub open spec fn first_uncommitted(
    commit: Seq<StreamRowCommit>,
    bound: int,
    idx: int,
    current: StreamOffset,
) -> int
    decreases bound - idx,
{
    if idx >= bound || idx < 0 {
        idx
    } else if already_committed(commit[idx], current) {
        first_uncommitted(commit, bound, idx + 1, current)
    } else {
        idx
    }
}

/// The plan that drains a frozen atomic partial commit.
pub open spec fn frozen_plan_ok<R: Clone>(
    plan: CommitPlan<R>,
    desired_rows: usize,
    group: StreamAtomicId,
    source_end: StreamOffset,
    rows: Seq<R>,
    committed_rows: usize,
    current: StreamOffset,
) -> bool {
    let remaining = if rows.len() >= committed_rows { rows.len() - committed_rows } else { 0 };
    let to_commit = if (desired_rows as int) < remaining { desired_rows as int } else { remaining };
    &&& plan.payload matches CommitPayload::Frozen { rows: written }
    &&& if to_commit == 0 { written.0@.len() == 0 } else {
        cloned_rows(rows.subrange(committed_rows as int, committed_rows + to_commit), written.0@)
    }
    &&& if to_commit == 0 {
        &&& plan.next_committed_through == current
        &&& plan.next_partial matches Some(StreamPartialCommit::FrozenAtomic { group: g, source_end: se, rows: kept, committed_rows: c })
        &&& g == group && se == source_end && c == committed_rows && cloned_rows(rows, kept.0@)
    } else if committed_rows + to_commit >= rows.len() {
        &&& plan.next_committed_through == source_end
        &&& plan.next_partial is None
    } else {
        &&& plan.next_committed_through == current
        &&& plan.next_partial matches Some(StreamPartialCommit::FrozenAtomic { group: g, source_end: se, rows: kept, committed_rows: c })
        &&& g == group && se == source_end && c == committed_rows + to_commit && cloned_rows(rows, kept.0@)
    }
}

/// The plan for fresh compiled rows.
pub open spec fn compiled_plan_ok<R: Clone>(
    plan: CommitPlan<R>,
    compiled: CompiledStream<R>,
    desired_rows: usize,
    current: StreamOffset,
) -> bool {
    let bound = compiled.committable_prefix_rows as int;
    if desired_rows == 0 || bound == 0 {
        &&& plan.payload == CommitPayload::<R>::Compiled { start: 0, len: 0 }
        &&& plan.next_committed_through == current
        &&& plan.next_partial is None
    } else {
        let start = first_uncommitted(compiled.commit@, bound, 0, current);
        match commit_walk(compiled.commit@, bound, desired_rows as int, start, start, current) {
            CommitWalk::Complete { end, cursor } => {
                &&& plan.payload == CommitPayload::<R>::Compiled { start: start as usize, len: (end - start) as usize }
                &&& plan.next_committed_through == cursor
                &&& plan.next_partial is None
            },
            CommitWalk::Split { group_start, group_end, group, source_end, take, cursor } => {
                &&& plan.payload == CommitPayload::<R>::Compiled { start: start as usize, len: (group_start - start + take) as usize }
                &&& plan.next_committed_through == cursor
                &&& plan.next_partial matches Some(StreamPartialCommit::FrozenAtomic { group: g, source_end: se, rows: frozen, committed_rows: c })
                &&& g == group && se == source_end && c == take
                &&& cloned_rows(compiled.rows@.subrange(group_start, group_end), frozen.0@)
            },
        }
    }
}

fn in_group(commit: &Vec<StreamRowCommit>, idx: usize, group: StreamAtomicId) -> (r: bool)
    requires
        idx < commit@.len(),
    ensures
        r == is_group_row(commit@[idx as int], group),
{
    match &commit[idx] {
        StreamRowCommit::Atomic { group: g, .. } => g.0 == group.0,
        _ => false,
    }
}

/// The plan that [`plan_commit`] returns for these inputs.
pub open spec fn plan_commit_ok<R: Clone>(
    plan: CommitPlan<R>,
    compiled: CompiledStream<R>,
    desired_rows: usize,
    partial: Option<&StreamPartialCommit<R>>,
    current: StreamOffset,
) -> bool {
    match partial {
        Some(StreamPartialCommit::FrozenAtomic { group, source_end, rows, committed_rows }) =>
            frozen_plan_ok(plan, desired_rows, *group, *source_end, rows.0@, *committed_rows, current),
        None => compiled_plan_ok(plan, compiled, desired_rows, current),
    }
}

/// Clones `rows[from..to]` into a new vector.
pub(crate) fn clone_range<R: Clone>(rows: &Vec<R>, from: usize, to: usize) -> (r: Vec<R>)
    requires
        from <= to <= rows@.len(),
    ensures
        cloned_rows(rows@.subrange(from as int, to as int), r@),
{
    let mut out: Vec<R> = Vec::new();
    let mut i = from;
    while i < to
        invariant
            from <= i <= to <= rows@.len(),
            out@.len() == i - from,
            forall|k: int| 0 <= k < out@.len() ==> cloned::<R>(#[trigger] rows@[from + k], out@[k]),
        decreases to - i,
    {
        let row = rows[i].clone();
        out.push(row);
        i += 1;
    }
    proof {
        assert forall|k: int| 0 <= k < out@.len() implies cloned::<R>(
            #[trigger] rows@.subrange(from as int, to as int)[k],
            out@[k],
        ) by {
            assert(rows@.subrange(from as int, to as int)[k] == rows@[from + k]);
        }
    }
    out
}

/// Central commit planner below the host.
///
/// Determines how many physical rows may be safely promoted to native history,
/// planning cursor advancement and atomic row freezing without mutating state.
pub fn plan_commit<R: Clone>(
    compiled: &CompiledStream<R>,
    desired_rows: usize,
    partial: Option<&StreamPartialCommit<R>>,
    current_committed_through: StreamOffset,
) -> (plan: CommitPlan<R>)
    requires
        compiled.wf(),
    ensures
        plan_commit_ok(plan, *compiled, desired_rows, partial, current_committed_through),
{
    if let Some(StreamPartialCommit::FrozenAtomic { group, source_end, rows, committed_rows }) = partial {
        let total = rows.len();
        let remaining_frozen = if total >= *committed_rows { total - *committed_rows } else { 0 };
        let to_commit = if desired_rows < remaining_frozen { desired_rows } else { remaining_frozen };
        if to_commit == 0 {
            let kept = rows.0.clone();
            proof {
                assert(cloned_rows(rows.0@, kept@));
            }
            return CommitPlan {
                payload: CommitPayload::Frozen { rows: FrozenPhysicalRows::new(Vec::new()) },
                next_committed_through: current_committed_through,
                next_partial: Some(StreamPartialCommit::FrozenAtomic {
                    group: *group,
                    source_end: *source_end,
                    rows: FrozenPhysicalRows::new(kept),
                    committed_rows: *committed_rows,
                }),
            };
        }
        let slice = clone_range(&rows.0, *committed_rows, *committed_rows + to_commit);
        let new_committed = *committed_rows + to_commit;
        if new_committed >= total {
            return CommitPlan {
                payload: CommitPayload::Frozen { rows: FrozenPhysicalRows::new(slice) },
                next_committed_through: *source_end,
                next_partial: None,
            };
        } else {
            let kept = rows.0.clone();
            proof {
                assert(cloned_rows(rows.0@, kept@));
            }
            return CommitPlan {
                payload: CommitPayload::Frozen { rows: FrozenPhysicalRows::new(slice) },
                next_committed_through: current_committed_through,
                next_partial: Some(StreamPartialCommit::FrozenAtomic {
                    group: *group,
                    source_end: *source_end,
                    rows: FrozenPhysicalRows::new(kept),
                    committed_rows: new_committed,
                }),
            };
        }
    }
    let bound = compiled.committable_prefix_rows;
    if desired_rows == 0 || bound == 0 {
        return CommitPlan {
            payload: CommitPayload::Compiled { start: 0, len: 0 },
            next_committed_through: current_committed_through,
            next_partial: None,
        };
    }
    let ghost commit = compiled.commit@;
    let mut cursor = current_committed_through;
    let mut row_idx: usize = 0;

    // Skip rows that have already entered native history in earlier
    // transactions: exact rows at or before the cursor and whole atomic groups
    // whose source ends at or before it.
    while row_idx < bound
        invariant
            compiled.wf(),
            bound == compiled.committable_prefix_rows,
            commit == compiled.commit@,
            0 <= row_idx <= bound,
            first_uncommitted(commit, bound as int, 0, current_committed_through)
                == first_uncommitted(commit, bound as int, row_idx as int, current_committed_through),
        ensures
            row_idx as int == first_uncommitted(commit, bound as int, 0, current_committed_through),
        decreases bound - row_idx,
    {
        let done = match &compiled.commit[row_idx] {
            StreamRowCommit::Exact(end) => end.0 <= current_committed_through.0,
            StreamRowCommit::Atomic { source_end, .. } => source_end.0 <= current_committed_through.0,
            StreamRowCommit::Blocked => false,
        };
        if !done {
            break;
        }
        row_idx += 1;
    }
    let uncommitted_start = row_idx;
    assert(uncommitted_start as int == first_uncommitted(commit, bound as int, 0, current_committed_through));
    let ghost start = uncommitted_start as int;
    let ghost desired = desired_rows as int;

    while row_idx < bound && row_idx - uncommitted_start < desired_rows
        invariant
            compiled.wf(),
            bound == compiled.committable_prefix_rows,
            commit == compiled.commit@,
            start == uncommitted_start,
            desired == desired_rows,
            partial is None,
            start == first_uncommitted(commit, bound as int, 0, current_committed_through),
            0 < bound,
            uncommitted_start <= row_idx <= bound,
            commit_walk(commit, bound as int, desired, start, start, current_committed_through)
                == commit_walk(commit, bound as int, desired, start, row_idx as int, cursor),
        ensures
            uncommitted_start <= row_idx <= bound,
            commit_walk(commit, bound as int, desired, start, start, current_committed_through)
                == (CommitWalk::Complete { end: row_idx as int, cursor }),
        decreases bound - row_idx,
    {
        match &compiled.commit[row_idx] {
            StreamRowCommit::Exact(offset) => {
                cursor = *offset;
                row_idx += 1;
            },
            StreamRowCommit::Atomic { group, source_end } => {
                let current_group = *group;
                let target_source_end = *source_end;
                let group_start = row_idx;
                let mut group_end = row_idx;
                proof {
                    lemma_atomic_run_end(commit, group_start as int, current_group);
                }
                while group_end < compiled.commit.len() && in_group(&compiled.commit, group_end, current_group)
                    invariant
                        compiled.wf(),
                        commit == compiled.commit@,
                        group_start <= group_end <= commit.len(),
                        atomic_run_end(commit, group_start as int, current_group)
                            == atomic_run_end(commit, group_end as int, current_group),
                    decreases commit.len() - group_end,
                {
                    group_end += 1;
                }
                let group_rows = group_end - group_start;
                let remaining_desired = desired_rows - (row_idx - uncommitted_start);
                if group_rows <= remaining_desired && group_end <= bound && group_end > group_start {
                    cursor = target_source_end;
                    row_idx = group_end;
                } else {
                    let left = bound - group_start;
                    let take_in_group = if remaining_desired < left { remaining_desired } else { left };
                    let frozen_rows = clone_range(&compiled.rows, group_start, group_end);
                    assert(commit_walk(commit, bound as int, desired, start, row_idx as int, cursor) == (CommitWalk::Split {
                        group_start: group_start as int,
                        group_end: group_end as int,
                        group: current_group,
                        source_end: target_source_end,
                        take: take_in_group as int,
                        cursor,
                    }));
                    let plan = CommitPlan {
                        payload: CommitPayload::Compiled {
                            start: uncommitted_start,
                            len: (row_idx - uncommitted_start) + take_in_group,
                        },
                        next_committed_through: cursor,
                        next_partial: Some(StreamPartialCommit::FrozenAtomic {
                            group: current_group,
                            source_end: target_source_end,
                            rows: FrozenPhysicalRows::new(frozen_rows),
                            committed_rows: take_in_group,
                        }),
                    };
                    return plan;
                }
            },
            StreamRowCommit::Blocked => {
                break;
            },
        }
    }
    CommitPlan {
        payload: CommitPayload::Compiled { start: uncommitted_start, len: row_idx - uncommitted_start },
        next_committed_through: cursor,
        next_partial: None,
    }
}


/// The source boundary a committable row advances the cursor to.
pub open spec fn row_boundary(row: StreamRowCommit) -> int {
    match row {
        StreamRowCommit::Exact(end) => end.0 as int,
        StreamRowCommit::Atomic { source_end, .. } => source_end.0 as int,
        StreamRowCommit::Blocked => 0,
    }
}

/// Source boundaries of the non-blocked rows in the committable prefix never
/// decrease from one row to a later one.
pub open spec fn monotone_boundaries(commit: Seq<StreamRowCommit>, bound: int) -> bool {
    forall|i: int, j: int|
        0 <= i <= j < bound && !(commit[i] is Blocked) && !(commit[j] is Blocked) ==> row_boundary(
            #[trigger] commit[i],
        ) <= row_boundary(#[trigger] commit[j])
}

proof fn lemma_walk_bounds(
    commit: Seq<StreamRowCommit>,
    bound: int,
    desired: int,
    start: int,
    idx: int,
    cursor: StreamOffset,
)
    requires
        0 <= start <= idx,
        idx <= bound,
        bound <= commit.len(),
        idx - start <= desired,
    ensures
        match commit_walk(commit, bound, desired, start, idx, cursor) {
            CommitWalk::Complete { end, .. } => idx <= end <= bound && end - start <= desired,
            CommitWalk::Split { group_start, group_end, take, .. } => {
                &&& idx <= group_start < bound
                &&& group_start < group_end <= commit.len()
                &&& 0 <= take
                &&& group_start - start + take <= desired
                &&& take < group_end - group_start
                &&& group_start + take <= bound
            },
        },
    decreases bound - idx,
{
    if idx >= bound || idx - start >= desired {
    } else {
        match commit[idx] {
            StreamRowCommit::Exact(offset) => lemma_walk_bounds(commit, bound, desired, start, idx + 1, offset),
            StreamRowCommit::Atomic { group, source_end } => {
                lemma_atomic_run_end(commit, idx, group);
                lemma_atomic_run_end(commit, idx + 1, group);
                let group_end = atomic_run_end(commit, idx, group);
                if group_end - idx <= desired - (idx - start) && group_end <= bound && group_end > idx {
                    lemma_walk_bounds(commit, bound, desired, start, group_end, source_end);
                }
            },
            StreamRowCommit::Blocked => {},
        }
    }
}

proof fn lemma_first_uncommitted(commit: Seq<StreamRowCommit>, bound: int, idx: int, current: StreamOffset)
    requires
        0 <= idx <= bound,
        bound <= commit.len(),
    ensures
        idx <= first_uncommitted(commit, bound, idx, current) <= bound,
        first_uncommitted(commit, bound, idx, current) < bound ==> !already_committed(
            commit[first_uncommitted(commit, bound, idx, current)],
            current,
        ),
    decreases bound - idx,
{
    if idx < bound && already_committed(commit[idx], current) {
        lemma_first_uncommitted(commit, bound, idx + 1, current);
    }
}

proof fn lemma_walk_cursor_monotone(
    commit: Seq<StreamRowCommit>,
    bound: int,
    desired: int,
    start: int,
    idx: int,
    cursor: StreamOffset,
    floor: int,
)
    requires
        0 <= start <= idx <= bound,
        bound <= commit.len(),
        monotone_boundaries(commit, bound),
        floor <= cursor.0,
        forall|k: int| idx <= k < bound && !(commit[k] is Blocked) ==> floor <= row_boundary(#[trigger] commit[k]),
    ensures
        match commit_walk(commit, bound, desired, start, idx, cursor) {
            CommitWalk::Complete { cursor: c, .. } => floor <= c.0,
            CommitWalk::Split { cursor: c, .. } => floor <= c.0,
        },
    decreases bound - idx,
{
    if idx >= bound || idx - start >= desired {
    } else {
        match commit[idx] {
            StreamRowCommit::Exact(offset) => {
                assert(floor <= row_boundary(commit[idx]));
                lemma_walk_cursor_monotone(commit, bound, desired, start, idx + 1, offset, floor);
            },
            StreamRowCommit::Atomic { group, source_end } => {
                lemma_atomic_run_end(commit, idx, group);
                lemma_atomic_run_end(commit, idx + 1, group);
                assert(floor <= row_boundary(commit[idx]));
                let group_end = atomic_run_end(commit, idx, group);
                if group_end - idx <= desired - (idx - start) && group_end <= bound && group_end > idx {
                    lemma_walk_cursor_monotone(commit, bound, desired, start, group_end, source_end, floor);
                }
            },
            StreamRowCommit::Blocked => {},
        }
    }
}

/// A commit plan never writes more rows than were asked for.
pub proof fn lemma_plan_respects_desired_rows<R: Clone>(
    plan: CommitPlan<R>,
    compiled: CompiledStream<R>,
    desired_rows: usize,
    partial: Option<&StreamPartialCommit<R>>,
    current: StreamOffset,
)
    requires
        compiled.wf(),
        plan_commit_ok(plan, compiled, desired_rows, partial, current),
    ensures
        plan.payload.spec_rows_to_write() <= desired_rows,
{
    if partial is None && desired_rows > 0 && compiled.committable_prefix_rows > 0 {
        let bound = compiled.committable_prefix_rows as int;
        lemma_first_uncommitted(compiled.commit@, bound, 0, current);
        let start = first_uncommitted(compiled.commit@, bound, 0, current);
        lemma_walk_bounds(compiled.commit@, bound, desired_rows as int, start, start, current);
    }
}

/// Written compiled rows stay inside the committable prefix.
pub proof fn lemma_plan_stays_in_committable_prefix<R: Clone>(
    plan: CommitPlan<R>,
    compiled: CompiledStream<R>,
    desired_rows: usize,
    current: StreamOffset,
)
    requires
        compiled.wf(),
        plan_commit_ok(plan, compiled, desired_rows, None, current),
    ensures
        plan.payload matches CommitPayload::Compiled { start, len } && start + len <= compiled.committable_prefix_rows,
{
    if desired_rows > 0 && compiled.committable_prefix_rows > 0 {
        let bound = compiled.committable_prefix_rows as int;
        lemma_first_uncommitted(compiled.commit@, bound, 0, current);
        let start = first_uncommitted(compiled.commit@, bound, 0, current);
        lemma_walk_bounds(compiled.commit@, bound, desired_rows as int, start, start, current);
    }
}

/// When the committable rows carry non-decreasing source boundaries, the
/// commit cursor never moves backwards.
pub proof fn lemma_plan_cursor_monotone<R: Clone>(
    plan: CommitPlan<R>,
    compiled: CompiledStream<R>,
    desired_rows: usize,
    current: StreamOffset,
)
    requires
        compiled.wf(),
        monotone_boundaries(compiled.commit@, compiled.committable_prefix_rows as int),
        plan_commit_ok(plan, compiled, desired_rows, None, current),
    ensures
        current.0 <= plan.next_committed_through.0,
{
    if desired_rows > 0 && compiled.committable_prefix_rows > 0 {
        let commit = compiled.commit@;
        let bound = compiled.committable_prefix_rows as int;
        lemma_first_uncommitted(commit, bound, 0, current);
        let start = first_uncommitted(commit, bound, 0, current);
        if start < bound && commit[start] is Blocked {
            assert(commit_walk(commit, bound, desired_rows as int, start, start, current) == (CommitWalk::Complete {
                end: start,
                cursor: current,
            }));
        } else {
            assert forall|k: int| start <= k < bound && !(commit[k] is Blocked) implies current.0 <= row_boundary(
                #[trigger] commit[k],
            ) by {
                assert(!already_committed(commit[start], current));
                assert(row_boundary(commit[start]) <= row_boundary(commit[k]));
            }
            lemma_walk_cursor_monotone(commit, bound, desired_rows as int, start, start, current, current.0 as int);
        }
    }
}

/// Freezing an atomic group that does not fit leaves at least one of its
/// rows still to be written.
pub proof fn lemma_split_leaves_remainder<R: Clone>(
    plan: CommitPlan<R>,
    compiled: CompiledStream<R>,
    desired_rows: usize,
    current: StreamOffset,
)
    requires
        compiled.wf(),
        plan_commit_ok(plan, compiled, desired_rows, None, current),
    ensures
        plan.next_partial matches Some(StreamPartialCommit::FrozenAtomic { rows, committed_rows, .. })
            ==> committed_rows < rows.0@.len(),
{
    if desired_rows > 0 && compiled.committable_prefix_rows > 0 {
        let bound = compiled.committable_prefix_rows as int;
        lemma_first_uncommitted(compiled.commit@, bound, 0, current);
        let start = first_uncommitted(compiled.commit@, bound, 0, current);
        lemma_walk_bounds(compiled.commit@, bound, desired_rows as int, start, start, current);
    }
}

/// Draining a frozen group makes progress whenever rows are requested and
/// some remain, and its cursor advances to the group's source end exactly
/// when the last frozen row is written.
pub proof fn lemma_frozen_drain_progress<R: Clone>(
    plan: CommitPlan<R>,
    compiled: CompiledStream<R>,
    desired_rows: usize,
    group: StreamAtomicId,
    source_end: StreamOffset,
    rows: FrozenPhysicalRows<R>,
    committed_rows: usize,
    current: StreamOffset,
)
    requires
        compiled.wf(),
        plan_commit_ok(
            plan,
            compiled,
            desired_rows,
            Some(&StreamPartialCommit::FrozenAtomic { group, source_end, rows, committed_rows }),
            current,
        ),
        committed_rows < rows.0@.len(),
        desired_rows > 0,
    ensures
        plan.payload.spec_rows_to_write() > 0,
        plan.next_partial matches Some(StreamPartialCommit::FrozenAtomic { committed_rows: next, .. })
            ==> committed_rows < next,
        plan.next_partial is None ==> plan.next_committed_through == source_end,
{
}

} // verus!
