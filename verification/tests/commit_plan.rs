use iyon_tui::commit::{
    plan_commit, CommitPayload, CompiledStream, FrozenPhysicalRows, StreamAtomicId, StreamPartialCommit,
    StreamRowCommit,
};
use iyon_tui::stream::StreamOffset;

fn atomic(group: usize, end: u64) -> StreamRowCommit {
    StreamRowCommit::Atomic { group: StreamAtomicId(group), source_end: StreamOffset::new(end) }
}

fn exact(end: u64) -> StreamRowCommit {
    StreamRowCommit::Exact(StreamOffset::new(end))
}

fn compiled(commit: Vec<StreamRowCommit>, prefix: usize) -> CompiledStream<String> {
    let rows = (0..commit.len()).map(|i| format!("row {i}")).collect();
    CompiledStream { rows, commit, committable_prefix_rows: prefix }
}

#[test]
fn replanning_skips_a_fully_committed_atomic_group() {
    let compiled = compiled(vec![atomic(0, 30), atomic(0, 30), atomic(0, 30)], 3);
    assert_eq!(compiled.rows.len(), 3);
    assert_eq!(compiled.committable_prefix_rows, 3);

    let plan1 = plan_commit(&compiled, 3, None, StreamOffset::new(0));
    assert_eq!(plan1.payload.rows_to_write(), 3);
    assert_eq!(plan1.next_committed_through, StreamOffset::new(30));
    assert_eq!(plan1.next_partial, None);

    let plan2 = plan_commit(&compiled, 3, None, StreamOffset::new(30));
    assert_eq!(plan2.payload.rows_to_write(), 0);
    assert_eq!(plan2.next_committed_through, StreamOffset::new(30));
}

#[test]
fn replanning_skips_committed_exact_and_atomic_rows() {
    let compiled = compiled(vec![exact(5), atomic(1, 20), atomic(1, 20), exact(24)], 4);
    assert_eq!(compiled.rows.len(), 4);

    let plan = plan_commit(&compiled, 10, None, StreamOffset::new(20));
    assert_eq!(plan.payload.rows_to_write(), 1);
    assert_eq!(plan.next_committed_through, StreamOffset::new(24));
    assert_eq!(plan.payload, CommitPayload::Compiled { start: 3, len: 1 });
}

#[test]
fn partial_atomic_commit_freezes_the_group_rows() {
    let compiled = compiled(vec![exact(4), atomic(2, 12), atomic(2, 12), atomic(2, 12)], 4);
    let plan = plan_commit(&compiled, 2, None, StreamOffset::new(0));
    assert_eq!(plan.payload, CommitPayload::Compiled { start: 0, len: 2 });
    assert_eq!(plan.next_committed_through, StreamOffset::new(4));
    assert_eq!(
        plan.next_partial,
        Some(StreamPartialCommit::FrozenAtomic {
            group: StreamAtomicId(2),
            source_end: StreamOffset::new(12),
            rows: FrozenPhysicalRows::new(vec!["row 1".to_string(), "row 2".to_string(), "row 3".to_string()]),
            committed_rows: 1,
        })
    );
}

#[test]
fn frozen_rows_are_written_before_anything_compiled() {
    let compiled = compiled(vec![exact(4)], 1);
    let partial = StreamPartialCommit::FrozenAtomic {
        group: StreamAtomicId(2),
        source_end: StreamOffset::new(12),
        rows: FrozenPhysicalRows::new(vec!["a".to_string(), "b".to_string(), "c".to_string()]),
        committed_rows: 1,
    };
    let plan = plan_commit(&compiled, 5, Some(&partial), StreamOffset::new(4));
    assert_eq!(plan.payload.rows_to_write(), 2);
    assert_eq!(
        plan.payload,
        CommitPayload::Frozen { rows: FrozenPhysicalRows::new(vec!["b".to_string(), "c".to_string()]) }
    );
    assert_eq!(plan.next_committed_through, StreamOffset::new(12));
    assert_eq!(plan.next_partial, None);
}

#[test]
fn blocked_rows_stop_the_commit() {
    let compiled = compiled(vec![exact(3), StreamRowCommit::Blocked, exact(9)], 3);
    let plan = plan_commit(&compiled, 3, None, StreamOffset::new(0));
    assert_eq!(plan.payload.rows_to_write(), 1);
    assert_eq!(plan.next_committed_through, StreamOffset::new(3));
}
