use iyon_tui::physical::PhysicalLine;
use iyon_tui::text_compile::ViewCompiler;
use iyon_tui::commit::{CompiledStream, StreamAtomicId, StreamPartialCommit, StreamRowCommit};
use iyon_tui::hosted::{
    EntryLifecycle, HostedStream, LeadingBoundaryState, StreamCommitState, StreamingContent, TranscriptUnitId,
};
use iyon_tui::stream::{StreamNode, StreamOffset, StreamRange, StreamRevision, StreamSnapshot, StreamView};
use iyon_tui::view::{TextSpan, ViewKind};

fn rows(names: &[&str]) -> Vec<String> {
    names.iter().map(|name| name.to_string()).collect()
}

fn atomic_group() -> CompiledStream<String> {
    let commit = StreamRowCommit::Atomic { group: StreamAtomicId(0), source_end: StreamOffset::new(30) };
    CompiledStream { rows: rows(&["head", "body 1", "body 2"]), commit: vec![commit; 3], committable_prefix_rows: 3 }
}

fn exact_rows() -> CompiledStream<String> {
    CompiledStream {
        rows: rows(&["one", "two"]),
        commit: vec![StreamRowCommit::Exact(StreamOffset::new(4)), StreamRowCommit::Exact(StreamOffset::new(8))],
        committable_prefix_rows: 2,
    }
}

#[test]
fn pending_boundary_is_written_with_the_first_atomic_row() {
    let state: StreamCommitState<String> = StreamCommitState::new(LeadingBoundaryState::Pending);
    let compiled = atomic_group();
    let frame = state.prepare_frame(&compiled, 2, &String::new());
    assert_eq!(frame.live_rows, rows(&["", "head", "body 1", "body 2"]));
    assert!(frame.history.commit_leading_boundary);
    assert_eq!(frame.history.rows.0, rows(&["", "head"]));
    assert_eq!(frame.history.semantic_plan.next_committed_through, StreamOffset::new(0));
    assert!(matches!(
        frame.history.semantic_plan.next_partial,
        Some(StreamPartialCommit::FrozenAtomic { committed_rows: 1, .. })
    ));
}

#[test]
fn first_unit_has_no_boundary_transaction() {
    let state: StreamCommitState<String> = StreamCommitState::new(LeadingBoundaryState::NoBoundary);
    let frame = state.prepare_frame(&exact_rows(), 5, &String::new());
    assert!(!frame.history.commit_leading_boundary);
    assert_eq!(frame.live_rows, rows(&["one", "two"]));
    assert_eq!(frame.history.rows.0, rows(&["one", "two"]));
    assert_eq!(frame.history.semantic_plan.next_committed_through, StreamOffset::new(8));
}

#[test]
fn boundary_is_never_written_alone() {
    let state: StreamCommitState<String> = StreamCommitState::new(LeadingBoundaryState::Pending);
    let frame = state.prepare_frame(&exact_rows(), 1, &String::new());
    assert!(!frame.history.commit_leading_boundary);
    assert!(frame.history.rows.0.is_empty());
    assert_eq!(frame.live_rows, rows(&["", "one", "two"]));
}

#[test]
fn preparing_without_acknowledging_changes_nothing() {
    let state: StreamCommitState<String> = StreamCommitState::new(LeadingBoundaryState::Pending);
    let first = state.prepare_frame(&exact_rows(), 2, &String::new());
    let second = state.prepare_frame(&exact_rows(), 2, &String::new());
    assert_eq!(first, second);
    assert_eq!(state.leading_boundary, LeadingBoundaryState::Pending);
    assert_eq!(state.committed_through, StreamOffset::new(0));
}

#[test]
fn acknowledged_boundary_is_committed_once() {
    let mut state: StreamCommitState<String> = StreamCommitState::new(LeadingBoundaryState::Pending);
    let frame = state.prepare_frame(&exact_rows(), 2, &String::new());
    assert_eq!(frame.history.rows.0, rows(&["", "one"]));
    state.apply_commit_success(frame.history);
    assert_eq!(state.leading_boundary, LeadingBoundaryState::Committed);
    assert_eq!(state.committed_through, StreamOffset::new(4));
    let next = state.prepare_frame(&exact_rows(), 5, &String::new());
    assert!(!next.history.commit_leading_boundary);
    assert_eq!(next.live_rows, rows(&["one", "two"]));
    assert_eq!(next.history.rows.0, rows(&["two"]));
}

#[test]
fn frozen_remainder_blocks_handoff_until_written() {
    let mut state: StreamCommitState<String> = StreamCommitState::new(LeadingBoundaryState::NoBoundary);
    let frame = state.prepare_frame(&atomic_group(), 1, &String::new());
    state.apply_commit_success(frame.history);
    assert_eq!(state.handoff_blocking_rows(), 2);
    let empty = CompiledStream { rows: Vec::new(), commit: Vec::new(), committable_prefix_rows: 0 };
    let frame = state.prepare_frame(&empty, 5, &String::new());
    assert_eq!(frame.live_rows, rows(&["body 1", "body 2"]));
    assert_eq!(frame.history.rows.0, rows(&["body 1", "body 2"]));
    state.apply_commit_success(frame.history);
    assert_eq!(state.handoff_blocking_rows(), 0);
    assert_eq!(state.committed_through, StreamOffset::new(30));
    assert!(state.partial.is_none());
}

#[test]
fn resident_handoff_keeps_only_the_uncommitted_source() {
    let mut view = StreamView::empty();
    view.push(StreamNode::exact_text(
        StreamRange::new(StreamOffset::new(0), StreamOffset::new(5)),
        vec![TextSpan::plain("first")],
    ));
    view.push(StreamNode::exact_text(
        StreamRange::new(StreamOffset::new(5), StreamOffset::new(10)),
        vec![TextSpan::plain("again")],
    ));
    let snapshot = StreamSnapshot {
        revision: StreamRevision::new(1),
        source_base: StreamOffset::new(0),
        source_end: StreamOffset::new(10),
        stable_through: StreamOffset::new(10),
        view,
    };
    assert!(snapshot.validate());
    let mut state: StreamCommitState<String> = StreamCommitState::new(LeadingBoundaryState::NoBoundary);
    state.committed_through = StreamOffset::new(5);
    assert!(state.can_handoff(true));
    assert!(!state.can_handoff(false));
    let handoff = state.into_resident_handoff(TranscriptUnitId(7), &snapshot);
    assert_eq!(handoff.unit_id, TranscriptUnitId(7));
    assert_eq!(handoff.source_base, StreamOffset::new(5));
    assert_eq!(handoff.source_end, StreamOffset::new(10));
    assert_eq!(handoff.leading_boundary, LeadingBoundaryState::NoBoundary);
    match &handoff.view.kind {
        ViewKind::Column(column) => {
            assert_eq!(column.children.len(), 1);
            match &column.children[0].kind {
                ViewKind::Text(text) => assert_eq!(text.spans[0].text, "again"),
                _ => panic!("expected text"),
            }
        },
        _ => panic!("expected a column"),
    }
}

/// Stream content that records the compactions it was asked for.
#[derive(Debug)]
struct RecordingContent {
    source: String,
    source_base: u64,
    sealed: bool,
    compactions: Vec<StreamOffset>,
}

impl RecordingContent {
    fn new(source: &str) -> Self {
        RecordingContent { source: source.to_string(), source_base: 0, sealed: false, compactions: Vec::new() }
    }
}

impl StreamingContent for RecordingContent {
    fn snapshot(&self) -> StreamSnapshot {
        let end = self.source.len() as u64;
        let mut view = StreamView::empty();
        if self.source_base < end {
            view.push(StreamNode::exact_text(
                StreamRange::new(StreamOffset::new(self.source_base), StreamOffset::new(end)),
                vec![TextSpan::plain(&self.source[self.source_base as usize..])],
            ));
        }
        StreamSnapshot {
            revision: StreamRevision::new(self.compactions.len() as u64),
            source_base: StreamOffset::new(self.source_base),
            source_end: StreamOffset::new(end),
            stable_through: StreamOffset::new(end),
            view,
        }
    }

    fn compact_before(&mut self, offset: StreamOffset) {
        self.source_base = offset.0;
        self.compactions.push(offset);
    }

    fn seal(&mut self) {
        self.sealed = true;
    }

    fn is_sealed(&self) -> bool {
        self.sealed
    }
}

#[test]
fn acknowledged_commit_compacts_content_and_keeps_the_unit() {
    let mut hosted: HostedStream<RecordingContent, String> =
        HostedStream::new(TranscriptUnitId(42), RecordingContent::new("one two"), LeadingBoundaryState::NoBoundary);
    let frame = hosted.prepare_frame(&exact_rows(), 1, &String::new());
    assert_eq!(frame.history.rows.0, rows(&["one"]));
    assert!(hosted.content.compactions.is_empty());
    assert_eq!(hosted.commit.committed_through, StreamOffset::new(0));
    hosted.apply_commit_success(frame.history);
    assert_eq!(hosted.commit.committed_through, StreamOffset::new(4));
    assert_eq!(hosted.content.compactions, vec![StreamOffset::new(4)]);
    assert_eq!(hosted.snapshot().source_base, StreamOffset::new(4));
    assert_eq!(hosted.unit_id, TranscriptUnitId(42));
    assert_eq!(hosted.lifecycle, EntryLifecycle::Open);
}

#[test]
fn hosted_stream_keeps_identity_and_cursor_through_sealing() {
    let mut hosted: HostedStream<RecordingContent, String> =
        HostedStream::new(TranscriptUnitId(42), RecordingContent::new("one two"), LeadingBoundaryState::NoBoundary);
    assert!(!hosted.is_sealed());
    assert!(!hosted.can_handoff());
    let frame = hosted.prepare_frame(&exact_rows(), 1, &String::new());
    hosted.apply_commit_success(frame.history);
    hosted.seal();
    assert!(hosted.is_sealed());
    assert!(hosted.content.sealed);
    assert_eq!(hosted.lifecycle, EntryLifecycle::Sealed);
    assert_eq!(hosted.unit_id, TranscriptUnitId(42));
    assert_eq!(hosted.commit.committed_through, StreamOffset::new(4));
    assert!(hosted.can_handoff());
    hosted.seal();
    assert!(hosted.is_sealed());
    let snapshot = hosted.snapshot();
    assert!(snapshot.validate());
    let handoff = hosted.into_resident_handoff(&snapshot);
    assert_eq!(handoff.unit_id, TranscriptUnitId(42));
    assert_eq!(handoff.source_base, StreamOffset::new(4));
    assert_eq!(handoff.source_end, StreamOffset::new(7));
}

#[test]
fn frozen_remainder_blocks_hosted_handoff() {
    let mut hosted: HostedStream<RecordingContent, String> =
        HostedStream::new(TranscriptUnitId(1), RecordingContent::new("abc"), LeadingBoundaryState::NoBoundary);
    let frame = hosted.prepare_frame(&atomic_group(), 1, &String::new());
    hosted.apply_commit_success(frame.history);
    assert_eq!(hosted.content.compactions, vec![StreamOffset::new(0)]);
    assert_eq!(hosted.handoff_blocking_rows(), 2);
    hosted.seal();
    assert!(!hosted.can_handoff());
}

#[test]
fn frames_are_prepared_from_the_content_snapshot() {
    let hosted: HostedStream<RecordingContent, PhysicalLine> =
        HostedStream::new(TranscriptUnitId(3), RecordingContent::new("hello world"), LeadingBoundaryState::Pending);
    let snapshot = hosted.snapshot();
    let compiler = ViewCompiler::default();
    let first = hosted.prepare_frame_from_snapshot(&compiler, &snapshot, 6, 2, Vec::new());
    let second = hosted.prepare_frame_from_snapshot(&compiler, &snapshot, 6, 2, Vec::new());
    assert_eq!(first, second);
    assert_eq!(first.live_rows.len(), 3);
    assert!(first.live_rows[0].spans.is_empty());
    assert!(first.history.commit_leading_boundary);
    assert_eq!(first.history.rows.0.len(), first.history.semantic_plan.payload.rows_to_write() + 1);
    assert_eq!(hosted.commit.committed_through, StreamOffset::new(0));
    assert_eq!(hosted.commit.leading_boundary, LeadingBoundaryState::Pending);
}
