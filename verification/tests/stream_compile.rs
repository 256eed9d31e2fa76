use iyon_tui::commit::{plan_commit, StreamAtomicId, StreamRowCommit};
use iyon_tui::physical::{PhysicalLine, PhysicalSpan, PhysicalStyle};
use iyon_tui::stream::{StreamNode, StreamOffset, StreamRange, StreamView};
use iyon_tui::stream_compile::compile_stream;
use iyon_tui::text_compile::ViewCompiler;
use iyon_tui::view::{IntoView, TextSpan, View};

fn range(start: u64, end: u64) -> StreamRange {
    StreamRange::new(StreamOffset::new(start), StreamOffset::new(end))
}

fn line(text: &str) -> PhysicalLine {
    PhysicalLine { spans: vec![PhysicalSpan { text: text.to_string(), style: PhysicalStyle::default() }] }
}

fn text_of(row: &PhysicalLine) -> String {
    row.spans.iter().map(|span| span.text.as_str()).collect()
}

fn block(rows: &[&str], complete: bool) -> (Vec<PhysicalLine>, bool) {
    (rows.iter().map(|row| line(row)).collect(), complete)
}

#[test]
fn compile_stream_empty_hard_newline_row_produces_one_physical_blank_row() {
    let node = StreamNode::exact_line(range(2, 2), Vec::new(), true);
    assert_eq!(node.owned_range(), range(2, 3));
    let view = StreamView::new(vec![node]);
    let compiled = compile_stream(&ViewCompiler::default(), &view, 80, StreamOffset::new(3), Vec::new());
    assert_eq!(compiled.rows.len(), 1);
    assert_eq!(compiled.committable_prefix_rows, 1);
    assert_eq!(compiled.commit[0], StreamRowCommit::Exact(StreamOffset::new(3)));
}

#[test]
fn plan_commit_skips_fully_committed_atomic_group() {
    let atomic_view = View::column(
        vec![View::text("heading").into_view(), View::text("body row 1").into_view(), View::text("body row 2").into_view()],
        0,
    );
    let view = StreamView::atomic(range(0, 30), atomic_view);
    let blocks = vec![block(&["heading", "body row 1", "body row 2"], true)];
    let compiled = compile_stream(&ViewCompiler::default(), &view, 20, StreamOffset::new(30), blocks);
    assert_eq!(compiled.rows.len(), 3);
    assert_eq!(compiled.committable_prefix_rows, 3);
    let plan1 = plan_commit(&compiled, 3, None, StreamOffset::new(0));
    assert_eq!(plan1.payload.rows_to_write(), 3);
    assert_eq!(plan1.next_committed_through, StreamOffset::new(30));
    assert_eq!(plan1.next_partial, None);
    let plan2 = plan_commit(&compiled, 3, None, StreamOffset::new(30));
    assert_eq!(plan2.payload.rows_to_write(), 0);
    assert_eq!(plan2.next_committed_through, StreamOffset::new(30));
}

#[test]
fn plan_commit_mixed_provenance_skips_exact_and_atomic_groups() {
    let mut view = StreamView::empty();
    view.push(StreamNode::exact_text(range(0, 5), vec![TextSpan::plain("first")]));
    view.push(StreamNode::atomic(
        range(5, 20),
        View::column(vec![View::text("mid 1").into_view(), View::text("mid 2").into_view()], 0),
    ));
    view.push(StreamNode::exact_text(range(20, 24), vec![TextSpan::plain("last")]));
    let blocks = vec![block(&["mid 1", "mid 2"], true)];
    let compiled = compile_stream(&ViewCompiler::default(), &view, 20, StreamOffset::new(24), blocks);
    assert_eq!(compiled.rows.len(), 4);
    let plan = plan_commit(&compiled, 10, None, StreamOffset::new(20));
    assert_eq!(plan.payload.rows_to_write(), 1);
    assert_eq!(plan.next_committed_through, StreamOffset::new(24));
}

#[test]
fn text_rows_commit_to_their_boundaries_and_atomic_rows_to_their_group() {
    let mut view = StreamView::empty();
    view.push(StreamNode::exact_text(range(0, 11), vec![TextSpan::plain("hello world")]));
    view.push(StreamNode::atomic(range(11, 20), View::text("x").into_view()));
    let compiled = compile_stream(&ViewCompiler::default(), &view, 6, StreamOffset::new(20), vec![block(&["a", "b"], true)]);
    assert_eq!(compiled.rows.len(), 4);
    assert_eq!(text_of(&compiled.rows[0]).trim_end(), "hello");
    assert_eq!(text_of(&compiled.rows[1]), "world");
    assert_eq!(text_of(&compiled.rows[2]), "a");
    assert!(matches!(compiled.commit[0], StreamRowCommit::Exact(end) if end.0 > 0 && end.0 < 11));
    assert_eq!(compiled.commit[1], StreamRowCommit::Exact(StreamOffset::new(11)));
    let group = StreamRowCommit::Atomic { group: StreamAtomicId(1), source_end: StreamOffset::new(20) };
    assert_eq!(compiled.commit[2], group);
    assert_eq!(compiled.commit[3], group);
    assert_eq!(compiled.committable_prefix_rows, 4);
}

#[test]
fn unstable_text_blocks_every_later_row() {
    let mut view = StreamView::empty();
    view.push(StreamNode::exact_text(range(0, 11), vec![TextSpan::plain("hello world")]));
    view.push(StreamNode::atomic(range(11, 20), View::text("x").into_view()));
    let compiled = compile_stream(&ViewCompiler::default(), &view, 6, StreamOffset::new(8), vec![block(&["a"], true)]);
    assert!(matches!(compiled.commit[0], StreamRowCommit::Exact(end) if end.0 <= 8));
    assert_eq!(compiled.commit[1], StreamRowCommit::Blocked);
    assert_eq!(compiled.commit[2], StreamRowCommit::Blocked);
    assert_eq!(compiled.committable_prefix_rows, 1);
}

#[test]
fn incomplete_atomic_block_is_not_committable() {
    let view = StreamView::atomic(range(0, 3), View::text("漢").into_view());
    let compiled = compile_stream(&ViewCompiler::default(), &view, 1, StreamOffset::new(3), vec![block(&[""], false)]);
    assert_eq!(compiled.committable_prefix_rows, 0);
    assert!(matches!(compiled.commit[0], StreamRowCommit::Blocked));
    let complete = compile_stream(&ViewCompiler::default(), &view, 2, StreamOffset::new(3), vec![block(&["漢"], true)]);
    assert_eq!(complete.committable_prefix_rows, 1);
}
