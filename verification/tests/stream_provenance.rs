use iyon_tui::stream::{
    append_only_text_stable_frontier, ExactTerminator, ProjectedText, ProjectedTextLayout, ProjectedTextRun,
    StreamNode, StreamOffset, StreamRange, StreamRevision, StreamSnapshot, StreamView,
};
use iyon_tui::style::StyleSpec;
use iyon_tui::view::{HorizontalAlign, IntoView, TextSpan, View, ViewKind, WidthRule, WrapMode};

#[test]
fn stream_offset_ordering() {
    let o0 = StreamOffset::new(0);
    let o1 = StreamOffset::new(10);
    let o2 = StreamOffset::new(20);
    assert!(o0 < o1);
    assert!(o1 < o2);
    assert_eq!(o0.saturating_add(10), o1);
}

#[test]
fn stream_range_helpers() {
    let r = StreamRange::new(StreamOffset::new(5), StreamOffset::new(15));
    assert_eq!(r.len(), 10);
    assert!(!r.is_empty());
    assert!(r.contains_offset(StreamOffset::new(5)));
    assert!(r.contains_offset(StreamOffset::new(14)));
    assert!(!r.contains_offset(StreamOffset::new(15)));
    assert!(!r.contains_offset(StreamOffset::new(4)));
}

#[test]
fn snapshot_validation_rejects_invalid_visible_source_length() {
    let node = StreamNode::projected_text(ProjectedText {
        content_range: StreamRange::new(StreamOffset::new(0), StreamOffset::new(100)),
        terminator: ExactTerminator::NoTerminator,
        width: WidthRule::Fit,
        wrap: WrapMode::WordThenGrapheme,
        align: HorizontalAlign::Start,
        layout: ProjectedTextLayout::Plain,
        runs: vec![ProjectedTextRun {
            display: "abc".to_string(),
            style: StyleSpec::default(),
            owned: StreamRange::new(StreamOffset::new(0), StreamOffset::new(100)),
            exact_visible: Some(StreamRange::new(StreamOffset::new(0), StreamOffset::new(100))),
        }],
    });

    let snapshot = StreamSnapshot {
        revision: StreamRevision::new(1),
        source_base: StreamOffset::zero(),
        source_end: StreamOffset::new(100),
        stable_through: StreamOffset::new(100),
        view: StreamView::new(vec![node]),
    };

    assert!(!snapshot.validate());
}

#[test]
fn snapshot_validation_normal_exact_and_hard_newline() {
    let node1 = StreamNode::exact_text(
        StreamRange::new(StreamOffset::new(0), StreamOffset::new(3)),
        vec![TextSpan::plain("abc")],
    );
    assert_eq!(
        node1.owned_range(),
        StreamRange::new(StreamOffset::new(0), StreamOffset::new(3))
    );

    let node2 = StreamNode::exact_line(
        StreamRange::new(StreamOffset::new(3), StreamOffset::new(6)),
        vec![TextSpan::plain("def")],
        true,
    );
    assert_eq!(
        node2.owned_range(),
        StreamRange::new(StreamOffset::new(3), StreamOffset::new(7))
    );

    let snapshot = StreamSnapshot {
        revision: StreamRevision::new(1),
        source_base: StreamOffset::zero(),
        source_end: StreamOffset::new(7),
        stable_through: StreamOffset::new(7),
        view: StreamView::new(vec![node1, node2]),
    };
    assert!(snapshot.validate());
}

#[test]
fn append_only_text_frontier() {
    let text = "hello 🌍";
    let base = StreamOffset::new(10);

    let open_frontier = append_only_text_stable_frontier(text, base, false);
    assert_eq!(open_frontier, StreamOffset::new(16));

    let sealed_frontier = append_only_text_stable_frontier(text, base, true);
    assert_eq!(sealed_frontier, StreamOffset::new(10 + text.len() as u64));
}

#[test]
fn contiguity_rejects_gap_between_nodes() {
    let snapshot = StreamSnapshot {
        revision: StreamRevision::new(1),
        source_base: StreamOffset::zero(),
        source_end: StreamOffset::new(13),
        stable_through: StreamOffset::new(13),
        view: StreamView::new(vec![
            StreamNode::exact_text(
                StreamRange::new(StreamOffset::new(0), StreamOffset::new(3)),
                vec![TextSpan::plain("abc")],
            ),
            StreamNode::exact_text(
                StreamRange::new(StreamOffset::new(10), StreamOffset::new(13)),
                vec![TextSpan::plain("def")],
            ),
        ]),
    };
    assert!(!snapshot.validate());
}

#[test]
fn contiguity_rejects_trailing_uncovered_source() {
    let snapshot = StreamSnapshot {
        revision: StreamRevision::new(1),
        source_base: StreamOffset::zero(),
        source_end: StreamOffset::new(10),
        stable_through: StreamOffset::new(10),
        view: StreamView::new(vec![StreamNode::exact_text(
            StreamRange::new(StreamOffset::new(0), StreamOffset::new(5)),
            vec![TextSpan::plain("hello")],
        )]),
    };
    assert!(!snapshot.validate());
}

#[test]
fn contiguity_rejects_leading_gap() {
    let snapshot = StreamSnapshot {
        revision: StreamRevision::new(1),
        source_base: StreamOffset::new(5),
        source_end: StreamOffset::new(9),
        stable_through: StreamOffset::new(9),
        view: StreamView::new(vec![StreamNode::exact_text(
            StreamRange::new(StreamOffset::new(6), StreamOffset::new(9)),
            vec![TextSpan::plain("abc")],
        )]),
    };
    assert!(!snapshot.validate());
}

#[test]
fn contiguity_accepts_typed_newline_chain() {
    let snapshot = StreamSnapshot {
        revision: StreamRevision::new(1),
        source_base: StreamOffset::zero(),
        source_end: StreamOffset::new(7),
        stable_through: StreamOffset::new(7),
        view: StreamView::new(vec![
            StreamNode::exact_line(
                StreamRange::new(StreamOffset::new(0), StreamOffset::new(3)),
                vec![TextSpan::plain("abc")],
                true,
            ),
            StreamNode::exact_text(
                StreamRange::new(StreamOffset::new(4), StreamOffset::new(7)),
                vec![TextSpan::plain("def")],
            ),
        ]),
    };
    assert!(snapshot.validate());
}

#[test]
fn contiguity_accepts_atomic_then_exact() {
    let snapshot = StreamSnapshot {
        revision: StreamRevision::new(1),
        source_base: StreamOffset::zero(),
        source_end: StreamOffset::new(14),
        stable_through: StreamOffset::new(14),
        view: StreamView::new(vec![
            StreamNode::atomic(
                StreamRange::new(StreamOffset::new(0), StreamOffset::new(9)),
                View::text("bold").into_view(),
            ),
            StreamNode::exact_text(
                StreamRange::new(StreamOffset::new(9), StreamOffset::new(14)),
                vec![TextSpan::plain("plain")],
            ),
        ]),
    };
    assert!(snapshot.validate());
}

#[test]
fn contiguity_empty_stream_valid_iff_base_equals_end() {
    let valid = StreamSnapshot {
        revision: StreamRevision::zero(),
        source_base: StreamOffset::zero(),
        source_end: StreamOffset::zero(),
        stable_through: StreamOffset::zero(),
        view: StreamView::empty(),
    };
    assert!(valid.validate());

    let invalid = StreamSnapshot {
        revision: StreamRevision::zero(),
        source_base: StreamOffset::zero(),
        source_end: StreamOffset::new(5),
        stable_through: StreamOffset::new(5),
        view: StreamView::empty(),
    };
    assert!(!invalid.validate());
}

#[test]
fn identity_merges_equal_styles_and_skips_empty_spans() {
    let text = ProjectedText::identity(
        StreamRange::new(StreamOffset::new(2), StreamOffset::new(9)),
        ExactTerminator::HardNewline,
        vec![
            TextSpan::plain("ab"),
            TextSpan::plain(""),
            TextSpan::plain("cd"),
            TextSpan::styled("é", StyleSpec::new().bold()),
        ],
    );
    assert_eq!(text.runs.len(), 2);
    assert_eq!(text.runs[0].display, "abcd");
    assert_eq!(text.runs[0].owned, StreamRange::new(StreamOffset::new(2), StreamOffset::new(6)));
    assert_eq!(text.runs[1].display, "é");
    assert_eq!(text.runs[1].owned, StreamRange::new(StreamOffset::new(6), StreamOffset::new(8)));
    assert_eq!(text.owned_range(), StreamRange::new(StreamOffset::new(2), StreamOffset::new(10)));
}

#[test]
fn static_lowering_keeps_visible_runs_and_atomic_views() {
    let stream = StreamView::new(vec![
        StreamNode::exact_line(
            StreamRange::new(StreamOffset::new(0), StreamOffset::new(2)),
            vec![TextSpan::plain("hi")],
            true,
        ),
        StreamNode::atomic(
            StreamRange::new(StreamOffset::new(3), StreamOffset::new(4)),
            View::spacer(2),
        ),
    ]);
    let view = stream.into_static_view();
    let ViewKind::Column(column) = view.kind else {
        panic!("expected column");
    };
    assert_eq!(column.gap, 0);
    assert_eq!(column.children.len(), 2);
    let ViewKind::Text(text) = &column.children[0].kind else {
        panic!("expected text");
    };
    assert_eq!(text.spans.len(), 1);
    assert_eq!(text.spans[0].text, "hi");
    assert_eq!(column.children[1], View::spacer(2));
}

#[test]
fn atomic_provenance_and_width_rule() {
    let node = StreamNode::atomic(StreamRange::new(StreamOffset::new(1), StreamOffset::new(3)), View::spacer(1));
    assert_eq!(
        node.provenance(),
        iyon_tui::stream::StreamProvenance::Atomic(StreamRange::new(StreamOffset::new(1), StreamOffset::new(3)))
    );
    let text = StreamNode::exact_text(
        StreamRange::new(StreamOffset::new(0), StreamOffset::new(1)),
        vec![TextSpan::plain("x")],
    )
    .with_width(WidthRule::Fill);
    let StreamNode::Text(projected) = text else {
        panic!("expected text");
    };
    assert_eq!(projected.width, WidthRule::Fill);
}

fn run_texts(view: &StreamView) -> Vec<Vec<String>> {
    view.nodes
        .iter()
        .map(|node| match node {
            StreamNode::Text(text) => text.runs.iter().map(|run| run.display.clone()).collect(),
            StreamNode::Atomic { .. } => vec!["<atomic>".to_string()],
        })
        .collect()
}

#[test]
fn suffix_drops_committed_nodes_and_cuts_the_straddling_text() {
    let mut view = StreamView::empty();
    view.push(StreamNode::exact_text(
        StreamRange::new(StreamOffset::new(0), StreamOffset::new(5)),
        vec![TextSpan::plain("first")],
    ));
    view.push(StreamNode::exact_text(
        StreamRange::new(StreamOffset::new(5), StreamOffset::new(13)),
        vec![TextSpan::plain("héllo "), TextSpan::styled("x", StyleSpec::new().bold())],
    ));
    view.push(StreamNode::atomic(
        StreamRange::new(StreamOffset::new(13), StreamOffset::new(20)),
        View::text("atom").into_view(),
    ));
    let suffix = view.suffix_from(StreamOffset::new(8));
    assert_eq!(suffix.nodes.len(), 2);
    assert_eq!(run_texts(&suffix), vec![vec!["llo ".to_string(), "x".to_string()], vec!["<atomic>".to_string()]]);
    match &suffix.nodes[0] {
        StreamNode::Text(text) => {
            assert_eq!(text.content_range, StreamRange::new(StreamOffset::new(8), StreamOffset::new(13)));
            assert_eq!(text.runs[0].owned, StreamRange::new(StreamOffset::new(8), StreamOffset::new(12)));
            assert_eq!(
                text.runs[0].exact_visible,
                Some(StreamRange::new(StreamOffset::new(8), StreamOffset::new(12)))
            );
            assert_eq!(text.runs[1].owned, StreamRange::new(StreamOffset::new(12), StreamOffset::new(13)));
        },
        StreamNode::Atomic { .. } => panic!("expected text"),
    }
    assert_eq!(suffix.nodes[1], view.nodes[2]);
}

#[test]
fn suffix_at_a_node_boundary_keeps_whole_nodes() {
    let mut view = StreamView::empty();
    view.push(StreamNode::exact_text(
        StreamRange::new(StreamOffset::new(0), StreamOffset::new(3)),
        vec![TextSpan::plain("abc")],
    ));
    view.push(StreamNode::exact_text(
        StreamRange::new(StreamOffset::new(3), StreamOffset::new(6)),
        vec![TextSpan::plain("def")],
    ));
    let suffix = view.suffix_from(StreamOffset::new(3));
    assert_eq!(suffix.nodes, vec![view.nodes[1].clone()]);
    assert!(view.suffix_from(StreamOffset::new(6)).nodes.is_empty());
    assert_eq!(view.suffix_from(StreamOffset::new(0)), view);
}

#[test]
fn slicing_hides_a_hanging_prefix_whose_source_is_behind() {
    let text = ProjectedText {
        content_range: StreamRange::new(StreamOffset::new(0), StreamOffset::new(6)),
        terminator: ExactTerminator::HardNewline,
        width: WidthRule::Fill,
        wrap: WrapMode::WordThenGrapheme,
        align: HorizontalAlign::Start,
        layout: ProjectedTextLayout::Hanging {
            body_column: 2,
            prefix: "- ".to_string(),
            prefix_style: StyleSpec::new(),
            prefix_source: StreamRange::new(StreamOffset::new(0), StreamOffset::new(2)),
            show_prefix: true,
        },
        runs: vec![ProjectedTextRun {
            display: "item".to_string(),
            style: StyleSpec::new(),
            owned: StreamRange::new(StreamOffset::new(2), StreamOffset::new(6)),
            exact_visible: Some(StreamRange::new(StreamOffset::new(2), StreamOffset::new(6))),
        }],
    };
    let sliced = iyon_tui::stream::slice_projected_text(&text, StreamOffset::new(4));
    assert_eq!(sliced.content_range, StreamRange::new(StreamOffset::new(4), StreamOffset::new(6)));
    assert_eq!(sliced.terminator, ExactTerminator::HardNewline);
    assert_eq!(sliced.runs[0].display, "em");
    match sliced.layout {
        ProjectedTextLayout::Hanging { show_prefix, .. } => assert!(!show_prefix),
        ProjectedTextLayout::Plain => panic!("expected a hanging layout"),
    }
}
