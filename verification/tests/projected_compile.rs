use iyon_tui::physical::{PhysicalColor, PhysicalLine, PhysicalStyle};
use iyon_tui::stream::{
    ExactTerminator, ProjectedText, ProjectedTextLayout, ProjectedTextRun, StreamOffset, StreamRange,
};
use iyon_tui::style::{ColorSpec, StyleSpec, ThemeKey};
use iyon_tui::text_compile::{is_compilable, CompiledTextRow, ViewCompiler};
use iyon_tui::theme::{Theme, ThemeColor};
use iyon_tui::view::{HorizontalAlign, WidthRule, WrapMode};

fn range(start: u64, end: u64) -> StreamRange {
    StreamRange::new(StreamOffset::new(start), StreamOffset::new(end))
}

fn text(row: &PhysicalLine) -> String {
    row.spans.iter().map(|span| span.text.as_str()).collect()
}

fn style(color: &str) -> StyleSpec {
    StyleSpec {
        foreground: Some(ColorSpec::Theme(ThemeKey::from(color))),
        ..StyleSpec::default()
    }
}

fn compile(projected: &ProjectedText, width: u16) -> (u16, Vec<CompiledTextRow>) {
    ViewCompiler::default().compile_projected_text_with_metadata(projected, width)
}

fn zwj_text() -> (ProjectedText, String) {
    let first = "👩";
    let second = "\u{200d}💻";
    let split = first.len() as u64;
    let end = split + second.len() as u64;
    let projected = ProjectedText {
        content_range: range(0, end),
        terminator: ExactTerminator::NoTerminator,
        width: WidthRule::Fit,
        wrap: WrapMode::WordThenGrapheme,
        align: HorizontalAlign::Start,
        layout: ProjectedTextLayout::Plain,
        runs: vec![
            ProjectedTextRun {
                display: first.to_string(),
                style: style("markdown.bold"),
                owned: range(0, split),
                exact_visible: Some(range(0, split)),
            },
            ProjectedTextRun {
                display: second.to_string(),
                style: style("markdown.italic"),
                owned: range(split, end),
                exact_visible: Some(range(split, end)),
            },
        ],
    };
    (projected, format!("{first}{second}"))
}

fn replacement_text() -> ProjectedText {
    ProjectedText {
        content_range: range(0, 7),
        terminator: ExactTerminator::NoTerminator,
        width: WidthRule::Fit,
        wrap: WrapMode::WordThenGrapheme,
        align: HorizontalAlign::Start,
        layout: ProjectedTextLayout::Plain,
        runs: vec![
            ProjectedTextRun {
                display: "foo".to_string(),
                style: StyleSpec::default(),
                owned: range(0, 3),
                exact_visible: Some(range(0, 3)),
            },
            ProjectedTextRun {
                display: "    ".to_string(),
                style: StyleSpec::default(),
                owned: range(3, 4),
                exact_visible: None,
            },
            ProjectedTextRun {
                display: "bar".to_string(),
                style: StyleSpec::default(),
                owned: range(4, 7),
                exact_visible: Some(range(4, 7)),
            },
        ],
    }
}

#[test]
fn internal_projected_egc_spans_zwj_run_boundaries_without_splitting() {
    let (projected, joined) = zwj_text();
    let (_, rows) = compile(&projected, 1);
    assert_eq!(rows.len(), 1);
    assert_eq!(text(&rows[0].line), joined);
}

#[test]
fn tests_projected_egc_spans_zwj_run_boundaries_without_splitting() {
    let (projected, joined) = zwj_text();
    let (_, rows) = compile(&projected, 1);
    assert_eq!(rows.len(), 1);
    assert_eq!(text(&rows[0].line), joined);
}

#[test]
fn projected_projected_egc_spans_zwj_run_boundaries_without_splitting() {
    let (projected, joined) = zwj_text();
    let (_, rows) = compile(&projected, 1);
    assert_eq!(rows.len(), 1);
    assert_eq!(text(&rows[0].line), joined);
}

#[test]
fn internal_projected_replacement_remains_one_indivisible_atom() {
    let (_, rows) = compile(&replacement_text(), 1);
    assert!(rows.iter().any(|row| text(&row.line) == "    "));
}

#[test]
fn tests_projected_replacement_remains_one_indivisible_atom() {
    let (_, rows) = compile(&replacement_text(), 1);
    assert!(rows.iter().any(|row| text(&row.line) == "    "));
}

#[test]
fn projected_projected_replacement_remains_one_indivisible_atom() {
    let (_, rows) = compile(&replacement_text(), 1);
    assert!(rows.iter().any(|row| text(&row.line) == "    "));
}

#[test]
fn combining_mark_across_runs_ends_at_its_shown_byte() {
    let projected = ProjectedText {
        content_range: range(0, 12),
        terminator: ExactTerminator::NoTerminator,
        width: WidthRule::Fit,
        wrap: WrapMode::WordThenGrapheme,
        align: HorizontalAlign::Start,
        layout: ProjectedTextLayout::Plain,
        runs: vec![
            ProjectedTextRun {
                display: "a".to_string(),
                style: style("markdown.bold"),
                owned: range(0, 3),
                exact_visible: Some(range(2, 3)),
            },
            ProjectedTextRun {
                display: "\u{301} rest".to_string(),
                style: style("text.default"),
                owned: range(3, 12),
                exact_visible: Some(range(5, 12)),
            },
        ],
    };
    let (_, rows) = compile(&projected, 1);
    assert_eq!(text(&rows[0].line), "a\u{301}");
    assert_eq!(rows[0].source_end, Some(7));
}

#[test]
fn fit_width_is_the_widest_line_and_rows_report_their_sources() {
    let projected = ProjectedText {
        content_range: range(10, 17),
        terminator: ExactTerminator::NoTerminator,
        width: WidthRule::Fit,
        wrap: WrapMode::WordThenGrapheme,
        align: HorizontalAlign::Start,
        layout: ProjectedTextLayout::Plain,
        runs: vec![ProjectedTextRun {
            display: "ab\ncdef".to_string(),
            style: StyleSpec::default(),
            owned: range(10, 17),
            exact_visible: Some(range(10, 17)),
        }],
    };
    let (width, rows) = compile(&projected, 20);
    assert_eq!(width, 4);
    assert_eq!(rows.len(), 2);
    assert_eq!(text(&rows[0].line), "ab");
    assert_eq!(rows[0].source_end, Some(2));
    assert_eq!(text(&rows[1].line), "cdef");
    assert_eq!(rows[1].source_end, Some(7));
    assert!(rows[1].fits);
    assert_eq!(rows[1].width, 4);
}

#[test]
fn neighbouring_runs_of_one_resolved_style_share_a_span() {
    let projected = ProjectedText {
        content_range: range(0, 6),
        terminator: ExactTerminator::NoTerminator,
        width: WidthRule::Fill,
        wrap: WrapMode::NoWrap,
        align: HorizontalAlign::Start,
        layout: ProjectedTextLayout::Plain,
        runs: vec![
            ProjectedTextRun {
                display: "ab".to_string(),
                style: StyleSpec::default(),
                owned: range(0, 2),
                exact_visible: Some(range(0, 2)),
            },
            ProjectedTextRun {
                display: "cd".to_string(),
                style: StyleSpec::new().bold(),
                owned: range(2, 4),
                exact_visible: Some(range(2, 4)),
            },
            ProjectedTextRun {
                display: "ef".to_string(),
                style: StyleSpec::new().bold(),
                owned: range(4, 6),
                exact_visible: Some(range(4, 6)),
            },
        ],
    };
    let (width, rows) = compile(&projected, 9);
    assert_eq!(width, 9);
    assert_eq!(rows[0].line.spans.len(), 2);
    assert_eq!(rows[0].line.spans[0].text, "ab");
    assert_eq!(rows[0].line.spans[1].text, "cdef");
    assert!(rows[0].line.spans[1].style.bold);
    assert!(!rows[0].line.spans[0].style.bold);
}

#[test]
fn theme_colors_resolve_through_the_compiler_theme() {
    let theme = Theme::new().with_color("accent", ThemeColor::Rgb { r: 1, g: 2, b: 3 });
    let compiler = ViewCompiler::new(&theme);
    let projected = ProjectedText {
        content_range: range(0, 1),
        terminator: ExactTerminator::NoTerminator,
        width: WidthRule::Fit,
        wrap: WrapMode::WordThenGrapheme,
        align: HorizontalAlign::Start,
        layout: ProjectedTextLayout::Plain,
        runs: vec![ProjectedTextRun {
            display: "x".to_string(),
            style: style("accent"),
            owned: range(0, 1),
            exact_visible: Some(range(0, 1)),
        }],
    };
    let (_, rows) = compiler.compile_projected_text_with_metadata(&projected, 5);
    assert_eq!(
        rows[0].line.spans[0].style.foreground,
        Some(PhysicalColor::Rgb { r: 1, g: 2, b: 3 })
    );
}

#[test]
fn hanging_text_repeats_a_blank_column_after_its_prefix() {
    let projected = ProjectedText {
        content_range: range(0, 11),
        terminator: ExactTerminator::NoTerminator,
        width: WidthRule::Fit,
        wrap: WrapMode::WordThenGrapheme,
        align: HorizontalAlign::Start,
        layout: ProjectedTextLayout::Hanging {
            body_column: 2,
            prefix: "- ".to_string(),
            prefix_style: StyleSpec::new(),
            prefix_source: range(0, 2),
            show_prefix: true,
        },
        runs: vec![ProjectedTextRun {
            display: "aaa bbbb".to_string(),
            style: StyleSpec::default(),
            owned: range(2, 11),
            exact_visible: Some(range(2, 10)),
        }],
    };
    let (width, rows) = compile(&projected, 6);
    assert_eq!(width, 6);
    assert_eq!(rows.len(), 2);
    assert_eq!(text(&rows[0].line), "- aaa ");
    assert_eq!(text(&rows[1].line), "  bbbb");
    assert_eq!(rows[0].source_end, Some(6));
    assert_eq!(rows[1].source_end, Some(11));
    assert_eq!(rows[1].width, 6);
    assert!(rows[1].fits);
}

#[test]
fn checked_compile_refuses_runs_that_do_not_tile_the_content() {
    let mut projected = replacement_text();
    projected.runs[1].owned = range(4, 4);
    assert!(!is_compilable(&projected));
    assert!(ViewCompiler::default().try_compile_projected_text(&projected, 3).is_none());
    let good = replacement_text();
    let (width, rows) = ViewCompiler::default().try_compile_projected_text(&good, 20).unwrap();
    assert_eq!(width, 10);
    assert_eq!(text(&rows[0].line), "foo    bar");
    assert_eq!(rows[0].source_end, Some(7));
    let _ = PhysicalStyle::default();
}
