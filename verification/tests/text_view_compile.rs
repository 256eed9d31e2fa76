use iyon_tui::physical::{PhysicalColor, PhysicalLine, PhysicalStyle};
use iyon_tui::style::{ColorSpec, StyleSpec};
use iyon_tui::text_compile::ViewCompiler;
use iyon_tui::view::{HorizontalAlign, TextSpan, TextView, WidthRule, WrapMode};

fn text(row: &PhysicalLine) -> String {
    row.spans.iter().map(|span| span.text.as_str()).collect()
}

fn view(spans: Vec<TextSpan>, wrap: WrapMode) -> TextView {
    TextView { spans, wrap, align: HorizontalAlign::Start }
}

#[test]
fn spans_resolve_over_the_inherited_style_and_keep_their_runs() {
    let compiler = ViewCompiler::default();
    let text_view = view(
        vec![
            TextSpan::styled("ab ", StyleSpec::new().bold()),
            TextSpan::plain("cd"),
        ],
        WrapMode::WordThenGrapheme,
    );
    let inherited = PhysicalStyle { foreground: Some(PhysicalColor::Indexed(2)), ..PhysicalStyle::default() };
    let (width, rows) = compiler.compile_text_with_metadata(&text_view, 10, WidthRule::Fit, inherited, true);
    assert_eq!(width, 5);
    assert_eq!(rows.len(), 1);
    assert_eq!(rows[0].line.spans.len(), 2);
    assert_eq!(rows[0].line.spans[0].text, "ab ");
    assert!(rows[0].line.spans[0].style.bold);
    assert_eq!(rows[0].line.spans[0].style.foreground, Some(PhysicalColor::Indexed(2)));
    assert_eq!(rows[0].line.spans[1].text, "cd");
    assert!(!rows[0].line.spans[1].style.bold);
    assert_eq!(rows[0].source_end, Some(5));
    assert_eq!(rows[0].width, 5);
    assert!(rows[0].fits);
}

#[test]
fn newlines_across_spans_start_new_rows_with_tracked_sources() {
    let compiler = ViewCompiler::default();
    let text_view = view(
        vec![
            TextSpan::styled("ab", StyleSpec::new().foreground(ColorSpec::Ansi(3))),
            TextSpan::plain("\ncd"),
        ],
        WrapMode::WordThenGrapheme,
    );
    let (width, rows) =
        compiler.compile_text_with_metadata(&text_view, 9, WidthRule::Fill, PhysicalStyle::default(), true);
    assert_eq!(width, 9);
    assert_eq!(rows.len(), 2);
    assert_eq!(text(&rows[0].line), "ab");
    assert_eq!(rows[0].line.spans[0].style.foreground, Some(PhysicalColor::Indexed(3)));
    assert_eq!(rows[0].source_end, Some(2));
    assert_eq!(text(&rows[1].line), "cd");
    assert_eq!(rows[1].source_end, Some(5));
}

#[test]
fn untracked_sources_leave_rows_without_source_ends() {
    let compiler = ViewCompiler::default();
    let text_view = view(vec![TextSpan::plain("abcdef")], WrapMode::Grapheme);
    let (width, rows) =
        compiler.compile_text_with_metadata(&text_view, 4, WidthRule::Fit, PhysicalStyle::default(), false);
    assert_eq!(width, 4);
    assert_eq!(rows.len(), 2);
    assert_eq!(text(&rows[0].line), "abcd");
    assert_eq!(text(&rows[1].line), "ef");
    assert_eq!(rows[0].source_end, None);
    assert_eq!(rows[1].source_end, None);
}

#[test]
fn no_wrap_keeps_one_row_that_does_not_fit() {
    let compiler = ViewCompiler::default();
    let text_view = view(vec![TextSpan::plain("abcdef")], WrapMode::NoWrap);
    let (_, rows) =
        compiler.compile_text_with_metadata(&text_view, 3, WidthRule::Fill, PhysicalStyle::default(), true);
    assert_eq!(rows.len(), 1);
    assert_eq!(text(&rows[0].line), "abcdef");
    assert!(!rows[0].fits);
    assert_eq!(rows[0].width, 6);
}

#[test]
fn checked_text_compile_agrees_with_the_compiler() {
    let compiler = ViewCompiler::default();
    let text_view = view(vec![TextSpan::plain("x y")], WrapMode::WordThenGrapheme);
    let checked = compiler
        .try_compile_text(&text_view, 8, WidthRule::Fit, PhysicalStyle::default(), true)
        .unwrap();
    let direct = compiler.compile_text_with_metadata(&text_view, 8, WidthRule::Fit, PhysicalStyle::default(), true);
    assert_eq!(checked.0, direct.0);
    assert_eq!(checked.1.len(), direct.1.len());
    assert_eq!(text(&checked.1[0].line), text(&direct.1[0].line));
    assert_eq!(checked.1[0].source_end, Some(3));
}
