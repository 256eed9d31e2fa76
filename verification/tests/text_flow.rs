use iyon_tui::cursor::TextCursorAnchor;
use iyon_tui::physical::PhysicalStyle;
use iyon_tui::text_flow::{cursor_position, text_flow, wrap_input_styled_lines};
use iyon_tui::view::{WidthRule, WrapMode};
use iyon_tui::wrap::{styled_hard_lines, WrappedLine};

fn texts(rows: &[WrappedLine]) -> Vec<String> {
    rows.iter().map(|row| row.graphemes.iter().map(|g| g.text.as_str()).collect()).collect()
}

#[test]
fn input_rows_take_each_grapheme_once() {
    let hard = styled_hard_lines(vec![("one two", PhysicalStyle::default(), Some(0))]);
    let rows = wrap_input_styled_lines(&hard, "one two", 4);
    assert_eq!(texts(&rows), vec!["one ", "two"]);
    assert_eq!(rows[0].width, 4);
    assert!(!rows[0].fits);
    assert_eq!(rows[1].width, 3);
    assert!(rows[1].fits);
}

#[test]
fn caret_after_the_last_word_stands_at_its_end() {
    let hard = styled_hard_lines(vec![("one two", PhysicalStyle::default(), Some(0))]);
    let mut rows = wrap_input_styled_lines(&hard, "one two", 4);
    let place = cursor_position("one two", TextCursorAnchor { byte_offset: 7 }, 4, &mut rows);
    assert_eq!(place, (1, 3));
    assert_eq!(rows.len(), 2);
    assert_eq!(rows[1].width, 4);
    assert!(rows[1].fits);
}

#[test]
fn caret_past_the_last_column_starts_a_new_row() {
    let hard = styled_hard_lines(vec![("ab  ", PhysicalStyle::default(), Some(0))]);
    let mut rows = wrap_input_styled_lines(&hard, "ab  ", 3);
    assert_eq!(texts(&rows), vec!["ab  "]);
    let place = cursor_position("ab  ", TextCursorAnchor { byte_offset: 4 }, 3, &mut rows);
    assert_eq!(place, (1, 0));
    assert_eq!(rows.len(), 2);
    assert!(rows[1].graphemes.is_empty());
    assert_eq!(rows[1].width, 1);
}

#[test]
fn text_flow_with_a_caret_fits_its_content_plus_a_cell() {
    let hard = styled_hard_lines(vec![("one two", PhysicalStyle::default(), Some(0))]);
    let flow = text_flow(
        WrapMode::WordThenGrapheme,
        Some(TextCursorAnchor { byte_offset: 7 }),
        hard,
        Some("one two"),
        10,
        WidthRule::Fit,
    );
    assert_eq!(flow.width, 8);
    assert_eq!(texts(&flow.rows), vec!["one two"]);
    assert_eq!(flow.cursor, Some((0, 7)));
    assert_eq!(flow.rows[0].width, 8);
}

#[test]
fn text_flow_without_a_caret_wraps_plainly() {
    let hard = styled_hard_lines(vec![("hello world whatever", PhysicalStyle::default(), None)]);
    let flow = text_flow(WrapMode::WordThenGrapheme, None, hard, None, 12, WidthRule::Fill);
    assert_eq!(flow.width, 12);
    assert_eq!(texts(&flow.rows), vec!["hello world ", "whatever"]);
    assert_eq!(flow.cursor, None);
}
