use iyon_tui::cursor::{apply_cursor_anchor, validate_cursor_anchor, TextCursorAnchor};
use iyon_tui::physical::{PhysicalColor, PhysicalStyle};
use iyon_tui::wrap::{StyledGrapheme, WrappedLine};

fn cell(text: &str, start: usize, style: PhysicalStyle) -> StyledGrapheme {
    StyledGrapheme { text: text.to_string(), width: 1, style, source: Some(start..start + text.len()) }
}

fn row(cells: Vec<StyledGrapheme>, target: usize) -> WrappedLine {
    WrappedLine::new(cells, target)
}

fn anchor(byte_offset: usize) -> TextCursorAnchor {
    TextCursorAnchor { byte_offset }
}

#[test]
fn anchors_must_fall_between_characters() {
    assert!(validate_cursor_anchor("héllo", anchor(0)));
    assert!(!validate_cursor_anchor("héllo", anchor(2)));
    assert!(validate_cursor_anchor("héllo", anchor(3)));
    assert!(validate_cursor_anchor("héllo", anchor(6)));
    assert!(!validate_cursor_anchor("héllo", anchor(7)));
}

#[test]
fn caret_on_a_grapheme_reverses_it() {
    let plain = PhysicalStyle::default();
    let mut rows = vec![row(vec![cell("a", 0, plain), cell("b", 1, plain)], 10)];
    apply_cursor_anchor(&mut rows, "ab", anchor(1), plain, 10);
    assert!(!rows[0].graphemes[0].style.reversed);
    assert!(rows[0].graphemes[1].style.reversed);
    assert_eq!(rows[0].width, 2);
}

#[test]
fn caret_after_the_text_is_a_reversed_blank_in_the_last_style() {
    let red = PhysicalStyle { foreground: Some(PhysicalColor::Indexed(1)), ..PhysicalStyle::default() };
    let mut rows = vec![row(vec![cell("a", 0, red), cell("b", 1, red)], 10)];
    apply_cursor_anchor(&mut rows, "ab", anchor(2), PhysicalStyle::default(), 10);
    assert_eq!(rows.len(), 1);
    assert_eq!(rows[0].graphemes.len(), 3);
    let caret = &rows[0].graphemes[2];
    assert_eq!(caret.text, " ");
    assert_eq!(caret.width, 1);
    assert_eq!(caret.source, None);
    assert_eq!(caret.style, PhysicalStyle { reversed: true, ..red });
    assert_eq!(rows[0].width, 3);
    assert!(rows[0].fits);
}

#[test]
fn caret_that_does_not_fit_gets_its_own_row() {
    let plain = PhysicalStyle::default();
    let mut rows = vec![row(vec![cell("a", 0, plain), cell("b", 1, plain)], 2)];
    apply_cursor_anchor(&mut rows, "ab", anchor(2), plain, 2);
    assert_eq!(rows.len(), 2);
    assert_eq!(rows[0].graphemes.len(), 2);
    assert_eq!(rows[1].graphemes.len(), 1);
    assert_eq!(rows[1].width, 1);
    assert!(rows[1].fits);
}

#[test]
fn caret_after_a_newline_goes_to_the_next_row() {
    let plain = PhysicalStyle::default();
    let mut rows = vec![row(vec![cell("a", 0, plain)], 10), row(Vec::new(), 10)];
    apply_cursor_anchor(&mut rows, "a\n", anchor(2), plain, 10);
    assert_eq!(rows[0].graphemes.len(), 1);
    assert_eq!(rows[1].graphemes.len(), 1);
    assert_eq!(rows[1].graphemes[0].style, PhysicalStyle { reversed: true, ..plain });
}
