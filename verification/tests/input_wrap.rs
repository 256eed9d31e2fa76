use iyon_tui::input_wrap::{input_line_rows, input_wrap_ranges};

#[test]
fn input_wrap_attaches_overflow_space_to_the_adjacent_word() {
    assert_eq!(input_wrap_ranges("one two", 4), vec![0..4, 4..7]);
}

#[test]
fn input_wrap_keeps_leading_whitespace_on_its_logical_line() {
    assert_eq!(input_wrap_ranges("one\n  two", 4), vec![0..3, 4..9]);
}

#[test]
fn empty_input_is_one_empty_row() {
    assert_eq!(input_wrap_ranges("", 10), vec![0..0]);
}

#[test]
fn empty_logical_lines_become_empty_rows() {
    assert_eq!(input_wrap_ranges("a\n\nb", 10), vec![0..1, 2..2, 3..4]);
}

#[test]
fn long_words_are_broken_at_the_wrap_width() {
    assert_eq!(input_wrap_ranges("abcdefgh", 4), vec![0..3, 3..6, 6..8]);
}

#[test]
fn ranges_are_byte_offsets() {
    assert_eq!(input_wrap_ranges("héllo wörld", 7), vec![0..7, 7..13]);
}

#[test]
fn tiny_widths_still_leave_one_column() {
    assert_eq!(input_wrap_ranges("ab", 0), vec![0..1, 1..2]);
    assert_eq!(input_wrap_ranges("ab", 1), vec![0..1, 1..2]);
}

#[test]
fn visual_rows_come_in_source_order() {
    for (text, width) in [("one two three four", 5), ("a\n\n  b c\tdd", 3), ("héllo wörld again", 4)] {
        let ranges = input_wrap_ranges(text, width);
        assert_eq!(ranges[0].start, 0);
        for pair in ranges.windows(2) {
            assert!(pair[0].start < pair[1].start, "{text:?} at {width}: {ranges:?}");
        }
        assert!(ranges.iter().all(|range| range.end <= text.len()));
    }
}

#[test]
fn repeated_words_map_to_their_own_place_in_the_source() {
    assert_eq!(input_wrap_ranges("ab ab ab", 3), vec![0..3, 3..6, 6..8]);
    assert_eq!(input_wrap_ranges("a  a a", 2), vec![0..3, 3..5, 5..6]);
}

#[test]
fn leading_blanks_stay_on_the_first_row_before_repeated_words() {
    assert_eq!(input_wrap_ranges("  ab ab", 4), vec![0..5, 5..7]);
    assert_eq!(input_wrap_ranges("x\n  ab ab", 4), vec![0..1, 2..7, 7..9]);
}

fn chars(text: &str) -> Vec<char> {
    text.chars().collect()
}

fn pieces(rows: &[(bool, &str)]) -> Vec<(bool, String)> {
    rows.iter().map(|(borrowed, text)| (*borrowed, text.to_string())).collect()
}

#[test]
fn textwrap_rows_are_placed_in_the_line() {
    let line = chars("  ab ab");
    let rows = input_line_rows(&line, 0, 7, 3, &pieces(&[(true, ""), (true, "ab"), (true, "ab")]));
    assert_eq!(rows, vec![(0, 5), (5, 7)]);
}

#[test]
fn source_left_over_by_textwrap_rows_is_broken_by_width() {
    let line = chars("abcdef");
    let rows = input_line_rows(&line, 0, 6, 2, &pieces(&[(true, "ab")]));
    assert_eq!(rows, vec![(0, 2), (2, 4), (4, 6)]);
}

#[test]
fn rebuilt_rows_are_matched_against_the_source() {
    let text = chars("x\nab cd");
    let rows = input_line_rows(&text, 2, 7, 4, &pieces(&[(false, "ab"), (true, "cd")]));
    assert_eq!(rows, vec![(2, 5), (5, 7)]);
}
