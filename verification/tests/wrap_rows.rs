use iyon_tui::physical::{PhysicalColor, PhysicalStyle};
use iyon_tui::view::WrapMode;
use iyon_tui::wrap::{styled_hard_lines, wrap_styled_lines, StyledGrapheme, WrappedLine};

fn fg(color: PhysicalColor) -> PhysicalStyle {
    PhysicalStyle {
        foreground: Some(color),
        ..PhysicalStyle::default()
    }
}

fn to_strings(rows: &[WrappedLine]) -> Vec<String> {
    rows.iter()
        .map(|row| {
            row.graphemes
                .iter()
                .map(|g| g.text.as_str())
                .collect::<String>()
        })
        .collect()
}

#[test]
fn plain_words_wrap_at_spaces() {
    let hard = styled_hard_lines(vec![(
        "hello world whatever",
        PhysicalStyle::default(),
        None,
    )]);
    let wrapped = wrap_styled_lines(&hard, 12, WrapMode::WordThenGrapheme);
    assert_eq!(to_strings(&wrapped), vec!["hello world ", "whatever"]);
    assert!(wrapped.iter().all(|r| r.fits));
}

#[test]
fn long_word_hard_breaks_at_graphemes() {
    let hard = styled_hard_lines(vec![("abcdefghij", PhysicalStyle::default(), None)]);
    let wrapped = wrap_styled_lines(&hard, 4, WrapMode::WordThenGrapheme);
    assert_eq!(to_strings(&wrapped), vec!["abcd", "efgh", "ij"]);
    assert!(wrapped.iter().all(|r| r.fits));
}

#[test]
fn wide_emoji_never_split() {
    let hard = styled_hard_lines(vec![("😀😁😂😃", PhysicalStyle::default(), None)]);
    let wrapped = wrap_styled_lines(&hard, 3, WrapMode::WordThenGrapheme);
    assert_eq!(to_strings(&wrapped), vec!["😀", "😁", "😂", "😃"]);
    assert!(wrapped.iter().all(|r| r.fits));
}

#[test]
fn combining_characters_never_split() {
    let hard = styled_hard_lines(vec![(
        "e\u{301}e\u{301}e\u{301}",
        PhysicalStyle::default(),
        None,
    )]);
    let wrapped = wrap_styled_lines(&hard, 2, WrapMode::WordThenGrapheme);
    assert_eq!(to_strings(&wrapped), vec!["e\u{301}e\u{301}", "e\u{301}"]);
    assert!(wrapped.iter().all(|r| r.fits));
}

#[test]
fn preserve_hard_newlines() {
    let hard = styled_hard_lines(vec![(
        "line1\nline2\n\nline3",
        PhysicalStyle::default(),
        None,
    )]);
    let wrapped = wrap_styled_lines(&hard, 80, WrapMode::WordThenGrapheme);
    assert_eq!(to_strings(&wrapped), vec!["line1", "line2", "", "line3"]);
    assert!(wrapped.iter().all(|r| r.fits));
}

#[test]
fn combining_mark_across_styled_spans_merges_into_one_grapheme() {
    let style_a = fg(PhysicalColor::Indexed(1));
    let style_b = fg(PhysicalColor::Indexed(4));
    let hard = styled_hard_lines(vec![("e", style_a, Some(0)), ("\u{301}", style_b, Some(1))]);
    assert_eq!(hard.len(), 1);
    assert_eq!(hard[0].len(), 1, "must become ONE StyledGrapheme");
    let g = &hard[0][0];
    assert_eq!(g.text.as_str(), "e\u{301}");
    assert_eq!(g.width, 1);
    assert_eq!(g.style, style_a, "style follows base codepoint");
    assert_eq!(g.source, Some(0..3), "source spans entire cluster");
}

#[test]
fn zwj_sequence_across_spans_merges_into_one_grapheme() {
    let style_a = fg(PhysicalColor::Indexed(2));
    let style_b = fg(PhysicalColor::Indexed(3));
    let style_c = fg(PhysicalColor::Indexed(5));
    let hard = styled_hard_lines(vec![
        ("👩", style_a, Some(10)),
        ("\u{200D}", style_b, Some(14)),
        ("⚕\u{FE0F}", style_c, Some(17)),
    ]);
    assert_eq!(hard.len(), 1);
    assert_eq!(
        hard[0].len(),
        1,
        "ZWJ sequence across spans is one atomic cluster"
    );
    let g = &hard[0][0];
    assert_eq!(g.text.as_str(), "👩\u{200D}⚕\u{FE0F}");
    assert_eq!(g.width, 2);
    assert_eq!(g.style, style_a, "style follows base codepoint");
    assert_eq!(g.source, Some(10..23), "source spans full ZWJ sequence");
}

#[test]
fn oversized_grapheme_marks_fits_false() {
    let hard = styled_hard_lines(vec![("漢字", PhysicalStyle::default(), Some(0))]);
    let wrapped = wrap_styled_lines(&hard, 1, WrapMode::WordThenGrapheme);
    assert_eq!(wrapped.len(), 2);
    assert_eq!(wrapped[0].graphemes[0].text.as_str(), "漢");
    assert_eq!(wrapped[0].width, 2);
    assert!(
        !wrapped[0].fits,
        "2-cell grapheme on 1-cell width does not fit"
    );
    assert_eq!(wrapped[1].graphemes[0].text.as_str(), "字");
    assert_eq!(wrapped[1].width, 2);
    assert!(!wrapped[1].fits);
}

#[test]
fn grapheme_mode_breaks_greedily_and_keeps_content() {
    let hard = styled_hard_lines(vec![("ab cd", PhysicalStyle::default(), Some(5))]);
    let wrapped = wrap_styled_lines(&hard, 2, WrapMode::Grapheme);
    assert_eq!(to_strings(&wrapped), vec!["ab", " c", "d"]);
    assert_eq!(hard[0][3].source, Some(8..9));
}

#[test]
fn no_wrap_and_zero_width_keep_each_line_whole() {
    let hard = styled_hard_lines(vec![("one two\nx", PhysicalStyle::default(), None)]);
    let unwrapped = wrap_styled_lines(&hard, 3, WrapMode::NoWrap);
    assert_eq!(to_strings(&unwrapped), vec!["one two", "x"]);
    assert!(!unwrapped[0].fits);
    assert!(unwrapped[1].fits);
    let zero = wrap_styled_lines(&hard, 0, WrapMode::WordThenGrapheme);
    assert_eq!(zero.len(), 2);
    assert!(!zero[0].fits);
}

#[test]
fn wrapped_line_sums_widths() {
    let g = StyledGrapheme {
        text: "ab".to_string(),
        width: 2,
        style: PhysicalStyle::default(),
        source: None,
    };
    let line = WrappedLine::new(vec![g.clone(), g], 4);
    assert_eq!(line.width, 4);
    assert!(line.fits);
    assert!(WrappedLine::new(Vec::new(), 0).fits);
}
