//! The rows of an input's text at a width, with the caret's place.

use crate::cursor::{anchor_fits, TextCursorAnchor};
use crate::input_wrap::{byte_at, byte_offsets, input_rows, input_wrap_ranges, input_wrap_width, lemma_first_row_starts_input};
use crate::chars::{chars_of, string_of};
use crate::stream::lemma_encode_prefix_grows;
use crate::unicode::{spec_str_width, str_width};
use crate::view::{WidthRule, WrapMode};
use crate::wrap::{
    all_rows, flatten, lemma_widths_sum_nonneg, lemma_widths_sum_push, lines_fit, row_fits, widths_sum,
    wrap_styled_lines, StyledGrapheme, WrappedLine,
};
use std::ops::Range;
use vstd::prelude::*;
use vstd::utf8::encode_utf8;

verus! {

/// The byte ranges of the visual rows of an input at `width` columns.
pub open spec fn input_byte_rows(c: Seq<char>, width: u16) -> Seq<(int, int)> {
    input_rows(c, width).map_values(|p: (int, int)| (byte_at(c, p.0), byte_at(c, p.1)))
}

/// The first of `rows`, from `k` on, that overlaps the byte range `s`.
pub open spec fn first_overlap(rows: Seq<(int, int)>, s: Range<usize>, k: int) -> Option<int>
    decreases rows.len() - k,
{
    if k >= rows.len() || k < 0 {
        None
    } else if rows[k].0 < s.end && s.start < rows[k].1 {
        Some(k)
    } else {
        first_overlap(rows, s, k + 1)
    }
}

/// The graphemes of `gs`, in order, whose source first overlaps row `index`.
pub open spec fn row_graphemes(gs: Seq<StyledGrapheme>, rows: Seq<(int, int)>, index: int) -> Seq<StyledGrapheme>
    decreases gs.len(),
{
    if gs.len() == 0 {
        Seq::empty()
    } else {
        let rest = row_graphemes(gs.drop_last(), rows, index);
        if gs.last().source matches Some(s) && first_overlap(rows, s, 0) == Some(index) {
            rest.push(gs.last())
        } else {
            rest
        }
    }
}

proof fn lemma_row_graphemes_width(gs: Seq<StyledGrapheme>, rows: Seq<(int, int)>, index: int)
    ensures
        widths_sum(row_graphemes(gs, rows, index)) <= widths_sum(gs),
    decreases gs.len(),
{
    if gs.len() > 0 {
        lemma_row_graphemes_width(gs.drop_last(), rows, index);
        lemma_widths_sum_push(row_graphemes(gs.drop_last(), rows, index), gs.last());
    }
}

/// The graphemes of all hard lines, one line after another.
fn flatten_lines(hard_lines: &Vec<Vec<StyledGrapheme>>) -> (r: Vec<StyledGrapheme>)
    ensures
        r@ == flatten(hard_lines@),
{
    let mut out: Vec<StyledGrapheme> = Vec::new();
    let mut li: usize = 0;
    while li < hard_lines.len()
        invariant
            0 <= li <= hard_lines@.len(),
            out@ == flatten(hard_lines@.take(li as int)),
        decreases hard_lines@.len() - li,
    {
        let line = &hard_lines[li];
        let ghost base = out@;
        let mut gi: usize = 0;
        while gi < line.len()
            invariant
                0 <= gi <= line@.len(),
                out@ == base + line@.take(gi as int),
            decreases line@.len() - gi,
        {
            out.push(line[gi].duplicate());
            gi += 1;
            proof {
                assert(out@ =~= base + line@.take(gi as int));
            }
        }
        proof {
            assert(line@.take(gi as int) =~= line@);
            assert(hard_lines@.take(li + 1).drop_last() =~= hard_lines@.take(li as int));
            assert(hard_lines@.take(li + 1).last() == hard_lines@[li as int]);
        }
        li += 1;
    }
    proof {
        assert(hard_lines@.take(li as int) =~= hard_lines@);
    }
    out
}

/// The first of `ranges` that overlaps `s`.
fn overlapping_row(ranges: &Vec<Range<usize>>, s: &Range<usize>, rows: Ghost<Seq<(int, int)>>) -> (r: Option<usize>)
    requires
        ranges@.len() == rows@.len(),
        forall|i: int| 0 <= i < ranges@.len() ==> (#[trigger] ranges@[i]).start == rows@[i].0 && ranges@[i].end == rows@[i].1,
    ensures
        r matches Some(i) ==> first_overlap(rows@, *s, 0) == Some(i as int),
        r is None ==> first_overlap(rows@, *s, 0) is None,
{
    let mut k: usize = 0;
    while k < ranges.len()
        invariant
            0 <= k <= ranges@.len(),
            ranges@.len() == rows@.len(),
            forall|i: int| 0 <= i < ranges@.len() ==> (#[trigger] ranges@[i]).start == rows@[i].0 && ranges@[i].end == rows@[i].1,
            first_overlap(rows@, *s, 0) == first_overlap(rows@, *s, k as int),
        decreases ranges@.len() - k,
    {
        if ranges[k].start < s.end && s.start < ranges[k].end {
            return Some(k);
        }
        k += 1;
    }
    None
}

/// `rows` are an input's hard lines wrapped along its visual rows at
/// `width` columns.
pub open spec fn input_rows_ok(
    hard_lines: Seq<Vec<StyledGrapheme>>,
    source: Seq<char>,
    width: u16,
    rows: Seq<WrappedLine>,
) -> bool {
    &&& rows.len() == input_rows(source, width).len()
    &&& forall|i: int|
        0 <= i < rows.len() ==> {
            let row = row_graphemes(flatten(hard_lines), input_byte_rows(source, width), i);
            &&& (#[trigger] rows[i]).graphemes@ == row
            &&& rows[i].width == widths_sum(row)
            &&& rows[i].fits == row_fits(row.len() as int, widths_sum(row), input_wrap_width(width))
        }
}

/// `rows` are the hard lines wrapped at `width` cells in `mode`.
pub open spec fn plain_rows_ok(hard_lines: Seq<Vec<StyledGrapheme>>, width: u16, mode: WrapMode, rows: Seq<WrappedLine>) -> bool {
    let all = all_rows(hard_lines, width as int, mode, hard_lines.len() as int);
    &&& rows.len() == all.len()
    &&& forall|i: int|
        0 <= i < rows.len() ==> {
            &&& (#[trigger] rows[i]).graphemes@ == all[i]
            &&& rows[i].width == widths_sum(all[i])
            &&& rows[i].fits == row_fits(all[i].len() as int, widths_sum(all[i]), width as int)
        }
}

/// Wraps an input's hard lines along its visual rows: each grapheme goes to
/// the first row its source overlaps, and each row is measured against the
/// input's wrap width.
pub fn wrap_input_styled_lines(hard_lines: &Vec<Vec<StyledGrapheme>>, source: &str, width: u16) -> (r: Vec<WrappedLine>)
    requires
        encode_utf8(source@).len() <= usize::MAX,
        widths_sum(flatten(hard_lines@)) <= usize::MAX,
    ensures
        input_rows_ok(hard_lines@, source@, width, r@),
{
    let ranges = input_wrap_ranges(source, width);
    let ghost rows = input_byte_rows(source@, width);
    let target: usize = if width <= 1 {
        1
    } else {
        (width - 1) as usize
    };
    let all = flatten_lines(hard_lines);
    let mut out: Vec<WrappedLine> = Vec::new();
    let mut index: usize = 0;
    while index < ranges.len()
        invariant
            0 <= index <= ranges@.len(),
            ranges@.len() == rows.len(),
            rows == input_byte_rows(source@, width),
            rows.len() == input_rows(source@, width).len(),
            forall|i: int| 0 <= i < ranges@.len() ==> (#[trigger] ranges@[i]).start == rows[i].0 && ranges@[i].end == rows[i].1,
            target as int == input_wrap_width(width),
            all@ == flatten(hard_lines@),
            widths_sum(all@) <= usize::MAX,
            out@.len() == index,
            forall|i: int|
                0 <= i < index ==> {
                    let row = row_graphemes(all@, rows, i);
                    &&& (#[trigger] out@[i]).graphemes@ == row
                    &&& out@[i].width == widths_sum(row)
                    &&& out@[i].fits == row_fits(row.len() as int, widths_sum(row), target as int)
                },
        decreases ranges@.len() - index,
    {
        let mut picked: Vec<StyledGrapheme> = Vec::new();
        let mut k: usize = 0;
        while k < all.len()
            invariant
                0 <= k <= all@.len(),
                ranges@.len() == rows.len(),
                forall|i: int| 0 <= i < ranges@.len() ==> (#[trigger] ranges@[i]).start == rows[i].0 && ranges@[i].end == rows[i].1,
                picked@ == row_graphemes(all@.take(k as int), rows, index as int),
            decreases all@.len() - k,
        {
            proof {
                assert(all@.take(k + 1).drop_last() =~= all@.take(k as int));
                assert(all@.take(k + 1).last() == all@[k as int]);
            }
            let hit = match &all[k].source {
                Some(s) => match overlapping_row(&ranges, s, Ghost(rows)) {
                    Some(i) => i == index,
                    None => false,
                },
                None => false,
            };
            if hit {
                picked.push(all[k].duplicate());
            }
            k += 1;
        }
        proof {
            assert(all@.take(k as int) =~= all@);
            lemma_row_graphemes_width(all@, rows, index as int);
        }
        out.push(WrappedLine::new(picked, target));
        index += 1;
    }
    proof {
        assert(rows.len() == input_rows(source@, width).len());
    }
    out
}

/// The character index at byte `b` of `c`, for a `b` between characters.
pub open spec fn char_at_byte(c: Seq<char>, b: int) -> int {
    choose|k: int| 0 <= k <= c.len() && byte_at(c, k) == b
}

/// The first of `rows`, from `k` on, that starts after byte `a`; their
/// number when none does.
pub open spec fn first_start_after(rows: Seq<(int, int)>, a: int, k: int) -> int
    decreases rows.len() - k,
{
    if k >= rows.len() {
        rows.len() as int
    } else if rows[k].0 > a {
        k
    } else {
        first_start_after(rows, a, k + 1)
    }
}

/// At least one column.
pub open spec fn some_columns(max_columns: usize) -> usize {
    if max_columns < 1 {
        1
    } else {
        max_columns
    }
}

/// The caret's row and column among the visual rows of `c` at
/// `max_columns` columns: the last row starting at or before the caret,
/// and the width of the text from that row's start to the caret; a caret
/// that would stand past the last column starts the next row.
pub open spec fn caret_place(c: Seq<char>, a: usize, max_columns: usize) -> (int, int) {
    let mc = some_columns(max_columns);
    let w = mc as u16;
    let after = first_start_after(input_byte_rows(c, w), a as int, 0);
    let row = if after > 0 { after - 1 } else { 0 };
    let column = spec_str_width(c.subrange(input_rows(c, w)[row].0, char_at_byte(c, a as int))) as int;
    if column >= mc {
        (row + 1, 0)
    } else {
        (row, column)
    }
}

proof fn lemma_char_at_byte(c: Seq<char>, k: int)
    requires
        0 <= k <= c.len(),
    ensures
        char_at_byte(c, byte_at(c, k)) == k,
{
    let j = char_at_byte(c, byte_at(c, k));
    assert(exists|x: int| 0 <= x <= c.len() && byte_at(c, x) == byte_at(c, k));
    if j < k {
        lemma_encode_prefix_grows(c, j, k);
    } else if j > k {
        lemma_encode_prefix_grows(c, k, j);
    }
}

/// The character index whose byte offset is `b`.
fn index_at_byte(offsets: &Vec<usize>, c: Ghost<Seq<char>>, b: usize) -> (r: usize)
    requires
        offsets@.len() == c@.len() + 1,
        forall|j: int| 0 <= j <= c@.len() ==> offsets@[j] == byte_at(c@, j),
        exists|k: int| 0 <= k <= c@.len() && byte_at(c@, k) == b,
    ensures
        r <= c@.len(),
        byte_at(c@, r as int) == b,
        r == char_at_byte(c@, b as int),
{
    let mut k: usize = 0;
    while k < offsets.len()
        invariant
            0 <= k <= offsets@.len(),
            offsets@.len() == c@.len() + 1,
            forall|j: int| 0 <= j <= c@.len() ==> offsets@[j] == byte_at(c@, j),
            forall|j: int| 0 <= j < k ==> byte_at(c@, j) != b,
            exists|x: int| 0 <= x <= c@.len() && byte_at(c@, x) == b,
        decreases offsets@.len() - k,
    {
        if offsets[k] == b {
            proof {
                lemma_char_at_byte(c@, k as int);
            }
            return k;
        }
        k += 1;
    }
    proof {
        let x = choose|x: int| 0 <= x <= c@.len() && byte_at(c@, x) == b;
        assert(byte_at(c@, x) != b);
    }
    0
}

/// The caret's row and column (see [`caret_place`]).
fn locate_caret(source: &str, anchor: TextCursorAnchor, max_columns: usize) -> (r: (usize, usize))
    requires
        encode_utf8(source@).len() <= usize::MAX,
        anchor_fits(source@, anchor),
    ensures
        (r.0 as int, r.1 as int) == caret_place(source@, anchor.byte_offset, max_columns),
{
    let mc: usize = if max_columns < 1 {
        1
    } else {
        max_columns
    };
    let w = mc as u16;
    let ranges = input_wrap_ranges(source, w);
    let ghost c = source@;
    let ghost byte_rows = input_byte_rows(c, w);
    let a = anchor.byte_offset;
    proof {
        lemma_first_row_starts_input(c, w);
        assert(c.take(0) =~= Seq::<char>::empty());
        assert(byte_rows[0].0 == 0);
    }
    let mut after: usize = 0;
    while after < ranges.len() && ranges[after].start <= a
        invariant
            0 <= after <= ranges@.len(),
            ranges@.len() == byte_rows.len(),
            byte_rows == input_byte_rows(c, w),
            forall|i: int|
                0 <= i < ranges@.len() ==> (#[trigger] ranges@[i]).start == byte_at(c, input_rows(c, w)[i].0),
            first_start_after(byte_rows, a as int, 0) == first_start_after(byte_rows, a as int, after as int),
            forall|i: int| 0 <= i < after ==> (#[trigger] ranges@[i]).start <= a,
        decreases ranges@.len() - after,
    {
        after += 1;
    }
    proof {
        assert(byte_rows[0].0 <= a);
        if after == 0 {
            assert(ranges@[0].start == byte_rows[0].0);
        }
    }
    let mut row: usize = after - 1;
    let characters = chars_of(source);
    let offsets = byte_offsets(&characters);
    let ghost k1_spec = input_rows(c, w)[row as int].0;
    proof {
        assert(0 <= k1_spec <= c.len());
    }
    let k1 = index_at_byte(&offsets, Ghost(c), ranges[row].start);
    let k2 = index_at_byte(&offsets, Ghost(c), a);
    proof {
        lemma_char_at_byte(c, k1_spec);
        if k2 < k1 {
            lemma_encode_prefix_grows(c, k2 as int, k1 as int);
        }
    }
    let text = string_of(&characters, k1, k2);
    let mut column = str_width(text.as_str());
    if column >= mc {
        row = row + 1;
        column = 0;
    }
    (row, column)
}

/// Makes sure rows up to `row` exist (adding empty ones), then widens row
/// `row` to hold a caret at `column` and measures it against `mc` columns.
fn widen_row(rows: &mut Vec<WrappedLine>, row: usize, column: usize, mc: usize)
    requires
        mc >= 1,
    ensures
        final(rows)@.len() == if row < old(rows)@.len() { old(rows)@.len() as int } else { row + 1 },
        forall|k: int| 0 <= k < old(rows)@.len() && k != row ==> final(rows)@[k] == old(rows)@[k],
        forall|k: int|
            old(rows)@.len() <= k < final(rows)@.len() && k != row ==> (#[trigger] final(rows)@[k]).graphemes@.len()
                == 0 && final(rows)@[k].width == 0 && final(rows)@[k].fits,
        ({
            let line = final(rows)@[row as int];
            let (graphemes, width) = if row < old(rows)@.len() {
                (old(rows)@[row as int].graphemes@, old(rows)@[row as int].width as int)
            } else {
                (Seq::<StyledGrapheme>::empty(), 0int)
            };
            let needed = if column + 1 > usize::MAX { usize::MAX as int } else { column + 1 };
            &&& line.graphemes@ == graphemes
            &&& line.width == if width < needed { needed } else { width }
            &&& line.fits == (line.width <= mc)
        }),
{
    let ghost old_rows = rows@;
    let filler: usize = if mc - 1 < 1 {
        1
    } else {
        mc - 1
    };
    while rows.len() < row
        invariant
            old_rows.len() <= rows@.len(),
            rows@.len() == old_rows.len() || rows@.len() <= row,
            forall|k: int| 0 <= k < old_rows.len() ==> rows@[k] == old_rows[k],
            forall|k: int|
                old_rows.len() <= k < rows@.len() ==> (#[trigger] rows@[k]).graphemes@.len() == 0 && rows@[k].width
                    == 0 && rows@[k].fits,
        decreases row - rows@.len(),
    {
        let empty: Vec<StyledGrapheme> = Vec::new();
        proof {
            assert(widths_sum(empty@) == 0);
        }
        rows.push(WrappedLine::new(empty, filler));
    }
    if rows.len() == row {
        let empty: Vec<StyledGrapheme> = Vec::new();
        proof {
            assert(widths_sum(empty@) == 0);
        }
        rows.push(WrappedLine::new(empty, filler));
    }
    let ghost extended = rows@;
    let mut line = rows.remove(row);
    let needed = column.saturating_add(1);
    if line.width < needed {
        line.width = needed;
    }
    line.fits = line.width <= mc;
    rows.insert(row, line);
    proof {
        assert(rows@ =~= extended.update(row as int, rows@[row as int]));
    }
}

/// `after` is `before` with rows up to the caret's `place` added empty
/// where missing and the caret's row widened to hold it, measured against
/// `max_columns` columns.
pub open spec fn caret_rows_ok(before: Seq<WrappedLine>, after: Seq<WrappedLine>, place: (int, int), max_columns: usize) -> bool {
    let (r0, r1) = place;
    &&& after.len() == if r0 < before.len() { before.len() as int } else { r0 + 1 }
    &&& forall|k: int| 0 <= k < before.len() && k != r0 ==> after[k] == before[k]
    &&& forall|k: int|
        before.len() <= k < after.len() && k != r0 ==> (#[trigger] after[k]).graphemes@.len() == 0 && after[k].width
            == 0 && after[k].fits
    &&& ({
        let row = after[r0];
        let (graphemes, width) = if r0 < before.len() {
            (before[r0].graphemes@, before[r0].width as int)
        } else {
            (Seq::<StyledGrapheme>::empty(), 0int)
        };
        let needed = if r1 + 1 > usize::MAX { usize::MAX as int } else { r1 + 1 };
        &&& row.graphemes@ == graphemes
        &&& row.width == if width < needed { needed } else { width }
        &&& row.fits == (row.width <= some_columns(max_columns))
    })
}

/// The caret's row and column among the visual rows of `source` at
/// `max_columns` columns (see [`caret_place`]). Rows up to the caret's are
/// added empty where missing, and the caret's row is widened to hold it.
pub fn cursor_position(source: &str, anchor: TextCursorAnchor, max_columns: usize, rows: &mut Vec<WrappedLine>) -> (r: (
    usize,
    usize,
))
    requires
        encode_utf8(source@).len() <= usize::MAX,
        anchor_fits(source@, anchor),
    ensures
        (r.0 as int, r.1 as int) == caret_place(source@, anchor.byte_offset, max_columns),
        caret_rows_ok(old(rows)@, final(rows)@, (r.0 as int, r.1 as int), max_columns),
{
    let (row, column) = locate_caret(source, anchor, max_columns);
    let mc: usize = if max_columns < 1 {
        1
    } else {
        max_columns
    };
    proof {
        crate::input_wrap::lemma_first_row_starts_input(source@, mc as u16);
    }
    widen_row(rows, row, column, mc);
    (row, column)
}

/// The rows of a text at a width, the width used, and the caret's row and
/// column.
#[derive(Debug, Clone, PartialEq, Eq)]
pub struct StyledTextFlow {
    pub width: u16,
    pub rows: Vec<WrappedLine>,
    pub cursor: Option<(usize, usize)>,
}

/// The widest of the first `n` hard lines.
pub open spec fn widest_line(lines: Seq<Vec<StyledGrapheme>>, n: int) -> int
    decreases n,
{
    if n <= 0 {
        0
    } else {
        let rest = widest_line(lines, n - 1);
        let w = widths_sum(lines[n - 1]@);
        if w > rest { w } else { rest }
    }
}

/// The widest of the first `n` hard lines is as wide as each of them, and
/// is the width of one of them (zero when there is none).
pub proof fn lemma_widest_line_is_widest(lines: Seq<Vec<StyledGrapheme>>, n: int)
    requires
        0 <= n <= lines.len(),
    ensures
        forall|i: int| 0 <= i < n ==> widths_sum(#[trigger] lines[i]@) <= widest_line(lines, n),
        n == 0 ==> widest_line(lines, n) == 0,
        n > 0 ==> exists|i: int| 0 <= i < n && widest_line(lines, n) == widths_sum(#[trigger] lines[i]@),
        widest_line(lines, n) >= 0,
    decreases n,
{
    if n > 0 {
        lemma_widest_line_is_widest(lines, n - 1);
        crate::wrap::lemma_widths_sum_nonneg(lines[n - 1]@);
        if n - 1 > 0 {
            let j = choose|j: int| 0 <= j < n - 1 && widest_line(lines, n - 1) == widths_sum(#[trigger] lines[j]@);
            if widths_sum(lines[n - 1]@) <= widest_line(lines, n - 1) {
                assert(0 <= j < n && widest_line(lines, n) == widths_sum(lines[j]@));
            }
        }
        assert(widest_line(lines, n) == widths_sum(lines[n - 1]@) || widest_line(lines, n) == widest_line(
            lines,
            n - 1,
        ));
    }
}

/// A text flow that fits its content is as wide as its widest hard line,
/// up to `max_width`: it is at least as wide as every hard line that fits
/// in `max_width`, never wider than `max_width`, and as wide as some hard
/// line cut to `max_width` (zero with no line); a filling flow takes
/// `max_width`.
pub proof fn lemma_fit_width_covers_every_line(lines: Seq<Vec<StyledGrapheme>>, max_width: u16)
    ensures
        forall|i: int|
            0 <= i < lines.len() ==> {
                let w = widths_sum(#[trigger] lines[i]@);
                (if w < max_width { w } else { max_width as int }) <= flow_width(
                    lines,
                    None,
                    max_width,
                    WidthRule::Fit,
                )
            },
        0 <= flow_width(lines, None, max_width, WidthRule::Fit) <= max_width,
        flow_width(lines, None, max_width, WidthRule::Fit) == 0 || exists|i: int|
            0 <= i < lines.len() && flow_width(lines, None, max_width, WidthRule::Fit) == {
                let w = widths_sum(#[trigger] lines[i]@);
                if w < max_width { w } else { max_width as int }
            },
        flow_width(lines, None, max_width, WidthRule::Fill) == max_width,
{
    lemma_widest_line_is_widest(lines, lines.len() as int);
}

/// A grapheme whose source starts at byte `a`.
pub open spec fn starts_at(g: StyledGrapheme, a: usize) -> bool {
    g.source matches Some(r) && r.start == a
}

/// Whether a caret at `a` stands on no grapheme's first byte, and so needs
/// a cell of its own.
pub open spec fn caret_needs_cell(lines: Seq<Vec<StyledGrapheme>>, a: usize) -> bool {
    !exists|k: int| 0 <= k < flatten(lines).len() && starts_at(#[trigger] flatten(lines)[k], a)
}

/// The width a text flow takes: its widest line (plus a caret cell when
/// needed) limited to `max_width` when it fits its content, else all of
/// `max_width`.
pub open spec fn flow_width(
    lines: Seq<Vec<StyledGrapheme>>,
    cursor: Option<TextCursorAnchor>,
    max_width: u16,
    rule: WidthRule,
) -> int {
    let intrinsic = widest_line(lines, lines.len() as int) + if cursor matches Some(a) && caret_needs_cell(
        lines,
        a.byte_offset,
    ) {
        1int
    } else {
        0int
    };
    match rule {
        WidthRule::Fit => if intrinsic < max_width { intrinsic } else { max_width as int },
        WidthRule::Fill => max_width as int,
    }
}

pub(crate) fn widest(lines: &Vec<Vec<StyledGrapheme>>) -> (r: usize)
    requires
        lines_fit(lines@),
    ensures
        r == widest_line(lines@, lines@.len() as int),
{
    let mut best: usize = 0;
    let mut i: usize = 0;
    while i < lines.len()
        invariant
            0 <= i <= lines@.len(),
            lines_fit(lines@),
            best == widest_line(lines@, i as int),
        decreases lines@.len() - i,
    {
        let line = WrappedLine::new(clone_line(&lines[i]), 0);
        proof {
            assert(widths_sum(lines@[i as int]@) <= usize::MAX);
        }
        if line.width > best {
            best = line.width;
        }
        i += 1;
    }
    best
}

fn clone_line(line: &Vec<StyledGrapheme>) -> (r: Vec<StyledGrapheme>)
    ensures
        r@ == line@,
{
    let mut out: Vec<StyledGrapheme> = Vec::new();
    let mut i: usize = 0;
    while i < line.len()
        invariant
            0 <= i <= line@.len(),
            out@ == line@.take(i as int),
        decreases line@.len() - i,
    {
        out.push(line[i].duplicate());
        i += 1;
        proof {
            assert(out@ =~= line@.take(i as int));
        }
    }
    proof {
        assert(line@.take(i as int) =~= line@);
    }
    out
}

fn needs_cell(lines: &Vec<Vec<StyledGrapheme>>, a: usize) -> (r: bool)
    ensures
        r == caret_needs_cell(lines@, a),
{
    let all = flatten_lines(lines);
    let mut k: usize = 0;
    while k < all.len()
        invariant
            0 <= k <= all@.len(),
            all@ == flatten(lines@),
            forall|j: int| 0 <= j < k ==> !starts_at(#[trigger] all@[j], a),
        decreases all@.len() - k,
    {
        let starts_here = match &all[k].source {
            Some(r) => r.start == a,
            None => false,
        };
        if starts_here {
            return false;
        }
        k += 1;
    }
    true
}

/// Lays a text out at most `max_width` cells wide. With a caret and its
/// source the rows follow the input's visual rows and the caret's place is
/// found; otherwise the hard lines are wrapped in `wrap` mode.
pub fn text_flow(
    wrap: WrapMode,
    cursor: Option<TextCursorAnchor>,
    hard_lines: Vec<Vec<StyledGrapheme>>,
    source: Option<&str>,
    max_width: u16,
    inherited_width: WidthRule,
) -> (r: StyledTextFlow)
    requires
        lines_fit(hard_lines@),
        widest_line(hard_lines@, hard_lines@.len() as int) < usize::MAX,
        widths_sum(flatten(hard_lines@)) <= usize::MAX,
        source matches Some(s) ==> encode_utf8(s@).len() <= usize::MAX,
        cursor matches Some(a) && source matches Some(s) ==> anchor_fits(s@, a),
    ensures
        r.width == flow_width(hard_lines@, cursor, max_width, inherited_width),
        cursor matches Some(a) ==> (source matches Some(s) ==> (r.cursor matches Some(place) && (place.0 as int,
            place.1 as int) == caret_place(s@, a.byte_offset, r.width as usize) && exists|before: Seq<WrappedLine>|
            input_rows_ok(hard_lines@, s@, r.width, before) && caret_rows_ok(
                before,
                r.rows@,
                (place.0 as int, place.1 as int),
                r.width as usize,
            ))),
        !(cursor is Some && source is Some) ==> plain_rows_ok(hard_lines@, r.width, wrap, r.rows@) && r.cursor is None,
{
    let intrinsic = widest(&hard_lines);
    let extra: usize = match cursor {
        Some(anchor) => if needs_cell(&hard_lines, anchor.byte_offset) {
            1
        } else {
            0
        },
        None => 0,
    };
    let intrinsic = intrinsic + extra;
    let width: u16 = match inherited_width {
        WidthRule::Fit => if intrinsic < max_width as usize {
            intrinsic as u16
        } else {
            max_width
        },
        WidthRule::Fill => max_width,
    };
    match (cursor, source) {
        (Some(anchor), Some(src)) => {
            let mut rows = wrap_input_styled_lines(&hard_lines, src, width);
            let ghost before = rows@;
            let place = cursor_position(src, anchor, width as usize, &mut rows);
            let ghost after = rows@;
            let flow = StyledTextFlow { width, rows, cursor: Some(place) };
            proof {
                assert(flow.width == width);
                assert(flow.rows@ == after);
                assert(input_rows_ok(hard_lines@, src@, flow.width, before));
                assert(caret_rows_ok(before, flow.rows@, (place.0 as int, place.1 as int), flow.width as usize));
                assert(exists|b: Seq<WrappedLine>|
                    input_rows_ok(hard_lines@, src@, flow.width, b) && caret_rows_ok(
                        b,
                        flow.rows@,
                        (place.0 as int, place.1 as int),
                        flow.width as usize,
                    ));
            }
            flow
        },
        _ => {
            let lines = hard_lines.as_slice();
            let rows = wrap_styled_lines(lines, width, wrap);
            proof {
                assert(lines@ == hard_lines@);
                assert(plain_rows_ok(hard_lines@, width, wrap, rows@));
            }
            StyledTextFlow { width, rows, cursor: None }
        },
    }
}

} // verus!
