//! Grapheme-aware wrapping of styled text into physical rows.

use crate::physical::PhysicalStyle;
use crate::stream::{lemma_encode_concat, lemma_encode_nonempty};
use crate::unicode::{
    concat_all, graphemes, line_breaks, push_char, spec_graphemes, spec_linebreaks, spec_str_width,
    str_width, string_views,
};
use crate::view::WrapMode;
use core::ops::Range;
use vstd::prelude::*;
use vstd::utf8::encode_utf8;

verus! {

/// An atomic extended-grapheme cluster with style and optional source range.
#[derive(Debug, Clone, PartialEq, Eq)]
pub struct StyledGrapheme {
    pub text: String,
    pub width: usize,
    pub style: PhysicalStyle,
    pub source: Option<Range<usize>>,
}

impl StyledGrapheme {
    /// A copy equal to this grapheme.
    pub fn duplicate(&self) -> (r: Self)
        ensures
            r == *self,
    {
        let source = match &self.source {
            Some(range) => Some(range.start..range.end),
            None => None,
        };
        StyledGrapheme { text: self.text.clone(), width: self.width, style: self.style, source }
    }
}

/// A physical line of wrapped graphemes with its display width and whether
/// it fits the target width.
#[derive(Debug, Clone, PartialEq, Eq)]
pub struct WrappedLine {
    pub graphemes: Vec<StyledGrapheme>,
    pub width: usize,
    pub fits: bool,
}

/// The total display width of `graphemes`.
pub open spec fn widths_sum(graphemes: Seq<StyledGrapheme>) -> int
    decreases graphemes.len(),
{
    if graphemes.len() == 0 {
        0
    } else {
        widths_sum(graphemes.drop_last()) + graphemes.last().width
    }
}

/// The rows, one after another.
pub open spec fn flatten(rows: Seq<Vec<StyledGrapheme>>) -> Seq<StyledGrapheme>
    decreases rows.len(),
{
    if rows.len() == 0 {
        Seq::empty()
    } else {
        flatten(rows.drop_last()) + rows.last()@
    }
}

/// Whether a row of `width` cells holding graphemes of total width `used`
/// fits a target of `target` cells: an empty row always fits, and nothing
/// fits a zero-width target.
pub open spec fn row_fits(count: int, used: int, target: int) -> bool {
    if count == 0 {
        true
    } else if target == 0 {
        false
    } else {
        used <= target
    }
}

pub proof fn lemma_widths_sum_push(graphemes: Seq<StyledGrapheme>, g: StyledGrapheme)
    ensures
        widths_sum(graphemes.push(g)) == widths_sum(graphemes) + g.width,
{
    assert(graphemes.push(g).drop_last() =~= graphemes);
}

pub proof fn lemma_widths_sum_nonneg(graphemes: Seq<StyledGrapheme>)
    ensures
        widths_sum(graphemes) >= 0,
    decreases graphemes.len(),
{
    if graphemes.len() > 0 {
        lemma_widths_sum_nonneg(graphemes.drop_last());
    }
}

/// The width of a concatenation is the sum of the widths.
pub proof fn lemma_widths_sum_concat(a: Seq<StyledGrapheme>, b: Seq<StyledGrapheme>)
    ensures
        widths_sum(a + b) == widths_sum(a) + widths_sum(b),
    decreases b.len(),
{
    if b.len() > 0 {
        lemma_widths_sum_concat(a, b.drop_last());
        assert((a + b).drop_last() =~= a + b.drop_last());
    } else {
        assert(a + b =~= a);
    }
}

/// A prefix is no wider than the whole.
pub proof fn lemma_widths_sum_prefix(graphemes: Seq<StyledGrapheme>, k: int)
    requires
        0 <= k <= graphemes.len(),
    ensures
        0 <= widths_sum(graphemes.take(k)) <= widths_sum(graphemes),
{
    lemma_widths_sum_concat(graphemes.take(k), graphemes.skip(k));
    assert(graphemes.take(k) + graphemes.skip(k) =~= graphemes);
    lemma_widths_sum_nonneg(graphemes.take(k));
    lemma_widths_sum_nonneg(graphemes.skip(k));
}

impl WrappedLine {
    pub fn new(graphemes: Vec<StyledGrapheme>, target_width: usize) -> (r: Self)
        requires
            widths_sum(graphemes@) <= usize::MAX,
        ensures
            r.graphemes@ == graphemes@,
            r.width == widths_sum(graphemes@),
            r.fits == row_fits(graphemes@.len() as int, widths_sum(graphemes@), target_width as int),
    {
        let mut width: usize = 0;
        let mut index: usize = 0;
        while index < graphemes.len()
            invariant
                0 <= index <= graphemes@.len(),
                widths_sum(graphemes@) <= usize::MAX,
                width == widths_sum(graphemes@.take(index as int)),
            decreases graphemes@.len() - index,
        {
            proof {
                assert(graphemes@.take(index + 1) =~= graphemes@.take(index as int).push(graphemes@[index as int]));
                lemma_widths_sum_push(graphemes@.take(index as int), graphemes@[index as int]);
                lemma_widths_sum_prefix(graphemes@, index + 1);
            }
            width = width + graphemes[index].width;
            index += 1;
        }
        assert(graphemes@.take(graphemes@.len() as int) =~= graphemes@);
        let fits = if graphemes.len() == 0 {
            true
        } else if target_width == 0 {
            false
        } else {
            width <= target_width
        };
        WrappedLine { graphemes, width, fits }
    }
}

/// Greedy grapheme rows of at most `width` cells: a grapheme joins the
/// current row unless the row already has width and the grapheme would push
/// it past `width`.
pub open spec fn exact_rows(line: Seq<StyledGrapheme>, width: int, rows: Seq<Vec<StyledGrapheme>>) -> bool {
    &&& flatten(rows) == line
    &&& forall|r: int| 0 <= r < rows.len() ==> (#[trigger] rows[r])@.len() > 0
    &&& forall|r: int, k: int|
        #![trigger rows[r]@[k]]
        0 <= r < rows.len() && 1 <= k < rows[r]@.len() ==> {
            let used = widths_sum(rows[r]@.take(k));
            used == 0 || used + rows[r]@[k].width <= width
        }
    &&& forall|r: int|
        0 <= r < rows.len() - 1 ==> {
            let used = widths_sum((#[trigger] rows[r])@);
            used > 0 && used + rows[r + 1]@[0].width > width
        }
}

/// Where the greedy grapheme row that started at `start` ends, scanning from
/// `k` with `used` cells already taken.
pub open spec fn exact_scan(line: Seq<StyledGrapheme>, width: int, k: int, used: int) -> int
    decreases line.len() - k,
{
    if k >= line.len() {
        line.len() as int
    } else if used > 0 && used + line[k].width > width {
        k
    } else {
        exact_scan(line, width, k + 1, used + line[k].width)
    }
}

/// The greedy grapheme rows of `line` from `start` on.
pub open spec fn exact_rows_from(line: Seq<StyledGrapheme>, width: int, start: int) -> Seq<Seq<StyledGrapheme>>
    decreases line.len() - start,
{
    if start < 0 || start >= line.len() {
        Seq::empty()
    } else {
        let end = exact_scan(line, width, start + 1, line[start].width as int);
        if end <= start || end > line.len() {
            Seq::empty()
        } else {
            seq![line.subrange(start, end)] + exact_rows_from(line, width, end)
        }
    }
}

proof fn lemma_exact_scan_bounds(line: Seq<StyledGrapheme>, width: int, k: int, used: int)
    requires
        0 <= k,
    ensures
        k <= exact_scan(line, width, k, used) <= line.len() || (k > line.len() && exact_scan(line, width, k, used)
            == line.len()),
    decreases line.len() - k,
{
    if k < line.len() && !(used > 0 && used + line[k].width > width) {
        lemma_exact_scan_bounds(line, width, k + 1, used + line[k].width);
    }
}

/// The views of rows.
pub open spec fn rows_view(rows: Seq<Vec<StyledGrapheme>>) -> Seq<Seq<StyledGrapheme>> {
    rows.map_values(|row: Vec<StyledGrapheme>| row@)
}

/// Fallback hard breaking between extended grapheme clusters.
#[verifier::rlimit(80)]
#[verifier::spinoff_prover]
fn wrap_graphemes_exact(line: &[StyledGrapheme], width: usize) -> (r: Vec<Vec<StyledGrapheme>>)
    requires
        widths_sum(line@) <= usize::MAX,
    ensures
        exact_rows(line@, width as int, r@),
        rows_view(r@) == exact_rows_from(line@, width as int, 0),
{
    let mut output: Vec<Vec<StyledGrapheme>> = Vec::new();
    let mut current: Vec<StyledGrapheme> = Vec::new();
    let mut used: usize = 0;
    let mut index: usize = 0;
    while index < line.len()
        invariant
            0 <= index <= line@.len(),
            index == 0 ==> output@.len() == 0 && current@.len() == 0,
            index > 0 ==> rows_view(output@) + exact_rows_from(line@, width as int, index - current@.len())
                == exact_rows_from(line@, width as int, 0),
            index > 0 ==> exact_scan(line@, width as int, index - current@.len() + 1, line@[index - current@.len()].width as int)
                == exact_scan(line@, width as int, index as int, used as int),
            current@ == line@.subrange(index - current@.len(), index as int),
            widths_sum(line@) <= usize::MAX,
            flatten(output@) + current@ == line@.take(index as int),
            used == widths_sum(current@),
            index > 0 ==> current@.len() > 0,
            forall|r: int| 0 <= r < output@.len() ==> (#[trigger] output@[r])@.len() > 0,
            forall|r: int, k: int|
                #![trigger output@[r]@[k]]
                0 <= r < output@.len() && 1 <= k < output@[r]@.len() ==> {
                    let u = widths_sum(output@[r]@.take(k));
                    u == 0 || u + output@[r]@[k].width <= width
                },
            forall|k: int|
                1 <= k < current@.len() ==> {
                    let u = widths_sum(current@.take(k));
                    u == 0 || u + (#[trigger] current@[k]).width <= width
                },
            forall|r: int|
                0 <= r < output@.len() - 1 ==> {
                    let u = widths_sum((#[trigger] output@[r])@);
                    u > 0 && u + output@[r + 1]@[0].width > width
                },
            output@.len() > 0 ==> current@.len() > 0 && widths_sum(output@.last()@) > 0 && widths_sum(
                output@.last()@,
            ) + current@[0].width > width,
        decreases line@.len() - index,
    {
        let grapheme = &line[index];
        proof {
            lemma_widths_sum_prefix(line@, index + 1);
            assert(line@.take(index + 1) =~= line@.take(index as int).push(line@[index as int]));
            lemma_widths_sum_concat(flatten(output@), current@);
            lemma_widths_sum_push(line@.take(index as int), line@[index as int]);
            lemma_widths_sum_nonneg(flatten(output@));
        }
        if used > 0 && used + grapheme.width > width {
            let ghost finished = current@;
            let ghost before = output@;
            output.push(current);
            current = Vec::new();
            used = 0;
            proof {
                assert(output@.drop_last() =~= before);
                assert(flatten(output@) =~= flatten(before) + finished);
            }
        }
        let ghost before_current = current@;
        current.push(grapheme.duplicate());
        proof {
            lemma_widths_sum_push(before_current, *grapheme);
            assert(current@.take(before_current.len() as int) =~= before_current);
            assert forall|k: int| 1 <= k < current@.len() implies {
                let u = widths_sum(current@.take(k));
                u == 0 || u + (#[trigger] current@[k]).width <= width
            } by {
                if k < before_current.len() {
                    assert(current@.take(k) =~= before_current.take(k));
                }
            }
        }
        used = used + grapheme.width;
        index += 1;
    }
    if current.len() > 0 {
        let ghost before = output@;
        let ghost last = current@;
        let ghost start = index - current@.len();
        output.push(current);
        proof {
            assert(output@.drop_last() =~= before);
            assert(exact_scan(line@, width as int, index as int, used as int) == line@.len());
            assert(exact_rows_from(line@, width as int, line@.len() as int) =~= Seq::empty());
            assert(exact_rows_from(line@, width as int, start) =~= seq![last]);
            assert(rows_view(output@) =~= rows_view(before).push(last));
        }
    }
    assert(line@.take(line@.len() as int) =~= line@);
    output
}

/// The text of the first `n` graphemes, one after another.
pub open spec fn graphemes_text(graphemes: Seq<StyledGrapheme>, n: int) -> Seq<char>
    decreases n,
{
    if n <= 0 {
        Seq::empty()
    } else {
        graphemes_text(graphemes, n - 1) + graphemes[n - 1].text@
    }
}

/// The byte offset just after grapheme `i` in the line's text.
pub open spec fn grapheme_end(graphemes: Seq<StyledGrapheme>, i: int) -> int {
    encode_utf8(graphemes_text(graphemes, i + 1)).len() as int
}

/// A line may break after grapheme `i` when UAX #14 reports a break
/// opportunity (allowed or mandatory) exactly at its end.
pub open spec fn break_flags(graphemes: Seq<StyledGrapheme>) -> Seq<bool> {
    let breaks = spec_linebreaks(graphemes_text(graphemes, graphemes.len() as int));
    Seq::new(
        graphemes.len(),
        |i: int| exists|k: int| 0 <= k < breaks.len() && #[trigger] breaks[k].0 as int == grapheme_end(graphemes, i),
    )
}

/// Where the graphemes from `k` on stop fitting, with `used` cells taken.
pub open spec fn fit_scan(line: Seq<StyledGrapheme>, width: int, k: int, used: int) -> int
    decreases line.len() - k,
{
    if k < 0 || k >= line.len() {
        line.len() as int
    } else if used + line[k].width <= width {
        fit_scan(line, width, k + 1, used + line[k].width)
    } else {
        k
    }
}

/// The last break position in `(start, end]`, if any.
pub open spec fn last_break(flags: Seq<bool>, start: int, end: int) -> Option<int>
    decreases end - start,
{
    if end <= start {
        None
    } else if flags[end - 1] {
        Some(end)
    } else {
        last_break(flags, start, end - 1)
    }
}

/// Where the word-wrapped row that starts at `start` ends: the whole rest
/// when it fits, else the last break opportunity inside the fitting part,
/// else the fitting part, else the single grapheme that is too wide alone.
pub open spec fn word_row_end(line: Seq<StyledGrapheme>, flags: Seq<bool>, width: int, start: int) -> int {
    let fit = fit_scan(line, width, start, 0);
    if fit >= line.len() {
        line.len() as int
    } else {
        match last_break(flags, start, fit) {
            Some(at) => at,
            None => if fit > start {
                fit
            } else {
                start + 1
            },
        }
    }
}

/// The word-wrapped rows of `line` from `start` on.
pub open spec fn word_rows_from(line: Seq<StyledGrapheme>, flags: Seq<bool>, width: int, start: int) -> Seq<
    Seq<StyledGrapheme>,
>
    decreases line.len() - start,
{
    if start < 0 || start >= line.len() {
        Seq::empty()
    } else {
        let end = word_row_end(line, flags, width, start);
        if end <= start || end > line.len() {
            Seq::empty()
        } else {
            seq![line.subrange(start, end)] + word_rows_from(line, flags, width, end)
        }
    }
}

proof fn lemma_fit_scan_bounds(line: Seq<StyledGrapheme>, width: int, k: int, used: int)
    requires
        0 <= k <= line.len(),
    ensures
        k <= fit_scan(line, width, k, used) <= line.len(),
    decreases line.len() - k,
{
    if k < line.len() && used + line[k].width <= width {
        lemma_fit_scan_bounds(line, width, k + 1, used + line[k].width);
    }
}

proof fn lemma_last_break_bounds(flags: Seq<bool>, start: int, end: int)
    ensures
        last_break(flags, start, end) matches Some(at) ==> start < at <= end,
    decreases end - start,
{
    if end > start && !flags[end - 1] {
        lemma_last_break_bounds(flags, start, end - 1);
    }
}

proof fn lemma_graphemes_text_prefix(graphemes: Seq<StyledGrapheme>, i: int, n: int)
    requires
        0 <= i <= n,
    ensures
        encode_utf8(graphemes_text(graphemes, i)).len() <= encode_utf8(graphemes_text(graphemes, n)).len(),
    decreases n - i,
{
    if i < n {
        lemma_graphemes_text_prefix(graphemes, i, n - 1);
        lemma_encode_concat(graphemes_text(graphemes, n - 1), graphemes[n - 1].text@);
    }
}

/// A width sum over a slice of the line is bounded by the whole line.
proof fn lemma_widths_sum_subrange(line: Seq<StyledGrapheme>, from: int, to: int)
    requires
        0 <= from <= to <= line.len(),
    ensures
        0 <= widths_sum(line.subrange(from, to)) <= widths_sum(line),
{
    lemma_widths_sum_concat(line.take(from), line.subrange(from, to));
    lemma_widths_sum_concat(line.take(from) + line.subrange(from, to), line.skip(to));
    assert(line.take(from) + line.subrange(from, to) + line.skip(to) =~= line);
    lemma_widths_sum_nonneg(line.take(from));
    lemma_widths_sum_nonneg(line.subrange(from, to));
    lemma_widths_sum_nonneg(line.skip(to));
}

/// Copies of `line[from..to]`.
fn copy_graphemes(line: &[StyledGrapheme], from: usize, to: usize) -> (r: Vec<StyledGrapheme>)
    requires
        from <= to <= line@.len(),
    ensures
        r@ == line@.subrange(from as int, to as int),
{
    let mut out: Vec<StyledGrapheme> = Vec::new();
    let mut index = from;
    while index < to
        invariant
            from <= index <= to <= line@.len(),
            out@ == line@.subrange(from as int, index as int),
        decreases to - index,
    {
        out.push(line[index].duplicate());
        proof {
            assert(out@ =~= line@.subrange(from as int, index + 1));
        }
        index += 1;
    }
    out
}

/// The index of `needle` among strictly increasing `ends`, found by bisection.
fn find_end(ends: &Vec<usize>, needle: usize) -> (r: Option<usize>)
    requires
        forall|i: int, j: int| 0 <= i < j < ends@.len() ==> #[trigger] ends@[i] < #[trigger] ends@[j],
    ensures
        match r {
            Some(i) => i < ends@.len() && ends@[i as int] == needle,
            None => forall|i: int| 0 <= i < ends@.len() ==> ends@[i] != needle,
        },
{
    let mut low: usize = 0;
    let mut high: usize = ends.len();
    while low < high
        invariant
            0 <= low <= high <= ends@.len(),
            forall|i: int, j: int| 0 <= i < j < ends@.len() ==> #[trigger] ends@[i] < #[trigger] ends@[j],
            forall|i: int| 0 <= i < low ==> #[trigger] ends@[i] < needle,
            forall|i: int| high <= i < ends@.len() ==> #[trigger] ends@[i] > needle,
        decreases high - low,
    {
        let middle = low + (high - low) / 2;
        if ends[middle] == needle {
            return Some(middle);
        } else if ends[middle] < needle {
            low = middle + 1;
        } else {
            high = middle;
        }
    }
    None
}

/// Word-wrapping with UAX #14 break opportunities, falling back to
/// grapheme-level hard breaks when words exceed the available width.
#[verifier::rlimit(40)]
fn wrap_line_word_then_grapheme(line: &[StyledGrapheme], width: usize) -> (r: Vec<Vec<StyledGrapheme>>)
    requires
        widths_sum(line@) <= usize::MAX,
        forall|i: int| 0 <= i < line@.len() ==> (#[trigger] line@[i]).text@.len() > 0,
        encode_utf8(graphemes_text(line@, line@.len() as int)).len() <= usize::MAX,
    ensures
        line@.len() == 0 ==> rows_view(r@) == seq![Seq::<StyledGrapheme>::empty()],
        line@.len() > 0 ==> rows_view(r@) == word_rows_from(line@, break_flags(line@), width as int, 0),
{
    if line.len() == 0 {
        let mut out: Vec<Vec<StyledGrapheme>> = Vec::new();
        out.push(Vec::new());
        assert(rows_view(out@) =~= seq![Seq::<StyledGrapheme>::empty()]);
        return out;
    }
    let ghost total = encode_utf8(graphemes_text(line@, line@.len() as int)).len();
    let mut full_text = String::new();
    let mut ends: Vec<usize> = Vec::new();
    let mut i: usize = 0;
    while i < line.len()
        invariant
            0 <= i <= line@.len(),
            total == encode_utf8(graphemes_text(line@, line@.len() as int)).len(),
            total <= usize::MAX,
            forall|j: int| 0 <= j < line@.len() ==> (#[trigger] line@[j]).text@.len() > 0,
            full_text@ == graphemes_text(line@, i as int),
            ends@.len() == i,
            forall|j: int| 0 <= j < i ==> #[trigger] ends@[j] == grapheme_end(line@, j),
            forall|a: int, b: int| 0 <= a < b < i ==> #[trigger] ends@[a] < #[trigger] ends@[b],
        decreases line@.len() - i,
    {
        full_text.append(line[i].text.as_str());
        proof {
            lemma_graphemes_text_prefix(line@, i + 1, line@.len() as int);
            lemma_encode_concat(graphemes_text(line@, i as int), line@[i as int].text@);
            lemma_encode_nonempty(line@[i as int].text@);
            if i > 0 {
                assert(ends@[i - 1] == grapheme_end(line@, i - 1));
            }
        }
        let end = full_text.as_str().len();
        ends.push(end);
        i += 1;
    }
    let mut can_break: Vec<bool> = Vec::new();
    let mut i: usize = 0;
    while i < line.len()
        invariant
            0 <= i <= line@.len(),
            can_break@.len() == i,
            forall|j: int| 0 <= j < i ==> !(#[trigger] can_break@[j]),
        decreases line@.len() - i,
    {
        can_break.push(false);
        i += 1;
    }
    let breaks = line_breaks(full_text.as_str());
    let mut b: usize = 0;
    while b < breaks.len()
        invariant
            0 <= b <= breaks@.len(),
            can_break@.len() == line@.len(),
            ends@.len() == line@.len(),
            forall|a: int, c: int| 0 <= a < c < ends@.len() ==> #[trigger] ends@[a] < #[trigger] ends@[c],
            forall|j: int|
                0 <= j < line@.len() ==> #[trigger] can_break@[j] == exists|k: int|
                    0 <= k < b && #[trigger] breaks@[k].0 == ends@[j],
        decreases breaks@.len() - b,
    {
        let (offset, _mandatory) = breaks[b];
        let found = find_end(&ends, offset);
        let ghost before = can_break@;
        match found {
            Some(index) => {
                can_break.set(index, true);
            },
            None => {},
        }
        proof {
            assert forall|j: int| 0 <= j < line@.len() implies #[trigger] can_break@[j] == exists|k: int|
                0 <= k < b + 1 && #[trigger] breaks@[k].0 == ends@[j] by {
                if breaks@[b as int].0 == ends@[j] {
                    assert(0 <= b < b + 1 && breaks@[b as int].0 == ends@[j]);
                } else {
                    if exists|k: int| 0 <= k < b + 1 && #[trigger] breaks@[k].0 == ends@[j] {
                        let k = choose|k: int| 0 <= k < b + 1 && #[trigger] breaks@[k].0 == ends@[j];
                        assert(k < b);
                    }
                }
            }
        }
        b += 1;
    }
    let ghost flags = can_break@;
    proof {
        assert(flags =~= break_flags(line@));
    }
    let mut output: Vec<Vec<StyledGrapheme>> = Vec::new();
    let mut cursor: usize = 0;
    while cursor < line.len()
        invariant
            0 <= cursor <= line@.len(),
            line@.len() > 0,
            flags == can_break@,
            can_break@.len() == line@.len(),
            widths_sum(line@) <= usize::MAX,
            rows_view(output@) + word_rows_from(line@, flags, width as int, cursor as int) == word_rows_from(
                line@,
                flags,
                width as int,
                0,
            ),
        decreases line@.len() - cursor,
    {
        let line_start = cursor;
        let mut used: usize = 0;
        let mut last: Option<usize> = None;
        proof {
            lemma_widths_sum_subrange(line@, line_start as int, cursor as int);
            assert(line@.subrange(line_start as int, cursor as int) =~= Seq::empty());
            assert(line@.subrange(line_start as int, cursor + 1) =~= seq![line@[cursor as int]]);
            lemma_widths_sum_push(Seq::empty(), line@[cursor as int]);
            assert(Seq::<StyledGrapheme>::empty().push(line@[cursor as int]) =~= seq![line@[cursor as int]]);
            lemma_widths_sum_subrange(line@, line_start as int, cursor + 1);
        }
        while cursor < line.len() && used + line[cursor].width <= width
            invariant
                line_start <= cursor <= line@.len(),
                line_start < line@.len(),
                flags == can_break@,
                can_break@.len() == line@.len(),
                widths_sum(line@) <= usize::MAX,
                used == widths_sum(line@.subrange(line_start as int, cursor as int)),
                cursor < line@.len() ==> used + line@[cursor as int].width <= widths_sum(line@),
                fit_scan(line@, width as int, line_start as int, 0) == fit_scan(
                    line@,
                    width as int,
                    cursor as int,
                    used as int,
                ),
                match last {
                    Some(at) => last_break(flags, line_start as int, cursor as int) == Some(at as int),
                    None => last_break(flags, line_start as int, cursor as int) is None,
                },
            decreases line@.len() - cursor,
        {
            proof {
                assert(line@.subrange(line_start as int, cursor + 1) =~= line@.subrange(
                    line_start as int,
                    cursor as int,
                ).push(line@[cursor as int]));
                lemma_widths_sum_push(line@.subrange(line_start as int, cursor as int), line@[cursor as int]);
                lemma_widths_sum_subrange(line@, line_start as int, cursor + 1);
            }
            used = used + line[cursor].width;
            if can_break[cursor] {
                last = Some(cursor + 1);
            }
            cursor += 1;
            proof {
                if cursor < line@.len() {
                    assert(line@.subrange(line_start as int, cursor + 1) =~= line@.subrange(
                        line_start as int,
                        cursor as int,
                    ).push(line@[cursor as int]));
                    lemma_widths_sum_push(line@.subrange(line_start as int, cursor as int), line@[cursor as int]);
                    lemma_widths_sum_subrange(line@, line_start as int, cursor + 1);
                }
            }
        }
        proof {
            lemma_fit_scan_bounds(line@, width as int, line_start as int, 0);
            lemma_last_break_bounds(flags, line_start as int, cursor as int);
            assert(fit_scan(line@, width as int, cursor as int, used as int) == cursor);
        }
        let ghost start = line_start as int;
        let ghost end = word_row_end(line@, flags, width as int, start);
        let ghost before_rows = output@;
        if cursor == line.len() {
            output.push(copy_graphemes(line, line_start, cursor));
        } else {
            match last {
                Some(at) => {
                    output.push(copy_graphemes(line, line_start, at));
                    cursor = at;
                },
                None => {
                    if cursor > line_start {
                        output.push(copy_graphemes(line, line_start, cursor));
                    } else {
                        let mut single: Vec<StyledGrapheme> = Vec::new();
                        single.push(line[cursor].duplicate());
                        proof {
                            assert(single@ =~= line@.subrange(start, start + 1));
                        }
                        output.push(single);
                        cursor += 1;
                    }
                },
            }
        }
        proof {
            assert(end == cursor);
            assert(word_rows_from(line@, flags, width as int, start) =~= seq![line@.subrange(start, end)]
                + word_rows_from(line@, flags, width as int, end));
            assert(rows_view(output@) =~= rows_view(before_rows).push(line@.subrange(start, end)));
        }
    }
    output
}

/// The rows one hard line wraps into.
pub open spec fn line_rows(line: Seq<StyledGrapheme>, width: int, mode: WrapMode) -> Seq<Seq<StyledGrapheme>> {
    if mode == WrapMode::NoWrap || width == 0 {
        seq![line]
    } else if line.len() == 0 {
        seq![Seq::empty()]
    } else if mode == WrapMode::Grapheme {
        exact_rows_from(line, width, 0)
    } else {
        word_rows_from(line, break_flags(line), width, 0)
    }
}

/// The rows of the first `n` hard lines, one line after another.
pub open spec fn all_rows(lines: Seq<Vec<StyledGrapheme>>, width: int, mode: WrapMode, n: int) -> Seq<
    Seq<StyledGrapheme>,
>
    decreases n,
{
    if n <= 0 {
        Seq::empty()
    } else {
        all_rows(lines, width, mode, n - 1) + line_rows(lines[n - 1]@, width, mode)
    }
}

/// Hard lines whose graphemes are non-empty and whose widths and bytes fit
/// the machine's sizes.
pub open spec fn lines_fit(lines: Seq<Vec<StyledGrapheme>>) -> bool {
    forall|i: int|
        0 <= i < lines.len() ==> {
            &&& widths_sum((#[trigger] lines[i])@) <= usize::MAX
            &&& forall|j: int| 0 <= j < lines[i]@.len() ==> (#[trigger] lines[i]@[j]).text@.len() > 0
            &&& encode_utf8(graphemes_text(lines[i]@, lines[i]@.len() as int)).len() <= usize::MAX
        }
}

proof fn lemma_exact_rows_widths(line: Seq<StyledGrapheme>, width: int, start: int)
    requires
        0 <= start,
    ensures
        forall|i: int|
            0 <= i < exact_rows_from(line, width, start).len() ==> widths_sum(
                #[trigger] exact_rows_from(line, width, start)[i],
            ) <= widths_sum(line),
    decreases line.len() - start,
{
    if start < line.len() {
        let end = exact_scan(line, width, start + 1, line[start].width as int);
        if end > start && end <= line.len() {
            lemma_exact_rows_widths(line, width, end);
            lemma_widths_sum_subrange(line, start, end);
            let rows = exact_rows_from(line, width, start);
            let rest = exact_rows_from(line, width, end);
            assert forall|i: int| 0 <= i < rows.len() implies widths_sum(#[trigger] rows[i]) <= widths_sum(line) by {
                if i > 0 {
                    assert(rows[i] == rest[i - 1]);
                }
            }
        }
    }
}

proof fn lemma_word_rows_widths(line: Seq<StyledGrapheme>, flags: Seq<bool>, width: int, start: int)
    requires
        0 <= start,
    ensures
        forall|i: int|
            0 <= i < word_rows_from(line, flags, width, start).len() ==> widths_sum(
                #[trigger] word_rows_from(line, flags, width, start)[i],
            ) <= widths_sum(line),
    decreases line.len() - start,
{
    if start < line.len() {
        let end = word_row_end(line, flags, width, start);
        if end > start && end <= line.len() {
            lemma_word_rows_widths(line, flags, width, end);
            lemma_widths_sum_subrange(line, start, end);
            let rows = word_rows_from(line, flags, width, start);
            let rest = word_rows_from(line, flags, width, end);
            assert forall|i: int| 0 <= i < rows.len() implies widths_sum(#[trigger] rows[i]) <= widths_sum(line) by {
                if i > 0 {
                    assert(rows[i] == rest[i - 1]);
                }
            }
        }
    }
}

/// Pushes one wrapped line per row.
fn push_rows(output: &mut Vec<WrappedLine>, rows: Vec<Vec<StyledGrapheme>>, width: usize, bound: Ghost<int>)
    requires
        bound@ <= usize::MAX,
        forall|i: int| 0 <= i < rows@.len() ==> widths_sum(#[trigger] rows@[i]@) <= bound@,
    ensures
        final(output)@.len() == old(output)@.len() + rows@.len(),
        forall|i: int| 0 <= i < old(output)@.len() ==> final(output)@[i] == old(output)@[i],
        forall|i: int|
            0 <= i < rows@.len() ==> {
                let line = #[trigger] final(output)@[old(output)@.len() + i];
                &&& line.graphemes@ == rows@[i]@
                &&& line.width == widths_sum(rows@[i]@)
                &&& line.fits == row_fits(rows@[i]@.len() as int, widths_sum(rows@[i]@), width as int)
            },
{
    let ghost all = rows@;
    let ghost start = output@.len();
    for row in iter: rows
        invariant
            iter.seq() == all,
            bound@ <= usize::MAX,
            forall|i: int| 0 <= i < all.len() ==> widths_sum(#[trigger] all[i]@) <= bound@,
            output@.len() == start + iter.index(),
            forall|i: int| 0 <= i < start ==> output@[i] == old(output)@[i],
            forall|i: int|
                0 <= i < iter.index() ==> {
                    let line = #[trigger] output@[start + i];
                    &&& line.graphemes@ == all[i]@
                    &&& line.width == widths_sum(all[i]@)
                    &&& line.fits == row_fits(all[i]@.len() as int, widths_sum(all[i]@), width as int)
                },
    {
        output.push(WrappedLine::new(row, width));
    }
}

/// Generic grapheme-aware line-wrapping kernel.
///
/// Wraps pre-split hard lines of graphemes to fit within `width` cells.
/// Extended grapheme clusters are never split internally.
pub fn wrap_styled_lines(hard_lines: &[Vec<StyledGrapheme>], width: u16, mode: WrapMode) -> (r: Vec<WrappedLine>)
    requires
        lines_fit(hard_lines@),
    ensures
        r@.len() == all_rows(hard_lines@, width as int, mode, hard_lines@.len() as int).len(),
        forall|i: int|
            0 <= i < r@.len() ==> {
                let row = all_rows(hard_lines@, width as int, mode, hard_lines@.len() as int)[i];
                &&& (#[trigger] r@[i]).graphemes@ == row
                &&& r@[i].width == widths_sum(row)
                &&& r@[i].fits == row_fits(row.len() as int, widths_sum(row), width as int)
            },
{
    let target = width as usize;
    let mut output: Vec<WrappedLine> = Vec::new();
    let mut index: usize = 0;
    while index < hard_lines.len()
        invariant
            0 <= index <= hard_lines@.len(),
            target == width as usize,
            lines_fit(hard_lines@),
            output@.len() == all_rows(hard_lines@, width as int, mode, index as int).len(),
            forall|i: int|
                0 <= i < output@.len() ==> {
                    let row = all_rows(hard_lines@, width as int, mode, index as int)[i];
                    &&& (#[trigger] output@[i]).graphemes@ == row
                    &&& output@[i].width == widths_sum(row)
                    &&& output@[i].fits == row_fits(row.len() as int, widths_sum(row), width as int)
                },
        decreases hard_lines@.len() - index,
    {
        let line = &hard_lines[index];
        let ghost before = output@;
        let ghost rows_before = all_rows(hard_lines@, width as int, mode, index as int);
        let ghost these = line_rows(line@, width as int, mode);
        proof {
            assert(widths_sum(hard_lines@[index as int]@) <= usize::MAX);
            assert(all_rows(hard_lines@, width as int, mode, index + 1) == rows_before + these);
        }
        let rows: Vec<Vec<StyledGrapheme>> = if mode == WrapMode::NoWrap || target == 0 {
            let mut rows: Vec<Vec<StyledGrapheme>> = Vec::new();
            rows.push(copy_graphemes(line.as_slice(), 0, line.len()));
            proof {
                assert(line@.subrange(0, line@.len() as int) =~= line@);
                assert(rows_view(rows@) =~= these);
            }
            rows
        } else if line.len() == 0 {
            let mut rows: Vec<Vec<StyledGrapheme>> = Vec::new();
            rows.push(Vec::new());
            proof {
                assert(rows_view(rows@) =~= these);
            }
            rows
        } else if mode == WrapMode::Grapheme {
            proof {
                lemma_exact_rows_widths(line@, width as int, 0);
            }
            wrap_graphemes_exact(line.as_slice(), target)
        } else {
            proof {
                lemma_word_rows_widths(line@, break_flags(line@), width as int, 0);
            }
            wrap_line_word_then_grapheme(line.as_slice(), target)
        };
        proof {
            assert(rows_view(rows@) == these);
            assert forall|i: int| 0 <= i < rows@.len() implies widths_sum(#[trigger] rows@[i]@) <= widths_sum(line@) by {
                assert(rows@[i]@ == rows_view(rows@)[i]);
                if these.len() == 1 && (mode == WrapMode::NoWrap || target == 0) {
                } else if line@.len() == 0 {
                    assert(widths_sum(Seq::<StyledGrapheme>::empty()) == 0);
                }
            }
        }
        push_rows(&mut output, rows, target, Ghost(widths_sum(line@)));
        proof {
            assert forall|i: int| 0 <= i < output@.len() implies {
                let row = all_rows(hard_lines@, width as int, mode, index + 1)[i];
                &&& (#[trigger] output@[i]).graphemes@ == row
                &&& output@[i].width == widths_sum(row)
                &&& output@[i].fits == row_fits(row.len() as int, widths_sum(row), width as int)
            } by {
                if i >= before.len() {
                    let k = i - before.len();
                    assert(output@[before.len() + k] == output@[i]);
                    assert(rows@[k]@ == these[k]);
                }
            }
        }
        index += 1;
    }
    output
}

/// A styled piece of one hard line, with the source offset of its first byte.
#[derive(Debug, Clone)]
struct SpanFragment {
    text: String,
    style: PhysicalStyle,
    source_start: Option<usize>,
}

/// The mathematical content of a fragment.
pub struct FragmentModel {
    pub text: Seq<char>,
    pub style: PhysicalStyle,
    pub source_start: Option<int>,
}

spec fn fragment_models(fragments: Seq<SpanFragment>) -> Seq<FragmentModel> {
    fragments.map_values(
        |f: SpanFragment|
            FragmentModel {
                text: f.text@,
                style: f.style,
                source_start: match f.source_start {
                    Some(start) => Some(start as int),
                    None => None,
                },
            },
    )
}

/// The text of the first `n` fragments, one after another.
pub open spec fn fragments_text(fragments: Seq<FragmentModel>, n: int) -> Seq<char>
    decreases n,
{
    if n <= 0 {
        Seq::empty()
    } else {
        fragments_text(fragments, n - 1) + fragments[n - 1].text
    }
}

/// The byte offset at which fragment `k` begins in the line's text.
pub open spec fn fragment_start(fragments: Seq<FragmentModel>, k: int) -> int {
    encode_utf8(fragments_text(fragments, k)).len() as int
}

/// The first fragment, from `k` on, that ends after byte `at`.
pub open spec fn fragment_index(fragments: Seq<FragmentModel>, at: int, k: int) -> int
    decreases fragments.len() - k,
{
    if k < 0 || k >= fragments.len() {
        fragments.len() as int
    } else if at < fragment_start(fragments, k + 1) {
        k
    } else {
        fragment_index(fragments, at, k + 1)
    }
}

/// The byte offset at which grapheme `i` begins.
pub open spec fn cluster_start(clusters: Seq<Seq<char>>, i: int) -> int {
    encode_utf8(concat_all(clusters.take(i))).len() as int
}

/// `out` holds the extended grapheme clusters of the fragments' joined text:
/// each with its own width, the style of the fragment holding its first
/// byte, and (where both fragments have one) the source range from its first
/// byte's source to just past its last byte's source.
pub open spec fn tokenized(fragments: Seq<FragmentModel>, out: Seq<StyledGrapheme>) -> bool {
    if fragments.len() == 0 {
        out.len() == 0
    } else {
        let clusters = spec_graphemes(fragments_text(fragments, fragments.len() as int));
        &&& out.len() == clusters.len()
        &&& forall|i: int|
            0 <= i < out.len() ==> {
                let start = cluster_start(clusters, i);
                let end = start + encode_utf8(clusters[i]).len();
                let first = fragment_index(fragments, start, 0);
                let last = fragment_index(fragments, end - 1, 0);
                &&& (#[trigger] out[i]).text@ == clusters[i]
                &&& out[i].width == spec_str_width(clusters[i])
                &&& out[i].style == fragments[first].style
                &&& out[i].source == match (fragments[first].source_start, fragments[last].source_start) {
                    (Some(a), Some(b)) => Some(
                        Range {
                            start: (a + start - fragment_start(fragments, first)) as usize,
                            end: (b + end - fragment_start(fragments, last)) as usize,
                        },
                    ),
                    _ => None,
                }
            }
    }
}

/// Fragments that are non-empty, whose joined bytes fit the machine's sizes,
/// and whose source offsets stay representable.
pub open spec fn fragments_fit(fragments: Seq<FragmentModel>) -> bool {
    &&& forall|k: int| 0 <= k < fragments.len() ==> (#[trigger] fragments[k]).text.len() > 0
    &&& encode_utf8(fragments_text(fragments, fragments.len() as int)).len() <= usize::MAX
    &&& forall|k: int|
        0 <= k < fragments.len() ==> ((#[trigger] fragments[k]).source_start matches Some(base) ==> base
            + encode_utf8(fragments[k].text).len() <= usize::MAX)
}

proof fn lemma_fragment_starts(fragments: Seq<FragmentModel>, k: int, n: int)
    requires
        0 <= k <= n <= fragments.len(),
        forall|j: int| 0 <= j < fragments.len() ==> (#[trigger] fragments[j]).text.len() > 0,
    ensures
        fragment_start(fragments, k) <= fragment_start(fragments, n),
        k < n ==> fragment_start(fragments, k) < fragment_start(fragments, n),
        k < fragments.len() ==> fragment_start(fragments, k + 1) == fragment_start(fragments, k) + encode_utf8(
            fragments[k].text,
        ).len(),
    decreases n - k,
{
    if k < fragments.len() {
        lemma_encode_concat(fragments_text(fragments, k), fragments[k].text);
        lemma_encode_nonempty(fragments[k].text);
    }
    if k < n {
        lemma_fragment_starts(fragments, k + 1, n);
    }
}

proof fn lemma_fragment_index(fragments: Seq<FragmentModel>, at: int, k: int, j: int)
    requires
        0 <= k <= j < fragments.len(),
        forall|x: int| 0 <= x < fragments.len() ==> (#[trigger] fragments[x]).text.len() > 0,
        fragment_start(fragments, k) <= at,
        fragment_start(fragments, j) <= at < fragment_start(fragments, j + 1),
    ensures
        fragment_index(fragments, at, k) == j,
    decreases j - k,
{
    if k < j {
        lemma_fragment_starts(fragments, k + 1, j);
        lemma_fragment_index(fragments, at, k + 1, j);
    }
}

/// Finds the fragment whose byte range holds `at`.
fn locate(ranges: &Vec<(usize, usize)>, at: usize, models: Ghost<Seq<FragmentModel>>) -> (r: usize)
    requires
        ranges@.len() == models@.len(),
        forall|x: int| 0 <= x < models@.len() ==> (#[trigger] models@[x]).text.len() > 0,
        forall|k: int|
            0 <= k < ranges@.len() ==> (#[trigger] ranges@[k]).0 == fragment_start(models@, k) && ranges@[k].1
                == fragment_start(models@, k + 1),
        at < fragment_start(models@, models@.len() as int),
    ensures
        r < ranges@.len(),
        r == fragment_index(models@, at as int, 0),
        ranges@[r as int].0 <= at < ranges@[r as int].1,
{
    let mut k: usize = 0;
    proof {
        assert(fragment_start(models@, 0) == 0) by {
            assert(fragments_text(models@, 0) =~= Seq::<char>::empty());
        }
    }
    while k < ranges.len()
        invariant
            0 <= k <= ranges@.len(),
            ranges@.len() == models@.len(),
            forall|x: int| 0 <= x < models@.len() ==> (#[trigger] models@[x]).text.len() > 0,
            forall|j: int|
                0 <= j < ranges@.len() ==> (#[trigger] ranges@[j]).0 == fragment_start(models@, j)
                    && ranges@[j].1 == fragment_start(models@, j + 1),
            at < fragment_start(models@, models@.len() as int),
            fragment_start(models@, k as int) <= at,
        decreases ranges@.len() - k,
    {
        if ranges[k].0 <= at && at < ranges[k].1 {
            proof {
                lemma_fragment_index(models@, at as int, 0, k as int);
                assert(fragment_start(models@, 0) == 0) by {
                    assert(fragments_text(models@, 0) =~= Seq::<char>::empty());
                }
            }
            return k;
        }
        k += 1;
    }
    proof {
        assert(false);
    }
    0
}

/// Tokenizes one hard line into extended grapheme clusters across fragment
/// boundaries.
fn tokenize_hard_line(fragments: Vec<SpanFragment>) -> (r: Vec<StyledGrapheme>)
    requires
        fragments_fit(fragment_models(fragments@)),
    ensures
        tokenized(fragment_models(fragments@), r@),
        graphemes_sized(r@),
        graphemes_text(r@, r@.len() as int) == fragments_text(
            fragment_models(fragments@),
            fragments@.len() as int,
        ),
{
    let ghost models = fragment_models(fragments@);
    if fragments.len() == 0 {
        let empty: Vec<StyledGrapheme> = Vec::new();
        proof {
            assert(graphemes_text(empty@, 0) =~= fragments_text(models, 0));
        }
        return empty;
    }
    let ghost total = encode_utf8(fragments_text(models, models.len() as int)).len();
    let mut full_text = String::new();
    let mut ranges: Vec<(usize, usize)> = Vec::new();
    let mut k: usize = 0;
    while k < fragments.len()
        invariant
            0 <= k <= fragments@.len(),
            models == fragment_models(fragments@),
            fragments_fit(models),
            total == encode_utf8(fragments_text(models, models.len() as int)).len(),
            full_text@ == fragments_text(models, k as int),
            ranges@.len() == k,
            forall|j: int|
                0 <= j < k ==> (#[trigger] ranges@[j]).0 == fragment_start(models, j) && ranges@[j].1
                    == fragment_start(models, j + 1),
        decreases fragments@.len() - k,
    {
        proof {
            lemma_fragment_starts(models, k as int, models.len() as int);
            lemma_fragment_starts(models, k + 1, models.len() as int);
        }
        let start = full_text.as_str().len();
        full_text.append(fragments[k].text.as_str());
        let end = full_text.as_str().len();
        ranges.push((start, end));
        k += 1;
    }
    let clusters = graphemes(full_text.as_str());
    let ghost views = string_views(clusters@);
    let mut line: Vec<StyledGrapheme> = Vec::new();
    let mut g_start: usize = 0;
    assert(concat_all(views.take(0)) =~= Seq::<char>::empty());
    for text in iter: clusters
        invariant
            iter.seq() == clusters@,
            models == fragment_models(fragments@),
            fragments_fit(models),
            models.len() > 0,
            ranges@.len() == models.len(),
            forall|j: int|
                0 <= j < ranges@.len() ==> (#[trigger] ranges@[j]).0 == fragment_start(models, j) && ranges@[j].1
                    == fragment_start(models, j + 1),
            total == encode_utf8(fragments_text(models, models.len() as int)).len(),
            total == fragment_start(models, models.len() as int),
            views == string_views(clusters@),
            views == spec_graphemes(fragments_text(models, models.len() as int)),
            concat_all(views) == fragments_text(models, models.len() as int),
            forall|i: int| 0 <= i < views.len() ==> (#[trigger] views[i]).len() > 0,
            g_start == cluster_start(views, iter.index() as int),
            line@.len() == iter.index(),
            total <= usize::MAX,
            graphemes_sized(line@),
            graphemes_text(line@, line@.len() as int) == concat_all(views.take(iter.index() as int)),
            forall|i: int|
                0 <= i < line@.len() ==> {
                    let start = cluster_start(views, i);
                    let end = start + encode_utf8(views[i]).len();
                    let first = fragment_index(models, start, 0);
                    let last = fragment_index(models, end - 1, 0);
                    &&& (#[trigger] line@[i]).text@ == views[i]
                    &&& line@[i].width == spec_str_width(views[i])
                    &&& line@[i].style == models[first].style
                    &&& line@[i].source == match (models[first].source_start, models[last].source_start) {
                        (Some(a), Some(b)) => Some(
                            Range {
                                start: (a + start - fragment_start(models, first)) as usize,
                                end: (b + end - fragment_start(models, last)) as usize,
                            },
                        ),
                        _ => None,
                    }
                },
    {
        let ghost i = iter.index() as int;
        proof {
            lemma_cluster_bounds(views, i);
            lemma_fragment_starts(models, 0, models.len() as int);
        }
        let g_end = g_start + text.as_str().len();
        let first = locate(&ranges, g_start, Ghost(models));
        let last = locate(&ranges, g_end - 1, Ghost(models));
        let fragment = &fragments[first];
        let end_fragment = &fragments[last];
        assert(models[first as int].style == fragment.style);
        proof {
            lemma_fragment_starts(models, first as int, models.len() as int);
            lemma_fragment_starts(models, last as int, models.len() as int);
        }
        let source = match (fragment.source_start, end_fragment.source_start) {
            (Some(s_base), Some(e_base)) => {
                let s_offset = s_base + (g_start - ranges[first].0);
                let e_offset = e_base + (g_end - ranges[last].0);
                Some(s_offset..e_offset)
            },
            _ => None,
        };
        let width = str_width(text.as_str());
        let ghost before = line@;
        let ghost text_view = text@;
        line.push(StyledGrapheme { text, width, style: fragment.style, source });
        proof {
            assert(views[i] == text_view);
            lemma_graphemes_text_same_prefix(before, line@, i);
            assert(views.take(i + 1).drop_last() =~= views.take(i));
            assert(line@[i].text@ == text_view);
            assert(graphemes_sized(line@)) by {
                assert forall|k: int| 0 <= k < line@.len() implies (#[trigger] line@[k]).text@.len() > 0 && encode_utf8(
                    line@[k].text@,
                ).len() <= usize::MAX by {
                    if k < i {
                        assert(line@[k] == before[k]);
                    }
                }
            }
        }
        g_start = g_end;
    }
    proof {
        assert(views.take(views.len() as int) =~= views);
    }
    line
}

/// Graphemes that all have text, of no more bytes than the machine's sizes
/// hold.
pub open spec fn graphemes_sized(graphemes: Seq<StyledGrapheme>) -> bool {
    forall|k: int|
        0 <= k < graphemes.len() ==> (#[trigger] graphemes[k]).text@.len() > 0 && encode_utf8(graphemes[k].text@).len()
            <= usize::MAX
}

/// The joined text of the first `n` graphemes depends on those graphemes
/// alone.
proof fn lemma_graphemes_text_same_prefix(a: Seq<StyledGrapheme>, b: Seq<StyledGrapheme>, n: int)
    requires
        0 <= n <= a.len(),
        n <= b.len(),
        forall|k: int| 0 <= k < n ==> a[k] == b[k],
    ensures
        graphemes_text(a, n) == graphemes_text(b, n),
    decreases n,
{
    if n > 0 {
        lemma_graphemes_text_same_prefix(a, b, n - 1);
    }
}

/// The byte range of cluster `i` lies inside the joined text, and clusters
/// start where the previous one ended.
pub(crate) proof fn lemma_cluster_bounds(clusters: Seq<Seq<char>>, i: int)
    requires
        0 <= i < clusters.len(),
        forall|j: int| 0 <= j < clusters.len() ==> (#[trigger] clusters[j]).len() > 0,
    ensures
        cluster_start(clusters, i + 1) == cluster_start(clusters, i) + encode_utf8(clusters[i]).len(),
        cluster_start(clusters, i) < cluster_start(clusters, i + 1) <= encode_utf8(concat_all(clusters)).len(),
{
    assert(clusters.take(i + 1).drop_last() =~= clusters.take(i));
    lemma_encode_concat(concat_all(clusters.take(i)), clusters[i]);
    lemma_encode_nonempty(clusters[i]);
    lemma_concat_prefix_bytes(clusters, i + 1);
}

proof fn lemma_concat_prefix_bytes(clusters: Seq<Seq<char>>, n: int)
    requires
        0 <= n <= clusters.len(),
    ensures
        encode_utf8(concat_all(clusters.take(n))).len() <= encode_utf8(concat_all(clusters)).len(),
    decreases clusters.len() - n,
{
    if n < clusters.len() {
        lemma_concat_prefix_bytes(clusters, n + 1);
        assert(clusters.take(n + 1).drop_last() =~= clusters.take(n));
        lemma_encode_concat(concat_all(clusters.take(n)), clusters[n]);
    } else {
        assert(clusters.take(n) =~= clusters);
    }
}

/// Hard-line splitting in progress: finished lines, the fragments of the
/// current line, the piece of text read since the last newline, and that
/// piece's byte offset within its span.
pub struct SplitState {
    pub lines: Seq<Seq<FragmentModel>>,
    pub current: Seq<FragmentModel>,
    pub piece: Seq<char>,
    pub piece_byte: int,
}

/// The fragment for a piece of a span, if the piece is not empty.
pub open spec fn piece_fragment(piece: Seq<char>, style: PhysicalStyle, base: Option<usize>, byte: int) -> Seq<
    FragmentModel,
> {
    if piece.len() == 0 {
        Seq::empty()
    } else {
        seq![
            FragmentModel {
                text: piece,
                style,
                source_start: match base {
                    Some(b) => Some(b + byte),
                    None => None,
                },
            },
        ]
    }
}

/// Reads one character of a span: a newline ends the current line (after
/// its last piece); any other character extends the piece.
pub open spec fn split_step(state: SplitState, c: char, style: PhysicalStyle, base: Option<usize>) -> SplitState {
    if c == '\n' {
        SplitState {
            lines: state.lines.push(state.current + piece_fragment(state.piece, style, base, state.piece_byte)),
            current: Seq::empty(),
            piece: Seq::empty(),
            piece_byte: state.piece_byte + encode_utf8(state.piece).len() + 1,
        }
    } else {
        SplitState { piece: state.piece.push(c), ..state }
    }
}

/// Reads the first `n` characters of a span.
pub open spec fn split_chars(state: SplitState, text: Seq<char>, style: PhysicalStyle, base: Option<usize>, n: int) -> SplitState
    decreases n,
{
    if n <= 0 {
        state
    } else {
        split_step(split_chars(state, text, style, base, n - 1), text[n - 1], style, base)
    }
}

/// Reads a whole span: its last piece joins the current line.
pub open spec fn split_span(state: SplitState, text: Seq<char>, style: PhysicalStyle, base: Option<usize>) -> SplitState {
    let start = SplitState { piece: Seq::empty(), piece_byte: 0, ..state };
    let read = split_chars(start, text, style, base, text.len() as int);
    SplitState {
        current: read.current + piece_fragment(read.piece, style, base, read.piece_byte),
        piece: Seq::empty(),
        piece_byte: 0,
        ..read
    }
}

/// Reads the first `n` spans.
pub open spec fn split_spans(spans: Seq<(&str, PhysicalStyle, Option<usize>)>, n: int) -> SplitState
    decreases n,
{
    if n <= 0 {
        SplitState { lines: Seq::empty(), current: Seq::empty(), piece: Seq::empty(), piece_byte: 0 }
    } else {
        split_span(split_spans(spans, n - 1), spans[n - 1].0@, spans[n - 1].1, spans[n - 1].2)
    }
}

/// The fragments of each hard line of the spans: text is split at every
/// newline, across span boundaries.
pub open spec fn hard_line_fragments(spans: Seq<(&str, PhysicalStyle, Option<usize>)>) -> Seq<Seq<FragmentModel>> {
    let state = split_spans(spans, spans.len() as int);
    state.lines.push(state.current)
}

/// Splits styled spans into hard logical lines (at `\n`), tokenizing each
/// hard line as one sequence of extended grapheme clusters across span
/// boundaries.
pub fn styled_hard_lines(spans: Vec<(&str, PhysicalStyle, Option<usize>)>) -> (r: Vec<Vec<StyledGrapheme>>)
    requires
        forall|i: int|
            0 <= i < spans@.len() ==> {
                &&& encode_utf8((#[trigger] spans@[i]).0@).len() <= usize::MAX
                &&& spans@[i].2 matches Some(base) ==> base + encode_utf8(spans@[i].0@).len() <= usize::MAX
            },
        spans_bytes(spans@, spans@.len() as int) <= usize::MAX,
    ensures
        r@.len() == hard_line_fragments(spans@).len(),
        forall|i: int| 0 <= i < r@.len() ==> tokenized(hard_line_fragments(spans@)[i], #[trigger] r@[i]@),
        forall|i: int| 0 <= i < r@.len() ==> graphemes_sized(#[trigger] r@[i]@),
        forall|i: int|
            0 <= i < r@.len() ==> encode_utf8(graphemes_text((#[trigger] r@[i])@, r@[i]@.len() as int)).len()
                <= usize::MAX,
{
    broadcast use vstd::string::axiom_spec_iter;

    let mut lines: Vec<Vec<SpanFragment>> = Vec::new();
    let mut current: Vec<SpanFragment> = Vec::new();
    let mut index: usize = 0;
    while index < spans.len()
        invariant
            0 <= index <= spans@.len(),
            forall|i: int|
                0 <= i < spans@.len() ==> {
                    &&& encode_utf8((#[trigger] spans@[i]).0@).len() <= usize::MAX
                    &&& spans@[i].2 matches Some(base) ==> base + encode_utf8(spans@[i].0@).len() <= usize::MAX
                },
            rows_models(lines@) == split_spans(spans@, index as int).lines,
            fragment_models(current@) == split_spans(spans@, index as int).current,
            spans_bytes(spans@, spans@.len() as int) <= usize::MAX,
            forall|l: int| 0 <= l < lines@.len() ==> fragments_fit(#[trigger] rows_models(lines@)[l]),
            fragments_fit(fragment_models(current@)),
            encode_utf8(fragments_text(fragment_models(current@), current@.len() as int)).len() <= spans_bytes(
                spans@,
                index as int,
            ),
        decreases spans@.len() - index,
    {
        let (text, style, base) = spans[index];
        proof {
            lemma_spans_bytes_prefix(spans@, index + 1, spans@.len() as int);
        }
        let ghost before = split_spans(spans@, index as int);
        let ghost start = SplitState { piece: Seq::empty(), piece_byte: 0, ..before };
        let mut piece = String::new();
        let mut piece_byte: usize = 0;
        let ghost mut n: int = 0;
        proof {
            assert(spans@[index as int] == (text, style, base));
            assert(text@.take(0) =~= Seq::<char>::empty());
            assert(piece@ =~= Seq::<char>::empty());
        }
        for c in it: text.chars()
            invariant
                it.seq() == text@,
                n == it.index(),
                rows_models(lines@) == split_chars(start, text@, style, base, n).lines,
                fragment_models(current@) == split_chars(start, text@, style, base, n).current,
                piece@ == split_chars(start, text@, style, base, n).piece,
                piece_byte == split_chars(start, text@, style, base, n).piece_byte,
                piece_byte + encode_utf8(piece@).len() == encode_utf8(text@.take(n)).len(),
                encode_utf8(text@).len() <= usize::MAX,
                base matches Some(b) ==> b + encode_utf8(text@).len() <= usize::MAX,
                spans_bytes(spans@, index + 1) == spans_bytes(spans@, index as int) + encode_utf8(text@).len(),
                spans_bytes(spans@, index + 1) <= usize::MAX,
                encode_utf8(text@.take(n)).len() <= encode_utf8(text@).len(),
                forall|l: int| 0 <= l < lines@.len() ==> fragments_fit(#[trigger] rows_models(lines@)[l]),
                fragments_fit(fragment_models(current@)),
                encode_utf8(fragments_text(fragment_models(current@), current@.len() as int)).len() + encode_utf8(
                    piece@,
                ).len() <= spans_bytes(spans@, index as int) + encode_utf8(text@.take(n)).len(),
        {
            assert(c == text@[n]);
            proof {
                assert(text@.take(n + 1) =~= text@.take(n) + seq![c]);
                lemma_encode_concat(text@.take(n), seq![c]);
                lemma_encode_concat(piece@, seq![c]);
                assert(piece@.push(c) =~= piece@ + seq![c]);
                assert(text@ =~= text@.take(n + 1) + text@.skip(n + 1));
                lemma_encode_concat(text@.take(n + 1), text@.skip(n + 1));
                if c == '\n' {
                    lemma_newline_one_byte();
                }
            }
            if c == '\n' {
                let piece_len = piece.as_str().len();
                let ghost state = split_chars(start, text@, style, base, n);
                let ghost cur_before = current@;
                proof {
                    lemma_extend_fragments(
                        fragment_models(cur_before),
                        piece@,
                        style,
                        base,
                        piece_byte as int,
                        spans_bytes(spans@, index + 1),
                    );
                }
                if !piece.as_str().is_empty() {
                    let source_start = match base {
                        Some(b) => Some(b + piece_byte),
                        None => None,
                    };
                    let ghost piece_view = piece@;
                    current.push(SpanFragment { text: piece, style, source_start });
                    proof {
                        assert(fragment_models(current@) =~= fragment_models(cur_before) + piece_fragment(
                            piece_view,
                            style,
                            base,
                            piece_byte as int,
                        ));
                    }
                } else {
                    proof {
                        assert(fragment_models(current@) =~= fragment_models(cur_before) + piece_fragment(
                            piece@,
                            style,
                            base,
                            piece_byte as int,
                        ));
                    }
                }
                let finished = current;
                let ghost finished_view = finished@;
                let ghost lines_before = lines@;
                lines.push(finished);
                proof {
                    assert(rows_models(lines@) =~= rows_models(lines_before).push(fragment_models(finished_view)));
                    assert forall|l: int| 0 <= l < lines@.len() implies fragments_fit(#[trigger] rows_models(lines@)[l]) by {
                        if l < lines_before.len() {
                            assert(rows_models(lines@)[l] == rows_models(lines_before)[l]);
                        }
                    }
                }
                current = Vec::new();
                piece_byte = piece_byte + piece_len + 1;
                piece = String::new();
                proof {
                    assert(fragment_models(current@) =~= Seq::<FragmentModel>::empty());
                    assert(fragments_text(Seq::<FragmentModel>::empty(), 0) =~= Seq::<char>::empty());
                    assert(piece@ =~= Seq::<char>::empty());
                }
            } else {
                push_char(&mut piece, c);
            }
            proof {
                n = n + 1;
            }
        }
        proof {
            assert(text@.take(text@.len() as int) =~= text@);
            lemma_extend_fragments(
                fragment_models(current@),
                piece@,
                style,
                base,
                piece_byte as int,
                spans_bytes(spans@, index + 1),
            );
        }
        let ghost cur_before = current@;
        let ghost piece_view = piece@;
        if !piece.as_str().is_empty() {
            let source_start = match base {
                Some(b) => Some(b + piece_byte),
                None => None,
            };
            current.push(SpanFragment { text: piece, style, source_start });
            proof {
                assert(fragment_models(current@) =~= fragment_models(cur_before) + piece_fragment(
                    piece_view,
                    style,
                    base,
                    piece_byte as int,
                ));
            }
        } else {
            proof {
                assert(piece_view.len() == 0) by {
                    if piece_view.len() > 0 {
                        lemma_encode_nonempty(piece_view);
                    }
                }
                assert(fragment_models(current@) =~= fragment_models(cur_before) + piece_fragment(
                    piece_view,
                    style,
                    base,
                    piece_byte as int,
                ));
            }
        }
        index += 1;
    }
    let ghost lines_before = lines@;
    let ghost last_view = current@;
    lines.push(current);
    let ghost all = lines@;
    proof {
        assert(rows_models(all) =~= hard_line_fragments(spans@));
        assert(rows_models(all) =~= rows_models(lines_before).push(fragment_models(last_view)));
        assert forall|i: int| 0 <= i < hard_line_fragments(spans@).len() implies fragments_fit(
            #[trigger] hard_line_fragments(spans@)[i],
        ) by {
            if i < lines_before.len() {
                assert(rows_models(all)[i] == rows_models(lines_before)[i]);
            }
        }
    }
    let mut out: Vec<Vec<StyledGrapheme>> = Vec::new();
    for line in iter: lines
        invariant
            iter.seq() == all,
            rows_models(all) == hard_line_fragments(spans@),
            forall|i: int| 0 <= i < hard_line_fragments(spans@).len() ==> fragments_fit(
                #[trigger] hard_line_fragments(spans@)[i],
            ),
            out@.len() == iter.index(),
            forall|i: int| 0 <= i < out@.len() ==> tokenized(hard_line_fragments(spans@)[i], #[trigger] out@[i]@),
            forall|i: int| 0 <= i < out@.len() ==> graphemes_sized(#[trigger] out@[i]@),
            forall|i: int|
                0 <= i < out@.len() ==> encode_utf8(graphemes_text((#[trigger] out@[i])@, out@[i]@.len() as int)).len()
                    <= usize::MAX,
    {
        assert(fragment_models(line@) == hard_line_fragments(spans@)[iter.index() as int]);
        let ghost before = out@;
        let tokens = tokenize_hard_line(line);
        out.push(tokens);
        proof {
            assert forall|i: int| 0 <= i < out@.len() implies graphemes_sized(#[trigger] out@[i]@) && encode_utf8(
                graphemes_text(out@[i]@, out@[i]@.len() as int),
            ).len() <= usize::MAX by {
                if i < before.len() {
                    assert(out@[i] == before[i]);
                }
            }
        }
    }
    out
}

/// The total bytes of the first `n` span texts.
pub open spec fn spans_bytes(spans: Seq<(&str, PhysicalStyle, Option<usize>)>, n: int) -> int
    decreases n,
{
    if n <= 0 {
        0
    } else {
        spans_bytes(spans, n - 1) + encode_utf8(spans[n - 1].0@).len()
    }
}

proof fn lemma_spans_bytes_prefix(spans: Seq<(&str, PhysicalStyle, Option<usize>)>, k: int, n: int)
    requires
        0 <= k <= n,
    ensures
        spans_bytes(spans, k) <= spans_bytes(spans, n),
    decreases n - k,
{
    if k < n {
        lemma_spans_bytes_prefix(spans, k, n - 1);
    }
}

/// The joined text of the first `n` fragments depends on those fragments
/// alone.
proof fn lemma_fragments_text_same_prefix(a: Seq<FragmentModel>, b: Seq<FragmentModel>, n: int)
    requires
        0 <= n <= a.len(),
        n <= b.len(),
        forall|k: int| 0 <= k < n ==> a[k] == b[k],
    ensures
        fragments_text(a, n) == fragments_text(b, n),
    decreases n,
{
    if n > 0 {
        lemma_fragments_text_same_prefix(a, b, n - 1);
    }
}

/// Adding a piece's fragment to fitting fragments keeps them fitting while
/// their bytes stay within `budget`.
proof fn lemma_extend_fragments(
    current: Seq<FragmentModel>,
    piece: Seq<char>,
    style: PhysicalStyle,
    base: Option<usize>,
    byte: int,
    budget: int,
)
    requires
        fragments_fit(current),
        encode_utf8(fragments_text(current, current.len() as int)).len() + encode_utf8(piece).len() <= budget,
        budget <= usize::MAX,
        base matches Some(b) ==> b + byte + encode_utf8(piece).len() <= usize::MAX,
        0 <= byte,
    ensures
        fragments_fit(current + piece_fragment(piece, style, base, byte)),
        encode_utf8(fragments_text(
            current + piece_fragment(piece, style, base, byte),
            (current + piece_fragment(piece, style, base, byte)).len() as int,
        )).len() == encode_utf8(fragments_text(current, current.len() as int)).len() + encode_utf8(piece).len(),
{
    let extended = current + piece_fragment(piece, style, base, byte);
    if piece.len() == 0 {
        assert(extended =~= current);
        assert(encode_utf8(piece) =~= Seq::<u8>::empty());
    } else {
        lemma_fragments_text_same_prefix(current, extended, current.len() as int);
        lemma_encode_concat(fragments_text(current, current.len() as int), piece);
        assert(fragments_text(extended, extended.len() as int) == fragments_text(extended, current.len() as int)
            + piece);
        assert forall|k: int| 0 <= k < extended.len() implies (#[trigger] extended[k]).text.len() > 0 by {
            if k < current.len() {
                assert(extended[k] == current[k]);
            }
        }
        assert forall|k: int|
            0 <= k < extended.len() implies ((#[trigger] extended[k]).source_start matches Some(start) ==> start
            + encode_utf8(extended[k].text).len() <= usize::MAX) by {
            if k < current.len() {
                assert(extended[k] == current[k]);
            }
        }
    }
}

/// A newline is one byte in UTF-8.
proof fn lemma_newline_one_byte()
    ensures
        encode_utf8(seq!['\n']).len() == 1,
{
    assert(seq!['\n'].drop_first() =~= Seq::<char>::empty());
    assert(encode_utf8(seq!['\n']) == vstd::utf8::encode_scalar('\n' as u32) + encode_utf8(Seq::<char>::empty()));
    assert('\n' as u32 == 10);
    assert(vstd::utf8::has_width_1_encoding('\n' as u32));
}

spec fn rows_models(lines: Seq<Vec<SpanFragment>>) -> Seq<Seq<FragmentModel>> {
    lines.map_values(|line: Vec<SpanFragment>| fragment_models(line@))
}

/// Rows joined back into one line.
pub open spec fn join_rows(rows: Seq<Seq<StyledGrapheme>>) -> Seq<StyledGrapheme>
    decreases rows.len(),
{
    if rows.len() == 0 {
        Seq::empty()
    } else {
        rows[0] + join_rows(rows.drop_first())
    }
}

proof fn lemma_word_row_end_bounds(line: Seq<StyledGrapheme>, flags: Seq<bool>, width: int, start: int)
    requires
        0 <= start < line.len(),
    ensures
        start < word_row_end(line, flags, width, start) <= line.len(),
        word_row_end(line, flags, width, start) <= fit_scan(line, width, start, 0) || fit_scan(
            line,
            width,
            start,
            0,
        ) == start,
{
    lemma_fit_scan_bounds(line, width, start, 0);
    lemma_last_break_bounds(flags, start, fit_scan(line, width, start, 0));
}

proof fn lemma_word_rows_join(line: Seq<StyledGrapheme>, flags: Seq<bool>, width: int, start: int)
    requires
        0 <= start <= line.len(),
    ensures
        join_rows(word_rows_from(line, flags, width, start)) == line.subrange(start, line.len() as int),
    decreases line.len() - start,
{
    if start < line.len() {
        lemma_word_row_end_bounds(line, flags, width, start);
        let end = word_row_end(line, flags, width, start);
        lemma_word_rows_join(line, flags, width, end);
        let rows = word_rows_from(line, flags, width, start);
        assert(rows.drop_first() =~= word_rows_from(line, flags, width, end));
        assert(line.subrange(start, end) + line.subrange(end, line.len() as int) =~= line.subrange(
            start,
            line.len() as int,
        ));
    } else {
        assert(line.subrange(start, line.len() as int) =~= Seq::<StyledGrapheme>::empty());
    }
}

proof fn lemma_exact_rows_join(line: Seq<StyledGrapheme>, width: int, start: int)
    requires
        0 <= start <= line.len(),
    ensures
        join_rows(exact_rows_from(line, width, start)) == line.subrange(start, line.len() as int),
    decreases line.len() - start,
{
    if start < line.len() {
        lemma_exact_scan_bounds(line, width, start + 1, line[start].width as int);
        let end = exact_scan(line, width, start + 1, line[start].width as int);
        lemma_exact_rows_join(line, width, end);
        let rows = exact_rows_from(line, width, start);
        assert(rows.drop_first() =~= exact_rows_from(line, width, end));
        assert(line.subrange(start, end) + line.subrange(end, line.len() as int) =~= line.subrange(
            start,
            line.len() as int,
        ));
    } else {
        assert(line.subrange(start, line.len() as int) =~= Seq::<StyledGrapheme>::empty());
    }
}

/// Wrapping loses, adds and reorders nothing: a hard line's rows, joined
/// back together, are the line itself, in every wrap mode and at every
/// width.
pub proof fn lemma_wrapping_preserves_content(line: Seq<StyledGrapheme>, width: int, mode: WrapMode)
    ensures
        join_rows(line_rows(line, width, mode)) == line,
{
    assert(line.subrange(0, line.len() as int) =~= line);
    let nothing = Seq::<Seq<StyledGrapheme>>::empty();
    assert(join_rows(nothing) == Seq::<StyledGrapheme>::empty());
    if mode == WrapMode::NoWrap || width == 0 {
        let rows = line_rows(line, width, mode);
        assert(rows.drop_first() =~= nothing);
        assert(join_rows(rows) == rows[0] + join_rows(rows.drop_first()));
        assert(line + Seq::<StyledGrapheme>::empty() =~= line);
    } else if line.len() == 0 {
        let rows = line_rows(line, width, mode);
        assert(rows.drop_first() =~= nothing);
        assert(join_rows(rows) == rows[0] + join_rows(rows.drop_first()));
        assert(Seq::<StyledGrapheme>::empty() + Seq::<StyledGrapheme>::empty() =~= line);
    } else if mode == WrapMode::Grapheme {
        lemma_exact_rows_join(line, width, 0);
    } else {
        lemma_word_rows_join(line, break_flags(line), width, 0);
    }
}

proof fn lemma_widths_sum_front(line: Seq<StyledGrapheme>, k: int, f: int)
    requires
        0 <= k < f <= line.len(),
    ensures
        widths_sum(line.subrange(k, f)) == line[k].width + widths_sum(line.subrange(k + 1, f)),
{
    lemma_widths_sum_concat(seq![line[k]], line.subrange(k + 1, f));
    assert(seq![line[k]] + line.subrange(k + 1, f) =~= line.subrange(k, f));
    lemma_widths_sum_push(Seq::empty(), line[k]);
    assert(Seq::<StyledGrapheme>::empty().push(line[k]) =~= seq![line[k]]);
}

proof fn lemma_fit_scan_fits(line: Seq<StyledGrapheme>, width: int, k: int, used: int)
    requires
        0 <= k <= line.len(),
        used <= width,
    ensures
        used + widths_sum(line.subrange(k, fit_scan(line, width, k, used))) <= width,
    decreases line.len() - k,
{
    lemma_fit_scan_bounds(line, width, k, used);
    if k < line.len() && used + line[k].width <= width {
        lemma_fit_scan_fits(line, width, k + 1, used + line[k].width);
        lemma_fit_scan_bounds(line, width, k + 1, used + line[k].width);
        lemma_widths_sum_front(line, k, fit_scan(line, width, k, used));
    } else {
        assert(line.subrange(k, k) =~= Seq::<StyledGrapheme>::empty());
    }
}

/// Word wrapping fits its rows to the width: a row is wider than `width`
/// only when it is a single grapheme that is wider on its own.
pub proof fn lemma_word_rows_fit(line: Seq<StyledGrapheme>, flags: Seq<bool>, width: int, start: int)
    requires
        0 <= start <= line.len(),
        0 <= width,
    ensures
        forall|i: int|
            0 <= i < word_rows_from(line, flags, width, start).len() ==> widths_sum(
                #[trigger] word_rows_from(line, flags, width, start)[i],
            ) <= width || word_rows_from(line, flags, width, start)[i].len() == 1,
    decreases line.len() - start,
{
    if start < line.len() {
        lemma_word_row_end_bounds(line, flags, width, start);
        let end = word_row_end(line, flags, width, start);
        let fit = fit_scan(line, width, start, 0);
        lemma_word_rows_fit(line, flags, width, end);
        lemma_fit_scan_fits(line, width, start, 0);
        lemma_fit_scan_bounds(line, width, start, 0);
        let rows = word_rows_from(line, flags, width, start);
        let rest = word_rows_from(line, flags, width, end);
        if fit > start {
            lemma_widths_sum_prefix(line.subrange(start, fit), end - start);
            assert(line.subrange(start, fit).take(end - start) =~= line.subrange(start, end));
        }
        assert forall|i: int| 0 <= i < rows.len() implies widths_sum(#[trigger] rows[i]) <= width
            || rows[i].len() == 1 by {
            if i > 0 {
                assert(rows[i] == rest[i - 1]);
            }
        }
    }
}

} // verus!
