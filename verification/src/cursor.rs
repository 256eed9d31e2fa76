//! The caret of a text input among its wrapped rows: it reverses the
//! grapheme it stands on, or is drawn as a reversed blank cell after the
//! text it follows.

use crate::chars::chars_of;
use crate::input_wrap::{byte_at, byte_offsets};
use crate::physical::PhysicalStyle;
use crate::stream::lemma_encode_prefix_grows;
use crate::unicode::push_char;
use crate::wrap::{StyledGrapheme, WrappedLine, widths_sum, row_fits};
use vstd::prelude::*;
use vstd::utf8::encode_utf8;

verus! {

/// A byte offset into an input's source where the caret stands.
#[derive(Debug, Clone, Copy, PartialEq, Eq, Hash, Structural)]
pub struct TextCursorAnchor {
    pub byte_offset: usize,
}

/// Whether `anchor` lies in `text`: at most its length, between characters.
pub open spec fn anchor_fits(text: Seq<char>, anchor: TextCursorAnchor) -> bool {
    exists|k: int| 0 <= k <= text.len() && byte_at(text, k) == anchor.byte_offset
}

/// Whether `anchor` lies in `text`: at most its length, between characters.
pub fn validate_cursor_anchor(text: &str, anchor: TextCursorAnchor) -> (r: bool)
    requires
        encode_utf8(text@).len() <= usize::MAX,
    ensures
        r == anchor_fits(text@, anchor),
{
    let c = chars_of(text);
    let offsets = byte_offsets(&c);
    let mut k: usize = 0;
    while k < offsets.len()
        invariant
            0 <= k <= offsets@.len(),
            c@ == text@,
            offsets@.len() == c@.len() + 1,
            forall|j: int| 0 <= j <= c@.len() ==> offsets@[j] == byte_at(c@, j),
            forall|j: int| 0 <= j < k ==> byte_at(text@, j) != anchor.byte_offset,
        decreases offsets@.len() - k,
    {
        if offsets[k] == anchor.byte_offset {
            return true;
        }
        k += 1;
    }
    false
}

/// A grapheme whose source holds the byte at `a`.
pub open spec fn holds_byte(g: StyledGrapheme, a: usize) -> bool {
    g.source matches Some(r) && r.start <= a && a < r.end
}

/// A grapheme whose source starts at or after `a`.
pub open spec fn starts_from(g: StyledGrapheme, a: usize) -> bool {
    g.source matches Some(r) && r.start >= a
}

/// A grapheme whose source ends by `a`.
pub open spec fn ends_by(g: StyledGrapheme, a: usize) -> bool {
    g.source matches Some(r) && r.end <= a
}

/// The first grapheme at or after `k` that holds byte `a`.
pub open spec fn first_holding(gs: Seq<StyledGrapheme>, a: usize, k: int) -> Option<int>
    decreases gs.len() - k,
{
    if k >= gs.len() || k < 0 {
        None
    } else if holds_byte(gs[k], a) {
        Some(k)
    } else {
        first_holding(gs, a, k + 1)
    }
}

/// The first row at or after `i` with a grapheme holding byte `a`.
pub open spec fn first_row_holding(rows: Seq<WrappedLine>, a: usize, i: int) -> Option<int>
    decreases rows.len() - i,
{
    if i >= rows.len() || i < 0 {
        None
    } else if first_holding(rows[i].graphemes@, a, 0) is Some {
        Some(i)
    } else {
        first_row_holding(rows, a, i + 1)
    }
}

/// The first row at or after `i` with a grapheme whose source starts at or
/// after `a`.
pub open spec fn first_row_from(rows: Seq<WrappedLine>, a: usize, i: int) -> Option<int>
    decreases rows.len() - i,
{
    if i >= rows.len() || i < 0 {
        None
    } else if exists|k: int| 0 <= k < rows[i].graphemes@.len() && starts_from(#[trigger] rows[i].graphemes@[k], a) {
        Some(i)
    } else {
        first_row_from(rows, a, i + 1)
    }
}

/// The last row before `n` with a grapheme whose source ends by `a`.
pub open spec fn last_row_before(rows: Seq<WrappedLine>, a: usize, n: int) -> Option<int>
    decreases n,
{
    if n <= 0 {
        None
    } else if exists|k: int| 0 <= k < rows[n - 1].graphemes@.len() && ends_by(#[trigger] rows[n - 1].graphemes@[k], a) {
        Some(n - 1)
    } else {
        last_row_before(rows, a, n - 1)
    }
}

/// Whether the character just before byte `a` of `source` is a newline.
pub open spec fn after_newline(source: Seq<char>, a: usize) -> bool {
    exists|k: int| 0 < k <= source.len() && byte_at(source, k) == a && source[k - 1] == '\n'
}

/// The row a caret that stands on no grapheme is drawn in: after a newline,
/// the first row with text from the caret on (else the last row); otherwise
/// the last row with text before the caret (else the first row).
pub open spec fn caret_row(rows: Seq<WrappedLine>, source: Seq<char>, a: usize) -> int {
    if a > 0 && after_newline(source, a) {
        match first_row_from(rows, a, 0) {
            Some(i) => i,
            None => if rows.len() >= 1 { rows.len() - 1 } else { 0 },
        }
    } else {
        match last_row_before(rows, a, rows.len() as int) {
            Some(i) => i,
            None => 0,
        }
    }
}

/// `g` with its style reversed.
pub open spec fn reversed(g: StyledGrapheme) -> StyledGrapheme {
    StyledGrapheme { style: PhysicalStyle { reversed: true, ..g.style }, ..g }
}

/// The caret cell: a reversed blank of width one in `style`, with no source.
pub open spec fn is_caret(g: StyledGrapheme, style: PhysicalStyle) -> bool {
    &&& g.text@ == seq![' ']
    &&& g.width == 1
    &&& g.style == (PhysicalStyle { reversed: true, ..style })
    &&& g.source is None
}

/// `a + b`, stopping at the largest `usize`.
pub open spec fn sat_usize(a: int, b: int) -> int {
    if a + b > usize::MAX { usize::MAX as int } else { a + b }
}

fn first_holding_in(gs: &Vec<StyledGrapheme>, a: usize) -> (r: Option<usize>)
    ensures
        r matches Some(j) ==> first_holding(gs@, a, 0) == Some(j as int) && j < gs@.len(),
        r is None ==> first_holding(gs@, a, 0) is None,
{
    let mut k: usize = 0;
    while k < gs.len()
        invariant
            0 <= k <= gs@.len(),
            first_holding(gs@, a, 0) == first_holding(gs@, a, k as int),
        decreases gs@.len() - k,
    {
        let holds = match &gs[k].source {
            Some(r) => r.start <= a && a < r.end,
            None => false,
        };
        if holds {
            return Some(k);
        }
        k += 1;
    }
    None
}

fn any_starting_from(gs: &Vec<StyledGrapheme>, a: usize) -> (r: bool)
    ensures
        r == exists|k: int| 0 <= k < gs@.len() && starts_from(#[trigger] gs@[k], a),
{
    let mut k: usize = 0;
    while k < gs.len()
        invariant
            0 <= k <= gs@.len(),
            forall|j: int| 0 <= j < k ==> !starts_from(#[trigger] gs@[j], a),
        decreases gs@.len() - k,
    {
        let hit = match &gs[k].source {
            Some(r) => r.start >= a,
            None => false,
        };
        if hit {
            return true;
        }
        k += 1;
    }
    false
}

fn any_ending_by(gs: &Vec<StyledGrapheme>, a: usize) -> (r: bool)
    ensures
        r == exists|k: int| 0 <= k < gs@.len() && ends_by(#[trigger] gs@[k], a),
{
    let mut k: usize = 0;
    while k < gs.len()
        invariant
            0 <= k <= gs@.len(),
            forall|j: int| 0 <= j < k ==> !ends_by(#[trigger] gs@[j], a),
        decreases gs@.len() - k,
    {
        let hit = match &gs[k].source {
            Some(r) => r.end <= a,
            None => false,
        };
        if hit {
            return true;
        }
        k += 1;
    }
    false
}

/// Whether the character before byte `a` of `source` is a newline.
fn follows_newline(source: &str, a: usize) -> (r: bool)
    requires
        encode_utf8(source@).len() <= usize::MAX,
        anchor_fits(source@, TextCursorAnchor { byte_offset: a }),
    ensures
        r == after_newline(source@, a),
{
    let c = chars_of(source);
    let offsets = byte_offsets(&c);
    let mut k: usize = 0;
    while k < offsets.len()
        invariant
            0 <= k <= offsets@.len(),
            c@ == source@,
            offsets@.len() == c@.len() + 1,
            forall|j: int| 0 <= j <= c@.len() ==> offsets@[j] == byte_at(c@, j),
            forall|j: int| 0 <= j < k ==> byte_at(source@, j) != a,
        decreases offsets@.len() - k,
    {
        if offsets[k] == a {
            proof {
                assert forall|j: int| 0 < j <= source@.len() && byte_at(source@, j) == a implies j == k by {
                    if j < k {
                        lemma_encode_prefix_grows(source@, j, k as int);
                    } else if j > k {
                        lemma_encode_prefix_grows(source@, k as int, j);
                    }
                }
            }
            return k > 0 && c[k - 1] == '\n';
        }
        k += 1;
    }
    false
}

/// Reverses grapheme `j` of row `i`.
fn reverse_grapheme(rows: &mut Vec<WrappedLine>, i: usize, j: usize)
    requires
        i < old(rows)@.len(),
        j < old(rows)@[i as int].graphemes@.len(),
    ensures
        final(rows)@.len() == old(rows)@.len(),
        forall|k: int| 0 <= k < old(rows)@.len() && k != i ==> final(rows)@[k] == old(rows)@[k],
        final(rows)@[i as int].width == old(rows)@[i as int].width,
        final(rows)@[i as int].fits == old(rows)@[i as int].fits,
        final(rows)@[i as int].graphemes@ == old(rows)@[i as int].graphemes@.update(
            j as int,
            reversed(old(rows)@[i as int].graphemes@[j as int]),
        ),
{
    let ghost before = rows@;
    let mut row = rows.remove(i);
    let mut g = row.graphemes.remove(j);
    g.style.reversed = true;
    row.graphemes.insert(j, g);
    rows.insert(i, row);
    proof {
        assert(rows@ =~= before.update(i as int, rows@[i as int]));
        assert(rows@[i as int].graphemes@ =~= before[i as int].graphemes@.update(
            j as int,
            reversed(before[i as int].graphemes@[j as int]),
        ));
    }
}

/// The row the caret is drawn in when it stands on no grapheme.
fn caret_target(rows: &Vec<WrappedLine>, source: &str, a: usize) -> (t: usize)
    requires
        rows@.len() > 0,
        encode_utf8(source@).len() <= usize::MAX,
        a > 0 ==> anchor_fits(source@, TextCursorAnchor { byte_offset: a }),
    ensures
        t == caret_row(rows@, source@, a),
        t < rows@.len(),
{
    if a > 0 && follows_newline(source, a) {
        let mut t: usize = 0;
        let mut found = false;
        while t < rows.len() && !found
            invariant
                0 <= t <= rows@.len(),
                !found ==> first_row_from(rows@, a, 0) == first_row_from(rows@, a, t as int),
                found ==> t >= 1 && first_row_from(rows@, a, 0) == Some(t - 1),
            decreases rows@.len() - t, if found { 0int } else { 1int },
        {
            if any_starting_from(&rows[t].graphemes, a) {
                found = true;
            }
            t += 1;
        }
        if found {
            t - 1
        } else {
            rows.len() - 1
        }
    } else {
        let mut t: usize = rows.len();
        let mut found = false;
        while t > 0 && !found
            invariant
                0 <= t <= rows@.len(),
                !found ==> last_row_before(rows@, a, rows@.len() as int) == last_row_before(rows@, a, t as int),
                found ==> last_row_before(rows@, a, rows@.len() as int) == Some(t as int) && t < rows@.len(),
            decreases t, if found { 0int } else { 1int },
        {
            if any_ending_by(&rows[t - 1].graphemes, a) {
                found = true;
            }
            t -= 1;
        }
        if found {
            t
        } else {
            0
        }
    }
}

/// Draws the caret after the text of row `t`, on a row of its own when the
/// row is full.
fn add_caret(rows: &mut Vec<WrappedLine>, t: usize, inherited: PhysicalStyle, target_width: usize)
    requires
        t < old(rows)@.len(),
    ensures
        ({
            let old_rows = old(rows)@;
            let new_rows = final(rows)@;
            let row = old_rows[t as int];
            let style = if row.graphemes@.len() > 0 {
                row.graphemes@.last().style
            } else {
                inherited
            };
            if sat_usize(row.width as int, 1) > target_width && row.width > 0 {
                &&& new_rows.len() == old_rows.len() + 1
                &&& forall|k: int| 0 <= k < old_rows.len() ==> new_rows[k] == old_rows[k]
                &&& new_rows.last().graphemes@.len() == 1
                &&& is_caret(new_rows.last().graphemes@[0], style)
                &&& new_rows.last().width == 1
                &&& new_rows.last().fits == row_fits(1, 1, target_width as int)
            } else {
                &&& new_rows.len() == old_rows.len()
                &&& forall|k: int| 0 <= k < old_rows.len() && k != t ==> new_rows[k] == old_rows[k]
                &&& new_rows[t as int].graphemes@.len() == row.graphemes@.len() + 1
                &&& new_rows[t as int].graphemes@.drop_last() == row.graphemes@
                &&& is_caret(new_rows[t as int].graphemes@.last(), style)
                &&& new_rows[t as int].width == sat_usize(row.width as int, 1)
                &&& new_rows[t as int].fits == (new_rows[t as int].width <= target_width)
            }
        }),
{
    let ghost old_rows = rows@;
    let mut row = rows.remove(t);
    let style = if row.graphemes.len() > 0 {
        row.graphemes[row.graphemes.len() - 1].style
    } else {
        inherited
    };
    let mut blank = String::new();
    push_char(&mut blank, ' ');
    let caret = StyledGrapheme { text: blank, width: 1, style: PhysicalStyle { reversed: true, ..style }, source: None };
    let widened = row.width.saturating_add(1);
    if widened > target_width && row.width > 0 {
        rows.insert(t, row);
        let ghost caret_cell = caret;
        let mut cells: Vec<StyledGrapheme> = Vec::new();
        cells.push(caret);
        proof {
            assert(cells@.drop_last() =~= Seq::<StyledGrapheme>::empty());
            assert(cells@.last() == caret_cell);
            assert(widths_sum(cells@) == widths_sum(Seq::<StyledGrapheme>::empty()) + 1);
            assert(rows@ =~= old_rows);
        }
        rows.push(WrappedLine::new(cells, target_width));
    } else {
        row.graphemes.push(caret);
        row.width = widened;
        row.fits = row.width <= target_width;
        rows.insert(t, row);
        proof {
            assert(rows@ =~= old_rows.update(t as int, rows@[t as int]));
            assert(rows@[t as int].graphemes@.drop_last() =~= old_rows[t as int].graphemes@);
        }
    }
}

/// Marks where the caret stands among `rows`: the grapheme whose source
/// holds the caret's byte is reversed; otherwise a reversed blank cell is
/// added after the text of the caret's row (see [`caret_row`]), in the
/// style of that row's last grapheme, on a row of its own when the row is
/// full.
pub fn apply_cursor_anchor(
    rows: &mut Vec<WrappedLine>,
    source: &str,
    anchor: TextCursorAnchor,
    inherited: PhysicalStyle,
    target_width: usize,
)
    requires
        encode_utf8(source@).len() <= usize::MAX,
        first_row_holding(old(rows)@, anchor.byte_offset, 0) is None ==> old(rows)@.len() > 0,
        first_row_holding(old(rows)@, anchor.byte_offset, 0) is None && anchor.byte_offset > 0 ==> anchor_fits(
            source@,
            anchor,
        ),
    ensures
        ({
            let a = anchor.byte_offset;
            let old_rows = old(rows)@;
            let new_rows = final(rows)@;
            match first_row_holding(old_rows, a, 0) {
                Some(i) => {
                    let j = first_holding(old_rows[i].graphemes@, a, 0)->0;
                    &&& new_rows.len() == old_rows.len()
                    &&& forall|k: int| 0 <= k < old_rows.len() && k != i ==> new_rows[k] == old_rows[k]
                    &&& new_rows[i].width == old_rows[i].width
                    &&& new_rows[i].fits == old_rows[i].fits
                    &&& new_rows[i].graphemes@ == old_rows[i].graphemes@.update(
                        j,
                        reversed(old_rows[i].graphemes@[j]),
                    )
                },
                None => {
                    let t = caret_row(old_rows, source@, a);
                    let row = old_rows[t];
                    let style = if row.graphemes@.len() > 0 {
                        row.graphemes@.last().style
                    } else {
                        inherited
                    };
                    if sat_usize(row.width as int, 1) > target_width && row.width > 0 {
                        &&& new_rows.len() == old_rows.len() + 1
                        &&& forall|k: int| 0 <= k < old_rows.len() ==> new_rows[k] == old_rows[k]
                        &&& new_rows.last().graphemes@.len() == 1
                        &&& is_caret(new_rows.last().graphemes@[0], style)
                        &&& new_rows.last().width == 1
                        &&& new_rows.last().fits == row_fits(1, 1, target_width as int)
                    } else {
                        &&& new_rows.len() == old_rows.len()
                        &&& forall|k: int| 0 <= k < old_rows.len() && k != t ==> new_rows[k] == old_rows[k]
                        &&& new_rows[t].graphemes@.len() == row.graphemes@.len() + 1
                        &&& new_rows[t].graphemes@.drop_last() == row.graphemes@
                        &&& is_caret(new_rows[t].graphemes@.last(), style)
                        &&& new_rows[t].width == sat_usize(row.width as int, 1)
                        &&& new_rows[t].fits == (new_rows[t].width <= target_width)
                    }
                },
            }
        }),
{
    let a = anchor.byte_offset;
    let ghost old_rows = rows@;
    let mut i: usize = 0;
    let mut hit: Option<usize> = None;
    while i < rows.len() && hit.is_none()
        invariant
            0 <= i <= rows@.len(),
            rows@ == old_rows,
            hit is None ==> first_row_holding(old_rows, a, 0) == first_row_holding(old_rows, a, i as int),
            hit matches Some(j) ==> i < rows@.len() && first_row_holding(old_rows, a, 0) == Some(i as int)
                && first_holding(old_rows[i as int].graphemes@, a, 0) == Some(j as int) && j
                < old_rows[i as int].graphemes@.len(),
        decreases rows@.len() - i, if hit is None { 1int } else { 0int },
    {
        hit = first_holding_in(&rows[i].graphemes, a);
        if hit.is_none() {
            i += 1;
        }
    }
    match hit {
        Some(j) => {
            reverse_grapheme(rows, i, j);
        },
        None => {
            let t = caret_target(rows, source, a);
            add_caret(rows, t, inherited, target_width);
        },
    }
}

} // verus!
