//! Composer input wrapping: the byte ranges of the visual rows of a
//! multi-line input, with one column kept free for the caret.

use crate::chars::{char_len_utf8, chars_of, string_of};
use crate::smoother::sat_add_usize;
use crate::stream::lemma_encode_concat;
use crate::unicode::{char_width, spec_char_width, spec_wrap_rows, wrap_rows};
use std::ops::Range;
use vstd::prelude::*;
use vstd::utf8::encode_utf8;

verus! {

/// A space or a tab.
pub open spec fn is_blank(c: char) -> bool {
    c == ' ' || c == '\t'
}

/// The cells a character takes in the input; control characters take none.
pub open spec fn cell_width(c: char) -> int {
    match spec_char_width(c) {
        Some(w) => w as int,
        None => 0,
    }
}

/// Every index of the pairs is at most `limit`.
pub open spec fn pairs_within(v: Seq<(usize, usize)>, limit: int) -> bool {
    forall|j: int| 0 <= j < v.len() ==> (#[trigger] v[j]).0 <= limit && v[j].1 <= limit
}

/// Integer views of index pairs.
pub open spec fn int_pairs(v: Seq<(usize, usize)>) -> Seq<(int, int)> {
    v.map_values(|p: (usize, usize)| (p.0 as int, p.1 as int))
}

/// Where the row that starts at `start` ends, scanning from `k` with `used`
/// cells taken: characters join the row while they fit in `width` cells,
/// and the first one always does.
pub open spec fn row_scan(c: Seq<char>, start: int, end: int, width: int, k: int, used: int) -> int
    decreases end - k,
{
    if k >= end {
        k
    } else if k > start && sat_add_usize(used, cell_width(c[k])) > width {
        k
    } else {
        row_scan(c, start, end, width, k + 1, sat_add_usize(used, cell_width(c[k])))
    }
}

/// Characters `start..end` broken into rows of at most `width` cells (a
/// wider character gets a row of its own).
pub open spec fn remainder_rows(c: Seq<char>, start: int, end: int, width: int) -> Seq<(int, int)>
    decreases end - start,
{
    if start >= end {
        Seq::empty()
    } else {
        let e = row_scan(c, start, end, width, start, 0);
        if e <= start || e > end {
            Seq::empty()
        } else {
            seq![(start, e)] + remainder_rows(c, e, end, width)
        }
    }
}

/// The first index at or after `start` (and before `limit`) that is not blank.
pub open spec fn skip_blanks(c: Seq<char>, start: int, limit: int) -> int
    decreases limit - start,
{
    if start < limit && is_blank(c[start]) {
        skip_blanks(c, start + 1, limit)
    } else {
        start
    }
}

/// Whether characters `from..to` are all blank.
pub open spec fn all_blank(c: Seq<char>, from: int, to: int) -> bool {
    forall|k: int| from <= k < to ==> is_blank(#[trigger] c[k])
}

/// The end of the source matched by `wrapped[j..]` from `end`: each
/// character of the row that equals the next source character consumes it;
/// others (such as an added hyphen) consume nothing.
pub open spec fn match_scan(c: Seq<char>, end: int, limit: int, wrapped: Seq<char>, j: int) -> int
    decreases wrapped.len() - j,
{
    if j >= wrapped.len() {
        end
    } else if end < limit && wrapped[j] == c[end] {
        match_scan(c, end + 1, limit, wrapped, j + 1)
    } else {
        match_scan(c, end, limit, wrapped, j + 1)
    }
}

/// The source range of a row that textwrap built anew: leading blanks of
/// the source are skipped unless the row itself starts with one.
pub open spec fn owned_range(c: Seq<char>, start: int, limit: int, wrapped: Seq<char>) -> (int, int) {
    let s = if wrapped.len() > 0 && is_blank(wrapped[0]) {
        start
    } else {
        skip_blanks(c, start, limit)
    };
    (s, match_scan(c, s, limit, wrapped, 0))
}

/// The first index `i` in `from..` with `c[i..i + p.len()] == p` and
/// `i + p.len() <= to`.
pub open spec fn first_at(c: Seq<char>, p: Seq<char>, from: int, to: int) -> Option<int>
    decreases to - from + 1,
{
    if from + p.len() > to {
        None
    } else if c.subrange(from, from + p.len()) == p {
        Some(from)
    } else {
        first_at(c, p, from + 1, to)
    }
}

/// Progress through the textwrap rows of one logical line: the visual rows
/// so far, the source consumed, and where the next borrowed row is looked
/// for.
pub struct RowState {
    pub visual: Seq<(int, int)>,
    pub consumed: int,
    pub search: int,
}

/// The source range of one textwrap row: a borrowed row where it next
/// occurs in the line, any other row by matching its characters.
pub open spec fn piece_range(c: Seq<char>, limit: int, st: RowState, piece: (bool, Seq<char>)) -> (int, int) {
    if piece.0 && first_at(c, piece.1, st.search, limit) is Some {
        let p = first_at(c, piece.1, st.search, limit)->0;
        (p, p + piece.1.len())
    } else {
        owned_range(c, st.consumed, limit, piece.1)
    }
}

/// One textwrap row turned into a visual row. An empty row is dropped.
/// Blank source skipped before the row joins the previous visual row (or,
/// on the first row, this one); other skipped source gets rows of its own.
/// Blanks after the row stay with it.
pub open spec fn piece_step(c: Seq<char>, limit: int, width: int, st: RowState, piece: (bool, Seq<char>)) -> RowState {
    let raw = piece_range(c, limit, st, piece);
    if raw.0 >= raw.1 {
        st
    } else {
        let visual = if raw.0 > st.consumed && all_blank(c, st.consumed, raw.0) && st.visual.len() > 0 {
            st.visual.update(st.visual.len() - 1, (st.visual.last().0, raw.0))
        } else if raw.0 > st.consumed && !all_blank(c, st.consumed, raw.0) {
            st.visual + remainder_rows(c, st.consumed, raw.0, width)
        } else {
            st.visual
        };
        let start = if raw.0 > st.consumed && all_blank(c, st.consumed, raw.0) && st.visual.len() == 0 {
            st.consumed
        } else {
            raw.0
        };
        let end = skip_blanks(c, raw.1, limit);
        RowState { visual: visual.push((start, end)), consumed: end, search: raw.1 }
    }
}

/// The state after the first rows of `pieces`.
pub open spec fn pieces_fold(
    c: Seq<char>,
    limit: int,
    width: int,
    st: RowState,
    pieces: Seq<(bool, Seq<char>)>,
) -> RowState
    decreases pieces.len(),
{
    if pieces.len() == 0 {
        st
    } else {
        piece_step(c, limit, width, pieces_fold(c, limit, width, st, pieces.drop_last()), pieces.last())
    }
}

/// The visual rows of the logical line `ls..le`: one empty row for an empty
/// line, else textwrap's rows followed by any source they left over.
pub open spec fn line_rows(c: Seq<char>, ls: int, le: int, width: int) -> Seq<(int, int)> {
    if ls >= le {
        seq![(ls, ls)]
    } else {
        rows_from_pieces(c, ls, le, width, spec_wrap_rows(c.subrange(ls, le), width as usize))
    }
}

/// The cells `c` takes, zero for a control character.
fn cells(c: char) -> (r: usize)
    ensures
        r == cell_width(c),
{
    match char_width(c) {
        Some(w) => w,
        None => 0,
    }
}

/// Where the row starting at `start` ends.
fn row_end(c: &Vec<char>, start: usize, end: usize, width: usize) -> (e: usize)
    requires
        start < end <= c@.len(),
    ensures
        e == row_scan(c@, start as int, end as int, width as int, start as int, 0),
        start < e <= end,
{
    let mut k = start;
    let mut used: usize = 0;
    while k < end
        invariant
            start <= k <= end <= c@.len(),
            k == start ==> used == 0,
            row_scan(c@, start as int, end as int, width as int, start as int, 0) == row_scan(
                c@,
                start as int,
                end as int,
                width as int,
                k as int,
                used as int,
            ),
        decreases end - k,
    {
        let cw = cells(c[k]);
        let next = used.saturating_add(cw);
        if k > start && next > width {
            return k;
        }
        k += 1;
        used = next;
    }
    k
}

/// Appends the rows of characters `start..end` at `width` cells.
fn push_input_remainder(visual: &mut Vec<(usize, usize)>, c: &Vec<char>, start: usize, end: usize, width: usize)
    requires
        start <= end <= c@.len(),
    ensures
        int_pairs(final(visual)@) == int_pairs(old(visual)@) + remainder_rows(c@, start as int, end as int, width as int),
        final(visual)@.len() >= old(visual)@.len(),
        forall|j: int| 0 <= j < old(visual)@.len() ==> final(visual)@[j] == old(visual)@[j],
        forall|j: int|
            old(visual)@.len() <= j < final(visual)@.len() ==> (#[trigger] final(visual)@[j]).0 <= end
                && final(visual)@[j].1 <= end,
{
    let mut from = start;
    while from < end
        invariant
            start <= from <= end <= c@.len(),
            visual@.len() >= old(visual)@.len(),
            forall|j: int| 0 <= j < old(visual)@.len() ==> visual@[j] == old(visual)@[j],
            forall|j: int|
                old(visual)@.len() <= j < visual@.len() ==> (#[trigger] visual@[j]).0 <= end && visual@[j].1 <= end,
            int_pairs(visual@) + remainder_rows(c@, from as int, end as int, width as int) == int_pairs(old(visual)@)
                + remainder_rows(c@, start as int, end as int, width as int),
        decreases end - from,
    {
        let e = row_end(c, from, end, width);
        let ghost before = int_pairs(visual@);
        visual.push((from, e));
        proof {
            assert(int_pairs(visual@) =~= before.push((from as int, e as int)));
            assert(remainder_rows(c@, from as int, end as int, width as int) == seq![(from as int, e as int)]
                + remainder_rows(c@, e as int, end as int, width as int));
            assert(before.push((from as int, e as int)) + remainder_rows(c@, e as int, end as int, width as int)
                =~= before + (seq![(from as int, e as int)] + remainder_rows(c@, e as int, end as int, width as int)));
        }
        from = e;
    }
    proof {
        assert(int_pairs(visual@) + remainder_rows(c@, from as int, end as int, width as int) =~= int_pairs(visual@));
    }
}

fn is_blank_char(c: char) -> (r: bool)
    ensures
        r == is_blank(c),
{
    c == ' ' || c == '\t'
}

/// The first index at or after `start` and before `limit` that is not blank.
fn skip_blanks_from(c: &Vec<char>, start: usize, limit: usize) -> (r: usize)
    requires
        start <= limit <= c@.len(),
    ensures
        r == skip_blanks(c@, start as int, limit as int),
        start <= r <= limit,
{
    let mut k = start;
    while k < limit && is_blank_char(c[k])
        invariant
            start <= k <= limit <= c@.len(),
            skip_blanks(c@, start as int, limit as int) == skip_blanks(c@, k as int, limit as int),
        decreases limit - k,
    {
        k += 1;
    }
    k
}

/// Whether characters `from..to` are all blank.
fn blank_between(c: &Vec<char>, from: usize, to: usize) -> (r: bool)
    requires
        from <= to <= c@.len(),
    ensures
        r == all_blank(c@, from as int, to as int),
{
    let mut k = from;
    while k < to
        invariant
            from <= k <= to <= c@.len(),
            all_blank(c@, from as int, k as int),
        decreases to - k,
    {
        if !is_blank_char(c[k]) {
            return false;
        }
        k += 1;
    }
    true
}

/// Whether `p` occurs in `c` at `at`.
fn occurs_here(c: &Vec<char>, p: &Vec<char>, at: usize) -> (r: bool)
    requires
        at + p@.len() <= c@.len(),
    ensures
        r == (c@.subrange(at as int, at + p@.len()) == p@),
{
    let n = c.len();
    let mut j: usize = 0;
    while j < p.len()
        invariant
            0 <= j <= p@.len(),
            n == c@.len(),
            at + p@.len() <= c@.len(),
            forall|i: int| 0 <= i < j ==> c@[at + i] == p@[i],
        decreases p@.len() - j,
    {
        if c[at + j] != p[j] {
            proof {
                assert(c@.subrange(at as int, at + p@.len())[j as int] != p@[j as int]);
            }
            return false;
        }
        j += 1;
    }
    proof {
        assert(c@.subrange(at as int, at + p@.len()) =~= p@);
    }
    true
}

/// The first occurrence of `p` at or after `from` that ends by `to`.
fn find_from(c: &Vec<char>, p: &Vec<char>, from: usize, to: usize) -> (r: Option<usize>)
    requires
        from <= to <= c@.len(),
    ensures
        r matches Some(i) ==> first_at(c@, p@, from as int, to as int) == Some(i as int),
        r is None ==> first_at(c@, p@, from as int, to as int) is None,
{
    let mut at = from;
    while p.len() <= to - at
        invariant
            from <= at <= to,
            to <= c@.len(),
            first_at(c@, p@, from as int, to as int) == first_at(c@, p@, at as int, to as int),
        decreases to + 1 - at,
    {
        if occurs_here(c, p, at) {
            return Some(at);
        }
        if at == to {
            proof {
                assert(first_at(c@, p@, at + 1, to as int) is None);
            }
            return None;
        }
        at += 1;
    }
    None
}

/// The source range matched by a row that textwrap built anew.
fn input_map_owned_piece(c: &Vec<char>, start: usize, limit: usize, wrapped: &Vec<char>) -> (r: (usize, usize))
    requires
        start <= limit <= c@.len(),
    ensures
        (r.0 as int, r.1 as int) == owned_range(c@, start as int, limit as int, wrapped@),
        start <= r.0 <= r.1 <= limit,
{
    let s = if wrapped.len() > 0 && is_blank_char(wrapped[0]) {
        start
    } else {
        skip_blanks_from(c, start, limit)
    };
    let mut end = s;
    let mut j: usize = 0;
    while j < wrapped.len()
        invariant
            s <= end <= limit <= c@.len(),
            0 <= j <= wrapped@.len(),
            match_scan(c@, s as int, limit as int, wrapped@, 0) == match_scan(
                c@,
                end as int,
                limit as int,
                wrapped@,
                j as int,
            ),
        decreases wrapped@.len() - j,
    {
        if end < limit && wrapped[j] == c[end] {
            end += 1;
        }
        j += 1;
    }
    (s, end)
}

proof fn lemma_first_at_bounds(c: Seq<char>, p: Seq<char>, from: int, to: int)
    requires
        first_at(c, p, from, to) is Some,
    ensures
        from <= first_at(c, p, from, to)->0,
        first_at(c, p, from, to)->0 + p.len() <= to,
    decreases to - from + 1,
{
    if from + p.len() > to {
    } else if c.subrange(from, from + p.len()) == p {
    } else {
        lemma_first_at_bounds(c, p, from + 1, to);
    }
}

/// The rows that the pieces of one logical line make.
pub open spec fn rows_from_pieces(c: Seq<char>, ls: int, le: int, width: int, pieces: Seq<(bool, Seq<char>)>) -> Seq<
    (int, int),
> {
    let st = pieces_fold(c, le, width, RowState { visual: Seq::empty(), consumed: ls, search: ls }, pieces);
    st.visual + remainder_rows(c, st.consumed, le, width)
}

/// The visual rows of the logical line `ls..le` of `c`, given the rows that
/// textwrap made of it (each marked borrowed or built anew): each row is
/// placed in the source, blanks that textwrap dropped stay with the row
/// before them (or lead the first row), and any source the rows leave over
/// is broken by cell width.
pub fn input_line_rows(c: &Vec<char>, ls: usize, le: usize, width: usize, pieces: &Vec<(bool, String)>) -> (r: Vec<
    (usize, usize),
>)
    requires
        ls <= le <= c@.len(),
    ensures
        int_pairs(r@) == rows_from_pieces(
            c@,
            ls as int,
            le as int,
            width as int,
            pieces@.map_values(|row: (bool, String)| (row.0, row.1@)),
        ),
        pairs_within(r@, le as int),
{
    let mut local: Vec<(usize, usize)> = Vec::new();
    let ghost model = pieces@.map_values(|row: (bool, String)| (row.0, row.1@));
    let ghost init = RowState { visual: Seq::empty(), consumed: ls as int, search: ls as int };
    let mut consumed = ls;
    let mut search = ls;
    let mut i: usize = 0;
    proof {
        assert(model.take(0) =~= Seq::<(bool, Seq<char>)>::empty());
        assert(int_pairs(local@) =~= Seq::<(int, int)>::empty());
    }
    while i < pieces.len()
        invariant
            0 <= i <= pieces@.len(),
            ls <= consumed <= le,
            ls <= search <= le,
            le <= c@.len(),
            model == pieces@.map_values(|row: (bool, String)| (row.0, row.1@)),
            init == (RowState { visual: Seq::empty(), consumed: ls as int, search: ls as int }),
            pairs_within(local@, le as int),
            pieces_fold(c@, le as int, width as int, init, model.take(i as int)) == (RowState {
                visual: int_pairs(local@),
                consumed: consumed as int,
                search: search as int,
            }),
        decreases pieces@.len() - i,
    {
        proof {
            assert(model.take(i + 1).drop_last() =~= model.take(i as int));
            assert(model.take(i + 1).last() == model[i as int]);
        }
        let piece_chars = chars_of(pieces[i].1.as_str());
        let borrowed = pieces[i].0;
        let found = if borrowed {
            find_from(c, &piece_chars, search, le)
        } else {
            None
        };
        let range: (usize, usize) = match found {
            Some(p) => {
                proof {
                    lemma_first_at_bounds(c@, piece_chars@, search as int, le as int);
                }
                (p, p + piece_chars.len())
            },
            None => input_map_owned_piece(c, consumed, le, &piece_chars),
        };
        let a = range.0;
        let b = range.1;
        let ghost st = RowState { visual: int_pairs(local@), consumed: consumed as int, search: search as int };
        proof {
            assert(piece_range(c@, le as int, st, model[i as int]) == (a as int, b as int));
        }
        if a < b {
            let mut start = a;
            let ghost before = int_pairs(local@);
            let ghost old_local = local@;
            if a > consumed {
                if blank_between(c, consumed, a) {
                    if local.len() > 0 {
                        let last_index = local.len() - 1;
                        let last = local[last_index];
                        local.set(last_index, (last.0, a));
                        proof {
                            assert forall|j: int| 0 <= j < local@.len() implies (#[trigger] local@[j]).0 <= le
                                && local@[j].1 <= le by {
                                if j != last_index {
                                    assert(local@[j] == old_local[j]);
                                }
                            }
                            assert(int_pairs(local@) =~= before.update(before.len() - 1, (before.last().0, a as int)));
                        }
                    } else {
                        start = consumed;
                    }
                } else {
                    push_input_remainder(&mut local, c, consumed, a, width);
                    proof {
                        assert forall|j: int| 0 <= j < local@.len() implies (#[trigger] local@[j]).0 <= le
                            && local@[j].1 <= le by {
                            if j < old_local.len() {
                                assert(local@[j] == old_local[j]);
                            }
                        }
                    }
                }
            }
            let end = skip_blanks_from(c, b, le);
            let ghost middle = int_pairs(local@);
            let ghost middle_pairs = local@;
            local.push((start, end));
            proof {
                assert(int_pairs(local@) =~= middle.push((start as int, end as int)));
                assert forall|j: int| 0 <= j < local@.len() implies (#[trigger] local@[j]).0 <= le && local@[j].1
                    <= le by {
                    if j < middle_pairs.len() {
                        assert(local@[j] == middle_pairs[j]);
                    }
                }
            }
            consumed = end;
            search = b;
        }
        i += 1;
    }
    proof {
        assert(model.take(i as int) =~= model);
    }
    let ghost old_local = local@;
    push_input_remainder(&mut local, c, consumed, le, width);
    proof {
        assert forall|j: int| 0 <= j < local@.len() implies (#[trigger] local@[j]).0 <= le && local@[j].1 <= le by {
            if j < old_local.len() {
                assert(local@[j] == old_local[j]);
            }
        }
    }
    local
}

/// Appends the visual rows of the logical line `ls..le`.
fn push_line_rows(visual: &mut Vec<(usize, usize)>, c: &Vec<char>, ls: usize, le: usize, width: usize)
    requires
        ls <= le <= c@.len(),
    ensures
        int_pairs(final(visual)@) == int_pairs(old(visual)@) + line_rows(c@, ls as int, le as int, width as int),
        pairs_within(old(visual)@, c@.len() as int) ==> pairs_within(final(visual)@, c@.len() as int),
{
    let mut local: Vec<(usize, usize)> = Vec::new();
    if ls == le {
        local.push((ls, ls));
        proof {
            assert(int_pairs(local@) =~= seq![(ls as int, ls as int)]);
            assert(local@[0] == (ls, ls));
        }
    } else {
        let line = string_of(c, ls, le);
        let pieces = wrap_rows(line.as_str(), width);
        local = input_line_rows(c, ls, le, width, &pieces);
    }
    let ghost base = int_pairs(visual@);
    let ghost base_pairs = visual@;
    let mut k: usize = 0;
    while k < local.len()
        invariant
            0 <= k <= local@.len(),
            le <= c@.len(),
            pairs_within(local@, le as int),
            base_pairs == old(visual)@,
            visual@.len() == base_pairs.len() + k,
            forall|j: int| 0 <= j < base_pairs.len() ==> visual@[j] == base_pairs[j],
            forall|j: int| base_pairs.len() <= j < visual@.len() ==> visual@[j] == local@[j - base_pairs.len()],
            int_pairs(visual@) == base + int_pairs(local@.take(k as int)),
        decreases local@.len() - k,
    {
        let ghost previous = visual@;
        visual.push(local[k]);
        k += 1;
        proof {
            assert(int_pairs(visual@) =~= int_pairs(previous).push((local@[k - 1].0 as int, local@[k - 1].1 as int)));
            assert(int_pairs(local@.take(k as int)) =~= int_pairs(local@.take(k - 1)).push(
                (local@[k - 1].0 as int, local@[k - 1].1 as int),
            ));
            assert(int_pairs(visual@) =~= base + int_pairs(local@.take(k as int)));
        }
    }
    proof {
        assert(local@.take(k as int) =~= local@);
        if pairs_within(old(visual)@, c@.len() as int) {
            assert forall|j: int| 0 <= j < visual@.len() implies (#[trigger] visual@[j]).0 <= c@.len() && visual@[j].1
                <= c@.len() by {
                if j >= base_pairs.len() {
                    assert(visual@[j] == local@[j - base_pairs.len()]);
                } else {
                    assert(visual@[j] == base_pairs[j]);
                }
            }
        }
    }
}

/// The logical lines of `c` from `start`, scanning from `k`: the ranges
/// between newlines, the last one ending at the end of `c`.
pub open spec fn lines_scan(c: Seq<char>, start: int, k: int) -> Seq<(int, int)>
    decreases c.len() - k,
{
    if k >= c.len() {
        seq![(start, c.len() as int)]
    } else if c[k] == '\n' {
        seq![(start, k)] + lines_scan(c, k + 1, k + 1)
    } else {
        lines_scan(c, start, k + 1)
    }
}

/// The visual rows of a sequence of logical lines, in order.
pub open spec fn rows_of_lines(c: Seq<char>, lines: Seq<(int, int)>, width: int) -> Seq<(int, int)>
    decreases lines.len(),
{
    if lines.len() == 0 {
        Seq::empty()
    } else {
        rows_of_lines(c, lines.drop_last(), width) + line_rows(c, lines.last().0, lines.last().1, width)
    }
}

/// The columns available to input text: one is kept for the caret, and at
/// least one remains.
pub open spec fn input_wrap_width(width: u16) -> int {
    if width <= 1 {
        1
    } else {
        width - 1
    }
}

/// The visual rows of input `c` at `width` columns, as character ranges.
pub open spec fn input_rows(c: Seq<char>, width: u16) -> Seq<(int, int)> {
    let rows = rows_of_lines(c, lines_scan(c, 0, 0), input_wrap_width(width));
    if rows.len() == 0 {
        seq![(0, 0)]
    } else {
        rows
    }
}

/// The UTF-8 byte offset of character `k` of `c`.
pub open spec fn byte_at(c: Seq<char>, k: int) -> int {
    encode_utf8(c.take(k)).len() as int
}

proof fn lemma_rows_of_lines_concat(c: Seq<char>, a: Seq<(int, int)>, b: Seq<(int, int)>, width: int)
    ensures
        rows_of_lines(c, a + b, width) == rows_of_lines(c, a, width) + rows_of_lines(c, b, width),
    decreases b.len(),
{
    if b.len() == 0 {
        assert(a + b =~= a);
        assert(rows_of_lines(c, a, width) + Seq::<(int, int)>::empty() =~= rows_of_lines(c, a, width));
    } else {
        lemma_rows_of_lines_concat(c, a, b.drop_last(), width);
        assert((a + b).drop_last() =~= a + b.drop_last());
        assert((a + b).last() == b.last());
        assert(rows_of_lines(c, a + b, width) =~= rows_of_lines(c, a, width) + rows_of_lines(c, b, width));
    }
}

/// Byte offsets of every character boundary of `c`.
pub(crate) fn byte_offsets(c: &Vec<char>) -> (r: Vec<usize>)
    requires
        encode_utf8(c@).len() <= usize::MAX,
    ensures
        r@.len() == c@.len() + 1,
        forall|k: int| 0 <= k <= c@.len() ==> r@[k] == byte_at(c@, k),
{
    let mut offsets: Vec<usize> = Vec::new();
    offsets.push(0);
    let mut total: usize = 0;
    let mut k: usize = 0;
    proof {
        assert(c@.take(0) =~= Seq::<char>::empty());
    }
    while k < c.len()
        invariant
            0 <= k <= c@.len(),
            encode_utf8(c@).len() <= usize::MAX,
            offsets@.len() == k + 1,
            total == byte_at(c@, k as int),
            forall|j: int| 0 <= j <= k ==> offsets@[j] == byte_at(c@, j),
        decreases c@.len() - k,
    {
        proof {
            assert(c@.take(k + 1) =~= c@.take(k as int) + seq![c@[k as int]]);
            lemma_encode_concat(c@.take(k as int), seq![c@[k as int]]);
            assert(c@ =~= c@.take(k + 1) + c@.skip(k + 1));
            lemma_encode_concat(c@.take(k + 1), c@.skip(k + 1));
        }
        total = total + char_len_utf8(c[k]);
        offsets.push(total);
        k += 1;
    }
    offsets
}

/// The byte ranges of the visual rows of a composer input at `width`
/// columns. One column is kept for the caret; each logical line is wrapped
/// by textwrap with word breaking, blanks stay with the word before them,
/// leading blanks stay on their logical line, an empty line is one empty
/// row, and any source that textwrap's rows leave over is broken by cell
/// width.
pub fn input_wrap_ranges(text: &str, width: u16) -> (r: Vec<Range<usize>>)
    requires
        encode_utf8(text@).len() <= usize::MAX,
    ensures
        r@.len() == input_rows(text@, width).len(),
        forall|i: int|
            0 <= i < r@.len() ==> (#[trigger] r@[i]).start == byte_at(text@, input_rows(text@, width)[i].0)
                && r@[i].end == byte_at(text@, input_rows(text@, width)[i].1),
        forall|i: int|
            0 <= i < r@.len() ==> 0 <= #[trigger] input_rows(text@, width)[i].0 <= text@.len() && 0
                <= input_rows(text@, width)[i].1 <= text@.len(),
{
    let wrap_width: usize = if width <= 1 {
        1
    } else {
        (width - 1) as usize
    };
    let c = chars_of(text);
    let ghost w = input_wrap_width(width);
    let mut visual: Vec<(usize, usize)> = Vec::new();
    let mut start: usize = 0;
    let mut k: usize = 0;
    proof {
        assert(int_pairs(visual@) =~= Seq::<(int, int)>::empty());
    }
    while k < c.len()
        invariant
            0 <= start <= k <= c@.len(),
            c@ == text@,
            wrap_width as int == w,
            pairs_within(visual@, c@.len() as int),
            rows_of_lines(c@, lines_scan(c@, 0, 0), w) == int_pairs(visual@) + rows_of_lines(
                c@,
                lines_scan(c@, start as int, k as int),
                w,
            ),
        decreases c@.len() - k,
    {
        if c[k] == '\n' {
            let ghost before = int_pairs(visual@);
            push_line_rows(&mut visual, &c, start, k, wrap_width);
            proof {
                let rest = lines_scan(c@, k + 1, k + 1);
                assert(lines_scan(c@, start as int, k as int) == seq![(start as int, k as int)] + rest);
                lemma_rows_of_lines_concat(c@, seq![(start as int, k as int)], rest, w);
                assert(seq![(start as int, k as int)].drop_last() =~= Seq::<(int, int)>::empty());
                assert(rows_of_lines(c@, Seq::<(int, int)>::empty(), w) =~= Seq::<(int, int)>::empty());
                assert(Seq::<(int, int)>::empty() + line_rows(c@, start as int, k as int, w) =~= line_rows(
                    c@,
                    start as int,
                    k as int,
                    w,
                ));
                assert(rows_of_lines(c@, seq![(start as int, k as int)], w) =~= line_rows(
                    c@,
                    start as int,
                    k as int,
                    w,
                ));
                assert(before + rows_of_lines(c@, lines_scan(c@, start as int, k as int), w) =~= int_pairs(visual@)
                    + rows_of_lines(c@, rest, w));
            }
            start = k + 1;
        }
        k += 1;
    }
    let ghost before = int_pairs(visual@);
    push_line_rows(&mut visual, &c, start, k, wrap_width);
    proof {
        let last = seq![(start as int, c@.len() as int)];
        assert(lines_scan(c@, start as int, k as int) == last);
        assert(last.drop_last() =~= Seq::<(int, int)>::empty());
        assert(rows_of_lines(c@, Seq::<(int, int)>::empty(), w) =~= Seq::<(int, int)>::empty());
        assert(Seq::<(int, int)>::empty() + line_rows(c@, start as int, k as int, w) =~= line_rows(
            c@,
            start as int,
            k as int,
            w,
        ));
        assert(rows_of_lines(c@, last, w) =~= line_rows(c@, start as int, k as int, w));
        assert(int_pairs(visual@) == rows_of_lines(c@, lines_scan(c@, 0, 0), w));
    }
    if visual.len() == 0 {
        visual.push((0, 0));
        proof {
            assert(int_pairs(visual@) =~= seq![(0int, 0int)]);
        }
    }
    let offsets = byte_offsets(&c);
    let mut out: Vec<Range<usize>> = Vec::new();
    let mut i: usize = 0;
    while i < visual.len()
        invariant
            0 <= i <= visual@.len(),
            int_pairs(visual@) == input_rows(text@, width),
            c@ == text@,
            offsets@.len() == c@.len() + 1,
            forall|k: int| 0 <= k <= c@.len() ==> offsets@[k] == byte_at(c@, k),
            pairs_within(visual@, c@.len() as int),
            out@.len() == i,
            forall|j: int|
                0 <= j < i ==> (#[trigger] out@[j]).start == byte_at(text@, input_rows(text@, width)[j].0)
                    && out@[j].end == byte_at(text@, input_rows(text@, width)[j].1),
        decreases visual@.len() - i,
    {
        let pair = visual[i];
        proof {
            assert(int_pairs(visual@)[i as int] == (pair.0 as int, pair.1 as int));
        }
        out.push(offsets[pair.0]..offsets[pair.1]);
        i += 1;
    }
    proof {
        assert forall|i: int| 0 <= i < out@.len() implies 0 <= #[trigger] input_rows(text@, width)[i].0
            <= text@.len() && 0 <= input_rows(text@, width)[i].1 <= text@.len() by {
            assert(int_pairs(visual@)[i] == (visual@[i].0 as int, visual@[i].1 as int));
        }
    }
    out
}

proof fn lemma_row_scan_bounds(c: Seq<char>, start: int, end: int, width: int, k: int, used: int)
    requires
        start <= k <= end,
    ensures
        k <= row_scan(c, start, end, width, k, used) <= end,
        k == start && start < end ==> start < row_scan(c, start, end, width, k, used),
    decreases end - k,
{
    if k < end && !(k > start && sat_add_usize(used, cell_width(c[k])) > width) {
        lemma_row_scan_bounds(c, start, end, width, k + 1, sat_add_usize(used, cell_width(c[k])));
    }
}

proof fn lemma_remainder_rows_first(c: Seq<char>, start: int, end: int, width: int)
    requires
        start < end,
    ensures
        remainder_rows(c, start, end, width).len() > 0,
        remainder_rows(c, start, end, width)[0].0 == start,
{
    lemma_row_scan_bounds(c, start, end, width, start, 0);
}

proof fn lemma_skip_blanks_from(c: Seq<char>, start: int, limit: int)
    ensures
        start <= skip_blanks(c, start, limit),
        start <= limit ==> skip_blanks(c, start, limit) <= limit,
    decreases limit - start,
{
    if start < limit && is_blank(c[start]) {
        lemma_skip_blanks_from(c, start + 1, limit);
    }
}

proof fn lemma_match_scan_from(c: Seq<char>, end: int, limit: int, wrapped: Seq<char>, j: int)
    ensures
        end <= match_scan(c, end, limit, wrapped, j),
    decreases wrapped.len() - j,
{
    if j < wrapped.len() {
        if end < limit && wrapped[j] == c[end] {
            lemma_match_scan_from(c, end + 1, limit, wrapped, j + 1);
        } else {
            lemma_match_scan_from(c, end, limit, wrapped, j + 1);
        }
    }
}

/// While a logical line starting at `ls` is wrapped, its first visual row
/// starts at `ls`, and until a row is made nothing is consumed.
proof fn lemma_fold_starts_at_line(c: Seq<char>, ls: int, le: int, width: int, pieces: Seq<(bool, Seq<char>)>)
    ensures
        ({
            let st = pieces_fold(c, le, width, RowState { visual: Seq::empty(), consumed: ls, search: ls }, pieces);
            &&& ls <= st.consumed
            &&& ls <= st.search
            &&& st.visual.len() == 0 ==> st.consumed == ls
            &&& st.visual.len() > 0 ==> st.visual[0].0 == ls
        }),
    decreases pieces.len(),
{
    let init = RowState { visual: Seq::empty(), consumed: ls, search: ls };
    if pieces.len() > 0 {
        lemma_fold_starts_at_line(c, ls, le, width, pieces.drop_last());
        let st = pieces_fold(c, le, width, init, pieces.drop_last());
        let piece = pieces.last();
        let raw = piece_range(c, le, st, piece);
        if piece.0 && first_at(c, piece.1, st.search, le) is Some {
            lemma_first_at_bounds(c, piece.1, st.search, le);
        } else {
            lemma_skip_blanks_from(c, st.consumed, le);
            let os = if piece.1.len() > 0 && is_blank(piece.1[0]) {
                st.consumed
            } else {
                skip_blanks(c, st.consumed, le)
            };
            lemma_match_scan_from(c, os, le, piece.1, 0);
        }
        if raw.0 < raw.1 {
            lemma_skip_blanks_from(c, raw.1, le);
            if raw.0 > st.consumed && !all_blank(c, st.consumed, raw.0) {
                lemma_remainder_rows_first(c, st.consumed, raw.0, width);
            }
        }
    }
}

proof fn lemma_lines_scan_first(c: Seq<char>, start: int, k: int)
    ensures
        lines_scan(c, start, k).len() > 0,
        lines_scan(c, start, k)[0].0 == start,
    decreases c.len() - k,
{
    if k < c.len() {
        if c[k] == '\n' {
            lemma_lines_scan_first(c, k + 1, k + 1);
        } else {
            lemma_lines_scan_first(c, start, k + 1);
        }
    }
}

/// The first visual row of an input starts at its first byte.
pub proof fn lemma_first_row_starts_input(c: Seq<char>, width: u16)
    ensures
        input_rows(c, width).len() > 0,
        input_rows(c, width)[0].0 == 0,
{
    let w = input_wrap_width(width);
    let lines = lines_scan(c, 0, 0);
    lemma_lines_scan_first(c, 0, 0);
    let first = seq![lines[0]];
    let rest = lines.skip(1);
    assert(lines =~= first + rest);
    lemma_rows_of_lines_concat(c, first, rest, w);
    assert(first.drop_last() =~= Seq::<(int, int)>::empty());
    assert(rows_of_lines(c, Seq::<(int, int)>::empty(), w) =~= Seq::<(int, int)>::empty());
    let head = line_rows(c, 0, lines[0].1, w);
    assert(rows_of_lines(c, first, w) =~= head);
    if 0 < lines[0].1 {
        let pieces = spec_wrap_rows(c.subrange(0, lines[0].1), w as usize);
        lemma_fold_starts_at_line(c, 0, lines[0].1, w, pieces);
        let st = pieces_fold(c, lines[0].1, w, RowState { visual: Seq::empty(), consumed: 0, search: 0 }, pieces);
        if st.visual.len() == 0 {
            lemma_remainder_rows_first(c, st.consumed, lines[0].1, w);
        }
    }
    assert(head.len() > 0 && head[0].0 == 0);
    assert(rows_of_lines(c, lines, w) == head + rows_of_lines(c, rest, w));
}

/// Row starts strictly increase.
pub open spec fn starts_increasing(rows: Seq<(int, int)>) -> bool {
    forall|i: int, j: int| 0 <= i < j < rows.len() ==> #[trigger] rows[i].0 < #[trigger] rows[j].0
}

/// Every row starts in `lo..=hi`.
pub open spec fn starts_within(rows: Seq<(int, int)>, lo: int, hi: int) -> bool {
    forall|i: int| 0 <= i < rows.len() ==> lo <= #[trigger] rows[i].0 <= hi
}

proof fn lemma_concat_rows_ordered(a: Seq<(int, int)>, b: Seq<(int, int)>, split: int)
    requires
        starts_increasing(a),
        starts_increasing(b),
        forall|i: int| 0 <= i < a.len() ==> #[trigger] a[i].0 < split,
        forall|i: int| 0 <= i < b.len() ==> split <= #[trigger] b[i].0,
    ensures
        starts_increasing(a + b),
{
    assert forall|i: int, j: int| 0 <= i < j < (a + b).len() implies #[trigger] (a + b)[i].0 < #[trigger] (a + b)[j].0 by {
        if j < a.len() {
        } else if i >= a.len() {
            assert((a + b)[i] == b[i - a.len()]);
            assert((a + b)[j] == b[j - a.len()]);
        } else {
            assert((a + b)[i] == a[i]);
            assert((a + b)[j] == b[j - a.len()]);
        }
    }
}

proof fn lemma_remainder_rows_ordered(c: Seq<char>, start: int, end: int, width: int)
    ensures
        starts_increasing(remainder_rows(c, start, end, width)),
        forall|i: int|
            0 <= i < remainder_rows(c, start, end, width).len() ==> start <= #[trigger] remainder_rows(
                c,
                start,
                end,
                width,
            )[i].0 < end,
    decreases end - start,
{
    if start < end {
        let e = row_scan(c, start, end, width, start, 0);
        if !(e <= start || e > end) {
            lemma_remainder_rows_ordered(c, e, end, width);
            let rest = remainder_rows(c, e, end, width);
            lemma_concat_rows_ordered(seq![(start, e)], rest, e);
            assert forall|i: int| 0 <= i < remainder_rows(c, start, end, width).len() implies start
                <= #[trigger] remainder_rows(c, start, end, width)[i].0 < end by {
                if i > 0 {
                    assert(remainder_rows(c, start, end, width)[i] == rest[i - 1]);
                }
            }
        }
    }
}

proof fn lemma_match_scan_within(c: Seq<char>, end: int, limit: int, wrapped: Seq<char>, j: int)
    requires
        end <= limit,
    ensures
        match_scan(c, end, limit, wrapped, j) <= limit,
    decreases wrapped.len() - j,
{
    if j < wrapped.len() {
        if end < limit && wrapped[j] == c[end] {
            lemma_match_scan_within(c, end + 1, limit, wrapped, j + 1);
        } else {
            lemma_match_scan_within(c, end, limit, wrapped, j + 1);
        }
    }
}

/// While a logical line is wrapped, its visual rows start in increasing
/// order, before what has been consumed and searched.
proof fn lemma_fold_ordered(c: Seq<char>, ls: int, le: int, width: int, pieces: Seq<(bool, Seq<char>)>)
    requires
        ls <= le,
    ensures
        ({
            let st = pieces_fold(c, le, width, RowState { visual: Seq::empty(), consumed: ls, search: ls }, pieces);
            &&& ls <= st.consumed <= le
            &&& ls <= st.search <= le
            &&& starts_increasing(st.visual)
            &&& starts_within(st.visual, ls, le)
            &&& st.visual.len() > 0 ==> st.visual.last().0 < st.consumed && st.visual.last().0 < st.search
        }),
    decreases pieces.len(),
{
    let init = RowState { visual: Seq::empty(), consumed: ls, search: ls };
    if pieces.len() > 0 {
        lemma_fold_ordered(c, ls, le, width, pieces.drop_last());
        let st = pieces_fold(c, le, width, init, pieces.drop_last());
        let piece = pieces.last();
        let raw = piece_range(c, le, st, piece);
        if piece.0 && first_at(c, piece.1, st.search, le) is Some {
            lemma_first_at_bounds(c, piece.1, st.search, le);
        } else {
            lemma_skip_blanks_from(c, st.consumed, le);
            let os = if piece.1.len() > 0 && is_blank(piece.1[0]) {
                st.consumed
            } else {
                skip_blanks(c, st.consumed, le)
            };
            lemma_match_scan_from(c, os, le, piece.1, 0);
            lemma_match_scan_within(c, os, le, piece.1, 0);
            assert(st.consumed <= raw.0);
        }
        if raw.0 < raw.1 {
            lemma_skip_blanks_from(c, raw.1, le);
            let gap_blank = raw.0 > st.consumed && all_blank(c, st.consumed, raw.0);
            let gap_other = raw.0 > st.consumed && !all_blank(c, st.consumed, raw.0);
            let visual = if gap_blank && st.visual.len() > 0 {
                st.visual.update(st.visual.len() - 1, (st.visual.last().0, raw.0))
            } else if gap_other {
                st.visual + remainder_rows(c, st.consumed, raw.0, width)
            } else {
                st.visual
            };
            let start = if gap_blank && st.visual.len() == 0 {
                st.consumed
            } else {
                raw.0
            };
            let end = skip_blanks(c, raw.1, le);
            if gap_other {
                lemma_remainder_rows_ordered(c, st.consumed, raw.0, width);
                lemma_concat_rows_ordered(st.visual, remainder_rows(c, st.consumed, raw.0, width), st.consumed);
            }
            assert(starts_increasing(visual));
            assert(starts_within(visual, ls, le)) by {
                if gap_other {
                    let rest = remainder_rows(c, st.consumed, raw.0, width);
                    assert forall|i: int| 0 <= i < visual.len() implies ls <= #[trigger] visual[i].0 <= le by {
                        if i >= st.visual.len() {
                            assert(visual[i] == rest[i - st.visual.len()]);
                        }
                    }
                }
            }
            assert(forall|i: int| 0 <= i < visual.len() ==> #[trigger] visual[i].0 < start) by {
                if gap_other {
                    let rest = remainder_rows(c, st.consumed, raw.0, width);
                    assert forall|i: int| 0 <= i < visual.len() implies #[trigger] visual[i].0 < start by {
                        if i >= st.visual.len() {
                            assert(visual[i] == rest[i - st.visual.len()]);
                        } else {
                            assert(st.visual[i].0 <= st.visual.last().0);
                        }
                    }
                } else {
                    assert forall|i: int| 0 <= i < visual.len() implies #[trigger] visual[i].0 < start by {
                        assert(st.visual[i].0 <= st.visual.last().0);
                    }
                }
            }
            lemma_concat_rows_ordered(visual, seq![(start, end)], start);
            assert(visual.push((start, end)) =~= visual + seq![(start, end)]);
        }
    }
}

/// The visual rows of a logical line start in increasing order within it.
proof fn lemma_line_rows_ordered(c: Seq<char>, ls: int, le: int, width: int)
    requires
        ls <= le,
    ensures
        starts_increasing(line_rows(c, ls, le, width)),
        starts_within(line_rows(c, ls, le, width), ls, le),
{
    if ls < le {
        let pieces = spec_wrap_rows(c.subrange(ls, le), width as usize);
        lemma_fold_ordered(c, ls, le, width, pieces);
        let st = pieces_fold(c, le, width, RowState { visual: Seq::empty(), consumed: ls, search: ls }, pieces);
        let rest = remainder_rows(c, st.consumed, le, width);
        lemma_remainder_rows_ordered(c, st.consumed, le, width);
        assert forall|i: int| 0 <= i < st.visual.len() implies #[trigger] st.visual[i].0 < st.consumed by {
            assert(st.visual[i].0 <= st.visual.last().0);
        }
        lemma_concat_rows_ordered(st.visual, rest, st.consumed);
        let rows = st.visual + rest;
        assert forall|i: int| 0 <= i < rows.len() implies ls <= #[trigger] rows[i].0 <= le by {
            if i >= st.visual.len() {
                assert(rows[i] == rest[i - st.visual.len()]);
            } else {
                assert(rows[i] == st.visual[i]);
            }
        }
    }
}

proof fn lemma_lines_scan_shape(c: Seq<char>, start: int, k: int)
    requires
        0 <= start <= k <= c.len(),
    ensures
        forall|i: int|
            0 <= i < lines_scan(c, start, k).len() ==> start <= #[trigger] lines_scan(c, start, k)[i].0
                <= lines_scan(c, start, k)[i].1 <= c.len(),
        forall|i: int|
            0 <= i < lines_scan(c, start, k).len() - 1 ==> #[trigger] lines_scan(c, start, k)[i].1 < lines_scan(
                c,
                start,
                k,
            )[i + 1].0,
    decreases c.len() - k,
{
    if k < c.len() {
        if c[k] == '\n' {
            lemma_lines_scan_shape(c, k + 1, k + 1);
            let rest = lines_scan(c, k + 1, k + 1);
            let all = lines_scan(c, start, k);
            assert(all == seq![(start, k)] + rest);
            assert forall|i: int| 0 <= i < all.len() implies start <= #[trigger] all[i].0 <= all[i].1 <= c.len() by {
                if i > 0 {
                    assert(all[i] == rest[i - 1]);
                }
            }
            assert forall|i: int| 0 <= i < all.len() - 1 implies #[trigger] all[i].1 < all[i + 1].0 by {
                assert(all[i + 1] == rest[i]);
                if i > 0 {
                    assert(all[i] == rest[i - 1]);
                }
            }
        } else {
            lemma_lines_scan_shape(c, start, k + 1);
            assert(lines_scan(c, start, k) == lines_scan(c, start, k + 1));
        }
    } else {
        assert(lines_scan(c, start, k) == seq![(start, c.len() as int)]);
    }
}

proof fn lemma_rows_of_lines_ordered(c: Seq<char>, lines: Seq<(int, int)>, width: int)
    requires
        forall|i: int| 0 <= i < lines.len() ==> 0 <= #[trigger] lines[i].0 <= lines[i].1,
        forall|i: int| 0 <= i < lines.len() - 1 ==> #[trigger] lines[i].1 < lines[i + 1].0,
    ensures
        starts_increasing(rows_of_lines(c, lines, width)),
        lines.len() > 0 ==> starts_within(rows_of_lines(c, lines, width), lines[0].0, lines.last().1),
        lines.len() > 0 ==> lines[0].0 <= lines.last().0,
    decreases lines.len(),
{
    if lines.len() > 0 {
        let front = lines.drop_last();
        lemma_rows_of_lines_ordered(c, front, width);
        let last = lines.last();
        lemma_line_rows_ordered(c, last.0, last.1, width);
        let head = rows_of_lines(c, front, width);
        let tail = line_rows(c, last.0, last.1, width);
        if front.len() > 0 {
            assert(front.last() == lines[lines.len() - 2]);
            assert(front[0] == lines[0]);
            assert(front.last().1 < last.0);
            assert forall|i: int| 0 <= i < head.len() implies #[trigger] head[i].0 < last.0 by {
                assert(head[i].0 <= front.last().1);
            }
        }
        lemma_concat_rows_ordered(head, tail, last.0);
        if front.len() > 0 {
            assert forall|i: int| 0 <= i < (head + tail).len() implies lines[0].0 <= #[trigger] (head + tail)[i].0
                <= lines.last().1 by {
                if i < head.len() {
                    assert((head + tail)[i] == head[i]);
                    assert(head[i].0 <= front.last().1);
                } else {
                    assert((head + tail)[i] == tail[i - head.len()]);
                }
            }
        } else {
            assert(head =~= Seq::<(int, int)>::empty());
            assert(head + tail =~= tail);
        }
    }
}

/// The visual rows of an input come in source order: each starts after the
/// one before it, in characters and so in bytes.
pub proof fn lemma_visual_rows_in_order(c: Seq<char>, width: u16)
    ensures
        starts_increasing(input_rows(c, width)),
        forall|i: int, j: int|
            0 <= i < j < input_rows(c, width).len() ==> byte_at(c, #[trigger] input_rows(c, width)[i].0) < byte_at(
                c,
                #[trigger] input_rows(c, width)[j].0,
            ),
{
    let w = input_wrap_width(width);
    let lines = lines_scan(c, 0, 0);
    lemma_lines_scan_shape(c, 0, 0);
    lemma_rows_of_lines_ordered(c, lines, w);
    let rows = input_rows(c, width);
    lemma_first_row_starts_input(c, width);
    assert forall|i: int, j: int| 0 <= i < j < rows.len() implies byte_at(c, #[trigger] rows[i].0) < byte_at(
        c,
        #[trigger] rows[j].0,
    ) by {
        if lines.len() > 0 {
            assert(starts_within(rows_of_lines(c, lines, w), lines[0].0, lines.last().1));
        }
        assert(rows[i].0 < rows[j].0);
        assert(0 <= rows[i].0);
        assert(rows[j].0 <= c.len());
        crate::stream::lemma_encode_prefix_grows(c, rows[i].0, rows[j].0);
    }
}

} // verus!
