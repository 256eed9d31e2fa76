//! Trusted boundary to the Unicode segmentation, width and line-breaking
//! crates, plus the few `String` operations that vstd leaves unspecified.

use std::borrow::Cow;
use textwrap::Options;
use unicode_linebreak::{linebreaks, BreakOpportunity};
use unicode_segmentation::UnicodeSegmentation;
use unicode_width::{UnicodeWidthChar, UnicodeWidthStr};
use vstd::prelude::*;

verus! {

/// The extended grapheme clusters of a string, as computed by
/// `unicode_segmentation`.
pub uninterp spec fn spec_graphemes(s: Seq<char>) -> Seq<Seq<char>>;

/// The display width of a string in terminal cells, as computed by
/// `unicode_width`.
pub uninterp spec fn spec_str_width(s: Seq<char>) -> nat;

/// The display width of a character in terminal cells, or `None` for a
/// control character, as computed by `unicode_width`.
pub uninterp spec fn spec_char_width(c: char) -> Option<usize>;

/// The rows that `textwrap::wrap` makes of a line at the given width with
/// word breaking enabled: each row's text, and whether it was borrowed from
/// the line rather than built anew.
pub uninterp spec fn spec_wrap_rows(text: Seq<char>, width: usize) -> Seq<(bool, Seq<char>)>;

/// The UAX #14 line-break opportunities of a string, as computed by
/// `unicode_linebreak`: byte offsets of the character after each break and
/// whether the break is mandatory.
pub uninterp spec fn spec_linebreaks(s: Seq<char>) -> Seq<(usize, bool)>;

/// Concatenation of a sequence of character sequences.
pub open spec fn concat_all(parts: Seq<Seq<char>>) -> Seq<char>
    decreases parts.len(),
{
    if parts.len() == 0 {
        Seq::empty()
    } else {
        concat_all(parts.drop_last()) + parts.last()
    }
}

/// The views of a sequence of strings.
pub open spec fn string_views(strings: Seq<String>) -> Seq<Seq<char>> {
    strings.map_values(|s: String| s@)
}

/// Calls `UnicodeSegmentation::graphemes(s, true)` and collects the extended
/// grapheme clusters. The contract names the result and states what the
/// crate's iterator shows: the clusters are non-empty consecutive slices of
/// `s`, so their concatenation is `s`.
#[verifier::external_body]
pub fn graphemes(s: &str) -> (r: Vec<String>)
    ensures
        string_views(r@) == spec_graphemes(s@),
        concat_all(string_views(r@)) == s@,
        forall|i: int| 0 <= i < r@.len() ==> #[trigger] r@[i]@.len() > 0,
{
    s.graphemes(true).map(|g| g.to_string()).collect()
}

/// Calls `UnicodeWidthStr::width`. The width is named, not restated: it
/// depends on Unicode tables that take pages to write down.
#[verifier::external_body]
pub fn str_width(s: &str) -> (w: usize)
    ensures
        w == spec_str_width(s@),
{
    UnicodeWidthStr::width(s)
}

/// Calls `UnicodeWidthChar::width`. The width is named, not restated.
#[verifier::external_body]
pub fn char_width(c: char) -> (w: Option<usize>)
    ensures
        w == spec_char_width(c),
{
    UnicodeWidthChar::width(c)
}

/// Calls `textwrap::wrap` with `Options::new(width).break_words(true)` and
/// collects each row's text with whether textwrap borrowed it from `text`.
/// The rows are named, not restated; nothing is claimed of where a borrowed
/// row lies in `text`.
#[verifier::external_body]
pub fn wrap_rows(text: &str, width: usize) -> (r: Vec<(bool, String)>)
    ensures
        r@.map_values(|row: (bool, String)| (row.0, row.1@)) == spec_wrap_rows(text@, width),
{
    textwrap::wrap(text, Options::new(width).break_words(true))
        .into_iter()
        .map(|row| match row {
            Cow::Borrowed(piece) => (true, piece.to_string()),
            Cow::Owned(piece) => (false, piece),
        })
        .collect()
}

/// Calls `unicode_linebreak::linebreaks` and collects each break opportunity
/// as its byte offset and whether it is mandatory. Nothing beyond the name is
/// claimed of the offsets.
#[verifier::external_body]
pub fn line_breaks(s: &str) -> (r: Vec<(usize, bool)>)
    ensures
        r@ == spec_linebreaks(s@),
{
    linebreaks(s).map(|(offset, kind)| (offset, matches!(kind, BreakOpportunity::Mandatory))).collect()
}

/// Calls `String::push`, which appends one character.
#[verifier::external_body]
pub fn push_char(s: &mut String, c: char)
    ensures
        final(s)@ == old(s)@.push(c),
{
    s.push(c)
}

} // verus!
