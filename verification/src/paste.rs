//! Composer paste handling: large pastes are shown as short markers and
//! expanded back to their content on submission.

use crate::chars::{chars_of, push_chars};
use crate::unicode::push_char;
use vstd::prelude::*;

verus! {

/// Pastes of more characters than this are shown as a marker.
pub const LARGE_PASTE_CHAR_THRESHOLD: usize = 1000;

/// Pastes of more lines than this are shown as a marker.
pub const LARGE_PASTE_LINE_THRESHOLD: usize = 10;

/// Line endings and tabs as the composer shows them: `\r\n` and a lone `\r`
/// become `\n`, and a tab becomes four spaces.
pub open spec fn normalize(s: Seq<char>) -> Seq<char>
    decreases s.len(),
{
    if s.len() == 0 {
        Seq::empty()
    } else if s[0] == '\r' && s.len() > 1 && s[1] == '\n' {
        seq!['\n'] + normalize(s.skip(2))
    } else if s[0] == '\r' {
        seq!['\n'] + normalize(s.skip(1))
    } else if s[0] == '\t' {
        seq![' ', ' ', ' ', ' '] + normalize(s.skip(1))
    } else {
        seq![s[0]] + normalize(s.skip(1))
    }
}

/// The number of lines of `s`: one more than its newlines.
pub open spec fn line_count(s: Seq<char>) -> nat
    decreases s.len(),
{
    if s.len() == 0 {
        1
    } else {
        line_count(s.drop_last()) + if s.last() == '\n' {
            1nat
        } else {
            0nat
        }
    }
}

/// The decimal digits of `n`.
pub open spec fn decimal(n: nat) -> Seq<char>
    decreases n,
{
    if n < 10 {
        seq![digit(n)]
    } else {
        decimal(n / 10).push(digit(n % 10))
    }
}

pub open spec fn digit(d: nat) -> char {
    ((48 + d) as u8) as char
}

/// The number that decimal digits `s` spell, most significant first.
pub open spec fn digits_value(s: Seq<char>) -> int
    decreases s.len(),
{
    if s.len() == 0 {
        0
    } else {
        digits_value(s.drop_last()) * 10 + (s.last() as u32 - 48)
    }
}

/// The decimal text of `n` is its base-ten numeral, most significant digit
/// first: one or more digits `0` to `9`, with no leading zero, that spell
/// `n` back.
pub proof fn lemma_decimal_spells_the_number(n: nat)
    ensures
        decimal(n).len() >= 1,
        forall|i: int| 0 <= i < decimal(n).len() ==> '0' <= #[trigger] decimal(n)[i] <= '9',
        n > 0 ==> decimal(n)[0] != '0',
        digits_value(decimal(n)) == n,
    decreases n,
{
    assert(digit(n % 10) as u32 == 48 + n % 10);
    if n >= 10 {
        lemma_decimal_spells_the_number(n / 10);
        let head = decimal(n / 10);
        assert(decimal(n).drop_last() =~= head);
        assert(decimal(n)[0] == head[0]);
        assert forall|i: int| 0 <= i < decimal(n).len() implies '0' <= #[trigger] decimal(n)[i] <= '9' by {
            if i < head.len() {
                assert(decimal(n)[i] == head[i]);
            }
        }
        assert(n == (n / 10) * 10 + n % 10);
        assert(decimal(n).last() == digit(n % 10));
        assert(digits_value(decimal(n)) == digits_value(head) * 10 + (digit(n % 10) as u32 - 48));
    } else {
        assert(decimal(n).drop_last() =~= Seq::<char>::empty());
        assert(decimal(n).last() == digit(n % 10));
        assert(n % 10 == n);
        assert(digits_value(decimal(n)) == digits_value(Seq::<char>::empty()) * 10 + (digit(n) as u32 - 48));
    }
}

/// `p` occurs in `s` at `i`.
pub open spec fn matches_at(s: Seq<char>, p: Seq<char>, i: int) -> bool {
    s.subrange(i, i + p.len()) == p
}

/// `p` occurs in `s`.
pub open spec fn occurs_in(s: Seq<char>, p: Seq<char>) -> bool {
    exists|i: int| 0 <= i && i + p.len() <= s.len() && #[trigger] matches_at(s, p, i)
}

/// Every occurrence of a non-empty `pattern` replaced by `replacement`,
/// scanning left to right without overlaps.
pub open spec fn replace_all(s: Seq<char>, pattern: Seq<char>, replacement: Seq<char>) -> Seq<char>
    decreases s.len(),
{
    if s.len() == 0 {
        Seq::empty()
    } else if pattern.len() > 0 && pattern.len() <= s.len() && s.take(pattern.len() as int) == pattern {
        replacement + replace_all(s.skip(pattern.len() as int), pattern, replacement)
    } else {
        seq![s[0]] + replace_all(s.skip(1), pattern, replacement)
    }
}

/// The marker shown for a large paste of `count` characters, with a
/// numbered suffix when it must be told apart from an earlier one.
pub open spec fn marker_text(count: nat, id: Option<nat>) -> Seq<char> {
    let base = seq!['[', 'P', 'a', 's', 't', 'e', 'd', ' ', 'C', 'o', 'n', 't', 'e', 'n', 't', ' '] + decimal(count);
    match id {
        None => base + seq![' ', 'c', 'h', 'a', 'r', 's', ']'],
        Some(id) => base + seq![' ', 'c', 'h', 'a', 'r', 's', ' ', '#'] + decimal(id) + seq![']'],
    }
}

/// Applies every stored replacement, first to last.
pub open spec fn expand_all(s: Seq<char>, entries: Seq<(String, String)>, n: int) -> Seq<char>
    decreases n,
{
    if n <= 0 {
        s
    } else {
        replace_all(expand_all(s, entries, n - 1), entries[n - 1].0@, entries[n - 1].1@)
    }
}

/// Large pastes shown in the composer as markers, with their content.
#[derive(Debug)]
pub struct ComposerPasteStore {
    entries: Vec<(String, String)>,
    next_id: u64,
}

impl ComposerPasteStore {
    #[verifier::type_invariant]
    spec fn markers_not_empty(self) -> bool {
        forall|i: int| 0 <= i < self.entries@.len() ==> (#[trigger] self.entries@[i]).0@.len() > 0
    }

    /// The stored markers and their contents, oldest first.
    pub closed spec fn entries_spec(&self) -> Seq<(Seq<char>, Seq<char>)> {
        self.entries@.map_values(|e: (String, String)| (e.0@, e.1@))
    }

    /// The number the next numbered marker builds on.
    pub closed spec fn next_id_spec(&self) -> u64 {
        self.next_id
    }

    /// What `expand` turns `text` into.
    pub closed spec fn expanded(&self, text: Seq<char>) -> Seq<char> {
        expand_all(text, self.entries@, self.entries@.len() as int)
    }

    pub fn new() -> (r: Self)
        ensures
            r.entries_spec().len() == 0,
            r.next_id_spec() == 0,
    {
        ComposerPasteStore { entries: Vec::new(), next_id: 0 }
    }

    /// The composer text for a paste of `input`: small pastes are inserted
    /// normalized; a large one is stored and a marker stands for it. A marker
    /// is numbered when its plain form already occurs in `current` or among
    /// the stored markers.
    pub fn display_text(&mut self, current: &str, input: &str) -> (r: String)
        ensures
            ({
                let normalized = normalize(input@);
                let small = normalized.len() <= LARGE_PASTE_CHAR_THRESHOLD && line_count(normalized)
                    <= LARGE_PASTE_LINE_THRESHOLD;
                let id = if old(self).next_id_spec() == u64::MAX {
                    1u64
                } else {
                    (old(self).next_id_spec() + 1) as u64
                };
                let plain = marker_text(normalized.len(), None);
                let marker = if !occurs_in(current@, plain) && !exists|i: int|
                    0 <= i < old(self).entries_spec().len() && #[trigger] old(self).entries_spec()[i].0 == plain {
                    plain
                } else {
                    marker_text(normalized.len(), Some(id as nat))
                };
                if small {
                    &&& r@ == normalized
                    &&& final(self).entries_spec() == old(self).entries_spec()
                    &&& final(self).next_id_spec() == old(self).next_id_spec()
                } else {
                    &&& r@ == marker
                    &&& final(self).entries_spec() == old(self).entries_spec().push((marker, normalized))
                    &&& final(self).next_id_spec() == id
                }
            }),
    {
        proof {
            use_type_invariant(&*self);
        }
        let normalized = normalize_text(input);
        let count = normalized.len();
        let newlines = count_newlines(&normalized);
        if count <= LARGE_PASTE_CHAR_THRESHOLD && newlines < LARGE_PASTE_LINE_THRESHOLD {
            let mut out = String::new();
            push_chars(&mut out, &normalized);
            assert(out@ =~= normalized@);
            return out;
        }
        let id = if self.next_id == u64::MAX {
            1u64
        } else {
            self.next_id + 1
        };
        self.next_id = id;
        let plain = marker(count as u64, None);
        let current_chars = chars_of(current);
        let plain_chars = chars_of(plain.as_str());
        let mut known = false;
        let mut index: usize = 0;
        while index < self.entries.len()
            invariant
                0 <= index <= self.entries@.len(),
                self.entries@ == old(self).entries@,
                known == exists|i: int| 0 <= i < index && #[trigger] self.entries@[i].0@ == plain@,
            decreases self.entries@.len() - index,
        {
            if self.entries[index].0 == plain {
                known = true;
            }
            index += 1;
        }
        proof {
            if known {
                let i = choose|i: int| 0 <= i < index && #[trigger] self.entries@[i].0@ == plain@;
                assert(old(self).entries_spec()[i].0 == plain@);
            } else {
                assert forall|i: int| 0 <= i < old(self).entries_spec().len() implies #[trigger] old(
                    self,
                ).entries_spec()[i].0 != plain@ by {
                    assert(old(self).entries_spec()[i].0 == self.entries@[i].0@);
                }
            }
        }
        let chosen = if !occurs(&current_chars, &plain_chars) && !known {
            plain
        } else {
            marker(count as u64, Some(id))
        };
        let mut content = String::new();
        push_chars(&mut content, &normalized);
        let shown = chosen.clone();
        let ghost before = self.entries@;
        let mut entries: Vec<(String, String)> = Vec::new();
        std::mem::swap(&mut entries, &mut self.entries);
        entries.push((chosen, content));
        self.entries = entries;
        proof {
            assert(self.entries_spec() =~= old(self).entries_spec().push((shown@, normalized@)));
            assert(forall|i: int| 0 <= i < old(self).entries_spec().len() ==> #[trigger] old(self).entries_spec()[i].0 == before[i].0@);
        }
        shown
    }

    /// Replaces each stored marker in `text` by its content, first stored
    /// first, and forgets all stored pastes.
    pub fn expand(&mut self, text: String) -> (r: String)
        ensures
            r@ == old(self).expanded(text@),
            final(self).entries_spec().len() == 0,
            final(self).next_id_spec() == old(self).next_id_spec(),
    {
        proof {
            use_type_invariant(&*self);
        }
        let ghost original = text@;
        let mut text = text;
        let mut index: usize = 0;
        while index < self.entries.len()
            invariant
                0 <= index <= self.entries@.len(),
                self.entries@ == old(self).entries@,
                forall|i: int| 0 <= i < self.entries@.len() ==> (#[trigger] self.entries@[i]).0@.len() > 0,
                text@ == expand_all(original, self.entries@, index as int),
            decreases self.entries@.len() - index,
        {
            let entry = &self.entries[index];
            text = replace_text(text.as_str(), entry.0.as_str(), entry.1.as_str());
            index += 1;
        }
        self.entries = Vec::new();
        text
    }

    /// Forgets all stored pastes.
    pub fn clear(&mut self)
        ensures
            final(self).entries_spec().len() == 0,
            final(self).next_id_spec() == old(self).next_id_spec(),
    {
        self.entries = Vec::new();
    }
}

impl Default for ComposerPasteStore {
    fn default() -> (r: Self)
        ensures
            r.entries_spec().len() == 0,
            r.next_id_spec() == 0,
    {
        ComposerPasteStore::new()
    }
}

fn normalize_text(input: &str) -> (r: Vec<char>)
    ensures
        r@ == normalize(input@),
{
    let chars = chars_of(input);
    let mut out: Vec<char> = Vec::new();
    let mut index: usize = 0;
    proof {
        assert(chars@.skip(0) =~= chars@);
        assert(out@ + normalize(chars@) =~= normalize(chars@));
    }
    while index < chars.len()
        invariant
            0 <= index <= chars@.len(),
            chars@ == input@,
            out@ + normalize(chars@.skip(index as int)) == normalize(chars@),
        decreases chars@.len() - index,
    {
        let ghost rest = chars@.skip(index as int);
        let c = chars[index];
        if c == '\r' && index + 1 < chars.len() && chars[index + 1] == '\n' {
            out.push('\n');
            proof {
                assert(rest.skip(2) =~= chars@.skip(index + 2));
            }
            index += 2;
        } else if c == '\r' {
            out.push('\n');
            proof {
                assert(rest.skip(1) =~= chars@.skip(index + 1));
            }
            index += 1;
        } else if c == '\t' {
            out.push(' ');
            out.push(' ');
            out.push(' ');
            out.push(' ');
            proof {
                assert(rest.skip(1) =~= chars@.skip(index + 1));
            }
            index += 1;
        } else {
            out.push(c);
            proof {
                assert(rest.skip(1) =~= chars@.skip(index + 1));
            }
            index += 1;
        }
        proof {
            assert(out@ + normalize(chars@.skip(index as int)) =~= normalize(chars@));
        }
    }
    proof {
        assert(chars@.skip(index as int) =~= Seq::<char>::empty());
        assert(out@ + Seq::<char>::empty() =~= out@);
    }
    out
}

fn count_newlines(s: &Vec<char>) -> (r: usize)
    ensures
        r + 1 == line_count(s@),
{
    let mut newlines: usize = 0;
    let mut index: usize = 0;
    while index < s.len()
        invariant
            0 <= index <= s@.len(),
            newlines + 1 == line_count(s@.take(index as int)),
            newlines <= index,
        decreases s@.len() - index,
    {
        proof {
            assert(s@.take(index + 1).drop_last() =~= s@.take(index as int));
        }
        if s[index] == '\n' {
            newlines = newlines + 1;
        }
        index += 1;
    }
    assert(s@.take(s@.len() as int) =~= s@);
    newlines
}

/// Appends the decimal digits of `n`.
pub(crate) fn push_decimal(s: &mut String, n: u64)
    ensures
        final(s)@ == old(s)@ + decimal(n as nat),
    decreases n,
{
    if n >= 10 {
        push_decimal(s, n / 10);
    }
    let d = (n % 10) as u8;
    push_char(s, (48u8 + d) as char);
    proof {
        if n >= 10 {
            assert(old(s)@ + decimal(n as nat) =~= old(s)@ + decimal((n / 10) as nat) + seq![digit((n % 10) as nat)]);
        } else {
            assert(old(s)@ + decimal(n as nat) =~= old(s)@ + seq![digit(n as nat)]);
        }
    }
}

fn marker(count: u64, id: Option<u64>) -> (r: String)
    ensures
        r@ == marker_text(
            count as nat,
            match id {
                Some(i) => Some(i as nat),
                None => None,
            },
        ),
{
    let mut s = String::new();
    let prefix = vec!['[', 'P', 'a', 's', 't', 'e', 'd', ' ', 'C', 'o', 'n', 't', 'e', 'n', 't', ' '];
    push_chars(&mut s, &prefix);
    push_decimal(&mut s, count);
    match id {
        None => {
            let suffix = vec![' ', 'c', 'h', 'a', 'r', 's', ']'];
            push_chars(&mut s, &suffix);
        },
        Some(i) => {
            let middle = vec![' ', 'c', 'h', 'a', 'r', 's', ' ', '#'];
            push_chars(&mut s, &middle);
            push_decimal(&mut s, i);
            let close = vec![']'];
            push_chars(&mut s, &close);
        },
    }
    proof {
        let base = seq!['[', 'P', 'a', 's', 't', 'e', 'd', ' ', 'C', 'o', 'n', 't', 'e', 'n', 't', ' '];
        assert(prefix@ =~= base);
    }
    s
}

/// Whether `pattern` occurs in `s` at `at`.
fn occurs_at(s: &Vec<char>, pattern: &Vec<char>, at: usize) -> (r: bool)
    requires
        at + pattern@.len() <= s@.len(),
    ensures
        r == (s@.subrange(at as int, at + pattern@.len()) == pattern@),
{
    let length = s.len();
    let mut k: usize = 0;
    while k < pattern.len()
        invariant
            0 <= k <= pattern@.len(),
            length == s@.len(),
            at + pattern@.len() <= s@.len(),
            s@.subrange(at as int, at + k) == pattern@.take(k as int),
        decreases pattern@.len() - k,
    {
        assert(at + k < s@.len());
        if s[at + k] != pattern[k] {
            assert(s@.subrange(at as int, at + pattern@.len())[k as int] != pattern@[k as int]);
            return false;
        }
        proof {
            assert(s@.subrange(at as int, at + k + 1) =~= pattern@.take(k + 1));
        }
        k += 1;
    }
    assert(pattern@.take(pattern@.len() as int) =~= pattern@);
    true
}

/// Whether `pattern` occurs anywhere in `s`.
fn occurs(s: &Vec<char>, pattern: &Vec<char>) -> (r: bool)
    ensures
        r == occurs_in(s@, pattern@),
{
    if pattern.len() > s.len() {
        return false;
    }
    let limit = s.len() - pattern.len();
    let mut at: usize = 0;
    loop
        invariant
            pattern@.len() <= s@.len(),
            limit == s@.len() - pattern@.len(),
            at <= limit,
            forall|i: int| 0 <= i < at ==> !#[trigger] matches_at(s@, pattern@, i),
        decreases limit - at,
    {
        if occurs_at(s, pattern, at) {
            assert(matches_at(s@, pattern@, at as int));
            return true;
        }
        if at == limit {
            return false;
        }
        at += 1;
    }
}

/// `s` with every occurrence of a non-empty `pattern` replaced.
fn replace_text(s: &str, pattern: &str, replacement: &str) -> (r: String)
    requires
        pattern@.len() > 0,
    ensures
        r@ == replace_all(s@, pattern@, replacement@),
{
    let chars = chars_of(s);
    let pat = chars_of(pattern);
    let mut out = String::new();
    let mut index: usize = 0;
    proof {
        assert(chars@.skip(0) =~= chars@);
        assert(out@ + replace_all(chars@, pat@, replacement@) =~= replace_all(chars@, pat@, replacement@));
    }
    while index < chars.len()
        invariant
            0 <= index <= chars@.len(),
            chars@ == s@,
            pat@ == pattern@,
            pat@.len() > 0,
            out@ + replace_all(chars@.skip(index as int), pat@, replacement@) == replace_all(
                chars@,
                pat@,
                replacement@,
            ),
        decreases chars@.len() - index,
    {
        let ghost rest = chars@.skip(index as int);
        if pat.len() <= chars.len() - index && occurs_at(&chars, &pat, index) {
            out.append(replacement);
            proof {
                assert(rest.take(pat@.len() as int) =~= chars@.subrange(index as int, index + pat@.len()));
                assert(rest.skip(pat@.len() as int) =~= chars@.skip(index + pat@.len()));
            }
            index += pat.len();
        } else {
            push_char(&mut out, chars[index]);
            proof {
                if pat@.len() <= rest.len() {
                    assert(rest.take(pat@.len() as int) =~= chars@.subrange(index as int, index + pat@.len()));
                }
                assert(rest.skip(1) =~= chars@.skip(index + 1));
            }
            index += 1;
        }
        proof {
            assert(out@ + replace_all(chars@.skip(index as int), pat@, replacement@) =~= replace_all(
                chars@,
                pat@,
                replacement@,
            ));
        }
    }
    proof {
        assert(chars@.skip(index as int) =~= Seq::<char>::empty());
        assert(out@ + Seq::<char>::empty() =~= out@);
    }
    out
}

/// A marker alone expands back to its content.
pub proof fn lemma_marker_expands_to_content(marker: Seq<char>, content: Seq<char>)
    requires
        marker.len() > 0,
    ensures
        replace_all(marker, marker, content) == content,
{
    assert(marker.take(marker.len() as int) =~= marker);
    assert(marker.skip(marker.len() as int) =~= Seq::<char>::empty());
    assert(replace_all(marker.skip(marker.len() as int), marker, content) == Seq::<char>::empty());
    assert(content + Seq::<char>::empty() =~= content);
}

/// Text without occurrences of a marker is left as it is.
pub proof fn lemma_text_without_marker_unchanged(text: Seq<char>, marker: Seq<char>, content: Seq<char>)
    requires
        marker.len() > 0,
        !occurs_in(text, marker),
    ensures
        replace_all(text, marker, content) == text,
    decreases text.len(),
{
    if text.len() > 0 {
        if marker.len() <= text.len() {
            assert(text.take(marker.len() as int) =~= text.subrange(0, marker.len() as int));
            assert(!matches_at(text, marker, 0));
        }
        assert forall|i: int| 0 <= i && i + marker.len() <= text.skip(1).len() implies !#[trigger] matches_at(
            text.skip(1),
            marker,
            i,
        ) by {
            assert(text.skip(1).subrange(i, i + marker.len()) =~= text.subrange(i + 1, i + 1 + marker.len()));
            assert(!matches_at(text, marker, i + 1));
        }
        lemma_text_without_marker_unchanged(text.skip(1), marker, content);
        assert(seq![text[0]] + text.skip(1) =~= text);
    }
}

} // verus!
