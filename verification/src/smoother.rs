//! The character queue behind streamed-text pacing: chunks wait in arrival
//! order, each with its kind, and are released by character count.

use crate::chars::{char_len_utf8, chars_of, string_of};
use crate::stream::lemma_encode_concat;
use std::collections::VecDeque;
use vstd::prelude::*;
use vstd::utf8::encode_utf8;

verus! {

/// The byte offset just after the first `chars` characters of `text`, or
/// the text's length when it has fewer characters.
pub fn byte_index_after_chars(text: &str, chars: usize) -> (r: usize)
    requires
        encode_utf8(text@).len() <= usize::MAX,
    ensures
        r == encode_utf8(text@.take(if chars < text@.len() { chars as int } else { text@.len() as int })).len(),
{
    if chars == 0 {
        assert(text@.take(0) =~= Seq::<char>::empty());
        return 0;
    }
    let characters = chars_of(text);
    let mut offset: usize = 0;
    let mut index: usize = 0;
    while index < characters.len()
        invariant
            0 <= index <= characters@.len(),
            characters@ == text@,
            encode_utf8(text@).len() <= usize::MAX,
            offset == encode_utf8(text@.take(index as int)).len(),
            index <= chars,
        decreases characters@.len() - index,
    {
        if index == chars {
            return offset;
        }
        proof {
            assert(text@.take(index + 1) =~= text@.take(index as int) + seq![text@[index as int]]);
            lemma_encode_concat(text@.take(index as int), seq![text@[index as int]]);
            assert(text@ =~= text@.take(index + 1) + text@.skip(index + 1));
            lemma_encode_concat(text@.take(index + 1), text@.skip(index + 1));
        }
        offset = offset + char_len_utf8(characters[index]);
        index += 1;
    }
    assert(text@.take(text@.len() as int) =~= text@);
    offset
}

/// The chunks released when `n` characters are taken from the front of
/// `chunks` (a chunk that crosses the boundary is split, keeping its kind),
/// and the chunks that stay queued.
pub open spec fn take_chars<K>(chunks: Seq<(K, Seq<char>)>, n: nat) -> (Seq<(K, Seq<char>)>, Seq<(K, Seq<char>)>)
    decreases chunks.len(),
{
    if n == 0 || chunks.len() == 0 {
        (Seq::empty(), chunks)
    } else {
        let (kind, text) = chunks[0];
        if text.len() <= n {
            let rest = take_chars(chunks.drop_first(), (n - text.len()) as nat);
            (seq![(kind, text)] + rest.0, rest.1)
        } else {
            (seq![(kind, text.take(n as int))], seq![(kind, text.skip(n as int))] + chunks.drop_first())
        }
    }
}

/// All the text of `chunks`, in order.
pub open spec fn chunk_text<K>(chunks: Seq<(K, Seq<char>)>) -> Seq<char>
    decreases chunks.len(),
{
    if chunks.len() == 0 {
        Seq::empty()
    } else {
        chunks[0].1 + chunk_text(chunks.drop_first())
    }
}

/// `a - b`, stopping at zero.
pub open spec fn sat_sub(a: int, b: int) -> int {
    if a >= b {
        a - b
    } else {
        0
    }
}

/// `a + b`, stopping at the largest `usize`.
pub open spec fn sat_add_usize(a: int, b: int) -> int {
    if a + b > usize::MAX {
        usize::MAX as int
    } else {
        a + b
    }
}

/// Text chunks waiting for release, each with its kind, and the count of
/// waiting characters (kept with saturating arithmetic).
#[derive(Debug)]
pub struct PendingText<K> {
    pending: VecDeque<(K, String)>,
    pending_chars: usize,
}

impl<K: Copy> PendingText<K> {
    /// The waiting chunks, oldest first.
    pub closed spec fn chunks(&self) -> Seq<(K, Seq<char>)> {
        self.pending@.map_values(|c: (K, String)| (c.0, c.1@))
    }

    /// The waiting-character count.
    pub closed spec fn count(&self) -> usize {
        self.pending_chars
    }

    pub fn new() -> (r: Self)
        ensures
            r.chunks().len() == 0,
            r.count() == 0,
    {
        PendingText { pending: VecDeque::new(), pending_chars: 0 }
    }

    /// Queues `text` with its kind; empty text is ignored.
    pub fn push(&mut self, kind: K, text: &str)
        ensures
            text@.len() == 0 ==> final(self).chunks() == old(self).chunks(),
            text@.len() == 0 ==> final(self).count() == old(self).count(),
            text@.len() > 0 ==> final(self).chunks() == old(self).chunks().push((kind, text@)),
            text@.len() > 0 ==> final(self).count() == sat_add_usize(old(self).count() as int, text@.len() as int),
    {
        if text.is_empty() {
            return;
        }
        let characters = chars_of(text);
        let count = characters.len();
        self.pending_chars = if self.pending_chars > usize::MAX - count {
            usize::MAX
        } else {
            self.pending_chars + count
        };
        let owned: String = text.to_owned();
        let ghost before = self.pending@;
        self.pending.push_back((kind, owned));
        proof {
            assert(self.chunks() =~= old(self).chunks().push((kind, text@)));
        }
    }

    /// How many characters wait (saturating at the largest `usize`).
    pub fn pending_chars(&self) -> (r: usize)
        ensures
            r == self.count(),
    {
        self.pending_chars
    }

    /// Whether any character waits.
    pub fn has_pending(&self) -> (r: bool)
        ensures
            r == (self.count() > 0),
    {
        self.pending_chars > 0
    }

    /// Forgets everything waiting.
    pub fn clear(&mut self)
        ensures
            final(self).chunks().len() == 0,
            final(self).count() == 0,
    {
        self.pending.clear();
        self.pending_chars = 0;
        proof {
            assert(self.chunks() =~= Seq::<(K, Seq<char>)>::empty());
        }
    }

    /// Releases everything waiting, in order, when anything waits.
    pub fn flush(&mut self) -> (r: Option<Vec<(K, String)>>)
        ensures
            old(self).count() == 0 ==> r is None,
            old(self).count() == 0 ==> final(self).chunks() == old(self).chunks(),
            old(self).count() == 0 ==> final(self).count() == 0,
            old(self).count() > 0 ==> (r matches Some(chunks) && chunks@.map_values(|c: (K, String)| (c.0, c.1@))
                == old(self).chunks()),
            old(self).count() > 0 ==> final(self).chunks().len() == 0,
            old(self).count() > 0 ==> final(self).count() == 0,
    {
        if !self.has_pending() {
            return None;
        }
        let mut released: Vec<(K, String)> = Vec::new();
        let ghost all = self.chunks();
        while self.pending.len() > 0
            invariant
                released@.map_values(|c: (K, String)| (c.0, c.1@)) + self.chunks() == all,
            decreases self.pending@.len(),
        {
            let ghost before = self.chunks();
            let chunk = self.pending.pop_front().unwrap();
            let ghost item = (chunk.0, chunk.1@);
            released.push(chunk);
            proof {
                assert(before =~= seq![item] + self.chunks());
                assert(released@.map_values(|c: (K, String)| (c.0, c.1@)) + self.chunks() =~= all);
            }
        }
        self.clear();
        proof {
            assert(released@.map_values(|c: (K, String)| (c.0, c.1@)) =~= all);
        }
        Some(released)
    }

    /// Releases exactly `chars` characters from the front, preserving each
    /// chunk's kind: whole leading chunks are released; the chunk that
    /// crosses the boundary is split and its remainder stays queued.
    pub fn drain_prefix_chars(&mut self, chars: usize) -> (r: Vec<(K, String)>)
        ensures
            r@.map_values(|c: (K, String)| (c.0, c.1@)) == take_chars(old(self).chunks(), chars as nat).0,
            final(self).chunks() == take_chars(old(self).chunks(), chars as nat).1,
            final(self).count() == sat_sub(
                old(self).count() as int,
                chunk_text(take_chars(old(self).chunks(), chars as nat).0).len() as int,
            ),
    {
        if chars == 0 {
            let r: Vec<(K, String)> = Vec::new();
            assert(r@.map_values(|c: (K, String)| (c.0, c.1@)) =~= Seq::<(K, Seq<char>)>::empty());
            assert(chunk_text(Seq::<(K, Seq<char>)>::empty()) =~= Seq::<char>::empty());
            return r;
        }
        let ghost start = self.chunks();
        let ghost start_count = self.pending_chars as int;
        let mut emitted: Vec<(K, String)> = Vec::new();
        let mut remaining = chars;
        while remaining > 0 && self.pending.len() > 0
            invariant
                take_chars(start, chars as nat).0 == emitted@.map_values(|c: (K, String)| (c.0, c.1@)) + take_chars(
                    self.chunks(),
                    remaining as nat,
                ).0,
                take_chars(start, chars as nat).1 == take_chars(self.chunks(), remaining as nat).1,
                self.pending_chars == sat_sub(
                    start_count,
                    chunk_text(emitted@.map_values(|c: (K, String)| (c.0, c.1@))).len() as int,
                ),
            decreases self.pending@.len(), remaining,
        {
            let ghost before = self.chunks();
            let ghost emitted_before = emitted@.map_values(|c: (K, String)| (c.0, c.1@));
            let next = self.pending.pop_front();
            match next {
                None => {},
                Some((kind, text)) => {
                    let characters = chars_of(text.as_str());
                    let chunk_chars = characters.len();
                    proof {
                        assert(before =~= seq![(kind, text@)] + self.chunks());
                        assert(before[0] == (kind, text@));
                        assert(before.drop_first() =~= self.chunks());
                    }
                    if chunk_chars <= remaining {
                        emitted.push((kind, text));
                        remaining = remaining - chunk_chars;
                        self.pending_chars = if self.pending_chars >= chunk_chars {
                            self.pending_chars - chunk_chars
                        } else {
                            0
                        };
                        proof {
                            let now = emitted@.map_values(|c: (K, String)| (c.0, c.1@));
                            assert(now =~= emitted_before.push((kind, text@)));
                            lemma_chunk_text_push(emitted_before, (kind, text@));
                            assert(seq![(kind, text@)] + take_chars(self.chunks(), remaining as nat).0
                                == take_chars(before, (remaining + chunk_chars) as nat).0);
                            assert(emitted_before + take_chars(before, (remaining + chunk_chars) as nat).0
                                =~= now + take_chars(self.chunks(), remaining as nat).0);
                        }
                    } else {
                        let head = string_of(&characters, 0, remaining);
                        let rest = string_of(&characters, remaining, chunk_chars);
                        let ghost head_view = head@;
                        let ghost rest_view = rest@;
                        emitted.push((kind, head));
                        self.pending.push_front((kind, rest));
                        self.pending_chars = if self.pending_chars >= remaining {
                            self.pending_chars - remaining
                        } else {
                            0
                        };
                        proof {
                            let now = emitted@.map_values(|c: (K, String)| (c.0, c.1@));
                            assert(now =~= emitted_before.push((kind, head_view)));
                            lemma_chunk_text_push(emitted_before, (kind, head_view));
                            assert(head_view =~= text@.take(remaining as int));
                            assert(rest_view =~= text@.skip(remaining as int));
                            assert(self.chunks() =~= seq![(kind, rest_view)] + before.drop_first());
                            assert(take_chars(Seq::<(K, Seq<char>)>::empty(), 0).0 =~= Seq::<(K, Seq<char>)>::empty());
                            assert(take_chars(self.chunks(), 0) == (Seq::<(K, Seq<char>)>::empty(), self.chunks()));
                            assert(emitted_before + take_chars(before, remaining as nat).0 =~= now
                                + take_chars(self.chunks(), 0).0);
                        }
                        remaining = 0;
                    }
                },
            }
        }
        proof {
            if remaining > 0 {
                assert(self.chunks().len() == 0);
            }
            assert(take_chars(self.chunks(), remaining as nat).0 =~= Seq::<(K, Seq<char>)>::empty());
            assert(emitted@.map_values(|c: (K, String)| (c.0, c.1@)) + Seq::<(K, Seq<char>)>::empty()
                =~= emitted@.map_values(|c: (K, String)| (c.0, c.1@)));
        }
        emitted
    }
}

proof fn lemma_chunk_text_single<K>(chunk: (K, Seq<char>))
    ensures
        chunk_text(seq![chunk]) == chunk.1,
{
    assert(seq![chunk].drop_first() =~= Seq::<(K, Seq<char>)>::empty());
    assert(chunk_text(Seq::<(K, Seq<char>)>::empty()) == Seq::<char>::empty());
    assert(chunk.1 + Seq::<char>::empty() =~= chunk.1);
}

proof fn lemma_chunk_text_push<K>(chunks: Seq<(K, Seq<char>)>, chunk: (K, Seq<char>))
    ensures
        chunk_text(chunks.push(chunk)) == chunk_text(chunks) + chunk.1,
    decreases chunks.len(),
{
    if chunks.len() == 0 {
        assert(chunks.push(chunk) =~= seq![chunk]);
        lemma_chunk_text_single(chunk);
        assert(chunk_text(chunks) == Seq::<char>::empty());
        assert(Seq::<char>::empty() + chunk.1 =~= chunk.1);
    } else {
        lemma_chunk_text_push(chunks.drop_first(), chunk);
        assert(chunks.push(chunk).drop_first() =~= chunks.drop_first().push(chunk));
        assert(chunk_text(chunks.push(chunk)) =~= chunk_text(chunks) + chunk.1);
    }
}

/// Draining releases text in order and loses nothing: the released text
/// followed by the text still waiting is the text that waited before.
pub proof fn lemma_drain_preserves_text<K>(chunks: Seq<(K, Seq<char>)>, n: nat)
    ensures
        chunk_text(take_chars(chunks, n).0) + chunk_text(take_chars(chunks, n).1) == chunk_text(chunks),
    decreases chunks.len(),
{
    if n == 0 || chunks.len() == 0 {
        assert(chunk_text(Seq::<(K, Seq<char>)>::empty()) =~= Seq::<char>::empty());
        assert(Seq::<char>::empty() + chunk_text(chunks) =~= chunk_text(chunks));
    } else {
        let (kind, text) = chunks[0];
        if text.len() <= n {
            lemma_drain_preserves_text(chunks.drop_first(), (n - text.len()) as nat);
            let rest = take_chars(chunks.drop_first(), (n - text.len()) as nat);
            assert((seq![(kind, text)] + rest.0).drop_first() =~= rest.0);
            assert(chunk_text(seq![(kind, text)] + rest.0) == text + chunk_text(rest.0));
            assert(text + chunk_text(rest.0) + chunk_text(rest.1) =~= text + (chunk_text(rest.0) + chunk_text(
                rest.1,
            )));
        } else {
            let head = seq![(kind, text.take(n as int))];
            let tail = seq![(kind, text.skip(n as int))] + chunks.drop_first();
            lemma_chunk_text_single((kind, text.take(n as int)));
            assert(tail.drop_first() =~= chunks.drop_first());
            assert(chunk_text(tail) == text.skip(n as int) + chunk_text(chunks.drop_first()));
            assert(text.take(n as int) + (text.skip(n as int) + chunk_text(chunks.drop_first())) =~= text
                + chunk_text(chunks.drop_first()));
        }
    }
}

/// Draining releases `n` characters, or all of them when fewer wait.
pub proof fn lemma_drain_releases_count<K>(chunks: Seq<(K, Seq<char>)>, n: nat)
    ensures
        chunk_text(take_chars(chunks, n).0).len() == if n < chunk_text(chunks).len() {
            n as int
        } else {
            chunk_text(chunks).len() as int
        },
    decreases chunks.len(),
{
    lemma_drain_preserves_text(chunks, n);
    if n == 0 || chunks.len() == 0 {
        assert(chunk_text(Seq::<(K, Seq<char>)>::empty()) =~= Seq::<char>::empty());
    } else {
        let (kind, text) = chunks[0];
        assert(chunk_text(chunks) == text + chunk_text(chunks.drop_first()));
        if text.len() <= n {
            lemma_drain_releases_count(chunks.drop_first(), (n - text.len()) as nat);
            let rest = take_chars(chunks.drop_first(), (n - text.len()) as nat);
            assert((seq![(kind, text)] + rest.0).drop_first() =~= rest.0);
            assert(chunk_text(seq![(kind, text)] + rest.0) == text + chunk_text(rest.0));
        } else {
            let head = seq![(kind, text.take(n as int))];
            lemma_chunk_text_single((kind, text.take(n as int)));
        }
    }
}

} // verus!
