//! Character-level helpers over `str` and `String`.

use crate::unicode::push_char;
use vstd::prelude::*;
use vstd::utf8::encode_utf8;

verus! {

/// The characters of `s`.
pub fn chars_of(s: &str) -> (r: Vec<char>)
    ensures
        r@ == s@,
{
    broadcast use vstd::string::axiom_spec_iter;

    let mut out: Vec<char> = Vec::new();
    for c in it: s.chars()
        invariant
            it.seq() == s@,
            out@ == s@.take(it.index() as int),
    {
        out.push(c);
        proof {
            assert(out@ =~= s@.take(it.index() + 1));
        }
    }
    assert(s@.take(s@.len() as int) =~= s@);
    out
}

/// Appends `chars` to `s`.
pub fn push_chars(s: &mut String, chars: &Vec<char>)
    ensures
        final(s)@ == old(s)@ + chars@,
{
    let mut index: usize = 0;
    while index < chars.len()
        invariant
            0 <= index <= chars@.len(),
            s@ == old(s)@ + chars@.take(index as int),
        decreases chars@.len() - index,
    {
        push_char(s, chars[index]);
        proof {
            assert(old(s)@ + chars@.take(index + 1) =~= (old(s)@ + chars@.take(index as int)).push(chars@[index as int]));
        }
        index += 1;
    }
    assert(chars@.take(chars@.len() as int) =~= chars@);
}

/// The number of bytes that encode `c` in UTF-8.
pub fn char_len_utf8(c: char) -> (r: usize)
    ensures
        r == encode_utf8(seq![c]).len(),
        1 <= r <= 4,
{
    proof {
        assert(seq![c].drop_first() =~= Seq::<char>::empty());
        assert(encode_utf8(seq![c]) == vstd::utf8::encode_scalar(c as u32) + encode_utf8(Seq::<char>::empty()));
    }
    let v = c as u32;
    if v <= 0x7F {
        1
    } else if v <= 0x7FF {
        2
    } else if v <= 0xFFFF {
        3
    } else {
        4
    }
}

/// The characters `from..to` of `chars` as a string.
pub fn string_of(chars: &Vec<char>, from: usize, to: usize) -> (r: String)
    requires
        from <= to <= chars@.len(),
    ensures
        r@ == chars@.subrange(from as int, to as int),
{
    let mut out = String::new();
    let mut index = from;
    while index < to
        invariant
            from <= index <= to <= chars@.len(),
            out@ == chars@.subrange(from as int, index as int),
        decreases to - index,
    {
        push_char(&mut out, chars[index]);
        proof {
            assert(out@ =~= chars@.subrange(from as int, index + 1));
        }
        index += 1;
    }
    out
}

} // verus!
