//! Byte offsets of characters, and how they grow along a text.

use super::grammar::{byte_len, char_width, offset_of};
use vstd::prelude::*;

verus! {

/// The byte offset behind a character is the offset before it plus its width.
pub proof fn lemma_offset_step(s: Seq<char>, i: int)
    requires
        0 <= i < s.len(),
    ensures
        offset_of(s, i + 1) == offset_of(s, i) + char_width(s[i]),
{
    assert(s.take(i + 1).drop_last() =~= s.take(i));
    assert(s.take(i + 1).last() == s[i]);
}

/// Byte offsets do not decrease along the text, and none exceeds its length
/// in bytes.
pub proof fn lemma_offset_monotone(s: Seq<char>, i: int, j: int)
    requires
        0 <= i <= j <= s.len(),
    ensures
        offset_of(s, i) <= offset_of(s, j) <= byte_len(s),
    decreases s.len() - i,
{
    if j < s.len() {
        lemma_offset_step(s, j);
        lemma_offset_monotone(s, j + 1, j + 1);
    } else {
        assert(s.take(j) =~= s);
    }
    if i < j {
        lemma_offset_step(s, i);
        lemma_offset_monotone(s, i + 1, j);
    }
}

/// The width of a text counted from its first character.
proof fn lemma_byte_len_first(s: Seq<char>)
    requires
        s.len() > 0,
    ensures
        byte_len(s) == char_width(s[0]) + byte_len(s.drop_first()),
    decreases s.len(),
{
    if s.len() == 1 {
        assert(s.drop_last() =~= s.drop_first());
        assert(byte_len(s.drop_last()) == 0);
    } else {
        lemma_byte_len_first(s.drop_last());
        assert(s.drop_last().drop_first() =~= s.drop_first().drop_last());
        assert(s.drop_first().last() == s.last());
    }
}

/// `byte_len` is the length of the UTF-8 encoding.
pub proof fn lemma_byte_len_is_encoded_len(s: Seq<char>)
    ensures
        byte_len(s) == vstd::utf8::encode_utf8(s).len(),
    decreases s.len(),
{
    if s.len() > 0 {
        lemma_byte_len_first(s);
        lemma_byte_len_is_encoded_len(s.drop_first());
        vstd::utf8::char_is_scalar(s[0]);
    }
}

} // verus!
