//! Reading the small pieces of the grammar from a text held as characters:
//! whitespace, words, quoted values, plain text.

use super::grammar::{
    byte_len, char_width, is_space, is_word_char, offset_of, quote_end, skip_spaces, text_content,
    text_end, text_step, word_end,
};
use super::offsets::{lemma_offset_monotone, lemma_offset_step};
use vstd::prelude::*;

verus! {

/// `String::push` of the standard library. The contract claims what its
/// documentation says: the character is appended to the end of the string.
pub assume_specification[ String::push ](s: &mut String, c: char)
    ensures
        final(s)@ == old(s)@.push(c),
;

/// A position in a text: the index of a character and its byte offset.
#[derive(Clone, Copy, Debug)]
pub struct Cursor {
    pub index: usize,
    pub offset: usize,
}

impl Cursor {
    /// Whether the cursor stands at character `i` of `s`.
    pub open spec fn at(self, s: Seq<char>, i: int) -> bool {
        &&& self.index == i
        &&& 0 <= i <= s.len()
        &&& self.offset == offset_of(s, i)
    }

    /// Whether the cursor stands at one of the characters of `s`, or at its
    /// end.
    pub open spec fn within(self, s: Seq<char>) -> bool {
        self.at(s, self.index as int)
    }
}

/// The characters of `text`.
pub fn characters(text: &str) -> (chars: Vec<char>)
    ensures
        chars@ == text@,
{
    let mut chars: Vec<char> = Vec::new();
    for c in it: text.chars()
        invariant
            chars@ == it.seq().take(it.index() as int),
            it.seq() == text@,
    {
        chars.push(c);
    }
    chars
}

/// Number of bytes that `c` takes in UTF-8.
pub fn width(c: char) -> (n: usize)
    ensures
        n == char_width(c),
{
    let code: u32 = c as u32;
    if code < 0x80 {
        1
    } else if code < 0x800 {
        2
    } else if code < 0x10000 {
        3
    } else {
        4
    }
}

/// The cursor behind the character that `cur` stands at.
pub fn step(chars: &Vec<char>, cur: Cursor) -> (r: Cursor)
    requires
        byte_len(chars@) <= usize::MAX,
        cur.within(chars@),
        cur.index < chars.len(),
    ensures
        r.at(chars@, cur.index + 1),
{
    proof {
        lemma_offset_step(chars@, cur.index as int);
        lemma_offset_monotone(chars@, cur.index + 1, cur.index + 1);
    }
    Cursor { index: cur.index + 1, offset: cur.offset + width(chars[cur.index]) }
}

pub fn space(c: char) -> (r: bool)
    ensures
        r == is_space(c),
{
    c == ' ' || c == '\t' || c == '\n' || c == '\r'
}

pub fn word_char(c: char, open: char, close: char) -> (r: bool)
    ensures
        r == is_word_char(c, open, close),
{
    !(c == '"' || c == '\'' || c == open || c == close || c == '/' || c == '=' || space(c))
}

/// Passes over whitespace.
pub fn pass_spaces(chars: &Vec<char>, cur: Cursor) -> (r: Cursor)
    requires
        byte_len(chars@) <= usize::MAX,
        cur.within(chars@),
    ensures
        r.at(chars@, skip_spaces(chars@, cur.index as int)),
        r.index >= cur.index,
{
    let mut c = cur;
    while c.index < chars.len() && space(chars[c.index])
        invariant
            byte_len(chars@) <= usize::MAX,
            c.within(chars@),
            c.index >= cur.index,
            skip_spaces(chars@, cur.index as int) == skip_spaces(chars@, c.index as int),
        decreases chars.len() - c.index,
    {
        c = step(chars, c);
    }
    c
}

/// Reads a word: the longest run of word characters, which may be empty.
pub fn read_word(chars: &Vec<char>, cur: Cursor, open: char, close: char) -> (r: (String, Cursor))
    requires
        byte_len(chars@) <= usize::MAX,
        cur.within(chars@),
    ensures
        r.1.at(chars@, word_end(chars@, cur.index as int, open, close)),
        r.1.index >= cur.index,
        r.0@ == chars@.subrange(cur.index as int, r.1.index as int),
{
    let mut c = cur;
    let mut word = String::new();
    while c.index < chars.len() && word_char(chars[c.index], open, close)
        invariant
            byte_len(chars@) <= usize::MAX,
            c.within(chars@),
            c.index >= cur.index,
            word_end(chars@, cur.index as int, open, close) == word_end(
                chars@,
                c.index as int,
                open,
                close,
            ),
            word@ == chars@.subrange(cur.index as int, c.index as int),
        decreases chars.len() - c.index,
    {
        word.push(chars[c.index]);
        assert(chars@.subrange(cur.index as int, c.index as int).push(chars@[c.index as int])
            =~= chars@.subrange(cur.index as int, c.index + 1));
        c = step(chars, c);
    }
    assert(word@ =~= chars@.subrange(cur.index as int, c.index as int));
    (word, c)
}

/// Reads up to the quote `q`, or to the end of the text where none follows.
pub fn read_quoted(chars: &Vec<char>, cur: Cursor, q: char) -> (r: (String, Cursor))
    requires
        byte_len(chars@) <= usize::MAX,
        cur.within(chars@),
    ensures
        r.1.at(chars@, quote_end(chars@, cur.index as int, q)),
        r.1.index >= cur.index,
        r.0@ == chars@.subrange(cur.index as int, r.1.index as int),
{
    let mut c = cur;
    let mut inside = String::new();
    while c.index < chars.len() && chars[c.index] != q
        invariant
            byte_len(chars@) <= usize::MAX,
            c.within(chars@),
            c.index >= cur.index,
            quote_end(chars@, cur.index as int, q) == quote_end(chars@, c.index as int, q),
            inside@ == chars@.subrange(cur.index as int, c.index as int),
        decreases chars.len() - c.index,
    {
        inside.push(chars[c.index]);
        assert(chars@.subrange(cur.index as int, c.index as int).push(chars@[c.index as int])
            =~= chars@.subrange(cur.index as int, c.index + 1));
        c = step(chars, c);
    }
    assert(inside@ =~= chars@.subrange(cur.index as int, c.index as int));
    (inside, c)
}

/// How many characters the piece of text at `cur` takes.
pub fn piece(chars: &Vec<char>, cur: Cursor, open: char, close: char) -> (n: usize)
    requires
        cur.within(chars@),
    ensures
        n == text_step(chars@, cur.index as int, open, close),
        cur.index + n <= chars.len(),
{
    let i = cur.index;
    if i >= chars.len() {
        return 0;
    }
    let c = chars[i];
    if i + 1 < chars.len() && c == open && chars[i + 1] == open {
        2
    } else if i + 1 < chars.len() && c == close && chars[i + 1] == close {
        2
    } else if c != open && c != close {
        1
    } else {
        0
    }
}

/// Reads plain text, which may be empty: what it says, and where it ends.
pub fn read_text(chars: &Vec<char>, cur: Cursor, open: char, close: char) -> (r: (String, Cursor))
    requires
        byte_len(chars@) <= usize::MAX,
        cur.within(chars@),
    ensures
        r.1.at(chars@, text_end(chars@, cur.index as int, open, close)),
        r.1.index >= cur.index,
        r.0@ == text_content(chars@, cur.index as int, open, close),
{
    let mut c = cur;
    let mut content = String::new();
    loop
        invariant
            byte_len(chars@) <= usize::MAX,
            c.within(chars@),
            c.index >= cur.index,
            text_end(chars@, cur.index as int, open, close) == text_end(
                chars@,
                c.index as int,
                open,
                close,
            ),
            text_content(chars@, cur.index as int, open, close) == content@ + text_content(
                chars@,
                c.index as int,
                open,
                close,
            ),
        ensures
            c.at(chars@, text_end(chars@, cur.index as int, open, close)),
            c.index >= cur.index,
            content@ == text_content(chars@, cur.index as int, open, close),
        decreases chars.len() - c.index,
    {
        let n = piece(chars, c, open, close);
        if n == 0 {
            assert(content@ + Seq::<char>::empty() =~= content@);
            break;
        }
        let ghost before = content@;
        let ghost rest = text_content(chars@, c.index + n, open, close);
        content.push(chars[c.index]);
        assert(before + (seq![chars@[c.index as int]] + rest) =~= content@ + rest);
        c = step(chars, c);
        if n == 2 {
            c = step(chars, c);
        }
    }
    (content, c)
}

} // verus!
