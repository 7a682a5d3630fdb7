//! The markup grammar, stated over the characters of a segment.
//!
//! ```text
//! root    := element*
//! element := text | block
//! text    := (char other than OPEN, CLOSE | OPEN OPEN | CLOSE CLOSE)+
//! block   := OPEN head CLOSE element* OPEN '/' tail CLOSE
//! head    := ws* key (ws* '=' ws* value)? ws*
//! tail    := ws* key? ws*
//! key     := chars other than quote, OPEN, CLOSE, '=', '/', whitespace
//! value   := key | '"' ... '"' | '\'' ... '\''
//! ```
//!
//! Positions inside the functions of this file are indices of characters;
//! the positions that elements and failures carry are byte offsets into the
//! UTF-8 text, given by `offset_of`.

use super::segment::SegmentIdView;
use vstd::prelude::*;

verus! {

/// Number of bytes that `c` takes in UTF-8.
pub open spec fn char_width(c: char) -> nat {
    if (c as u32) < 0x80 {
        1
    } else if (c as u32) < 0x800 {
        2
    } else if (c as u32) < 0x10000 {
        3
    } else {
        4
    }
}

/// Number of bytes that `s` takes in UTF-8.
pub open spec fn byte_len(s: Seq<char>) -> nat
    decreases s.len(),
{
    if s.len() == 0 {
        0
    } else {
        byte_len(s.drop_last()) + char_width(s.last())
    }
}

/// Byte offset of the character with index `i`.
pub open spec fn offset_of(s: Seq<char>, i: int) -> nat {
    byte_len(s.take(i))
}

/// Why a text is not in the language.
#[derive(Clone, Copy, Debug, PartialEq, Eq)]
pub enum FailureKind {
    /// A symbol that starts no element: a lone closing symbol, or an end tag
    /// that closes nothing.
    UnexpectedSymbol,
    /// A head or a tail is not ended by the closing symbol.
    MissingClose,
    /// A quoted value holds no character.
    EmptyQuote,
    /// A quoted value is not ended by its quote.
    UnterminatedQuote,
    /// The elements inside a block are not followed by an end tag.
    MissingEndTag,
    /// The key of an end tag differs from the key of its head.
    TagMismatch,
}

/// A failure and the byte offset at which it was met.
pub struct Failure {
    pub offset: nat,
    pub kind: FailureKind,
}

/// What an element is in contracts: like `Element`, with strings as
/// sequences of characters. A block also holds the key of its end tag,
/// which in an element is the key of its head.
pub enum Node {
    Text { start: nat, end: nat, content: Seq<char>, segment_id: Option<SegmentIdView> },
    Block {
        start: nat,
        end: nat,
        inner: Seq<Node>,
        tag: Seq<char>,
        value: Option<Seq<char>>,
        tail: Seq<char>,
    },
}

pub open spec fn is_space(c: char) -> bool {
    c == ' ' || c == '\t' || c == '\n' || c == '\r'
}

/// Characters that a key or an unquoted value is made of.
pub open spec fn is_word_char(c: char, open: char, close: char) -> bool {
    !(c == '"' || c == '\'' || c == open || c == close || c == '/' || c == '=' || is_space(c))
}

/// The first position from `i` on that holds no whitespace.
pub open spec fn skip_spaces(s: Seq<char>, i: int) -> int
    decreases s.len() - i,
{
    if 0 <= i < s.len() && is_space(s[i]) {
        skip_spaces(s, i + 1)
    } else {
        i
    }
}

/// The first position from `i` on that holds no word character.
pub open spec fn word_end(s: Seq<char>, i: int, open: char, close: char) -> int
    decreases s.len() - i,
{
    if 0 <= i < s.len() && is_word_char(s[i], open, close) {
        word_end(s, i + 1, open, close)
    } else {
        i
    }
}

/// The first position from `i` on that holds the quote `q`, or the length of
/// `s` where none does.
pub open spec fn quote_end(s: Seq<char>, i: int, q: char) -> int
    decreases s.len() - i,
{
    if 0 <= i < s.len() && s[i] != q {
        quote_end(s, i + 1, q)
    } else {
        i
    }
}

/// How many characters the piece of text at `i` takes: two for a doubled
/// symbol, one for any other character but the symbols, none where no text
/// continues.
pub open spec fn text_step(s: Seq<char>, i: int, open: char, close: char) -> int {
    if 0 <= i && i + 1 < s.len() && s[i] == open && s[i + 1] == open {
        2
    } else if 0 <= i && i + 1 < s.len() && s[i] == close && s[i + 1] == close {
        2
    } else if 0 <= i < s.len() && s[i] != open && s[i] != close {
        1
    } else {
        0
    }
}

/// Where the text that starts at `i` ends.
pub open spec fn text_end(s: Seq<char>, i: int, open: char, close: char) -> int
    decreases s.len() - i,
{
    if text_step(s, i, open, close) > 0 {
        text_end(s, i + text_step(s, i, open, close), open, close)
    } else {
        i
    }
}

/// What the text that starts at `i` says: each piece gives its first
/// character, so that a doubled symbol stands for the symbol itself.
pub open spec fn text_content(s: Seq<char>, i: int, open: char, close: char) -> Seq<char>
    decreases s.len() - i,
{
    if text_step(s, i, open, close) > 0 {
        seq![s[i]] + text_content(s, i + text_step(s, i, open, close), open, close)
    } else {
        seq![]
    }
}

/// A text with every doubled symbol replaced by the symbol.
pub open spec fn unescape(t: Seq<char>, open: char, close: char) -> Seq<char> {
    text_content(t, 0, open, close)
}

/// What a head says, and the position behind its closing symbol.
pub struct Head {
    pub key: Seq<char>,
    pub value: Option<Seq<char>>,
    pub end: int,
}

/// Reads optional whitespace and the closing symbol from `i` on; gives the
/// position behind the symbol.
pub open spec fn close_at(s: Seq<char>, i: int, close: char) -> Result<int, Failure> {
    let e = skip_spaces(s, i);
    if 0 <= e < s.len() && s[e] == close {
        Ok(e + 1)
    } else {
        Err(Failure { offset: offset_of(s, e), kind: FailureKind::MissingClose })
    }
}

/// The head `key`, with `value`, once its closing symbol has been read from
/// `i` on.
pub open spec fn closed_head(
    s: Seq<char>,
    key: Seq<char>,
    value: Option<Seq<char>>,
    i: int,
    close: char,
) -> Result<Head, Failure> {
    match close_at(s, i, close) {
        Ok(end) => Ok(Head { key, value, end }),
        Err(f) => Err(f),
    }
}

/// Reads the head of a block whose opening symbol stands at `i`.
pub open spec fn spec_head(s: Seq<char>, i: int, open: char, close: char) -> Result<
    Head,
    Failure,
> {
    let a = skip_spaces(s, i + 1);
    let ke = word_end(s, a, open, close);
    let key = s.subrange(a, ke);
    if ke > a {
        let b = skip_spaces(s, ke);
        if 0 <= b < s.len() && s[b] == '=' {
            let c = skip_spaces(s, b + 1);
            let ve = word_end(s, c, open, close);
            if ve > c {
                closed_head(s, key, Some(s.subrange(c, ve)), ve, close)
            } else if 0 <= c < s.len() && (s[c] == '"' || s[c] == '\'') {
                let qe = quote_end(s, c + 1, s[c]);
                if qe == c + 1 {
                    Err(Failure { offset: offset_of(s, qe), kind: FailureKind::EmptyQuote })
                } else if qe >= s.len() {
                    Err(Failure { offset: offset_of(s, qe), kind: FailureKind::UnterminatedQuote })
                } else {
                    closed_head(s, key, Some(s.subrange(c + 1, qe)), qe + 1, close)
                }
            } else {
                closed_head(s, key, None, ke, close)
            }
        } else {
            closed_head(s, key, None, ke, close)
        }
    } else {
        closed_head(s, Seq::empty(), None, a, close)
    }
}

/// Whether an end tag starts at `i`.
pub open spec fn starts_tail(s: Seq<char>, i: int, open: char) -> bool {
    0 <= i && i + 1 < s.len() && s[i] == open && s[i + 1] == '/'
}

/// Whether a block starts at `i`: the opening symbol, not followed by `/`.
pub open spec fn starts_block(s: Seq<char>, i: int, open: char) -> bool {
    0 <= i < s.len() && s[i] == open && !starts_tail(s, i, open)
}

/// Reads the end tag that starts at `i`: its key and the position behind its
/// closing symbol.
pub open spec fn spec_tail(s: Seq<char>, i: int, open: char, close: char) -> Result<
    (Seq<char>, int),
    Failure,
> {
    let a = skip_spaces(s, i + 2);
    let ke = word_end(s, a, open, close);
    match close_at(s, ke, close) {
        Ok(end) => Ok((s.subrange(a, ke), end)),
        Err(f) => Err(f),
    }
}

/// The symbols of the language and the identifier that its texts carry.
pub struct Dialect {
    pub open: char,
    pub close: char,
    pub segment_id: Option<SegmentIdView>,
    /// Whether an end tag must repeat the key of its head.
    pub strict: bool,
}

/// Reads elements from `i` on until none starts; gives them with the position
/// where it stopped.
pub open spec fn spec_elements(s: Seq<char>, i: int, d: Dialect) -> Result<(Seq<Node>, int), Failure>
    decreases s.len() - i, 1int,
{
    let e = text_end(s, i, d.open, d.close);
    if i < e <= s.len() {
        let text = Node::Text {
            start: offset_of(s, i),
            end: offset_of(s, e),
            content: text_content(s, i, d.open, d.close),
            segment_id: d.segment_id,
        };
        match spec_elements(s, e, d) {
            Ok((rest, end)) => Ok((seq![text] + rest, end)),
            Err(f) => Err(f),
        }
    } else if starts_block(s, i, d.open) {
        match spec_block(s, i, d) {
            Ok((block, e)) => if i < e <= s.len() {
                match spec_elements(s, e, d) {
                    Ok((rest, end)) => Ok((seq![block] + rest, end)),
                    Err(f) => Err(f),
                }
            } else {
                Ok((seq![block], e))
            },
            Err(f) => Err(f),
        }
    } else {
        Ok((Seq::empty(), i))
    }
}

/// Reads the block whose opening symbol stands at `i`; gives it with the
/// position behind its end tag.
pub open spec fn spec_block(s: Seq<char>, i: int, d: Dialect) -> Result<(Node, int), Failure>
    decreases s.len() - i, 0int,
{
    match spec_head(s, i, d.open, d.close) {
        Err(f) => Err(f),
        Ok(head) => if i < head.end <= s.len() {
            match spec_elements(s, head.end, d) {
                Err(f) => Err(f),
                Ok((inner, e)) => if !starts_tail(s, e, d.open) {
                    Err(Failure { offset: offset_of(s, e), kind: FailureKind::MissingEndTag })
                } else {
                    match spec_tail(s, e, d.open, d.close) {
                        Err(f) => Err(f),
                        Ok((key, end)) => if d.strict && key != head.key {
                            Err(Failure { offset: offset_of(s, e), kind: FailureKind::TagMismatch })
                        } else {
                            Ok(
                                (
                                    Node::Block {
                                        start: offset_of(s, i),
                                        end: offset_of(s, end),
                                        inner,
                                        tag: head.key,
                                        value: head.value,
                                        tail: key,
                                    },
                                    end,
                                ),
                            )
                        },
                    }
                },
            }
        } else {
            Err(Failure { offset: offset_of(s, i), kind: FailureKind::MissingClose })
        },
    }
}

/// The elements that the whole of `s` is made of.
pub open spec fn spec_parse(s: Seq<char>, d: Dialect) -> Result<Seq<Node>, Failure> {
    match spec_elements(s, 0, d) {
        Ok((nodes, e)) => if e == s.len() {
            Ok(nodes)
        } else {
            Err(Failure { offset: offset_of(s, e), kind: FailureKind::UnexpectedSymbol })
        },
        Err(f) => Err(f),
    }
}

} // verus!
