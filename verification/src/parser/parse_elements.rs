//! Parsing a segment into elements.

use super::failure::{failure_text, ParseError};
use super::grammar::{
    byte_len, close_at, spec_block, spec_elements, spec_head, spec_parse, spec_tail, starts_block,
    starts_tail, Dialect, Failure, FailureKind, Node,
};
use super::offsets::lemma_byte_len_is_encoded_len;
use super::scan::{
    characters, pass_spaces, read_quoted, read_text, read_word, step, Cursor,
};
use super::segment::{clone_id, id_view, Segment, SegmentId, SegmentIdView};
use vstd::prelude::*;

verus! {

/// A piece of a parsed segment. `start` and `end` are byte offsets into the
/// segment's text.
#[derive(Debug, PartialEq, Eq)]
pub enum Element {
    /// Plain text, with doubled symbols already replaced by single ones.
    Text { start: usize, end: usize, content: String, segment_id: Option<SegmentId> },
    /// A tag with the elements between its head and its end tag.
    Block { start: usize, end: usize, inner: Vec<Element>, tag: String, value: Option<String> },
}

/// The view of an optional string.
pub open spec fn text_view(t: Option<String>) -> Option<Seq<char>> {
    match t {
        Some(v) => Some(v@),
        None => None,
    }
}

/// What an element is in contracts.
pub open spec fn element_view(e: Element) -> Node
    decreases e,
{
    match e {
        Element::Text { start, end, content, segment_id } => Node::Text {
            start: start as nat,
            end: end as nat,
            content: content@,
            segment_id: id_view(segment_id),
        },
        Element::Block { start, end, inner, tag, value } => Node::Block {
            start: start as nat,
            end: end as nat,
            inner: Seq::new(
                inner@.len(),
                |k: int|
                    if 0 <= k < inner@.len() {
                        element_view(inner[k])
                    } else {
                        Node::Block {
                            start: 0,
                            end: 0,
                            inner: Seq::empty(),
                            tag: Seq::empty(),
                            value: None,
                            tail: Seq::empty(),
                        }
                    },
            ),
            tag: tag@,
            value: text_view(value),
            tail: tag@,
        },
    }
}

impl View for Element {
    type V = Node;

    open spec fn view(&self) -> Node {
        element_view(*self)
    }
}

/// The views of a sequence of elements.
pub open spec fn views(v: Seq<Element>) -> Seq<Node> {
    Seq::new(v.len(), |k: int| v[k]@)
}

/// A block's view holds the views of its inner elements.
pub proof fn lemma_block_view(e: Element)
    requires
        e is Block,
    ensures
        e@ matches Node::Block { start, end, inner, tag, value, tail } && start == e->Block_start
            && end == e->Block_end && inner == views(e->Block_inner@) && tag == e->Block_tag@
            && value == text_view(e->Block_value) && tail == tag,
{
    match e {
        Element::Block { start, end, inner, tag, value } => {
            let n = e@;
            match n {
                Node::Block { start: s2, end: e2, inner: below, tag: t2, value: v2, tail: t3 } => {
                    assert(below.len() == inner@.len());
                    assert(below =~= views(inner@));
                },
                _ => {},
            }
        },
        _ => {},
    }
}

/// A copy of an optional string.
pub fn clone_text(t: &Option<String>) -> (r: Option<String>)
    ensures
        text_view(r) == text_view(*t),
{
    match t {
        Some(v) => Some(v.clone()),
        None => None,
    }
}

impl Element {
    /// A deep copy of the element.
    pub fn duplicate(&self) -> (r: Element)
        ensures
            r@ == self@,
        decreases self,
    {
        match self {
            Element::Text { start, end, content, segment_id } => Element::Text {
                start: *start,
                end: *end,
                content: content.clone(),
                segment_id: clone_id(segment_id),
            },
            Element::Block { start, end, inner, tag, value } => {
                let mut copies: Vec<Element> = Vec::new();
                let mut k: usize = 0;
                while k < inner.len()
                    invariant
                        k <= inner.len(),
                        copies.len() == k,
                        forall|j: int| 0 <= j < k ==> copies@[j]@ == inner@[j]@,
                        *self matches Element::Block { inner: own, .. } && own == inner,
                    decreases inner.len() - k,
                {
                    proof {
                        vstd::std_specs::vec::axiom_vec_index_decreases(*inner, k as int);
                    }
                    let copy = inner[k].duplicate();
                    copies.push(copy);
                    k += 1;
                }
                let copy = Element::Block {
                    start: *start,
                    end: *end,
                    inner: copies,
                    tag: tag.clone(),
                    value: clone_text(value),
                };
                proof {
                    assert(views(copies@) =~= views(inner@));
                    lemma_block_view(copy);
                    lemma_block_view(*self);
                }
                copy
            },
        }
    }
}

impl Clone for Element {
    fn clone(&self) -> (r: Self)
        ensures
            r@ == self@,
    {
        self.duplicate()
    }
}

/// The symbols that a text is read with, and the identifier of its segment.
pub struct Symbols<'a> {
    pub open: char,
    pub close: char,
    pub segment_id: &'a Option<SegmentId>,
}

impl<'a> View for Symbols<'a> {
    type V = Dialect;

    open spec fn view(&self) -> Dialect {
        dialect(self.open, self.close, id_view(*self.segment_id))
    }
}

/// The language with the symbols `open` and `close`, in which an end tag
/// repeats the key of its head.
pub open spec fn dialect(open: char, close: char, segment_id: Option<SegmentIdView>) -> Dialect {
    Dialect { open, close, segment_id, strict: true }
}

/// `r` with the elements `front` put before its own.
pub open spec fn prepend(front: Seq<Node>, r: Result<(Seq<Node>, int), Failure>) -> Result<
    (Seq<Node>, int),
    Failure,
> {
    match r {
        Ok((rest, end)) => Ok((front + rest, end)),
        Err(f) => Err(f),
    }
}

proof fn lemma_prepend_empty(r: Result<(Seq<Node>, int), Failure>)
    ensures
        prepend(Seq::empty(), r) == r,
{
    match r {
        Ok((rest, end)) => {
            assert(Seq::<Node>::empty() + rest =~= rest);
        },
        Err(f) => {},
    }
}

proof fn lemma_prepend_push(front: Seq<Node>, node: Node, r: Result<(Seq<Node>, int), Failure>)
    ensures
        prepend(front, prepend(seq![node], r)) == prepend(front.push(node), r),
{
    match r {
        Ok((rest, end)) => {
            assert(front + (seq![node] + rest) =~= front.push(node) + rest);
        },
        Err(f) => {},
    }
}

/// Reads optional whitespace and the closing symbol.
fn read_close(chars: &Vec<char>, cur: Cursor, close: char) -> (r: Result<Cursor, ParseError>)
    requires
        byte_len(chars@) <= usize::MAX,
        cur.within(chars@),
    ensures
        match close_at(chars@, cur.index as int, close) {
            Ok(end) => r matches Ok(c) && c.at(chars@, end) && c.index > cur.index,
            Err(f) => r matches Err(e) && e@ == f,
        },
{
    let c = pass_spaces(chars, cur);
    if c.index < chars.len() && chars[c.index] == close {
        Ok(step(chars, c))
    } else {
        Err(ParseError { offset: c.offset, kind: FailureKind::MissingClose })
    }
}

/// Reads the head of the block whose opening symbol stands at `cur`.
fn read_head(chars: &Vec<char>, cur: Cursor, open: char, close: char) -> (r: Result<
    (String, Option<String>, Cursor),
    ParseError,
>)
    requires
        byte_len(chars@) <= usize::MAX,
        cur.within(chars@),
        cur.index < chars.len(),
    ensures
        match spec_head(chars@, cur.index as int, open, close) {
            Ok(head) => r matches Ok((key, value, c)) && key@ == head.key && text_view(value)
                == head.value && c.at(chars@, head.end) && c.index > cur.index,
            Err(f) => r matches Err(e) && e@ == f,
        },
{
    let a = pass_spaces(chars, step(chars, cur));
    let (key, ke) = read_word(chars, a, open, close);
    if ke.index > a.index {
        let b = pass_spaces(chars, ke);
        if b.index < chars.len() && chars[b.index] == '=' {
            let c = pass_spaces(chars, step(chars, b));
            let (word, ve) = read_word(chars, c, open, close);
            if ve.index > c.index {
                let end = read_close(chars, ve, close)?;
                return Ok((key, Some(word), end));
            } else if c.index < chars.len() && (chars[c.index] == '"' || chars[c.index] == '\'') {
                let (inside, qe) = read_quoted(chars, step(chars, c), chars[c.index]);
                if qe.index == c.index + 1 {
                    return Err(ParseError { offset: qe.offset, kind: FailureKind::EmptyQuote });
                } else if qe.index >= chars.len() {
                    return Err(
                        ParseError { offset: qe.offset, kind: FailureKind::UnterminatedQuote },
                    );
                } else {
                    let end = read_close(chars, step(chars, qe), close)?;
                    return Ok((key, Some(inside), end));
                }
            }
        }
        let end = read_close(chars, ke, close)?;
        Ok((key, None, end))
    } else {
        let end = read_close(chars, a, close)?;
        Ok((String::new(), None, end))
    }
}

/// Reads the end tag that starts at `cur`.
fn read_tail(chars: &Vec<char>, cur: Cursor, open: char, close: char) -> (r: Result<
    (String, Cursor),
    ParseError,
>)
    requires
        byte_len(chars@) <= usize::MAX,
        cur.within(chars@),
        starts_tail(chars@, cur.index as int, open),
    ensures
        match spec_tail(chars@, cur.index as int, open, close) {
            Ok((key, end)) => r matches Ok((k, c)) && k@ == key && c.at(chars@, end) && c.index
                > cur.index,
            Err(f) => r matches Err(e) && e@ == f,
        },
{
    let a = pass_spaces(chars, step(chars, step(chars, cur)));
    let (key, ke) = read_word(chars, a, open, close);
    let end = read_close(chars, ke, close)?;
    Ok((key, end))
}

/// Whether an end tag starts at `cur`.
fn at_tail(chars: &Vec<char>, cur: Cursor, open: char) -> (r: bool)
    requires
        cur.within(chars@),
    ensures
        r == starts_tail(chars@, cur.index as int, open),
{
    chars.len() - cur.index > 1 && chars[cur.index] == open && chars[cur.index + 1] == '/'
}

/// Reads the block whose opening symbol stands at `cur`.
fn read_block(chars: &Vec<char>, cur: Cursor, symbols: &Symbols) -> (r: Result<
    (Element, Cursor),
    ParseError,
>)
    requires
        byte_len(chars@) <= usize::MAX,
        cur.within(chars@),
        cur.index < chars.len(),
    ensures
        match spec_block(chars@, cur.index as int, symbols@) {
            Ok((node, end)) => r matches Ok((element, c)) && element@ == node && c.at(chars@, end)
                && c.index > cur.index,
            Err(f) => r matches Err(e) && e@ == f,
        },
    decreases chars.len() - cur.index, 0int,
{
    let (tag, value, after_head) = read_head(chars, cur, symbols.open, symbols.close)?;
    let (inner, stop) = read_elements(chars, after_head, symbols)?;
    if !at_tail(chars, stop, symbols.open) {
        return Err(ParseError { offset: stop.offset, kind: FailureKind::MissingEndTag });
    }
    let (key, end) = read_tail(chars, stop, symbols.open, symbols.close)?;
    if key != tag {
        return Err(ParseError { offset: stop.offset, kind: FailureKind::TagMismatch });
    }
    let block = Element::Block { start: cur.offset, end: end.offset, inner, tag, value };
    proof {
        lemma_block_view(block);
    }
    Ok((block, end))
}

/// Reads elements until none starts.
fn read_elements(chars: &Vec<char>, cur: Cursor, symbols: &Symbols) -> (r: Result<
    (Vec<Element>, Cursor),
    ParseError,
>)
    requires
        byte_len(chars@) <= usize::MAX,
        cur.within(chars@),
    ensures
        match spec_elements(chars@, cur.index as int, symbols@) {
            Ok((nodes, end)) => r matches Ok((elements, c)) && views(elements@) == nodes && c.at(
                chars@,
                end,
            ) && c.index >= cur.index,
            Err(f) => r matches Err(e) && e@ == f,
        },
    decreases chars.len() - cur.index, 1int,
{
    let mut elements: Vec<Element> = Vec::new();
    let mut c = cur;
    proof {
        lemma_prepend_empty(spec_elements(chars@, cur.index as int, symbols@));
        assert(views(elements@) =~= Seq::<Node>::empty());
    }
    loop
        invariant
            byte_len(chars@) <= usize::MAX,
            c.within(chars@),
            c.index >= cur.index,
            spec_elements(chars@, cur.index as int, symbols@) == prepend(
                views(elements@),
                spec_elements(chars@, c.index as int, symbols@),
            ),
        decreases chars.len() - c.index,
    {
        let ghost here = spec_elements(chars@, c.index as int, symbols@);
        let ghost front = views(elements@);
        let (content, after_text) = read_text(chars, c, symbols.open, symbols.close);
        if after_text.index > c.index {
            let text = Element::Text {
                start: c.offset,
                end: after_text.offset,
                content,
                segment_id: clone_id(symbols.segment_id),
            };
            proof {
                lemma_prepend_push(
                    front,
                    text@,
                    spec_elements(chars@, after_text.index as int, symbols@),
                );
                assert(views(elements@.push(text)) =~= front.push(text@));
            }
            elements.push(text);
            c = after_text;
        } else if c.index < chars.len() && chars[c.index] == symbols.open && !at_tail(
            chars,
            c,
            symbols.open,
        ) {
            let (block, after_block) = read_block(chars, c, symbols)?;
            proof {
                lemma_prepend_push(
                    front,
                    block@,
                    spec_elements(chars@, after_block.index as int, symbols@),
                );
                assert(views(elements@.push(block)) =~= front.push(block@));
            }
            elements.push(block);
            c = after_block;
        } else {
            proof {
                assert(front + Seq::<Node>::empty() =~= front);
            }
            return Ok((elements, c));
        }
    }
}

/// Parses a segment with the symbols `open` and `close`.
///
/// Gives the elements that the whole text is made of, with byte offsets into
/// it, or the message of the first failure met.
pub fn parse_with(input: &Segment, open: char, close: char) -> (r: Result<Vec<Element>, String>)
    ensures
        match spec_parse(input.content@, dialect(open, close, id_view(input.id))) {
            Ok(nodes) => r matches Ok(elements) && views(elements@) == nodes,
            Err(f) => r matches Err(msg) && msg@ == failure_text(f),
        },
{
    let text = input.text();
    let chars = characters(text);
    let size = text.as_bytes().len();
    proof {
        lemma_byte_len_is_encoded_len(chars@);
    }
    let symbols = Symbols { open, close, segment_id: &input.id };
    let start = Cursor { index: 0, offset: 0 };
    assert(chars@.take(0) =~= Seq::<char>::empty());
    match read_elements(&chars, start, &symbols) {
        Ok((elements, stop)) => {
            if stop.index == chars.len() {
                Ok(elements)
            } else {
                let e = ParseError { offset: stop.offset, kind: FailureKind::UnexpectedSymbol };
                Err(e.message())
            }
        },
        Err(e) => Err(e.message()),
    }
}

/// Parses a segment with the symbols `[` and `]`.
pub fn parse(input: &Segment) -> (r: Result<Vec<Element>, String>)
    ensures
        match spec_parse(input.content@, dialect('[', ']', id_view(input.id))) {
            Ok(nodes) => r matches Ok(elements) && views(elements@) == nodes,
            Err(f) => r matches Err(msg) && msg@ == failure_text(f),
        },
{
    parse_with(input, '[', ']')
}

} // verus!
