//! What holds of every text of the language.

use super::grammar::{
    is_space, is_word_char, offset_of, skip_spaces, spec_block, spec_elements, spec_head,
    spec_parse, spec_tail, starts_block, starts_tail, text_content, text_end, text_step, unescape,
    word_end, Dialect, Node,
};
use vstd::prelude::*;

verus! {

/// Whether every text of `node` says what its range of the source says:
/// the range lies between two characters, and its characters, with doubled
/// symbols replaced by single ones, are the content.
pub open spec fn round_trips(s: Seq<char>, node: Node, open: char, close: char) -> bool
    decreases node,
{
    match node {
        Node::Text { start, end, content, .. } => exists|i: int, j: int|
            0 <= i <= j <= s.len() && start == offset_of(s, i) && end == offset_of(s, j) && content
                == unescape(#[trigger] s.subrange(i, j), open, close),
        Node::Block { inner, .. } => forall|k: int|
            0 <= k < inner.len() ==> round_trips(s, #[trigger] inner[k], open, close),
    }
}

/// Whether every block of `node` is closed by the key of its head.
pub open spec fn balanced(node: Node) -> bool
    decreases node,
{
    match node {
        Node::Text { .. } => true,
        Node::Block { inner, tag, tail, .. } => tail == tag && forall|k: int|
            0 <= k < inner.len() ==> balanced(#[trigger] inner[k]),
    }
}

/// The language of `d` in which an end tag may have any key.
pub open spec fn lax(d: Dialect) -> Dialect {
    Dialect { strict: false, ..d }
}

/// The language of `d` in which an end tag repeats the key of its head.
pub open spec fn strict(d: Dialect) -> Dialect {
    Dialect { strict: true, ..d }
}

/// A text ends at or behind its start, inside the source.
proof fn lemma_text_end_bounds(s: Seq<char>, i: int, open: char, close: char)
    requires
        0 <= i <= s.len(),
    ensures
        i <= text_end(s, i, open, close) <= s.len(),
    decreases s.len() - i,
{
    if text_step(s, i, open, close) > 0 {
        lemma_text_end_bounds(s, i + text_step(s, i, open, close), open, close);
    }
}

/// What a text says is read off its own characters: the text from `i` on,
/// which ends at `e`, says what the characters from `a` to `e`, taken alone,
/// say from `i` on.
proof fn lemma_text_is_local(s: Seq<char>, a: int, i: int, e: int, open: char, close: char)
    requires
        0 <= a <= i <= s.len(),
        e == text_end(s, i, open, close),
    ensures
        text_content(s, i, open, close) == text_content(s.subrange(a, e), i - a, open, close),
    decreases s.len() - i,
{
    lemma_text_end_bounds(s, i, open, close);
    let sub = s.subrange(a, e);
    let n = text_step(s, i, open, close);
    if n > 0 {
        lemma_text_end_bounds(s, i + n, open, close);
        assert(text_step(sub, i - a, open, close) == n);
        lemma_text_is_local(s, a, i + n, e, open, close);
    } else {
        assert(text_step(sub, i - a, open, close) == 0);
    }
}

/// Whitespace is passed forwards, inside the source.
proof fn lemma_skip_bounds(s: Seq<char>, i: int)
    requires
        0 <= i,
    ensures
        i <= skip_spaces(s, i),
        i <= s.len() ==> skip_spaces(s, i) <= s.len(),
    decreases s.len() - i,
{
    if 0 <= i < s.len() && is_space(s[i]) {
        lemma_skip_bounds(s, i + 1);
    }
}

/// A word is read forwards, inside the source.
proof fn lemma_word_bounds(s: Seq<char>, i: int, open: char, close: char)
    requires
        0 <= i,
    ensures
        i <= word_end(s, i, open, close),
        i <= s.len() ==> word_end(s, i, open, close) <= s.len(),
    decreases s.len() - i,
{
    if 0 <= i < s.len() && is_word_char(s[i], open, close) {
        lemma_word_bounds(s, i + 1, open, close);
    }
}

/// An end tag ends behind its start, inside the source.
proof fn lemma_tail_bounds(s: Seq<char>, i: int, open: char, close: char)
    requires
        0 <= i,
    ensures
        spec_tail(s, i, open, close) matches Ok((key, end)) ==> i < end <= s.len(),
{
    lemma_skip_bounds(s, i + 2);
    lemma_word_bounds(s, skip_spaces(s, i + 2), open, close);
    lemma_skip_bounds(s, word_end(s, skip_spaces(s, i + 2), open, close));
}

/// The elements read from `i` on say what their ranges of the source say.
proof fn lemma_elements_round_trip(s: Seq<char>, i: int, d: Dialect)
    requires
        0 <= i <= s.len(),
    ensures
        spec_elements(s, i, d) matches Ok((nodes, e)) ==> i <= e <= s.len() && forall|k: int|
            0 <= k < nodes.len() ==> round_trips(s, #[trigger] nodes[k], d.open, d.close),
    decreases s.len() - i, 1int,
{
    let e = text_end(s, i, d.open, d.close);
    lemma_text_end_bounds(s, i, d.open, d.close);
    if i < e <= s.len() {
        lemma_text_is_local(s, i, i, e, d.open, d.close);
        lemma_elements_round_trip(s, e, d);
        match spec_elements(s, e, d) {
            Ok((rest, end)) => {
                let nodes = spec_elements(s, i, d)->Ok_0.0;
                assert(nodes[0] is Text);
                assert(round_trips(s, nodes[0], d.open, d.close)) by {
                    assert(s.subrange(i, e) == s.subrange(i, e));
                }
                assert forall|k: int| 0 <= k < nodes.len() implies round_trips(
                    s,
                    #[trigger] nodes[k],
                    d.open,
                    d.close,
                ) by {
                    if k > 0 {
                        assert(nodes[k] == rest[k - 1]);
                    }
                }
            },
            Err(_) => {},
        }
    } else if starts_block(s, i, d.open) {
        lemma_block_round_trips(s, i, d);
        match spec_block(s, i, d) {
            Ok((node, e2)) => {
                lemma_elements_round_trip(s, e2, d);
                match spec_elements(s, e2, d) {
                    Ok((rest, end)) => {
                        let nodes = spec_elements(s, i, d)->Ok_0.0;
                        assert forall|k: int| 0 <= k < nodes.len() implies round_trips(
                            s,
                            #[trigger] nodes[k],
                            d.open,
                            d.close,
                        ) by {
                            if k > 0 {
                                assert(nodes[k] == rest[k - 1]);
                            } else {
                                assert(nodes[0] == node);
                            }
                        }
                    },
                    Err(_) => {},
                }
            },
            Err(_) => {},
        }
    }
}

/// The block read at `i` ends behind `i`, and says what its range of the
/// source says.
proof fn lemma_block_round_trips(s: Seq<char>, i: int, d: Dialect)
    requires
        0 <= i <= s.len(),
    ensures
        spec_block(s, i, d) matches Ok((node, e)) ==> i < e <= s.len() && round_trips(
            s,
            node,
            d.open,
            d.close,
        ),
    decreases s.len() - i, 0int,
{
    match spec_head(s, i, d.open, d.close) {
        Ok(head) => {
            if i < head.end <= s.len() {
                lemma_elements_round_trip(s, head.end, d);
                match spec_elements(s, head.end, d) {
                    Ok((inner, e)) => {
                        if starts_tail(s, e, d.open) {
                            lemma_tail_bounds(s, e, d.open, d.close);
                            match spec_block(s, i, d) {
                                Ok((node, end)) => {
                                    assert(node->Block_inner == inner);
                                },
                                Err(_) => {},
                            }
                        }
                    },
                    Err(_) => {},
                }
            }
        },
        Err(_) => {},
    }
}

/// Positions round-trip: every text element of a parsed source spans a
/// range of the source whose characters, with doubled symbols replaced by
/// single ones, are its content. Blocks hold this of the texts inside them.
pub proof fn law_position_round_trip(s: Seq<char>, d: Dialect)
    ensures
        spec_parse(s, d) matches Ok(nodes) ==> forall|k: int|
            0 <= k < nodes.len() ==> round_trips(s, #[trigger] nodes[k], d.open, d.close),
{
    lemma_elements_round_trip(s, 0, d);
}

/// Whether every element of `nodes` is balanced.
pub open spec fn all_balanced(nodes: Seq<Node>) -> bool {
    forall|k: int| 0 <= k < nodes.len() ==> balanced(#[trigger] nodes[k])
}

/// Elements with one more in front are balanced where that one and the
/// others are.
proof fn lemma_balanced_cons(first: Node, rest: Seq<Node>)
    ensures
        all_balanced(seq![first] + rest) <==> balanced(first) && all_balanced(rest),
{
    let all = seq![first] + rest;
    assert(all[0] == first);
    assert forall|k: int| 0 <= k < rest.len() implies #[trigger] rest[k] == all[k + 1] by {}
    if balanced(first) && all_balanced(rest) {
        assert forall|k: int| 0 <= k < all.len() implies balanced(#[trigger] all[k]) by {
            if k > 0 {
                assert(all[k] == rest[k - 1]);
            }
        }
    }
    if all_balanced(all) {
        assert(balanced(all[0]));
        assert forall|k: int| 0 <= k < rest.len() implies balanced(#[trigger] rest[k]) by {
            assert(balanced(all[k + 1]));
        }
    }
}

/// Reading elements with and without the demand on end tags: what the
/// strict reading gives, the lax one gives too, and it is balanced; what
/// the lax reading gives, if balanced, the strict one gives too.
proof fn lemma_elements_strict_and_lax(s: Seq<char>, i: int, d: Dialect)
    requires
        0 <= i <= s.len(),
    ensures
        spec_elements(s, i, strict(d)) matches Ok((nodes, e)) ==> spec_elements(s, i, lax(d))
            == spec_elements(s, i, strict(d)) && all_balanced(nodes),
        spec_elements(s, i, lax(d)) matches Ok((nodes, e)) ==> all_balanced(nodes)
            ==> spec_elements(s, i, strict(d)) == spec_elements(s, i, lax(d)),
    decreases s.len() - i, 1int,
{
    let e = text_end(s, i, d.open, d.close);
    if i < e <= s.len() {
        lemma_elements_strict_and_lax(s, e, d);
        let text = Node::Text {
            start: offset_of(s, i),
            end: offset_of(s, e),
            content: text_content(s, i, d.open, d.close),
            segment_id: d.segment_id,
        };
        match spec_elements(s, e, lax(d)) {
            Ok((rest, end)) => {
                lemma_balanced_cons(text, rest);
            },
            Err(_) => {},
        }
        match spec_elements(s, e, strict(d)) {
            Ok((rest, end)) => {
                lemma_balanced_cons(text, rest);
            },
            Err(_) => {},
        }
    } else if starts_block(s, i, d.open) {
        lemma_block_strict_and_lax(s, i, d);
        lemma_block_round_trips(s, i, lax(d));
        lemma_block_round_trips(s, i, strict(d));
        match spec_block(s, i, lax(d)) {
            Ok((node, e2)) => {
                lemma_elements_strict_and_lax(s, e2, d);
                match spec_elements(s, e2, lax(d)) {
                    Ok((rest, end)) => {
                        lemma_balanced_cons(node, rest);
                    },
                    Err(_) => {},
                }
                match spec_elements(s, e2, strict(d)) {
                    Ok((rest, end)) => {
                        lemma_balanced_cons(node, rest);
                    },
                    Err(_) => {},
                }
            },
            Err(_) => {},
        }
    } else {
        assert(all_balanced(Seq::<Node>::empty()));
    }
}

/// The same of the block read at `i`.
proof fn lemma_block_strict_and_lax(s: Seq<char>, i: int, d: Dialect)
    requires
        0 <= i <= s.len(),
    ensures
        spec_block(s, i, strict(d)) matches Ok((node, e)) ==> spec_block(s, i, lax(d))
            == spec_block(s, i, strict(d)) && balanced(node),
        spec_block(s, i, lax(d)) matches Ok((node, e)) ==> balanced(node) ==> spec_block(
            s,
            i,
            strict(d),
        ) == spec_block(s, i, lax(d)),
    decreases s.len() - i, 0int,
{
    match spec_head(s, i, d.open, d.close) {
        Ok(head) => {
            if i < head.end <= s.len() {
                lemma_elements_strict_and_lax(s, head.end, d);
                match spec_elements(s, head.end, lax(d)) {
                    Ok((inner, e)) => {
                        match spec_block(s, i, lax(d)) {
                            Ok((node, end)) => {
                                assert(node->Block_inner == inner);
                                assert(balanced(node) ==> all_balanced(inner));
                            },
                            Err(_) => {},
                        }
                    },
                    Err(_) => {},
                }
                match spec_elements(s, head.end, strict(d)) {
                    Ok((inner, e)) => {
                        match spec_block(s, i, strict(d)) {
                            Ok((node, end)) => {
                                assert(node->Block_inner == inner);
                            },
                            Err(_) => {},
                        }
                    },
                    Err(_) => {},
                }
            }
        },
        Err(_) => {},
    }
}

/// Tags balance: a source is parsed if and only if it has the shape of the
/// language and every block in it is closed by the key of its head; the
/// elements are then those of the shape.
pub proof fn law_tag_balance(s: Seq<char>, d: Dialect)
    ensures
        spec_parse(s, strict(d)) is Ok <==> (spec_parse(s, lax(d)) matches Ok(nodes)
            && all_balanced(nodes)),
        spec_parse(s, strict(d)) is Ok ==> spec_parse(s, strict(d)) == spec_parse(s, lax(d)),
{
    lemma_elements_strict_and_lax(s, 0, d);
}

} // verus!
