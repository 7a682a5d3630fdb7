//! Folding a forest of elements into spans of styled runs.
//!
//! A text becomes a run in the style in force. A block either changes the
//! style for the elements inside it, or marks a span: the runs gathered
//! before it are closed into a span, and so are the runs gathered inside it.

use super::grammar::Node;
use super::parse_elements::{element_view, lemma_block_view, text_view, views, Element};
use super::segment::clone_id;
use super::source_range::{SourceRange, SourceRangeView};
use super::text_run::{run_views, RunView, TextRun};
use super::text_span::{span_views, SpanId, SpanIdView, SpanView, TextSpan};
use super::text_style::{apply_attribute, same_text, styled, TextStyle};
use vstd::hash_map::StringHashMap;
use vstd::prelude::*;

verus! {

/// Named styles that a tag without a value may call for.
pub type StylePrefabs = StringHashMap<TextStyle>;

/// What has been gathered so far: the spans that are closed, and the runs
/// of the span that is open.
pub struct Gathered {
    pub spans: Seq<SpanView>,
    pub runs: Seq<RunView>,
}

/// What a block does to the elements inside it.
pub enum Resolution {
    /// It marks a span.
    Boundary,
    /// It hands them this style.
    Restyle(TextStyle),
}

/// Closes the open span, if it holds a run.
pub open spec fn flush(g: Gathered) -> Gathered {
    if g.runs.len() > 0 {
        Gathered {
            spans: g.spans.push(SpanView { runs: g.runs, span_id: Some(SpanIdView::Lite(0)) }),
            runs: Seq::empty(),
        }
    } else {
        g
    }
}

/// The prefabs as a map, empty where none were given.
pub open spec fn prefabs_view(prefabs: Option<&StylePrefabs>) -> Map<Seq<char>, TextStyle> {
    match prefabs {
        Some(p) => p@,
        None => Map::empty(),
    }
}

/// What the block `tag`, with `value`, does under `style`:
/// `span` and the empty tag mark a span; a style attribute with a value sets
/// that attribute; a tag without a value that names a prefab replaces the
/// style by the prefab; any other tag marks a span.
pub open spec fn resolve(
    tag: Seq<char>,
    value: Option<Seq<char>>,
    style: TextStyle,
    prefabs: Map<Seq<char>, TextStyle>,
) -> Resolution {
    if tag == "span"@ || tag.len() == 0 {
        Resolution::Boundary
    } else if value is Some && styled(tag, value->0, style) is Some {
        Resolution::Restyle(styled(tag, value->0, style)->0)
    } else if value is None && prefabs.contains_key(tag) {
        Resolution::Restyle(prefabs[tag])
    } else {
        Resolution::Boundary
    }
}

/// Folds the elements of `nodes` from index `k` on into `g`.
pub open spec fn fold_from(
    nodes: Seq<Node>,
    k: int,
    style: TextStyle,
    prefabs: Map<Seq<char>, TextStyle>,
    g: Gathered,
) -> Gathered
    decreases nodes, nodes.len() - k,
{
    if 0 <= k < nodes.len() {
        fold_from(nodes, k + 1, style, prefabs, fold_node(nodes[k], style, prefabs, g))
    } else {
        g
    }
}

/// Folds one element into `g`.
pub open spec fn fold_node(
    node: Node,
    style: TextStyle,
    prefabs: Map<Seq<char>, TextStyle>,
    g: Gathered,
) -> Gathered
    decreases node, 0int,
{
    match node {
        Node::Text { start, end, content, segment_id } => Gathered {
            spans: g.spans,
            runs: g.runs.push(
                RunView {
                    text: content,
                    style,
                    source_range: SourceRangeView { segment_id, start, end },
                },
            ),
        },
        Node::Block { inner, tag, value, .. } => match resolve(tag, value, style, prefabs) {
            Resolution::Boundary => flush(fold_from(inner, 0, style, prefabs, flush(g))),
            Resolution::Restyle(inside) => fold_from(inner, 0, inside, prefabs, g),
        },
    }
}

/// The spans that a forest of elements makes under the style `style`.
pub open spec fn elaborate(
    nodes: Seq<Node>,
    style: TextStyle,
    prefabs: Map<Seq<char>, TextStyle>,
) -> Seq<SpanView> {
    flush(fold_from(nodes, 0, style, prefabs, Gathered { spans: Seq::empty(), runs: Seq::empty() })).spans
}

/// Elements whose folding was interrupted to fold the inside of one of
/// them: where it goes on, in which style, and whether the block that
/// interrupted it marks a span.
struct Frame<'a> {
    items: &'a Vec<Element>,
    next: usize,
    style: TextStyle,
    closes_span: bool,
}

/// What is gathered once the work that `frames` holds is done, the innermost
/// frame last, starting from `g`.
spec fn resume(frames: Seq<Frame>, prefabs: Map<Seq<char>, TextStyle>, g: Gathered) -> Gathered
    decreases frames.len(),
{
    if frames.len() == 0 {
        g
    } else {
        let f = frames.last();
        let closed = if f.closes_span {
            flush(g)
        } else {
            g
        };
        resume(
            frames.drop_last(),
            prefabs,
            fold_from(views(f.items@), f.next as int, f.style, prefabs, closed),
        )
    }
}

/// Number of elements in `nodes` from index `k` on, those inside blocks
/// counted too.
spec fn weight_from(nodes: Seq<Node>, k: int) -> nat
    decreases nodes, nodes.len() - k,
{
    if 0 <= k < nodes.len() {
        weight(nodes[k]) + weight_from(nodes, k + 1)
    } else {
        0
    }
}

/// Number of elements that `node` is made of.
spec fn weight(node: Node) -> nat
    decreases node, 0int,
{
    match node {
        Node::Text { .. } => 1,
        Node::Block { inner, .. } => 1 + weight_from(inner, 0),
    }
}

/// Number of elements that the frames still have to fold.
spec fn pending(frames: Seq<Frame>) -> nat
    decreases frames.len(),
{
    if frames.len() == 0 {
        0
    } else {
        pending(frames.drop_last()) + weight_from(
            views(frames.last().items@),
            frames.last().next as int,
        )
    }
}

spec fn gathered(spans: Seq<TextSpan>, runs: Seq<TextRun>) -> Gathered {
    Gathered { spans: span_views(spans), runs: run_views(runs) }
}

/// Closes the open span, if it holds a run.
fn close_span(spans: &mut Vec<TextSpan>, runs: &mut Vec<TextRun>)
    ensures
        gathered(final(spans)@, final(runs)@) == flush(gathered(old(spans)@, old(runs)@)),
{
    if runs.len() > 0 {
        let mut taken: Vec<TextRun> = Vec::new();
        std::mem::swap(runs, &mut taken);
        let span = TextSpan { runs: taken, span_id: Some(SpanId::Lite(0)) };
        proof {
            assert(span_views(spans@.push(span)) =~= span_views(spans@).push(span@));
            assert(run_views(runs@) =~= Seq::<RunView>::empty());
        }
        spans.push(span);
    }
}

/// What the block `tag`, with `value`, does under `style`.
fn resolve_tag(
    tag: &String,
    value: &Option<String>,
    style: &TextStyle,
    prefabs: Option<&StylePrefabs>,
) -> (r: Resolution)
    ensures
        r == resolve(tag@, text_view(*value), *style, prefabs_view(prefabs)),
{
    if same_text(tag.as_str(), "span") || tag.as_str().is_empty() {
        return Resolution::Boundary;
    }
    match value {
        Some(v) => match apply_attribute(tag.as_str(), v.as_str(), style) {
            Some(inside) => Resolution::Restyle(inside),
            None => Resolution::Boundary,
        },
        None => match prefabs {
            Some(p) => match p.get(tag.as_str()) {
                Some(inside) => Resolution::Restyle(*inside),
                None => Resolution::Boundary,
            },
            None => Resolution::Boundary,
        },
    }
}

/// Folds a forest of elements into spans of styled runs.
///
/// The traversal keeps its own stack of interrupted element lists, so that
/// its depth is not bound to the depth of the call stack.
pub fn to_spans(
    elements: Vec<Element>,
    current_style: &TextStyle,
    style_prefabs: Option<&StylePrefabs>,
) -> (r: Result<Vec<TextSpan>, String>)
    ensures
        r matches Ok(spans) && span_views(spans@) == elaborate(
            views(elements@),
            *current_style,
            prefabs_view(style_prefabs),
        ),
{
    let ghost prefabs = prefabs_view(style_prefabs);
    let ghost goal = fold_from(
        views(elements@),
        0,
        *current_style,
        prefabs,
        Gathered { spans: Seq::empty(), runs: Seq::empty() },
    );
    let mut spans: Vec<TextSpan> = Vec::new();
    let mut runs: Vec<TextRun> = Vec::new();
    let mut stack: Vec<Frame> = Vec::new();
    let mut items: &Vec<Element> = &elements;
    let mut next: usize = 0;
    let mut style: TextStyle = *current_style;
    proof {
        assert(span_views(spans@) =~= Seq::<SpanView>::empty());
        assert(run_views(runs@) =~= Seq::<RunView>::empty());
    }
    loop
        invariant
            prefabs == prefabs_view(style_prefabs),
            next <= items.len(),
            forall|j: int| 0 <= j < stack.len() ==> (#[trigger] stack[j]).next <= stack[j].items.len(),
            goal == resume(
                stack@,
                prefabs,
                fold_from(views(items@), next as int, style, prefabs, gathered(spans@, runs@)),
            ),
        ensures
            goal == gathered(spans@, runs@),
        decreases pending(stack@) + weight_from(views(items@), next as int), stack.len(),
    {
        let ghost nodes = views(items@);
        let ghost before = gathered(spans@, runs@);
        let ghost below = stack@;
        if next >= items.len() {
            match stack.pop() {
                Some(frame) => {
                    assert(below.drop_last() =~= stack@);
                    assert(below.last() == frame);
                    assert(fold_from(nodes, next as int, style, prefabs, before) == before);
                    assert(weight_from(nodes, next as int) == 0);
                    if frame.closes_span {
                        close_span(&mut spans, &mut runs);
                    }
                    items = frame.items;
                    next = frame.next;
                    style = frame.style;
                    assert(resume(below, prefabs, before) == resume(
                        stack@,
                        prefabs,
                        fold_from(
                            views(items@),
                            next as int,
                            style,
                            prefabs,
                            gathered(spans@, runs@),
                        ),
                    ));
                    assert(pending(below) == pending(stack@) + weight_from(
                        views(items@),
                        next as int,
                    ));
                },
                None => {
                    break;
                },
            }
        } else {
            let element = &items[next];
            assert(nodes[next as int] == element@);
            assert(fold_from(nodes, next as int, style, prefabs, before) == fold_from(
                nodes,
                next + 1,
                style,
                prefabs,
                fold_node(element@, style, prefabs, before),
            ));
            assert(weight_from(nodes, next as int) == weight(element@) + weight_from(
                nodes,
                next + 1,
            ));
            match element {
                Element::Text { start, end, content, segment_id } => {
                    let run = TextRun {
                        text: content.clone(),
                        style,
                        source_range: SourceRange {
                            segment_id: clone_id(segment_id),
                            start: *start,
                            end: *end,
                        },
                    };
                    proof {
                        assert(run_views(runs@.push(run)) =~= run_views(runs@).push(run@));
                    }
                    runs.push(run);
                    next = next + 1;
                    assert(fold_node(element@, style, prefabs, before) == gathered(spans@, runs@));
                    assert(weight(element@) == 1);
                },
                Element::Block { start, end, inner, tag, value } => {
                    proof {
                        lemma_block_view(*element);
                    }
                    let ghost outer_style = style;
                    assert(weight(element@) == 1 + weight_from(views(inner@), 0));
                    let frame = match resolve_tag(tag, value, &style, style_prefabs) {
                        Resolution::Boundary => {
                            close_span(&mut spans, &mut runs);
                            Frame { items, next: next + 1, style, closes_span: true }
                        },
                        Resolution::Restyle(inside) => {
                            let outer = style;
                            style = inside;
                            Frame { items, next: next + 1, style: outer, closes_span: false }
                        },
                    };
                    stack.push(frame);
                    assert(stack@.drop_last() =~= below);
                    assert(stack@.last() == frame);
                    items = inner;
                    next = 0;
                    let ghost inside = fold_from(
                        views(inner@),
                        0,
                        style,
                        prefabs,
                        gathered(spans@, runs@),
                    );
                    assert(fold_node(element@, outer_style, prefabs, before) == if frame.closes_span {
                        flush(inside)
                    } else {
                        inside
                    });
                    assert(resume(stack@, prefabs, inside) == resume(
                        below,
                        prefabs,
                        fold_from(
                            nodes,
                            frame.next as int,
                            outer_style,
                            prefabs,
                            fold_node(element@, outer_style, prefabs, before),
                        ),
                    ));
                    assert(pending(stack@) == pending(below) + weight_from(
                        nodes,
                        frame.next as int,
                    ));
                },
            }
        }
    }
    close_span(&mut spans, &mut runs);
    Ok(spans)
}

} // verus!
