//! The layout engine: runs of styled text are flowed into a box, glyph by
//! glyph, and each glyph gets its place.

mod color_space;
pub mod course;
pub mod flow;
mod glyph_span;
mod layout_style;

pub use color_space::ColorSpace;
pub use flow::{Flow, GlyphBox};
pub use glyph_span::SegmentGlyphSpan;
pub use layout_style::{default_layout_style, LayoutDirection, LayoutStyle};

use crate::font_extractor::GlyphExtractorTrait;
use crate::huozi::cache::Glyph;
use crate::huozi::{taken, written, Huozi};
use crate::parser::failure::failure_text;
use crate::parser::grammar::{spec_parse, Failure, Node};
use crate::parser::scan::characters;
use crate::parser::{
    dialect, elaborate, id_view, parse_with, prefabs_view, run_views, span_views, to_spans, views,
    Element, Segment, SpanView, StylePrefabs, TextSpan, TextStyle,
};
use course::{
    after, glyphs_of, lemma_place_between_runs, lemma_place_in_run, lemma_run_start_first,
    lemma_run_start_next, lemma_run_start_prefix, lemma_spans_prefix, lemma_spelling_push, outcome,
    run_script, run_start, runs_script, script, spans_script, spelled, spelling, start_course,
    Course, Event, Frame, Step,
};
use flow::{advancing, respects, span_ranges, tiles, SpanRange, MAX_STEPS};
use vstd::prelude::*;

verus! {

/// Whether every run belongs to a segment.
pub open spec fn all_segmented(spans: Seq<SpanView>) -> bool {
    forall|s: int, r: int|
        0 <= s < spans.len() && 0 <= r < spans[s].runs.len() ==> (
        #[trigger] spans[s].runs[r]).source_range.segment_id is Some
}

/// What a layout of the text `spans` gives, and what it leaves in the
/// atlas: the outcome of a flow that took the steps of the text in order,
/// with a glyph asked of the atlas for each character, up to the end of the
/// text; or up to the line that would start at or below the lower edge; or
/// up to the largest count of steps or of writes to the texture.
pub open spec fn laid_out(
    spans: Seq<SpanView>,
    layout_style: LayoutStyle,
    color_space: ColorSpace,
    cached: Seq<(char, Glyph)>,
    written_before: u64,
    now_cached: Seq<(char, Glyph)>,
    version: u64,
    boxes: Seq<GlyphBox>,
    ranges: Seq<SpanRange>,
    width: u32,
    height: u32,
) -> bool {
    &&& exists|events: Seq<Event>|
        {
            let c = #[trigger] flowed(spans, layout_style, color_space, events);
            &&& spelling(events).is_prefix_of(script(spans))
            &&& now_cached == taken(cached, glyphs_of(events))
            &&& version == written_before + written(cached, glyphs_of(events))
            &&& (boxes, ranges, width, height) == outcome(c)
            &&& (spelling(events) == script(spans) || c.pen.stopped || c.steps >= MAX_STEPS - 3
                || version == u64::MAX)
        }
    &&& advancing(boxes)
    &&& forall|i: int|
        0 <= i < boxes.len() ==> respects(
            #[trigger] boxes[i],
            layout_style.box_width as int,
            layout_style.box_height as int,
        )
    &&& all_segmented(spans) ==> tiles(ranges, boxes.len() as int)
}

/// The indent at which a text starts: that of its first run, if the first
/// span has one.
pub open spec fn first_indent(spans: Seq<SpanView>) -> int {
    if spans.len() > 0 && spans[0].runs.len() > 0 {
        spans[0].runs[0].style.indent as int
    } else {
        0
    }
}

/// The course that the events take a flow of the text `spans` on.
pub open spec fn flowed(
    spans: Seq<SpanView>,
    layout_style: LayoutStyle,
    color_space: ColorSpace,
    events: Seq<Event>,
) -> Course {
    after(
        start_course(first_indent(spans)),
        Frame {
            box_width: layout_style.box_width as int,
            box_height: layout_style.box_height as int,
            color_space,
        },
        events,
    )
}

/// The elements of the segments from `k` on, one segment after the other,
/// or the failure of the first segment that is not in the language.
pub open spec fn parse_from(segments: Seq<Segment>, k: int, open: char, close: char) -> Result<
    Seq<Node>,
    Failure,
>
    decreases segments.len() - k,
{
    if 0 <= k < segments.len() {
        match spec_parse(segments[k].content@, dialect(open, close, id_view(segments[k].id))) {
            Ok(nodes) => match parse_from(segments, k + 1, open, close) {
                Ok(rest) => Ok(nodes + rest),
                Err(f) => Err(f),
            },
            Err(f) => Err(f),
        }
    } else {
        Ok(Seq::empty())
    }
}

/// The elements of all segments, one segment after the other.
pub fn parse_segments(segments: &Vec<Segment>, open: char, close: char) -> (r: Result<
    Vec<Element>,
    String,
>)
    ensures
        match parse_from(segments@, 0, open, close) {
            Ok(nodes) => r matches Ok(elements) && views(elements@) == nodes,
            Err(f) => r matches Err(msg) && msg@ == failure_text(f),
        },
{
    let mut k: usize = segments.len();
    let mut elements: Vec<Element> = Vec::new();
    let mut failed: Option<String> = None;
    assert(views(elements@) =~= Seq::<Node>::empty());
    while k > 0
        invariant
            0 <= k <= segments.len(),
            match parse_from(segments@, k as int, open, close) {
                Ok(nodes) => failed is None && views(elements@) == nodes,
                Err(f) => failed matches Some(msg) && msg@ == failure_text(f),
            },
        decreases k,
    {
        k = k - 1;
        match parse_with(&segments[k], open, close) {
            Ok(mut front) => {
                if failed.is_none() {
                    let ghost head = views(front@);
                    let ghost tail = views(elements@);
                    front.append(&mut elements);
                    assert(views(front@) =~= head + tail);
                    elements = front;
                }
            },
            Err(msg) => {
                failed = Some(msg);
            },
        }
    }
    match failed {
        Some(msg) => Err(msg),
        None => Ok(elements),
    }
}

impl<E: GlyphExtractorTrait> Huozi<E> {
    /// Parses segments with the symbols `[` and `]` and folds their
    /// elements into spans of styled runs.
    pub fn parse_text(
        &self,
        segments: &Vec<Segment>,
        initial_text_style: &TextStyle,
        style_prefabs: Option<&StylePrefabs>,
    ) -> (r: Result<Vec<TextSpan>, String>)
        ensures
            match parse_from(segments@, 0, '[', ']') {
                Ok(nodes) => r matches Ok(spans) && span_views(spans@) == elaborate(
                    nodes,
                    *initial_text_style,
                    prefabs_view(style_prefabs),
                ),
                Err(f) => r matches Err(msg) && msg@ == failure_text(f),
            },
    {
        self.parse_text_with(segments, initial_text_style, style_prefabs, '[', ']')
    }

    /// Parses segments with the symbols `open` and `close` and folds their
    /// elements into spans of styled runs.
    pub fn parse_text_with(
        &self,
        segments: &Vec<Segment>,
        initial_text_style: &TextStyle,
        style_prefabs: Option<&StylePrefabs>,
        open: char,
        close: char,
    ) -> (r: Result<Vec<TextSpan>, String>)
        ensures
            match parse_from(segments@, 0, open, close) {
                Ok(nodes) => r matches Ok(spans) && span_views(spans@) == elaborate(
                    nodes,
                    *initial_text_style,
                    prefabs_view(style_prefabs),
                ),
                Err(f) => r matches Err(msg) && msg@ == failure_text(f),
            },
    {
        match parse_segments(segments, open, close) {
            Ok(elements) => to_spans(elements, initial_text_style, style_prefabs),
            Err(msg) => Err(msg),
        }
    }

    /// Flows the runs of `text_spans` into the box of `layout_style`.
    ///
    /// The glyph of each character is taken from the atlas, in the order of
    /// the text, and placed by the flow. The flow ends with the text, or
    /// where a line would start at or below the lower edge of the box; it
    /// also ends where the count of glyphs, or the count of writes to the
    /// texture, has reached the largest number that it can hold. Gives the
    /// boxes of the glyphs, the spans of the segments, and the width and
    /// the height that the text takes, in whole pixels.
    pub fn layout(
        &mut self,
        layout_style: &LayoutStyle,
        text_spans: &Vec<TextSpan>,
        color_space: ColorSpace,
    ) -> (r: (Vec<GlyphBox>, Vec<SegmentGlyphSpan>, u32, u32))
        requires
            old(self).wf(),
        ensures
            final(self).wf(),
            final(self).version() >= old(self).version(),
            laid_out(
                span_views(text_spans@),
                *layout_style,
                color_space,
                old(self).glyphs(),
                old(self).version(),
                final(self).glyphs(),
                final(self).version(),
                r.0@,
                span_ranges(r.1@),
                r.2,
                r.3,
            ),
    {
        let indent: i32 = if text_spans.len() > 0 && text_spans[0].runs.len() > 0 {
            text_spans[0].runs[0].style.indent
        } else {
            0
        };
        let mut flow = Flow::new(layout_style, color_space, indent);
        let ghost sv = span_views(text_spans@);
        let ghost frame = flow.frame();
        let ghost start = flow.course();
        let ghost mut events: Seq<Event> = Seq::empty();
        let mut going = true;
        let mut s: usize = 0;
        proof {
            assert(spelling(events) =~= spans_script(sv, 0));
            lemma_spans_prefix(sv, 0, sv.len() as int);
        }
        while going && s < text_spans.len()
            invariant
                0 <= s <= text_spans.len(),
                sv == span_views(text_spans@),
                self.wf(),
                self.version() >= old(self).version(),
                flow.wf(),
                flow.frame() == frame,
                flow.course() == after(start, frame, events),
                self.glyphs() == taken(old(self).glyphs(), glyphs_of(events)),
                self.version() == old(self).version() + written(
                    old(self).glyphs(),
                    glyphs_of(events),
                ),
                spelling(events).is_prefix_of(script(sv)),
                going ==> !flow.stopped && spelling(events) == spans_script(sv, s as int),
                !going ==> flow.stopped || flow.steps >= MAX_STEPS - 3 || self.version()
                    == u64::MAX,
                all_segmented(sv) ==> flow.orphans@ == 0,
            decreases text_spans.len() - s, (if going { 1int } else { 0int }),
        {
            let runs = &text_spans[s].runs;
            let ghost rvs = sv[s as int].runs;
            let ghost before = spans_script(sv, s as int);
            let mut r: usize = 0;
            proof {
                assert(rvs == run_views(runs@));
                assert(before + runs_script(rvs, 0) =~= before);
            }
            while going && r < runs.len()
                invariant
                    0 <= s < text_spans.len(),
                    0 <= r <= runs.len(),
                    runs == &text_spans[s as int].runs,
                    sv == span_views(text_spans@),
                    rvs == sv[s as int].runs,
                    rvs == run_views(runs@),
                    rvs.len() == runs.len(),
                    before == spans_script(sv, s as int),
                    self.wf(),
                    self.version() >= old(self).version(),
                    flow.wf(),
                    flow.frame() == frame,
                    flow.course() == after(start, frame, events),
                    self.glyphs() == taken(old(self).glyphs(), glyphs_of(events)),
                    self.version() == old(self).version() + written(
                        old(self).glyphs(),
                        glyphs_of(events),
                    ),
                    spelling(events).is_prefix_of(script(sv)),
                    going ==> !flow.stopped && spelling(events) == before + runs_script(
                        rvs,
                        r as int,
                    ),
                    !going ==> flow.stopped || flow.steps >= MAX_STEPS - 3 || self.version()
                        == u64::MAX,
                    all_segmented(sv) ==> flow.orphans@ == 0,
                decreases runs.len() - r, (if going { 1int } else { 0int }),
            {
                let run = &runs[r];
                let ghost rv = rvs[r as int];
                let ghost done = before + runs_script(rvs, r as int);
                if flow.steps as i128 >= MAX_STEPS - 3 {
                    going = false;
                } else {
                    let ghost held = events;
                    flow.begin_run(&run.source_range.segment_id);
                    let chars = characters(run.text.as_str());
                    let mut c: usize = 0;
                    proof {
                        let event = Event::Begin(id_view(run.source_range.segment_id));
                        events = held.push(event);
                        lemma_spelling_push(held, event);
                        assert(glyphs_of(events) == glyphs_of(held));
                        assert(rv == run@);
                        lemma_run_start_first(rv);
                        assert(spelling(events) =~= done + run_start(rv, 0));
                        lemma_run_start_prefix(rv, 0);
                        lemma_place_in_run(sv, s as int, r as int, run_start(rv, 0));
                        assert(done + run_start(rv, 0) =~= before + (runs_script(rvs, r as int)
                            + run_start(rv, 0)));
                    }
                    while going && c < chars.len()
                        invariant
                            0 <= s < text_spans.len(),
                            0 <= r < runs.len(),
                            0 <= c <= chars.len(),
                            sv == span_views(text_spans@),
                            rvs == sv[s as int].runs,
                            rvs.len() == runs.len(),
                            before == spans_script(sv, s as int),
                            done == before + runs_script(rvs, r as int),
                            rv == rvs[r as int],
                            rv == run@,
                            chars@ == run.text@,
                            self.wf(),
                            self.version() >= old(self).version(),
                            flow.wf(),
                            flow.frame() == frame,
                            flow.course() == after(start, frame, events),
                            self.glyphs() == taken(old(self).glyphs(), glyphs_of(events)),
                            self.version() == old(self).version() + written(
                                old(self).glyphs(),
                                glyphs_of(events),
                            ),
                            spelling(events).is_prefix_of(script(sv)),
                            going ==> !flow.stopped && spelling(events) == done + run_start(
                                rv,
                                c as int,
                            ),
                            going ==> flow.steps < MAX_STEPS - 1,
                            !going ==> flow.stopped || flow.steps >= MAX_STEPS - 3
                                || self.version() == u64::MAX,
                            all_segmented(sv) ==> flow.orphans@ == 0
                                && flow.open_segment is Some,
                        decreases chars.len() - c, (if going { 1int } else { 0int }),
                    {
                        if flow.steps as i128 >= MAX_STEPS - 3 || self.image_version() == u64::MAX {
                            going = false;
                        } else {
                            let glyph = self.get_glyph(chars[c]);
                            let ghost held = events;
                            going = flow.place(glyph, &run.style);
                            proof {
                                let event = Event::Place(glyph, run.style);
                                events = held.push(event);
                                lemma_spelling_push(held, event);
                                assert(glyphs_of(events) == glyphs_of(held).push(glyph));
                                assert(glyphs_of(events).drop_last() =~= glyphs_of(held));
                                lemma_run_start_next(rv, c as int);
                                assert(spelled(event) == Step::Letter(rv.text[c as int] as u32, rv.style));
                                assert(spelling(events) =~= done + run_start(rv, c + 1));
                                lemma_run_start_prefix(rv, c + 1);
                                lemma_place_in_run(sv, s as int, r as int, run_start(rv, c + 1));
                                assert(done + run_start(rv, c + 1) =~= before + (runs_script(
                                    rvs,
                                    r as int,
                                ) + run_start(rv, c + 1)));
                            }
                            c = c + 1;
                        }
                    }
                    if going {
                        let ghost held = events;
                        flow.end_run(&run.style);
                        proof {
                            let event = Event::End(run.style);
                            events = held.push(event);
                            lemma_spelling_push(held, event);
                            assert(glyphs_of(events) == glyphs_of(held));
                            assert(run_script(rv) =~= run_start(rv, c as int).push(spelled(event)));
                            assert(spelling(events) =~= done + run_script(rv));
                            assert(done + run_script(rv) =~= before + runs_script(rvs, r + 1));
                            lemma_place_between_runs(sv, s as int, r + 1);
                        }
                        r = r + 1;
                    }
                }
            }
            if going {
                s = s + 1;
            }
        }
        proof {
            assert(first_indent(sv) == indent as int) by {
                if text_spans.len() > 0 && text_spans[0].runs.len() > 0 {
                    assert(sv[0].runs[0] == text_spans[0].runs[0]@);
                }
            }
            assert(flowed(sv, *layout_style, color_space, events) == flow.course());
        }
        flow.finish()
    }

    /// Parses segments with the symbols `[` and `]`, folds their elements
    /// into spans of styled runs, and flows the runs into the box.
    pub fn layout_parse(
        &mut self,
        segments: &Vec<Segment>,
        layout_style: &LayoutStyle,
        initial_text_style: &TextStyle,
        color_space: ColorSpace,
        style_prefabs: Option<&StylePrefabs>,
    ) -> (r: Result<(Vec<GlyphBox>, Vec<SegmentGlyphSpan>, u32, u32), String>)
        requires
            old(self).wf(),
        ensures
            final(self).wf(),
            final(self).version() >= old(self).version(),
            match parse_from(segments@, 0, '[', ']') {
                Ok(nodes) => r matches Ok(laid) && laid_out(
                    elaborate(nodes, *initial_text_style, prefabs_view(style_prefabs)),
                    *layout_style,
                    color_space,
                    old(self).glyphs(),
                    old(self).version(),
                    final(self).glyphs(),
                    final(self).version(),
                    laid.0@,
                    span_ranges(laid.1@),
                    laid.2,
                    laid.3,
                ),
                Err(f) => r matches Err(msg) && msg@ == failure_text(f) && final(self).version()
                    == old(self).version() && final(self).glyphs() == old(self).glyphs()
                    && final(self).texture() == old(self).texture(),
            },
    {
        self.layout_parse_with(
            segments,
            layout_style,
            initial_text_style,
            color_space,
            style_prefabs,
            '[',
            ']',
        )
    }

    /// Parses segments with the symbols `open` and `close`, folds their
    /// elements into spans of styled runs, and flows the runs into the box.
    pub fn layout_parse_with(
        &mut self,
        segments: &Vec<Segment>,
        layout_style: &LayoutStyle,
        initial_text_style: &TextStyle,
        color_space: ColorSpace,
        style_prefabs: Option<&StylePrefabs>,
        open: char,
        close: char,
    ) -> (r: Result<(Vec<GlyphBox>, Vec<SegmentGlyphSpan>, u32, u32), String>)
        requires
            old(self).wf(),
        ensures
            final(self).wf(),
            final(self).version() >= old(self).version(),
            match parse_from(segments@, 0, open, close) {
                Ok(nodes) => r matches Ok(laid) && laid_out(
                    elaborate(nodes, *initial_text_style, prefabs_view(style_prefabs)),
                    *layout_style,
                    color_space,
                    old(self).glyphs(),
                    old(self).version(),
                    final(self).glyphs(),
                    final(self).version(),
                    laid.0@,
                    span_ranges(laid.1@),
                    laid.2,
                    laid.3,
                ),
                Err(f) => r matches Err(msg) && msg@ == failure_text(f) && final(self).version()
                    == old(self).version() && final(self).glyphs() == old(self).glyphs()
                    && final(self).texture() == old(self).texture(),
            },
    {
        match self.parse_text_with(segments, initial_text_style, style_prefabs, open, close) {
            Ok(text_spans) => Ok(self.layout(layout_style, &text_spans, color_space)),
            Err(msg) => Err(msg),
        }
    }
}

} // verus!
