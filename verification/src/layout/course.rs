//! The course of a flow, as contracts see it: what a flow has reached after
//! a sequence of events, and the sequence of events that a text asks for.

use super::color_space::ColorSpace;
use super::flow::{
    advance_of, box_at, is_break, pen_after_break, pen_after_run, pen_before_glyph, rounded, wraps,
    GlyphBox, Pen, SpanRange,
};
use crate::huozi::cache::Glyph;
use crate::parser::{RunView, SegmentIdView, SpanView, TextStyle};
use vstd::prelude::*;

verus! {

/// The box that a flow fills, and the color space of its boxes.
pub struct Frame {
    pub box_width: int,
    pub box_height: int,
    pub color_space: ColorSpace,
}

/// What a flow has reached: its pen, the boxes of the glyphs placed, the
/// spans closed, the open segment with the glyph at which its span starts,
/// and the count of glyphs placed, lines broken and runs ended.
pub struct Course {
    pub pen: Pen,
    pub boxes: Seq<GlyphBox>,
    pub spans: Seq<SpanRange>,
    pub open: Option<SegmentIdView>,
    pub start: int,
    pub steps: int,
}

/// What moves a flow on: a run begins, a glyph is placed, a run ends.
pub enum Event {
    Begin(Option<SegmentIdView>),
    Place(Glyph, TextStyle),
    End(TextStyle),
}

/// The course of a flow that has not moved yet, with the pen at `indent`
/// thousandths of an em.
pub open spec fn start_course(indent: int) -> Course {
    Course {
        pen: Pen {
            x: super::flow::EM * indent,
            y: 0,
            col: 0,
            row: 0,
            run_width: 0,
            total_width: 0,
            total_height: 0,
            stopped: false,
        },
        boxes: Seq::empty(),
        spans: Seq::empty(),
        open: None,
        start: 0,
        steps: 0,
    }
}

/// The spans with the span of the open segment closed at the last glyph.
pub open spec fn closed(c: Course) -> Seq<SpanRange> {
    match c.open {
        Some(id) => c.spans.push(
            SpanRange { segment_id: id, start: c.start, end: c.boxes.len() as int },
        ),
        None => c.spans,
    }
}

/// The course once a run of the segment `id` has begun.
pub open spec fn begun(c: Course, id: Option<SegmentIdView>) -> Course {
    if id == c.open {
        Course { pen: Pen { run_width: 0, ..c.pen }, ..c }
    } else {
        Course {
            pen: Pen { run_width: 0, ..c.pen },
            spans: closed(c),
            open: id,
            start: c.boxes.len() as int,
            ..c
        }
    }
}

/// The course once the glyph of the next character of a run in `style` has
/// been placed.
pub open spec fn placed(c: Course, frame: Frame, glyph: Glyph, style: TextStyle) -> Course {
    if is_break(glyph.ch) {
        Course { pen: pen_after_break(c.pen, style, frame.box_height), steps: c.steps + 1, ..c }
    } else {
        let wrapped = wraps(c.pen, glyph.metrics.h_advance as int, style, frame.box_width);
        let pen = pen_before_glyph(
            c.pen,
            glyph.metrics.h_advance as int,
            style,
            frame.box_width,
            frame.box_height,
        );
        if pen.stopped {
            Course { pen, steps: c.steps + 1, ..c }
        } else {
            Course {
                pen: Pen { x: pen.x + advance_of(glyph), col: pen.col + 1, ..pen },
                boxes: c.boxes.push(box_at(pen, glyph, style, frame.color_space, wrapped)),
                steps: c.steps + (if wrapped {
                    2int
                } else {
                    1int
                }),
                ..c
            }
        }
    }
}

/// The course once a run in `style` has ended.
pub open spec fn ended(c: Course, style: TextStyle) -> Course {
    Course { pen: pen_after_run(c.pen, style), steps: c.steps + 1, ..c }
}

/// The course after one event.
pub open spec fn moved(c: Course, frame: Frame, event: Event) -> Course {
    match event {
        Event::Begin(id) => begun(c, id),
        Event::Place(glyph, style) => placed(c, frame, glyph, style),
        Event::End(style) => ended(c, style),
    }
}

/// The course after a sequence of events.
pub open spec fn after(start: Course, frame: Frame, events: Seq<Event>) -> Course
    decreases events.len(),
{
    if events.len() == 0 {
        start
    } else {
        moved(after(start, frame, events.drop_last()), frame, events.last())
    }
}

/// What a flow that ends on the course `c` gives: the boxes, the spans with
/// the span of the open segment closed, and the width and the height that
/// the text takes, in whole pixels.
pub open spec fn outcome(c: Course) -> (Seq<GlyphBox>, Seq<SpanRange>, u32, u32) {
    (c.boxes, closed(c), rounded(c.pen.total_width), rounded(c.pen.total_height))
}

/// The glyphs that a sequence of events placed, in order.
pub open spec fn glyphs_of(events: Seq<Event>) -> Seq<Glyph>
    decreases events.len(),
{
    if events.len() == 0 {
        Seq::empty()
    } else {
        match events.last() {
            Event::Place(glyph, _) => glyphs_of(events.drop_last()).push(glyph),
            _ => glyphs_of(events.drop_last()),
        }
    }
}

/// What a text asks of a flow, step by step: a run begins, a character,
/// given by its code, wants its glyph placed, a run ends.
pub enum Step {
    Begin(Option<SegmentIdView>),
    Letter(u32, TextStyle),
    End(TextStyle),
}

/// The step that an event answers.
pub open spec fn spelled(event: Event) -> Step {
    match event {
        Event::Begin(id) => Step::Begin(id),
        Event::Place(glyph, style) => Step::Letter(glyph.ch as u32, style),
        Event::End(style) => Step::End(style),
    }
}

/// The steps that a sequence of events answers.
pub open spec fn spelling(events: Seq<Event>) -> Seq<Step> {
    Seq::new(events.len(), |k: int| spelled(events[k]))
}

/// The steps of the first `n` characters of a run.
pub open spec fn letters(run: RunView, n: int) -> Seq<Step>
    decreases n,
{
    if n <= 0 {
        Seq::empty()
    } else {
        letters(run, n - 1).push(Step::Letter(run.text[n - 1] as u32, run.style))
    }
}

/// The steps of a run up to its character `n`.
pub open spec fn run_start(run: RunView, n: int) -> Seq<Step> {
    seq![Step::Begin(run.source_range.segment_id)] + letters(run, n)
}

/// The steps of a run: it begins, each character in turn, it ends.
pub open spec fn run_script(run: RunView) -> Seq<Step> {
    run_start(run, run.text.len() as int) + seq![Step::End(run.style)]
}

/// The steps of the first `r` runs.
pub open spec fn runs_script(runs: Seq<RunView>, r: int) -> Seq<Step>
    decreases r,
{
    if r <= 0 {
        Seq::empty()
    } else {
        runs_script(runs, r - 1) + run_script(runs[r - 1])
    }
}

/// The steps of the first `s` spans.
pub open spec fn spans_script(spans: Seq<SpanView>, s: int) -> Seq<Step>
    decreases s,
{
    if s <= 0 {
        Seq::empty()
    } else {
        spans_script(spans, s - 1) + runs_script(spans[s - 1].runs, spans[s - 1].runs.len() as int)
    }
}

/// The steps of a text: those of its spans, one after the other.
pub open spec fn script(spans: Seq<SpanView>) -> Seq<Step> {
    spans_script(spans, spans.len() as int)
}

/// What goes before a sequence goes before every sequence that this one
/// goes before.
pub proof fn lemma_prefix_chain(a: Seq<Step>, b: Seq<Step>, c: Seq<Step>)
    requires
        a.is_prefix_of(b),
        b.is_prefix_of(c),
    ensures
        a.is_prefix_of(c),
{
    assert forall|k: int| 0 <= k < a.len() implies a[k] == c[k] by {
        assert(a[k] == b.subrange(0, a.len() as int)[k]);
        assert(b[k] == c.subrange(0, b.len() as int)[k]);
    }
    assert(a =~= c.subrange(0, a.len() as int));
}

/// Sequences behind the same front keep their order.
pub proof fn lemma_prefix_behind(front: Seq<Step>, a: Seq<Step>, b: Seq<Step>)
    requires
        a.is_prefix_of(b),
    ensures
        (front + a).is_prefix_of(front + b),
{
    assert forall|k: int| 0 <= k < a.len() implies a[k] == b[k] by {
        assert(a[k] == b.subrange(0, a.len() as int)[k]);
    }
    assert(front + a =~= (front + b).subrange(0, (front + a).len() as int));
}

/// A sequence goes before itself with more behind it.
pub proof fn lemma_prefix_of_more(a: Seq<Step>, more: Seq<Step>)
    ensures
        a.is_prefix_of(a + more),
{
    assert(a =~= (a + more).subrange(0, a.len() as int));
}

/// The steps of the first runs go before those of more runs.
pub proof fn lemma_runs_prefix(runs: Seq<RunView>, r: int, n: int)
    requires
        0 <= r <= n,
    ensures
        runs_script(runs, r).is_prefix_of(runs_script(runs, n)),
    decreases n - r,
{
    if r < n {
        lemma_runs_prefix(runs, r, n - 1);
        lemma_prefix_of_more(runs_script(runs, n - 1), run_script(runs[n - 1]));
        lemma_prefix_chain(runs_script(runs, r), runs_script(runs, n - 1), runs_script(runs, n));
    } else {
        lemma_prefix_of_more(runs_script(runs, r), Seq::empty());
        assert(runs_script(runs, r) + Seq::<Step>::empty() =~= runs_script(runs, r));
    }
}

/// The steps of the first spans go before those of more spans.
pub proof fn lemma_spans_prefix(spans: Seq<SpanView>, s: int, n: int)
    requires
        0 <= s <= n,
    ensures
        spans_script(spans, s).is_prefix_of(spans_script(spans, n)),
    decreases n - s,
{
    if s < n {
        lemma_spans_prefix(spans, s, n - 1);
        lemma_prefix_of_more(
            spans_script(spans, n - 1),
            runs_script(spans[n - 1].runs, spans[n - 1].runs.len() as int),
        );
        lemma_prefix_chain(
            spans_script(spans, s),
            spans_script(spans, n - 1),
            spans_script(spans, n),
        );
    } else {
        lemma_prefix_of_more(spans_script(spans, s), Seq::empty());
        assert(spans_script(spans, s) + Seq::<Step>::empty() =~= spans_script(spans, s));
    }
}

/// The steps up to a place inside a run go before the steps of the text:
/// those of the first `s` spans, then of the first `r` runs of the next
/// span, then `part` of the run behind them.
pub proof fn lemma_place_in_run(spans: Seq<SpanView>, s: int, r: int, part: Seq<Step>)
    requires
        0 <= s < spans.len(),
        0 <= r < spans[s].runs.len(),
        part.is_prefix_of(run_script(spans[s].runs[r])),
    ensures
        (spans_script(spans, s) + (runs_script(spans[s].runs, r) + part)).is_prefix_of(
            script(spans),
        ),
{
    let before = spans_script(spans, s);
    let runs = spans[s].runs;
    let n = runs.len() as int;
    lemma_prefix_behind(runs_script(runs, r), part, run_script(runs[r]));
    lemma_runs_prefix(runs, r + 1, n);
    lemma_prefix_chain(
        runs_script(runs, r) + part,
        runs_script(runs, r + 1),
        runs_script(runs, n),
    );
    lemma_prefix_behind(before, runs_script(runs, r) + part, runs_script(runs, n));
    lemma_spans_prefix(spans, s + 1, spans.len() as int);
    lemma_prefix_chain(
        before + (runs_script(runs, r) + part),
        spans_script(spans, s + 1),
        script(spans),
    );
}

/// The steps up to the end of a run go before the steps of the text.
pub proof fn lemma_place_between_runs(spans: Seq<SpanView>, s: int, r: int)
    requires
        0 <= s < spans.len(),
        0 <= r <= spans[s].runs.len(),
    ensures
        (spans_script(spans, s) + runs_script(spans[s].runs, r)).is_prefix_of(script(spans)),
{
    let before = spans_script(spans, s);
    let runs = spans[s].runs;
    let n = runs.len() as int;
    lemma_runs_prefix(runs, r, n);
    lemma_prefix_behind(before, runs_script(runs, r), runs_script(runs, n));
    lemma_spans_prefix(spans, s + 1, spans.len() as int);
    lemma_prefix_chain(before + runs_script(runs, r), spans_script(spans, s + 1), script(spans));
}

/// The steps of a run up to its character `n`, one by one.
pub proof fn lemma_letters(run: RunView, n: int)
    requires
        0 <= n,
    ensures
        letters(run, n).len() == n,
        forall|k: int| 0 <= k < n ==> #[trigger] letters(run, n)[k] == Step::Letter(
            run.text[k] as u32,
            run.style,
        ),
        run_start(run, n).len() == n + 1,
        run_start(run, n)[0] == Step::Begin(run.source_range.segment_id),
        forall|k: int| 0 < k <= n ==> #[trigger] run_start(run, n)[k] == Step::Letter(
            run.text[k - 1] as u32,
            run.style,
        ),
    decreases n,
{
    if n > 0 {
        lemma_letters(run, n - 1);
        assert(letters(run, n) == letters(run, n - 1).push(
            Step::Letter(run.text[n - 1] as u32, run.style),
        ));
        assert forall|k: int| 0 <= k < n implies #[trigger] letters(run, n)[k] == Step::Letter(
            run.text[k] as u32,
            run.style,
        ) by {
            if k < n - 1 {
                assert(letters(run, n)[k] == letters(run, n - 1)[k]);
            }
        }
    }
    let a = letters(run, n);
    let first = seq![Step::Begin(run.source_range.segment_id)];
    assert(first.len() == 1);
    assert(a.len() == n);
    assert(run_start(run, n) == first + a);
    assert forall|k: int| 0 < k <= n implies #[trigger] run_start(run, n)[k] == Step::Letter(
        run.text[k - 1] as u32,
        run.style,
    ) by {
        assert((first + a)[k] == a[k - 1]);
    }
}

/// The steps up to a character of a run go before the steps of the run.
pub proof fn lemma_run_start_prefix(run: RunView, n: int)
    requires
        0 <= n <= run.text.len(),
    ensures
        run_start(run, n).is_prefix_of(run_script(run)),
{
    let part = run_start(run, n);
    let all = run_start(run, run.text.len() as int);
    let whole = run_script(run);
    lemma_letters(run, n);
    lemma_letters(run, run.text.len() as int);
    assert(whole == all + seq![Step::End(run.style)]);
    assert forall|k: int| 0 <= k < part.len() implies part[k] == whole[k] by {
        assert(whole[k] == all[k]);
    }
    assert(part =~= whole.subrange(0, n + 1));
}

/// The steps of the events with one more event are the steps of the
/// events with the step of that one.
pub proof fn lemma_spelling_push(events: Seq<Event>, event: Event)
    ensures
        spelling(events.push(event)) == spelling(events).push(spelled(event)),
        events.push(event).drop_last() == events,
{
    assert(spelling(events.push(event)) =~= spelling(events).push(spelled(event)));
    assert(events.push(event).drop_last() =~= events);
}

/// The steps of a run up to a character, with the step of that character,
/// are the steps up to the next one.
pub proof fn lemma_run_start_next(run: RunView, n: int)
    requires
        0 <= n < run.text.len(),
    ensures
        run_start(run, n).push(Step::Letter(run.text[n] as u32, run.style)) == run_start(
            run,
            n + 1,
        ),
{
    lemma_letters(run, n);
    lemma_letters(run, n + 1);
    let longer = run_start(run, n).push(Step::Letter(run.text[n] as u32, run.style));
    assert forall|k: int| 0 <= k < longer.len() implies longer[k] == run_start(run, n + 1)[k] by {
        if k <= n {
            assert(longer[k] == run_start(run, n)[k]);
        }
    }
    assert(longer =~= run_start(run, n + 1));
}

/// The steps of a run that has just begun.
pub proof fn lemma_run_start_first(run: RunView)
    ensures
        run_start(run, 0) == seq![Step::Begin(run.source_range.segment_id)],
{
    lemma_letters(run, 0);
    assert(run_start(run, 0) =~= seq![Step::Begin(run.source_range.segment_id)]);
}

} // verus!
