//! The flow of glyphs into a box: a pen that moves along lines, wraps at
//! the right edge and stops at the lower edge.
//!
//! The pen moves in the units of the atlas: thousandths of a texel of a
//! glyph rasterized at `FONT_SIZE`. A run drawn at `font_size` shows them
//! scaled by `font_size / FONT_SIZE`, so a length `l` of the pen reaches the
//! length `b` of the box where `l * font_size >= FONT_SIZE * UNIT * b`.

use super::color_space::ColorSpace;
use super::course::{begun, closed, ended, outcome, placed, start_course, Course, Frame};
use super::glyph_span::SegmentGlyphSpan;
use super::layout_style::LayoutStyle;
use crate::huozi::cache::Glyph;
use crate::parser::{clone_id, id_view, same_id, SegmentId, SegmentIdView, TextStyle};
use vstd::prelude::*;

verus! {

/// One em of the pen, in texels: a length counted in thousandths of an em
/// is this many times as long in thousandths of a texel.
pub const EM: i128 = 96;

/// The length of the pen that one pixel of a run at the size of one
/// thousandth of a pixel takes: `FONT_SIZE * UNIT`.
pub const REACH: i128 = 96_000;

/// The largest count that a pen position is allowed to come from: glyphs
/// and line breaks of one layout.
pub const MAX_STEPS: i128 = 0xffff_ffff;

/// A placed glyph: where the pen stood, what it advanced by, and the cell
/// of the line grid that the glyph takes. From a box, its glyph and its
/// style the quads of the glyph are drawn.
#[derive(Debug, Clone, Copy, PartialEq, Eq)]
pub struct GlyphBox {
    pub glyph: Glyph,
    pub style: TextStyle,
    pub color_space: ColorSpace,
    /// The pen before the glyph, in thousandths of a texel.
    pub pen_x: i128,
    pub pen_y: i128,
    /// What the pen advanced by, in thousandths of a texel.
    pub advance: i32,
    /// Whether the glyph is stretched to fill its advance, as dashes are.
    pub fitted: bool,
    /// Whether the glyph starts a line because it did not fit the last one.
    pub wrapped: bool,
    /// Place of the glyph in its line.
    pub col: u32,
    /// Line of the glyph.
    pub row: u32,
    /// The pen before the glyph, in whole texels.
    pub x: u32,
    pub y: u32,
    /// The advance, in whole texels.
    pub width: u32,
    /// The height of the line, in whole texels.
    pub height: u32,
}

/// The advance that a dash is stretched to, in thousandths of a texel;
/// `None` for every other character.
pub open spec fn dash_advance(ch: char) -> Option<i32> {
    if ch == '\u{2014}' || ch == '\u{2015}' {
        Some(96_000i32)
    } else if ch == '\u{2e3a}' {
        Some(192_000i32)
    } else if ch == '\u{2013}' {
        Some(48_000i32)
    } else if ch == '\u{2e3b}' {
        Some(288_000i32)
    } else {
        None
    }
}

/// Whether `ch` breaks the line.
pub open spec fn is_break(ch: char) -> bool {
    ch == '\n' || ch == '\r'
}

/// A count of thousandths as a whole number, halves rounded up, kept
/// between zero and the largest `u32`.
pub open spec fn rounded(v: int) -> u32 {
    if v < 0 {
        0
    } else if (v + 500) / 1000 > u32::MAX {
        u32::MAX
    } else {
        ((v + 500) / 1000) as u32
    }
}

/// A length of the pen as shown at `font_size`, in thousandths of a pixel.
pub open spec fn shown(length: int, font_size: int) -> int {
    (length * font_size) / (REACH as int)
}

/// Whether a length of the pen, shown at `font_size`, reaches the side
/// `side` of the box.
pub open spec fn reaches(length: int, font_size: int, side: int) -> bool {
    length * font_size >= REACH * side
}

/// The height of a line of `style`, in thousandths of a texel.
pub open spec fn line_step(style: TextStyle) -> int {
    EM * style.line_height
}

/// The pen and what it has measured.
pub struct Pen {
    pub x: int,
    pub y: int,
    pub col: int,
    pub row: int,
    /// Width of the run so far, in thousandths of a pixel.
    pub run_width: int,
    pub total_width: int,
    pub total_height: int,
    /// Whether the lower edge of the box has been reached.
    pub stopped: bool,
}

/// The pen after the line break `ch` in `style`: back at the indent, one
/// line down; stopped where that line starts at or below the lower edge.
pub open spec fn pen_after_break(pen: Pen, style: TextStyle, box_height: int) -> Pen {
    let y = pen.y + line_step(style);
    Pen {
        x: EM * style.indent,
        y,
        col: 0,
        row: pen.row + 1,
        run_width: if shown(pen.x, style.font_size as int) > pen.run_width {
            shown(pen.x, style.font_size as int)
        } else {
            pen.run_width
        },
        stopped: reaches(y, style.font_size as int, box_height),
        ..pen
    }
}

/// Whether a glyph with the font's advance `advance` wraps: shown in
/// `style`, it would end at or beyond the right edge.
pub open spec fn wraps(pen: Pen, advance: int, style: TextStyle, box_width: int) -> bool {
    reaches(pen.x + advance, style.font_size as int, box_width)
}

/// The pen where the next glyph is placed: as it is, or after a wrap at the
/// start of the next line; stopped where that line starts at or below the
/// lower edge.
pub open spec fn pen_before_glyph(
    pen: Pen,
    advance: int,
    style: TextStyle,
    box_width: int,
    box_height: int,
) -> Pen {
    if wraps(pen, advance, style, box_width) {
        let y = pen.y + line_step(style);
        Pen {
            x: 0,
            y,
            col: 0,
            row: pen.row + 1,
            run_width: box_width,
            stopped: reaches(y, style.font_size as int, box_height),
            ..pen
        }
    } else {
        pen
    }
}

/// The advance of a glyph: what a dash is stretched to, or the font's own.
pub open spec fn advance_of(glyph: Glyph) -> i32 {
    match dash_advance(glyph.ch) {
        Some(a) => a,
        None => glyph.metrics.h_advance,
    }
}

/// The box of a glyph placed at `pen`.
pub open spec fn box_at(
    pen: Pen,
    glyph: Glyph,
    style: TextStyle,
    color_space: ColorSpace,
    wrapped: bool,
) -> GlyphBox {
    GlyphBox {
        glyph,
        style,
        color_space,
        wrapped,
        pen_x: pen.x as i128,
        pen_y: pen.y as i128,
        advance: advance_of(glyph),
        fitted: dash_advance(glyph.ch) is Some,
        col: pen.col as u32,
        row: pen.row as u32,
        x: rounded(pen.x),
        y: rounded(pen.y),
        width: rounded(advance_of(glyph) as int),
        height: rounded(line_step(style)),
    }
}

/// The pen once a run in `style` has ended: the run's width and height,
/// as shown, are taken into the totals.
pub open spec fn pen_after_run(pen: Pen, style: TextStyle) -> Pen {
    let width = if shown(pen.x, style.font_size as int) > pen.run_width {
        shown(pen.x, style.font_size as int)
    } else {
        pen.run_width
    };
    Pen {
        run_width: width,
        total_width: if width > pen.total_width {
            width
        } else {
            pen.total_width
        },
        total_height: pen.total_height + shown(pen.y + line_step(style), style.font_size as int),
        ..pen
    }
}

/// A span as contracts see it: the segment, and the range of glyphs.
pub struct SpanRange {
    pub segment_id: SegmentIdView,
    pub start: int,
    pub end: int,
}

/// The spans as contracts see them.
pub open spec fn span_ranges(spans: Seq<SegmentGlyphSpan>) -> Seq<SpanRange> {
    Seq::new(
        spans.len(),
        |k: int|
            SpanRange {
                segment_id: spans[k].segment_id@,
                start: spans[k].glyph_range.start as int,
                end: spans[k].glyph_range.end as int,
            },
    )
}

/// Whether the spans follow each other without a gap, from the first glyph
/// up to the glyph `end`: each starts where the one before it ends.
pub open spec fn tiles(spans: Seq<SpanRange>, end: int) -> bool {
    &&& forall|k: int| 0 <= k < spans.len() ==> (#[trigger] spans[k]).start <= spans[k].end
    &&& forall|j: int, k: int|
        0 <= j && j + 1 == k && k < spans.len() ==> (#[trigger] spans[j]).end == (
        #[trigger] spans[k]).start
    &&& spans.len() > 0 ==> spans[0].start == 0
    &&& end == (if spans.len() == 0 {
        0
    } else {
        spans.last().end
    })
}

/// Whether the boxes on one line follow each other from left to right
/// wherever the advance is not negative.
pub open spec fn advancing(boxes: Seq<GlyphBox>) -> bool {
    forall|i: int, j: int|
        0 <= i && i + 1 == j && j < boxes.len() && (#[trigger] boxes[i]).row == (
        #[trigger] boxes[j]).row && boxes[i].advance >= 0 ==> boxes[j].pen_x == boxes[i].pen_x
            + boxes[i].advance && boxes[j].x >= boxes[i].x
}

/// Whether a box respects the edges: a glyph that wrapped stands at the
/// start of a line that begins above the lower edge; any other glyph, with
/// the advance that its font gives it, ends before the right edge.
pub open spec fn respects(b: GlyphBox, box_width: int, box_height: int) -> bool {
    if b.wrapped {
        b.pen_x == 0 && b.col == 0 && !reaches(b.pen_y as int, b.style.font_size as int, box_height)
    } else {
        !reaches(b.pen_x + b.glyph.metrics.h_advance, b.style.font_size as int, box_width)
    }
}

/// The flow of one layout: the box, the pen, the glyphs placed so far and
/// the spans closed so far.
pub struct Flow {
    pub box_width: i32,
    pub box_height: i32,
    pub color_space: ColorSpace,
    pub pen_x: i128,
    pub pen_y: i128,
    pub col: u32,
    pub row: u32,
    pub run_width: i128,
    pub total_width: i128,
    pub total_height: i128,
    pub stopped: bool,
    pub boxes: Vec<GlyphBox>,
    pub spans: Vec<SegmentGlyphSpan>,
    /// The segment of the run in hand, and the glyph at which its span
    /// starts.
    pub open_segment: Option<SegmentId>,
    pub open_start: usize,
    /// Glyphs placed, lines broken and runs ended so far.
    pub steps: u32,
    /// Glyphs placed while no segment was open.
    pub orphans: Ghost<nat>,
}

impl Flow {
    /// The pen of the flow.
    pub open spec fn pen(&self) -> Pen {
        Pen {
            x: self.pen_x as int,
            y: self.pen_y as int,
            col: self.col as int,
            row: self.row as int,
            run_width: self.run_width as int,
            total_width: self.total_width as int,
            total_height: self.total_height as int,
            stopped: self.stopped,
        }
    }

    /// What the flow has reached.
    pub open spec fn course(&self) -> Course {
        Course {
            pen: self.pen(),
            boxes: self.boxes@,
            spans: span_ranges(self.spans@),
            open: id_view(self.open_segment),
            start: self.open_start as int,
            steps: self.steps as int,
        }
    }

    /// The box that the flow fills.
    pub open spec fn frame(&self) -> Frame {
        Frame {
            box_width: self.box_width as int,
            box_height: self.box_height as int,
            color_space: self.color_space,
        }
    }

    /// The spans with the span of the open segment closed at the last
    /// glyph.
    pub open spec fn closed_spans(&self) -> Seq<SpanRange> {
        match self.open_segment {
            Some(id) => span_ranges(self.spans@).push(
                SpanRange {
                    segment_id: id@,
                    start: self.open_start as int,
                    end: self.boxes.len() as int,
                },
            ),
            None => span_ranges(self.spans@),
        }
    }

    /// Whether the numbers of the flow are within the limits of the
    /// arithmetic, the boxes in order, and the spans in step with them.
    pub open spec fn wf(&self) -> bool {
        &&& -0x1_0000_0000_0000 - self.steps * 0x8000_0000 <= self.pen_x <= 0x1_0000_0000_0000
            + self.steps * 0x8000_0000
        &&& -self.steps * 0x1_0000_0000_0000 <= self.pen_y <= self.steps * 0x1_0000_0000_0000
        &&& self.col <= self.steps
        &&& self.row <= self.steps
        &&& self.boxes.len() <= self.steps
        &&& -0x1_0000_0000_0000_0000_0000_0000 <= self.run_width
            <= 0x1_0000_0000_0000_0000_0000_0000
        &&& -0x1_0000_0000_0000_0000_0000_0000 <= self.total_width
            <= 0x1_0000_0000_0000_0000_0000_0000
        &&& -self.steps * 0x6000_0000_0000_0000_0000_0000 <= self.total_height <= self.steps
            * 0x6000_0000_0000_0000_0000_0000
        &&& self.open_start <= self.boxes.len()
        &&& self.boxes.len() > 0 ==> self.boxes@.last().row <= self.row && (self.boxes@.last().row
            == self.row ==> self.pen_x == self.boxes@.last().pen_x + self.boxes@.last().advance)
        &&& advancing(self.boxes@)
        &&& self.boxes.len() > 0 ==> self.boxes@.last().x == rounded(
            self.boxes@.last().pen_x as int,
        )
        &&& forall|i: int|
            0 <= i < self.boxes.len() ==> respects(
                #[trigger] self.boxes[i],
                self.box_width as int,
                self.box_height as int,
            )
        &&& self.orphans@ == 0 ==> tiles(self.closed_spans(), self.boxes.len() as int)
    }

    /// A flow into the box of `layout_style`, with the pen at the indent
    /// `first_indent`, which is counted in thousandths of an em.
    pub fn new(layout_style: &LayoutStyle, color_space: ColorSpace, first_indent: i32) -> (r: Flow)
        ensures
            r.wf(),
            r.box_width == layout_style.box_width,
            r.box_height == layout_style.box_height,
            r.color_space == color_space,
            r.pen() == (Pen {
                x: EM * first_indent,
                y: 0,
                col: 0,
                row: 0,
                run_width: 0,
                total_width: 0,
                total_height: 0,
                stopped: false,
            }),
            r.boxes@.len() == 0,
            r.spans@.len() == 0,
            r.open_segment is None,
            r.steps == 0,
            r.orphans@ == 0,
            r.course() == start_course(first_indent as int),
    {
        let r = Flow {
            box_width: layout_style.box_width,
            box_height: layout_style.box_height,
            color_space,
            pen_x: EM * (first_indent as i128),
            pen_y: 0,
            col: 0,
            row: 0,
            run_width: 0,
            total_width: 0,
            total_height: 0,
            stopped: false,
            boxes: Vec::new(),
            spans: Vec::new(),
            open_segment: None,
            open_start: 0,
            steps: 0,
            orphans: Ghost(0),
        };
        assert(span_ranges(r.spans@) =~= Seq::<SpanRange>::empty());
        r
    }

    /// Starts a run of the segment `segment_id`. Where the segment differs
    /// from the one of the run before, the span of that one is closed at
    /// the last glyph, and a new span starts behind it.
    pub fn begin_run(&mut self, segment_id: &Option<SegmentId>)
        requires
            old(self).wf(),
        ensures
            final(self).wf(),
            final(self).pen() == (Pen { run_width: 0, ..old(self).pen() }),
            final(self).boxes@ == old(self).boxes@,
            final(self).steps == old(self).steps,
            final(self).orphans == old(self).orphans,
            final(self).box_width == old(self).box_width,
            final(self).box_height == old(self).box_height,
            final(self).color_space == old(self).color_space,
            id_view(final(self).open_segment) == id_view(*segment_id),
            final(self).course() == begun(old(self).course(), id_view(*segment_id)),
            id_view(*segment_id) == id_view(old(self).open_segment) ==> {
                &&& final(self).spans@ == old(self).spans@
                &&& final(self).open_start == old(self).open_start
            },
            id_view(*segment_id) != id_view(old(self).open_segment) ==> {
                &&& final(self).open_start == old(self).boxes.len()
                &&& span_ranges(final(self).spans@) == old(self).closed_spans()
            },
    {
        self.run_width = 0;
        if !same_id(segment_id, &self.open_segment) {
            let ghost before = span_ranges(self.spans@);
            match &self.open_segment {
                Some(id) => {
                    let span = SegmentGlyphSpan {
                        segment_id: id.clone(),
                        glyph_range: self.open_start..self.boxes.len(),
                    };
                    self.spans.push(span);
                    assert(span_ranges(self.spans@) =~= before.push(
                        SpanRange {
                            segment_id: id@,
                            start: self.open_start as int,
                            end: self.boxes.len() as int,
                        },
                    ));
                },
                None => {},
            }
            self.open_segment = clone_id(segment_id);
            self.open_start = self.boxes.len();
            proof {
                if self.orphans@ == 0 {
                    let closed = span_ranges(self.spans@);
                    assert(tiles(closed, self.boxes.len() as int));
                    if self.open_segment is Some {
                        let all = self.closed_spans();
                        assert forall|k: int| 0 <= k < all.len() implies (#[trigger] all[k]).start
                            <= all[k].end by {
                            if k < closed.len() {
                                assert(all[k] == closed[k]);
                            }
                        }
                        assert forall|j: int, k: int|
                            0 <= j && j + 1 == k && k < all.len() implies (#[trigger] all[j]).end
                            == (#[trigger] all[k]).start by {
                            assert(all[j] == closed[j]);
                            if k < closed.len() {
                                assert(all[k] == closed[k]);
                            }
                        }
                        if closed.len() > 0 {
                            assert(all[0] == closed[0]);
                        }
                    }
                }
            }
        }
    }
}

/// Whether a length of the pen, shown at `font_size`, reaches the side
/// `side` of the box.
pub fn reaches_side(length: i128, font_size: i32, side: i32) -> (r: bool)
    requires
        -0x1_0000_0000_0000_0000_0000 <= length <= 0x1_0000_0000_0000_0000_0000,
    ensures
        r == reaches(length as int, font_size as int, side as int),
{
    let size = font_size as i128;
    assert(-0x1_0000_0000_0000_0000_0000 * 0x8000_0000 <= length * size
        <= 0x1_0000_0000_0000_0000_0000 * 0x8000_0000) by (nonlinear_arith)
        requires
            -0x1_0000_0000_0000_0000_0000 <= length <= 0x1_0000_0000_0000_0000_0000,
            -0x8000_0000 <= size <= 0x8000_0000,
    ;
    length * size >= REACH * (side as i128)
}

/// A length of the pen as shown at `font_size`, in thousandths of a pixel.
pub fn show(length: i128, font_size: i32) -> (r: i128)
    requires
        -0x1_0000_0000_0000_0000_0000 <= length <= 0x1_0000_0000_0000_0000_0000,
    ensures
        r == shown(length as int, font_size as int),
        -0x1_0000_0000_0000_0000_0000 * 0x8000 <= r <= 0x1_0000_0000_0000_0000_0000 * 0x8000,
{
    let size = font_size as i128;
    assert(-0x1_0000_0000_0000_0000_0000 * 0x8000_0000 <= length * size
        <= 0x1_0000_0000_0000_0000_0000 * 0x8000_0000) by (nonlinear_arith)
        requires
            -0x1_0000_0000_0000_0000_0000 <= length <= 0x1_0000_0000_0000_0000_0000,
            -0x8000_0000 <= size <= 0x8000_0000,
    ;
    let product = length * size;
    if product >= 0 {
        product / REACH
    } else {
        -((-product + (REACH - 1)) / REACH)
    }
}

/// A count of thousandths as a whole number, halves rounded up, kept
/// between zero and the largest `u32`.
pub fn round(v: i128) -> (r: u32)
    requires
        v <= 0x7000_0000_0000_0000_0000_0000_0000_0000,
    ensures
        r == rounded(v as int),
{
    if v < 0 {
        0
    } else {
        let whole = (v + 500) / 1000;
        if whole > u32::MAX as i128 {
            u32::MAX
        } else {
            whole as u32
        }
    }
}

/// The advance that a dash is stretched to.
pub fn dash(ch: char) -> (r: Option<i32>)
    ensures
        r == dash_advance(ch),
{
    if ch == '\u{2014}' || ch == '\u{2015}' {
        Some(96_000)
    } else if ch == '\u{2e3a}' {
        Some(192_000)
    } else if ch == '\u{2013}' {
        Some(48_000)
    } else if ch == '\u{2e3b}' {
        Some(288_000)
    } else {
        None
    }
}

/// Rounding keeps the order.
pub proof fn lemma_rounded_monotone(a: int, b: int)
    requires
        a <= b,
    ensures
        rounded(a) <= rounded(b),
{
}

/// Boxes in order stay in order when a box is added that, if it stands on
/// the line of the last one, stands where the last one's advance ends.
pub proof fn lemma_advancing_push(boxes: Seq<GlyphBox>, placed: GlyphBox)
    requires
        advancing(boxes),
        boxes.len() > 0 && boxes.last().row == placed.row ==> placed.pen_x == boxes.last().pen_x
            + boxes.last().advance,
        boxes.len() > 0 ==> boxes.last().x == rounded(boxes.last().pen_x as int),
        placed.x == rounded(placed.pen_x as int),
    ensures
        advancing(boxes.push(placed)),
{
    let now = boxes.push(placed);
    assert forall|i: int, j: int|
        0 <= i && i + 1 == j && j < now.len() && (#[trigger] now[i]).row == (#[trigger] now[j]).row
            && now[i].advance >= 0 implies now[j].pen_x == now[i].pen_x + now[i].advance
        && now[j].x >= now[i].x by {
        if j < boxes.len() {
            assert(now[i] == boxes[i]);
            assert(now[j] == boxes[j]);
        } else {
            assert(now[i] == boxes.last());
            lemma_rounded_monotone(now[i].pen_x as int, now[j].pen_x as int);
        }
    }
}

impl Flow {
    /// Moves the pen to the start of the next line, at `x`.
    fn break_line(&mut self, x: i128, style: &TextStyle) -> (stopped: bool)
        requires
            old(self).wf(),
            old(self).steps < MAX_STEPS,
            -0x1_0000_0000_0000 <= x <= 0x1_0000_0000_0000,
        ensures
            final(self).wf(),
            final(self).steps == old(self).steps + 1,
            final(self).pen() == (Pen {
                x: x as int,
                y: old(self).pen_y + line_step(*style),
                col: 0,
                row: old(self).row + 1,
                stopped: reaches(
                    old(self).pen_y + line_step(*style),
                    style.font_size as int,
                    old(self).box_height as int,
                ),
                ..old(self).pen()
            }),
            stopped == final(self).stopped,
            final(self).boxes@ == old(self).boxes@,
            final(self).spans@ == old(self).spans@,
            final(self).open_segment == old(self).open_segment,
            final(self).open_start == old(self).open_start,
            final(self).orphans == old(self).orphans,
            final(self).box_width == old(self).box_width,
            final(self).box_height == old(self).box_height,
            final(self).color_space == old(self).color_space,
    {
        self.pen_x = x;
        self.pen_y = self.pen_y + EM * (style.line_height as i128);
        self.col = 0;
        self.row = self.row + 1;
        self.steps = self.steps + 1;
        self.stopped = reaches_side(self.pen_y, style.font_size, self.box_height);
        self.stopped
    }

    /// Puts the box of a glyph at the pen and advances the pen.
    fn emit(&mut self, glyph: Glyph, style: &TextStyle, wrapped: bool)
        requires
            old(self).wf(),
            old(self).steps < MAX_STEPS,
            respects(
                box_at(old(self).pen(), glyph, *style, old(self).color_space, wrapped),
                old(self).box_width as int,
                old(self).box_height as int,
            ),
        ensures
            final(self).wf(),
            final(self).steps == old(self).steps + 1,
            final(self).pen() == (Pen {
                x: old(self).pen_x + advance_of(glyph),
                col: old(self).col + 1,
                ..old(self).pen()
            }),
            final(self).boxes@ == old(self).boxes@.push(
                box_at(old(self).pen(), glyph, *style, old(self).color_space, wrapped),
            ),
            final(self).orphans@ == old(self).orphans@ + (if old(self).open_segment is None {
                1nat
            } else {
                0nat
            }),
            final(self).spans@ == old(self).spans@,
            final(self).open_segment == old(self).open_segment,
            final(self).open_start == old(self).open_start,
            final(self).box_width == old(self).box_width,
            final(self).box_height == old(self).box_height,
            final(self).color_space == old(self).color_space,
    {
        let stretched = dash(glyph.ch);
        let advance = match stretched {
            Some(a) => a,
            None => glyph.metrics.h_advance,
        };
        let placed = GlyphBox {
            glyph,
            style: *style,
            color_space: self.color_space,
            pen_x: self.pen_x,
            pen_y: self.pen_y,
            advance,
            fitted: stretched.is_some(),
            wrapped,
            col: self.col,
            row: self.row,
            x: round(self.pen_x),
            y: round(self.pen_y),
            width: round(advance as i128),
            height: round(EM * (style.line_height as i128)),
        };
        let ghost before = self.boxes@;
        let ghost spans_before = self.closed_spans();
        self.boxes.push(placed);
        self.pen_x = self.pen_x + advance as i128;
        self.col = self.col + 1;
        self.steps = self.steps + 1;
        proof {
            if self.open_segment is None {
                self.orphans = Ghost((self.orphans@ + 1) as nat);
            }
            lemma_advancing_push(before, placed);
            assert forall|i: int| 0 <= i < self.boxes.len() implies respects(
                #[trigger] self.boxes[i],
                self.box_width as int,
                self.box_height as int,
            ) by {
                if i < before.len() {
                    assert(self.boxes[i] == before[i]);
                }
            }
            if self.orphans@ == 0 {
                let now = self.closed_spans();
                assert(now.len() == spans_before.len());
                assert forall|k: int| 0 <= k < now.len() implies (#[trigger] now[k]).start
                    == spans_before[k].start && (if k + 1 < now.len() {
                    now[k] == spans_before[k]
                } else {
                    now[k].end == self.boxes.len()
                }) by {}
                assert forall|j: int, k: int|
                    0 <= j && j + 1 == k && k < now.len() implies (#[trigger] now[j]).end == (
                #[trigger] now[k]).start by {
                    assert(now[j] == spans_before[j]);
                    assert(now[k].start == spans_before[k].start);
                }
            }
        }
    }

    /// Places the glyph of the next character of a run in `style`.
    ///
    /// A line break moves the pen to the indent of the next line. Any other
    /// glyph wraps to the start of the next line if, with the advance that
    /// its font gives it, it would end at or beyond the right edge; then it
    /// takes its box at the pen, and the pen advances. The flow stops, and
    /// places nothing, where a new line would start at or below the lower
    /// edge. Gives back whether the flow goes on.
    pub fn place(&mut self, glyph: Glyph, style: &TextStyle) -> (r: bool)
        requires
            old(self).wf(),
            !old(self).stopped,
            old(self).steps < MAX_STEPS - 1,
        ensures
            final(self).wf(),
            r == !final(self).stopped,
            old(self).steps < final(self).steps <= old(self).steps + 2,
            final(self).spans@ == old(self).spans@,
            final(self).open_segment == old(self).open_segment,
            final(self).open_start == old(self).open_start,
            final(self).box_width == old(self).box_width,
            final(self).box_height == old(self).box_height,
            final(self).color_space == old(self).color_space,
            final(self).course() == placed(old(self).course(), old(self).frame(), glyph, *style),
            is_break(glyph.ch) ==> {
                &&& final(self).pen() == pen_after_break(
                    old(self).pen(),
                    *style,
                    old(self).box_height as int,
                )
                &&& final(self).boxes@ == old(self).boxes@
                &&& final(self).orphans == old(self).orphans
            },
            !is_break(glyph.ch) ==> {
                let pen = pen_before_glyph(
                    old(self).pen(),
                    glyph.metrics.h_advance as int,
                    *style,
                    old(self).box_width as int,
                    old(self).box_height as int,
                );
                if pen.stopped {
                    &&& final(self).pen() == pen
                    &&& final(self).boxes@ == old(self).boxes@
                    &&& final(self).orphans == old(self).orphans
                } else {
                    &&& final(self).pen() == (Pen {
                        x: pen.x + advance_of(glyph),
                        col: pen.col + 1,
                        ..pen
                    })
                    &&& final(self).boxes@ == old(self).boxes@.push(
                        box_at(
                            pen,
                            glyph,
                            *style,
                            old(self).color_space,
                            wraps(
                                old(self).pen(),
                                glyph.metrics.h_advance as int,
                                *style,
                                old(self).box_width as int,
                            ),
                        ),
                    )
                    &&& final(self).orphans@ == old(self).orphans@ + (if old(
                        self,
                    ).open_segment is None {
                        1nat
                    } else {
                        0nat
                    })
                }
            },
    {
        if glyph.ch == '\n' || glyph.ch == '\r' {
            let width = show(self.pen_x, style.font_size);
            if width > self.run_width {
                self.run_width = width;
            }
            let stopped = self.break_line(EM * (style.indent as i128), style);
            return !stopped;
        }
        let wrapped = reaches_side(
            self.pen_x + glyph.metrics.h_advance as i128,
            style.font_size,
            self.box_width,
        );
        if wrapped {
            self.run_width = self.box_width as i128;
            if self.break_line(0, style) {
                return false;
            }
        }
        self.emit(glyph, style, wrapped);
        true
    }

    /// Ends a run in `style`: the width that the run reached and the height
    /// down to the foot of its last line, as shown, go into the totals.
    pub fn end_run(&mut self, style: &TextStyle)
        requires
            old(self).wf(),
            old(self).steps < MAX_STEPS,
        ensures
            final(self).wf(),
            final(self).steps == old(self).steps + 1,
            final(self).pen() == pen_after_run(old(self).pen(), *style),
            final(self).course() == ended(old(self).course(), *style),
            final(self).boxes@ == old(self).boxes@,
            final(self).spans@ == old(self).spans@,
            final(self).open_segment == old(self).open_segment,
            final(self).open_start == old(self).open_start,
            final(self).orphans == old(self).orphans,
            final(self).box_width == old(self).box_width,
            final(self).box_height == old(self).box_height,
            final(self).color_space == old(self).color_space,
    {
        let width = show(self.pen_x, style.font_size);
        if width > self.run_width {
            self.run_width = width;
        }
        if self.run_width > self.total_width {
            self.total_width = self.run_width;
        }
        let height = show(self.pen_y + EM * (style.line_height as i128), style.font_size);
        proof {
            let length = self.pen_y + EM * (style.line_height as i128);
            let size = style.font_size as int;
            let bound = (self.steps + 1) * 0x1_0000_0000_0000;
            assert(-bound * 0x8000_0000 <= length * size <= bound * 0x8000_0000)
                by (nonlinear_arith)
                requires
                    -bound <= length <= bound,
                    -0x8000_0000 <= size <= 0x8000_0000,
                    bound >= 0,
            ;
        }
        self.total_height = self.total_height + height;
        self.steps = self.steps + 1;
    }

    /// Ends the flow: the span of the open segment is closed at the last
    /// glyph. Gives the boxes of the glyphs, the spans of the segments, and
    /// the width and the height that the text takes, in whole pixels.
    pub fn finish(self) -> (r: (Vec<GlyphBox>, Vec<SegmentGlyphSpan>, u32, u32))
        requires
            self.wf(),
        ensures
            r.0@ == self.boxes@,
            span_ranges(r.1@) == self.closed_spans(),
            r.2 == rounded(self.total_width as int),
            r.3 == rounded(self.total_height as int),
            (r.0@, span_ranges(r.1@), r.2, r.3) == outcome(self.course()),
            self.orphans@ == 0 ==> tiles(span_ranges(r.1@), r.0@.len() as int),
            advancing(r.0@),
            forall|i: int|
                0 <= i < r.0@.len() ==> respects(
                    #[trigger] r.0@[i],
                    self.box_width as int,
                    self.box_height as int,
                ),
    {
        let mut flow = self;
        let ghost before = span_ranges(flow.spans@);
        match &flow.open_segment {
            Some(id) => {
                let span = SegmentGlyphSpan {
                    segment_id: id.clone(),
                    glyph_range: flow.open_start..flow.boxes.len(),
                };
                flow.spans.push(span);
                assert(span_ranges(flow.spans@) =~= before.push(
                    SpanRange {
                        segment_id: id@,
                        start: flow.open_start as int,
                        end: flow.boxes.len() as int,
                    },
                ));
            },
            None => {},
        }
        let width = round(flow.total_width);
        let height = round(flow.total_height);
        (flow.boxes, flow.spans, width, height)
    }
}

} // verus!
