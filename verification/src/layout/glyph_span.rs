use crate::parser::SegmentId;
use vstd::prelude::*;

verus! {

/// The glyphs that came from one segment: a range of indices into the
/// glyphs of a layout, the end not included.
#[derive(Debug, PartialEq, Eq)]
pub struct SegmentGlyphSpan {
    pub segment_id: SegmentId,
    pub glyph_range: std::ops::Range<usize>,
}

impl Clone for SegmentGlyphSpan {
    fn clone(&self) -> (r: Self)
        ensures
            r.segment_id@ == self.segment_id@,
            r.glyph_range == self.glyph_range,
    {
        SegmentGlyphSpan {
            segment_id: self.segment_id.clone(),
            glyph_range: self.glyph_range.start..self.glyph_range.end,
        }
    }
}

} // verus!
