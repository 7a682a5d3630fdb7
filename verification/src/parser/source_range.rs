use super::segment::{id_view, SegmentId, SegmentIdView};
use vstd::prelude::*;

verus! {

/// A range of bytes in the text of a segment.
#[derive(Debug, Clone, PartialEq, Eq)]
pub struct SourceRange {
    pub segment_id: Option<SegmentId>,
    pub start: usize,
    pub end: usize,
}

/// What a `SourceRange` is in contracts.
pub struct SourceRangeView {
    pub segment_id: Option<SegmentIdView>,
    pub start: nat,
    pub end: nat,
}

impl View for SourceRange {
    type V = SourceRangeView;

    open spec fn view(&self) -> SourceRangeView {
        SourceRangeView {
            segment_id: id_view(self.segment_id),
            start: self.start as nat,
            end: self.end as nat,
        }
    }
}

impl Default for SourceRange {
    /// The empty range at the start of a text without a segment.
    fn default() -> (r: Self)
        ensures
            r@ == (SourceRangeView { segment_id: None, start: 0, end: 0 }),
    {
        SourceRange { segment_id: None, start: 0, end: 0 }
    }
}

} // verus!
