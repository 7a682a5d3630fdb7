use super::source_range::{SourceRange, SourceRangeView};
use super::text_style::{default_text_style, TextStyle};
use vstd::prelude::*;

verus! {

/// A stretch of text in one style, with the range of the source that it was
/// taken from.
#[derive(Debug, Clone)]
pub struct TextRun {
    pub text: String,
    pub style: TextStyle,
    pub source_range: SourceRange,
}

/// What a `TextRun` is in contracts.
pub struct RunView {
    pub text: Seq<char>,
    pub style: TextStyle,
    pub source_range: SourceRangeView,
}

impl View for TextRun {
    type V = RunView;

    open spec fn view(&self) -> RunView {
        RunView { text: self.text@, style: self.style, source_range: self.source_range@ }
    }
}

/// The views of a sequence of runs.
pub open spec fn run_views(runs: Seq<TextRun>) -> Seq<RunView> {
    Seq::new(runs.len(), |k: int| runs[k]@)
}

impl Default for TextRun {
    /// An empty run in the default style.
    fn default() -> (r: Self)
        ensures
            r.text@.len() == 0,
            r.style == default_text_style(),
            r.source_range@ == (SourceRangeView { segment_id: None, start: 0, end: 0 }),
    {
        TextRun {
            text: String::new(),
            style: TextStyle::default(),
            source_range: SourceRange::default(),
        }
    }
}

} // verus!
