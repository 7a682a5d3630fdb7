use super::text_run::{run_views, RunView, TextRun};
use vstd::prelude::*;

verus! {

/// An identifier for a span: a name or a number.
#[derive(Debug, Clone, PartialEq, Eq)]
pub enum SpanId {
    Tag(String),
    Lite(u32),
}

/// What a `SpanId` is in contracts.
pub enum SpanIdView {
    Tag(Seq<char>),
    Lite(u32),
}

impl View for SpanId {
    type V = SpanIdView;

    open spec fn view(&self) -> SpanIdView {
        match self {
            SpanId::Tag(name) => SpanIdView::Tag(name@),
            SpanId::Lite(n) => SpanIdView::Lite(*n),
        }
    }
}

/// Runs that belong together, as a paragraph does.
#[derive(Debug, Clone)]
pub struct TextSpan {
    pub runs: Vec<TextRun>,
    pub span_id: Option<SpanId>,
}

/// What a `TextSpan` is in contracts.
pub struct SpanView {
    pub runs: Seq<RunView>,
    pub span_id: Option<SpanIdView>,
}

impl View for TextSpan {
    type V = SpanView;

    open spec fn view(&self) -> SpanView {
        SpanView {
            runs: run_views(self.runs@),
            span_id: match self.span_id {
                Some(id) => Some(id@),
                None => None,
            },
        }
    }
}

/// The views of a sequence of spans.
pub open spec fn span_views(spans: Seq<TextSpan>) -> Seq<SpanView> {
    Seq::new(spans.len(), |k: int| spans[k]@)
}

impl Default for TextSpan {
    /// A span without runs.
    fn default() -> (r: Self)
        ensures
            r.runs@.len() == 0,
            r.span_id is None,
    {
        TextSpan { runs: Vec::new(), span_id: None }
    }
}

} // verus!
