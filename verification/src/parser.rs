//! The markup language: segments, elements, and the grammar that turns one
//! into the other.

mod elements_to_spans;
pub mod failure;
pub mod grammar;
pub mod laws;
pub mod number;
pub mod offsets;
mod parse_elements;
pub mod scan;
mod segment;
mod source_range;
mod text_run;
mod text_span;
mod text_style;

pub use elements_to_spans::{
    elaborate, flush, fold_from, fold_node, prefabs_view, resolve, to_spans, Gathered, Resolution,
    StylePrefabs,
};
pub use parse_elements::{
    dialect, element_view, lemma_block_view, parse, parse_with, text_view, views, Element,
};
pub use segment::{clone_id, id_view, same_id, Segment, SegmentId, SegmentIdView};
pub use text_style::{
    apply_attribute, color_or, default_shadow, default_stroke, default_text_style, parse_color,
    parsed_color, same_text, shadow_of, stroke_of, styled, Color, ShadowStyle, StrokeStyle,
    TextStyle, CHANNEL_FOUR_FIFTHS, CHANNEL_HALF, CHANNEL_ONE, CHANNEL_ZERO,
};
pub use source_range::{SourceRange, SourceRangeView};
pub use text_run::{run_views, RunView, TextRun};
pub use text_span::{span_views, SpanId, SpanIdView, SpanView, TextSpan};
