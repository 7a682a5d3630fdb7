//! What the atlas asks of a font: metrics and coverage bitmaps of glyphs,
//! rasterized at one size.

use vstd::prelude::*;

verus! {

/// The measures of a rasterized glyph. Advances, bounds and scales are
/// counted in thousandths; the bounds are relative to the origin on the
/// baseline.
#[derive(Debug, Clone, Copy, PartialEq, Eq)]
pub struct GlyphMetrics {
    /// Width of the bitmap, in pixels.
    pub width: u32,
    /// Height of the bitmap, in pixels.
    pub height: u32,
    pub h_advance: i32,
    pub v_advance: i32,
    pub x_min: i32,
    pub y_min: i32,
    pub x_max: i32,
    pub y_max: i32,
    /// The factor by which the glyph was shrunk to fit its cell, where it
    /// was: the glyph's own width is `width / x_scale`.
    pub x_scale: Option<i32>,
    /// The same for the height.
    pub y_scale: Option<i32>,
}

impl Default for GlyphMetrics {
    /// The measures of a glyph that takes no room.
    fn default() -> (r: Self)
        ensures
            r == (GlyphMetrics {
                width: 0,
                height: 0,
                h_advance: 0,
                v_advance: 0,
                x_min: 0,
                y_min: 0,
                x_max: 0,
                y_max: 0,
                x_scale: None,
                y_scale: None,
            }),
    {
        GlyphMetrics {
            width: 0,
            height: 0,
            h_advance: 0,
            v_advance: 0,
            x_min: 0,
            y_min: 0,
            x_max: 0,
            y_max: 0,
            x_scale: None,
            y_scale: None,
        }
    }
}

/// The measures of a font's lines, in whole pixels.
#[derive(Debug, Clone, Copy, PartialEq, Eq)]
pub struct FontHMetrics {
    pub ascent: i32,
    pub descent: i32,
    pub line_gap: i32,
    pub line_height: i32,
    pub content_height: i32,
}

/// A font that hands out glyphs.
///
/// An extractor that meets a glyph wider than the font size rasterizes it
/// again, shrunk to fit, and records the factor in `x_scale` and `y_scale`.
/// Nothing is taken for granted of what an extractor returns.
pub trait GlyphExtractorTrait: Sized {
    /// An extractor for the font in `font_data`, at `font_size` thousandths
    /// of a pixel.
    fn new(font_data: Vec<u8>, font_size: i32) -> Self;

    fn set_font_size(&mut self, font_size: i32);

    /// Whether the font has a glyph for `ch`.
    fn exist(&self, ch: char) -> bool;

    fn get_glyph_metrics(&self, ch: char) -> GlyphMetrics;

    fn font_metrics(&self) -> FontHMetrics;

    /// The coverage of the glyph's pixels row by row, 0 to 255 each, and
    /// the glyph's measures.
    fn get_bitmap_and_metrics(&self, ch: char) -> (Vec<u8>, GlyphMetrics);
}

} // verus!
