use vstd::prelude::*;

verus! {

/// The color space in which the shader blends: it decides the thresholds
/// that the quads of a glyph are drawn with.
#[derive(Debug, Clone, Copy, PartialEq, Eq)]
pub enum ColorSpace {
    Linear,
    SRGB,
}

} // verus!
