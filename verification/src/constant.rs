use vstd::prelude::*;

verus! {

/// How many raw units make one whole: lengths and factors are kept in
/// thousandths.
pub const UNIT: i32 = 1000;

/// Side of one atlas cell, in texels.
pub const GRID_SIZE: u32 = 128;

/// Pixel size at which glyphs are rasterized; one em of the layout.
pub const FONT_SIZE: u32 = 96;

/// Padding kept around a glyph inside its distance-field tile, in texels.
pub const BUFFER: u32 = 16;

/// Largest distance that a distance-field byte can encode, in texels.
pub const RADIUS: u32 = 24;

/// Place of the glyph contour inside the byte range, in thousandths.
pub const CUTOFF: u32 = 250;

/// Side of the square atlas texture, in texels.
pub const TEXTURE_SIZE: u32 = 2048;

/// Distance from the top of a cell to the baseline, in texels.
pub const ASCENT: u32 = 112;

} // verus!
