use vstd::prelude::*;

verus! {

/// The direction in which text flows.
#[derive(Debug, Clone, Copy, PartialEq, Eq)]
pub enum LayoutDirection {
    Horizontal,
    Vertical,
}

/// The box that text is flowed into. Its sides are counted in thousandths
/// of a pixel.
#[derive(Debug, Clone, Copy, PartialEq, Eq)]
pub struct LayoutStyle {
    pub direction: LayoutDirection,
    pub box_width: i32,
    pub box_height: i32,
    /// The size of the grid that each character is fitted to; advisory.
    pub glyph_grid_size: i32,
}

/// A box of 1280 by 720 pixels, filled line by line.
pub open spec fn default_layout_style() -> LayoutStyle {
    LayoutStyle {
        direction: LayoutDirection::Horizontal,
        box_width: 1_280_000,
        box_height: 720_000,
        glyph_grid_size: 24_000,
    }
}

impl Default for LayoutDirection {
    fn default() -> (r: Self)
        ensures
            r == LayoutDirection::Horizontal,
    {
        LayoutDirection::Horizontal
    }
}

impl Default for LayoutStyle {
    fn default() -> (r: Self)
        ensures
            r == default_layout_style(),
    {
        LayoutStyle {
            direction: LayoutDirection::Horizontal,
            box_width: 1_280_000,
            box_height: 720_000,
            glyph_grid_size: 24_000,
        }
    }
}

} // verus!
