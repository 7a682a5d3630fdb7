//! The atlas texture: a square RGBA image whose four channels are four
//! pages of glyph cells.

use vstd::prelude::*;

verus! {

/// The atlas image. It is held as an image of the `image` crate, so that it
/// can be handed on as it is.
#[verifier::external_body]
pub struct Texture {
    image: image::RgbaImage,
}

/// The bytes of a texture: for each texel, row by row, its four channels.
pub uninterp spec fn texture_bytes(t: Texture) -> Seq<u8>;

/// The side of a texture, in texels.
pub uninterp spec fn texture_side(t: Texture) -> nat;

/// Index of the byte that holds channel `c` of the texel `(x, y)`.
pub open spec fn byte_index(side: int, x: int, y: int, c: int) -> int {
    4 * (y * side + x) + c
}

impl Texture {
    /// Calls `image::ImageBuffer::new`. The contract claims a square image
    /// of the given side whose bytes are all zero.
    #[verifier::external_body]
    pub(crate) fn blank(side: u32) -> (t: Texture)
        requires
            4 * side * side <= usize::MAX,
        ensures
            texture_side(t) == side,
            texture_bytes(t) == Seq::new((4 * side * side) as nat, |i: int| 0u8),
    {
        Texture { image: image::RgbaImage::new(side, side) }
    }

    /// Calls `image::ImageBuffer::get_pixel_mut` and stores `value` in one
    /// channel of the pixel. The contract claims that this byte alone
    /// changes.
    #[verifier::external_body]
    pub(crate) fn put(&mut self, x: u32, y: u32, channel: usize, value: u8)
        requires
            x < texture_side(*old(self)),
            y < texture_side(*old(self)),
            channel < 4,
        ensures
            texture_side(*final(self)) == texture_side(*old(self)),
            texture_bytes(*final(self)) == texture_bytes(*old(self)).update(
                byte_index(texture_side(*old(self)) as int, x as int, y as int, channel as int),
                value,
            ),
    {
        self.image.get_pixel_mut(x, y).0[channel] = value;
    }

    /// Calls `image::ImageBuffer::as_raw`. The contract claims that the
    /// buffer holds the bytes of the texture.
    #[verifier::external_body]
    pub(crate) fn as_raw(&self) -> (bytes: &Vec<u8>)
        ensures
            bytes@ == texture_bytes(*self),
    {
        self.image.as_raw()
    }
}

} // verus!
