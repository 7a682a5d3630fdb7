//! Styles of text: what a run of characters is drawn with.
//!
//! Sizes, factors and widths are counted in thousandths (`constant::UNIT`).
//! A color holds, for each of its channels, the bits of the single-precision
//! number between zero and one that the channel has.

use super::number::{number_or, parse_str};
use super::scan::characters;
use vstd::prelude::*;

verus! {

/// The bits of the channel value zero.
pub const CHANNEL_ZERO: u32 = 0;

/// The bits of the channel value one half.
pub const CHANNEL_HALF: u32 = 0x3f00_0000;

/// The bits of the channel value four fifths.
pub const CHANNEL_FOUR_FIFTHS: u32 = 0x3f4c_cccd;

/// The bits of the channel value one.
pub const CHANNEL_ONE: u32 = 0x3f80_0000;

/// A color with alpha, not premultiplied.
#[derive(Debug, Clone, Copy, PartialEq, Eq)]
pub struct Color {
    pub r: u32,
    pub g: u32,
    pub b: u32,
    pub a: u32,
}

/// The outline drawn around glyphs.
#[derive(Debug, Clone, Copy, PartialEq, Eq)]
pub struct StrokeStyle {
    pub stroke_color: Color,
    pub stroke_width: i32,
}

/// The shadow drawn behind glyphs.
#[derive(Debug, Clone, Copy, PartialEq, Eq)]
pub struct ShadowStyle {
    pub shadow_color: Color,
    pub shadow_offset_x: i32,
    pub shadow_offset_y: i32,
    pub shadow_blur: i32,
    pub shadow_width: i32,
}

/// The style of a run of text.
#[derive(Debug, Clone, Copy, PartialEq, Eq)]
pub struct TextStyle {
    /// Size of the font in pixels.
    pub font_size: i32,
    pub fill_color: Color,
    /// Height of a line, as a multiple of the font size.
    pub line_height: i32,
    /// Indent of a line's start, in ems.
    pub indent: i32,
    pub stroke: Option<StrokeStyle>,
    pub shadow: Option<ShadowStyle>,
}

/// Opaque white, 3 wide.
pub open spec fn default_stroke() -> StrokeStyle {
    StrokeStyle {
        stroke_color: Color { r: CHANNEL_ONE, g: CHANNEL_ONE, b: CHANNEL_ONE, a: CHANNEL_ONE },
        stroke_width: 3000,
    }
}

/// Grey at four fifths of alpha, offset by (1, 1), blur 8, 3 wide.
pub open spec fn default_shadow() -> ShadowStyle {
    ShadowStyle {
        shadow_color: Color {
            r: CHANNEL_HALF,
            g: CHANNEL_HALF,
            b: CHANNEL_HALF,
            a: CHANNEL_FOUR_FIFTHS,
        },
        shadow_offset_x: 1000,
        shadow_offset_y: 1000,
        shadow_blur: 8000,
        shadow_width: 3000,
    }
}

/// 32 pixels, opaque black, lines 1.5 high, no indent, no stroke, no shadow.
pub open spec fn default_text_style() -> TextStyle {
    TextStyle {
        font_size: 32000,
        fill_color: Color { r: CHANNEL_ZERO, g: CHANNEL_ZERO, b: CHANNEL_ZERO, a: CHANNEL_ONE },
        line_height: 1500,
        indent: 0,
        stroke: None,
        shadow: None,
    }
}

impl Default for StrokeStyle {
    fn default() -> (r: Self)
        ensures
            r == default_stroke(),
    {
        StrokeStyle {
            stroke_color: Color { r: CHANNEL_ONE, g: CHANNEL_ONE, b: CHANNEL_ONE, a: CHANNEL_ONE },
            stroke_width: 3000,
        }
    }
}

impl Default for ShadowStyle {
    fn default() -> (r: Self)
        ensures
            r == default_shadow(),
    {
        ShadowStyle {
            shadow_color: Color {
                r: CHANNEL_HALF,
                g: CHANNEL_HALF,
                b: CHANNEL_HALF,
                a: CHANNEL_FOUR_FIFTHS,
            },
            shadow_offset_x: 1000,
            shadow_offset_y: 1000,
            shadow_blur: 8000,
            shadow_width: 3000,
        }
    }
}

impl Default for TextStyle {
    fn default() -> (r: Self)
        ensures
            r == default_text_style(),
    {
        TextStyle {
            font_size: 32000,
            fill_color: Color {
                r: CHANNEL_ZERO,
                g: CHANNEL_ZERO,
                b: CHANNEL_ZERO,
                a: CHANNEL_ONE,
            },
            line_height: 1500,
            indent: 0,
            stroke: None,
            shadow: None,
        }
    }
}

/// The color that the CSS color text `s` names, where it names one.
pub uninterp spec fn parsed_color(s: Seq<char>) -> Option<Color>;

/// Calls `csscolorparser::parse`. The contract claims that the outcome is
/// decided by the characters of `s` alone; the channels of a parsed color are
/// handed over bit for bit.
#[verifier::external_body]
fn css_color(s: &str) -> (r: Option<Color>)
    ensures
        r == parsed_color(s@),
{
    match csscolorparser::parse(s) {
        Ok(c) => Some(
            Color { r: c.r.to_bits(), g: c.g.to_bits(), b: c.b.to_bits(), a: c.a.to_bits() },
        ),
        Err(_) => None,
    }
}

/// What `parse_color` gives for each outcome of the CSS color parser.
pub open spec fn color_or(parsed: Option<Color>, fallback: Color) -> Color {
    match parsed {
        Some(c) => c,
        None => fallback,
    }
}

/// The color that `parsed` holds, or `fallback` where it holds none.
pub fn choose_color(parsed: Option<Color>, fallback: Color) -> (r: Color)
    ensures
        r == color_or(parsed, fallback),
{
    match parsed {
        Some(c) => c,
        None => fallback,
    }
}

/// Reads a CSS color, or gives `fallback` where `text` names none.
pub fn parse_color(text: &str, fallback: Color) -> (r: Color)
    ensures
        r == color_or(parsed_color(text@), fallback),
{
    choose_color(css_color(text), fallback)
}

/// Whether two texts hold the same characters.
pub fn same_text(a: &str, b: &str) -> (r: bool)
    ensures
        r == (a@ == b@),
{
    let x = characters(a);
    let y = characters(b);
    if x.len() != y.len() {
        return false;
    }
    let mut k: usize = 0;
    while k < x.len()
        invariant
            k <= x.len(),
            x.len() == y.len(),
            x@ == a@,
            y@ == b@,
            forall|j: int| 0 <= j < k ==> x@[j] == y@[j],
        decreases x.len() - k,
    {
        if x[k] != y[k] {
            assert(a@[k as int] != b@[k as int]);
            return false;
        }
        k += 1;
    }
    assert(x@ =~= y@);
    true
}

/// The stroke of `style`, or the default stroke where it has none.
pub open spec fn stroke_of(style: TextStyle) -> StrokeStyle {
    match style.stroke {
        Some(s) => s,
        None => default_stroke(),
    }
}

/// The shadow of `style`, or the default shadow where it has none.
pub open spec fn shadow_of(style: TextStyle) -> ShadowStyle {
    match style.shadow {
        Some(s) => s,
        None => default_shadow(),
    }
}

/// `style` with the attribute `tag` set from `value`, where `tag` names a
/// style attribute. A value that cannot be read leaves the field as it was.
/// The attributes `stroke` and `shadow`, which stand for a whole stroke or
/// shadow, have no written form: they leave the style as it was.
pub open spec fn styled(tag: Seq<char>, value: Seq<char>, style: TextStyle) -> Option<TextStyle> {
    let stroke = stroke_of(style);
    let shadow = shadow_of(style);
    if tag == "size"@ {
        Some(TextStyle { font_size: number_or(value, style.font_size), ..style })
    } else if tag == "color"@ || tag == "fillColor"@ {
        Some(TextStyle { fill_color: color_or(parsed_color(value), style.fill_color), ..style })
    } else if tag == "lineHeight"@ {
        Some(TextStyle { line_height: number_or(value, style.line_height), ..style })
    } else if tag == "indent"@ {
        Some(TextStyle { indent: number_or(value, style.indent), ..style })
    } else if tag == "stroke"@ || tag == "shadow"@ {
        Some(style)
    } else if tag == "strokeColor"@ {
        Some(
            TextStyle {
                stroke: Some(
                    StrokeStyle {
                        stroke_color: color_or(parsed_color(value), stroke.stroke_color),
                        ..stroke
                    },
                ),
                ..style
            },
        )
    } else if tag == "strokeWidth"@ {
        Some(
            TextStyle {
                stroke: Some(
                    StrokeStyle { stroke_width: number_or(value, stroke.stroke_width), ..stroke },
                ),
                ..style
            },
        )
    } else if tag == "shadowOffsetX"@ {
        Some(
            TextStyle {
                shadow: Some(
                    ShadowStyle {
                        shadow_offset_x: number_or(value, shadow.shadow_offset_x),
                        ..shadow
                    },
                ),
                ..style
            },
        )
    } else if tag == "shadowOffsetY"@ {
        Some(
            TextStyle {
                shadow: Some(
                    ShadowStyle {
                        shadow_offset_y: number_or(value, shadow.shadow_offset_y),
                        ..shadow
                    },
                ),
                ..style
            },
        )
    } else if tag == "shadowWidth"@ {
        Some(
            TextStyle {
                shadow: Some(
                    ShadowStyle { shadow_width: number_or(value, shadow.shadow_width), ..shadow },
                ),
                ..style
            },
        )
    } else if tag == "shadowBlur"@ {
        Some(
            TextStyle {
                shadow: Some(
                    ShadowStyle { shadow_blur: number_or(value, shadow.shadow_blur), ..shadow },
                ),
                ..style
            },
        )
    } else if tag == "shadowColor"@ {
        Some(
            TextStyle {
                shadow: Some(
                    ShadowStyle {
                        shadow_color: color_or(parsed_color(value), shadow.shadow_color),
                        ..shadow
                    },
                ),
                ..style
            },
        )
    } else {
        None
    }
}

/// Sets the style attribute `tag` from `value`; gives `None` where `tag`
/// names no style attribute.
pub fn apply_attribute(tag: &str, value: &str, style: &TextStyle) -> (r: Option<TextStyle>)
    ensures
        r == styled(tag@, value@, *style),
{
    let stroke = match style.stroke {
        Some(s) => s,
        None => StrokeStyle::default(),
    };
    let shadow = match style.shadow {
        Some(s) => s,
        None => ShadowStyle::default(),
    };
    let mut next = *style;
    if same_text(tag, "size") {
        next.font_size = parse_str(value, style.font_size);
    } else if same_text(tag, "color") || same_text(tag, "fillColor") {
        next.fill_color = parse_color(value, style.fill_color);
    } else if same_text(tag, "lineHeight") {
        next.line_height = parse_str(value, style.line_height);
    } else if same_text(tag, "indent") {
        next.indent = parse_str(value, style.indent);
    } else if same_text(tag, "stroke") || same_text(tag, "shadow") {
    } else if same_text(tag, "strokeColor") {
        next.stroke = Some(
            StrokeStyle { stroke_color: parse_color(value, stroke.stroke_color), ..stroke },
        );
    } else if same_text(tag, "strokeWidth") {
        next.stroke = Some(
            StrokeStyle { stroke_width: parse_str(value, stroke.stroke_width), ..stroke },
        );
    } else if same_text(tag, "shadowOffsetX") {
        next.shadow = Some(
            ShadowStyle { shadow_offset_x: parse_str(value, shadow.shadow_offset_x), ..shadow },
        );
    } else if same_text(tag, "shadowOffsetY") {
        next.shadow = Some(
            ShadowStyle { shadow_offset_y: parse_str(value, shadow.shadow_offset_y), ..shadow },
        );
    } else if same_text(tag, "shadowWidth") {
        next.shadow = Some(
            ShadowStyle { shadow_width: parse_str(value, shadow.shadow_width), ..shadow },
        );
    } else if same_text(tag, "shadowBlur") {
        next.shadow = Some(
            ShadowStyle { shadow_blur: parse_str(value, shadow.shadow_blur), ..shadow },
        );
    } else if same_text(tag, "shadowColor") {
        next.shadow = Some(
            ShadowStyle { shadow_color: parse_color(value, shadow.shadow_color), ..shadow },
        );
    } else {
        return None;
    }
    Some(next)
}

} // verus!
