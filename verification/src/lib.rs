//! Text layout and glyph-atlas engine: a bracketed markup language is parsed
//! into position-tracked elements, folded into styled runs, and flowed into a
//! box of glyph cells backed by a four-page signed-distance-field atlas.
//!
//! Lengths that the layout computes with are integers counted in thousandths
//! (`constant::UNIT`), so that every rule of the flow is decided exactly.

pub mod constant;
pub mod font_extractor;
pub mod huozi;
pub mod layout;
pub mod parser;
pub mod sdf;

pub use crate::huozi::cache::Glyph;
pub use crate::huozi::Huozi;
