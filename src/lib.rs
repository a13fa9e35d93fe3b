use vstd::prelude::*;

pub mod font;
pub mod image;
pub mod layout;
pub mod sentence;

pub use fontdue::Font;
pub use font::{parse_font, FontParseError};
pub use layout::{GlyphPosition, HorizontalAlign, Layout, LayoutSettings};

verus! {

} // verus!
