//! Rendering support for LVGL-generated 1bpp bitmap fonts whose glyphs are
//! looked up by UTF-8 symbols.
pub mod bitmap;
pub mod font;
pub mod geometry;
pub mod scale;
pub mod style;

pub use font::{FontData, FontLayout, FontPreset, FontVerticalMetrics, GlyphMetrics};
pub use style::EgTextStyle;
pub mod font_source;
pub mod macro_input;
