//! Turns an RGBA frame into a grid of text glyphs: sampling, tone
//! adjustment, optional Sobel edges, optional dithering, glyph and colour
//! selection, and the ordered draw commands for a canvas.
//!
//! Luminance is carried as an integer in thousandths of a unit, so every
//! stage is exact integer arithmetic.

pub mod charset;
pub mod dither;
pub mod edges;
pub mod fixed;
pub mod grid;
pub mod luminance;
pub mod render;
