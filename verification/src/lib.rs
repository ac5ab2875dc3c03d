//! The display layer of a small retro computer: text is laid out into a fixed grid of
//! character cells, and the grid is rasterised with a bitmap font into an RGBA frame.

pub mod arith;
pub mod compositor;
pub mod error;
pub mod font;
pub mod frame;
pub mod glyph;
pub mod grid;
pub mod layout;
pub mod pixel;
pub mod screen;
