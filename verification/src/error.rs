use vstd::prelude::*;

verus! {

/// Why a grid, a screen or a frame buffer was refused.
#[derive(Clone, Copy, Debug, PartialEq, Eq, Structural)]
pub enum ConfigError {
    /// The cells of the grid cannot be stored on this machine.
    GridTooLarge,
    /// The columns of the grid, rendered, are wider than the frame.
    GridTooWide,
    /// The rows of the grid, rendered, are taller than the frame.
    GridTooTall,
    /// The buffer holds fewer bytes than the frame has.
    BufferTooShort,
}

/// Why a glyph was refused.
#[derive(Clone, Copy, Debug, PartialEq, Eq, Structural)]
pub enum GlyphError {
    /// The number of ink flags is not the width times the height.
    BadBitmapLength,
    /// The glyph does not have the size of the cells of its font.
    SizeMismatch,
}

} // verus!
