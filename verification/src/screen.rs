use vstd::prelude::*;
use crate::compositor::{composite, scene_of, Scene};
use crate::error::ConfigError;
use crate::font::GlyphSource;
use crate::frame::FrameSize;
use crate::grid::{grid_fits, CharGrid};
use crate::layout::{laid_out, layout, Cursor};
use crate::pixel::Pixel;

verus! {

/// The width of the default frame in pixels.
pub const WIDTH: usize = 400;

/// The height of the default frame in pixels.
pub const HEIGHT: usize = 300;

/// The number of columns of the default grid.
pub const TEXT_COLS: usize = 80;

/// The number of rows of the default grid. With glyphs 13 pixels high they take 299 of
/// the 300 rows of the frame; the last row of pixels is slack and is never written.
pub const TEXT_ROWS: usize = 23;

/// The width of a glyph of the default font in pixels.
pub const CHAR_WIDTH: usize = 5;

/// The height of a glyph of the default font in pixels.
pub const CHAR_HEIGHT: usize = 13;

/// Why a screen of `rows` by `cols` cells of `glyph_width` by `glyph_height` pixels cannot
/// be made for `frame`, or `None` where it can. The grid, rendered, may be smaller than the
/// frame but not larger, and its cells must fit in memory.
pub open spec fn config_error(
    frame: FrameSize,
    rows: int,
    cols: int,
    glyph_width: int,
    glyph_height: int,
) -> Option<ConfigError> {
    if cols * glyph_width > frame.width {
        Some(ConfigError::GridTooWide)
    } else if rows * glyph_height > frame.height {
        Some(ConfigError::GridTooTall)
    } else if !grid_fits(rows, cols) {
        Some(ConfigError::GridTooLarge)
    } else {
        None
    }
}

/// The state of the screen: a grid of characters, the font to draw them with, the size of
/// the frame they are drawn into and the two colours. Its view is the scene it shows.
pub struct Screen {
    frame: FrameSize,
    grid: CharGrid,
    glyphs: GlyphSource,
    foreground: Pixel,
    background: Pixel,
}

impl View for Screen {
    type V = Scene;

    closed spec fn view(&self) -> Scene {
        scene_of(&self.grid, &self.glyphs, self.frame, self.foreground, self.background)
    }
}

impl Screen {
    /// A screen with a blank grid of `rows` by `cols` cells, drawn with `glyphs` into
    /// frames of size `frame`, black on white. A grid that, rendered, is wider or taller
    /// than the frame is refused, and so is one too large to store.
    pub fn new(frame: FrameSize, rows: usize, cols: usize, glyphs: GlyphSource) -> (res: Result<
        Screen,
        ConfigError,
    >)
        ensures
            match config_error(
                frame,
                rows as int,
                cols as int,
                glyphs.spec_width() as int,
                glyphs.spec_height() as int,
            ) {
                Some(e) => res == Err::<Screen, ConfigError>(e),
                None => res matches Ok(screen) && screen@ == (Scene {
                    cells: Seq::new(rows as nat, |r: int| Seq::new(cols as nat, |c: int| ' ')),
                    cols: cols as nat,
                    glyphs: glyphs@,
                    glyph_width: glyphs.spec_width(),
                    glyph_height: glyphs.spec_height(),
                    frame,
                    foreground: Pixel { r: 0, g: 0, b: 0, a: 255 },
                    background: Pixel { r: 255, g: 255, b: 255, a: 255 },
                }) && screen@.well_formed() && screen@.fits_frame(),
            },
    {
        proof {
            use_type_invariant(&glyphs);
            glyphs.lemma_inv();
        }
        let glyph_width = glyphs.width();
        let glyph_height = glyphs.height();
        let wide = match cols.checked_mul(glyph_width) {
            Some(pixels) => pixels > frame.width,
            None => true,
        };
        if wide {
            return Err(ConfigError::GridTooWide);
        }
        let tall = match rows.checked_mul(glyph_height) {
            Some(pixels) => pixels > frame.height,
            None => true,
        };
        if tall {
            return Err(ConfigError::GridTooTall);
        }
        match CharGrid::new(rows, cols) {
            Ok(grid) => {
                proof {
                    use_type_invariant(&grid);
                    grid.lemma_inv();
                }
                Ok(
                    Screen {
                        frame,
                        grid,
                        glyphs,
                        foreground: Pixel::black(),
                        background: Pixel::white(),
                    },
                )
            },
            Err(e) => Err(e),
        }
    }

    /// The size of the frames that the screen draws.
    pub fn frame(&self) -> (frame: FrameSize)
        ensures
            frame == self@.frame,
    {
        self.frame
    }

    /// The grid of characters.
    pub fn grid(&self) -> (grid: &CharGrid)
        ensures
            grid@ == self@.cells,
            grid.spec_cols() == self@.cols,
    {
        &self.grid
    }

    /// The font.
    pub fn glyphs(&self) -> (glyphs: &GlyphSource)
        ensures
            glyphs@ == self@.glyphs,
            glyphs.spec_width() == self@.glyph_width,
            glyphs.spec_height() == self@.glyph_height,
    {
        &self.glyphs
    }

    /// Sets the colour of ink and the colour of everything else.
    pub fn set_colours(&mut self, foreground: Pixel, background: Pixel)
        ensures
            final(self)@ == (Scene { foreground, background, ..old(self)@ }),
    {
        self.foreground = foreground;
        self.background = background;
    }

    /// Lays `text` out in the grid from the top left, over what the grid holds, and
    /// returns where the cursor ends. Text that does not fit is cut off.
    pub fn update_text_buffer(&mut self, text: &str) -> (end: Cursor)
        ensures
            final(self)@ == (Scene {
                cells: laid_out(text@, old(self)@.cells, old(self)@.cols).cells,
                ..old(self)@
            }),
            end.row == laid_out(text@, old(self)@.cells, old(self)@.cols).row,
            end.col == laid_out(text@, old(self)@.cells, old(self)@.cols).col,
    {
        layout(text, &mut self.grid)
    }

    /// Advances the state of the screen by one tick. The screen has no state that moves
    /// by itself, so nothing changes.
    pub fn update(&mut self)
        ensures
            final(self)@ == old(self)@,
    {
    }

    /// Draws the screen into `buffer`, a frame of four bytes to the pixel. A buffer
    /// shorter than the frame is refused and left as it is.
    pub fn draw(&self, buffer: &mut [u8]) -> (res: Result<(), ConfigError>)
        ensures
            res is Ok <==> self@.frame.byte_len() <= old(buffer)@.len(),
            res matches Err(e) ==> e == ConfigError::BufferTooShort && final(buffer)@ == old(
                buffer,
            )@,
            res is Ok ==> final(buffer)@ == self@.compose(old(buffer)@),
    {
        composite(&self.grid, &self.glyphs, self.frame, buffer, self.foreground, self.background)
    }

    /// One render pass: lays `text` out in the grid, then draws the grid into `buffer`.
    /// The text is laid out even where the buffer is then refused.
    pub fn render(&mut self, text: &str, buffer: &mut [u8]) -> (res: Result<(), ConfigError>)
        ensures
            final(self)@ == (Scene {
                cells: laid_out(text@, old(self)@.cells, old(self)@.cols).cells,
                ..old(self)@
            }),
            res is Ok <==> old(self)@.frame.byte_len() <= old(buffer)@.len(),
            res matches Err(e) ==> e == ConfigError::BufferTooShort && final(buffer)@ == old(
                buffer,
            )@,
            res is Ok ==> final(buffer)@ == final(self)@.compose(old(buffer)@),
    {
        self.update_text_buffer(text);
        self.draw(buffer)
    }
}

} // verus!
