use vstd::prelude::*;
use crate::arith::{
    lemma_index_in_table, lemma_index_of_line, lemma_line_in_table, lemma_line_of_index,
};
use crate::error::ConfigError;
use crate::font::{glyph_of, uniform, GlyphSource};
use crate::frame::{byte_offset, column_of, offset_of, put_pixel, row_of, with_pixel, FrameSize};
use crate::glyph::{Bitmap, Glyph};
use crate::grid::{rectangular, CharGrid};
use crate::pixel::Pixel;

verus! {

/// Whether byte `k` of a buffer of `len` bytes belongs to a pixel that lies in the frame
/// and whose four bytes the buffer holds. Only such bytes are ever written.
pub open spec fn visible(frame: FrameSize, len: nat, k: int) -> bool {
    &&& 0 <= k
    &&& frame.width > 0
    &&& row_of(frame.width as int, k) < frame.height
    &&& (k / 4) * 4 + 4 <= len
}

/// Whether the pixel in column `x` of row `y` lies in the rectangle of the cell at
/// `(row, col)`, for cells of `width` by `height` pixels.
pub open spec fn in_cell(width: nat, height: nat, row: int, col: int, x: int, y: int) -> bool {
    &&& col * width <= x < col * width + width
    &&& row * height <= y < row * height + height
}

/// The colour of a glyph pixel: `foreground` where it is ink, else `background`.
pub open spec fn colour(ink: bool, foreground: Pixel, background: Pixel) -> Pixel {
    if ink {
        foreground
    } else {
        background
    }
}

/// One cell to paint: the glyph, the cell it goes to, the size of the frame and the two
/// colours.
pub struct Stamp {
    pub frame: FrameSize,
    pub glyph: Bitmap,
    pub row: int,
    pub col: int,
    pub foreground: Pixel,
    pub background: Pixel,
}

impl Stamp {
    /// The column of byte `k`'s pixel, counted from the left edge of the cell.
    pub open spec fn local_x(self, k: int) -> int {
        column_of(self.frame.width as int, k) - self.col * self.glyph.width
    }

    /// The row of byte `k`'s pixel, counted from the top edge of the cell.
    pub open spec fn local_y(self, k: int) -> int {
        row_of(self.frame.width as int, k) - self.row * self.glyph.height
    }

    /// Whether byte `k` of a buffer of `len` bytes belongs to a visible pixel in the
    /// rectangle of the cell.
    pub open spec fn covers(self, len: nat, k: int) -> bool {
        &&& visible(self.frame, len, k)
        &&& in_cell(
            self.glyph.width,
            self.glyph.height,
            self.row,
            self.col,
            column_of(self.frame.width as int, k),
            row_of(self.frame.width as int, k),
        )
    }

    /// Byte `k` while the cell is painted, when the first `done` pixels of the glyph, in
    /// row-major order, have been painted.
    pub open spec fn byte(self, before: Seq<u8>, done: int, k: int) -> u8 {
        if self.covers(before.len(), k) && self.local_y(k) * self.glyph.width + self.local_x(k)
            < done {
            colour(
                self.glyph.ink_at(self.local_x(k), self.local_y(k)),
                self.foreground,
                self.background,
            ).channel(k % 4)
        } else {
            before[k]
        }
    }

    /// The buffer after the cell was painted: every visible pixel in the rectangle of the
    /// cell has the colour of the glyph pixel at its place, and every byte outside the
    /// rectangle is as before.
    pub open spec fn paint(self, before: Seq<u8>) -> Seq<u8> {
        Seq::new(
            before.len(),
            |k: int| self.byte(before, (self.glyph.width * self.glyph.height) as int, k),
        )
    }
}

/// The four bytes from the offset of a pixel on are the bytes that belong to that pixel.
pub proof fn lemma_bytes_of_pixel(width: int, x: int, y: int, k: int)
    requires
        0 <= x < width,
        0 <= y,
    ensures
        (offset_of(width, x, y) <= k < offset_of(width, x, y) + 4) <==> (column_of(width, k) == x
            && row_of(width, k) == y),
        column_of(width, k) == x && row_of(width, k) == y ==> {
            &&& k % 4 == k - offset_of(width, x, y)
            &&& (k / 4) * 4 == offset_of(width, x, y)
        },
{
    let p = y * width + x;
    lemma_index_of_line(k, 4);
    lemma_line_of_index(y, x, width);
    if offset_of(width, x, y) <= k < offset_of(width, x, y) + 4 {
        lemma_line_of_index(p, k - p * 4, 4);
    }
    if column_of(width, k) == x && row_of(width, k) == y {
        lemma_index_of_line(k / 4, width);
    }
}

/// One more glyph pixel painted, or dropped because it is not visible, takes the buffer
/// from `done` painted pixels to `done + 1`.
proof fn lemma_paint_step(stamp: Stamp, before: Seq<u8>, done: int, earlier: Seq<u8>, now: Seq<u8>)
    requires
        0 <= stamp.row,
        0 <= stamp.col,
        0 <= done < stamp.glyph.width * stamp.glyph.height,
        earlier.len() == before.len(),
        forall|k: int| 0 <= k < before.len() ==> #[trigger] earlier[k] == stamp.byte(before, done, k),
        ({
            let local_x = done % (stamp.glyph.width as int);
            let local_y = done / (stamp.glyph.width as int);
            let x = stamp.col * stamp.glyph.width + local_x;
            let y = stamp.row * stamp.glyph.height + local_y;
            let offset = offset_of(stamp.frame.width as int, x, y);
            let px = colour(stamp.glyph.ink_at(local_x, local_y), stamp.foreground, stamp.background);
            now == if x < stamp.frame.width && y < stamp.frame.height && offset + 4
                <= before.len() {
                with_pixel(earlier, offset, px)
            } else {
                earlier
            }
        }),
    ensures
        now.len() == before.len(),
        forall|k: int| 0 <= k < before.len() ==> #[trigger] now[k] == stamp.byte(before, done + 1, k),
{
    let w = stamp.glyph.width as int;
    let h = stamp.glyph.height as int;
    let fw = stamp.frame.width as int;
    assert(w > 0) by (nonlinear_arith)
        requires
            0 <= done < w * h,
            0 <= h,
    ;
    lemma_index_of_line(done, w);
    assert(h * w == w * h) by (nonlinear_arith);
    lemma_line_in_table(done, h, w);
    let x = stamp.col * w + done % w;
    let y = stamp.row * h + done / w;
    assert(0 <= stamp.col * w && 0 <= stamp.row * h) by (nonlinear_arith)
        requires
            0 <= stamp.col,
            0 <= stamp.row,
            0 <= w,
            0 <= h,
    ;
    assert forall|k: int| 0 <= k < before.len() implies #[trigger] now[k] == stamp.byte(
        before,
        done + 1,
        k,
    ) by {
        assert(earlier[k] == stamp.byte(before, done, k));
        if stamp.covers(before.len(), k) {
            lemma_index_of_line(k / 4, fw);
            lemma_line_of_index(stamp.local_y(k), stamp.local_x(k), w);
        }
        if x < fw {
            lemma_bytes_of_pixel(fw, x, y, k);
        }
    }
}

/// Paints the cell at `(row, col)` with `glyph`: every pixel of the glyph that lies in
/// the frame and in the buffer gets `foreground` where the glyph has ink and `background`
/// where it has none. Pixels of the glyph that fall outside are dropped one by one. No
/// byte outside the rectangle of the cell is changed.
pub fn paint_cell(
    buffer: &mut [u8],
    frame: FrameSize,
    glyph: &Glyph,
    row: usize,
    col: usize,
    foreground: Pixel,
    background: Pixel,
)
    ensures
        final(buffer)@ == (Stamp {
            frame,
            glyph: glyph@,
            row: row as int,
            col: col as int,
            foreground,
            background,
        }).paint(old(buffer)@),
{
    let ghost stamp = Stamp {
        frame,
        glyph: glyph@,
        row: row as int,
        col: col as int,
        foreground,
        background,
    };
    let ghost before = buffer@;
    let width = glyph.width();
    let height = glyph.height();
    let area = glyph.area();
    let len = buffer.len();
    let mut i: usize = 0;
    while i < area
        invariant
            i <= area,
            len == before.len(),
            area == glyph@.width * glyph@.height,
            width == glyph@.width,
            height == glyph@.height,
            stamp == (Stamp {
                frame,
                glyph: glyph@,
                row: row as int,
                col: col as int,
                foreground,
                background,
            }),
            buffer@.len() == before.len(),
            forall|k: int|
                0 <= k < before.len() ==> #[trigger] buffer@[k] == stamp.byte(before, i as int, k),
        decreases area - i,
    {
        let ghost earlier = buffer@;
        match glyph.pixel(i) {
            Some((local_x, local_y, ink)) => {
                let px = if ink { foreground } else { background };
                match byte_offset(frame, width, height, row, col, local_x, local_y) {
                    Some(offset) => {
                        put_pixel(buffer, offset, px);
                    },
                    None => {},
                }
                proof {
                    assert(0 <= col * width && 0 <= row * height) by (nonlinear_arith);
                    lemma_paint_step(stamp, before, i as int, earlier, buffer@);
                }
            },
            None => {},
        }
        i = i + 1;
    }
    proof {
        assert forall|k: int| 0 <= k < before.len() implies #[trigger] buffer@[k] == stamp.paint(
            before,
        )[k] by {
            if stamp.covers(before.len(), k) {
                lemma_index_in_table(
                    stamp.local_y(k),
                    stamp.local_x(k),
                    height as int,
                    width as int,
                );
                assert(height * width == width * height) by (nonlinear_arith);
            }
        }
        assert(buffer@ =~= stamp.paint(before));
    }
}

/// All that a frame is composed from: the cells of a grid of `cols` columns, a font with
/// glyphs of `glyph_width` by `glyph_height` pixels, the size of the frame and the two
/// colours.
pub struct Scene {
    pub cells: Seq<Seq<char>>,
    pub cols: nat,
    pub glyphs: Map<char, Bitmap>,
    pub glyph_width: nat,
    pub glyph_height: nat,
    pub frame: FrameSize,
    pub foreground: Pixel,
    pub background: Pixel,
}

impl Scene {
    /// The number of rows of the grid.
    pub open spec fn rows(self) -> nat {
        self.cells.len()
    }

    /// Whether the grid is a table, and the font has a glyph for the blank space and
    /// glyphs of one size only.
    pub open spec fn well_formed(self) -> bool {
        &&& rectangular(self.cells, self.cols)
        &&& uniform(self.glyphs, self.glyph_width, self.glyph_height)
        &&& self.glyphs.contains_key(' ')
    }

    /// Whether the grid, rendered, is no wider and no taller than the frame. The frame may
    /// be larger: what the grid leaves over is slack and is never written.
    pub open spec fn fits_frame(self) -> bool {
        &&& self.cols * self.glyph_width <= self.frame.width
        &&& self.rows() * self.glyph_height <= self.frame.height
    }

    /// The column of byte `k`'s pixel in the frame.
    pub open spec fn x(self, k: int) -> int {
        column_of(self.frame.width as int, k)
    }

    /// The row of byte `k`'s pixel in the frame.
    pub open spec fn y(self, k: int) -> int {
        row_of(self.frame.width as int, k)
    }

    /// Whether byte `k` of a buffer of `len` bytes belongs to a visible pixel under the
    /// grid: the bytes that composing writes.
    pub open spec fn covers(self, len: nat, k: int) -> bool {
        &&& visible(self.frame, len, k)
        &&& self.x(k) < self.cols * self.glyph_width
        &&& self.y(k) < self.rows() * self.glyph_height
    }

    /// The row of the cell that the pixel of byte `k` lies in.
    pub open spec fn cell_row(self, k: int) -> int {
        self.y(k) / (self.glyph_height as int)
    }

    /// The column of the cell that the pixel of byte `k` lies in.
    pub open spec fn cell_col(self, k: int) -> int {
        self.x(k) / (self.glyph_width as int)
    }

    /// The glyph that is drawn in the cell at `(row, col)`.
    pub open spec fn glyph_at(self, row: int, col: int) -> Bitmap {
        glyph_of(self.glyphs, self.cells[row][col])
    }

    /// What byte `k` is once the scene is composed: a channel of the colour of the glyph
    /// pixel that lies there.
    pub open spec fn painted(self, k: int) -> u8 {
        let ink = self.glyph_at(self.cell_row(k), self.cell_col(k)).ink_at(
            self.x(k) % (self.glyph_width as int),
            self.y(k) % (self.glyph_height as int),
        );
        colour(ink, self.foreground, self.background).channel(k % 4)
    }

    /// Byte `k` of the composed buffer: painted where the grid covers it, else as before.
    pub open spec fn byte(self, before: Seq<u8>, k: int) -> u8 {
        if self.covers(before.len(), k) {
            self.painted(k)
        } else {
            before[k]
        }
    }

    /// The buffer after composing the scene over `before`.
    pub open spec fn compose(self, before: Seq<u8>) -> Seq<u8> {
        Seq::new(before.len(), |k: int| self.byte(before, k))
    }

    /// Byte `k` while composing: painted if its cell comes before `(row, col)` in
    /// row-major order, else as before.
    pub open spec fn byte_until(self, before: Seq<u8>, row: int, col: int, k: int) -> u8 {
        if self.covers(before.len(), k) && (self.cell_row(k) < row || (self.cell_row(k) == row
            && self.cell_col(k) < col)) {
            self.painted(k)
        } else {
            before[k]
        }
    }

    /// What painting the cell at `(row, col)` of the scene comes to.
    pub open spec fn stamp(self, row: int, col: int) -> Stamp {
        Stamp {
            frame: self.frame,
            glyph: self.glyph_at(row, col),
            row,
            col,
            foreground: self.foreground,
            background: self.background,
        }
    }

    /// The scene with `c` in the cell at `(row, col)`.
    pub open spec fn with_char(self, row: int, col: int, c: char) -> Scene {
        Scene { cells: self.cells.update(row, self.cells[row].update(col, c)), ..self }
    }
}

/// The scene that a grid, a font, a frame size and two colours make.
pub open spec fn scene_of(
    grid: &CharGrid,
    glyphs: &GlyphSource,
    frame: FrameSize,
    foreground: Pixel,
    background: Pixel,
) -> Scene {
    Scene {
        cells: grid@,
        cols: grid.spec_cols(),
        glyphs: glyphs@,
        glyph_width: glyphs.spec_width(),
        glyph_height: glyphs.spec_height(),
        frame,
        foreground,
        background,
    }
}

/// A pixel lies in the rectangle of exactly the cell whose row and column are the
/// quotients of its coordinates by the size of a cell; the remainders are its place in
/// that cell.
pub proof fn lemma_cell_of_pixel(width: nat, height: nat, row: int, col: int, x: int, y: int)
    requires
        width > 0,
        height > 0,
    ensures
        in_cell(width, height, row, col, x, y) <==> (x / (width as int) == col && y / (
            height as int) == row),
        in_cell(width, height, row, col, x, y) ==> {
            &&& x % (width as int) == x - col * width
            &&& y % (height as int) == y - row * height
        },
{
    let w = width as int;
    let h = height as int;
    lemma_index_of_line(x, w);
    lemma_index_of_line(y, h);
    if in_cell(width, height, row, col, x, y) {
        lemma_line_of_index(col, x - col * w, w);
        lemma_line_of_index(row, y - row * h, h);
    }
}

/// A byte that the scene covers lies in the buffer and in the frame, and its pixel lies in
/// a cell of the grid.
pub proof fn lemma_covered_cell(scene: Scene, len: nat, k: int)
    requires
        scene.covers(len, k),
    ensures
        scene.glyph_width > 0,
        scene.glyph_height > 0,
        0 <= scene.cell_row(k) < scene.rows(),
        0 <= scene.cell_col(k) < scene.cols,
        0 <= k < len,
        k < scene.frame.byte_len(),
{
    let fw = scene.frame.width as int;
    let x = scene.x(k);
    let y = scene.y(k);
    lemma_index_of_line(k, 4);
    lemma_index_of_line(k / 4, fw);
    assert(scene.glyph_width > 0 && scene.glyph_height > 0 && 0 <= y) by (nonlinear_arith)
        requires
            0 <= x < scene.cols * scene.glyph_width,
            y < scene.rows() * scene.glyph_height,
            0 <= k / 4,
            k / 4 == y * fw + x,
            fw > 0,
            x < fw,
    ;
    lemma_line_in_table(x, scene.cols as int, scene.glyph_width as int);
    lemma_line_in_table(y, scene.rows() as int, scene.glyph_height as int);
    lemma_index_in_table(y, x, scene.frame.height as int, fw);
    assert(scene.frame.width * scene.frame.height == scene.frame.height * fw) by (nonlinear_arith)
        requires
            fw == scene.frame.width,
    ;
}

/// Painting the cell at `(row, col)` over a buffer composed up to that cell gives the
/// buffer composed up to the next cell.
proof fn lemma_compose_step(scene: Scene, before: Seq<u8>, earlier: Seq<u8>, row: int, col: int, k: int)
    requires
        scene.well_formed(),
        0 <= row < scene.rows(),
        0 <= col < scene.cols,
        0 <= k < before.len(),
        earlier.len() == before.len(),
        earlier[k] == scene.byte_until(before, row, col, k),
    ensures
        scene.stamp(row, col).paint(earlier)[k] == scene.byte_until(before, row, col + 1, k),
{
    let w = scene.glyph_width;
    let h = scene.glyph_height;
    let stamp = scene.stamp(row, col);
    assert(scene.glyphs.contains_key(' '));
    assert(stamp.glyph.width == w && stamp.glyph.height == h) by {
        if scene.glyphs.contains_key(scene.cells[row][col]) {
        }
    }
    if visible(scene.frame, before.len(), k) {
        lemma_index_of_line(k / 4, scene.frame.width as int);
        if w > 0 && h > 0 {
            lemma_cell_of_pixel(w, h, row, col, scene.x(k), scene.y(k));
            if stamp.covers(before.len(), k) {
                lemma_index_in_table(stamp.local_y(k), stamp.local_x(k), h as int, w as int);
                assert(h * w == w * h) by (nonlinear_arith);
                lemma_index_in_table(col, stamp.local_x(k), scene.cols as int, w as int);
                lemma_index_in_table(row, stamp.local_y(k), scene.rows() as int, h as int);
            }
        }
    }
    if scene.covers(before.len(), k) {
        lemma_covered_cell(scene, before.len(), k);
    }
}

/// Paints one row of the grid, cell by cell from the left, over a buffer in which the
/// rows above are painted.
fn paint_row(
    grid: &CharGrid,
    glyphs: &GlyphSource,
    frame: FrameSize,
    buffer: &mut [u8],
    foreground: Pixel,
    background: Pixel,
    row: usize,
    Ghost(before): Ghost<Seq<u8>>,
)
    requires
        row < grid.spec_rows(),
        old(buffer)@.len() == before.len(),
        forall|k: int|
            0 <= k < before.len() ==> #[trigger] old(buffer)@[k] == scene_of(
                grid,
                glyphs,
                frame,
                foreground,
                background,
            ).byte_until(before, row as int, 0, k),
    ensures
        final(buffer)@.len() == before.len(),
        forall|k: int|
            0 <= k < before.len() ==> #[trigger] final(buffer)@[k] == scene_of(
                grid,
                glyphs,
                frame,
                foreground,
                background,
            ).byte_until(before, row + 1, 0, k),
{
    let ghost scene = scene_of(grid, glyphs, frame, foreground, background);
    proof {
        use_type_invariant(grid);
        use_type_invariant(glyphs);
        grid.lemma_inv();
        glyphs.lemma_inv();
    }
    let cols = grid.cols();
    let mut col: usize = 0;
    while col < cols
        invariant
            col <= cols,
            cols == grid.spec_cols(),
            row < grid.spec_rows(),
            scene == scene_of(grid, glyphs, frame, foreground, background),
            scene.well_formed(),
            buffer@.len() == before.len(),
            forall|k: int|
                0 <= k < before.len() ==> #[trigger] buffer@[k] == scene.byte_until(
                    before,
                    row as int,
                    col as int,
                    k,
                ),
        decreases cols - col,
    {
        let c = match grid.get(row, col) {
            Some(c) => c,
            None => ' ',
        };
        let ghost earlier = buffer@;
        paint_cell(buffer, frame, glyphs.glyph_for(c), row, col, foreground, background);
        proof {
            assert forall|k: int| 0 <= k < before.len() implies #[trigger] buffer@[k]
                == scene.byte_until(before, row as int, col + 1, k) by {
                lemma_compose_step(scene, before, earlier, row as int, col as int, k);
            }
        }
        col = col + 1;
    }
    proof {
        assert forall|k: int| 0 <= k < before.len() implies #[trigger] buffer@[k]
            == scene.byte_until(before, row + 1, 0, k) by {
            if scene.covers(before.len(), k) && scene.cell_row(k) == row {
                lemma_covered_cell(scene, before.len(), k);
            }
        }
    }
}

/// Composes the frame: paints every cell of `grid` into `buffer` with the glyph that
/// `glyphs` gives for its character, ink in `foreground` and the rest in `background`.
///
/// A buffer that is shorter than the frame is refused before any byte is written. Pixels
/// of the grid that lie outside the frame are dropped, and bytes that the grid does not
/// cover keep what they held.
pub fn composite(
    grid: &CharGrid,
    glyphs: &GlyphSource,
    frame: FrameSize,
    buffer: &mut [u8],
    foreground: Pixel,
    background: Pixel,
) -> (res: Result<(), ConfigError>)
    ensures
        res is Ok <==> frame.byte_len() <= old(buffer)@.len(),
        res matches Err(e) ==> e == ConfigError::BufferTooShort && final(buffer)@ == old(buffer)@,
        res is Ok ==> final(buffer)@ == scene_of(
            grid,
            glyphs,
            frame,
            foreground,
            background,
        ).compose(old(buffer)@),
{
    if !frame.fits_in(buffer.len()) {
        return Err(ConfigError::BufferTooShort);
    }
    let ghost scene = scene_of(grid, glyphs, frame, foreground, background);
    let ghost before = buffer@;
    let rows = grid.rows();
    let mut row: usize = 0;
    while row < rows
        invariant
            row <= rows,
            rows == grid.spec_rows(),
            scene == scene_of(grid, glyphs, frame, foreground, background),
            buffer@.len() == before.len(),
            forall|k: int|
                0 <= k < before.len() ==> #[trigger] buffer@[k] == scene.byte_until(
                    before,
                    row as int,
                    0,
                    k,
                ),
        decreases rows - row,
    {
        paint_row(grid, glyphs, frame, buffer, foreground, background, row, Ghost(before));
        row = row + 1;
    }
    proof {
        assert forall|k: int| 0 <= k < before.len() implies #[trigger] buffer@[k] == scene.byte(
            before,
            k,
        ) by {
            if scene.covers(before.len(), k) {
                lemma_covered_cell(scene, before.len(), k);
            }
        }
        assert(buffer@ =~= scene.compose(before));
    }
    Ok(())
}

/// Composing is idempotent: composing the scene over a buffer that it was already
/// composed over changes no byte.
pub proof fn law_compose_idempotent(scene: Scene, before: Seq<u8>)
    ensures
        scene.compose(scene.compose(before)) == scene.compose(before),
{
    assert(scene.compose(scene.compose(before)) =~= scene.compose(before));
}

/// Composing keeps the length of the buffer, and every byte it writes lies in the buffer
/// and in the frame: a byte that the scene does not cover is as before.
pub proof fn law_writes_stay_in_buffer(scene: Scene, before: Seq<u8>, k: int)
    ensures
        scene.compose(before).len() == before.len(),
        scene.covers(before.len(), k) ==> 0 <= k < before.len() && k < scene.frame.byte_len(),
        0 <= k < before.len() && !scene.covers(before.len(), k) ==> scene.compose(before)[k]
            == before[k],
{
    if scene.covers(before.len(), k) {
        lemma_covered_cell(scene, before.len(), k);
    }
}

/// Where the grid, rendered, is no wider and no taller than the frame, every pixel of
/// every cell has its four bytes inside the frame: no pixel is dropped, and none is
/// written outside a buffer that holds the frame.
pub proof fn law_glyph_pixels_land_in_frame(
    scene: Scene,
    row: int,
    col: int,
    local_x: int,
    local_y: int,
)
    requires
        scene.fits_frame(),
        0 <= row < scene.rows(),
        0 <= col < scene.cols,
        0 <= local_x < scene.glyph_width,
        0 <= local_y < scene.glyph_height,
    ensures
        0 <= col * scene.glyph_width + local_x < scene.frame.width,
        0 <= row * scene.glyph_height + local_y < scene.frame.height,
        0 <= offset_of(
            scene.frame.width as int,
            col * scene.glyph_width + local_x,
            row * scene.glyph_height + local_y,
        ),
        offset_of(
            scene.frame.width as int,
            col * scene.glyph_width + local_x,
            row * scene.glyph_height + local_y,
        ) + 4 <= scene.frame.byte_len(),
{
    let fw = scene.frame.width as int;
    let fh = scene.frame.height as int;
    lemma_index_in_table(col, local_x, scene.cols as int, scene.glyph_width as int);
    lemma_index_in_table(row, local_y, scene.rows() as int, scene.glyph_height as int);
    let x = col * scene.glyph_width + local_x;
    let y = row * scene.glyph_height + local_y;
    lemma_index_in_table(y, x, fh, fw);
    assert(scene.frame.width * scene.frame.height == fh * fw) by (nonlinear_arith)
        requires
            fw == scene.frame.width,
            fh == scene.frame.height,
    ;
}

/// A visible pixel in the rectangle of a cell shows the glyph of that cell's character:
/// the pixel of the glyph at the same place, counted from the top left of the rectangle.
pub proof fn law_cell_paints_its_rectangle(scene: Scene, before: Seq<u8>, row: int, col: int, k: int)
    requires
        scene.well_formed(),
        0 <= row < scene.rows(),
        0 <= col < scene.cols,
        visible(scene.frame, before.len(), k),
        in_cell(scene.glyph_width, scene.glyph_height, row, col, scene.x(k), scene.y(k)),
    ensures
        scene.compose(before)[k] == colour(
            scene.glyph_at(row, col).ink_at(
                scene.x(k) - col * scene.glyph_width,
                scene.y(k) - row * scene.glyph_height,
            ),
            scene.foreground,
            scene.background,
        ).channel(k % 4),
{
    let w = scene.glyph_width;
    let h = scene.glyph_height;
    lemma_index_of_line(k, 4);
    lemma_index_of_line(k / 4, scene.frame.width as int);
    lemma_cell_of_pixel(w, h, row, col, scene.x(k), scene.y(k));
    lemma_index_in_table(col, scene.x(k) - col * w, scene.cols as int, w as int);
    lemma_index_in_table(row, scene.y(k) - row * h, scene.rows() as int, h as int);
    assert(scene.covers(before.len(), k));
}

/// What a cell holds shows only in the rectangle of that cell: a byte whose pixel lies
/// outside the rectangle is the same whatever character the cell holds.
pub proof fn law_cell_stays_in_rectangle(
    scene: Scene,
    before: Seq<u8>,
    row: int,
    col: int,
    c: char,
    k: int,
)
    requires
        scene.well_formed(),
        0 <= row < scene.rows(),
        0 <= col < scene.cols,
        0 <= k < before.len(),
        !in_cell(scene.glyph_width, scene.glyph_height, row, col, scene.x(k), scene.y(k)),
    ensures
        scene.with_char(row, col, c).compose(before)[k] == scene.compose(before)[k],
{
    if scene.covers(before.len(), k) {
        lemma_covered_cell(scene, before.len(), k);
        lemma_cell_of_pixel(scene.glyph_width, scene.glyph_height, row, col, scene.x(k), scene.y(k));
    }
}

} // verus!
