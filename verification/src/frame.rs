use vstd::prelude::*;
use crate::pixel::Pixel;

verus! {

/// The size of a frame in pixels. A frame is a flat run of bytes, four to a pixel, row by
/// row from the top left and without padding.
#[derive(Clone, Copy, Debug, PartialEq, Eq, Structural)]
pub struct FrameSize {
    pub width: usize,
    pub height: usize,
}

/// The offset of the first byte of the pixel in column `x` of row `y`, in a frame that is
/// `width` pixels wide.
pub open spec fn offset_of(width: int, x: int, y: int) -> int {
    (y * width + x) * 4
}

/// The column of the pixel that byte `k` of a frame belongs to.
pub open spec fn column_of(width: int, k: int) -> int {
    (k / 4) % width
}

/// The row of the pixel that byte `k` of a frame belongs to.
pub open spec fn row_of(width: int, k: int) -> int {
    (k / 4) / width
}

/// The bytes with the pixel at `offset` replaced by `px`.
pub open spec fn with_pixel(bytes: Seq<u8>, offset: int, px: Pixel) -> Seq<u8> {
    Seq::new(
        bytes.len(),
        |k: int|
            if offset <= k < offset + 4 {
                px.channel(k - offset)
            } else {
                bytes[k]
            },
    )
}

impl FrameSize {
    /// The number of bytes in a frame of this size.
    pub open spec fn byte_len(self) -> int {
        self.width * self.height * 4
    }

    /// Whether a buffer of `len` bytes holds a whole frame of this size.
    pub fn fits_in(self, len: usize) -> (fits: bool)
        ensures
            fits == (self.byte_len() <= len),
    {
        match self.width.checked_mul(self.height) {
            Some(pixels) => match pixels.checked_mul(4) {
                Some(bytes) => bytes <= len,
                None => false,
            },
            None => {
                assert(self.width * self.height * 4 > len) by (nonlinear_arith)
                    requires
                        self.width * self.height > usize::MAX,
                        len <= usize::MAX,
                ;
                false
            },
        }
    }
}

/// The one place where a pixel of a glyph is given its place in the frame: the offset of
/// the pixel at `(local_x, local_y)` in the glyph of the cell at `(row, col)`, for glyphs
/// of `glyph_width` by `glyph_height` pixels.
///
/// The result is `None` for a pixel that lies outside the frame, to the right or below,
/// and for one whose four bytes no buffer could hold.
pub fn byte_offset(
    frame: FrameSize,
    glyph_width: usize,
    glyph_height: usize,
    row: usize,
    col: usize,
    local_x: usize,
    local_y: usize,
) -> (res: Option<usize>)
    ensures
        res == if col * glyph_width + local_x < frame.width && row * glyph_height + local_y
            < frame.height && offset_of(
            frame.width as int,
            col * glyph_width + local_x,
            row * glyph_height + local_y,
        ) + 4 <= usize::MAX {
            Some(
                offset_of(
                    frame.width as int,
                    col * glyph_width + local_x,
                    row * glyph_height + local_y,
                ) as usize,
            )
        } else {
            None
        },
{
    let ghost gx = col * glyph_width + local_x;
    let ghost gy = row * glyph_height + local_y;
    assert(0 <= col * glyph_width && 0 <= row * glyph_height) by (nonlinear_arith);
    let x: usize = match col.checked_mul(glyph_width) {
        Some(left) => match left.checked_add(local_x) {
            Some(x) => x,
            None => { return None; },
        },
        None => { return None; },
    };
    let y: usize = match row.checked_mul(glyph_height) {
        Some(top) => match top.checked_add(local_y) {
            Some(y) => y,
            None => { return None; },
        },
        None => { return None; },
    };
    if x >= frame.width || y >= frame.height {
        return None;
    }
    assert(0 <= y * frame.width) by (nonlinear_arith);
    let pixel: usize = match y.checked_mul(frame.width) {
        Some(before) => match before.checked_add(x) {
            Some(pixel) => pixel,
            None => { return None; },
        },
        None => { return None; },
    };
    match pixel.checked_mul(4) {
        Some(offset) => match offset.checked_add(4) {
            Some(end) => Some(offset),
            None => None,
        },
        None => None,
    }
}

/// Writes `px` at `offset` and returns `true`; where the buffer does not hold four bytes
/// from `offset` on, writes nothing and returns `false`.
pub fn put_pixel(buffer: &mut [u8], offset: usize, px: Pixel) -> (written: bool)
    ensures
        written == (offset + 4 <= old(buffer)@.len()),
        final(buffer)@ == if written {
            with_pixel(old(buffer)@, offset as int, px)
        } else {
            old(buffer)@
        },
{
    let len = buffer.len();
    if len < 4 || offset > len - 4 {
        return false;
    }
    buffer[offset] = px.r;
    buffer[offset + 1] = px.g;
    buffer[offset + 2] = px.b;
    buffer[offset + 3] = px.a;
    assert(buffer@ =~= with_pixel(old(buffer)@, offset as int, px));
    true
}

} // verus!
