use vstd::prelude::*;
use crate::arith::{lemma_index_in_table, lemma_index_of_line, lemma_line_in_table};
use crate::error::GlyphError;

verus! {

/// What a glyph is: a box of `width` by `height` pixels and one ink flag for each, row by
/// row from the top left.
pub struct Bitmap {
    pub width: nat,
    pub height: nat,
    pub ink: Seq<bool>,
}

impl Bitmap {
    /// Whether there is one flag for each pixel of the box.
    pub open spec fn well_formed(self) -> bool {
        self.ink.len() == self.width * self.height
    }

    /// Whether the pixel in column `x` of row `y` is ink.
    pub open spec fn ink_at(self, x: int, y: int) -> bool {
        self.ink[y * self.width + x]
    }

    /// Pixel `i` of the box in row-major order: its column, its row and its ink flag.
    pub open spec fn pixel(self, i: int) -> (usize, usize, bool) {
        ((i % (self.width as int)) as usize, (i / (self.width as int)) as usize, self.ink[i])
    }
}

/// The bitmap of one character. It is never changed once made.
pub struct Glyph {
    width: usize,
    height: usize,
    ink: Vec<bool>,
}

impl View for Glyph {
    type V = Bitmap;

    closed spec fn view(&self) -> Bitmap {
        Bitmap { width: self.width as nat, height: self.height as nat, ink: self.ink@ }
    }
}

impl Glyph {
    /// What holds of every glyph: there is one ink flag for each pixel of the box.
    #[verifier::type_invariant]
    pub closed spec fn inv(self) -> bool {
        self.ink@.len() == self.width * self.height
    }

    /// The bitmap of a glyph is well formed.
    pub proof fn lemma_inv(self)
        requires
            self.inv(),
        ensures
            self@.well_formed(),
    {
    }

    /// A glyph of `width` by `height` pixels with the ink flags `ink`, given row by row
    /// from the top left; `BadBitmapLength` unless there is one flag for each pixel.
    pub fn new(width: usize, height: usize, ink: Vec<bool>) -> (res: Result<Glyph, GlyphError>)
        ensures
            res is Ok <==> ink@.len() == width * height,
            res matches Ok(glyph) ==> glyph@ == (Bitmap {
                width: width as nat,
                height: height as nat,
                ink: ink@,
            }),
            res matches Err(e) ==> e == GlyphError::BadBitmapLength,
    {
        let n = ink.len();
        match width.checked_mul(height) {
            Some(area) => {
                if n == area {
                    Ok(Glyph { width, height, ink })
                } else {
                    Err(GlyphError::BadBitmapLength)
                }
            },
            None => Err(GlyphError::BadBitmapLength),
        }
    }

    /// The width of the box in pixels.
    pub fn width(&self) -> (w: usize)
        ensures
            w == self@.width,
    {
        self.width
    }

    /// The height of the box in pixels.
    pub fn height(&self) -> (h: usize)
        ensures
            h == self@.height,
    {
        self.height
    }

    /// The number of pixels in the box.
    pub fn area(&self) -> (n: usize)
        ensures
            n == self@.width * self@.height,
            n == self@.ink.len(),
            self@.well_formed(),
    {
        proof {
            use_type_invariant(self);
        }
        self.ink.len()
    }

    /// Whether the pixel in column `x` of row `y` is ink; `None` outside the box.
    pub fn ink(&self, x: usize, y: usize) -> (res: Option<bool>)
        ensures
            res == if x < self@.width && y < self@.height {
                Some(self@.ink_at(x as int, y as int))
            } else {
                None
            },
    {
        proof {
            use_type_invariant(self);
        }
        if x < self.width && y < self.height {
            proof {
                assert(self.ink@.len() == self.ink.len());
                lemma_index_in_table(y as int, x as int, self.height as int, self.width as int);
                assert(self.height * self.width == self.width * self.height) by (nonlinear_arith);
            }
            Some(self.ink[y * self.width + x])
        } else {
            None
        }
    }

    /// Pixel `i` of the box in row-major order, as its column, its row and its ink flag;
    /// `None` where the box has fewer pixels. Walking `i` from 0 up to [`Glyph::area`]
    /// visits every pixel of the box once, ink or not.
    pub fn pixel(&self, i: usize) -> (res: Option<(usize, usize, bool)>)
        ensures
            res == if i < self@.width * self@.height {
                Some(self@.pixel(i as int))
            } else {
                None
            },
            res matches Some(p) ==> {
                &&& p.0 < self@.width
                &&& p.1 < self@.height
                &&& p.0 == i as int % self@.width as int
                &&& p.1 == i as int / self@.width as int
                &&& p.2 == self@.ink_at(p.0 as int, p.1 as int)
            },
    {
        proof {
            use_type_invariant(self);
        }
        if i < self.ink.len() {
            proof {
                assert(self.width > 0) by (nonlinear_arith)
                    requires
                        0 <= i < self.width * self.height,
                ;
                lemma_index_of_line(i as int, self.width as int);
                assert(self.height * self.width == self.width * self.height) by (nonlinear_arith);
                lemma_line_in_table(i as int, self.height as int, self.width as int);
            }
            Some((i % self.width, i / self.width, self.ink[i]))
        } else {
            None
        }
    }

    /// All pixels of the box in row-major order, each as its column, its row and its ink
    /// flag.
    pub fn pixels(&self) -> (out: Vec<(usize, usize, bool)>)
        ensures
            out@ == Seq::new(self@.width * self@.height, |i: int| self@.pixel(i)),
    {
        let n = self.area();
        let mut out: Vec<(usize, usize, bool)> = Vec::new();
        let mut i: usize = 0;
        while i < n
            invariant
                i <= n,
                n == self@.width * self@.height,
                out@ == Seq::new(i as nat, |k: int| self@.pixel(k)),
            decreases n - i,
        {
            match self.pixel(i) {
                Some(p) => {
                    out.push(p);
                },
                None => {},
            }
            i = i + 1;
            assert(out@ =~= Seq::new(i as nat, |k: int| self@.pixel(k)));
        }
        out
    }
}

} // verus!
