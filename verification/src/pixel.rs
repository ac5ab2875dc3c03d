use vstd::prelude::*;

verus! {

/// One pixel of a frame: red, green, blue and alpha, eight bits each.
#[derive(Clone, Copy, Debug, PartialEq, Eq, Structural)]
pub struct Pixel {
    pub r: u8,
    pub g: u8,
    pub b: u8,
    pub a: u8,
}

impl Pixel {
    /// The byte of channel `i`, in the order of the bytes in a frame: red, green, blue,
    /// alpha.
    pub open spec fn channel(self, i: int) -> u8 {
        if i == 0 {
            self.r
        } else if i == 1 {
            self.g
        } else if i == 2 {
            self.b
        } else {
            self.a
        }
    }

    /// The four bytes of the pixel as they stand in a frame.
    pub open spec fn bytes(self) -> Seq<u8> {
        seq![self.r, self.g, self.b, self.a]
    }

    pub fn new(r: u8, g: u8, b: u8, a: u8) -> (px: Pixel)
        ensures
            px == (Pixel { r, g, b, a }),
    {
        Pixel { r, g, b, a }
    }

    /// Opaque black.
    pub fn black() -> (px: Pixel)
        ensures
            px == (Pixel { r: 0, g: 0, b: 0, a: 255 }),
    {
        Pixel { r: 0, g: 0, b: 0, a: 255 }
    }

    /// Opaque white.
    pub fn white() -> (px: Pixel)
        ensures
            px == (Pixel { r: 255, g: 255, b: 255, a: 255 }),
    {
        Pixel { r: 255, g: 255, b: 255, a: 255 }
    }

    /// The four bytes of the pixel as they stand in a frame.
    pub fn to_bytes(self) -> (out: [u8; 4])
        ensures
            out@ == self.bytes(),
    {
        let out = [self.r, self.g, self.b, self.a];
        assert(out@ =~= self.bytes());
        out
    }
}

} // verus!
