use vstd::prelude::*;

verus! {

/// An 8-bit-per-channel RGBA colour.
#[derive(Debug, Clone, Copy, PartialEq, Eq, Structural)]
pub struct Color {
    pub r: u8,
    pub g: u8,
    pub b: u8,
    pub a: u8,
}

/// Opaque white.
pub open spec fn white() -> Color {
    Color { r: 255, g: 255, b: 255, a: 255 }
}

/// The word whose little-endian bytes are `b0, b1, b2, b3`.
pub open spec fn le_word(b0: u8, b1: u8, b2: u8, b3: u8) -> int {
    b0 + 256 * b1 + 65536 * b2 + 16777216 * b3
}

impl Color {
    /// The packed value of this colour: red in the lowest byte, alpha in the highest.
    pub open spec fn packed(self) -> int {
        le_word(self.r, self.g, self.b, self.a)
    }

    /// Packs the colour into a `u32` laid out as the bytes `[r, g, b, a]`
    /// read in little-endian order.
    pub fn to_u32(&self) -> (word: u32)
        ensures
            word == self.packed(),
    {
        let r = self.r as u32;
        let g = self.g as u32;
        let b = self.b as u32;
        let a = self.a as u32;
        let word = r | (g << 8u32) | (b << 16u32) | (a << 24u32);
        assert(word == r + 256 * g + 65536 * b + 16777216 * a) by (bit_vector)
            requires
                word == r | (g << 8u32) | (b << 16u32) | (a << 24u32),
                r < 256,
                g < 256,
                b < 256,
                a < 256,
        ;
        word
    }
}

} // verus!
