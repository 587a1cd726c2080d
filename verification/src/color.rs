use vstd::prelude::*;

verus! {

/// An sRGB colour with premultiplied alpha, one byte per channel.
#[derive(Clone, Copy, Debug, PartialEq, Eq, Hash, Structural)]
pub struct Color {
    pub r: u8,
    pub g: u8,
    pub b: u8,
    pub a: u8,
}

impl Color {
    /// The opaque colour with the given red, green and blue channels.
    pub open spec fn rgb(r: u8, g: u8, b: u8) -> Color {
        Color { r, g, b, a: 255 }
    }

    /// The opaque colour with the given red, green and blue channels.
    pub fn from_rgb(r: u8, g: u8, b: u8) -> (c: Color)
        ensures
            c == Color::rgb(r, g, b),
    {
        Color { r, g, b, a: 255 }
    }

    /// The four channels as one number: the key under which a palette
    /// remembers a colour.
    pub open spec fn key(self) -> u32 {
        (self.r as int + 256 * self.g as int + 65536 * self.b as int + 16777216 * self.a as int) as u32
    }

    /// Different colours have different keys.
    pub proof fn lemma_key_injective(a: Color, b: Color)
        requires
            a.key() == b.key(),
        ensures
            a == b,
    {
    }

    /// The key of this colour.
    pub fn pack(self) -> (k: u32)
        ensures
            k == self.key(),
    {
        self.r as u32 + 256 * (self.g as u32) + 65536 * (self.b as u32) + 16777216 * (self.a as u32)
    }

    /// The colour that marks the pen's position on top of this one: every
    /// channel moved by half its range, fully opaque.
    pub open spec fn contrast(self) -> Color {
        Color {
            r: ((self.r as int + 128) % 255) as u8,
            g: ((self.g as int + 128) % 255) as u8,
            b: ((self.b as int + 128) % 255) as u8,
            a: 255,
        }
    }
}

} // verus!
