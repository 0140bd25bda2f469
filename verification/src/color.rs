//! Colours with three 8-bit channels.

use vstd::prelude::*;

verus! {

/// An opaque RGB colour.
#[derive(Clone, Copy, Debug, PartialEq, Eq, Structural)]
pub struct Color {
    pub r: u8,
    pub g: u8,
    pub b: u8,
}

impl Color {
    /// The colour as one number, `0xRRGGBB`.
    pub open spec fn packed(self) -> nat {
        (self.r * 65536 + self.g * 256 + self.b) as nat
    }

    /// One channel darkened by `intensity / 255`, rounded down.
    pub open spec fn shade_channel(channel: u8, intensity: u8) -> int {
        (channel * intensity) / 255
    }

    /// The colour darkened by `intensity / 255` in every channel.
    pub open spec fn shaded_spec(self, intensity: u8) -> Color {
        Color {
            r: Self::shade_channel(self.r, intensity) as u8,
            g: Self::shade_channel(self.g, intensity) as u8,
            b: Self::shade_channel(self.b, intensity) as u8,
        }
    }

    pub fn new(r: u8, g: u8, b: u8) -> (c: Color)
        ensures
            c == (Color { r, g, b }),
    {
        Color { r, g, b }
    }

    /// The colour as `0xRRGGBB`, the layout a presentation surface reads.
    pub fn to_u32(self) -> (p: u32)
        ensures
            p == self.packed(),
    {
        let r: u32 = self.r as u32;
        let g: u32 = self.g as u32;
        let b: u32 = self.b as u32;
        r * 65536 + g * 256 + b
    }

    /// The colour that `0xRRGGBB` denotes; higher bits are ignored.
    pub fn from_u32(p: u32) -> (c: Color)
        ensures
            c.r == (p / 65536) % 256,
            c.g == (p / 256) % 256,
            c.b == p % 256,
    {
        Color {
            r: ((p / 65536) % 256) as u8,
            g: ((p / 256) % 256) as u8,
            b: (p % 256) as u8,
        }
    }

    /// Scales every channel by `intensity / 255`; 255 leaves the colour as it is.
    pub fn shaded(self, intensity: u8) -> (c: Color)
        ensures
            c == self.shaded_spec(intensity),
            c.r <= self.r && c.g <= self.g && c.b <= self.b,
            intensity == 255 ==> c == self,
            intensity == 0 ==> c == (Color { r: 0, g: 0, b: 0 }),
    {
        Color {
            r: shade(self.r, intensity),
            g: shade(self.g, intensity),
            b: shade(self.b, intensity),
        }
    }
}

/// Packing and unpacking a colour gives the colour back.
pub proof fn lemma_pack_round_trip(c: Color)
    ensures
        c.packed() <= 0xFF_FFFF,
        (c.packed() / 65536) % 256 == c.r,
        (c.packed() / 256) % 256 == c.g,
        c.packed() % 256 == c.b,
{
}

fn shade(channel: u8, intensity: u8) -> (s: u8)
    ensures
        s == Color::shade_channel(channel, intensity),
        s <= channel,
        intensity == 255 ==> s == channel,
        intensity == 0 ==> s == 0,
{
    let c: u32 = channel as u32;
    let i: u32 = intensity as u32;
    assert(c * i <= c * 255) by (nonlinear_arith)
        requires
            0 <= c,
            i <= 255,
    ;
    assert(i == 0 ==> c * i == 0) by (nonlinear_arith);
    let s: u32 = (c * i) / 255;
    s as u8
}

} // verus!
