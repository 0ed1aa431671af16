//! The 4-channel color model of the tile images.

use vstd::prelude::*;

verus! {

/// An RGBA color with 8-bit channels, the storage form of every tile pixel.
#[derive(Clone, Copy, Debug, PartialEq, Eq, Structural)]
pub struct Color {
    pub red: u8,
    pub green: u8,
    pub blue: u8,
    pub alpha: u8,
}

impl Color {
    /// Builds a color from its four channels.
    pub fn new(red: u8, green: u8, blue: u8, alpha: u8) -> (c: Color)
        ensures
            c == (Color { red, green, blue, alpha }),
    {
        Color { red, green, blue, alpha }
    }

    /// An opaque gray level: all three color channels at `v`, full alpha.
    pub fn gray(v: u8) -> (c: Color)
        ensures
            c == (Color { red: v, green: v, blue: v, alpha: 255u8 }),
    {
        Color { red: v, green: v, blue: v, alpha: 255 }
    }
}

/// The opaque white background color.
pub open spec fn white_spec() -> Color {
    Color { red: 255u8, green: 255u8, blue: 255u8, alpha: 255u8 }
}

/// The fully transparent background color.
pub open spec fn transparent_spec() -> Color {
    Color { red: 0u8, green: 0u8, blue: 0u8, alpha: 0u8 }
}

/// The opaque white background color.
pub fn white() -> (c: Color)
    ensures
        c == white_spec(),
{
    Color { red: 255, green: 255, blue: 255, alpha: 255 }
}

/// The fully transparent background color.
pub fn transparent() -> (c: Color)
    ensures
        c == transparent_spec(),
{
    Color { red: 0, green: 0, blue: 0, alpha: 0 }
}

/// Clamps an integer mean to the 8-bit channel range, the quantization step
/// of the color model.
pub open spec fn clamp_channel_spec(v: int) -> u8 {
    if v < 0 {
        0u8
    } else if v > 255 {
        255u8
    } else {
        v as u8
    }
}

/// Clamps a 64-bit channel sum to the 8-bit storage range.
pub fn clamp_channel(v: i64) -> (r: u8)
    ensures
        r == clamp_channel_spec(v as int),
{
    if v < 0 {
        0
    } else if v > 255 {
        255
    } else {
        v as u8
    }
}

} // verus!
