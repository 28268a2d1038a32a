//! Fixed 8-bit-per-channel RGBA color values and the dark-theme palette.

use vstd::prelude::*;

verus! {

/// An RGBA color with one byte per channel. A plain value type: two colors
/// are equal exactly when all four channels are equal.
#[derive(Debug, Clone, Copy, PartialEq, Eq, Structural)]
pub struct Color {
    pub r: u8,
    pub g: u8,
    pub b: u8,
    pub a: u8,
}

impl Color {
    /// An opaque color from its three color channels.
    pub fn rgb(r: u8, g: u8, b: u8) -> (c: Color)
        ensures
            c == (Color { r, g, b, a: 255 }),
    {
        Color { r, g, b, a: 255 }
    }

    /// A color from all four channels.
    pub fn rgba(r: u8, g: u8, b: u8, a: u8) -> (c: Color)
        ensures
            c == (Color { r, g, b, a }),
    {
        Color { r, g, b, a }
    }

    /// The three color channels, without the alpha byte.
    pub fn as_tuple(&self) -> (t: (u8, u8, u8))
        ensures
            t == (self.r, self.g, self.b),
    {
        (self.r, self.g, self.b)
    }

    /// The fully transparent color.
    pub fn transparent() -> (c: Color)
        ensures
            c == (Color { r: 0, g: 0, b: 0, a: 0 }),
    {
        Color { r: 0, g: 0, b: 0, a: 0 }
    }

    /// Primary dark-theme background.
    pub fn bg_primary() -> (c: Color)
        ensures
            c == (Color { r: 40, g: 40, b: 40, a: 255 }),
    {
        Color { r: 40, g: 40, b: 40, a: 255 }
    }

    /// Secondary dark-theme background.
    pub fn bg_secondary() -> (c: Color)
        ensures
            c == (Color { r: 50, g: 50, b: 50, a: 255 }),
    {
        Color { r: 50, g: 50, b: 50, a: 255 }
    }

    /// Tertiary dark-theme background.
    pub fn bg_tertiary() -> (c: Color)
        ensures
            c == (Color { r: 30, g: 30, b: 30, a: 255 }),
    {
        Color { r: 30, g: 30, b: 30, a: 255 }
    }

    /// Primary text color.
    pub fn text_primary() -> (c: Color)
        ensures
            c == (Color { r: 255, g: 255, b: 255, a: 255 }),
    {
        Color { r: 255, g: 255, b: 255, a: 255 }
    }

    /// Secondary text color.
    pub fn text_secondary() -> (c: Color)
        ensures
            c == (Color { r: 200, g: 200, b: 200, a: 255 }),
    {
        Color { r: 200, g: 200, b: 200, a: 255 }
    }

    /// Tertiary text color.
    pub fn text_tertiary() -> (c: Color)
        ensures
            c == (Color { r: 150, g: 150, b: 150, a: 255 }),
    {
        Color { r: 150, g: 150, b: 150, a: 255 }
    }

    /// Standard border color.
    pub fn border() -> (c: Color)
        ensures
            c == (Color { r: 70, g: 70, b: 70, a: 255 }),
    {
        Color { r: 70, g: 70, b: 70, a: 255 }
    }

    /// Lighter border color.
    pub fn border_light() -> (c: Color)
        ensures
            c == (Color { r: 90, g: 90, b: 90, a: 255 }),
    {
        Color { r: 90, g: 90, b: 90, a: 255 }
    }

    /// Accent color.
    pub fn accent() -> (c: Color)
        ensures
            c == (Color { r: 0, g: 122, b: 255, a: 255 }),
    {
        Color { r: 0, g: 122, b: 255, a: 255 }
    }

    /// Success indicator color.
    pub fn success() -> (c: Color)
        ensures
            c == (Color { r: 52, g: 199, b: 89, a: 255 }),
    {
        Color { r: 52, g: 199, b: 89, a: 255 }
    }

    /// Warning indicator color.
    pub fn warning() -> (c: Color)
        ensures
            c == (Color { r: 255, g: 149, b: 0, a: 255 }),
    {
        Color { r: 255, g: 149, b: 0, a: 255 }
    }

    /// Error indicator color.
    pub fn error() -> (c: Color)
        ensures
            c == (Color { r: 255, g: 59, b: 48, a: 255 }),
    {
        Color { r: 255, g: 59, b: 48, a: 255 }
    }
}

} // verus!
