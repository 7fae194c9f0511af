use vstd::prelude::*;

verus! {

/// A color with 8-bit red, green, blue and alpha channels.
#[derive(Clone, Copy, Debug, PartialEq, Eq, Structural)]
pub struct Rgba {
    pub r: u8,
    pub g: u8,
    pub b: u8,
    pub a: u8,
}

/// A foreground / background color pair.
#[derive(Clone, Copy, Debug, PartialEq, Eq, Structural)]
pub struct ColorPair {
    pub fg: Rgba,
    pub bg: Rgba,
}

pub open spec fn opaque_white() -> Rgba {
    Rgba { r: 255, g: 255, b: 255, a: 255 }
}

pub open spec fn opaque_black() -> Rgba {
    Rgba { r: 0, g: 0, b: 0, a: 255 }
}

impl Rgba {
    pub fn from_u8(r: u8, g: u8, b: u8, a: u8) -> (c: Rgba)
        ensures
            c == (Rgba { r, g, b, a }),
    {
        Rgba { r, g, b, a }
    }

    pub fn white() -> (c: Rgba)
        ensures
            c == opaque_white(),
    {
        Rgba { r: 255, g: 255, b: 255, a: 255 }
    }

    pub fn black() -> (c: Rgba)
        ensures
            c == opaque_black(),
    {
        Rgba { r: 0, g: 0, b: 0, a: 255 }
    }

    /// The same color with its alpha channel replaced.
    pub fn with_alpha(self, a: u8) -> (c: Rgba)
        ensures
            c == (Rgba { a, ..self }),
    {
        Rgba { a, ..self }
    }
}

impl ColorPair {
    pub fn new(fg: Rgba, bg: Rgba) -> (p: ColorPair)
        ensures
            p == (ColorPair { fg, bg }),
    {
        ColorPair { fg, bg }
    }
}

} // verus!
