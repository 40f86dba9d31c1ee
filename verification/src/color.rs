//! Colors as plain red/green/blue/alpha bytes, as they travel on the
//! wire.
use vstd::prelude::*;

verus! {

/// An RGBA color.
#[derive(Clone, Copy, PartialEq, Eq, Structural, Debug)]
pub struct Rgba {
    pub r: u8,
    pub g: u8,
    pub b: u8,
    pub a: u8,
}

impl Rgba {
    /// The color with full alpha.
    pub fn from_rgb(r: u8, g: u8, b: u8) -> (c: Rgba)
        ensures
            c == (Rgba { r, g, b, a: 255 }),
    {
        Rgba { r, g, b, a: 255 }
    }

    /// The same color made fully opaque.
    pub fn to_opaque(self) -> (c: Rgba)
        ensures
            c == (Rgba { r: self.r, g: self.g, b: self.b, a: 255 }),
    {
        Rgba { r: self.r, g: self.g, b: self.b, a: 255 }
    }
}

} // verus!
