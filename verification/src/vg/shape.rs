//! Colour channels and gradient modes of shapes.
use vstd::prelude::*;

verus! {

/// How a shape's fill blends into its gradient colour.
#[derive(Clone, Copy, Debug, PartialEq, Eq, Structural)]
pub enum GradMode {
    Solid,
    Linear,
    Radial,
}

impl Default for GradMode {
    fn default() -> (m: Self)
        ensures
            m == GradMode::Solid,
    {
        GradMode::Solid
    }
}

/// The four 8-bit channels of a packed colour.
#[derive(Clone, Copy, Debug, PartialEq, Eq, Structural)]
pub struct Channels8 {
    pub r: u8,
    pub g: u8,
    pub b: u8,
    pub a: u8,
}

/// Splits a packed `0xAARRGGBB` colour into its channels; the channels are the
/// four bytes of the value, high to low: alpha, red, green, blue.
pub fn argb_channels(argb: u32) -> (c: Channels8)
    ensures
        c.a == argb / 0x100_0000,
        c.r == (argb / 0x1_0000) % 0x100,
        c.g == (argb / 0x100) % 0x100,
        c.b == argb % 0x100,
        argb == c.a * 0x100_0000 + c.r * 0x1_0000 + c.g * 0x100 + c.b,
{
    let r = ((argb >> 16) & 0xFF) as u8;
    let g = ((argb >> 8) & 0xFF) as u8;
    let b = (argb & 0xFF) as u8;
    let a = ((argb >> 24) & 0xFF) as u8;
    assert(((argb >> 16) & 0xFF) == (argb / 0x1_0000) % 0x100) by (bit_vector);
    assert(((argb >> 8) & 0xFF) == (argb / 0x100) % 0x100) by (bit_vector);
    assert((argb & 0xFF) == argb % 0x100) by (bit_vector);
    assert(((argb >> 24) & 0xFF) == argb / 0x100_0000) by (bit_vector);
    assert(argb == (argb / 0x100_0000) * 0x100_0000 + ((argb / 0x1_0000) % 0x100) * 0x1_0000 + ((argb
        / 0x100) % 0x100) * 0x100 + argb % 0x100) by (bit_vector);
    Channels8 { r, g, b, a }
}

} // verus!
