use vstd::prelude::*;

verus! {

/// A 24-bit colour: one byte each for red, green and blue.
#[derive(Clone, Copy, Debug, PartialEq, Eq, Structural)]
pub struct Pixel {
    pub r: u8,
    pub g: u8,
    pub b: u8,
}

/// The `k`-th byte of a pixel as it is stored on disk: blue, green, red.
pub open spec fn channel(p: Pixel, k: int) -> u8 {
    if k == 0 {
        p.b
    } else if k == 1 {
        p.g
    } else {
        p.r
    }
}

} // verus!
