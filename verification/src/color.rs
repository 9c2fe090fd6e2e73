//! Plain RGBA color values and the byte layout used by the pixel buffer.
use vstd::prelude::*;

verus! {

/// A color, one byte per channel, stored in the buffer in R, G, B, A order.
#[derive(Clone, Copy, Debug, PartialEq, Eq, Structural)]
pub struct RGBA {
    pub r: u8,
    pub g: u8,
    pub b: u8,
    pub a: u8,
}

/// The byte that channel `k` of a pixel painted in color `c` holds:
/// `k` counts R, G, B, A as 0, 1, 2, 3.
pub open spec fn channel(c: RGBA, k: int) -> u8 {
    if k == 0 {
        c.r
    } else if k == 1 {
        c.g
    } else if k == 2 {
        c.b
    } else {
        c.a
    }
}

} // verus!
