//! Positions and sizes that need not be whole pixels, as fixed-point numbers.

use vstd::prelude::*;

verus! {

/// Units to one pixel. Single-precision coordinates of a pixel and above are
/// whole multiples of this unit.
pub const UNIT: i64 = 0x80_0000;

/// Largest magnitude of a coordinate: thirty-two bits of whole pixels.
pub const EXTENT: i64 = 0x80_0000_0000_0000;

/// Whole pixels below a coordinate, negative ones as zero.
pub fn whole(v: i64) -> (px: u64)
    ensures
        px == (if v >= 0 { v as int / UNIT as int } else { 0 }),
{
    if v >= 0 {
        (v / UNIT) as u64
    } else {
        0
    }
}

/// A coordinate lies in the pixel that is counted, and negative ones count as
/// none.
pub proof fn coordinates_lie_in_their_pixel(v: i64, px: u64)
    requires
        call_ensures(whole, (v,), px),
    ensures
        v >= 0 ==> px * 0x80_0000 <= v < (px + 1) * 0x80_0000,
        v < 0 ==> px == 0,
{
}

} // verus!
