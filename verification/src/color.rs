//! Colors as the terminal exchanges them.

use vstd::prelude::*;

verus! {

#[derive(Clone, Copy, Debug, PartialEq, Eq, Structural)]
pub struct Rgb {
    pub r: u8,
    pub g: u8,
    pub b: u8,
}

pub fn rgb(r: u8, g: u8, b: u8) -> (c: Rgb)
    ensures
        c == (Rgb { r, g, b }),
{
    Rgb { r, g, b }
}

/// A color has the channels that it was made of.
pub proof fn colors_keep_their_channels(r: u8, g: u8, b: u8, c: Rgb)
    requires
        call_ensures(rgb, (r, g, b), c),
    ensures
        c.r == r && c.g == g && c.b == b,
{
}

} // verus!
