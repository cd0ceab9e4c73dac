//! RGB colors whose channels are opaque 32-bit scalar words.
//!
//! A channel carries the raw bit pattern of an IEEE 754 single-precision
//! value. The library never does arithmetic on the bits, so every operation
//! on colors here is exact; numeric work on channels (blending, scaling to a
//! byte range) belongs to the caller, which converts at the boundary.

use vstd::prelude::*;

verus! {

/// One color channel: the bit pattern of a single-precision value.
pub type Channel = u32;

/// Bit pattern of the channel value zero.
pub const CHANNEL_ZERO: Channel = 0;

/// Bit pattern of the channel value one (full intensity).
pub const CHANNEL_ONE: Channel = 0x3F80_0000;

/// An RGB color of three opaque channel words.
#[derive(Clone, Copy, Debug, PartialEq, Eq, Structural)]
pub struct Color {
    pub red: Channel,
    pub green: Channel,
    pub blue: Channel,
}

/// The color every canvas pixel starts out as.
pub open spec fn spec_black() -> Color {
    Color { red: CHANNEL_ZERO, green: CHANNEL_ZERO, blue: CHANNEL_ZERO }
}

/// The color with every channel at full intensity.
pub open spec fn spec_white() -> Color {
    Color { red: CHANNEL_ONE, green: CHANNEL_ONE, blue: CHANNEL_ONE }
}

impl Color {
    pub fn new(red: Channel, green: Channel, blue: Channel) -> (c: Color)
        ensures
            c == (Color { red, green, blue }),
    {
        Color { red, green, blue }
    }

    pub fn black() -> (c: Color)
        ensures
            c == spec_black(),
    {
        Color { red: CHANNEL_ZERO, green: CHANNEL_ZERO, blue: CHANNEL_ZERO }
    }

    pub fn white() -> (c: Color)
        ensures
            c == spec_white(),
    {
        Color { red: CHANNEL_ONE, green: CHANNEL_ONE, blue: CHANNEL_ONE }
    }
}

} // verus!
