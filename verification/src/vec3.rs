//! Three scalars: a point, a direction or a colour.

use crate::scalar::Scalar;
use vstd::prelude::*;

verus! {

/// Three single-precision numbers, each held as its word.
#[derive(Clone, Copy, Debug, PartialEq, Eq, Structural)]
pub struct Vec3 {
    pub x: Scalar,
    pub y: Scalar,
    pub z: Scalar,
}

/// Three channel values in one word: blue in the low byte, green in the next,
/// red above it. A channel of more than eight bits is not clamped: it runs
/// over into the bits above, and what passes the top of the word is lost.
pub open spec fn pack_rgb(red: u32, green: u32, blue: u32) -> u32 {
    blue | (green << 8) | (red << 16)
}

impl Vec3 {
    /// The vector of three components, `x` first.
    pub fn from_array(arr: [Scalar; 3]) -> (v: Vec3)
        ensures
            v.x == arr[0],
            v.y == arr[1],
            v.z == arr[2],
    {
        Vec3 { x: arr[0], y: arr[1], z: arr[2] }
    }

    /// The three components, `x` first.
    pub fn to_array(&self) -> (arr: [Scalar; 3])
        ensures
            arr[0] == self.x,
            arr[1] == self.y,
            arr[2] == self.z,
    {
        [self.x, self.y, self.z]
    }

    /// The colour as one 24-bit word, red high.
    ///
    /// The three components are read on the display scale, on which 255 is
    /// full intensity: `x` is red, `y` green, `z` blue. Each is truncated to
    /// an integer as the numeric cast does it, and the three are packed
    /// without clamping.
    pub fn to_color(&self) -> (color: u32)
        ensures
            color == pack_rgb(self.x.to_u32(), self.y.to_u32(), self.z.to_u32()),
    {
        let red: u32 = self.x.to_u32();
        let green: u32 = self.y.to_u32();
        let blue: u32 = self.z.to_u32();
        blue | (green << 8) | (red << 16)
    }

    /// The colour as three bytes, red first, each component truncated from
    /// the display scale and held to 0..=255.
    pub fn to_rgb(&self) -> (rgb: [u8; 3])
        ensures
            rgb[0] == self.x.to_u8(),
            rgb[1] == self.y.to_u8(),
            rgb[2] == self.z.to_u8(),
    {
        [self.x.to_u8(), self.y.to_u8(), self.z.to_u8()]
    }
}

/// Channels that fit a byte each keep their place in the packed word: it is
/// their weighted sum, and each is read back by a shift and a mask.
pub proof fn lemma_pack_rgb_of_bytes(red: u32, green: u32, blue: u32)
    requires
        red < 256,
        green < 256,
        blue < 256,
    ensures
        pack_rgb(red, green, blue) == red * 0x1_0000 + green * 0x100 + blue,
        pack_rgb(red, green, blue) < 0x100_0000,
        pack_rgb(red, green, blue) >> 16 == red,
        (pack_rgb(red, green, blue) >> 8) & 0xFF == green,
        pack_rgb(red, green, blue) & 0xFF == blue,
{
    assert((blue | (green << 8) | (red << 16)) == red * 0x1_0000 + green * 0x100 + blue)
        by (bit_vector)
        requires
            red < 256,
            green < 256,
            blue < 256,
    ;
    assert((blue | (green << 8) | (red << 16)) >> 16 == red) by (bit_vector)
        requires
            red < 256,
            green < 256,
            blue < 256,
    ;
    assert(((blue | (green << 8) | (red << 16)) >> 8) & 0xFF == green) by (bit_vector)
        requires
            red < 256,
            green < 256,
            blue < 256,
    ;
    assert((blue | (green << 8) | (red << 16)) & 0xFF == blue) by (bit_vector)
        requires
            red < 256,
            green < 256,
            blue < 256,
    ;
}

} // verus!
