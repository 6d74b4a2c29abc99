use vstd::prelude::*;
use embedded_graphics::pixelcolor::{IntoStorage, Rgb888};

verus! {

/// A 24-bit RGB color, 8 bits per channel.
#[derive(Debug, PartialEq, Eq, Structural, Copy, Clone)]
pub struct Color {
    pub r: u8,
    pub g: u8,
    pub b: u8,
}

/// The baseline color that fresh and resized surfaces are cleared to.
pub open spec fn baseline() -> Color {
    Color { r: 0, g: 0, b: 0 }
}

/// The 32-bit word a color is stored as: red in bits 16..24, green in 8..16, blue in 0..8.
pub open spec fn packed(c: Color) -> int {
    c.r * 65536 + c.g * 256 + c.b
}

/// The four bytes of a 32-bit word, least significant first.
pub open spec fn le_bytes(w: int) -> Seq<u8> {
    seq![(w % 256) as u8, (w / 256 % 256) as u8, (w / 65536 % 256) as u8, (w / 16777216 % 256) as u8]
}

/// The bytes that one pixel of color `c` occupies in a buffer.
pub open spec fn encode(c: Color) -> Seq<u8> {
    le_bytes(packed(c))
}

/// Relies on `IntoStorage::into_storage` for embedded-graphics' `Rgb888`, which packs the
/// channels as `r << 16 | g << 8 | b`.
#[verifier::external_body]
fn rgb888_storage(c: Color) -> (w: u32)
    ensures
        w == packed(c),
{
    Rgb888::new(c.r, c.g, c.b).into_storage()
}

impl Color {
    /// A color from its three channels.
    pub fn new(r: u8, g: u8, b: u8) -> (c: Color)
        ensures
            c == (Color { r, g, b }),
    {
        Color { r, g, b }
    }

    /// The baseline color, black.
    pub fn black() -> (c: Color)
        ensures
            c == baseline(),
    {
        Color { r: 0, g: 0, b: 0 }
    }

    /// The four bytes this color is written as, in buffer order.
    pub fn to_bytes(self) -> (r: [u8; 4])
        ensures
            r@ == encode(self),
            r@ == seq![self.b, self.g, self.r, 0u8],
    {
        let w: u32 = rgb888_storage(self);
        let r = [(w % 256) as u8, (w / 256 % 256) as u8, (w / 65536 % 256) as u8, (w / 16777216 % 256) as u8];
        assert(r@ =~= encode(self));
        proof {
            lemma_encode_channels(self);
        }
        r
    }
}

/// The packed bytes of a color are blue, green, red, then a zero byte.
pub proof fn lemma_encode_channels(c: Color)
    ensures
        encode(c) == seq![c.b, c.g, c.r, 0u8],
{
    let p = packed(c);
    assert(p % 256 == c.b) by (nonlinear_arith)
        requires p == c.r * 65536 + c.g * 256 + c.b, 0 <= c.b < 256, 0 <= c.g < 256;
    assert(p / 256 % 256 == c.g) by (nonlinear_arith)
        requires p == c.r * 65536 + c.g * 256 + c.b, 0 <= c.b < 256, 0 <= c.g < 256, 0 <= c.r < 256;
    assert(p / 65536 % 256 == c.r) by (nonlinear_arith)
        requires p == c.r * 65536 + c.g * 256 + c.b, 0 <= c.b < 256, 0 <= c.g < 256, 0 <= c.r < 256;
    assert(p / 16777216 % 256 == 0) by (nonlinear_arith)
        requires p == c.r * 65536 + c.g * 256 + c.b, 0 <= c.b < 256, 0 <= c.g < 256, 0 <= c.r < 256;
    assert(encode(c) =~= seq![c.b, c.g, c.r, 0u8]);
}

} // verus!
