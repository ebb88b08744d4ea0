//! The colour vocabulary shared by both sinks.
use vstd::prelude::*;

use crate::text::{hex_byte, hex_digit_value, law_hex_byte_reads_back, push_char, push_hex_byte};

verus! {

/// An sRGB stroke color, 8 bits per channel.
#[derive(Clone, Copy, Debug, PartialEq, Eq, Structural)]
pub struct Rgb {
    /// Red channel.
    pub r: u8,
    /// Green channel.
    pub g: u8,
    /// Blue channel.
    pub b: u8,
}

impl Rgb {
    /// Pure white — the default stroke for the assumed dark background.
    pub fn white() -> (c: Rgb)
        ensures
            c == (Rgb { r: 255, g: 255, b: 255 }),
    {
        Rgb { r: 255, g: 255, b: 255 }
    }

    /// Pure black — the raster sink's default background.
    pub fn black() -> (c: Rgb)
        ensures
            c == (Rgb { r: 0, g: 0, b: 0 }),
    {
        Rgb { r: 0, g: 0, b: 0 }
    }

    /// The three channels in the order a raster stores them.
    pub open spec fn channels(self) -> Seq<u8> {
        seq![self.r, self.g, self.b]
    }
}

/// The SVG spelling of a colour: `#` and two lowercase hex digits per channel.
pub open spec fn hex_color(c: Rgb) -> Seq<char> {
    seq!['#'] + hex_byte(c.r) + hex_byte(c.g) + hex_byte(c.b)
}

/// Lowercase `#rrggbb`, always six digits.
pub fn hex(color: Rgb) -> (s: String)
    ensures
        s@ == hex_color(color),
{
    let mut s = String::new();
    push_char(&mut s, '#');
    push_hex_byte(&mut s, color.r);
    push_hex_byte(&mut s, color.g);
    push_hex_byte(&mut s, color.b);
    assert(s@ =~= hex_color(color));
    s
}

/// The colour spelling is seven characters, `#` then six lowercase hex
/// digits, and distinct colours are spelled differently.
pub proof fn law_hex_color_is_exact(a: Rgb, b: Rgb)
    ensures
        hex_color(a).len() == 7,
        hex_color(a)[0] == '#',
        forall|i: int|
            1 <= i < 7 ==> ('0' <= #[trigger] hex_color(a)[i] <= '9' || 'a' <= hex_color(a)[i]
                <= 'f'),
        hex_color(a) == hex_color(b) ==> a == b,
{
    if hex_color(a) == hex_color(b) {
        lemma_hex_byte_injective(a.r, b.r, hex_color(a)[1], hex_color(a)[2], hex_color(b)[1], hex_color(b)[2]);
        lemma_hex_byte_injective(a.g, b.g, hex_color(a)[3], hex_color(a)[4], hex_color(b)[3], hex_color(b)[4]);
        lemma_hex_byte_injective(a.b, b.b, hex_color(a)[5], hex_color(a)[6], hex_color(b)[5], hex_color(b)[6]);
    }
}

/// The colour spelling reads back as the colour: after the `#`, each pair
/// of hex digits is worth its channel, red, green and blue in that order.
pub proof fn law_hex_color_reads_back(c: Rgb)
    ensures
        hex_color(c).len() == 7,
        hex_digit_value(hex_color(c)[1]) * 16 + hex_digit_value(hex_color(c)[2]) == c.r,
        hex_digit_value(hex_color(c)[3]) * 16 + hex_digit_value(hex_color(c)[4]) == c.g,
        hex_digit_value(hex_color(c)[5]) * 16 + hex_digit_value(hex_color(c)[6]) == c.b,
{
    law_hex_byte_reads_back(c.r);
    law_hex_byte_reads_back(c.g);
    law_hex_byte_reads_back(c.b);
    assert(hex_color(c)[1] == hex_byte(c.r)[0] && hex_color(c)[2] == hex_byte(c.r)[1]);
    assert(hex_color(c)[3] == hex_byte(c.g)[0] && hex_color(c)[4] == hex_byte(c.g)[1]);
    assert(hex_color(c)[5] == hex_byte(c.b)[0] && hex_color(c)[6] == hex_byte(c.b)[1]);
}

/// Two bytes with the same two hex digits are the same byte.
proof fn lemma_hex_byte_injective(x: u8, y: u8, x1: char, x2: char, y1: char, y2: char)
    requires
        hex_byte(x) == seq![x1, x2],
        hex_byte(y) == seq![y1, y2],
        x1 == y1,
        x2 == y2,
    ensures
        x == y,
{
    assert(hex_byte(x)[0] == hex_byte(y)[0]);
    assert(hex_byte(x)[1] == hex_byte(y)[1]);
    assert(x / 16 == y / 16);
    assert(x % 16 == y % 16);
}

} // verus!
