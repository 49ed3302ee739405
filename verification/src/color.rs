//! Packed `0x00RRGGBB` pixels.

use vstd::prelude::*;

verus! {

/// The value of a pixel whose red, green and blue channels are `r`, `g`, `b`.
pub open spec fn packed(r: u8, g: u8, b: u8) -> int {
    r * 65536 + g * 256 + b
}

/// Packs three 8-bit channels into one pixel word, red in bits 16..24,
/// green in bits 8..16 and blue in bits 0..8.
pub fn pack_rgb(r: u8, g: u8, b: u8) -> (pixel: u32)
    ensures
        pixel == packed(r, g, b),
        pixel == r * 65536 + g * 256 + b,
        pixel < 0x100_0000,
{
    let (r32, g32, b32) = (r as u32, g as u32, b as u32);
    let pixel = (r32 << 16u32) | (g32 << 8u32) | b32;
    assert(pixel == r32 * 65536 + g32 * 256 + b32 && pixel < 0x100_0000) by (bit_vector)
        requires
            r32 < 256,
            g32 < 256,
            b32 < 256,
            pixel == (r32 << 16u32) | (g32 << 8u32) | b32,
    ;
    pixel
}

/// The red, green and blue channels of a pixel word: bits 16..24, 8..16 and 0..8.
pub fn unpack_rgb(pixel: u32) -> (rgb: (u8, u8, u8))
    ensures
        rgb.0 == (pixel / 65536) % 256,
        rgb.1 == (pixel / 256) % 256,
        rgb.2 == pixel % 256,
{
    let r = (pixel >> 16u32) & 255u32;
    let g = (pixel >> 8u32) & 255u32;
    let b = pixel & 255u32;
    assert(r == (pixel / 65536) % 256 && g == (pixel / 256) % 256 && b == pixel % 256) by (bit_vector)
        requires
            r == (pixel >> 16u32) & 255u32,
            g == (pixel >> 8u32) & 255u32,
            b == pixel & 255u32,
    ;
    (r as u8, g as u8, b as u8)
}

/// Unpacking a packed pixel gives back the three channels it was packed from.
pub proof fn lemma_unpack_pack(r: u8, g: u8, b: u8)
    ensures
        (packed(r, g, b) / 65536) % 256 == r,
        (packed(r, g, b) / 256) % 256 == g,
        packed(r, g, b) % 256 == b,
{
    let p = packed(r, g, b);
    assert(p == r * 65536 + (g * 256 + b));
    assert(0 <= g * 256 + b < 65536);
    vstd::arithmetic::div_mod::lemma_fundamental_div_mod_converse(p, 65536, r as int, g * 256 + b);
    assert(p / 65536 == r);
    vstd::arithmetic::div_mod::lemma_small_mod(r as nat, 256);
    assert(p == (r * 256 + g) * 256 + b);
    vstd::arithmetic::div_mod::lemma_fundamental_div_mod_converse(p, 256, r * 256 + g, b as int);
    assert(p / 256 == r * 256 + g);
    vstd::arithmetic::div_mod::lemma_fundamental_div_mod_converse(r * 256 + g, 256, r as int, g as int);
}

/// Packing the channels of a pixel gives back the pixel with its top byte cleared.
pub proof fn lemma_pack_unpack(pixel: u32)
    ensures
        packed(((pixel / 65536) % 256) as u8, ((pixel / 256) % 256) as u8, (pixel % 256) as u8)
            == pixel % 0x100_0000,
{
    let r = ((pixel / 65536) % 256) as u8;
    let g = ((pixel / 256) % 256) as u8;
    let b = (pixel % 256) as u8;
    assert(r * 65536 + g * 256 + b == pixel % 0x100_0000) by (bit_vector)
        requires
            r == (pixel / 65536) % 256,
            g == (pixel / 256) % 256,
            b == pixel % 256,
    ;
}

} // verus!
