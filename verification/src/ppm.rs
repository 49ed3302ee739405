//! The plain-text ("P3") PPM encoding of a packed-pixel image.

use vstd::prelude::*;
use crate::color::{packed, unpack_rgb, lemma_unpack_pack};

verus! {

/// The ASCII digit of `d`, which is below 10.
pub open spec fn digit(d: nat) -> u8 {
    (48 + d) as u8
}

/// The decimal representation of `n` in ASCII, most significant digit first,
/// without leading zeros.
pub open spec fn decimal(n: nat) -> Seq<u8>
    decreases n,
{
    if n < 10 {
        seq![digit(n)]
    } else {
        decimal(n / 10).push(digit(n % 10))
    }
}

/// The number that a string of ASCII digits stands for.
pub open spec fn digits_value(s: Seq<u8>) -> int
    decreases s.len(),
{
    if s.len() == 0 {
        0
    } else {
        digits_value(s.drop_last()) * 10 + (s.last() - 48)
    }
}

/// The header of a P3 image of `width` by `height` pixels with 8-bit channels:
/// `P3`, a line with the two sizes, and the maximum channel value 255.
pub open spec fn ppm_header(width: nat, height: nat) -> Seq<u8> {
    seq![80u8, 51u8, 10u8] + decimal(width) + seq![32u8] + decimal(height) + seq![10u8]
        + decimal(255) + seq![10u8]
}

/// One text line with the three channel values `r g b`.
pub open spec fn channel_line(r: nat, g: nat, b: nat) -> Seq<u8> {
    decimal(r) + seq![32u8] + decimal(g) + seq![32u8] + decimal(b) + seq![10u8]
}

/// The line of a packed pixel: its red, green and blue bytes.
pub open spec fn pixel_line(pixel: u32) -> Seq<u8> {
    channel_line(
        ((pixel / 65536) % 256) as nat,
        ((pixel / 256) % 256) as nat,
        (pixel % 256) as nat,
    )
}

/// The lines of all pixels, in order.
pub open spec fn ppm_body(pixels: Seq<u32>) -> Seq<u8>
    decreases pixels.len(),
{
    if pixels.len() == 0 {
        Seq::empty()
    } else {
        ppm_body(pixels.drop_last()) + pixel_line(pixels.last())
    }
}

/// The whole P3 file for `pixels`, row by row, with the given sizes in its header.
pub open spec fn ppm_file(pixels: Seq<u32>, width: nat, height: nat) -> Seq<u8> {
    ppm_header(width, height) + ppm_body(pixels)
}

/// Appends the decimal representation of `n` to `out`.
pub fn push_decimal(out: &mut Vec<u8>, n: u64)
    ensures
        final(out)@ == old(out)@ + decimal(n as nat),
    decreases n,
{
    if n >= 10 {
        push_decimal(out, n / 10);
    }
    let d = (n % 10) as u8;
    out.push(48u8 + d);
    assert(out@ =~= old(out)@ + decimal(n as nat));
}

/// Appends `r g b` and a line break to `out`.
fn push_channel_line(out: &mut Vec<u8>, r: u8, g: u8, b: u8)
    ensures
        final(out)@ == old(out)@ + channel_line(r as nat, g as nat, b as nat),
{
    push_decimal(out, r as u64);
    out.push(32u8);
    push_decimal(out, g as u64);
    out.push(32u8);
    push_decimal(out, b as u64);
    out.push(10u8);
    assert(out@ =~= old(out)@ + channel_line(r as nat, g as nat, b as nat));
}

/// Encodes `buffer`, a row-major image of packed `0x00RRGGBB` pixels, as a
/// plain-text P3 file: the header with `width`, `height` and 255, then one
/// line `r g b` per pixel. The buffer is written as it is, whether or not
/// it holds `width * height` pixels.
pub fn encode_ppm(buffer: &[u32], width: usize, height: usize) -> (bytes: Vec<u8>)
    ensures
        bytes@ == ppm_file(buffer@, width as nat, height as nat),
        count_byte(bytes@, 10) == 3 + buffer@.len(),
        count_byte(bytes@, 32) == 1 + 2 * buffer@.len(),
{
    proof {
        lemma_ppm_layout(buffer@, width as nat, height as nat);
    }
    let mut out: Vec<u8> = Vec::new();
    out.push(80u8);
    out.push(51u8);
    out.push(10u8);
    push_decimal(&mut out, width as u64);
    out.push(32u8);
    push_decimal(&mut out, height as u64);
    out.push(10u8);
    push_decimal(&mut out, 255u64);
    out.push(10u8);
    assert(out@ =~= ppm_header(width as nat, height as nat));
    let ghost header = out@;
    let n = buffer.len();
    let mut i: usize = 0;
    while i < n
        invariant
            n == buffer@.len(),
            i <= n,
            out@ == header + ppm_body(buffer@.take(i as int)),
        decreases n - i,
    {
        let (r, g, b) = unpack_rgb(buffer[i]);
        push_channel_line(&mut out, r, g, b);
        proof {
            let s = buffer@.take(i as int + 1);
            assert(s.drop_last() =~= buffer@.take(i as int));
            assert(s.last() == buffer@[i as int]);
        }
        i = i + 1;
    }
    assert(buffer@.take(n as int) =~= buffer@);
    out
}

/// A decimal representation is a non-empty string of ASCII digits that
/// stands for the number, with no leading zero unless the number is 0.
pub proof fn lemma_decimal_is_numeral(n: nat)
    ensures
        decimal(n).len() > 0,
        forall|i: int| 0 <= i < decimal(n).len() ==> 48 <= #[trigger] decimal(n)[i] <= 57,
        digits_value(decimal(n)) == n,
        n > 0 ==> decimal(n)[0] != 48,
    decreases n,
{
    if n >= 10 {
        lemma_decimal_is_numeral(n / 10);
        let s = decimal(n);
        assert(s.drop_last() =~= decimal(n / 10));
        vstd::arithmetic::div_mod::lemma_fundamental_div_mod(n as int, 10);
        assert(s.last() == 48 + n % 10);
        assert(digits_value(s) == digits_value(decimal(n / 10)) * 10 + (n % 10));
    } else {
        assert(decimal(n).drop_last() =~= Seq::<u8>::empty());
        assert(digits_value(Seq::<u8>::empty()) == 0);
        assert(decimal(n).last() == 48 + n);
    }
}

/// The line that the image file holds for a pixel packed from `r`, `g`, `b`
/// shows exactly those three channel values.
pub proof fn lemma_line_of_packed_pixel(r: u8, g: u8, b: u8)
    ensures
        pixel_line(packed(r, g, b) as u32) == channel_line(r as nat, g as nat, b as nat),
{
    lemma_unpack_pack(r, g, b);
    assert(packed(r, g, b) < 0x100_0000);
}

/// The number of occurrences of byte `b` in `s`.
pub open spec fn count_byte(s: Seq<u8>, b: u8) -> nat
    decreases s.len(),
{
    if s.len() == 0 {
        0
    } else {
        count_byte(s.drop_last(), b) + if s.last() == b { 1nat } else { 0nat }
    }
}

proof fn lemma_count_concat(a: Seq<u8>, c: Seq<u8>, b: u8)
    ensures
        count_byte(a + c, b) == count_byte(a, b) + count_byte(c, b),
    decreases c.len(),
{
    if c.len() > 0 {
        lemma_count_concat(a, c.drop_last(), b);
        assert((a + c).drop_last() =~= a + c.drop_last());
    } else {
        assert(a + c =~= a);
    }
}

proof fn lemma_count_digits(s: Seq<u8>, b: u8)
    requires
        b < 48 || b > 57,
        forall|i: int| 0 <= i < s.len() ==> 48 <= #[trigger] s[i] <= 57,
    ensures
        count_byte(s, b) == 0,
    decreases s.len(),
{
    if s.len() > 0 {
        lemma_count_digits(s.drop_last(), b);
        assert(s.last() == s[s.len() - 1]);
    }
}

proof fn lemma_count_decimal(n: nat, b: u8)
    requires
        b < 48 || b > 57,
    ensures
        count_byte(decimal(n), b) == 0,
{
    lemma_decimal_is_numeral(n);
    lemma_count_digits(decimal(n), b);
}

proof fn lemma_count_small(b: u8, c: u8)
    ensures
        count_byte(seq![b], c) == if b == c { 1nat } else { 0nat },
{
    assert(seq![b].drop_last() =~= Seq::<u8>::empty());
    assert(count_byte(Seq::<u8>::empty(), c) == 0);
}

proof fn lemma_count_line(r: nat, g: nat, bl: nat)
    ensures
        count_byte(channel_line(r, g, bl), 10) == 1,
        count_byte(channel_line(r, g, bl), 32) == 2,
{
    lemma_count_decimal(r, 10);
    lemma_count_decimal(g, 10);
    lemma_count_decimal(bl, 10);
    lemma_count_decimal(r, 32);
    lemma_count_decimal(g, 32);
    lemma_count_decimal(bl, 32);
    lemma_count_small(32, 10);
    lemma_count_small(10, 10);
    lemma_count_small(32, 32);
    lemma_count_small(10, 32);
    let (dr, dg, db) = (decimal(r), decimal(g), decimal(bl));
    let sp = seq![32u8];
    let nl = seq![10u8];
    lemma_count_concat(dr, sp, 10);
    lemma_count_concat(dr + sp, dg, 10);
    lemma_count_concat(dr + sp + dg, sp, 10);
    lemma_count_concat(dr + sp + dg + sp, db, 10);
    lemma_count_concat(dr + sp + dg + sp + db, nl, 10);
    lemma_count_concat(dr, sp, 32);
    lemma_count_concat(dr + sp, dg, 32);
    lemma_count_concat(dr + sp + dg, sp, 32);
    lemma_count_concat(dr + sp + dg + sp, db, 32);
    lemma_count_concat(dr + sp + dg + sp + db, nl, 32);
}

proof fn lemma_count_body(pixels: Seq<u32>)
    ensures
        count_byte(ppm_body(pixels), 10) == pixels.len(),
        count_byte(ppm_body(pixels), 32) == 2 * pixels.len(),
    decreases pixels.len(),
{
    if pixels.len() > 0 {
        let p = pixels.last();
        lemma_count_body(pixels.drop_last());
        lemma_count_line(((p / 65536) % 256) as nat, ((p / 256) % 256) as nat, (p % 256) as nat);
        lemma_count_concat(ppm_body(pixels.drop_last()), pixel_line(p), 10);
        lemma_count_concat(ppm_body(pixels.drop_last()), pixel_line(p), 32);
    }
}

/// The image file has one line per pixel after its three header lines, and
/// two spaces per pixel line after the one between width and height.
pub proof fn lemma_ppm_layout(pixels: Seq<u32>, width: nat, height: nat)
    ensures
        count_byte(ppm_file(pixels, width, height), 10) == 3 + pixels.len(),
        count_byte(ppm_file(pixels, width, height), 32) == 1 + 2 * pixels.len(),
{
    lemma_count_body(pixels);
    lemma_count_decimal(width, 10);
    lemma_count_decimal(height, 10);
    lemma_count_decimal(255, 10);
    lemma_count_decimal(width, 32);
    lemma_count_decimal(height, 32);
    lemma_count_decimal(255, 32);
    lemma_count_small(32, 10);
    lemma_count_small(10, 10);
    lemma_count_small(32, 32);
    lemma_count_small(10, 32);
    lemma_count_small(80, 10);
    lemma_count_small(51, 10);
    lemma_count_small(80, 32);
    lemma_count_small(51, 32);
    let p3 = seq![80u8, 51u8, 10u8];
    assert(p3 =~= seq![80u8] + seq![51u8] + seq![10u8]);
    lemma_count_concat(seq![80u8], seq![51u8], 10);
    lemma_count_concat(seq![80u8] + seq![51u8], seq![10u8], 10);
    lemma_count_concat(seq![80u8], seq![51u8], 32);
    lemma_count_concat(seq![80u8] + seq![51u8], seq![10u8], 32);
    let (dw, dh, d255) = (decimal(width), decimal(height), decimal(255));
    let sp = seq![32u8];
    let nl = seq![10u8];
    let body = ppm_body(pixels);
    lemma_count_concat(p3, dw, 10);
    lemma_count_concat(p3 + dw, sp, 10);
    lemma_count_concat(p3 + dw + sp, dh, 10);
    lemma_count_concat(p3 + dw + sp + dh, nl, 10);
    lemma_count_concat(p3 + dw + sp + dh + nl, d255, 10);
    lemma_count_concat(p3 + dw + sp + dh + nl + d255, nl, 10);
    lemma_count_concat(p3 + dw + sp + dh + nl + d255 + nl, body, 10);
    lemma_count_concat(p3, dw, 32);
    lemma_count_concat(p3 + dw, sp, 32);
    lemma_count_concat(p3 + dw + sp, dh, 32);
    lemma_count_concat(p3 + dw + sp + dh, nl, 32);
    lemma_count_concat(p3 + dw + sp + dh + nl, d255, 32);
    lemma_count_concat(p3 + dw + sp + dh + nl + d255, nl, 32);
    lemma_count_concat(p3 + dw + sp + dh + nl + d255 + nl, body, 32);
}

} // verus!
