use vstd::prelude::*;
use crate::color::ColorU8;

verus! {

/// ASCII `0`; the digit `d` is `ZERO + d`.
pub const ZERO: u8 = 48;

/// ASCII space.
pub const SPACE: u8 = 32;

/// ASCII line feed.
pub const NEWLINE: u8 = 10;

/// ASCII `P`, which opens the header.
pub const LETTER_P: u8 = 80;

/// The ASCII decimal digits of `n`, most significant first, with no leading
/// zero.
pub open spec fn decimal(n: nat) -> Seq<u8>
    decreases n,
{
    if n < 10 {
        seq![(ZERO + n) as u8]
    } else {
        decimal(n / 10).push((ZERO + n % 10) as u8)
    }
}

/// The text line of one pixel: red, green and blue in decimal, separated by
/// single spaces.
pub open spec fn pixel_line(c: ColorU8) -> Seq<u8> {
    decimal(c.red as nat) + seq![SPACE] + decimal(c.green as nat) + seq![SPACE] + decimal(
        c.blue as nat,
    ) + seq![NEWLINE]
}

/// The lines of `pixels`, in order.
pub open spec fn pixel_lines(pixels: Seq<ColorU8>) -> Seq<u8>
    decreases pixels.len(),
{
    if pixels.len() == 0 {
        Seq::empty()
    } else {
        pixel_lines(pixels.drop_last()) + pixel_line(pixels.last())
    }
}

/// The header of a plain-text RGB image with 8-bit channels: the format tag
/// `P3`, the width and height, and the largest channel value.
pub open spec fn ppm_header(width: nat, height: nat) -> Seq<u8> {
    seq![LETTER_P, (ZERO + 3) as u8, NEWLINE] + decimal(width) + seq![SPACE] + decimal(height)
        + seq![NEWLINE] + decimal(255) + seq![NEWLINE]
}

/// A whole plain-text RGB image: the header, then one line per pixel.
pub open spec fn ppm_text(width: nat, height: nat, pixels: Seq<ColorU8>) -> Seq<u8> {
    ppm_header(width, height) + pixel_lines(pixels)
}

fn push_decimal(out: &mut Vec<u8>, n: u32)
    ensures
        final(out)@ == old(out)@ + decimal(n as nat),
    decreases n,
{
    if n >= 10 {
        push_decimal(out, n / 10);
    }
    out.push(ZERO + (n % 10) as u8);
    assert(final(out)@ =~= old(out)@ + decimal(n as nat)) by {
        if n >= 10 {
            assert(decimal(n as nat) == decimal((n / 10) as nat).push((ZERO + n % 10) as u8));
        }
    }
}

/// Encodes an image as plain-text RGB: the header with the image's size, then
/// one line per pixel in the order given, channels in the order red, green,
/// blue.
pub fn encode_ppm(width: u32, height: u32, pixels: &Vec<ColorU8>) -> (r: Vec<u8>)
    ensures
        r@ == ppm_text(width as nat, height as nat, pixels@),
{
    let mut out: Vec<u8> = Vec::new();
    out.push(LETTER_P);
    out.push(ZERO + 3);
    out.push(NEWLINE);
    push_decimal(&mut out, width);
    out.push(SPACE);
    push_decimal(&mut out, height);
    out.push(NEWLINE);
    push_decimal(&mut out, 255);
    out.push(NEWLINE);
    assert(out@ =~= ppm_header(width as nat, height as nat));
    let mut i: usize = 0;
    while i < pixels.len()
        invariant
            i <= pixels@.len(),
            out@ == ppm_header(width as nat, height as nat) + pixel_lines(pixels@.take(i as int)),
        decreases pixels@.len() - i,
    {
        let c = pixels[i];
        let ghost before = out@;
        push_decimal(&mut out, c.red as u32);
        out.push(SPACE);
        push_decimal(&mut out, c.green as u32);
        out.push(SPACE);
        push_decimal(&mut out, c.blue as u32);
        out.push(NEWLINE);
        assert(out@ =~= before + pixel_line(c));
        assert(pixels@.take(i + 1).drop_last() =~= pixels@.take(i as int));
        assert(pixels@.take(i + 1).last() == c);
        i = i + 1;
    }
    assert(pixels@.take(i as int) =~= pixels@);
    out
}

} // verus!
