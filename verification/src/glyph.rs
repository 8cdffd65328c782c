//! Glyph records: what the atlas keeps of each rasterized character, and the
//! conversions from a rasterizer's metrics and coverage bitmap.

use vstd::prelude::*;

verus! {

/// Font metrics come in 26.6 fixed point: 64 units to the pixel.
pub const FT_SCALE_SHIFT: u32 = 6;

/// One character of the atlas: the corner `(u, v)` of its bitmap in the
/// atlas, the bitmap's size, the pen advance and the offsets at which the
/// bitmap is drawn relative to the pen, all in pixels.
#[derive(Clone, Copy, Debug, PartialEq, Eq, Structural)]
pub struct Glyph {
    pub u: u16,
    pub v: u16,
    pub width: i32,
    pub height: i32,
    pub advance: u8,
    pub offset_x: i8,
    pub offset_y: i8,
}

/// A metric in 26.6 fixed point as whole pixels, rounded down.
pub open spec fn whole_pixels(v: i64) -> i64 {
    v >> 6
}

/// Rounds a 26.6 fixed-point metric down to whole pixels.
pub fn to_pixels(v: i64) -> (p: i64)
    ensures
        p == whole_pixels(v),
        64 * p <= v < 64 * p + 64,
{
    let p = v >> FT_SCALE_SHIFT;
    assert(p == v >> 6u32);
    assert(64 * (v >> 6u32) <= v < 64 * (v >> 6u32) + 64) by (bit_vector);
    p
}

/// The record of a freshly rasterized glyph, not yet placed in the atlas:
/// the bitmap's size as given, the advance in whole pixels, and advance and
/// offsets cut down to the width of their fields.
pub fn make_glyph(width: i32, height: i32, bitmap_left: i32, bitmap_top: i32, advance_x: i64) -> (g: Glyph)
    ensures
        g == (Glyph {
            u: 0,
            v: 0,
            width,
            height,
            advance: whole_pixels(advance_x) as u8,
            offset_x: bitmap_left as i8,
            offset_y: bitmap_top as i8,
        }),
        0 <= advance_x < 256 * 64 ==> 64 * g.advance <= advance_x < 64 * g.advance + 64,
        -128 <= bitmap_left < 128 ==> g.offset_x == bitmap_left,
        -128 <= bitmap_top < 128 ==> g.offset_y == bitmap_top,
{
    let advance = to_pixels(advance_x);
    Glyph {
        u: 0,
        v: 0,
        width,
        height,
        advance: #[verifier::truncate] (advance as u8),
        offset_x: #[verifier::truncate] (bitmap_left as i8),
        offset_y: #[verifier::truncate] (bitmap_top as i8),
    }
}

/// The kerning between two characters in whole pixels, from the
/// rasterizer's 26.6 fixed-point value; 0 where the rasterizer gave none.
pub fn kerning_pixels(kerning_x: Option<i64>) -> (k: i32)
    ensures
        kerning_x is None ==> k == 0,
        kerning_x matches Some(v) ==> {
            &&& k == whole_pixels(v) as i32
            &&& i32::MIN * 64 <= v < (i32::MAX + 1) * 64 ==> 64 * k <= v < 64 * k + 64
        },
{
    match kerning_x {
        Some(v) => #[verifier::truncate]
        (to_pixels(v) as i32),
        None => 0,
    }
}

/// The pixels of a coverage bitmap as RGBA: white, with the coverage as
/// alpha.
pub open spec fn rgba_of(coverage: Seq<u8>) -> Seq<u8> {
    Seq::new(
        4 * coverage.len(),
        |i: int|
            if i % 4 == 3 {
                coverage[i / 4]
            } else {
                255u8
            },
    )
}

/// Expands an 8-bit coverage bitmap to RGBA pixels: four bytes for each
/// byte of coverage, white with the coverage as alpha.
pub fn coverage_to_rgba(buffer: &[u8]) -> (pixels: Vec<u8>)
    ensures
        pixels@ == rgba_of(buffer@),
{
    let mut pixels: Vec<u8> = Vec::new();
    let mut pixel_idx: usize = 0;
    while pixel_idx < buffer.len()
        invariant
            pixel_idx <= buffer.len(),
            pixels@ == rgba_of(buffer@.subrange(0, pixel_idx as int)),
        decreases buffer.len() - pixel_idx,
    {
        let grayscale_pixel = buffer[pixel_idx];
        let ghost before = pixels@;
        pixels.push(255u8);
        pixels.push(255u8);
        pixels.push(255u8);
        pixels.push(grayscale_pixel);
        pixel_idx += 1;
        assert(pixels@ =~= rgba_of(buffer@.subrange(0, pixel_idx as int)));
    }
    assert(buffer@.subrange(0, pixel_idx as int) =~= buffer@);
    pixels
}

} // verus!
