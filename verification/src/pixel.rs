use vstd::prelude::*;

verus! {

/// The pixel with the low bytes of `r`, `g`, `b` and `a` as its four bytes,
/// from the least significant one on.
pub open spec fn packed(r: u32, g: u32, b: u32, a: u32) -> u32 {
    (r & 255) | ((g & 255) << 8) | ((b & 255) << 16) | ((a & 255) << 24)
}

/// Packs four channels into one pixel: red in the lowest byte, then green,
/// blue and alpha. Only the low byte of each channel counts; the layout does
/// not depend on the byte order of any file.
pub fn rgba_to_u32(r: u32, g: u32, b: u32, a: u32) -> (pixel: u32)
    ensures
        pixel == packed(r, g, b, a),
        pixel & 255 == r & 255,
        (pixel >> 8) & 255 == g & 255,
        (pixel >> 16) & 255 == b & 255,
        (pixel >> 24) & 255 == a & 255,
{
    let pixel = (r & 255) | ((g & 255) << 8) | ((b & 255) << 16) | ((a & 255) << 24);
    assert(pixel & 255 == r & 255 && (pixel >> 8) & 255 == g & 255 && (pixel >> 16) & 255 == b
        & 255 && (pixel >> 24) & 255 == a & 255) by (bit_vector)
        requires
            pixel == (r & 255) | ((g & 255) << 8) | ((b & 255) << 16) | ((a & 255) << 24),
    ;
    pixel
}

} // verus!
