//! Pixels as the display and the image file take them: one `u32` that holds
//! `0xAARRGGBB`, or three bytes, red first.

use vstd::prelude::*;

verus! {

/// The red, green and blue bytes of a packed pixel; the top byte is dropped.
pub open spec fn rgb_of(color: u32) -> Seq<u8> {
    seq![((color >> 16) & 0xff) as u8, ((color >> 8) & 0xff) as u8, (color & 0xff) as u8]
}

/// The opaque pixel with the given channels. A channel above 255 spills into
/// the bytes above it.
pub open spec fn packed(red: u32, green: u32, blue: u32) -> u32 {
    0xff00_0000u32 | (red << 16) | (green << 8) | blue
}

/// Splits a packed pixel into its red, green and blue bytes.
pub fn int_to_rgb(color: u32) -> (rgb: [u8; 3])
    ensures
        rgb@ == rgb_of(color),
{
    let r: u32 = (color & 0x00ff0000) >> 16;
    let g: u32 = (color & 0x0000ff00) >> 8;
    let b: u32 = color & 0x000000ff;
    assert(r == (color >> 16) & 0xff && r < 256) by (bit_vector)
        requires
            r == (color & 0x00ff0000) >> 16,
    ;
    assert(g == (color >> 8) & 0xff && g < 256) by (bit_vector)
        requires
            g == (color & 0x0000ff00) >> 8,
    ;
    assert(b < 256) by (bit_vector)
        requires
            b == color & 0x000000ff,
    ;
    let rgb = [r as u8, g as u8, b as u8];
    assert(rgb@ =~= rgb_of(color));
    rgb
}

/// Packs three channels into an opaque pixel.
pub fn pack_rgb(red: u32, green: u32, blue: u32) -> (color: u32)
    ensures
        color == packed(red, green, blue),
{
    let opaque: u32 = 255 << 24;
    assert(opaque == 0xff00_0000u32) by (bit_vector)
        requires
            opaque == 255u32 << 24,
    ;
    opaque | red << 16 | green << 8 | blue
}

/// Channels that fit a byte come back out of the pixel they were packed into.
pub proof fn lemma_pack_then_split(red: u32, green: u32, blue: u32)
    requires
        red <= 255,
        green <= 255,
        blue <= 255,
    ensures
        rgb_of(packed(red, green, blue)) == seq![red as u8, green as u8, blue as u8],
        packed(red, green, blue) >> 24 == 255,
{
    let color = packed(red, green, blue);
    assert((color >> 16) & 0xff == red && (color >> 8) & 0xff == green && color & 0xff == blue
        && color >> 24 == 255) by (bit_vector)
        requires
            color == 0xff00_0000u32 | (red << 16) | (green << 8) | blue,
            red <= 255,
            green <= 255,
            blue <= 255,
    ;
}

/// The bytes of an image, as an encoder of 8-bit RGB takes them: three for each
/// pixel, red first.
pub fn image_data(colors: &[u32]) -> (data: Vec<u8>)
    ensures
        data@.len() == 3 * colors@.len(),
        forall|i: int, channel: int|
            0 <= i < colors@.len() && 0 <= channel < 3 ==> #[trigger] data@[3 * i + channel]
                == rgb_of(colors@[i])[channel],
{
    let mut data: Vec<u8> = Vec::new();
    let mut i: usize = 0;
    while i < colors.len()
        invariant
            i <= colors@.len(),
            data@.len() == 3 * i,
            forall|k: int, channel: int|
                0 <= k < i && 0 <= channel < 3 ==> #[trigger] data@[3 * k + channel] == rgb_of(
                    colors@[k],
                )[channel],
        decreases colors@.len() - i,
    {
        let rgb = int_to_rgb(colors[i]);
        data.push(rgb[0]);
        data.push(rgb[1]);
        data.push(rgb[2]);
        i += 1;
    }
    data
}

} // verus!
