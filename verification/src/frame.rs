//! Assembly of one full strip transmission: every hue becomes a corrected
//! pixel, wrapped by one leading and two trailing all-zero records, and the
//! records are flattened into bytes in the order the chips clock them in.

use vstd::prelude::*;
use crate::color::Color;
use crate::color::hsv_to_rgb;
use crate::color::spec_hsv_to_rgb;
use crate::color::spec_zero_color;
use crate::gamma::GammaTable;
use crate::color::spec_flag;
use vstd::arithmetic::div_mod::lemma_div_is_ordered;

verus! {

/// Scale a Q16 channel by a dimming factor in `0..=255`, truncating to a
/// byte range value.
pub open spec fn spec_scale8(c: int, d: int) -> int {
    (c * d) / 65536
}

fn scale8(c: u32, d: u8) -> (r: u8)
    requires
        c <= 65536,
    ensures
        r == spec_scale8(c as int, d as int),
{
    proof {
        vstd::arithmetic::mul::lemma_mul_upper_bound(c as int, 65536, d as int, 255);
        vstd::arithmetic::mul::lemma_mul_nonnegative(c as int, d as int);
        lemma_div_is_ordered(0, c as int * d as int, 65536);
        lemma_div_is_ordered(c as int * d as int, 16711680, 65536);
    }
    (((c as u64) * (d as u64)) / 65536) as u8
}

/// The corrected pixel for one hue at full saturation and value, scaled by
/// the dimming factor and passed through the gamma tables.
pub open spec fn spec_pixel(t: GammaTable, h: int, d: int) -> Color {
    let rgb = spec_hsv_to_rgb(h, 65536, 65536);
    let r8 = spec_scale8(rgb.0, d);
    let g8 = spec_scale8(rgb.1, d);
    let b8 = spec_scale8(rgb.2, d);
    Color {
        flag: spec_flag(t.red_table@[r8], t.green_table@[g8], t.blue_table@[b8]),
        blue: t.blue_table@[b8],
        green: t.green_table@[g8],
        red: t.red_table@[r8],
    }
}

pub fn pixel_for_hue(t: &GammaTable, h: u32, d: u8) -> (c: Color)
    requires
        t.wf(),
    ensures
        c == spec_pixel(*t, h as int, d as int),
{
    let (r, g, b) = hsv_to_rgb(h, 65536, 65536);
    let r8 = scale8(r, d);
    let g8 = scale8(g, d);
    let b8 = scale8(b, d);
    t.correct_color(r8, g8, b8)
}

/// The pixel sequence for one transmission: a zero record, the corrected
/// pixels in strip order, and two zero records.
pub open spec fn spec_pixels(hues: Seq<u32>, t: GammaTable, d: int) -> Seq<Color> {
    Seq::new(
        hues.len() + 3,
        |i: int|
            if i == 0 || i > hues.len() {
                spec_zero_color()
            } else {
                spec_pixel(t, hues[i - 1] as int, d)
            },
    )
}

/// Convert each hue to a corrected pixel and add the bus padding records.
pub fn hue_to_pixels(hues: &Vec<u32>, t: &GammaTable, dimming: u8) -> (pixels: Vec<Color>)
    requires
        t.wf(),
        hues@.len() + 3 <= usize::MAX,
    ensures
        pixels@ == spec_pixels(hues@, *t, dimming as int),
        pixels@.len() == hues@.len() + 3,
{
    let mut pixels: Vec<Color> = Vec::new();
    pixels.push(Color::zero());
    let mut i: usize = 0;
    while i < hues.len()
        invariant
            t.wf(),
            i <= hues@.len(),
            hues@.len() + 3 <= usize::MAX,
            pixels@.len() == i + 1,
            pixels@[0] == spec_zero_color(),
            forall|j: int| 1 <= j <= i ==> pixels@[j] == spec_pixel(*t, hues@[j - 1] as int, dimming as int),
        decreases hues@.len() - i,
    {
        pixels.push(pixel_for_hue(t, hues[i], dimming));
        i += 1;
    }
    pixels.push(Color::zero());
    pixels.push(Color::zero());
    proof {
        assert(pixels@ =~= spec_pixels(hues@, *t, dimming as int));
    }
    pixels
}

/// The flat byte stream for a pixel sequence: each record contributes its
/// flag, blue, green and red bytes, in that order, with nothing between.
pub open spec fn spec_frame_bytes(pixels: Seq<Color>) -> Seq<u8> {
    Seq::new(
        4 * pixels.len(),
        |i: int|
            {
                let c = pixels[i / 4];
                if i % 4 == 0 {
                    c.flag
                } else if i % 4 == 1 {
                    c.blue
                } else if i % 4 == 2 {
                    c.green
                } else {
                    c.red
                }
            },
    )
}

/// Serialize the records byte by byte, in their field order.
pub fn frame_bytes(pixels: &Vec<Color>) -> (bytes: Vec<u8>)
    requires
        4 * pixels@.len() <= usize::MAX,
    ensures
        bytes@ == spec_frame_bytes(pixels@),
        bytes@.len() == 4 * pixels@.len(),
{
    let mut bytes: Vec<u8> = Vec::new();
    let mut i: usize = 0;
    while i < pixels.len()
        invariant
            i <= pixels@.len(),
            4 * pixels@.len() <= usize::MAX,
            bytes@.len() == 4 * i,
            forall|j: int| 0 <= j < 4 * i ==> bytes@[j] == spec_frame_bytes(pixels@)[j],
        decreases pixels@.len() - i,
    {
        let c = pixels[i];
        bytes.push(c.flag);
        bytes.push(c.blue);
        bytes.push(c.green);
        bytes.push(c.red);
        proof {
            assert forall|j: int| 0 <= j < 4 * (i + 1) implies bytes@[j] == spec_frame_bytes(
                pixels@,
            )[j] by {
                if j >= 4 * i {
                    assert(j / 4 == i && (j == 4 * i + j % 4)) by (nonlinear_arith)
                        requires
                            4 * i <= j < 4 * (i + 1),
                            0 <= i,
                    ;
                }
            }
        }
        i += 1;
    }
    proof {
        assert(bytes@ =~= spec_frame_bytes(pixels@));
    }
    bytes
}

/// One complete transmission buffer for the given hues: always exactly
/// `4 * (N + 3)` bytes for `N` hues.
pub fn assemble(hues: &Vec<u32>, t: &GammaTable, dimming: u8) -> (bytes: Vec<u8>)
    requires
        t.wf(),
        4 * (hues@.len() + 3) <= usize::MAX,
    ensures
        bytes@ == spec_frame_bytes(spec_pixels(hues@, *t, dimming as int)),
        bytes@.len() == 4 * (hues@.len() + 3),
{
    let pixels = hue_to_pixels(hues, t, dimming);
    frame_bytes(&pixels)
}

} // verus!
