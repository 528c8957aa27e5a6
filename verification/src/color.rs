//! The 4-byte pixel record a P9813 chip consumes, and the fixed-point HSV
//! to RGB conversion that feeds it. Hues are carried in centidegrees
//! (`0..36000`); saturation, value and the resulting channels are Q16
//! fractions in `0..=65536`.

use vstd::prelude::*;
use crate::fixed::spec_qmul;
use crate::fixed::qmul;
use vstd::arithmetic::div_mod::lemma_div_is_ordered;
use vstd::arithmetic::div_mod::lemma_mod_add_multiples_vanish;

verus! {

/// One pixel on the bus: the flag byte followed by the blue, green and red
/// channels, in that order.
#[derive(Clone, Copy, PartialEq, Eq, Structural, Debug)]
pub struct Color {
    pub flag: u8,
    pub blue: u8,
    pub green: u8,
    pub red: u8,
}

/// The flag byte packs the inverted top two bits of each channel; the two
/// high bits of the byte come out always set.
pub open spec fn spec_flag(red: u8, green: u8, blue: u8) -> u8 {
    !(((red >> 6) & 3) | (((green >> 6) & 3) << 2) | (((blue >> 6) & 3) << 4))
}

impl Color {
    pub fn new(red: u8, green: u8, blue: u8) -> (c: Color)
        ensures
            c.red == red,
            c.green == green,
            c.blue == blue,
            c.flag == spec_flag(red, green, blue),
            c.flag & 0xC0 == 0xC0,
    {
        let mut flag: u8 = (red & 0xC0) >> 6;
        flag |= (green & 0xC0) >> 4;
        flag |= (blue & 0xC0) >> 2;
        flag = !flag;
        proof {
            assert(!((((red & 0xC0) >> 6) | ((green & 0xC0) >> 4)) | ((blue & 0xC0) >> 2))
                == !(((red >> 6) & 3) | (((green >> 6) & 3) << 2) | (((blue >> 6) & 3) << 4)))
                by (bit_vector);
            assert((!(((red >> 6) & 3) | (((green >> 6) & 3) << 2) | (((blue >> 6) & 3) << 4)))
                & 0xC0 == 0xC0) by (bit_vector);
        }
        Color { flag, blue, green, red }
    }

    /// The all-zero record used as bus framing around the pixel data.
    pub fn zero() -> (c: Color)
        ensures
            c == spec_zero_color(),
    {
        Color { flag: 0, blue: 0, green: 0, red: 0 }
    }
}

pub open spec fn spec_zero_color() -> Color {
    Color { flag: 0, blue: 0, green: 0, red: 0 }
}

/// Six-sector HSV to RGB over fixed-point values: the hue in centidegrees
/// (normalized into its circle), saturation and value as Q16 fractions.
/// Zero saturation is achromatic and yields the value on every channel.
pub open spec fn spec_hsv_to_rgb(h: int, s: int, v: int) -> (int, int, int) {
    if s == 0 {
        (v, v, v)
    } else {
        let hn = h % 36000;
        let sector = hn / 6000;
        let f = ((hn % 6000) * 65536) / 6000;
        let p = spec_qmul(v, 65536 - s);
        let q = spec_qmul(v, 65536 - spec_qmul(s, f));
        let t = spec_qmul(v, 65536 - spec_qmul(s, 65536 - f));
        if sector == 0 {
            (v, t, p)
        } else if sector == 1 {
            (q, v, p)
        } else if sector == 2 {
            (p, v, t)
        } else if sector == 3 {
            (p, q, v)
        } else if sector == 4 {
            (t, p, v)
        } else {
            (v, p, q)
        }
    }
}

pub fn hsv_to_rgb(hue: u32, saturation: u32, value: u32) -> (rgb: (u32, u32, u32))
    requires
        saturation <= 65536,
        value <= 65536,
    ensures
        (rgb.0 as int, rgb.1 as int, rgb.2 as int)
            == spec_hsv_to_rgb(hue as int, saturation as int, value as int),
        rgb.0 <= 65536,
        rgb.1 <= 65536,
        rgb.2 <= 65536,
        saturation == 0 ==> rgb.0 == value && rgb.1 == value && rgb.2 == value,
{
    if saturation == 0 {
        return (value, value, value);
    }
    let hn = hue % 36000;
    let sector = hn / 6000;
    let rem = hn % 6000;
    proof {
        lemma_div_is_ordered(rem as int * 65536, 393150464, 6000);
    }
    let f: u32 = (((rem as u64) * 65536) / 6000) as u32;
    let p = qmul(value, 65536 - saturation);
    let sf = qmul(saturation, f);
    let q = qmul(value, 65536 - sf);
    let sg = qmul(saturation, 65536 - f);
    let t = qmul(value, 65536 - sg);
    if sector == 0 {
        (value, t, p)
    } else if sector == 1 {
        (q, value, p)
    } else if sector == 2 {
        (p, value, t)
    } else if sector == 3 {
        (p, q, value)
    } else if sector == 4 {
        (t, p, value)
    } else {
        (value, p, q)
    }
}

/// Law: the conversion is periodic in hue with period one full circle.
pub proof fn lemma_hsv_periodic(h: int, s: int, v: int)
    ensures
        spec_hsv_to_rgb(h + 36000, s, v) == spec_hsv_to_rgb(h, s, v),
{
    lemma_mod_add_multiples_vanish(h, 36000);
    assert((h + 36000) % 36000 == h % 36000);
}

} // verus!
