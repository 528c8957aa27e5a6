use blink::color::Color;
use blink::color::hsv_to_rgb;

fn reference_flag(r: u8, g: u8, b: u8) -> u8 {
    !(((r >> 6) & 3) | (((g >> 6) & 3) << 2) | (((b >> 6) & 3) << 4))
}

#[test]
fn flag_byte_packs_inverted_top_bits() {
    let cases: [(u8, u8, u8, u8); 4] = [
        (0, 0, 0, 0xFF),
        (255, 255, 255, 0xC0),
        (255, 0, 0, 0xFC),
        (64, 128, 192, 0xC6),
    ];
    for (r, g, b, expected) in cases {
        let c = Color::new(r, g, b);
        assert_eq!(c.flag, expected);
        assert_eq!(c.flag, reference_flag(r, g, b));
        assert_eq!(c.flag & 0xC0, 0xC0);
        assert_eq!((c.red, c.green, c.blue), (r, g, b));
    }
}

#[test]
fn flag_byte_matches_reference_on_all_top_bit_patterns() {
    for r in [0u8, 63, 64, 127, 128, 191, 192, 255] {
        for g in [0u8, 63, 64, 127, 128, 191, 192, 255] {
            for b in [0u8, 63, 64, 127, 128, 191, 192, 255] {
                assert_eq!(Color::new(r, g, b).flag, reference_flag(r, g, b));
            }
        }
    }
}

#[test]
fn zero_saturation_is_achromatic() {
    for hue in [0u32, 9000, 18000, 27000, 35999, 123456] {
        for v in [0u32, 1, 32768, 65536] {
            assert_eq!(hsv_to_rgb(hue, 0, v), (v, v, v));
        }
    }
}

#[test]
fn primary_hues_hit_single_channels() {
    // Full saturation and value: 0 degrees is red, 120 green, 240 blue.
    assert_eq!(hsv_to_rgb(0, 65536, 65536), (65536, 0, 0));
    assert_eq!(hsv_to_rgb(12000, 65536, 65536), (0, 65536, 0));
    assert_eq!(hsv_to_rgb(24000, 65536, 65536), (0, 0, 65536));
}

#[test]
fn secondary_hues_mix_two_channels() {
    // 60 degrees is yellow, 180 cyan, 300 magenta.
    assert_eq!(hsv_to_rgb(6000, 65536, 65536), (65536, 65536, 0));
    assert_eq!(hsv_to_rgb(18000, 65536, 65536), (0, 65536, 65536));
    assert_eq!(hsv_to_rgb(30000, 65536, 65536), (65536, 0, 65536));
}

#[test]
fn hue_is_periodic_with_full_circle() {
    for hue in [0u32, 100, 5999, 6000, 17999, 35999] {
        for s in [0u32, 30000, 65536] {
            for v in [0u32, 40000, 65536] {
                assert_eq!(hsv_to_rgb(hue, s, v), hsv_to_rgb(hue + 36000, s, v));
            }
        }
    }
}

#[test]
fn conversion_tracks_the_float_hexagon() {
    // The fixed-point conversion stays within a few Q16 steps of the usual
    // floating-point six-sector formulas.
    let reference = |hue_cd: u32, s: f64, v: f64| -> (f64, f64, f64) {
        let h = hue_cd as f64 / 100.0 / 60.0;
        let sector = h.floor() as u32 % 6;
        let f = h - h.floor();
        let p = v * (1.0 - s);
        let q = v * (1.0 - s * f);
        let t = v * (1.0 - s * (1.0 - f));
        match sector {
            0 => (v, t, p),
            1 => (q, v, p),
            2 => (p, v, t),
            3 => (p, q, v),
            4 => (t, p, v),
            _ => (v, p, q),
        }
    };
    let mut hue = 0u32;
    while hue < 36000 {
        for (s, v) in [(65536u32, 65536u32), (32768, 65536), (65536, 32768), (20000, 50000)] {
            let (r, g, b) = hsv_to_rgb(hue, s, v);
            let (rf, gf, bf) = reference(hue, s as f64 / 65536.0, v as f64 / 65536.0);
            for (got, want) in [(r, rf), (g, gf), (b, bf)] {
                let diff = (got as f64 - want * 65536.0).abs();
                assert!(diff <= 4.0, "hue {}: got {}, reference {}", hue, got, want * 65536.0);
            }
        }
        hue += 211;
    }
}

#[test]
fn channels_stay_in_range() {
    let mut hue = 0u32;
    while hue < 36000 {
        let (r, g, b) = hsv_to_rgb(hue, 65536, 65536);
        assert!(r <= 65536 && g <= 65536 && b <= 65536);
        hue += 97;
    }
}
