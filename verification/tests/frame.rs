use blink::frame::assemble;
use blink::frame::frame_bytes;
use blink::frame::hue_to_pixels;
use blink::gamma::GammaTable;
use blink::color::Color;

const G22: u32 = 563;

#[test]
fn buffer_length_is_four_times_leds_plus_three() {
    let t = GammaTable::new(G22, G22, G22);
    for n in [0usize, 1, 2, 76, 100] {
        let hues: Vec<u32> = (0..n as u32).map(|i| (i * 137) % 36000).collect();
        let bytes = assemble(&hues, &t, 255);
        assert_eq!(bytes.len(), 4 * (n + 3));
    }
}

#[test]
fn padding_records_surround_the_pixels() {
    let t = GammaTable::new(G22, G22, G22);
    let hues: Vec<u32> = vec![0, 9000, 21000];
    let bytes = assemble(&hues, &t, 255);
    assert_eq!(&bytes[0..4], &[0, 0, 0, 0]);
    let n = bytes.len();
    assert_eq!(&bytes[n - 8..], &[0, 0, 0, 0, 0, 0, 0, 0]);
}

#[test]
fn full_red_pixel_bytes() {
    let t = GammaTable::new(G22, G22, G22);
    let hues: Vec<u32> = vec![0];
    let bytes = assemble(&hues, &t, 255);
    // Hue 0 at full brightness: red 255 survives the table, the other
    // channels are 0, and the flag inverts red's two top bits.
    assert_eq!(&bytes[4..8], &[0xFC, 0x00, 0x00, 0xFF]);
}

#[test]
fn dimming_zero_blanks_every_pixel() {
    let t = GammaTable::new(G22, G22, G22);
    let hues: Vec<u32> = vec![0, 9000, 21000, 33000];
    let bytes = assemble(&hues, &t, 0);
    for i in 0..hues.len() {
        let at = 4 * (1 + i);
        assert_eq!(&bytes[at..at + 4], &[0xFF, 0x00, 0x00, 0x00]);
    }
}

#[test]
fn pixel_records_serialize_in_field_order() {
    let pixels = vec![Color::new(0x11, 0x22, 0x33), Color::new(0xAA, 0xBB, 0xCC)];
    let bytes = frame_bytes(&pixels);
    assert_eq!(bytes.len(), 8);
    assert_eq!(bytes[0], pixels[0].flag);
    assert_eq!(bytes[1], 0x33);
    assert_eq!(bytes[2], 0x22);
    assert_eq!(bytes[3], 0x11);
    assert_eq!(bytes[4], pixels[1].flag);
    assert_eq!(bytes[5], 0xCC);
    assert_eq!(bytes[6], 0xBB);
    assert_eq!(bytes[7], 0xAA);
}

#[test]
fn hue_to_pixels_adds_three_zero_records() {
    let t = GammaTable::new(G22, G22, G22);
    let hues: Vec<u32> = vec![100, 200];
    let pixels = hue_to_pixels(&hues, &t, 255);
    assert_eq!(pixels.len(), 5);
    let zero = Color { flag: 0, blue: 0, green: 0, red: 0 };
    assert_eq!(pixels[0], zero);
    assert_eq!(pixels[3], zero);
    assert_eq!(pixels[4], zero);
}
