use blink::animation::Animation;
use blink::animation::advance_hues;
use blink::animation::init_hues;
use blink::frame::assemble;
use blink::gamma::GammaTable;

const G22: u32 = 563;

fn strip(n: usize, step: u32, schedule: bool) -> Animation {
    let hues = init_hues(n);
    let table = GammaTable::new(G22, G22, G22);
    Animation::new(hues, table, step, schedule)
}

#[test]
fn init_hues_spreads_the_circle() {
    let hues = init_hues(76);
    assert_eq!(hues.len(), 76);
    assert_eq!(hues[0], 0);
    assert_eq!(hues[1], 36000 / 76);
    assert_eq!(hues[75], 75 * 36000 / 76);
    for h in &hues {
        assert!(*h < 36000);
    }
}

#[test]
fn hue_wraps_inside_the_circle() {
    let mut hues: Vec<u32> = vec![35990, 0, 17999];
    advance_hues(&mut hues, 20);
    assert_eq!(hues, vec![10, 20, 18019]);
    // Any number of repeated advances stays inside the circle.
    let mut h: Vec<u32> = vec![31417];
    for _ in 0..10_000 {
        advance_hues(&mut h, 77);
        assert!(h[0] < 36000);
    }
}

#[test]
fn one_tick_frame_is_deterministic() {
    // 76 LEDs, one tick of a whole degree, full brightness: the buffer is
    // reproducible byte for byte and fenced by three zero records.
    let mut a = strip(76, 100, false);
    let frame = a.tick(false, 0, 0, 0).expect("running tick transmits");
    let mut b = strip(76, 100, false);
    let again = b.tick(false, 0, 0, 0).expect("running tick transmits");
    assert_eq!(frame, again);
    assert_eq!(frame.len(), 4 * (76 + 3));
    assert_eq!(&frame[0..4], &[0, 0, 0, 0]);
    assert_eq!(&frame[4 * 77..], &[0, 0, 0, 0, 0, 0, 0, 0]);
}

#[test]
fn tick_advances_every_hue_by_the_step() {
    let mut a = strip(5, 100, false);
    let before = a.hues.clone();
    a.tick(false, 0, 0, 0);
    for i in 0..5 {
        assert_eq!(a.hues[i], (before[i] + 100) % 36000);
    }
}

#[test]
fn daytime_tick_transmits_blank_pixels() {
    let sunrise = 1_700_000_000i64;
    let sunset = sunrise + 36_000;
    let mut a = strip(3, 100, true);
    let frame = a.tick(false, sunrise + 100, sunrise, sunset).expect("running tick transmits");
    for i in 0..3 {
        let at = 4 * (1 + i);
        assert_eq!(&frame[at..at + 4], &[0xFF, 0x00, 0x00, 0x00]);
    }
}

#[test]
fn shutdown_transmits_one_blank_frame_then_nothing() {
    let mut a = strip(76, 100, false);
    a.tick(false, 0, 0, 0);
    let hues_at_shutdown = a.hues.clone();
    let last = a.tick(true, 0, 0, 0).expect("shutdown tick transmits once more");
    // The final frame is the current hues at dimming zero, hues untouched.
    let table = GammaTable::new(G22, G22, G22);
    assert_eq!(last, assemble(&hues_at_shutdown, &table, 0));
    assert_eq!(a.hues, hues_at_shutdown);
    for i in 0..76 {
        let at = 4 * (1 + i);
        assert_eq!(&last[at..at + 4], &[0xFF, 0x00, 0x00, 0x00]);
    }
    // After stopping, no further frame is ever produced.
    assert_eq!(a.tick(false, 0, 0, 0), None);
    assert_eq!(a.tick(true, 0, 0, 0), None);
}
