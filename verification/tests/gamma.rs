use blink::gamma::GammaTable;

// An exponent of 2.2 in Q8 units.
const G22: u32 = 563;

#[test]
fn gamma_table_monotone_for_exponent_above_one() {
    let t = GammaTable::new(G22, G22, G22);
    for table in [&t.red_table, &t.green_table, &t.blue_table] {
        assert_eq!(table.len(), 256);
        for i in 0..255 {
            assert!(table[i] <= table[i + 1], "entry {} above entry {}", i, i + 1);
        }
    }
}

#[test]
fn gamma_table_endpoints() {
    let t = GammaTable::new(G22, G22, G22);
    assert_eq!(t.red_table[0], 0);
    assert_eq!(t.red_table[255], 255);
    assert_eq!(t.green_table[0], 0);
    assert_eq!(t.green_table[255], 255);
    assert_eq!(t.blue_table[0], 0);
    assert_eq!(t.blue_table[255], 255);
}

#[test]
fn gamma_table_swaps_green_and_blue_exponents() {
    let a = GammaTable::new(256, 300, 500);
    let b = GammaTable::new(256, 500, 300);
    // The green table is built from the blue exponent and vice versa, so
    // swapping the two exponents swaps the two tables.
    assert_eq!(a.green_table, b.blue_table);
    assert_eq!(a.blue_table, b.green_table);
    assert_eq!(a.red_table, b.red_table);
}

#[test]
fn gamma_exponent_one_is_identity() {
    // An exponent of one corrects nothing: every entry equals its index,
    // and channels pass through correct_color unchanged.
    let t = GammaTable::new(256, 256, 256);
    for i in 0..256 {
        assert_eq!(t.red_table[i], i as u8);
        assert_eq!(t.green_table[i], i as u8);
        assert_eq!(t.blue_table[i], i as u8);
    }
    let c = t.correct_color(17, 204, 96);
    assert_eq!((c.red, c.green, c.blue), (17, 204, 96));
}

#[test]
fn gamma_table_tracks_the_power_curve() {
    // The Q32 table matches round(255 * (i/255)^gamma) up to at most one
    // step, covering ties the float power may resolve either way.
    for (q8, exponent) in [(256u32, 1.0f64), (300, 300.0 / 256.0), (563, 563.0 / 256.0)] {
        let t = GammaTable::new(q8, q8, q8);
        for i in 0..256 {
            let reference = (255.0 * (i as f64 / 255.0).powf(exponent)).round() as i32;
            let got = t.red_table[i] as i32;
            assert!(
                (got - reference).abs() <= 1,
                "exponent {}: entry {} is {}, reference {}",
                exponent,
                i,
                got,
                reference
            );
        }
    }
}

#[test]
fn gamma_curve_bends_down_for_exponent_above_one() {
    let t = GammaTable::new(G22, G22, G22);
    // Gamma 2.2 pulls mid intensities well below the identity line.
    assert!(t.red_table[128] < 100);
    assert!(t.red_table[128] > 20);
}
