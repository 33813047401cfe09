use tabletop::single::round;

fn digits(s: &str) -> Vec<u8> {
    s.bytes().map(|c| c - b'0').collect()
}

/// The pattern of the single that the decimal is rounded to.
fn pattern(whole: u32, frac: &str) -> u32 {
    format!("{whole}.{frac}0").parse::<f32>().unwrap().to_bits()
}

#[test]
fn round_gives_whole_numbers_their_patterns() {
    for whole in [0u32, 1, 2, 3, 7, 8, 255, 256, 359, 360, 1000, 65_535, 16_777_215] {
        assert_eq!(round(whole, vec![]), (whole as f32).to_bits(), "{whole}");
        assert_eq!(round(whole, vec![0, 0, 0]), (whole as f32).to_bits(), "{whole}");
    }
}

#[test]
fn round_gives_fractions_their_patterns() {
    assert_eq!(round(0, digits("5")), 0.5f32.to_bits());
    assert_eq!(round(0, digits("25")), 0.25f32.to_bits());
    assert_eq!(round(45, digits("5")), 45.5f32.to_bits());
    assert_eq!(round(0, digits("1")), 0.1f32.to_bits());
    assert_eq!(round(0, digits("1")), 0x3dcc_cccd);
    assert_eq!(round(0, digits("3")), 0x3e99_999a);
    assert_eq!(round(3, digits("14159265358979")), std::f32::consts::PI.to_bits());
}

#[test]
fn round_agrees_with_the_numbers() {
    for whole in [0u32, 1, 5, 99, 255, 256, 359, 4095, 16_777_215] {
        for frac in [
            "0", "1", "5", "9", "05", "50", "99", "001", "125", "333333333", "666666666666666667",
            "999999999999999999999999", "000000000000000000000000000000000000000000001",
            "0000000000000000000000000000000000000117549435", "4999999999999999999999999999", "5000000000000000000000000001",
        ] {
            assert_eq!(round(whole, digits(frac)), pattern(whole, frac), "{whole}.{frac}");
        }
    }
}

#[test]
fn round_of_what_is_too_small_is_zero() {
    let mut frac = vec![0u8; 60];
    frac.push(1);
    assert_eq!(round(0, frac), 0);
    assert_eq!(round(0, vec![]), 0);
    assert_eq!(round(0, vec![0; 500]), 0);
}
