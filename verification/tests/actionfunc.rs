use regex::Regex;
use tabletop::actionfunc::{ActionFunc, ActionFuncError};
use tabletop::angle::Angle;

fn read(s: &str) -> Result<ActionFunc, ActionFuncError> {
    ActionFunc::try_from(s.to_string())
}

/// What a rotation by the decimal `d` is to be read as: the decimal is
/// rounded to a single, which must be an angle.
fn expected_rotation(d: &str) -> Result<ActionFunc, ActionFuncError> {
    let x: f32 = d.parse().unwrap();
    if x == 0.0 || x <= -360.0 || x >= 360.0 || x.is_nan() {
        Err(ActionFuncError(format!("rotate({d})")))
    } else {
        Ok(ActionFunc::Rotate(Angle(x.to_bits())))
    }
}

fn rotate(x: f32) -> ActionFunc {
    ActionFunc::Rotate(Angle(x.to_bits()))
}

fn malformed(s: &str) -> Result<ActionFunc, ActionFuncError> {
    Err(ActionFuncError(s.to_string()))
}

#[test]
fn parses_clone() {
    assert_eq!(read("clone"), Ok(ActionFunc::Clone));
}

#[test]
fn parses_delete() {
    assert_eq!(read("delete"), Ok(ActionFunc::Delete));
}

#[test]
fn parses_flips() {
    assert_eq!(read("flip(1)"), Ok(ActionFunc::Flip(1)));
    assert_eq!(read("flip(-1)"), Ok(ActionFunc::Flip(-1)));
    assert_eq!(read("flip(0)"), Ok(ActionFunc::Flip(0)));
    assert_eq!(read("flip(-0)"), Ok(ActionFunc::Flip(0)));
    assert_eq!(read("flip(12345)"), Ok(ActionFunc::Flip(12345)));
    assert_eq!(read("flip(007)"), Ok(ActionFunc::Flip(7)));
    assert_eq!(read("flip(00000000000000000000000042)"), Ok(ActionFunc::Flip(42)));
}

#[test]
fn parses_flips_at_the_ends_of_the_range() {
    assert_eq!(read("flip(2147483647)"), Ok(ActionFunc::Flip(i32::MAX)));
    assert_eq!(read("flip(-2147483648)"), Ok(ActionFunc::Flip(i32::MIN)));
    assert_eq!(read("flip(-2147483647)"), Ok(ActionFunc::Flip(-i32::MAX)));
    assert_eq!(read("flip(2147483648)"), malformed("flip(2147483648)"));
    assert_eq!(read("flip(-2147483649)"), malformed("flip(-2147483649)"));
    assert_eq!(read("flip(4294967297)"), malformed("flip(4294967297)"));
    assert_eq!(read("flip(99999999999999999999999999)"), malformed("flip(99999999999999999999999999)"));
    assert_eq!(read("flip(18446744073709551617)"), malformed("flip(18446744073709551617)"));
}

#[test]
fn parses_rotations() {
    assert_eq!(read("rotate(45)"), Ok(rotate(45.0)));
    assert_eq!(read("rotate(-45.5)"), Ok(rotate(-45.5)));
    assert_eq!(read("rotate(0.25)"), Ok(rotate(0.25)));
    assert_eq!(read("rotate(359.99)"), Ok(rotate(359.99)));
    assert_eq!(read("rotate(-359.99)"), Ok(rotate(-359.99)));
    assert_eq!(read("rotate(090.50)"), Ok(rotate(90.5)));
}

#[test]
fn rejects_rotations_outside_the_domain() {
    for s in ["rotate(0)", "rotate(-0)", "rotate(0.0)", "rotate(360)", "rotate(-360)", "rotate(360.0)", "rotate(1000)", "rotate(359.999999999)", "rotate(0.000000000000000000000000000000000000000000000001)"] {
        assert_eq!(read(s), malformed(s), "{s}");
    }
}

#[test]
fn rejects_what_the_grammar_does_not_admit() {
    for s in [
        "", "jump", "flip(abc)", "flip", "flip(", "flip()", "flip(-)", "flip(--1)", "flip(+1)", "flip(1.5)",
        "flip(1))", "flip((1)", "flip(1", "flip 1", "flip(1) ", " flip(1)", "flip( 1)", "flip(1 )", "Flip(1)",
        "FLIP(1)", "flip(1)\n", "flip(0x10)", "flip(1_000)", "flip(1e3)", "clone ", " clone", "Clone", "clone()",
        "delete()", "deleted", "del", "rotate", "rotate(", "rotate()", "rotate(-)", "rotate(.5)", "rotate(5.)",
        "rotate(1.2.3)", "rotate(1e2)", "rotate(+5)", "rotate(5 )", "rotate(NaN)", "rotate(inf)", "rotate(-.5)",
        "rotate(1,5)", "Rotate(5)", "rotate(5))", "rotate(45)x", "xrotate(45)", "flip(\u{0663})", "rotate(\u{0664}\u{0665})",
        "flip(\u{ff11})", "clon\u{0435}", "flip(1)\u{0}", "rotate(4\u{0301}5)",
    ] {
        assert_eq!(read(s), malformed(s), "{s:?}");
    }
}

#[test]
fn error_keeps_the_descriptor() {
    match read("flip(abc)") {
        Err(ActionFuncError(s)) => assert_eq!(s, "flip(abc)"),
        other => panic!("{other:?}"),
    }
    match read("") {
        Err(ActionFuncError(s)) => assert_eq!(s, ""),
        other => panic!("{other:?}"),
    }
    assert_eq!(ActionFuncError("jump".to_string()).message(), "jump is malformed");
}

#[test]
fn rotation_is_rounded_to_the_nearest_single() {
    for d in [
        "0.1", "0.2", "0.3", "1.1", "3.14159265358979", "2.718281828", "359.9999", "100.000001", "0.000001",
        "33.333333333333333333333333333333333333", "0.123456789012345678901234567890", "255.99999", "256.00001",
        "1.0000001", "1.00000001", "16777216.0", "0.99999999", "0.999999999999", "359.99998", "359.99999",
        "359.999984", "359.999985", "359.9999847412109375", "359.99998474121093750000001", "359.9999847412109374",
        "-0.1", "-359.99998", "-359.99999", "-7.25", "-0.000000000000000000000000000000000000000000001",
        "000000000000000000000000000045.50000000000000000000000000000",
    ] {
        assert_eq!(read(&format!("rotate({d})")), expected_rotation(d), "{d}");
    }
}

#[test]
fn rotation_is_rounded_to_the_smallest_singles() {
    // Around the least single above zero, 2^-149, and half of it.
    let least = format!("{:.160}", f64::from_bits(0x36a0_0000_0000_0000));
    let half = format!("{:.160}", f64::from_bits(0x3690_0000_0000_0000));
    assert_eq!(f32::from_bits(1) as f64, f64::from_bits(0x36a0_0000_0000_0000));
    assert_eq!(read(&format!("rotate({least})")), Ok(ActionFunc::Rotate(Angle(1))));
    assert_eq!(read(&format!("rotate(-{least})")), Ok(ActionFunc::Rotate(Angle(0x8000_0001))));
    // Half-way between zero and the least: to the even pattern, zero.
    assert_eq!(read(&format!("rotate({half})")), malformed(&format!("rotate({half})")));
    // A little more than half-way: to the least.
    assert_eq!(read(&format!("rotate({half}1)")), Ok(ActionFunc::Rotate(Angle(1))));
    for d in [least.as_str(), half.as_str(), "0.00000000000000000000000000000000000001", "0.0000000000000000000000000000000000000117549435", "0.000000000000000000000000000000000000011754942", "0.0000000000000000000000000000000000000000000014", "0.0000000000000000000000000000000000000000000007", "0.00000000000000000000000000000000000000000000071"] {
        assert_eq!(read(&format!("rotate({d})")), expected_rotation(d), "{d}");
    }
}

#[test]
fn rotation_half_way_goes_to_the_even_pattern() {
    // Half-way between two singles next to each other, to the digit, and a
    // little to each side of it.
    let mut b: u32 = 1;
    let mut seen = 0;
    while b < 0x43b4_0000 {
        let lo = f32::from_bits(b) as f64;
        let hi = f32::from_bits(b + 1) as f64;
        let mid = format!("{:.200}", (lo + hi) / 2.0);
        let even = if b % 2 == 0 { b } else { b + 1 };
        let read_mid = read(&format!("rotate({mid})"));
        assert_eq!(read_mid, expected_rotation(&mid), "{mid}");
        if even < 0x43b4_0000 {
            assert_eq!(read_mid, Ok(ActionFunc::Rotate(Angle(even))), "{mid}");
        } else {
            assert_eq!(read_mid, malformed(&format!("rotate({mid})")));
        }
        let more = format!("{mid}1");
        assert_eq!(read(&format!("rotate({more})")), expected_rotation(&more), "{more}");
        if b + 1 < 0x43b4_0000 {
            assert_eq!(read(&format!("rotate({more})")), Ok(ActionFunc::Rotate(Angle(b + 1))));
        }
        let exact = format!("{:.200}", lo);
        assert_eq!(read(&format!("rotate(-{exact})")), Ok(ActionFunc::Rotate(Angle(b | 0x8000_0000))), "{exact}");
        seen += 1;
        b += 2_750_001;
    }
    assert!(seen > 400);
}

#[test]
fn rotation_is_rounded_rightly_where_the_exponent_changes() {
    // Around every power of two in the domain, and the least of them all.
    for e in 1..=135u32 {
        let power = e << 23;
        for b in [power - 2, power - 1, power, power + 1] {
            if b == 0 || b + 1 >= 0x43b4_0000 {
                continue;
            }
            let lo = f32::from_bits(b) as f64;
            let hi = f32::from_bits(b + 1) as f64;
            let exact = format!("{:.200}", lo);
            let mid = format!("{:.200}", (lo + hi) / 2.0);
            let even = if b % 2 == 0 { b } else { b + 1 };
            assert_eq!(read(&format!("rotate({exact})")), Ok(ActionFunc::Rotate(Angle(b))), "{exact}");
            assert_eq!(read(&format!("rotate({mid})")), Ok(ActionFunc::Rotate(Angle(even))), "{mid}");
            assert_eq!(read(&format!("rotate({mid}1)")), Ok(ActionFunc::Rotate(Angle(b + 1))), "{mid}1");
            assert_eq!(read(&format!("rotate({exact}1)")), Ok(ActionFunc::Rotate(Angle(b))), "{exact}1");
            for d in [&exact, &mid] {
                assert_eq!(read(&format!("rotate(-{d})")), expected_rotation(&format!("-{d}")), "-{d}");
            }
        }
    }
}

#[test]
fn rotation_agrees_with_the_numbers() {
    // Decimals of many lengths, by a walk that has no period to speak of.
    let mut state: u64 = 0x2545_f491_4f6c_dd1d;
    let mut next = move || {
        state ^= state << 13;
        state ^= state >> 7;
        state ^= state << 17;
        state
    };
    let mut accepted = 0;
    for _ in 0..4000 {
        let mut d = String::new();
        if next() % 3 == 0 {
            d.push('-');
        }
        let whole = match next() % 4 {
            0 => 0,
            1 => next() % 10,
            2 => next() % 400,
            _ => next() % 100_000,
        };
        d.push_str(&whole.to_string());
        let places = next() % 60;
        if places > 0 {
            d.push('.');
            let zeros = if next() % 2 == 0 { next() % 50 } else { 0 };
            for _ in 0..zeros {
                d.push('0');
            }
            for _ in 0..places {
                d.push(char::from(b'0' + (next() % 10) as u8));
            }
        }
        let got = read(&format!("rotate({d})"));
        assert_eq!(got, expected_rotation(&d), "{d}");
        if got.is_ok() {
            accepted += 1;
        }
    }
    assert!(accepted > 1000, "{accepted}");
}

#[test]
fn flip_round_trip() {
    let mut n: i32 = i32::MIN;
    loop {
        assert_eq!(read(&format!("flip({n})")), Ok(ActionFunc::Flip(n)));
        match n.checked_add(7_654_321) {
            Some(m) => n = m,
            None => break,
        }
    }
    for n in [i32::MIN, i32::MIN + 1, -10, -9, -1, 0, 1, 9, 10, 99, 100, i32::MAX - 1, i32::MAX] {
        assert_eq!(read(&format!("flip({n})")), Ok(ActionFunc::Flip(n)));
    }
}

#[test]
fn rotate_round_trip() {
    let mut b: u32 = 1;
    let mut seen = 0;
    while b < 0x43b4_0000 {
        for bits in [b, b | 0x8000_0000] {
            let a = Angle::new(bits).unwrap();
            let x = f32::from_bits(a.0);
            assert_eq!(read(&format!("rotate({x})")), Ok(ActionFunc::Rotate(a)), "{x}");
        }
        seen += 1;
        b += 1_234_567;
    }
    assert!(seen > 900);
    for x in [45.0f32, -45.5, 0.1, 359.99997, -359.99997, 1e-10, 1.17549435e-38, 1e-45] {
        let a = Angle::new(x.to_bits()).unwrap();
        assert_eq!(read(&format!("rotate({x})")), Ok(ActionFunc::Rotate(a)), "{x}");
    }
}

#[test]
fn kinds_are_told_apart() {
    assert_eq!(ActionFunc::Clone.kind(), 0);
    assert_eq!(ActionFunc::Delete.kind(), 1);
    assert_eq!(ActionFunc::Flip(5).kind(), 2);
    assert_eq!(ActionFunc::Flip(-5).kind(), 2);
    assert_eq!(rotate(5.0).kind(), 3);
}

/// The grammar as two patterns, the decimal turned into a single and held
/// to the domain of angles.
fn read_by_pattern(flip: &Regex, rotate: &Regex, s: &str) -> Option<ActionFunc> {
    if s == "clone" {
        Some(ActionFunc::Clone)
    } else if s == "delete" {
        Some(ActionFunc::Delete)
    } else if s.starts_with("flip(") {
        let m = flip.captures(s)?.get(1)?;
        m.as_str().parse::<i32>().ok().map(ActionFunc::Flip)
    } else if s.starts_with("rotate(") {
        let m = rotate.captures(s)?.get(1)?;
        let x = m.as_str().parse::<f32>().ok()?;
        if x == 0.0 || x <= -360.0 || x >= 360.0 || x.is_nan() {
            None
        } else {
            Some(ActionFunc::Rotate(Angle(x.to_bits())))
        }
    } else {
        None
    }
}

#[test]
fn agrees_with_the_patterns() {
    let flip = Regex::new(r"^flip\((-?\d+)\)$").unwrap();
    let rotate = Regex::new(r"^rotate\((-?\d+(\.\d+)?)\)$").unwrap();
    let heads = ["", "flip(", "rotate(", "flip", "rotate", "clone", "delete", " flip(", "Rotate("];
    let parts = ["", "-", ".", "0", "1", "9", "36", "360", "a", " ", "\n", "\u{0663}", "+", "(", ")"];
    let tails = ["", ")", "))", ") "];
    let mut count = 0;
    let mut accepted = 0;
    for head in heads {
        for a in parts {
            for b in parts {
                for c in parts {
                    for d in parts {
                        for tail in tails {
                            let s = format!("{head}{a}{b}{c}{d}{tail}");
                            let got = read(&s).ok();
                            assert_eq!(got, read_by_pattern(&flip, &rotate, &s), "{s:?}");
                            count += 1;
                            if got.is_some() {
                                accepted += 1;
                            }
                        }
                    }
                }
            }
        }
    }
    assert!(count > 1_000_000);
    assert!(accepted > 1_000, "{accepted}");
}
