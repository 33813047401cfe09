use tabletop::angle::{negate, Angle, MalformedAngle, FULL_TURN, INFINITY, SIGN_BIT};

fn bits(x: f32) -> u32 {
    x.to_bits()
}

/// The domain as it is said of numbers.
fn in_domain(x: f32) -> bool {
    x != 0.0 && -360.0 < x && x < 360.0 && !x.is_nan()
}

#[test]
fn angle_rejects_zero() {
    assert_eq!(Angle::new(bits(0.0)), None);
    assert_eq!(Angle::new(bits(-0.0)), None);
}

#[test]
fn angle_rejects_a_full_turn() {
    assert_eq!(Angle::new(bits(360.0)), None);
    assert_eq!(Angle::new(bits(-360.0)), None);
}

#[test]
fn angle_rejects_more_than_a_full_turn() {
    assert_eq!(Angle::new(bits(360.00003)), None);
    assert_eq!(Angle::new(bits(-720.0)), None);
    assert_eq!(Angle::new(bits(f32::MAX)), None);
    assert_eq!(Angle::new(bits(f32::MIN)), None);
    assert_eq!(Angle::new(bits(f32::INFINITY)), None);
    assert_eq!(Angle::new(bits(f32::NEG_INFINITY)), None);
}

#[test]
fn angle_rejects_nan() {
    assert_eq!(Angle::new(bits(f32::NAN)), None);
    assert_eq!(Angle::new(bits(-f32::NAN)), None);
    assert_eq!(Angle::new(0x7f80_0001), None);
    assert_eq!(Angle::new(0xffff_ffff), None);
}

#[test]
fn angle_accepts_forty_five() {
    let a = Angle::new(bits(45.0)).unwrap();
    assert_eq!(f32::from_bits(a.0), 45.0);
}

#[test]
fn angle_accepts_minus_forty_five_and_a_half() {
    let a = Angle::new(bits(-45.5)).unwrap();
    assert_eq!(f32::from_bits(a.0), -45.5);
}

#[test]
fn angle_accepts_the_edges_of_the_domain() {
    // The single just below 360, and the smallest there is above 0.
    let below = f32::from_bits(FULL_TURN - 1);
    assert!(below < 360.0 && below > 359.9999);
    assert_eq!(Angle::new(FULL_TURN - 1), Some(Angle(FULL_TURN - 1)));
    assert_eq!(Angle::new((FULL_TURN - 1) | SIGN_BIT), Some(Angle((FULL_TURN - 1) | SIGN_BIT)));
    assert_eq!(Angle::new(1), Some(Angle(1)));
    assert_eq!(Angle::new(1 | SIGN_BIT), Some(Angle(1 | SIGN_BIT)));
    assert_eq!(Angle::new(bits(f32::MIN_POSITIVE)), Some(Angle(bits(f32::MIN_POSITIVE))));
}

#[test]
fn full_turn_is_the_pattern_of_360() {
    assert_eq!(FULL_TURN, bits(360.0));
    assert_eq!(SIGN_BIT, bits(-0.0));
}

#[test]
fn angle_domain_agrees_with_the_numbers() {
    // A walk over all patterns in steps that share no factor with 2^32.
    let mut b: u32 = 0;
    let mut seen = 0u32;
    loop {
        let x = f32::from_bits(b);
        assert_eq!(Angle::new(b).is_some(), in_domain(x), "pattern {b:#010x}");
        if let Some(a) = Angle::new(b) {
            assert_eq!(a.0, b);
        }
        seen += 1;
        let (next, over) = b.overflowing_add(40_503);
        if over {
            break;
        }
        b = next;
    }
    assert!(seen > 100_000);
}

#[test]
fn angle_domain_agrees_near_its_edges() {
    for centre in [0u32, FULL_TURN, SIGN_BIT, FULL_TURN | SIGN_BIT, 0x7f80_0000, 0xff80_0000] {
        for d in 0..2000u32 {
            for b in [centre.wrapping_add(d), centre.wrapping_sub(d)] {
                assert_eq!(Angle::new(b).is_some(), in_domain(f32::from_bits(b)), "pattern {b:#010x}");
            }
        }
    }
}

#[test]
fn negate_is_the_opposite_number() {
    for x in [0.0f32, 1.0, -1.0, 45.5, -359.0, 1e-40, f32::MAX, f32::INFINITY] {
        assert_eq!(negate(bits(x)), bits(-x));
        assert_eq!(negate(negate(bits(x))), bits(x));
    }
    assert_eq!(negate(bits(f32::NAN)), bits(-f32::NAN));
}

#[test]
fn reversed_angle_turns_the_other_way() {
    let a = Angle::new(bits(90.0)).unwrap();
    assert_eq!(a.reversed(), Angle(bits(-90.0)));
    assert_eq!(a.reversed().reversed(), a);
    assert!(Angle::new(a.reversed().0).is_some());
}

#[test]
fn angles_are_equal_by_pattern() {
    assert_eq!(Angle(bits(45.0)), Angle(bits(45.0)));
    assert_ne!(Angle(bits(45.0)), Angle(bits(-45.0)));
    assert_ne!(Angle(bits(45.0)), Angle(bits(45.0) + 1));
}

#[test]
fn try_new_says_why_not() {
    assert_eq!(Angle::try_new(bits(0.0)), Err(MalformedAngle::Zero));
    assert_eq!(Angle::try_new(bits(-0.0)), Err(MalformedAngle::Zero));
    assert_eq!(Angle::try_new(bits(360.0)), Err(MalformedAngle::FullTurn));
    assert_eq!(Angle::try_new(bits(-360.0)), Err(MalformedAngle::FullTurn));
    assert_eq!(Angle::try_new(bits(1e9)), Err(MalformedAngle::FullTurn));
    assert_eq!(Angle::try_new(bits(f32::INFINITY)), Err(MalformedAngle::FullTurn));
    assert_eq!(Angle::try_new(bits(f32::NEG_INFINITY)), Err(MalformedAngle::FullTurn));
    assert_eq!(Angle::try_new(bits(f32::NAN)), Err(MalformedAngle::NotANumber));
    assert_eq!(Angle::try_new(INFINITY + 1), Err(MalformedAngle::NotANumber));
    assert_eq!(Angle::try_new(0xffff_ffff), Err(MalformedAngle::NotANumber));
    assert_eq!(Angle::try_new(bits(45.0)), Ok(Angle(bits(45.0))));
    assert_eq!(Angle::try_new(bits(-359.5)), Ok(Angle(bits(-359.5))));
}

#[test]
fn try_new_agrees_with_the_numbers() {
    let mut b: u32 = 0;
    loop {
        let x = f32::from_bits(b);
        let expected = if x.is_nan() {
            Err(MalformedAngle::NotANumber)
        } else if x == 0.0 {
            Err(MalformedAngle::Zero)
        } else if x <= -360.0 || x >= 360.0 {
            Err(MalformedAngle::FullTurn)
        } else {
            Ok(Angle(b))
        };
        assert_eq!(Angle::try_new(b), expected, "pattern {b:#010x}");
        assert_eq!(Angle::new(b), expected.ok());
        let (next, over) = b.overflowing_add(104_729);
        if over {
            break;
        }
        b = next;
    }
}

#[test]
fn infinity_is_the_pattern_of_infinity() {
    assert_eq!(INFINITY, bits(f32::INFINITY));
}
