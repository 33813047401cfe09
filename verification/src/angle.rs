//! Rotation deltas in degrees.
//!
//! A degree value is an IEEE-754 single, and this module holds it as its
//! 32-bit pattern: bit 31 is the sign, bits 30 to 0 the magnitude. Among
//! patterns with the same sign, the order of the magnitudes as integers is
//! the order of the numbers they stand for (`lemma_domain_in_numbers` says
//! what that means for the domain); every NaN has a magnitude above that of
//! infinity. So the questions asked of a degree value here (is it zero, is
//! it short of a full turn, what is its opposite) are questions about
//! integers.

use vstd::arithmetic::power2::*;
use vstd::prelude::*;

use crate::single::{lemma_scaled_increases, scaled};

verus! {

/// The sign bit of a single.
pub const SIGN_BIT: u32 = 0x8000_0000;

/// The pattern of `360.0`: exponent 8, fraction `0.40625`.
pub const FULL_TURN: u32 = 0x43B4_0000;

/// The pattern without its sign: the pattern of the absolute value.
pub open spec fn magnitude(bits: u32) -> u32 {
    bits & !SIGN_BIT
}

/// The patterns of the numbers `x` with `x != 0` and `-360 < x < 360`.
/// Both zeros have magnitude 0; the infinities and every NaN have a
/// magnitude above `FULL_TURN`.
pub open spec fn in_domain(bits: u32) -> bool {
    0 < magnitude(bits) < FULL_TURN
}

/// The pattern of the opposite number: the same magnitude under the other sign.
pub open spec fn opposite(bits: u32) -> u32 {
    bits ^ SIGN_BIT
}

/// Computes `opposite`.
pub fn negate(bits: u32) -> (r: u32)
    ensures
        r == opposite(bits),
{
    bits ^ SIGN_BIT
}

/// The pattern of infinity: all exponent bits set, no fraction bit.
pub const INFINITY: u32 = 0x7F80_0000;

/// Why a number of degrees is not an angle.
#[derive(Clone, Copy, Debug, PartialEq, Eq, Structural)]
pub enum MalformedAngle {
    /// It is zero.
    Zero,
    /// It is a full turn or more, one way or the other.
    FullTurn,
    /// It is not a number.
    NotANumber,
}

/// What the pattern `bits` is: in the domain, or why not.
pub open spec fn checked(bits: u32) -> Result<Angle, MalformedAngle> {
    if magnitude(bits) == 0 {
        Err(MalformedAngle::Zero)
    } else if magnitude(bits) < FULL_TURN {
        Ok(Angle(bits))
    } else if magnitude(bits) <= INFINITY {
        Err(MalformedAngle::FullTurn)
    } else {
        Err(MalformedAngle::NotANumber)
    }
}

/// A rotation by less than a full turn, either way, and not by nothing.
///
/// Two angles are equal when their patterns are.
#[derive(Clone, Copy, Debug, PartialEq, Eq, Hash, Structural)]
pub struct Angle(pub u32);

impl Angle {
    /// Whether the angle lies in the domain that `new` admits.
    pub open spec fn valid(self) -> bool {
        in_domain(self.0)
    }

    /// The angle with the pattern `angle`, if that lies in the domain.
    pub fn new(angle: u32) -> (r: Option<Angle>)
        ensures
            r == (if in_domain(angle) {
                Some(Angle(angle))
            } else {
                None
            }),
    {
        match Angle::try_new(angle) {
            Ok(a) => Some(a),
            Err(_) => None,
        }
    }

    /// The angle with the pattern `angle`, or why there is none.
    pub fn try_new(angle: u32) -> (r: Result<Angle, MalformedAngle>)
        ensures
            r == checked(angle),
            r is Ok <==> in_domain(angle),
    {
        let m: u32 = angle & !SIGN_BIT;
        if m == 0 {
            Err(MalformedAngle::Zero)
        } else if m < FULL_TURN {
            Ok(Angle(angle))
        } else if m <= INFINITY {
            Err(MalformedAngle::FullTurn)
        } else {
            Err(MalformedAngle::NotANumber)
        }
    }

    /// The same rotation the other way round.
    pub fn reversed(self) -> (r: Angle)
        ensures
            r.0 == opposite(self.0),
            self.valid() ==> r.valid(),
    {
        proof {
            lemma_opposite_keeps_magnitude(self.0);
        }
        Angle(negate(self.0))
    }
}

/// Taking the opposite twice gives the number back.
pub proof fn lemma_opposite_involution(bits: u32)
    ensures
        opposite(opposite(bits)) == bits,
{
    assert((bits ^ 0x8000_0000u32) ^ 0x8000_0000u32 == bits) by (bit_vector);
}

/// A number and its opposite have the same magnitude and differ, so the
/// domain holds both or neither.
pub proof fn lemma_opposite_keeps_magnitude(bits: u32)
    ensures
        magnitude(opposite(bits)) == magnitude(bits),
        opposite(bits) != bits,
        in_domain(opposite(bits)) == in_domain(bits),
{
    assert((bits ^ 0x8000_0000u32) & !0x8000_0000u32 == bits & !0x8000_0000u32) by (bit_vector);
    assert(bits ^ 0x8000_0000u32 != bits) by (bit_vector);
}

/// The domain read off the fields of the pattern: the magnitude is the
/// pattern with bit 31 cleared, it is not zero, and it is below `FULL_TURN`.
/// In particular no pattern with all exponent bits set (an infinity or a
/// NaN) is in the domain.
pub proof fn lemma_domain_by_fields(bits: u32)
    ensures
        magnitude(bits) == bits % 0x8000_0000,
        in_domain(bits) ==> (bits >> 23) & 0xff != 0xff,
        in_domain(bits) <==> (bits != 0 && bits != SIGN_BIT && bits % 0x8000_0000 < FULL_TURN),
{
    assert(bits & !0x8000_0000u32 == bits % 0x8000_0000u32) by (bit_vector);
    assert((bits & !0x8000_0000u32) < 0x43B4_0000u32 ==> (bits >> 23) & 0xff != 0xff)
        by (bit_vector);
    assert((bits & !0x8000_0000u32) == 0 <==> (bits == 0 || bits == 0x8000_0000u32))
        by (bit_vector);
}

/// A pattern below the sign bit has the sign clear, and with the sign bit
/// added it has the sign set and the same magnitude.
pub proof fn lemma_signed(b: u32)
    requires
        b < SIGN_BIT,
    ensures
        magnitude(b) == b,
        magnitude((b + SIGN_BIT) as u32) == b,
        (b + SIGN_BIT) as u32 >= SIGN_BIT,
        in_domain(b) == (0 < b < FULL_TURN),
        in_domain((b + SIGN_BIT) as u32) == (0 < b < FULL_TURN),
{
    assert(b < 0x8000_0000u32 ==> b & !0x8000_0000u32 == b) by (bit_vector);
    assert(b < 0x8000_0000u32 ==> (b + 0x8000_0000u32) as u32 & !0x8000_0000u32 == b)
        by (bit_vector);
}

/// A pattern is its magnitude, with the sign bit added if its sign is set.
pub proof fn lemma_sign_and_magnitude(bits: u32)
    ensures
        magnitude(bits) < SIGN_BIT,
        bits == (if bits >= SIGN_BIT {
            magnitude(bits) + SIGN_BIT
        } else {
            magnitude(bits) as int
        }),
{
    assert(bits & !0x8000_0000u32 < 0x8000_0000u32) by (bit_vector);
    assert(bits >= 0x8000_0000u32 ==> bits == ((bits & !0x8000_0000u32) + 0x8000_0000u32) as u32)
        by (bit_vector);
    assert(bits < 0x8000_0000u32 ==> bits == bits & !0x8000_0000u32) by (bit_vector);
}

/// `FULL_TURN` stands for 360.
pub proof fn lemma_full_turn()
    ensures
        scaled(FULL_TURN) == 360 * pow2(149),
{
    lemma2_to64();
    lemma_pow2_adds(15, 134);
    assert(FULL_TURN / 0x80_0000 == 135 && FULL_TURN % 0x80_0000 == 0x34_0000);
    assert(0xb4_0000 * pow2(134) == 360 * pow2(149)) by (nonlinear_arith)
        requires
            pow2(149) == 32768 * pow2(134),
    ;
}

/// The domain in numbers: a pattern is in the domain if and only if it
/// stands for a number (it is neither an infinity nor a NaN) whose absolute
/// value is above 0 and below 360. The absolute value is given in units
/// of `2^-149`.
pub proof fn lemma_domain_in_numbers(bits: u32)
    ensures
        in_domain(bits) <==> magnitude(bits) < INFINITY && 0 < scaled(magnitude(bits)) < 360
            * pow2(149),
{
    let m = magnitude(bits);
    lemma_sign_and_magnitude(bits);
    lemma_full_turn();
    assert(scaled(0) == 0);
    if m < FULL_TURN {
        lemma_scaled_increases(0, m);
        lemma_scaled_increases(m, FULL_TURN);
    } else {
        lemma_scaled_increases(FULL_TURN, m);
    }
}

} // verus!
