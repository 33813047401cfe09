//! The descriptors by which a piece's configuration names what can be done
//! to it, and their grammar:
//!
//! ```text
//! clone
//! delete
//! flip(<integer>)        <integer> = -?[0-9]+
//! rotate(<decimal>)      <decimal> = -?[0-9]+(\.[0-9]+)?
//! ```
//!
//! Keywords are case-sensitive and nothing may surround or separate the
//! parts. The integer of a flip must fit in an `i32`. The decimal of a
//! rotation is rounded to the nearest single, which must be an angle: not
//! zero, and short of a full turn.

use vstd::arithmetic::power::*;
use vstd::prelude::*;
use vstd::string::*;

use crate::angle::{
    lemma_full_turn, lemma_sign_and_magnitude, lemma_signed, magnitude, Angle, FULL_TURN, SIGN_BIT,
};
use crate::single::{
    are_digits, lemma_nearest_unique, lemma_too_large, nearest, number, round,
};
use crate::text::{begins_with, begins_with_spec, chars_of, spells};

verus! {

/// What a piece can be asked to do.
#[derive(Clone, Copy, Debug, PartialEq, Eq, Hash, Structural)]
pub enum ActionFunc {
    Clone,
    Delete,
    /// Turn up the face this many steps further on.
    Flip(i32),
    /// Turn the piece by this many degrees.
    Rotate(Angle),
}

impl ActionFunc {
    /// Which of the four things this is, whatever its number.
    pub open spec fn kind_spec(&self) -> u8 {
        match self {
            ActionFunc::Clone => 0,
            ActionFunc::Delete => 1,
            ActionFunc::Flip(_) => 2,
            ActionFunc::Rotate(_) => 3,
        }
    }

    /// Which of the four things this is, whatever its number.
    #[verifier::when_used_as_spec(kind_spec)]
    pub fn kind(&self) -> (k: u8)
        ensures
            k == self.kind_spec(),
    {
        match self {
            ActionFunc::Clone => 0,
            ActionFunc::Delete => 1,
            ActionFunc::Flip(_) => 2,
            ActionFunc::Rotate(_) => 3,
        }
    }
}

/// A descriptor that the grammar does not admit, as it was given.
#[derive(Debug, PartialEq, Eq)]
pub struct ActionFuncError(pub String);

impl ActionFuncError {
    /// What is shown for this error.
    pub fn message(&self) -> (r: String)
        ensures
            r@ == self.0@ + " is malformed"@,
    {
        self.0.clone().concat(" is malformed")
    }
}

// ---------------------------------------------------------------------------
// The grammar
// ---------------------------------------------------------------------------

pub open spec fn is_digit(c: char) -> bool {
    '0' <= c <= '9'
}

/// The number that a digit stands for.
pub open spec fn digit_value(c: char) -> nat {
    (c as int - '0' as int) as nat
}

/// A run of one or more digits.
pub open spec fn is_digits(s: Seq<char>) -> bool {
    &&& s.len() > 0
    &&& forall|i: int| 0 <= i < s.len() ==> is_digit(#[trigger] s[i])
}

/// The number that a run of digits denotes in base ten.
pub open spec fn digits_value(s: Seq<char>) -> nat
    decreases s.len(),
{
    if s.len() == 0 {
        0
    } else {
        10 * digits_value(s.drop_last()) + digit_value(s.last())
    }
}

/// Whether `s` starts with a minus sign.
pub open spec fn is_signed(s: Seq<char>) -> bool {
    s.len() > 0 && s[0] == '-'
}

/// `s` without its minus sign, if it has one.
pub open spec fn unsigned_part(s: Seq<char>) -> Seq<char> {
    if is_signed(s) {
        s.skip(1)
    } else {
        s
    }
}

/// `-?[0-9]+`
pub open spec fn is_integer(s: Seq<char>) -> bool {
    is_digits(unsigned_part(s))
}

/// The number that an integer denotes.
pub open spec fn integer_value(s: Seq<char>) -> int {
    if is_signed(s) {
        -(digits_value(unsigned_part(s)) as int)
    } else {
        digits_value(unsigned_part(s)) as int
    }
}

/// Whether `s` is digits, a point at `k`, and digits.
pub open spec fn is_pointed_at(s: Seq<char>, k: int) -> bool {
    &&& 0 < k < s.len() - 1
    &&& s[k] == '.'
    &&& is_digits(s.take(k))
    &&& is_digits(s.skip(k + 1))
}

/// `-?[0-9]+(\.[0-9]+)?`
pub open spec fn is_decimal(s: Seq<char>) -> bool {
    let body = unsigned_part(s);
    is_digits(body) || exists|k: int| is_pointed_at(body, k)
}

/// Where the point of a decimal without sign stands, or its length if it
/// has no point.
pub open spec fn point_of(body: Seq<char>) -> int {
    if is_digits(body) {
        body.len() as int
    } else {
        choose|k: int| is_pointed_at(body, k)
    }
}

/// The digits before the point of a decimal without sign.
pub open spec fn whole_digits(body: Seq<char>) -> Seq<char> {
    body.take(point_of(body))
}

/// The digits after the point of a decimal without sign.
pub open spec fn fraction_digits(body: Seq<char>) -> Seq<char> {
    if is_digits(body) {
        Seq::empty()
    } else {
        body.skip(point_of(body) + 1)
    }
}

/// How many digits a decimal has after its point.
pub open spec fn places(d: Seq<char>) -> nat {
    fraction_digits(unsigned_part(d)).len()
}

/// The absolute value of the number that a decimal denotes, times ten to
/// the number of its places: the number that its digits denote without the
/// point.
pub open spec fn numerator(d: Seq<char>) -> int {
    let body = unsigned_part(d);
    digits_value(whole_digits(body)) * pow(10, places(d)) + digits_value(fraction_digits(body))
}

/// Whether `b` is the pattern of the single nearest to the absolute value
/// of the number that `d` denotes, and that single is neither zero nor a
/// full turn or more.
pub open spec fn is_magnitude_of(d: Seq<char>, b: u32) -> bool {
    0 < b < FULL_TURN && nearest(numerator(d), places(d), b)
}

/// The angle that a decimal denotes: the nearest single, with the sign of
/// the decimal, if that is an angle.
pub open spec fn angle_of(d: Seq<char>) -> Option<Angle> {
    if exists|b: u32| is_magnitude_of(d, b) {
        let b = choose|b: u32| is_magnitude_of(d, b);
        Some(
            Angle(
                if is_signed(d) {
                    (b + SIGN_BIT) as u32
                } else {
                    b
                },
            ),
        )
    } else {
        None
    }
}

/// What stands between `head` and a closing bracket, if `s` is made that way.
pub open spec fn operand(s: Seq<char>, head: Seq<char>) -> Option<Seq<char>> {
    if head.len() < s.len() && s.take(head.len() as int) == head && s.last() == ')' {
        Some(s.subrange(head.len() as int, s.len() - 1))
    } else {
        None
    }
}

/// The integer of a flip descriptor, if `s` is one.
pub open spec fn flip_of(s: Seq<char>) -> Option<i32> {
    match operand(s, "flip("@) {
        Some(n) if is_integer(n) && i32::MIN <= integer_value(n) <= i32::MAX => Some(
            integer_value(n) as i32,
        ),
        _ => None,
    }
}

/// The angle of a rotation descriptor, if `s` is one.
pub open spec fn rotation_of(s: Seq<char>) -> Option<Angle> {
    match operand(s, "rotate("@) {
        Some(d) if is_decimal(d) => angle_of(d),
        _ => None,
    }
}

/// What a descriptor means.
pub open spec fn parsed(s: Seq<char>) -> Option<ActionFunc> {
    if s == "clone"@ {
        Some(ActionFunc::Clone)
    } else if s == "delete"@ {
        Some(ActionFunc::Delete)
    } else if let Some(n) = flip_of(s) {
        Some(ActionFunc::Flip(n))
    } else if let Some(a) = rotation_of(s) {
        Some(ActionFunc::Rotate(a))
    } else {
        None
    }
}

// ---------------------------------------------------------------------------
// Reading
// ---------------------------------------------------------------------------

fn digit_at(v: &Vec<char>, i: usize) -> (r: bool)
    requires
        i < v.len(),
    ensures
        r == is_digit(v@[i as int]),
{
    let c: char = v[i];
    '0' <= c && c <= '9'
}

/// Whether the characters from `from` up to `to` are a run of digits.
fn digits_between(v: &Vec<char>, from: usize, to: usize) -> (r: bool)
    requires
        from <= to <= v.len(),
    ensures
        r == is_digits(v@.subrange(from as int, to as int)),
{
    let ghost run = v@.subrange(from as int, to as int);
    if from == to {
        return false;
    }
    let mut i: usize = from;
    while i < to
        invariant
            from <= i <= to <= v.len(),
            run == v@.subrange(from as int, to as int),
            forall|j: int| from <= j < i ==> is_digit(v@[j]),
        decreases to - i,
    {
        if !digit_at(v, i) {
            assert(run[i - from] == v@[i as int]);
            return false;
        }
        i += 1;
    }
    assert forall|j: int| 0 <= j < run.len() implies is_digit(#[trigger] run[j]) by {
        assert(run[j] == v@[from + j]);
    }
    true
}

/// The number that the digits from `from` up to `to` denote, unless it is
/// above `cap`.
fn value_between(v: &Vec<char>, from: usize, to: usize, cap: u64) -> (r: Option<u64>)
    requires
        from <= to <= v.len(),
        is_digits(v@.subrange(from as int, to as int)),
        cap <= u32::MAX,
    ensures
        match r {
            Some(n) => n == digits_value(v@.subrange(from as int, to as int)) && n <= cap,
            None => digits_value(v@.subrange(from as int, to as int)) > cap,
        },
{
    let ghost run = v@.subrange(from as int, to as int);
    let mut acc: u64 = 0;
    let mut i: usize = from;
    assert(v@.subrange(from as int, from as int) =~= Seq::<char>::empty());
    while i < to
        invariant
            from <= i <= to <= v.len(),
            run == v@.subrange(from as int, to as int),
            is_digits(run),
            acc == digits_value(v@.subrange(from as int, i as int)),
            acc <= cap <= u32::MAX,
        decreases to - i,
    {
        let c: char = v[i];
        assert(run[i - from] == c);
        let d: u64 = (c as u32 - '0' as u32) as u64;
        let next: u64 = acc * 10 + d;
        proof {
            let before = v@.subrange(from as int, i as int);
            let after = v@.subrange(from as int, i + 1);
            assert(after.drop_last() =~= before);
            assert(after.last() == c);
            assert(after =~= run.take(i + 1 - from));
            lemma_digits_value_take(run, i + 1 - from);
        }
        if next > cap {
            return None;
        }
        acc = next;
        i += 1;
    }
    assert(v@.subrange(from as int, i as int) =~= run);
    Some(acc)
}

/// The `i32` that the characters from `from` up to `to` denote, if they are
/// an integer that fits.
fn integer_between(v: &Vec<char>, from: usize, to: usize) -> (r: Option<i32>)
    requires
        from <= to <= v.len(),
    ensures
        r == ({
            let n = v@.subrange(from as int, to as int);
            if is_integer(n) && i32::MIN <= integer_value(n) <= i32::MAX {
                Some(integer_value(n) as i32)
            } else {
                None
            }
        }),
{
    let ghost n = v@.subrange(from as int, to as int);
    if from == to {
        return None;
    }
    assert(n[0] == v@[from as int]);
    let signed: bool = v[from] == '-';
    let start: usize = if signed {
        from + 1
    } else {
        from
    };
    assert(unsigned_part(n) =~= v@.subrange(start as int, to as int));
    if !digits_between(v, start, to) {
        return None;
    }
    match value_between(v, start, to, 0x8000_0000) {
        None => None,
        Some(m) => {
            if signed {
                if m == 0x8000_0000 {
                    Some(i32::MIN)
                } else {
                    Some(-(m as i32))
                }
            } else if m == 0x8000_0000 {
                None
            } else {
                Some(m as i32)
            }
        },
    }
}

/// Where the digits of a decimal begin and where its point stands, or
/// where it ends if it has no point; if the characters from `from` up to
/// `to` are a decimal.
fn decimal_between(v: &Vec<char>, from: usize, to: usize) -> (r: Option<(usize, usize)>)
    requires
        from <= to <= v.len(),
    ensures
        ({
            let d = v@.subrange(from as int, to as int);
            match r {
                Some((start, point)) => {
                    &&& is_decimal(d)
                    &&& from <= start <= point <= to
                    &&& start - from == (if is_signed(d) {
                        1int
                    } else {
                        0int
                    })
                    &&& point - start == point_of(unsigned_part(d))
                    &&& point == to <==> is_digits(unsigned_part(d))
                },
                None => !is_decimal(d),
            }
        }),
{
    let ghost d = v@.subrange(from as int, to as int);
    if from == to {
        assert(!is_decimal(d)) by {
            assert(unsigned_part(d).len() == 0);
        }
        return None;
    }
    assert(d[0] == v@[from as int]);
    let start: usize = if v[from] == '-' {
        from + 1
    } else {
        from
    };
    let ghost body = unsigned_part(d);
    assert(body =~= v@.subrange(start as int, to as int));
    let mut k: usize = start;
    while k < to && digit_at(v, k)
        invariant
            start <= k <= to <= v.len(),
            forall|j: int| start <= j < k ==> is_digit(v@[j]),
        decreases to - k,
    {
        k += 1;
    }
    // `k` is where the first run of digits ends.
    assert forall|j: int| 0 <= j < k - start implies is_digit(#[trigger] body[j]) by {
        assert(body[j] == v@[start + j]);
    }
    if k < to {
        assert(body[k - start] == v@[k as int]);
    }
    assert forall|p: int| is_pointed_at(body, p) implies p == k - start && k < to by {
        if p < k - start {
            assert(is_digit(body[p]));
        } else if p > k - start {
            assert(body.take(p)[k - start] == body[k - start]);
        }
    }
    if k == to {
        assert(body.take((k - start) as int) =~= body);
        return if k > start {
            Some((start, k))
        } else {
            None
        };
    }
    assert(!is_digits(body));
    if v[k] != '.' || k == start {
        return None;
    }
    let rest: bool = digits_between(v, k + 1, to);
    assert(body.skip(k - start + 1) =~= v@.subrange(k + 1, to as int));
    assert(is_digits(body.take(k - start))) by {
        assert forall|j: int| 0 <= j < k - start implies is_digit(
            #[trigger] body.take(k - start)[j],
        ) by {
            assert(body.take(k - start)[j] == body[j]);
        }
    }
    assert(rest == is_pointed_at(body, k - start));
    if rest {
        Some((start, k))
    } else {
        None
    }
}

/// The digits from `from` up to `to`, as numbers.
fn digits_from(v: &Vec<char>, from: usize, to: usize) -> (r: Vec<u8>)
    requires
        from <= to <= v.len(),
        from < to ==> is_digits(v@.subrange(from as int, to as int)),
    ensures
        r@.len() == to - from,
        are_digits(r@),
        number(r@) == digits_value(v@.subrange(from as int, to as int)),
{
    let ghost run = v@.subrange(from as int, to as int);
    let mut r: Vec<u8> = Vec::new();
    let mut i: usize = from;
    assert(v@.subrange(from as int, from as int) =~= Seq::<char>::empty());
    while i < to
        invariant
            from <= i <= to <= v.len(),
            run == v@.subrange(from as int, to as int),
            from < to ==> is_digits(run),
            r@.len() == i - from,
            are_digits(r@),
            number(r@) == digits_value(v@.subrange(from as int, i as int)),
        decreases to - i,
    {
        let c: char = v[i];
        assert(run[i - from] == c);
        let x: u8 = (c as u32 - '0' as u32) as u8;
        let ghost before = r@;
        r.push(x);
        proof {
            let after = v@.subrange(from as int, i + 1);
            assert(after.drop_last() =~= v@.subrange(from as int, i as int));
            assert(after.last() == c);
            assert(r@.drop_last() =~= before);
        }
        i += 1;
    }
    assert(v@.subrange(from as int, i as int) =~= run);
    r
}

/// The angle that the characters from `from` up to `to` denote, if they are
/// a decimal, and a decimal of an angle.
fn angle_between(v: &Vec<char>, from: usize, to: usize) -> (r: Option<Angle>)
    requires
        from <= to <= v.len(),
    ensures
        r == ({
            let d = v@.subrange(from as int, to as int);
            if is_decimal(d) {
                angle_of(d)
            } else {
                None
            }
        }),
{
    let ghost d = v@.subrange(from as int, to as int);
    let (start, point) = match decimal_between(v, from, to) {
        Some(parts) => parts,
        None => {
            return None;
        },
    };
    let after: usize = if point == to {
        to
    } else {
        point + 1
    };
    let ghost body = unsigned_part(d);
    proof {
        assert(body =~= v@.subrange(start as int, to as int));
        assert(whole_digits(body) =~= v@.subrange(start as int, point as int));
        assert(fraction_digits(body) =~= v@.subrange(after as int, to as int));
        if point < to {
            assert(is_pointed_at(body, point - start));
        } else {
            assert(body.take(body.len() as int) =~= body);
        }
    }
    let frac = digits_from(v, after, to);
    let whole: u32 = match value_between(v, start, point, 359) {
        Some(w) => w as u32,
        None => {
            // A full turn or more, whatever follows the point.
            proof {
                lemma_full_turn();
                lemma_pow_positive(10, places(d));
                assert(numerator(d) >= 360 * pow(10, places(d))) by (nonlinear_arith)
                    requires
                        numerator(d) == digits_value(whole_digits(body)) * pow(10, places(d))
                            + digits_value(fraction_digits(body)),
                        digits_value(whole_digits(body)) >= 360,
                        pow(10, places(d)) > 0,
                ;
                assert forall|b: u32| !is_magnitude_of(d, b) by {
                    if b < FULL_TURN {
                        lemma_too_large(numerator(d), places(d), b, FULL_TURN, 360);
                    }
                }
            }
            return None;
        },
    };
    let b: u32 = round(whole, frac);
    proof {
        assert forall|c: u32| is_magnitude_of(d, c) implies c == b by {
            lemma_nearest_unique(numerator(d), places(d), b, c);
        }
    }
    if b == 0 || b >= FULL_TURN {
        None
    } else {
        assert(is_magnitude_of(d, b));
        if start > from {
            Some(Angle(b + SIGN_BIT))
        } else {
            Some(Angle(b))
        }
    }
}

impl ActionFunc {
    /// Reads a descriptor.
    ///
    /// Fails, handing `s` back in the error, unless `s` is `clone`, `delete`,
    /// a flip by an integer that fits in an `i32`, or a rotation by a decimal
    /// that is rounded to an angle.
    pub fn try_from(s: String) -> (r: Result<ActionFunc, ActionFuncError>)
        ensures
            match r {
                Ok(f) => parsed(s@) == Some(f),
                Err(e) => parsed(s@) is None && e.0@ == s@,
            },
    {
        let v = chars_of(s.as_str());
        let n: usize = v.len();
        if spells(&v, "clone") {
            return Ok(ActionFunc::Clone);
        }
        if spells(&v, "delete") {
            return Ok(ActionFunc::Delete);
        }
        let flip = chars_of("flip(");
        let rotate = chars_of("rotate(");
        proof {
            reveal_strlit("flip(");
            reveal_strlit("rotate(");
            if begins_with_spec(v@, flip@) && begins_with_spec(v@, rotate@) {
                assert(v@.take(5)[0] == 'f');
                assert(v@.take(7)[0] == 'r');
            }
        }
        if begins_with(&v, &flip) {
            if flip.len() < n && v[n - 1] == ')' {
                if let Some(k) = integer_between(&v, flip.len(), n - 1) {
                    return Ok(ActionFunc::Flip(k));
                }
            }
        } else if begins_with(&v, &rotate) {
            if rotate.len() < n && v[n - 1] == ')' {
                if let Some(angle) = angle_between(&v, rotate.len(), n - 1) {
                    return Ok(ActionFunc::Rotate(angle));
                }
            }
        }
        Err(ActionFuncError(s))
    }
}

// ---------------------------------------------------------------------------
// Writing, and reading back
// ---------------------------------------------------------------------------

/// The digit that stands for `d`, a number below ten.
pub open spec fn digit_char(d: nat) -> char {
    seq!['0', '1', '2', '3', '4', '5', '6', '7', '8', '9'][d as int]
}

/// The digits of `n` in base ten, without leading zeros.
pub open spec fn digits_of(n: nat) -> Seq<char>
    decreases n,
{
    if n < 10 {
        seq![digit_char(n)]
    } else {
        digits_of(n / 10).push(digit_char(n % 10))
    }
}

/// An integer as it is usually written: a minus sign if it is negative, then
/// the digits of its absolute value.
pub open spec fn integer_text(n: int) -> Seq<char> {
    if n < 0 {
        seq!['-'] + digits_of((-n) as nat)
    } else {
        digits_of(n as nat)
    }
}

/// The descriptor of a flip by `n`.
pub open spec fn flip_text(n: int) -> Seq<char> {
    "flip("@ + integer_text(n) + ")"@
}

/// The digits of a number are digits, and denote it.
pub proof fn lemma_digits_of(n: nat)
    ensures
        is_digits(digits_of(n)),
        digits_value(digits_of(n)) == n,
    decreases n,
{
    reveal_with_fuel(digits_value, 2);
    if n < 10 {
        assert(digits_of(n).drop_last() =~= Seq::<char>::empty());
    } else {
        lemma_digits_of(n / 10);
        assert(digits_of(n).drop_last() =~= digits_of(n / 10));
    }
}

/// An integer as it is usually written is an integer of the grammar, and
/// denotes the number that was written.
pub proof fn lemma_integer_text(n: int)
    ensures
        is_integer(integer_text(n)),
        integer_value(integer_text(n)) == n,
{
    if n < 0 {
        lemma_digits_of((-n) as nat);
        assert(integer_text(n).skip(1) =~= digits_of((-n) as nat));
    } else {
        lemma_digits_of(n as nat);
    }
}

/// Reading the descriptor of a flip by `n` gives a flip by `n`, whatever
/// `n` is.
pub proof fn lemma_flip_round_trip(n: i32)
    ensures
        parsed(flip_text(n as int)) == Some(ActionFunc::Flip(n)),
{
    let s = flip_text(n as int);
    let t = integer_text(n as int);
    reveal_strlit("flip(");
    reveal_strlit(")");
    reveal_strlit("clone");
    reveal_strlit("delete");
    lemma_integer_text(n as int);
    assert(s[0] == 'f');
    assert(s.take(5) =~= "flip("@);
    assert(s.subrange(5, s.len() - 1) =~= t);
}

/// The two descriptors without an operand read as themselves.
pub proof fn lemma_keywords()
    ensures
        parsed("clone"@) == Some(ActionFunc::Clone),
        parsed("delete"@) == Some(ActionFunc::Delete),
{
    reveal_strlit("clone");
    reveal_strlit("delete");
    assert("clone"@[0] == 'c' && "delete"@[0] == 'd');
}

/// The descriptor of a rotation by the number that the decimal `d` denotes.
pub open spec fn rotate_text(d: Seq<char>) -> Seq<char> {
    "rotate("@ + d + ")"@
}

/// Reading the descriptor of a rotation by a decimal gives a rotation by
/// the angle that the decimal denotes, and fails if it denotes none.
pub proof fn lemma_rotate_round_trip(d: Seq<char>)
    requires
        is_decimal(d),
    ensures
        parsed(rotate_text(d)) == (match angle_of(d) {
            Some(a) => Some(ActionFunc::Rotate(a)),
            None => None,
        }),
{
    let s = rotate_text(d);
    reveal_strlit("flip(");
    reveal_strlit("rotate(");
    reveal_strlit(")");
    reveal_strlit("clone");
    reveal_strlit("delete");
    assert(s.take(7) =~= "rotate("@);
    assert(s.subrange(7, s.len() - 1) =~= d);
    assert(s.take(7)[0] == 'r');
    if operand(s, "flip("@) is Some {
        assert(s.take(5)[0] == 'f');
    }
}

/// A decimal to which an angle is the nearest single, and which has the
/// sign of the angle, reads back as the angle. So an angle written out in
/// digits enough to tell it from the singles next to it is read back as
/// itself.
pub proof fn lemma_rotation_reads_back(d: Seq<char>, a: Angle)
    requires
        is_decimal(d),
        a.valid(),
        nearest(numerator(d), places(d), magnitude(a.0)),
        a.0 >= SIGN_BIT <==> is_signed(d),
    ensures
        parsed(rotate_text(d)) == Some(ActionFunc::Rotate(a)),
{
    let b = magnitude(a.0);
    lemma_rotate_round_trip(d);
    lemma_angle_of(d, b);
    lemma_sign_and_magnitude(a.0);
    let read = angle_of(d)->0;
    lemma_sign_and_magnitude(read.0);
}

/// The angle that a decimal denotes is an angle; its pattern is that of the
/// single nearest to the decimal, and no other pattern is.
pub proof fn lemma_angle_of(d: Seq<char>, b: u32)
    ensures
        angle_of(d) matches Some(a) ==> a.valid() && is_magnitude_of(d, magnitude(a.0)) && (a.0
            >= SIGN_BIT <==> is_signed(d)),
        is_magnitude_of(d, b) ==> (angle_of(d) matches Some(a) && magnitude(a.0) == b),
{
    if exists|c: u32| is_magnitude_of(d, c) {
        let c = choose|c: u32| is_magnitude_of(d, c);
        lemma_signed(c);
        if is_magnitude_of(d, b) {
            lemma_nearest_unique(numerator(d), places(d), b, c);
        }
    }
}

/// The number of a run of digits grows with the run.
proof fn lemma_digits_value_take(s: Seq<char>, k: int)
    requires
        0 <= k <= s.len(),
    ensures
        digits_value(s.take(k)) <= digits_value(s),
    decreases s.len(),
{
    if k == s.len() {
        assert(s.take(k) =~= s);
    } else {
        lemma_digits_value_take(s.drop_last(), k);
        assert(s.drop_last().take(k) =~= s.take(k));
    }
}

} // verus!
