//! Numbers in single precision, by their patterns.
//!
//! A single is 32 bits: a sign, eight bits of exponent, 23 bits of
//! fraction. With the sign clear, exponent field `e` and fraction field `f`,
//! a pattern below that of infinity stands for
//!
//! ```text
//! f * 2^-149                  where e = 0
//! (2^23 + f) * 2^(e - 150)    where e > 0
//! ```
//!
//! so every such number is a whole multiple of `2^-149`, and a greater
//! pattern stands for a greater number. A number that is no single is
//! rounded to the nearest one, and half-way between two to the one whose
//! pattern is even.

use vstd::arithmetic::div_mod::*;
use vstd::arithmetic::power::*;
use vstd::arithmetic::power2::*;
use vstd::prelude::*;

verus! {

/// The number for which the pattern `b` stands, as a multiple of `2^-149`.
pub open spec fn scaled(b: u32) -> nat {
    let e = (b / 0x80_0000) as nat;
    let f = (b % 0x80_0000) as nat;
    if e == 0 {
        f
    } else {
        (0x80_0000 + f) * pow2((e - 1) as nat)
    }
}

/// Whether `b` is the pattern to which `n / 10^k` is rounded: no single is
/// nearer, and if the one above or the one below is as near, `b` is even.
pub open spec fn nearest(n: int, k: nat, b: u32) -> bool {
    let x = 2 * n * pow2(149);
    let t = pow(10, k);
    let below = (scaled((b - 1) as u32) + scaled(b)) * t;
    let above = (scaled(b) + scaled((b + 1) as u32)) * t;
    &&& b < 0x7fff_ffff
    &&& b == 0 || below < x || (below == x && b % 2 == 0)
    &&& x < above || (x == above && b % 2 == 0)
}

/// The pattern with `s` added to its exponent field and `r` to its fraction
/// field stands for `r * 2^s`, where `r` fills the fraction field and one
/// bit more, or `s` is zero.
pub proof fn lemma_scaled_split(s: nat, r: nat)
    requires
        s <= 252,
        r <= 0x100_0000,
        s > 0 ==> r >= 0x80_0000,
    ensures
        s * 0x80_0000 + r < 0x7fff_ffff,
        scaled((s * 0x80_0000 + r) as u32) == r * pow2(s),
{
    let b = (s * 0x80_0000 + r) as u32;
    lemma_pow2_unfold(s + 1);
    lemma2_to64();
    if r == 0x100_0000 {
        lemma_fundamental_div_mod_converse(b as int, 0x80_0000, (s + 2) as int, 0);
        assert(scaled(b) == r * pow2(s)) by (nonlinear_arith)
            requires
                scaled(b) == 0x80_0000 * pow2(s + 1),
                pow2(s + 1) == 2 * pow2(s),
                r == 0x100_0000,
        ;
    } else if r >= 0x80_0000 {
        lemma_fundamental_div_mod_converse(b as int, 0x80_0000, (s + 1) as int, r - 0x80_0000);
    } else {
        lemma_fundamental_div_mod_converse(b as int, 0x80_0000, 0, r as int);
        assert(r * pow2(0) == r) by (nonlinear_arith)
            requires
                pow2(0) == 1,
        ;
    }
}

/// A greater pattern stands for a greater number: the next pattern does.
pub proof fn lemma_scaled_next(b: u32)
    requires
        b < 0x7fff_ffff,
    ensures
        scaled(b) < scaled((b + 1) as u32),
{
    let e = (b / 0x80_0000) as nat;
    let f = (b % 0x80_0000) as nat;
    lemma_fundamental_div_mod(b as int, 0x80_0000);
    lemma2_to64();
    if f + 1 < 0x80_0000 {
        lemma_fundamental_div_mod_converse(b + 1, 0x80_0000, e as int, (f + 1) as int);
        if e > 0 {
            lemma_pow2_pos((e - 1) as nat);
            assert((0x80_0000 + f) * pow2((e - 1) as nat) < (0x80_0000 + f + 1) * pow2(
                (e - 1) as nat,
            )) by (nonlinear_arith)
                requires
                    pow2((e - 1) as nat) > 0,
            ;
        }
    } else {
        lemma_fundamental_div_mod_converse(b + 1, 0x80_0000, (e + 1) as int, 0);
        if e > 0 {
            lemma_pow2_unfold(e);
            lemma_pow2_pos((e - 1) as nat);
            assert((0x80_0000 + f) * pow2((e - 1) as nat) < 0x80_0000 * pow2(e))
                by (nonlinear_arith)
                requires
                    pow2(e) == 2 * pow2((e - 1) as nat),
                    pow2((e - 1) as nat) > 0,
                    f < 0x80_0000,
            ;
        } else {
            assert(0x80_0000 * pow2(0) == 0x80_0000) by (nonlinear_arith)
                requires
                    pow2(0) == 1,
            ;
        }
    }
}

/// A greater pattern stands for a greater number.
pub proof fn lemma_scaled_increases(a: u32, b: u32)
    requires
        a <= b <= 0x7fff_ffff,
    ensures
        scaled(a) <= scaled(b),
        a < b ==> scaled(a) < scaled(b),
    decreases b - a,
{
    if a < b {
        lemma_scaled_increases(a, (b - 1) as u32);
        lemma_scaled_next((b - 1) as u32);
    }
}

/// A number is rounded to one single only.
pub proof fn lemma_nearest_unique(n: int, k: nat, a: u32, b: u32)
    requires
        nearest(n, k, a),
        nearest(n, k, b),
    ensures
        a == b,
{
    if a != b {
        let (lo, hi) = if a < b {
            (a, b)
        } else {
            (b, a)
        };
        // What lies at or below the halfway mark above `lo` lies at or above
        // the halfway mark below `hi`: so it is both marks, `hi` is next to
        // `lo`, and both are even.
        let t = pow(10, k);
        lemma_pow_positive(10, k);
        lemma_scaled_increases(lo, (hi - 1) as u32);
        lemma_scaled_increases((lo + 1) as u32, hi);
        let above = (scaled(lo) + scaled((lo + 1) as u32)) * t;
        let below = (scaled((hi - 1) as u32) + scaled(hi)) * t;
        assert(above <= below) by (nonlinear_arith)
            requires
                scaled(lo) <= scaled((hi - 1) as u32),
                scaled((lo + 1) as u32) <= scaled(hi),
                t > 0,
                above == (scaled(lo) + scaled((lo + 1) as u32)) * t,
                below == (scaled((hi - 1) as u32) + scaled(hi)) * t,
        ;
        if lo + 1 < hi {
            assert(above < below) by (nonlinear_arith)
                requires
                    scaled(lo) < scaled((hi - 1) as u32),
                    scaled((lo + 1) as u32) <= scaled(hi),
                    t > 0,
                    above == (scaled(lo) + scaled((lo + 1) as u32)) * t,
                    below == (scaled((hi - 1) as u32) + scaled(hi)) * t,
            ;
        }
    }
}

/// A number at or above one that a pattern stands for is not rounded to a
/// pattern below that one.
pub proof fn lemma_too_large(n: int, k: nat, b: u32, limit: u32, whole: nat)
    requires
        b < limit <= 0x7fff_ffff,
        scaled(limit) == whole * pow2(149),
        n >= whole * pow(10, k),
    ensures
        !nearest(n, k, b),
{
    let t = pow(10, k);
    lemma_pow_positive(10, k);
    lemma_scaled_increases(b, (limit - 1) as u32);
    lemma_scaled_increases((b + 1) as u32, limit);
    lemma_scaled_next((limit - 1) as u32);
    lemma_pow2_pos(149);
    let above = (scaled(b) + scaled((b + 1) as u32)) * t;
    assert(above < 2 * n * pow2(149)) by (nonlinear_arith)
        requires
            above == (scaled(b) + scaled((b + 1) as u32)) * t,
            scaled(b) < scaled(limit),
            scaled((b + 1) as u32) <= scaled(limit),
            scaled(limit) == whole * pow2(149),
            n >= whole * t,
            t > 0,
            pow2(149) > 0,
    ;
}

// ---------------------------------------------------------------------------
// Decimal fractions
// ---------------------------------------------------------------------------

/// Whether each of `s` is a digit, as a number below ten.
pub open spec fn are_digits(s: Seq<u8>) -> bool {
    forall|i: int| 0 <= i < s.len() ==> #[trigger] s[i] < 10
}

/// The number that the digits `s` denote in base ten.
pub open spec fn number(s: Seq<u8>) -> nat
    decreases s.len(),
{
    if s.len() == 0 {
        0
    } else {
        10 * number(s.drop_last()) + s.last() as nat
    }
}

/// A digit before some digits counts by the power of ten of their length.
pub proof fn lemma_number_prepend(x: u8, rest: Seq<u8>)
    ensures
        number(seq![x] + rest) == x * pow(10, rest.len()) + number(rest),
    decreases rest.len(),
{
    reveal(pow);
    let all = seq![x] + rest;
    assert(all.last() == if rest.len() == 0 {
        x
    } else {
        rest.last()
    });
    if rest.len() == 0 {
        assert(all.drop_last() =~= Seq::<u8>::empty());
        assert(number(all.drop_last()) == 0);
        assert(number(all) == x);
        assert(x * pow(10, 0) == x) by (nonlinear_arith)
            requires
                pow(10, 0) == 1,
        ;
    } else {
        lemma_number_prepend(x, rest.drop_last());
        assert(all.drop_last() =~= seq![x] + rest.drop_last());
        let p = pow(10, (rest.len() - 1) as nat);
        assert(pow(10, rest.len()) == 10 * p);
        assert(number(all) == 10 * number(all.drop_last()) + rest.last());
        assert(number(rest) == 10 * number(rest.drop_last()) + rest.last());
        assert(10 * (x * p + number(rest.drop_last())) + rest.last() == x * (10 * p) + (10 * number(
            rest.drop_last(),
        ) + rest.last())) by (nonlinear_arith);
    }
}

/// Digits denote a number below the power of ten of their length.
pub proof fn lemma_number_bound(s: Seq<u8>)
    requires
        are_digits(s),
    ensures
        number(s) < pow(10, s.len()),
    decreases s.len(),
{
    reveal(pow);
    if s.len() > 0 {
        lemma_number_bound(s.drop_last());
        assert(s.last() < 10);
    }
}

/// Digits denote zero if and only if each of them is zero.
pub proof fn lemma_number_zero(s: Seq<u8>)
    ensures
        number(s) == 0 <==> forall|i: int| 0 <= i < s.len() ==> #[trigger] s[i] == 0,
    decreases s.len(),
{
    if s.len() > 0 {
        lemma_number_zero(s.drop_last());
        if number(s) == 0 {
            assert forall|i: int| 0 <= i < s.len() implies #[trigger] s[i] == 0 by {
                if i < s.len() - 1 {
                    assert(s.drop_last()[i] == s[i]);
                }
            }
        }
        if forall|i: int| 0 <= i < s.len() ==> #[trigger] s[i] == 0 {
            assert forall|i: int| 0 <= i < s.drop_last().len() implies #[trigger] s.drop_last()[i]
                == 0 by {
                assert(s.drop_last()[i] == s[i]);
            }
            assert(s.last() == s[s.len() - 1]);
        }
    }
}

/// Doubles the number that the digits denote, in place, and returns what
/// does not fit any more: the whole part of twice the fraction.
fn double(d: &mut Vec<u8>) -> (carry: u8)
    requires
        are_digits(old(d)@),
    ensures
        are_digits(final(d)@),
        final(d)@.len() == old(d)@.len(),
        carry <= 1,
        2 * number(old(d)@) == carry * pow(10, old(d)@.len()) + number(final(d)@),
{
    let ghost before = d@;
    let n: usize = d.len();
    let mut carry: u8 = 0;
    let mut i: usize = n;
    assert(d@.subrange(n as int, n as int) =~= Seq::<u8>::empty());
    assert(carry * pow(10, 0) == 0) by (nonlinear_arith)
        requires
            carry == 0,
    ;
    while i > 0
        invariant
            i <= n,
            d@.len() == n,
            before.len() == n,
            are_digits(before),
            are_digits(d@),
            carry <= 1,
            d@.take(i as int) == before.take(i as int),
            2 * number(before.subrange(i as int, n as int)) == carry * pow(10, (n - i) as nat)
                + number(d@.subrange(i as int, n as int)),
        decreases i,
    {
        let ghost old_tail = before.subrange(i as int, n as int);
        let ghost new_tail = d@.subrange(i as int, n as int);
        let ghost p = pow(10, (n - i) as nat);
        let ghost old_d = d@;
        let ghost old_take = d@.take(i as int);
        assert(d@[i - 1] == before.take(i as int)[i - 1]);
        let x: u8 = d[i - 1];
        let t: u8 = 2 * x + carry;
        let y: u8 = t % 10;
        d.set(i - 1, y);
        proof {
            lemma_number_prepend(x, old_tail);
            lemma_number_prepend(y, new_tail);
            assert(before.subrange(i - 1, n as int) =~= seq![x] + old_tail);
            assert(d@.subrange(i - 1, n as int) =~= seq![y] + new_tail);
            assert forall|j: int| 0 <= j < i - 1 implies #[trigger] d@[j] == before[j] by {
                assert(before.take(i as int)[j] == before[j]);
                assert(old_take[j] == old_d[j]);
            }
            assert(d@.take(i - 1) =~= before.take(i - 1));
            reveal(pow);
            assert(pow(10, (n - i + 1) as nat) == 10 * p);
            assert(2 * (x * p + number(old_tail)) == (t / 10) * (10 * p) + (y * p + number(
                new_tail,
            ))) by (nonlinear_arith)
                requires
                    2 * number(old_tail) == carry * p + number(new_tail),
                    t == 2 * x + carry,
                    t == 10 * (t / 10) + y,
            ;
        }
        carry = t / 10;
        i -= 1;
    }
    assert(before.subrange(0, n as int) =~= before);
    assert(d@.subrange(0, n as int) =~= d@);
    carry
}

/// Whether the digits denote zero.
fn is_zero(d: &Vec<u8>) -> (r: bool)
    ensures
        r == (number(d@) == 0),
{
    proof {
        lemma_number_zero(d@);
    }
    let mut i: usize = 0;
    while i < d.len()
        invariant
            i <= d.len(),
            forall|j: int| 0 <= j < i ==> #[trigger] d@[j] == 0,
        decreases d.len() - i,
    {
        if d[i] != 0 {
            proof {
                lemma_number_zero(d@);
            }
            return false;
        }
        i += 1;
    }
    true
}

// ---------------------------------------------------------------------------
// Rounding
// ---------------------------------------------------------------------------

proof fn lemma_mul_assoc(a: int, b: int, c: int)
    ensures
        (a * b) * c == a * (b * c),
        (a * b) * c == a * (c * b),
        a * b * c == a * (b * c),
{
    assert((a * b) * c == a * (b * c)) by (nonlinear_arith);
    assert(b * c == c * b) by (nonlinear_arith);
}

proof fn lemma_mul_commutes(a: int, b: int)
    ensures
        a * b == b * a,
{
    assert(a * b == b * a) by (nonlinear_arith);
}

proof fn lemma_mul_expand(m: int, t: int, f: int, p: int)
    ensures
        (m * t + f) * p == m * (t * p) + f * p,
{
    assert((m * t + f) * p == m * (t * p) + f * p) by (nonlinear_arith);
}

proof fn lemma_mul_odd(a: int, c: int)
    ensures
        (2 * a) * c == 2 * (a * c),
        (2 * a + 1) * c == 2 * (a * c) + c,
        (a + 1) * c == a * c + c,
{
    assert((2 * a) * c == 2 * (a * c)) by (nonlinear_arith);
    assert((2 * a + 1) * c == 2 * (a * c) + c) by (nonlinear_arith);
    assert((a + 1) * c == a * c + c) by (nonlinear_arith);
}

proof fn lemma_mul_sum(u: int, v: int, t: int)
    ensures
        (u + v) * t == u * t + v * t,
{
    assert((u + v) * t == u * t + v * t) by (nonlinear_arith);
}

proof fn lemma_mul_more(u: int, v: int, t: int)
    requires
        t > 0,
    ensures
        u < v ==> u * t < v * t,
        u <= v ==> u * t <= v * t,
{
    assert(u < v ==> u * t < v * t) by (nonlinear_arith)
        requires
            t > 0,
    ;
    assert(u <= v ==> u * t <= v * t) by (nonlinear_arith)
        requires
            t > 0,
    ;
}

proof fn lemma_mul_less(f: int, t: int, p: int)
    requires
        0 <= f < t,
        p > 0,
    ensures
        0 <= f * p < t * p,
        f * p == 0 <==> f == 0,
{
    assert(0 <= f * p < t * p) by (nonlinear_arith)
        requires
            0 <= f < t,
            p > 0,
    ;
    assert(f > 0 ==> f * p > 0) by (nonlinear_arith)
        requires
            p > 0,
    ;
    assert(f == 0 ==> f * p == 0) by (nonlinear_arith);
}

/// The pattern to which the number with the whole part `whole` and the
/// digits `frac` after the point is rounded.
pub fn round(whole: u32, frac: Vec<u8>) -> (b: u32)
    requires
        whole < 0x100_0000,
        are_digits(frac@),
    ensures
        nearest(whole * pow(10, frac@.len()) + number(frac@), frac@.len(), b),
{
    let ghost k = frac@.len();
    let ghost t = pow(10, k);
    let ghost n = whole * t + number(frac@);
    let mut frac = frac;
    // The digits before the binary point so far, and how many of them
    // stand after it.
    let mut m: u64 = whole as u64;
    let mut pos: u32 = 0;
    proof {
        lemma_pow_positive(10, k);
        lemma2_to64();
        assert(n * pow2(0) == m * t + number(frac@)) by (nonlinear_arith)
            requires
                pow2(0) == 1,
                n == whole * t + number(frac@),
                m == whole,
        ;
    }
    while m < 0x100_0000 && pos < 150
        invariant
            frac@.len() == k,
            are_digits(frac@),
            t == pow(10, k),
            m < 0x200_0000,
            pos <= 150,
            n * pow2(pos as nat) == m * t + number(frac@),
        decreases 150 - pos,
    {
        let ghost f = number(frac@);
        let carry = double(&mut frac);
        proof {
            lemma_pow2_unfold((pos + 1) as nat);
            assert(n * pow2((pos + 1) as nat) == (2 * m + carry) * t + number(frac@))
                by (nonlinear_arith)
                requires
                    pow2((pos + 1) as nat) == 2 * pow2(pos as nat),
                    n * pow2(pos as nat) == m * t + f,
                    2 * f == carry * t + number(frac@),
            ;
        }
        m = 2 * m + carry as u64;
        pos = pos + 1;
    }
    let sticky: bool = !is_zero(&frac);
    let mant: u64 = m / 2;
    let guard: u64 = m % 2;
    let up: bool = guard == 1 && (sticky || mant % 2 == 1);
    let r: u64 = if up {
        mant + 1
    } else {
        mant
    };
    let s: u32 = 150 - pos;
    proof {
        lemma_scaled_split(s as nat, r as nat);
    }
    let b: u32 = (s as u64 * 0x80_0000 + r) as u32;
    proof {
        let f = number(frac@) as int;
        let p = pow2(s as nat) as int;
        let q = pow2(pos as nat) as int;
        let h = pow2(149) as int;
        let x = 2 * n * h;
        // Everything is counted in `t * p`, and what is left of the
        // fraction in `f * p`, which is less.
        let tp = t * p;
        let fp = f * p;
        let half = (mant as int) * tp;
        lemma_number_bound(frac@);
        lemma_pow2_pos(s as nat);
        lemma_pow2_unfold(150);
        lemma_pow2_adds(pos as nat, s as nat);
        lemma_mul_less(f, t, p);
        // The number, as a multiple of 2^-150, in what was read of it.
        lemma_mul_assoc(n, q, p);
        lemma_mul_assoc(n, 2, h);
        lemma_mul_expand(m as int, t, f, p);
        lemma_mul_odd(mant as int, tp);
        assert(x == (m as int) * tp + fp);
        assert((m as int) * tp == 2 * half + guard * tp) by {
            if guard == 0 {
                assert(m == 2 * mant);
            } else {
                assert(m == 2 * mant + 1);
            }
        }
        // What the patterns around stand for, in the same count.
        let sb = scaled(b) as int;
        let sa = scaled((b + 1) as u32) as int;
        lemma_scaled_next(b);
        lemma_mul_sum(sb, sa, t);
        lemma_mul_more(sb, sa, t);
        lemma_mul_assoc(r as int, p, t);
        lemma_mul_commutes(t, p);
        assert(sb * t == (r as int) * tp);
        if up {
            // Rounded up: the pattern below stands for what was read.
            lemma_scaled_split(s as nat, mant as nat);
            let sz = scaled((b - 1) as u32) as int;
            lemma_mul_sum(sz, sb, t);
            lemma_mul_assoc(mant as int, p, t);
            assert(sz * t == half);
            assert(sb * t == half + tp);
        } else {
            // Rounded down: the pattern stands for what was read, or less.
            lemma_scaled_split(s as nat, (r + 1) as nat);
            lemma_mul_assoc((r + 1) as int, p, t);
            assert(sb * t == half);
            assert(sa * t == half + tp);
            if b > 0 {
                let sz = scaled((b - 1) as u32) as int;
                lemma_scaled_next((b - 1) as u32);
                lemma_mul_sum(sz, sb, t);
                lemma_mul_more(sz, sb, t);
            }
        }
    }
    b
}

} // verus!
