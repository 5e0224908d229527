//! The numbers that float patterns stand for.
//!
//! Every finite float is a whole multiple of the smallest one, so a float can be
//! spoken of as an integer: how many of the smallest floats it is. What a float
//! unit computes is then a matter of integers, wherever the true result is a
//! float itself.

use vstd::prelude::*;

use crate::arith::{FloatOp, Ops};
use crate::float_bits::{
    ONE, float_eq, float_le, float_lt, float_of_int, int_of_float, is_finite, is_negative,
    lemma_log2, lemma_power_mono, lemma_power_pos, lemma_power_split, log2, magnitude,
    magnitude_of_nat, nearest_int, negated, power, rounded_part, whole_part,
};

verus! {

/// The number one.
pub open spec fn one() -> int {
    power(149)
}

/// The number that a finite pattern stands for.
#[verifier::opaque]
pub open spec fn amount(b: u32) -> int {
    let m = magnitude(b);
    let e = m / 0x80_0000;
    let s = m % 0x80_0000;
    let size = if e == 0 {
        s
    } else {
        (0x80_0000 + s) * power((e - 1) as nat)
    };
    if is_negative(b) {
        -size
    } else {
        size
    }
}

/// Whether a pattern stands for a number.
pub open spec fn stands_for(b: u32, v: int) -> bool {
    is_finite(b) && amount(b) == v
}

/// Whether a pattern is the answer to a question whose true answer is `v`: if
/// there is a float for it.
pub open spec fn answers(x: u32, v: int) -> bool {
    (exists|r: u32| stands_for(r, v)) ==> stands_for(x, v)
}

/// Whether a float unit adds, subtracts and multiplies right wherever the right
/// result is a float.
pub open spec fn adds_right(f: Ops) -> bool {
    &&& forall|a: u32, b: u32|
        is_finite(a) && is_finite(b) ==> answers(
            #[trigger] f(FloatOp::Add, a, b, 0),
            amount(a) + amount(b),
        )
    &&& forall|a: u32, b: u32|
        is_finite(a) && is_finite(b) ==> answers(
            #[trigger] f(FloatOp::Sub, a, b, 0),
            amount(a) - amount(b),
        )
}

/// Whether a float unit multiplies and divides right wherever the right result
/// is a float.
pub open spec fn multiplies_right(f: Ops) -> bool {
    &&& forall|a: u32, b: u32, v: int|
        is_finite(a) && is_finite(b) && v * one() == amount(a) * amount(b) ==> #[trigger] answers(
            f(FloatOp::Mul, a, b, 0),
            v,
        )
    &&& forall|a: u32, b: u32, v: int|
        is_finite(a) && is_finite(b) && amount(b) != 0 && v * amount(b) == amount(a) * one()
            ==> #[trigger] answers(f(FloatOp::Div, a, b, 0), v)
    &&& forall|a: u32, b: u32, c: u32, v: int|
        is_finite(a) && is_finite(b) && is_finite(c) && v * one() == amount(a) * amount(b) + amount(
            c,
        ) * one() ==> #[trigger] answers(f(FloatOp::MulAdd, a, b, c), v)
    &&& forall|a: u32, b: u32, t: u32, d: u32, v: int|
        #![trigger answers(f(FloatOp::Blend, a, b, t), v), is_finite(d)]
        is_finite(a) && is_finite(b) && is_finite(t) && is_finite(d) && amount(d) == amount(b)
            - amount(a) && v * one() == amount(d) * amount(t) + amount(a) * one() ==> answers(
            f(FloatOp::Blend, a, b, t),
            v,
        )
}

/// Whether a float unit rounds and finds remainders and roots right wherever
/// the right result is a float.
pub open spec fn rounds_right(f: Ops) -> bool {
    &&& forall|a: u32, v: int|
        is_finite(a) && v % one() == 0 && v <= amount(a) < v + one() ==> #[trigger] answers(
            f(FloatOp::Floor, a, 0, 0),
            v,
        )
    &&& forall|a: u32, v: int|
        is_finite(a) && v % one() == 0 && v - one() < amount(a) <= v ==> #[trigger] answers(
            f(FloatOp::Ceil, a, 0, 0),
            v,
        )
    &&& forall|a: u32, b: u32, v: int|
        is_finite(a) && is_finite(b) && 0 <= v < amount(b) && (amount(a) - v) % amount(b) == 0
            ==> #[trigger] answers(f(FloatOp::Rem, a, b, 0), v)
    &&& forall|a: u32, v: int|
        is_finite(a) && v >= 0 && v * v == amount(a) * one() ==> #[trigger] answers(
            f(FloatOp::Sqrt, a, 0, 0),
            v,
        )
    &&& forall|a: u32, b: u32, v: int|
        is_finite(a) && is_finite(b) && v >= 0 && v * v == amount(a) * amount(a) + amount(b)
            * amount(b) ==> #[trigger] answers(f(FloatOp::Hypot, a, b, 0), v)
    &&& forall|n: u32| answers(#[trigger] f(FloatOp::OfNatural, n, 0, 0), n * one())
}

/// Whether a float unit is exact: it gives the true result wherever that is a
/// float.
#[verifier::opaque]
pub open spec fn exact(f: Ops) -> bool {
    adds_right(f) && multiplies_right(f) && rounds_right(f)
}

// ---------------------------------------------------------------------------
// Numbers
// ---------------------------------------------------------------------------

pub(crate) proof fn lemma_one()
    ensures
        one() > 0,
{
    lemma_power_pos(149);
}

/// How large a magnitude is.
spec fn size(m: int) -> int {
    if m / 0x80_0000 == 0 {
        m % 0x80_0000
    } else {
        (0x80_0000 + m % 0x80_0000) * power((m / 0x80_0000 - 1) as nat)
    }
}

proof fn lemma_size(b: u32)
    ensures
        amount(b) == if is_negative(b) {
            -size(magnitude(b))
        } else {
            size(magnitude(b))
        },
{
    reveal(amount);
}

proof fn lemma_size_step(m: int)
    requires
        0 <= m,
    ensures
        size(m) < size(m + 1),
        size(m) >= 0,
{
    let (e, s) = (m / 0x80_0000, m % 0x80_0000);
    let (d, t) = ((m + 1) / 0x80_0000, (m + 1) % 0x80_0000);
    if e > 0 {
        let p = power((e - 1) as nat);
        lemma_power_pos((e - 1) as nat);
        assert((0x80_0000 + s) * p >= 0) by (nonlinear_arith)
            requires
                p >= 1,
                s >= 0,
        ;
        if s < 0x7f_ffff {
            assert(d == e && t == s + 1);
            assert((0x80_0000 + s + 1) * p == (0x80_0000 + s) * p + p) by (nonlinear_arith);
        } else {
            assert(d == e + 1 && t == 0);
            assert(power(e as nat) == 2 * p);
            assert(0x80_0000 * (2 * p) == (0x80_0000 + 0x7f_ffff) * p + p) by (nonlinear_arith);
        }
    } else {
        if s == 0x7f_ffff {
            assert(d == 1 && t == 0);
            assert(power(0) == 1);
        }
    }
}

proof fn lemma_size_rises(m: int, n: int)
    requires
        0 <= m <= n,
    ensures
        m < n ==> size(m) < size(n),
        size(m) >= 0,
        size(n) >= 0,
    decreases n - m,
{
    lemma_size_step(m);
    lemma_size_step(n);
    if m < n {
        lemma_size_step(n - 1);
        lemma_size_rises(m, n - 1);
    }
}

/// Patterns are ordered as the numbers that they stand for.
pub proof fn patterns_order_as_numbers(a: u32, b: u32)
    requires
        is_finite(a),
        is_finite(b),
    ensures
        float_lt(a, b) <==> amount(a) < amount(b),
        float_le(a, b) <==> amount(a) <= amount(b),
        float_eq(a, b) <==> amount(a) == amount(b),
{
    let (m, n) = (magnitude(a), magnitude(b));
    lemma_size(a);
    lemma_size(b);
    if m <= n {
        lemma_size_rises(m, n);
    } else {
        lemma_size_rises(n, m);
    }
    lemma_size_rises(0, m);
    lemma_size_rises(0, n);
    assert(size(0) == 0);
}

/// A pattern with its sign flipped stands for the opposite number.
pub proof fn negation_is_opposite(a: u32)
    ensures
        is_finite(negated(a)) == is_finite(a),
        amount(negated(a)) == -amount(a),
{
    lemma_size(a);
    lemma_size(negated(a));
    assert(magnitude(negated(a)) == magnitude(a));
    if magnitude(a) == 0 {
        assert(size(0) == 0);
    }
}

/// The pattern without its sign stands for the absolute value.
pub proof fn magnitude_is_absolute(a: u32)
    ensures
        is_finite(magnitude(a) as u32) == is_finite(a),
        amount(magnitude(a) as u32) == if amount(a) < 0 {
            -amount(a)
        } else {
            amount(a)
        },
{
    let m = magnitude(a) as u32;
    lemma_size(a);
    lemma_size(m);
    lemma_size_rises(0, magnitude(a));
    assert(magnitude(m) == magnitude(a));
}

proof fn lemma_powers()
    ensures
        power(23) == 0x80_0000,
        power(24) == 0x100_0000,
{
    reveal_with_fuel(power, 25);
}

/// The significand of a small whole number.
proof fn lemma_significand(k: int)
    requires
        1 <= k < 0x100_0000,
    ensures
        log2(k) <= 23,
        0x80_0000 <= k * power((23 - log2(k)) as nat) < 0x100_0000,
{
    let e = log2(k);
    lemma_log2(k);
    lemma_powers();
    if e >= 24 {
        lemma_power_mono(24, e);
    }
    let p = power((23 - e) as nat);
    lemma_power_pos((23 - e) as nat);
    lemma_power_split(e, (23 - e) as nat);
    let (w, q) = (k * p, power(e));
    assert(0x80_0000 <= w < 0x100_0000) by (nonlinear_arith)
        requires
            w == k * p,
            q * p == 0x80_0000,
            q <= k < 2 * q,
            p >= 1,
    ;
}

proof fn lemma_natural(k: int)
    requires
        1 <= k < 0x100_0000,
    ensures
        0 <= magnitude_of_nat(k) < 0x7f80_0000,
        size(magnitude_of_nat(k)) == k * one(),
{
    let e = log2(k);
    lemma_significand(k);
    let p = power((23 - e) as nat);
    let w = k * p;
    let m = magnitude_of_nat(k);
    let q = power((e + 126) as nat);
    assert(m == (e + 126) * 0x80_0000 + w);
    assert(m / 0x80_0000 == e + 127 && m % 0x80_0000 == w - 0x80_0000);
    lemma_power_split((23 - e) as nat, (e + 126) as nat);
    assert((23 - e) as nat + (e + 126) as nat == 149);
    assert(w * q == k * (p * q)) by (nonlinear_arith)
        requires
            w == k * p,
    ;
    assert(size(m) == w * q);
}

/// Small whole numbers are floats.
pub proof fn whole_numbers_are_floats(n: int)
    requires
        -0x100_0000 < n < 0x100_0000,
    ensures
        stands_for(float_of_int(n), n * one()),
{
    let b = float_of_int(n);
    lemma_size(b);
    if n == 0 {
        assert(b == 0);
        assert(0 * one() == 0) by (nonlinear_arith);
    } else if n > 0 {
        lemma_natural(n);
        assert(magnitude(b) == magnitude_of_nat(n));
    } else {
        let k = -n;
        lemma_natural(k);
        assert(magnitude(b) == magnitude_of_nat(k));
        assert(n * one() == -(k * one())) by (nonlinear_arith)
            requires
                k == -n,
        ;
    }
}

proof fn lemma_constant(b: u32, e: nat)
    requires
        b == (e + 1) * 0x80_0000,
        e < 254,
    ensures
        is_finite(b),
        amount(b) == power(23 + e),
{
    lemma_size(b);
    assert(power(23) == 0x80_0000) by {
        reveal_with_fuel(power, 24);
    }
    lemma_power_split(23, e);
    assert(magnitude(b) / 0x80_0000 == e + 1 && magnitude(b) % 0x80_0000 == 0);
}

/// The patterns of some constants.
pub proof fn constants_stand_for_numbers()
    ensures
        stands_for(0, 0),
        stands_for(ONE, one()),
        stands_for(0x4000_0000, 2 * one()),
        is_finite(0x3f00_0000),
        2 * amount(0x3f00_0000) == one(),
{
    lemma_size(0);
    lemma_constant(ONE, 126);
    lemma_constant(0x4000_0000, 127);
    lemma_constant(0x3f00_0000, 125);
    assert(power(150) == 2 * power(149));
    assert(power(149) == 2 * power(148));
}

proof fn lemma_fraction(b: u32, e: int, s: int)
    requires
        !is_negative(b),
        b == e * 0x80_0000 + s,
        0 <= s < 0x80_0000,
        120 <= e <= 150,
    ensures
        is_finite(b),
        amount(b) == (0x80_0000 + s) * power((e - 1) as nat),
        one() == power((150 - e) as nat) * power((e - 1) as nat),
{
    lemma_size(b);
    assert(magnitude(b) == b);
    assert(b / 0x80_0000 == e && b % 0x80_0000 == s);
    lemma_power_split((150 - e) as nat, (e - 1) as nat);
    assert((150 - e) as nat + (e - 1) as nat == 149);
}

/// Some more floats, and the numbers that they stand for.
pub proof fn fractions_stand_for_numbers()
    ensures
        is_finite(0x3e00_0000) && 8 * amount(0x3e00_0000) == one(),
        is_finite(0x3e80_0000) && 4 * amount(0x3e80_0000) == one(),
        is_finite(0x3ec0_0000) && 8 * amount(0x3ec0_0000) == 3 * one(),
        is_finite(0x3f40_0000) && 4 * amount(0x3f40_0000) == 3 * one(),
        is_finite(0x3fc0_0000) && 2 * amount(0x3fc0_0000) == 3 * one(),
        stands_for(0x4040_0000, 3 * one()),
        stands_for(0x40c0_0000, 6 * one()),
        stands_for(0x4120_0000, 10 * one()),
        stands_for(0x4170_0000, 15 * one()),
        stands_for(0x42fe_0000, 127 * one()),
        stands_for(0x4300_0000, 128 * one()),
        stands_for(0x4380_0000, 256 * one()),
        is_finite(0x3f7f_0000) && 256 * amount(0x3f7f_0000) == 255 * one(),
{
    reveal_with_fuel(power, 28);
    lemma_fraction(0x40c0_0000, 129, 0x40_0000);
    lemma_fraction(0x4120_0000, 130, 0x20_0000);
    lemma_fraction(0x4170_0000, 130, 0x70_0000);
    lemma_fraction(0x42fe_0000, 133, 0x7e_0000);
    lemma_fraction(0x4300_0000, 134, 0);
    lemma_fraction(0x4380_0000, 135, 0);
    lemma_fraction(0x3f7f_0000, 126, 0x7f_0000);
    assert(power(21) == 0x20_0000);
    assert(power(20) == 0x10_0000);
    assert(power(17) == 0x2_0000);
    assert(power(16) == 0x1_0000);
    assert(power(15) == 0x8000);
    lemma_fraction(0x3e00_0000, 124, 0);
    lemma_fraction(0x3e80_0000, 125, 0);
    lemma_fraction(0x3ec0_0000, 125, 0x40_0000);
    lemma_fraction(0x3f40_0000, 126, 0x40_0000);
    lemma_fraction(0x3fc0_0000, 127, 0x40_0000);
    lemma_fraction(0x4040_0000, 128, 0x40_0000);
    assert(power(26) == 0x400_0000);
    assert(power(25) == 0x200_0000);
    assert(power(24) == 0x100_0000);
    assert(power(23) == 0x80_0000);
    assert(power(22) == 0x40_0000);
}

/// The whole part of a magnitude is what it is rounded down.
proof fn lemma_whole(m: int)
    requires
        0 <= m,
    ensures
        0 <= whole_part(m) * one() <= size(m) < (whole_part(m) + 1) * one(),
        whole_part(m) >= 0,
{
    let e = m / 0x80_0000;
    let s = m % 0x80_0000 + 0x80_0000;
    lemma_one();
    if e < 127 {
        lemma_constant(ONE, 126);
        lemma_size(ONE);
        lemma_size_rises(m, ONE as int);
        assert(magnitude(ONE) == ONE);
    } else if e >= 150 {
        let (p, q) = (power((e - 150) as nat), power((e - 1) as nat));
        lemma_power_pos((e - 150) as nat);
        lemma_power_split((e - 150) as nat, 149);
        assert((e - 150) as nat + 149 == (e - 1) as nat);
        let w = s * p;
        assert(w * one() == s * q) by (nonlinear_arith)
            requires
                w == s * p,
                q == p * one(),
        ;
        assert(w >= 0) by (nonlinear_arith)
            requires
                w == s * p,
                s >= 0,
                p >= 0,
        ;
        assert((w + 1) * one() == w * one() + one()) by (nonlinear_arith);
        assert(w * one() >= 0) by (nonlinear_arith)
            requires
                w >= 0,
                one() > 0,
        ;
    } else {
        let (d, q) = (power((150 - e) as nat), power((e - 1) as nat));
        lemma_power_pos((150 - e) as nat);
        lemma_power_pos((e - 1) as nat);
        lemma_power_split((150 - e) as nat, (e - 1) as nat);
        assert((150 - e) as nat + (e - 1) as nat == 149);
        let w = s / d;
        assert(w * d <= s < (w + 1) * d && w >= 0) by (nonlinear_arith)
            requires
                w == s / d,
                d >= 1,
                s >= 0,
        ;
        assert(w * one() <= s * q < (w + 1) * one() && w * one() >= 0) by (nonlinear_arith)
            requires
                w * d <= s < (w + 1) * d,
                one() == d * q,
                q >= 1,
                d >= 1,
                w >= 0,
        ;
    }
}

/// A magnitude is rounded to the nearest whole number, halves up.
proof fn lemma_rounded(m: int)
    requires
        0 <= m,
    ensures
        rounded_part(m) >= 0,
        (2 * rounded_part(m) - 1) * one() <= 2 * size(m) < (2 * rounded_part(m) + 1) * one(),
{
    let e = m / 0x80_0000;
    let s = m % 0x80_0000 + 0x80_0000;
    let r = rounded_part(m);
    lemma_one();
    lemma_size_rises(0, m);
    assert(size(0) == 0);
    if e < 126 {
        constants_stand_for_numbers();
        lemma_size(0x3f00_0000);
        assert(magnitude(0x3f00_0000) == 0x3f00_0000);
        lemma_size_rises(m, 0x3f00_0000);
        assert((2 * r - 1) * one() == -one() && (2 * r + 1) * one() == one()) by (nonlinear_arith)
            requires
                r == 0,
        ;
    } else if e >= 150 {
        let (p, q) = (power((e - 150) as nat), power((e - 1) as nat));
        lemma_power_pos((e - 150) as nat);
        lemma_power_split((e - 150) as nat, 149);
        assert((e - 150) as nat + 149 == (e - 1) as nat);
        assert(r * one() == s * q) by (nonlinear_arith)
            requires
                r == s * p,
                q == p * one(),
        ;
        assert(r >= 0) by (nonlinear_arith)
            requires
                r == s * p,
                s >= 0,
                p >= 0,
        ;
        assert((2 * r - 1) * one() == 2 * (r * one()) - one() && (2 * r + 1) * one() == 2 * (r
            * one()) + one()) by (nonlinear_arith);
    } else {
        let (d, q) = (power((150 - e) as nat), power((e - 1) as nat));
        lemma_power_pos((150 - e) as nat);
        lemma_power_pos((e - 1) as nat);
        lemma_power_split((150 - e) as nat, (e - 1) as nat);
        assert((150 - e) as nat + (e - 1) as nat == 149);
        assert(r * (2 * d) <= 2 * s + d < (r + 1) * (2 * d) && r >= 0) by (nonlinear_arith)
            requires
                r == (2 * s + d) / (2 * d),
                d >= 1,
                s >= 0,
        ;
        assert((2 * r - 1) * d <= 2 * s && 2 * s < (2 * r + 1) * d) by (nonlinear_arith)
            requires
                r * (2 * d) <= 2 * s + d < (r + 1) * (2 * d),
        ;
        let (lo, hi) = ((2 * r - 1) * d, (2 * r + 1) * d);
        assert(lo * q <= (2 * s) * q && (2 * s) * q < hi * q) by (nonlinear_arith)
            requires
                lo <= 2 * s < hi,
                q >= 1,
        ;
        assert(lo * q == (2 * r - 1) * one() && hi * q == (2 * r + 1) * one()) by (nonlinear_arith)
            requires
                lo == (2 * r - 1) * d,
                hi == (2 * r + 1) * d,
                one() == d * q,
        ;
        assert((2 * s) * q == 2 * (s * q)) by (nonlinear_arith);
    }
}

/// A float is rounded to the nearest whole number, halves away from zero.
pub proof fn rounding_goes_to_the_nearest(b: u32)
    requires
        is_finite(b),
        magnitude(b) < 0x4f00_0000,
    ensures
        amount(b) >= 0 ==> (2 * nearest_int(b) - 1) * one() <= 2 * amount(b) < (2 * nearest_int(b)
            + 1) * one(),
        amount(b) < 0 ==> (2 * nearest_int(b) - 1) * one() < 2 * amount(b) <= (2 * nearest_int(b)
            + 1) * one(),
{
    let m = magnitude(b);
    lemma_size(b);
    lemma_rounded(m);
    lemma_size_rises(0, m);
    assert(size(0) == 0);
    lemma_one();
    let r = rounded_part(m);
    assert((2 * (-r) - 1) * one() == -((2 * r + 1) * one())) by (nonlinear_arith);
    assert((2 * (-r) + 1) * one() == -((2 * r - 1) * one())) by (nonlinear_arith);
    if is_negative(b) && amount(b) == 0 {
        assert(r == 0) by (nonlinear_arith)
            requires
                r >= 0,
                (2 * r - 1) * one() <= 0,
                one() > 0,
        ;
    }
}

/// A whole number is rounded to itself.
pub proof fn whole_numbers_round_to_themselves(b: u32, n: int)
    requires
        stands_for(b, n * one()),
        -0x100_0000 < n < 0x100_0000,
    ensures
        nearest_int(b) == n,
{
    lemma_one();
    lemma_small(b, n);
    rounding_goes_to_the_nearest(b);
    let k = nearest_int(b);
    assert(k == n) by (nonlinear_arith)
        requires
            one() > 0,
            (2 * k - 1) * one() <= 2 * (n * one()),
            2 * (n * one()) <= (2 * k + 1) * one(),
    ;
}

/// A float truncates towards zero.
pub proof fn truncation_drops_the_fraction(b: u32)
    requires
        is_finite(b),
        magnitude(b) < 0x4f00_0000,
    ensures
        amount(b) >= 0 ==> int_of_float(b) * one() <= amount(b) < (int_of_float(b) + 1) * one(),
        amount(b) < 0 ==> (int_of_float(b) - 1) * one() < amount(b) <= int_of_float(b) * one(),
{
    let m = magnitude(b);
    lemma_size(b);
    lemma_whole(m);
    lemma_size_rises(0, m);
    lemma_one();
    let w = whole_part(m);
    assert((-w) * one() == -(w * one())) by (nonlinear_arith);
    assert((-w - 1) * one() == -((w + 1) * one())) by (nonlinear_arith);
    if is_negative(b) && amount(b) == 0 {
        assert(w == 0) by (nonlinear_arith)
            requires
                w >= 0,
                w * one() <= 0,
                one() > 0,
        ;
        assert(0 * one() == 0 && 1 * one() == one()) by (nonlinear_arith);
    }
}

/// A float that stands for a whole number truncates to it.
pub proof fn whole_numbers_truncate_to_themselves(b: u32, n: int)
    requires
        stands_for(b, n * one()),
        -0x100_0000 < n < 0x100_0000,
    ensures
        int_of_float(b) == n,
{
    lemma_one();
    lemma_small(b, n);
    truncation_drops_the_fraction(b);
    let k = int_of_float(b);
    assert(k == n) by (nonlinear_arith)
        requires
            one() > 0,
            n * one() >= 0 ==> k * one() <= n * one() < (k + 1) * one(),
            n * one() < 0 ==> (k - 1) * one() < n * one() <= k * one(),
    ;
}

/// A float that stands for a small number has a small magnitude.
proof fn lemma_small(b: u32, n: int)
    requires
        stands_for(b, n * one()),
        -0x100_0000 < n < 0x100_0000,
    ensures
        magnitude(b) < 0x4f00_0000,
{
    lemma_size(b);
    lemma_one();
    let k = if n < 0 {
        -n
    } else {
        n
    };
    assert(size(magnitude(b)) == k * one()) by {
        lemma_size_rises(0, magnitude(b));
        assert((-k) * one() == -(k * one())) by (nonlinear_arith);
        assert(k * one() >= 0) by (nonlinear_arith)
            requires
                k >= 0,
                one() > 0,
        ;
    }
    if magnitude(b) >= 0x4f00_0000 {
        lemma_constant(0x4b80_0000, 150);
        lemma_size(0x4b80_0000u32);
        lemma_size_rises(0x4b80_0000, magnitude(b));
        lemma_powers();
        lemma_power_split(24, 149);
        assert(k * one() < 0x100_0000 * one()) by (nonlinear_arith)
            requires
                k < 0x100_0000,
                one() > 0,
        ;
    }
}

// ---------------------------------------------------------------------------
// Answers of an exact unit
// ---------------------------------------------------------------------------

pub(crate) proof fn lemma_add(f: Ops, a: u32, b: u32, r: u32)
    requires
        exact(f),
        is_finite(a),
        is_finite(b),
        stands_for(r, amount(a) + amount(b)),
    ensures
        stands_for(f(FloatOp::Add, a, b, 0), amount(a) + amount(b)),
{
    reveal(exact);
    assert(answers(f(FloatOp::Add, a, b, 0), amount(a) + amount(b)));
}

pub(crate) proof fn lemma_sub(f: Ops, a: u32, b: u32, r: u32)
    requires
        exact(f),
        is_finite(a),
        is_finite(b),
        stands_for(r, amount(a) - amount(b)),
    ensures
        stands_for(f(FloatOp::Sub, a, b, 0), amount(a) - amount(b)),
{
    reveal(exact);
    assert(answers(f(FloatOp::Sub, a, b, 0), amount(a) - amount(b)));
}

pub(crate) proof fn lemma_mul(f: Ops, a: u32, b: u32, r: u32)
    requires
        exact(f),
        is_finite(a),
        is_finite(b),
        is_finite(r),
        amount(r) * one() == amount(a) * amount(b),
    ensures
        stands_for(f(FloatOp::Mul, a, b, 0), amount(r)),
{
    reveal(exact);
    assert(answers(f(FloatOp::Mul, a, b, 0), amount(r)));
    assert(stands_for(r, amount(r)));
}

pub(crate) proof fn lemma_div(f: Ops, a: u32, b: u32, r: u32)
    requires
        exact(f),
        is_finite(a),
        is_finite(b),
        is_finite(r),
        amount(b) != 0,
        amount(r) * amount(b) == amount(a) * one(),
    ensures
        stands_for(f(FloatOp::Div, a, b, 0), amount(r)),
{
    reveal(exact);
    assert(answers(f(FloatOp::Div, a, b, 0), amount(r)));
    assert(stands_for(r, amount(r)));
}

pub(crate) proof fn lemma_mul_add(f: Ops, a: u32, b: u32, c: u32, r: u32)
    requires
        exact(f),
        is_finite(a),
        is_finite(b),
        is_finite(c),
        is_finite(r),
        amount(r) * one() == amount(a) * amount(b) + amount(c) * one(),
    ensures
        stands_for(f(FloatOp::MulAdd, a, b, c), amount(r)),
{
    reveal(exact);
    assert(answers(f(FloatOp::MulAdd, a, b, c), amount(r)));
    assert(stands_for(r, amount(r)));
}

pub(crate) proof fn lemma_blend(f: Ops, a: u32, b: u32, t: u32, d: u32, r: u32)
    requires
        exact(f),
        is_finite(a),
        is_finite(b),
        is_finite(t),
        stands_for(d, amount(b) - amount(a)),
        is_finite(r),
        amount(r) * one() == amount(d) * amount(t) + amount(a) * one(),
    ensures
        stands_for(f(FloatOp::Blend, a, b, t), amount(r)),
{
    reveal(exact);
    assert(answers(f(FloatOp::Blend, a, b, t), amount(r)));
    assert(stands_for(r, amount(r)));
}

pub(crate) proof fn lemma_floor(f: Ops, a: u32, r: u32)
    requires
        exact(f),
        is_finite(a),
        is_finite(r),
        amount(r) % one() == 0,
        amount(r) <= amount(a) < amount(r) + one(),
    ensures
        stands_for(f(FloatOp::Floor, a, 0, 0), amount(r)),
{
    reveal(exact);
    assert(answers(f(FloatOp::Floor, a, 0, 0), amount(r)));
    assert(stands_for(r, amount(r)));
}

pub(crate) proof fn lemma_ceil(f: Ops, a: u32, r: u32)
    requires
        exact(f),
        is_finite(a),
        is_finite(r),
        amount(r) % one() == 0,
        amount(r) - one() < amount(a) <= amount(r),
    ensures
        stands_for(f(FloatOp::Ceil, a, 0, 0), amount(r)),
{
    reveal(exact);
    assert(answers(f(FloatOp::Ceil, a, 0, 0), amount(r)));
    assert(stands_for(r, amount(r)));
}

pub(crate) proof fn lemma_rem(f: Ops, a: u32, b: u32, r: u32)
    requires
        exact(f),
        is_finite(a),
        is_finite(b),
        is_finite(r),
        0 <= amount(r) < amount(b),
        (amount(a) - amount(r)) % amount(b) == 0,
    ensures
        stands_for(f(FloatOp::Rem, a, b, 0), amount(r)),
{
    reveal(exact);
    assert(answers(f(FloatOp::Rem, a, b, 0), amount(r)));
    assert(stands_for(r, amount(r)));
}

pub(crate) proof fn lemma_sqrt(f: Ops, a: u32, r: u32)
    requires
        exact(f),
        is_finite(a),
        is_finite(r),
        amount(r) >= 0,
        amount(r) * amount(r) == amount(a) * one(),
    ensures
        stands_for(f(FloatOp::Sqrt, a, 0, 0), amount(r)),
{
    reveal(exact);
    assert(answers(f(FloatOp::Sqrt, a, 0, 0), amount(r)));
    assert(stands_for(r, amount(r)));
}

pub(crate) proof fn lemma_hypot(f: Ops, a: u32, b: u32, r: u32)
    requires
        exact(f),
        is_finite(a),
        is_finite(b),
        is_finite(r),
        amount(r) >= 0,
        amount(r) * amount(r) == amount(a) * amount(a) + amount(b) * amount(b),
    ensures
        stands_for(f(FloatOp::Hypot, a, b, 0), amount(r)),
{
    reveal(exact);
    assert(answers(f(FloatOp::Hypot, a, b, 0), amount(r)));
    assert(stands_for(r, amount(r)));
}

} // verus!
