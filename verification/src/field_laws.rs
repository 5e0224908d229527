//! What distance fields and noise hold.

use vstd::prelude::*;

use crate::arith::{FloatOp, Ops};
use crate::distance::EdgeDistance;
use crate::exact::{
    amount, constants_stand_for_numbers, exact, fractions_stand_for_numbers, lemma_add, lemma_div,
    lemma_mul, lemma_mul_add, lemma_one, lemma_sqrt, lemma_sub, negation_is_opposite,
    one, patterns_order_as_numbers, stands_for, whole_numbers_are_floats,
    whole_numbers_round_to_themselves,
};
use crate::float_bits::{ONE, float_of_int, is_finite, negated};
use crate::noise::{between, eased};
use crate::sdf_field::{packed_distance, signed_distance, squared_float};

verus! {

/// A number held between the opposite of another and the other.
pub open spec fn held_within(v: int, s: int) -> int {
    if v < -s {
        -s
    } else if v > s {
        s
    } else {
        v
    }
}

/// Outside of a shape its distance is the root of the squared distance of the
/// pixels, less a half for the edge between them; inside it is the opposite. Both
/// are held within the spread.
pub proof fn signed_distances_change_sign_at_the_edge(
    f: Ops,
    d: i128,
    q: u32,
    r: u32,
    spread: u32,
)
    requires
        exact(f),
        0 <= d < 0x100_0000,
        is_finite(q),
        amount(q) >= 0,
        amount(q) * amount(q) == (d * one()) * one(),
        is_finite(r),
        2 * amount(r) == 2 * amount(q) - one(),
        is_finite(spread),
        amount(spread) >= 0,
    ensures
        stands_for(
            signed_distance(f, EdgeDistance { squared: Some(d), inside: false }, spread),
            held_within(amount(r), amount(spread)),
        ),
        stands_for(
            signed_distance(f, EdgeDistance { squared: Some(d), inside: true }, spread),
            -held_within(amount(r), amount(spread)),
        ),
{
    constants_stand_for_numbers();
    let half: u32 = 0x3f00_0000;
    whole_numbers_are_floats(d as int);
    let x = squared_float(f, d as int);
    lemma_sqrt(f, x, q);
    let y = f(FloatOp::Sqrt, x, 0, 0);
    lemma_sub(f, y, half, r);
    let z = f(FloatOp::Sub, y, half, 0);
    negation_is_opposite(z);
    negation_is_opposite(spread);
    patterns_order_as_numbers(z, negated(spread));
    patterns_order_as_numbers(spread, z);
    patterns_order_as_numbers(negated(z), negated(spread));
    patterns_order_as_numbers(spread, negated(z));
}

/// As a byte the edge of a shape is in the middle; what is inside by the spread or
/// more has the largest byte, and what is outside by it the smallest. The floats
/// stand for multiples of the spread.
pub proof fn packed_distances_are_centered(
    f: Ops,
    d: u32,
    mag: u32,
    p: u32,
    t: u32,
    w: u32,
    h: u32,
)
    requires
        exact(f),
        is_finite(d),
        is_finite(mag),
        amount(mag) >= amount(0x3586_37bd),
        is_finite(p) && amount(p) == 127 * amount(mag),
        is_finite(t) && 128 * amount(t) == 127 * amount(mag),
        is_finite(w) && 128 * amount(w) == 255 * amount(mag),
        is_finite(h) && amount(h) == 2 * amount(mag),
    ensures
        amount(d) == 0 ==> packed_distance(f, d, mag) == 128,
        amount(d) >= amount(mag) ==> packed_distance(f, d, mag) == 0,
        amount(d) <= -amount(mag) ==> packed_distance(f, d, mag) == 255,
{
    constants_stand_for_numbers();
    fractions_stand_for_numbers();
    lemma_one();
    let tiny: u32 = 0x3586_37bd;
    patterns_order_as_numbers(0, tiny);
    patterns_order_as_numbers(mag, tiny);
    let m = amount(mag);
    assert(m > 0);
    let (c127, c128, c256): (u32, u32, u32) = (0x42fe_0000, 0x4300_0000, 0x4380_0000);
    assert(amount(p) * one() == m * amount(c127)) by (nonlinear_arith)
        requires
            amount(p) == 127 * m,
            amount(c127) == 127 * one(),
    ;
    lemma_mul(f, mag, c127, p);
    let a = f(FloatOp::Mul, mag, c127, 0);
    assert(amount(t) * amount(c128) == amount(a) * one()) by (nonlinear_arith)
        requires
            128 * amount(t) == amount(a),
            amount(c128) == 128 * one(),
    ;
    lemma_div(f, a, c128, t);
    let top = f(FloatOp::Div, a, c128, 0);
    negation_is_opposite(d);
    negation_is_opposite(mag);
    patterns_order_as_numbers(negated(d), negated(mag));
    patterns_order_as_numbers(top, negated(d));
    let k = crate::color_filter::kept(negated(d), negated(mag), top);
    let two: u32 = 0x4000_0000;
    assert(amount(h) * one() == amount(two) * m) by (nonlinear_arith)
        requires
            amount(h) == 2 * m,
            amount(two) == 2 * one(),
    ;
    lemma_mul(f, two, mag, h);
    let g = f(FloatOp::Mul, two, mag, 0);
    if amount(d) == 0 || amount(d) >= m || amount(d) <= -m {
        let (s, x, n): (u32, u32, int) = if amount(d) == 0 {
            (mag, 0x3f00_0000, 128)
        } else if amount(d) >= m {
            (0, 0, 0)
        } else {
            (w, 0x3f7f_0000, 255)
        };
        lemma_add(f, k, mag, s);
        let y = f(FloatOp::Add, k, mag, 0);
        assert(amount(x) * amount(g) == amount(y) * one()) by (nonlinear_arith)
            requires
                amount(g) == 2 * m,
                (amount(y) == m && 2 * amount(x) == one()) || (amount(y) == 0 && amount(x) == 0)
                    || (128 * amount(y) == 255 * m && 256 * amount(x) == 255 * one()),
        ;
        lemma_div(f, y, g, x);
        let z = f(FloatOp::Div, y, g, 0);
        whole_numbers_are_floats(n);
        let o = float_of_int(n);
        assert(amount(o) * one() == amount(z) * amount(c256)) by (nonlinear_arith)
            requires
                amount(o) == n * one(),
                amount(c256) == 256 * one(),
                256 * amount(z) == n * one(),
        ;
        lemma_mul(f, z, c256, o);
        whole_numbers_round_to_themselves(f(FloatOp::Mul, z, c256, 0), n);
    }
}

/// The smooth step of the noise leads from zero to one.
pub proof fn smooth_steps_have_their_ends(f: Ops, t: u32)
    requires
        exact(f),
        is_finite(t),
    ensures
        amount(t) == 0 ==> stands_for(eased(f, t), 0),
        amount(t) == one() ==> stands_for(eased(f, t), one()),
{
    constants_stand_for_numbers();
    fractions_stand_for_numbers();
    lemma_one();
    let v = amount(t);
    let (six, ten, fifteen): (u32, u32, u32) = (0x40c0_0000, 0x4120_0000, 0xc170_0000);
    negation_is_opposite(0x4170_0000);
    assert(negated(0x4170_0000) == fifteen);
    if v == 0 || v == one() {
        let e: u32 = if v == 0 {
            0
        } else {
            ONE
        };
        assert(amount(e) * one() == v * v) by (nonlinear_arith)
            requires
                amount(e) == v,
                v == 0 || v == one(),
        ;
        lemma_mul(f, t, t, e);
        let sq = f(FloatOp::Mul, t, t, 0);
        assert(amount(e) * one() == amount(sq) * v) by (nonlinear_arith)
            requires
                amount(e) == v,
                amount(sq) == v,
                v == 0 || v == one(),
        ;
        lemma_mul(f, sq, t, e);
        let cube = f(FloatOp::Mul, sq, t, 0);
        whole_numbers_are_floats(-9);
        let nine = float_of_int(-9);
        let a: u32 = if v == 0 {
            fifteen
        } else {
            nine
        };
        assert(amount(a) * one() == v * amount(six) + amount(fifteen) * one()) by (nonlinear_arith)
            requires
                (v == 0 && amount(a) == amount(fifteen)) || (v == one() && amount(a) == -9 * one()),
                amount(six) == 6 * one(),
                amount(fifteen) == -(15 * one()),
        ;
        lemma_mul_add(f, t, six, fifteen, a);
        let b = f(FloatOp::MulAdd, t, six, fifteen);
        let c: u32 = if v == 0 {
            ten
        } else {
            ONE
        };
        assert(amount(c) * one() == v * amount(b) + amount(ten) * one()) by (nonlinear_arith)
            requires
                (v == 0 && amount(c) == amount(ten)) || (v == one() && amount(c) == one()
                    && amount(b) == -9 * one()),
                amount(ten) == 10 * one(),
        ;
        lemma_mul_add(f, t, b, ten, c);
        let rest = f(FloatOp::MulAdd, t, b, ten);
        assert(amount(e) * one() == amount(cube) * amount(rest)) by (nonlinear_arith)
            requires
                (amount(cube) == 0 && amount(e) == 0) || (amount(cube) == one() && amount(rest)
                    == one() && amount(e) == one()),
        ;
        lemma_mul(f, cube, rest, e);
    }
}

/// What lies between two numbers is the one at zero and the other at one.
pub proof fn numbers_between_others(f: Ops, a: u32, b: u32, t: u32, d: u32)
    requires
        exact(f),
        is_finite(a) && is_finite(b) && is_finite(t),
        stands_for(d, amount(b) - amount(a)),
    ensures
        amount(t) == 0 ==> stands_for(between(f, a, b, t), amount(a)),
        amount(t) == one() ==> stands_for(between(f, a, b, t), amount(b)),
{
    lemma_sub(f, b, a, d);
    let s = f(FloatOp::Sub, b, a, 0);
    let (x, y, v) = (amount(a), amount(b), amount(t));
    if v == 0 {
        assert(x * one() == amount(s) * v + x * one()) by (nonlinear_arith)
            requires
                v == 0,
        ;
        lemma_mul_add(f, s, t, a, a);
    }
    if v == one() {
        assert(y * one() == amount(s) * v + x * one()) by (nonlinear_arith)
            requires
                v == one(),
                amount(s) == y - x,
        ;
        lemma_mul_add(f, s, t, a, b);
    }
}

} // verus!
