//! Where curves run.

use vstd::prelude::*;

use crate::arith::{FloatOp, Ops};
use crate::curves::{
    HALF, THREE, TWO, cubic_part, curve_at, even_points, midpoint, pieces, quad_part, simplified,
};
use crate::exact::{
    amount, constants_stand_for_numbers, exact, fractions_stand_for_numbers, lemma_add, lemma_blend,
    lemma_div, lemma_mul, lemma_mul_add, lemma_one, lemma_sub, one, stands_for,
    whole_numbers_are_floats,
};
use crate::float_bits::{ONE, float_of_int, is_finite};
use crate::geometry::Point;
use crate::linearize::halfway;
use crate::path_edges::Edge;

verus! {

/// Whether the coordinates of a point are numbers.
pub open spec fn is_placed(p: Point) -> bool {
    is_finite(p.x) && is_finite(p.y)
}

/// Whether a point stands where another one does.
pub open spec fn same_place(p: Point, q: Point) -> bool {
    stands_for(p.x, amount(q.x)) && stands_for(p.y, amount(q.y))
}

/// The point halfway between two others is as far from the one as from the other.
pub proof fn midpoints_lie_halfway(f: Ops, a: Point, b: Point, s: Point, d: Point, m: Point)
    requires
        exact(f),
        is_placed(a) && is_placed(b) && is_placed(s) && is_placed(d) && is_placed(m),
        amount(s.x) == amount(a.x) + amount(b.x),
        amount(s.y) == amount(a.y) + amount(b.y),
        amount(d.x) == amount(b.x) - amount(a.x),
        amount(d.y) == amount(b.y) - amount(a.y),
        2 * amount(m.x) == amount(a.x) + amount(b.x),
        2 * amount(m.y) == amount(a.y) + amount(b.y),
    ensures
        same_place(midpoint(f, a, b), m),
        same_place(halfway(f, a, b), m),
{
    lemma_middle(f, a.x, b.x, s.x, d.x, m.x);
    lemma_middle(f, a.y, b.y, s.y, d.y, m.y);
}

proof fn lemma_middle(f: Ops, a: u32, b: u32, s: u32, d: u32, m: u32)
    requires
        exact(f),
        is_finite(a) && is_finite(b) && is_finite(s) && is_finite(d) && is_finite(m),
        amount(s) == amount(a) + amount(b),
        amount(d) == amount(b) - amount(a),
        2 * amount(m) == amount(a) + amount(b),
    ensures
        stands_for(crate::curves::middle(f, a, b), amount(m)),
        stands_for(f(FloatOp::Blend, a, b, HALF), amount(m)),
{
    constants_stand_for_numbers();
    lemma_add(f, a, b, s);
    let t = f(FloatOp::Add, a, b, 0);
    assert(amount(m) * one() == amount(t) * amount(HALF)) by (nonlinear_arith)
        requires
            2 * amount(HALF) == one(),
            2 * amount(m) == amount(t),
    ;
    lemma_mul(f, t, HALF, m);
    assert(amount(m) * one() == amount(d) * amount(HALF) + amount(a) * one()) by (nonlinear_arith)
        requires
            2 * amount(HALF) == one(),
            2 * amount(m) == amount(d) + 2 * amount(a),
    ;
    lemma_blend(f, a, b, HALF, d, m);
}

/// A curve begins at its first point and ends at its last one.
pub proof fn curves_join_their_ends(f: Ops, e: Edge, a: Point, b: Point, t: u32)
    requires
        exact(f),
        e matches Edge::Quad(p, c, q) ==> p == a && q == b && is_placed(c),
        e matches Edge::Cubic(p, c, d, q) ==> p == a && q == b && is_placed(c) && is_placed(d),
        e is Quad || e is Cubic,
        is_placed(a),
        is_placed(b),
        is_finite(t),
    ensures
        amount(t) == 0 ==> same_place(curve_at(f, e, t), a),
        amount(t) == one() ==> same_place(curve_at(f, e, t), b),
{
    if amount(t) == 0 || amount(t) == one() {
        match e {
            Edge::Quad(_, c, _) => {
                lemma_quad_ends(f, a.x, c.x, b.x, t);
                lemma_quad_ends(f, a.y, c.y, b.y, t);
            },
            Edge::Cubic(_, c, d, _) => {
                lemma_cubic_ends(f, a.x, c.x, d.x, b.x, t);
                lemma_cubic_ends(f, a.y, c.y, d.y, b.y, t);
            },
            _ => {},
        }
    }
}

/// A product with zero or one.
proof fn lemma_times(f: Ops, x: u32, y: u32, r: u32)
    requires
        exact(f),
        is_finite(x),
        is_finite(y),
        is_finite(r),
        (amount(x) == 0 && amount(r) == 0) || (amount(y) == 0 && amount(r) == 0) || (amount(x)
            == one() && amount(r) == amount(y)) || (amount(y) == one() && amount(r) == amount(x)),
    ensures
        stands_for(f(FloatOp::Mul, x, y, 0), amount(r)),
{
    let (p, q, v) = (amount(x), amount(y), amount(r));
    assert(v * one() == p * q) by (nonlinear_arith)
        requires
            (p == 0 && v == 0) || (q == 0 && v == 0) || (p == one() && v == q) || (q == one() && v
                == p),
    ;
    lemma_mul(f, x, y, r);
}

/// A product with zero or one, added to a number.
proof fn lemma_plus(f: Ops, x: u32, y: u32, z: u32, r: u32)
    requires
        exact(f),
        is_finite(x),
        is_finite(y),
        is_finite(z),
        is_finite(r),
        (amount(x) == 0 && amount(r) == amount(z)) || (amount(x) == one() && amount(z) == 0
            && amount(r) == amount(y)),
    ensures
        stands_for(f(FloatOp::MulAdd, x, y, z), amount(r)),
{
    let (p, q, w, v) = (amount(x), amount(y), amount(z), amount(r));
    assert(v * one() == p * q + w * one()) by (nonlinear_arith)
        requires
            (p == 0 && v == w) || (p == one() && w == 0 && v == q),
    ;
    lemma_mul_add(f, x, y, z, r);
}

proof fn lemma_quad_ends(f: Ops, a: u32, c: u32, b: u32, t: u32)
    requires
        exact(f),
        is_finite(a) && is_finite(c) && is_finite(b) && is_finite(t),
        amount(t) == 0 || amount(t) == one(),
    ensures
        amount(t) == 0 ==> stands_for(quad_part(f, a, c, b, t), amount(a)),
        amount(t) == one() ==> stands_for(quad_part(f, a, c, b, t), amount(b)),
{
    constants_stand_for_numbers();
    lemma_one();
    let start = amount(t) == 0;
    let (o, z): (u32, u32) = if start {
        (ONE, 0)
    } else {
        (0, ONE)
    };
    lemma_sub(f, ONE, t, o);
    let mt = f(FloatOp::Sub, ONE, t, 0);
    lemma_times(f, mt, mt, o);
    let m2 = f(FloatOp::Mul, mt, mt, 0);
    let first: u32 = if start {
        a
    } else {
        0
    };
    lemma_times(f, m2, a, first);
    let p = f(FloatOp::Mul, m2, a, 0);
    let w: u32 = if start {
        TWO
    } else {
        0
    };
    lemma_times(f, TWO, mt, w);
    let q = f(FloatOp::Mul, TWO, mt, 0);
    lemma_times(f, q, t, 0);
    let r = f(FloatOp::Mul, q, t, 0);
    lemma_plus(f, r, c, p, p);
    let u = f(FloatOp::MulAdd, r, c, p);
    lemma_times(f, t, t, z);
    let t2 = f(FloatOp::Mul, t, t, 0);
    let last: u32 = if start {
        a
    } else {
        b
    };
    lemma_plus(f, t2, b, u, last);
}

proof fn lemma_cubic_ends(f: Ops, a: u32, c: u32, d: u32, b: u32, t: u32)
    requires
        exact(f),
        is_finite(a) && is_finite(c) && is_finite(d) && is_finite(b) && is_finite(t),
        amount(t) == 0 || amount(t) == one(),
    ensures
        amount(t) == 0 ==> stands_for(cubic_part(f, a, c, d, b, t), amount(a)),
        amount(t) == one() ==> stands_for(cubic_part(f, a, c, d, b, t), amount(b)),
{
    constants_stand_for_numbers();
    fractions_stand_for_numbers();
    lemma_one();
    let start = amount(t) == 0;
    let (o, z): (u32, u32) = if start {
        (ONE, 0)
    } else {
        (0, ONE)
    };
    lemma_sub(f, ONE, t, o);
    let mt = f(FloatOp::Sub, ONE, t, 0);
    lemma_times(f, mt, mt, o);
    let m2 = f(FloatOp::Mul, mt, mt, 0);
    lemma_times(f, t, t, z);
    let t2 = f(FloatOp::Mul, t, t, 0);
    lemma_times(f, m2, mt, o);
    let m3 = f(FloatOp::Mul, m2, mt, 0);
    let first: u32 = if start {
        a
    } else {
        0
    };
    lemma_times(f, m3, a, first);
    let p = f(FloatOp::Mul, m3, a, 0);
    let w: u32 = if start {
        THREE
    } else {
        0
    };
    lemma_times(f, THREE, m2, w);
    let q = f(FloatOp::Mul, THREE, m2, 0);
    lemma_times(f, q, t, 0);
    let r = f(FloatOp::Mul, q, t, 0);
    lemma_plus(f, r, c, p, p);
    let u = f(FloatOp::MulAdd, r, c, p);
    lemma_times(f, THREE, mt, w);
    let g = f(FloatOp::Mul, THREE, mt, 0);
    lemma_times(f, g, t2, 0);
    let h = f(FloatOp::Mul, g, t2, 0);
    lemma_plus(f, h, d, u, u);
    let k = f(FloatOp::MulAdd, h, d, u);
    lemma_times(f, t2, t, z);
    let t3 = f(FloatOp::Mul, t2, t, 0);
    let last: u32 = if start {
        a
    } else {
        b
    };
    lemma_plus(f, t3, b, k, last);
}

/// A quadratic curve is halfway at the mean of its ends and twice its control
/// point. The floats `p` and `q` stand for the parts of the sum.
pub proof fn quadratic_curves_at_the_middle(
    f: Ops,
    a: u32,
    c: u32,
    b: u32,
    t: u32,
    p: u32,
    q: u32,
    r: u32,
)
    requires
        exact(f),
        is_finite(a) && is_finite(c) && is_finite(b) && is_finite(t),
        is_finite(p) && is_finite(q) && is_finite(r),
        2 * amount(t) == one(),
        4 * amount(p) == amount(a),
        4 * amount(q) == amount(a) + 2 * amount(c),
        4 * amount(r) == amount(a) + 2 * amount(c) + amount(b),
    ensures
        stands_for(quad_part(f, a, c, b, t), amount(r)),
{
    constants_stand_for_numbers();
    fractions_stand_for_numbers();
    lemma_one();
    let k = amount(t);
    lemma_sub(f, ONE, t, HALF);
    let mt = f(FloatOp::Sub, ONE, t, 0);
    lemma_scaled(f, mt, mt, 0x3e80_0000, 1, 2, 1, 4);
    let m2 = f(FloatOp::Mul, mt, mt, 0);
    assert(amount(p) * one() == amount(m2) * amount(a)) by (nonlinear_arith)
        requires
            4 * amount(m2) == one(),
            4 * amount(p) == amount(a),
    ;
    lemma_mul(f, m2, a, p);
    let x = f(FloatOp::Mul, m2, a, 0);
    assert(amount(ONE) * one() == amount(TWO) * amount(mt)) by (nonlinear_arith)
        requires
            amount(ONE) == one(),
            amount(TWO) == 2 * one(),
            2 * amount(mt) == one(),
    ;
    lemma_mul(f, TWO, mt, ONE);
    let g = f(FloatOp::Mul, TWO, mt, 0);
    lemma_times(f, g, t, t);
    let h = f(FloatOp::Mul, g, t, 0);
    assert(amount(q) * one() == amount(h) * amount(c) + amount(x) * one()) by (nonlinear_arith)
        requires
            2 * amount(h) == one(),
            4 * amount(q) == 4 * amount(x) + 2 * amount(c),
    ;
    lemma_mul_add(f, h, c, x, q);
    let y = f(FloatOp::MulAdd, h, c, x);
    lemma_scaled(f, t, t, 0x3e80_0000, 1, 2, 1, 4);
    let t2 = f(FloatOp::Mul, t, t, 0);
    assert(amount(r) * one() == amount(t2) * amount(b) + amount(y) * one()) by (nonlinear_arith)
        requires
            4 * amount(t2) == one(),
            4 * amount(r) == 4 * amount(y) + amount(b),
    ;
    lemma_mul_add(f, t2, b, y, r);
}

/// The product of a fraction with a half, or with another fraction.
proof fn lemma_scaled(f: Ops, x: u32, y: u32, r: u32, n: int, m: int, k: int, l: int)
    requires
        exact(f),
        is_finite(x),
        is_finite(y),
        is_finite(r),
        m > 0,
        l > 0,
        m * amount(x) == n * one(),
        2 * amount(y) == one() || 4 * amount(y) == one(),
        l * amount(r) == k * one(),
        2 * amount(y) == one() ==> k * (2 * m) == n * l,
        2 * amount(y) != one() ==> k * (4 * m) == n * l,
        one() > 0,
    ensures
        stands_for(f(FloatOp::Mul, x, y, 0), amount(r)),
{
    let (p, q, v) = (amount(x), amount(y), amount(r));
    let j: int = if 2 * q == one() {
        2
    } else {
        4
    };
    assert((m * l * j) * (v * one()) == (m * l * j) * (p * q)) by {
        assert((m * l * j) * (v * one()) == (m * j) * ((l * v) * one())) by (nonlinear_arith);
        assert((m * l * j) * (p * q) == l * ((m * p) * (j * q))) by (nonlinear_arith);
        assert((m * j) * ((k * one()) * one()) == l * ((n * one()) * one())) by (nonlinear_arith)
            requires
                k * (j * m) == n * l,
        ;
    }
    assert(v * one() == p * q) by (nonlinear_arith)
        requires
            (m * l * j) * (v * one()) == (m * l * j) * (p * q),
            m > 0,
            l > 0,
            j > 0,
    ;
    lemma_mul(f, x, y, r);
}

/// A cubic curve is halfway at the mean of its ends and three times its control
/// points. The floats `p`, `q` and `s` stand for the parts of the sum.
pub proof fn cubic_curves_at_the_middle(
    f: Ops,
    a: u32,
    c: u32,
    d: u32,
    b: u32,
    t: u32,
    p: u32,
    q: u32,
    s: u32,
    r: u32,
)
    requires
        exact(f),
        is_finite(a) && is_finite(c) && is_finite(d) && is_finite(b) && is_finite(t),
        is_finite(p) && is_finite(q) && is_finite(s) && is_finite(r),
        2 * amount(t) == one(),
        8 * amount(p) == amount(a),
        8 * amount(q) == amount(a) + 3 * amount(c),
        8 * amount(s) == amount(a) + 3 * amount(c) + 3 * amount(d),
        8 * amount(r) == amount(a) + 3 * amount(c) + 3 * amount(d) + amount(b),
    ensures
        stands_for(cubic_part(f, a, c, d, b, t), amount(r)),
{
    constants_stand_for_numbers();
    fractions_stand_for_numbers();
    lemma_one();
    lemma_sub(f, ONE, t, HALF);
    let mt = f(FloatOp::Sub, ONE, t, 0);
    lemma_scaled(f, mt, mt, 0x3e80_0000, 1, 2, 1, 4);
    let m2 = f(FloatOp::Mul, mt, mt, 0);
    lemma_scaled(f, t, t, 0x3e80_0000, 1, 2, 1, 4);
    let t2 = f(FloatOp::Mul, t, t, 0);
    lemma_scaled(f, m2, mt, 0x3e00_0000, 1, 4, 1, 8);
    let m3 = f(FloatOp::Mul, m2, mt, 0);
    assert(amount(p) * one() == amount(m3) * amount(a)) by (nonlinear_arith)
        requires
            8 * amount(m3) == one(),
            8 * amount(p) == amount(a),
    ;
    lemma_mul(f, m3, a, p);
    let x = f(FloatOp::Mul, m3, a, 0);
    lemma_scaled(f, THREE, m2, 0x3f40_0000, 3, 1, 3, 4);
    let g = f(FloatOp::Mul, THREE, m2, 0);
    lemma_scaled(f, g, t, 0x3ec0_0000, 3, 4, 3, 8);
    let h = f(FloatOp::Mul, g, t, 0);
    assert(amount(q) * one() == amount(h) * amount(c) + amount(x) * one()) by (nonlinear_arith)
        requires
            8 * amount(h) == 3 * one(),
            8 * amount(q) == 8 * amount(x) + 3 * amount(c),
    ;
    lemma_mul_add(f, h, c, x, q);
    let y = f(FloatOp::MulAdd, h, c, x);
    lemma_scaled(f, THREE, mt, 0x3fc0_0000, 3, 1, 3, 2);
    let k = f(FloatOp::Mul, THREE, mt, 0);
    lemma_scaled(f, k, t2, 0x3ec0_0000, 3, 2, 3, 8);
    let l = f(FloatOp::Mul, k, t2, 0);
    assert(amount(s) * one() == amount(l) * amount(d) + amount(y) * one()) by (nonlinear_arith)
        requires
            8 * amount(l) == 3 * one(),
            8 * amount(s) == 8 * amount(y) + 3 * amount(d),
    ;
    lemma_mul_add(f, l, d, y, s);
    let z = f(FloatOp::MulAdd, l, d, y);
    lemma_scaled(f, t2, t, 0x3e00_0000, 1, 4, 1, 8);
    let t3 = f(FloatOp::Mul, t2, t, 0);
    assert(amount(r) * one() == amount(t3) * amount(b) + amount(z) * one()) by (nonlinear_arith)
        requires
            8 * amount(t3) == one(),
            8 * amount(r) == 8 * amount(z) + amount(b),
    ;
    lemma_mul_add(f, t3, b, z, r);
}

/// A curve that is cut evenly ends at its last point.
pub proof fn even_points_reach_the_end(f: Ops, tol: u32, e: Edge, a: Point, b: Point)
    requires
        exact(f),
        e matches Edge::Quad(p, c, q) ==> p == a && q == b && is_placed(c),
        e matches Edge::Cubic(p, c, d, q) ==> p == a && q == b && is_placed(c) && is_placed(d),
        e is Quad || e is Cubic,
        is_placed(a),
        is_placed(b),
        0 < pieces(f, tol, e) < 0x100_0000,
    ensures
        even_points(f, tol, e).len() > 0,
        same_place(even_points(f, tol, e).last(), b),
{
    let n = pieces(f, tol, simplified(f, e));
    constants_stand_for_numbers();
    lemma_one();
    whole_numbers_are_floats(n);
    let x = float_of_int(n);
    assert(amount(x) != 0) by (nonlinear_arith)
        requires
            amount(x) == n * one(),
            n > 0,
            one() > 0,
    ;
    assert(amount(ONE) * amount(x) == amount(x) * one()) by (nonlinear_arith)
        requires
            amount(ONE) == one(),
    ;
    lemma_div(f, x, x, ONE);
    let t = f(FloatOp::Div, x, x, 0);
    curves_join_their_ends(f, e, a, b, t);
    let all = even_points(f, tol, e);
    assert(all.last() == curve_at(f, e, t));
}

} // verus!
