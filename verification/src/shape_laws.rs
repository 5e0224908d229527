//! Where the vertices of simple shapes lie.

use vstd::prelude::*;

use crate::arith::{FloatOp, Ops};
use crate::curves::{HALF, TWO};
use crate::exact::{
    amount, constants_stand_for_numbers, exact, lemma_add, lemma_div, lemma_mul, lemma_mul_add,
    lemma_one, lemma_sub, one, patterns_order_as_numbers, stands_for,
};
use crate::float_bits::{ONE, is_finite};
use crate::geometry::{Point, Rect};
use crate::path_tessellator::{
    center_of, circle_vertex, corner_angle, corner_radius, corner_vertex, rect_vertices,
};
use crate::stroke::{PI, share};

verus! {

/// Whether the sides of a rectangle are numbers.
pub open spec fn is_framed(r: Rect) -> bool {
    is_finite(r.left) && is_finite(r.top) && is_finite(r.right) && is_finite(r.bottom)
}

/// The smaller of two numbers.
pub open spec fn lower(a: int, b: int) -> int {
    if a <= b {
        a
    } else {
        b
    }
}

/// The corners of a rectangle are rounded by the given radius, but by no more than
/// half of its width and of its height. The floats `w` and `h` stand for its size,
/// and `x` and `y` for the halves.
pub proof fn corners_fit_their_rectangle(
    f: Ops,
    rect: Rect,
    radius: u32,
    w: u32,
    h: u32,
    x: u32,
    y: u32,
)
    requires
        exact(f),
        is_framed(rect),
        is_finite(radius),
        stands_for(w, amount(rect.right) - amount(rect.left)),
        stands_for(h, amount(rect.bottom) - amount(rect.top)),
        is_finite(x) && 2 * amount(x) == amount(w),
        is_finite(y) && 2 * amount(y) == amount(h),
    ensures
        stands_for(
            corner_radius(f, rect, radius),
            lower(lower(amount(radius), amount(x)), amount(y)),
        ),
{
    constants_stand_for_numbers();
    lemma_sub(f, rect.right, rect.left, w);
    lemma_sub(f, rect.bottom, rect.top, h);
    let a = f(FloatOp::Sub, rect.right, rect.left, 0);
    let b = f(FloatOp::Sub, rect.bottom, rect.top, 0);
    lemma_half(f, a, x);
    lemma_half(f, b, y);
    let p = f(FloatOp::Mul, a, HALF, 0);
    let q = f(FloatOp::Mul, b, HALF, 0);
    patterns_order_as_numbers(p, radius);
    patterns_order_as_numbers(q, radius);
    patterns_order_as_numbers(q, p);
}

proof fn lemma_half(f: Ops, a: u32, x: u32)
    requires
        exact(f),
        is_finite(a),
        is_finite(x),
        2 * amount(x) == amount(a),
    ensures
        stands_for(f(FloatOp::Mul, a, HALF, 0), amount(x)),
{
    constants_stand_for_numbers();
    assert(amount(x) * one() == amount(a) * amount(HALF)) by (nonlinear_arith)
        requires
            2 * amount(x) == amount(a),
            2 * amount(HALF) == one(),
    ;
    lemma_mul(f, a, HALF, x);
}

/// The center of a rectangle lies halfway between its sides. The floats `s` and `t`
/// stand for the sums of the sides, and `x` and `y` for the halves.
pub proof fn centers_lie_in_the_middle(f: Ops, rect: Rect, s: u32, t: u32, x: u32, y: u32)
    requires
        exact(f),
        is_framed(rect),
        stands_for(s, amount(rect.left) + amount(rect.right)),
        stands_for(t, amount(rect.top) + amount(rect.bottom)),
        is_finite(x) && 2 * amount(x) == amount(s),
        is_finite(y) && 2 * amount(y) == amount(t),
    ensures
        stands_for(center_of(f, rect).x, amount(x)),
        stands_for(center_of(f, rect).y, amount(y)),
{
    lemma_add(f, rect.left, rect.right, s);
    lemma_add(f, rect.top, rect.bottom, t);
    lemma_half(f, f(FloatOp::Add, rect.left, rect.right, 0), x);
    lemma_half(f, f(FloatOp::Add, rect.top, rect.bottom, 0), y);
}

/// Whether a corner, counted from the top left in turn, lies on the right.
pub open spec fn is_right(k: int) -> bool {
    k == 1 || k == 2
}

/// Whether a corner, counted from the top left in turn, lies at the bottom.
pub open spec fn is_bottom(k: int) -> bool {
    k >= 2
}

/// A corner that is not rounded is a corner of the rectangle, from the top left in
/// turn, and has the texture coordinates of that corner.
pub proof fn sharp_corners_are_corners(
    f: Ops,
    rect: Rect,
    r: u32,
    k: int,
    i: u32,
    n: u32,
    w: u32,
    h: u32,
)
    requires
        exact(f),
        is_framed(rect),
        stands_for(r, 0),
        0 <= k < 4,
        stands_for(w, amount(rect.right) - amount(rect.left)),
        stands_for(h, amount(rect.bottom) - amount(rect.top)),
        amount(w) > 0,
        amount(h) > 0,
        is_finite(f(FloatOp::Cos, corner_angle(f, k, i, n), 0, 0)),
        is_finite(f(FloatOp::Sin, corner_angle(f, k, i, n), 0, 0)),
    ensures
        ({
            let v = corner_vertex(f, rect, r, k, i, n);
            let (x, y) = (
                if is_right(k) {
                    rect.right
                } else {
                    rect.left
                },
                if is_bottom(k) {
                    rect.bottom
                } else {
                    rect.top
                },
            );
            &&& stands_for(v.x, amount(x))
            &&& stands_for(v.y, amount(y))
            &&& stands_for(
                v.u,
                if is_right(k) {
                    one()
                } else {
                    0
                },
            )
            &&& stands_for(
                v.v,
                if is_bottom(k) {
                    one()
                } else {
                    0
                },
            )
        }),
{
    constants_stand_for_numbers();
    lemma_one();
    let angle = corner_angle(f, k, i, n);
    let (c, s) = (f(FloatOp::Cos, angle, 0, 0), f(FloatOp::Sin, angle, 0, 0));
    assert(0 * one() == amount(r) * amount(c) && 0 * one() == amount(r) * amount(s))
        by (nonlinear_arith)
        requires
            amount(r) == 0,
    ;
    lemma_mul(f, r, c, 0);
    lemma_mul(f, r, s, 0);
    let (rx, ry) = (f(FloatOp::Mul, r, c, 0), f(FloatOp::Mul, r, s, 0));
    lemma_side(f, rect.left, rect.right, r, rx, is_right(k), w);
    lemma_side(f, rect.top, rect.bottom, r, ry, is_bottom(k), h);
}

/// One coordinate of a corner that is not rounded.
proof fn lemma_side(f: Ops, lo: u32, hi: u32, r: u32, d: u32, far: bool, w: u32)
    requires
        exact(f),
        is_finite(lo),
        is_finite(hi),
        stands_for(r, 0),
        stands_for(d, 0),
        stands_for(w, amount(hi) - amount(lo)),
        amount(w) > 0,
    ensures
        ({
            let c = if far {
                f(FloatOp::Sub, hi, r, 0)
            } else {
                f(FloatOp::Add, lo, r, 0)
            };
            let x = f(FloatOp::Add, c, d, 0);
            let u = f(FloatOp::Div, f(FloatOp::Sub, x, lo, 0), f(FloatOp::Sub, hi, lo, 0), 0);
            &&& stands_for(
                x,
                if far {
                    amount(hi)
                } else {
                    amount(lo)
                },
            )
            &&& stands_for(
                u,
                if far {
                    one()
                } else {
                    0
                },
            )
        }),
{
    constants_stand_for_numbers();
    let c = if far {
        f(FloatOp::Sub, hi, r, 0)
    } else {
        f(FloatOp::Add, lo, r, 0)
    };
    let side = if far {
        hi
    } else {
        lo
    };
    if far {
        lemma_sub(f, hi, r, hi);
    } else {
        lemma_add(f, lo, r, lo);
    }
    lemma_add(f, c, d, side);
    let x = f(FloatOp::Add, c, d, 0);
    let (e, q): (u32, u32) = if far {
        (w, ONE)
    } else {
        (0, 0)
    };
    lemma_sub(f, x, lo, e);
    lemma_sub(f, hi, lo, w);
    let a = f(FloatOp::Sub, x, lo, 0);
    let b = f(FloatOp::Sub, hi, lo, 0);
    assert(amount(q) * amount(b) == amount(a) * one()) by (nonlinear_arith)
        requires
            (amount(q) == one() && amount(a) == amount(b)) || (amount(q) == 0 && amount(a) == 0),
    ;
    lemma_div(f, a, b, q);
}

/// The vertices of a plain rectangle are the corners of one whose corners are not
/// rounded.
pub proof fn plain_rectangles_have_sharp_corners(
    f: Ops,
    rect: Rect,
    r: u32,
    k: int,
    i: u32,
    n: u32,
    w: u32,
    h: u32,
)
    requires
        exact(f),
        is_framed(rect),
        stands_for(r, 0),
        0 <= k < 4,
        stands_for(w, amount(rect.right) - amount(rect.left)),
        stands_for(h, amount(rect.bottom) - amount(rect.top)),
        amount(w) > 0,
        amount(h) > 0,
        is_finite(f(FloatOp::Cos, corner_angle(f, k, i, n), 0, 0)),
        is_finite(f(FloatOp::Sin, corner_angle(f, k, i, n), 0, 0)),
    ensures
        ({
            let v = corner_vertex(f, rect, r, k, i, n);
            let c = rect_vertices(rect)[k];
            &&& stands_for(v.x, amount(c.x))
            &&& stands_for(v.y, amount(c.y))
            &&& stands_for(v.u, amount(c.u))
            &&& stands_for(v.v, amount(c.v))
        }),
{
    constants_stand_for_numbers();
    sharp_corners_are_corners(f, rect, r, k, i, n, w, h);
}

/// A vertex on the rim of a circle lies as far from the center as the radius says.
/// The floats `c` and `s` are the cosine and the sine of its angle, which is its
/// share of a full turn, and `x` and `y` stand for where it lies.
pub proof fn rims_lie_at_the_radius(
    f: Ops,
    center: Point,
    radius: u32,
    n: u32,
    i: u32,
    c: u32,
    s: u32,
    x: u32,
    y: u32,
)
    requires
        exact(f),
        is_finite(center.x) && is_finite(center.y) && is_finite(radius),
        ({
            let turn = f(FloatOp::Mul, f(FloatOp::Mul, share(f, i, n), TWO, 0), PI, 0);
            f(FloatOp::Cos, turn, 0, 0) == c && f(FloatOp::Sin, turn, 0, 0) == s
        }),
        is_finite(c) && is_finite(s),
        amount(c) * amount(c) + amount(s) * amount(s) == one() * one(),
        is_finite(x) && is_finite(y),
        (amount(x) - amount(center.x)) * one() == amount(radius) * amount(c),
        (amount(y) - amount(center.y)) * one() == amount(radius) * amount(s),
    ensures
        ({
            let v = circle_vertex(f, center, radius, n, i);
            let (dx, dy) = (amount(v.x) - amount(center.x), amount(v.y) - amount(center.y));
            &&& is_finite(v.x) && is_finite(v.y)
            &&& dx * dx + dy * dy == amount(radius) * amount(radius)
        }),
{
    lemma_one();
    let (k, p, q, e) = (amount(radius), amount(c), amount(s), one());
    let (dx, dy) = (amount(x) - amount(center.x), amount(y) - amount(center.y));
    assert(amount(x) * e == k * p + amount(center.x) * e) by (nonlinear_arith)
        requires
            (amount(x) - amount(center.x)) * e == k * p,
    ;
    assert(amount(y) * e == k * q + amount(center.y) * e) by (nonlinear_arith)
        requires
            (amount(y) - amount(center.y)) * e == k * q,
    ;
    lemma_mul_add(f, radius, c, center.x, x);
    lemma_mul_add(f, radius, s, center.y, y);
    assert((dx * e) * (dx * e) == (dx * dx) * (e * e)) by (nonlinear_arith);
    assert((dy * e) * (dy * e) == (dy * dy) * (e * e)) by (nonlinear_arith);
    assert((k * p) * (k * p) == (k * k) * (p * p)) by (nonlinear_arith);
    assert((k * q) * (k * q) == (k * k) * (q * q)) by (nonlinear_arith);
    let (a, b, m) = (dx * dx, dy * dy, k * k);
    assert((a + b) * (e * e) == a * (e * e) + b * (e * e)) by (nonlinear_arith);
    assert(m * (p * p + q * q) == m * (p * p) + m * (q * q)) by (nonlinear_arith);
    let t = e * e;
    assert(t > 0) by (nonlinear_arith)
        requires
            t == e * e,
            e > 0,
    ;
    assert(a + b == m) by (nonlinear_arith)
        requires
            (a + b) * t == m * t,
            t > 0,
    ;
}

} // verus!
