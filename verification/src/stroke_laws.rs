//! The shape of strokes.

use vstd::prelude::*;

use crate::arith::{FloatOp, Ops};
use crate::curves::HALF;
use crate::exact::{
    amount, constants_stand_for_numbers, exact, lemma_div, lemma_hypot, lemma_mul, lemma_mul_add,
    lemma_one, lemma_sub, magnitude_is_absolute, negation_is_opposite, one,
    patterns_order_as_numbers, stands_for,
};
use crate::float_bits::{is_finite, magnitude, negated};
use crate::geometry::Point;
use crate::outline::{StrokeCap, StrokeStyle, segment, segment_count};
use crate::stroke::{
    Piece, body, cap_pieces, difference, direction, join_pieces, moved, stroke_pieces, stroke_points,
    turned_left, unit_of,
};

verus! {

/// Whether both coordinates of a point are numbers.
pub open spec fn is_placed(p: Point) -> bool {
    is_finite(p.x) && is_finite(p.y)
}

/// Whether `c` is the point that lies `k` times the direction `d` away from `p`.
pub open spec fn lies_off(c: Point, p: Point, d: Point, k: int) -> bool {
    &&& is_placed(c)
    &&& (amount(c.x) - amount(p.x)) * one() == amount(d.x) * k
    &&& (amount(c.y) - amount(p.y)) * one() == amount(d.y) * k
}

/// Whether `d` is the direction, of length one, of the vector `v` of length `l`.
pub open spec fn directs(d: Point, v: Point, l: u32) -> bool {
    &&& is_placed(d) && is_placed(v) && is_finite(l)
    &&& amount(l) >= amount(0x2edb_e6ff)
    &&& amount(l) * amount(l) == amount(v.x) * amount(v.x) + amount(v.y) * amount(v.y)
    &&& amount(d.x) * amount(l) == amount(v.x) * one()
    &&& amount(d.y) * amount(l) == amount(v.y) * one()
}

proof fn lemma_cancel(a: int, b: int, k: int)
    requires
        a * k == b * k,
        k != 0,
    ensures
        a == b,
{
    assert(a == b) by (nonlinear_arith)
        requires
            a * k == b * k,
            k != 0,
    ;
}

/// A point is moved by a direction times an amount.
pub proof fn points_move_by_the_amount(f: Ops, p: Point, d: Point, k: u32, c: Point)
    requires
        exact(f),
        is_placed(p),
        is_placed(d),
        is_finite(k),
        lies_off(c, p, d, amount(k)),
    ensures
        lies_off(moved(f, p, d, k), p, d, amount(k)),
{
    assert(amount(c.x) * one() == amount(d.x) * amount(k) + amount(p.x) * one()) by (nonlinear_arith)
        requires
            (amount(c.x) - amount(p.x)) * one() == amount(d.x) * amount(k),
    ;
    assert(amount(c.y) * one() == amount(d.y) * amount(k) + amount(p.y) * one()) by (nonlinear_arith)
        requires
            (amount(c.y) - amount(p.y)) * one() == amount(d.y) * amount(k),
    ;
    lemma_mul_add(f, d.x, k, p.x, c.x);
    lemma_mul_add(f, d.y, k, p.y, c.y);
}

/// The direction of a vector has the length one.
pub proof fn directions_have_length_one(f: Ops, v: Point, d: Point, l: u32)
    requires
        exact(f),
        directs(d, v, l),
    ensures
        stands_for(unit_of(f, v).x, amount(d.x)),
        stands_for(unit_of(f, v).y, amount(d.y)),
        amount(d.x) * amount(d.x) + amount(d.y) * amount(d.y) == one() * one(),
{
    let tiny = 0x2edb_e6ffu32;
    constants_stand_for_numbers();
    patterns_order_as_numbers(0, tiny);
    lemma_hypot(f, v.x, v.y, l);
    let len = f(FloatOp::Hypot, v.x, v.y, 0);
    patterns_order_as_numbers(len, tiny);
    lemma_div(f, v.x, len, d.x);
    lemma_div(f, v.y, len, d.y);
    lemma_unit(amount(v.x), amount(v.y), amount(d.x), amount(d.y), amount(l), one());
}

proof fn lemma_unit(vx: int, vy: int, dx: int, dy: int, l: int, e: int)
    requires
        l > 0,
        l * l == vx * vx + vy * vy,
        dx * l == vx * e,
        dy * l == vy * e,
    ensures
        dx * dx + dy * dy == e * e,
{
    assert((dx * l) * (dx * l) == (dx * dx) * (l * l)) by (nonlinear_arith);
    assert((dy * l) * (dy * l) == (dy * dy) * (l * l)) by (nonlinear_arith);
    assert((vx * e) * (vx * e) == (vx * vx) * (e * e)) by (nonlinear_arith);
    assert((vy * e) * (vy * e) == (vy * vy) * (e * e)) by (nonlinear_arith);
    assert((dx * dx + dy * dy) * (l * l) == (dx * dx) * (l * l) + (dy * dy) * (l * l))
        by (nonlinear_arith);
    assert((e * e) * (vx * vx + vy * vy) == (vx * vx) * (e * e) + (vy * vy) * (e * e))
        by (nonlinear_arith);
    assert(l * l > 0) by (nonlinear_arith)
        requires
            l > 0,
    ;
    lemma_cancel(dx * dx + dy * dy, e * e, l * l);
}

/// What it means that a quadrilateral lies along the segment from `a` to `b`
/// and is `width` wide: its ends are across the ends of the segment, with the
/// first corner to the left.
pub open spec fn runs_along(q: Piece, a: Point, b: Point, width: int) -> bool {
    &&& q is Quad
    &&& {
        let (q0, q1, q2, q3) = (q->Quad_0, q->Quad_1, q->Quad_2, q->Quad_3);
        &&& is_across(q0, q1, a, a, b, width)
        &&& is_across(q3, q2, b, a, b, width)
    }
}

/// Whether the segment from `l` to `r` has its middle at `p`, stands at a right
/// angle to the way from `a` to `b`, with `l` on its left, and is `width` long.
pub open spec fn is_across(l: Point, r: Point, p: Point, a: Point, b: Point, width: int) -> bool {
    let (vx, vy) = (amount(b.x) - amount(a.x), amount(b.y) - amount(a.y));
    let (wx, wy) = (amount(l.x) - amount(r.x), amount(l.y) - amount(r.y));
    &&& amount(l.x) + amount(r.x) == 2 * amount(p.x)
    &&& amount(l.y) + amount(r.y) == 2 * amount(p.y)
    &&& wx * vx + wy * vy == 0
    &&& vx * wy - vy * wx > 0
    &&& wx * wx + wy * wy == width * width
}

proof fn lemma_across(
    l: Point,
    r: Point,
    p: Point,
    a: Point,
    b: Point,
    v: Point,
    d: Point,
    len: u32,
    h: int,
)
    requires
        directs(d, v, len),
        amount(v.x) == amount(b.x) - amount(a.x),
        amount(v.y) == amount(b.y) - amount(a.y),
        lies_off(l, p, turned_left(d), h),
        lies_off(r, p, turned_left(d), -h),
        amount(d.x) * amount(d.x) + amount(d.y) * amount(d.y) == one() * one(),
        amount(len) > 0,
        h > 0,
    ensures
        is_across(l, r, p, a, b, 2 * h),
{
    lemma_one();
    negation_is_opposite(d.y);
    let e = one();
    let n = turned_left(d);
    let (nx, ny) = (amount(n.x), amount(n.y));
    let (dx, dy) = (amount(d.x), amount(d.y));
    assert(nx == -dy && ny == dx);
    let (ux, uy) = (amount(l.x) - amount(p.x), amount(l.y) - amount(p.y));
    let (tx, ty) = (amount(r.x) - amount(p.x), amount(r.y) - amount(p.y));
    assert(nx * (-h) == -(nx * h) && ny * (-h) == -(ny * h)) by (nonlinear_arith);
    assert((ux + tx) * e == ux * e + tx * e && (uy + ty) * e == uy * e + ty * e)
        by (nonlinear_arith);
    assert(0 * e == 0) by (nonlinear_arith);
    lemma_cancel(ux + tx, 0, e);
    lemma_cancel(uy + ty, 0, e);
    let (wx, wy) = (2 * ux, 2 * uy);
    let (vx, vy) = (amount(v.x), amount(v.y));
    let k = amount(len);
    lemma_right_angle(ux, uy, dx, dy, vx, vy, h, e, k);
    assert(wx * wx + wy * wy == 4 * (ux * ux + uy * uy)) by (nonlinear_arith)
        requires
            wx == 2 * ux,
            wy == 2 * uy,
    ;
    assert((2 * h) * (2 * h) == 4 * (h * h)) by (nonlinear_arith);
    assert(wx * vx + wy * vy == 2 * (ux * vx + uy * vy)) by (nonlinear_arith)
        requires
            wx == 2 * ux,
            wy == 2 * uy,
    ;
    assert(vx * wy - vy * wx == 2 * (vx * uy - vy * ux)) by (nonlinear_arith)
        requires
            wx == 2 * ux,
            wy == 2 * uy,
    ;
}

proof fn lemma_scaled(a: int, b: int, c: int, d: int, e: int)
    ensures
        (a * b + c * d) * (e * e) == (a * e) * (b * e) + (c * e) * (d * e),
        (a * b - c * d) * (e * e) == (a * e) * (b * e) - (c * e) * (d * e),
{
    assert((a * b) * (e * e) == (a * e) * (b * e)) by (nonlinear_arith);
    assert((c * d) * (e * e) == (c * e) * (d * e)) by (nonlinear_arith);
    let (x, y, k) = (a * b, c * d, e * e);
    assert((x + y) * k == x * k + y * k) by (nonlinear_arith);
    assert((x - y) * k == x * k - y * k) by (nonlinear_arith);
}

proof fn lemma_right_angle(
    ux: int,
    uy: int,
    dx: int,
    dy: int,
    vx: int,
    vy: int,
    h: int,
    e: int,
    k: int,
)
    requires
        ux * e == (-dy) * h,
        uy * e == dx * h,
        dx * k == vx * e,
        dy * k == vy * e,
        dx * dx + dy * dy == e * e,
        e > 0,
        h > 0,
        k > 0,
    ensures
        ux * vx + uy * vy == 0,
        vx * uy - vy * ux > 0,
        ux * ux + uy * uy == h * h,
{
    let (p, q) = ((-dy) * h, dx * h);
    lemma_scaled(ux, ux, uy, uy, e);
    assert(p * p + q * q == (h * h) * (dx * dx + dy * dy)) by (nonlinear_arith)
        requires
            p == (-dy) * h,
            q == dx * h,
    ;
    assert(e * e > 0) by (nonlinear_arith)
        requires
            e > 0,
    ;
    lemma_cancel(ux * ux + uy * uy, h * h, e * e);
    lemma_scaled(ux, vx, uy, vy, e);
    assert(p * (dx * k) + q * (dy * k) == 0) by (nonlinear_arith)
        requires
            p == (-dy) * h,
            q == dx * h,
    ;
    assert(0 * (e * e) == 0) by (nonlinear_arith);
    lemma_cancel(ux * vx + uy * vy, 0, e * e);
    lemma_scaled(vx, uy, vy, ux, e);
    assert((dx * k) * q - (dy * k) * p == (k * h) * (dx * dx + dy * dy)) by (nonlinear_arith)
        requires
            p == (-dy) * h,
            q == dx * h,
    ;
    lemma_cancel(vx * uy - vy * ux, k * h, e * e);
    assert(k * h > 0) by (nonlinear_arith)
        requires
            k > 0,
            h > 0,
    ;
}

/// A stroke is as wide as its style says: along each segment runs a
/// quadrilateral whose two long sides lie half the width to the left and to the
/// right of the segment. Here `v` is the segment as a vector, `len` its length,
/// `d` its direction, `h` half the width, and `l` and `r` are where the corners
/// lie at both ends; all of them are floats.
pub proof fn strokes_are_as_wide_as_their_style(
    f: Ops,
    raw: Seq<Point>,
    style: StrokeStyle,
    closed: bool,
    s: int,
    v: Point,
    len: u32,
    d: Point,
    h: u32,
    l: (Point, Point),
    r: (Point, Point),
)
    requires
        exact(f),
        ({
            let pts = stroke_points(f, raw, closed);
            let a = pts[segment(pts.len(), s).0 as int];
            let b = pts[segment(pts.len(), s).1 as int];
            &&& 0 <= s < segment_count(pts.len(), closed)
            &&& is_placed(a) && is_placed(b)
            &&& stands_for(v.x, amount(b.x) - amount(a.x))
            &&& stands_for(v.y, amount(b.y) - amount(a.y))
            &&& directs(d, v, len)
            &&& lies_off(l.0, a, turned_left(d), amount(h))
            &&& lies_off(r.0, a, turned_left(d), -amount(h))
            &&& lies_off(l.1, b, turned_left(d), amount(h))
            &&& lies_off(r.1, b, turned_left(d), -amount(h))
        }),
        is_finite(style.width),
        amount(style.width) > 0,
        is_finite(h),
        2 * amount(h) == amount(style.width),
    ensures
        ({
            let pts = stroke_points(f, raw, closed);
            let a = pts[segment(pts.len(), s).0 as int];
            let b = pts[segment(pts.len(), s).1 as int];
            &&& s < stroke_pieces(f, raw, style, closed).len()
            &&& runs_along(stroke_pieces(f, raw, style, closed)[s], a, b, amount(style.width))
        }),
{
    let pts = stroke_points(f, raw, closed);
    let (i, j) = segment(pts.len(), s);
    let (a, b) = (pts[i as int], pts[j as int]);
    constants_stand_for_numbers();
    lemma_one();
    patterns_order_as_numbers(0, 0x2edb_e6ff);
    let hw = f(FloatOp::Mul, style.width, HALF, 0);
    assert(amount(h) * one() == amount(style.width) * amount(HALF)) by (nonlinear_arith)
        requires
            2 * amount(h) == amount(style.width),
            2 * amount(HALF) == one(),
    ;
    lemma_mul(f, style.width, HALF, h);
    patterns_order_as_numbers(hw, 0);
    negation_is_opposite(hw);
    lemma_sub(f, b.x, a.x, v.x);
    lemma_sub(f, b.y, a.y, v.y);
    let w = difference(f, b, a);
    directions_have_length_one(f, w, d, len);
    let u = direction(f, pts, s);
    negation_is_opposite(u.y);
    negation_is_opposite(d.y);
    let n = turned_left(u);
    points_move_by_the_amount(f, a, n, hw, l.0);
    points_move_by_the_amount(f, a, n, negated(hw), r.0);
    points_move_by_the_amount(f, b, n, negated(hw), r.1);
    points_move_by_the_amount(f, b, n, hw, l.1);
    let q = body(f, pts, hw, s);
    assert(amount(len) > 0);
    lemma_across(q->Quad_0, q->Quad_1, a, a, b, w, u, len, amount(hw));
    lemma_across(q->Quad_3, q->Quad_2, b, a, b, w, u, len, amount(hw));
    assert(stroke_pieces(f, raw, style, closed)[s] == q);
}

/// A butt cap adds nothing. A square cap goes on for half the width: its far
/// corners lie that much further out than its near ones.
pub proof fn caps_reach_out(f: Ops, p: Point, out: Point, h: u32, c: (Point, Point, Point, Point))
    requires
        exact(f),
        is_placed(p),
        is_placed(out),
        is_finite(h),
        lies_off(c.0, p, turned_left(out), amount(h)),
        lies_off(c.1, p, turned_left(out), -amount(h)),
        lies_off(c.2, c.1, out, amount(h)),
        lies_off(c.3, c.0, out, amount(h)),
    ensures
        cap_pieces(f, p, out, h, StrokeCap::Butt).len() == 0,
        cap_pieces(f, p, out, h, StrokeCap::Square).len() == 1,
        cap_pieces(f, p, out, h, StrokeCap::Square)[0] matches Piece::Quad(a, b, x, y) && {
            &&& lies_off(a, p, turned_left(out), amount(h))
            &&& lies_off(b, p, turned_left(out), -amount(h))
            &&& lies_off(x, b, out, amount(h))
            &&& lies_off(y, a, out, amount(h))
        },
{
    negation_is_opposite(h);
    negation_is_opposite(out.y);
    lemma_one();
    let n = turned_left(out);
    points_move_by_the_amount(f, p, n, h, c.0);
    points_move_by_the_amount(f, p, n, negated(h), c.1);
    let a = moved(f, p, n, h);
    let b = moved(f, p, n, negated(h));
    lemma_cancel(amount(a.x) - amount(p.x), amount(c.0.x) - amount(p.x), one());
    lemma_cancel(amount(a.y) - amount(p.y), amount(c.0.y) - amount(p.y), one());
    lemma_cancel(amount(b.x) - amount(p.x), amount(c.1.x) - amount(p.x), one());
    lemma_cancel(amount(b.y) - amount(p.y), amount(c.1.y) - amount(p.y), one());
    points_move_by_the_amount(f, b, out, h, c.2);
    points_move_by_the_amount(f, a, out, h, c.3);
}

/// Whether a triangle has two points among its corners.
pub open spec fn touches(t: Piece, p: Point, q: Point) -> bool {
    t matches Piece::Tri(a, b, c) && (a == p || b == p || c == p) && (a == q || b == q || c == q)
}

/// A join fills the gap between two segments of a stroke on both sides: its first
/// two triangles have a corner of the one segment and a corner of the other.
pub proof fn joins_fill_gaps(f: Ops, pts: Seq<Point>, hw: u32, style: StrokeStyle, s: int)
    requires
        0 <= s,
        s + 2 < pts.len() <= usize::MAX,
    ensures
        ({
            let js = join_pieces(
                f,
                pts[s + 1],
                direction(f, pts, s),
                direction(f, pts, s + 1),
                hw,
                style,
            );
            let (a, b) = (body(f, pts, hw, s), body(f, pts, hw, s + 1));
            js.len() > 0 ==> {
                &&& js.len() >= 2
                &&& touches(js[0], a->Quad_3, b->Quad_0)
                &&& touches(js[1], a->Quad_2, b->Quad_1)
                &&& style.join is Bevel ==> js.len() == 2
            }
        }),
{
}

/// A join where the direction stays the same has no gap to fill.
pub proof fn straight_joins_are_empty(f: Ops, v: Point, d: Point, hw: u32, style: StrokeStyle, m: u32)
    requires
        exact(f),
        is_placed(d),
        is_finite(m),
        amount(m) * one() == amount(d.x) * amount(d.y),
    ensures
        join_pieces(f, v, d, d, hw, style).len() == 0,
{
    constants_stand_for_numbers();
    assert(amount(m) * one() == amount(d.y) * amount(d.x)) by (nonlinear_arith)
        requires
            amount(m) * one() == amount(d.x) * amount(d.y),
    ;
    lemma_mul(f, d.y, d.x, m);
    let p = f(FloatOp::Mul, d.y, d.x, 0);
    negation_is_opposite(p);
    assert(0 * one() == amount(d.x) * amount(d.y) + amount(negated(p)) * one())
        by (nonlinear_arith)
        requires
            amount(m) * one() == amount(d.x) * amount(d.y),
            amount(negated(p)) == -amount(m),
    ;
    lemma_mul_add(f, d.x, d.y, negated(p), 0);
    let t = f(FloatOp::MulAdd, d.x, d.y, negated(p));
    magnitude_is_absolute(t);
    patterns_order_as_numbers(magnitude(t) as u32, 0x3089_705f);
    patterns_order_as_numbers(0, 0x3089_705f);
}

} // verus!
