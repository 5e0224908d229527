//! Curves cut into lines.
//!
//! A curve is cut in two ways: adaptively, by halving it until its pieces are
//! flat, or evenly, into a number of pieces that follows from how far it bends.

use vstd::prelude::*;

use crate::arith::{FloatOp, FloatUnit, Ops};
use crate::float_bits::{
    ONE, bits_lt, bits_max, bits_min, bits_neg, bits_to_natural, float_lt, float_max, float_min,
    float_of_int, int_to_bits, magnitude, natural_of_float, negated,
};
use crate::geometry::Point;
use crate::path_edges::Edge;

verus! {

/// The number of times a curve is halved at most.
pub const MAX_SUBDIVISION_DEPTH: u32 = 12;

/// The number of pieces a curve is cut into at most.
pub const MAX_POINTS_PER_CURVE: u32 = 1024;

/// The bit pattern of 0.5.
pub const HALF: u32 = 0x3f00_0000;

/// The bit pattern of 2.0.
pub const TWO: u32 = 0x4000_0000;

/// The bit pattern of 3.0.
pub const THREE: u32 = 0x4040_0000;

/// The bit pattern of 4.0.
pub const FOUR: u32 = 0x4080_0000;

/// The number halfway between two others.
pub open spec fn middle(f: Ops, a: u32, b: u32) -> u32 {
    f(FloatOp::Mul, f(FloatOp::Add, a, b, 0), HALF, 0)
}

/// The number halfway between two others.
pub fn mid<A: Fn(FloatOp, u32, u32, u32) -> u32>(f: &FloatUnit<A>, a: u32, b: u32) -> (r: u32)
    requires
        f.steady(),
    ensures
        r == middle(f.ops(), a, b),
{
    let v1: u32 = f.op(FloatOp::Add, a, b, 0);
    let v2: u32 = f.op(FloatOp::Mul, v1, HALF, 0);
    v2
}

/// The point halfway between two others.
pub open spec fn midpoint(f: Ops, a: Point, b: Point) -> Point {
    Point { x: middle(f, a.x, b.x), y: middle(f, a.y, b.y) }
}

/// The point halfway between two others.
fn mid_of<A: Fn(FloatOp, u32, u32, u32) -> u32>(f: &FloatUnit<A>, a: Point, b: Point) -> (r: Point)
    requires
        f.steady(),
    ensures
        r == midpoint(f.ops(), a, b),
{
    Point { x: mid(f, a.x, b.x), y: mid(f, a.y, b.y) }
}

/// The square of the distance of two points.
pub open spec fn gap_squared(f: Ops, a: Point, b: Point) -> u32 {
    let dx = f(FloatOp::Sub, a.x, b.x, 0);
    let dy = f(FloatOp::Sub, a.y, b.y, 0);
    f(FloatOp::Add, f(FloatOp::Mul, dx, dx, 0), f(FloatOp::Mul, dy, dy, 0), 0)
}

/// The square of the distance of two points.
fn gap2<A: Fn(FloatOp, u32, u32, u32) -> u32>(f: &FloatUnit<A>, a: Point, b: Point) -> (r: u32)
    requires
        f.steady(),
    ensures
        r == gap_squared(f.ops(), a, b),
{
    let v1: u32 = f.op(FloatOp::Sub, a.x, b.x, 0);
    let dx: u32 = v1;
    let v2: u32 = f.op(FloatOp::Sub, a.y, b.y, 0);
    let dy: u32 = v2;
    let v3: u32 = f.op(FloatOp::Mul, dx, dx, 0);
    let v4: u32 = f.op(FloatOp::Mul, dy, dy, 0);
    let v5: u32 = f.op(FloatOp::Add, v3, v4, 0);
    v5
}

/// The points of a quadratic curve, without the first, halved at most `left`
/// more times: a piece is flat where the control point lies near the middle of
/// the ends.
pub open spec fn adaptive_quad(f: Ops, a: Point, c: Point, b: Point, tol: u32, left: nat) -> Seq<
    Point,
>
    decreases left,
{
    let dev = gap_squared(f, c, midpoint(f, a, b));
    if left == 0 || float_lt(dev, f(FloatOp::Mul, f(FloatOp::Mul, tol, tol, 0), FOUR, 0)) {
        seq![b]
    } else {
        let m1 = midpoint(f, a, c);
        let m2 = midpoint(f, c, b);
        let m = midpoint(f, m1, m2);
        adaptive_quad(f, a, m1, m, tol, (left - 1) as nat) + adaptive_quad(
            f,
            m,
            m2,
            b,
            tol,
            (left - 1) as nat,
        )
    }
}

/// The square of the distance of `c` from the line through `a` and `b`; from
/// `a` where the two are too close.
pub open spec fn deviation(f: Ops, a: Point, b: Point, c: Point) -> u32 {
    let dx = f(FloatOp::Sub, b.x, a.x, 0);
    let dy = f(FloatOp::Sub, b.y, a.y, 0);
    let chord = f(FloatOp::MulAdd, dx, dx, f(FloatOp::Mul, dy, dy, 0));
    let cx = f(FloatOp::Sub, c.x, a.x, 0);
    let cy = f(FloatOp::Sub, c.y, a.y, 0);
    if float_lt(0x3089_705f, chord) {
        let t = f(FloatOp::Div, f(FloatOp::MulAdd, cx, dx, f(FloatOp::Mul, cy, dy, 0)), chord, 0);
        let px = f(FloatOp::Sub, c.x, f(FloatOp::MulAdd, t, dx, a.x), 0);
        let py = f(FloatOp::Sub, c.y, f(FloatOp::MulAdd, t, dy, a.y), 0);
        f(FloatOp::MulAdd, px, px, f(FloatOp::Mul, py, py, 0))
    } else {
        f(FloatOp::MulAdd, cx, cx, f(FloatOp::Mul, cy, cy, 0))
    }
}

/// The square of the distance of a point from a line.
fn deviation_of<A: Fn(FloatOp, u32, u32, u32) -> u32>(
    f: &FloatUnit<A>,
    a: Point,
    b: Point,
    c: Point,
) -> (r: u32)
    requires
        f.steady(),
    ensures
        r == deviation(f.ops(), a, b, c),
{
    let dx: u32 = f.op(FloatOp::Sub, b.x, a.x, 0);
    let dy: u32 = f.op(FloatOp::Sub, b.y, a.y, 0);
    let dy2: u32 = f.op(FloatOp::Mul, dy, dy, 0);
    let chord: u32 = f.op(FloatOp::MulAdd, dx, dx, dy2);
    let cx: u32 = f.op(FloatOp::Sub, c.x, a.x, 0);
    let cy: u32 = f.op(FloatOp::Sub, c.y, a.y, 0);
    if bits_lt(0x3089_705f, chord) {
        let cydy: u32 = f.op(FloatOp::Mul, cy, dy, 0);
        let along: u32 = f.op(FloatOp::MulAdd, cx, dx, cydy);
        let t: u32 = f.op(FloatOp::Div, along, chord, 0);
        let qx: u32 = f.op(FloatOp::MulAdd, t, dx, a.x);
        let qy: u32 = f.op(FloatOp::MulAdd, t, dy, a.y);
        let px: u32 = f.op(FloatOp::Sub, c.x, qx, 0);
        let py: u32 = f.op(FloatOp::Sub, c.y, qy, 0);
        let py2: u32 = f.op(FloatOp::Mul, py, py, 0);
        f.op(FloatOp::MulAdd, px, px, py2)
    } else {
        let cy2: u32 = f.op(FloatOp::Mul, cy, cy, 0);
        f.op(FloatOp::MulAdd, cx, cx, cy2)
    }
}

/// The points of a cubic curve, without the first, halved at most `left` more
/// times: a piece is flat where both control points lie near the line through
/// the ends.
pub open spec fn adaptive_cubic(
    f: Ops,
    a: Point,
    c: Point,
    d: Point,
    b: Point,
    tol: u32,
    left: nat,
) -> Seq<Point>
    decreases left,
{
    let dev = float_max(deviation(f, a, b, c), deviation(f, a, b, d));
    if left == 0 || float_lt(dev, f(FloatOp::Mul, tol, tol, 0)) {
        seq![b]
    } else {
        let m1 = midpoint(f, a, c);
        let m2 = midpoint(f, c, d);
        let m3 = midpoint(f, d, b);
        let m12 = midpoint(f, m1, m2);
        let m23 = midpoint(f, m2, m3);
        let m = midpoint(f, m12, m23);
        adaptive_cubic(f, a, m1, m12, m, tol, (left - 1) as nat) + adaptive_cubic(
            f,
            m,
            m23,
            m3,
            b,
            tol,
            (left - 1) as nat,
        )
    }
}

/// The denominator of a conic at `t`.
pub open spec fn conic_weight_sum(f: Ops, w: u32, t: u32) -> u32 {
    let mt = f(FloatOp::Sub, ONE, t, 0);
    f(
        FloatOp::MulAdd,
        t,
        t,
        f(
            FloatOp::MulAdd,
            f(FloatOp::Mul, f(FloatOp::Mul, TWO, w, 0), t, 0),
            mt,
            f(FloatOp::Mul, mt, mt, 0),
        ),
    )
}

/// The denominator of a conic at `t`.
fn weight_sum<A: Fn(FloatOp, u32, u32, u32) -> u32>(f: &FloatUnit<A>, w: u32, t: u32) -> (r: u32)
    requires
        f.steady(),
    ensures
        r == conic_weight_sum(f.ops(), w, t),
{
    let v1: u32 = f.op(FloatOp::Sub, ONE, t, 0);
    let mt: u32 = v1;
    let v2: u32 = f.op(FloatOp::Mul, TWO, w, 0);
    let v3: u32 = f.op(FloatOp::Mul, v2, t, 0);
    let v4: u32 = f.op(FloatOp::Mul, mt, mt, 0);
    let v5: u32 = f.op(FloatOp::MulAdd, v3, mt, v4);
    let v6: u32 = f.op(FloatOp::MulAdd, t, t, v5);
    v6
}

/// One coordinate of a conic at `t`, given the inverse of the denominator.
pub open spec fn conic_part(f: Ops, a: u32, c: u32, b: u32, w: u32, t: u32, inv: u32) -> u32 {
    let mt = f(FloatOp::Sub, ONE, t, 0);
    f(
        FloatOp::Mul,
        f(
            FloatOp::MulAdd,
            f(FloatOp::Mul, b, t, 0),
            t,
            f(
                FloatOp::MulAdd,
                f(FloatOp::Mul, a, mt, 0),
                mt,
                f(
                    FloatOp::Mul,
                    f(FloatOp::Mul, f(FloatOp::Mul, f(FloatOp::Mul, TWO, c, 0), w, 0), t, 0),
                    mt,
                    0,
                ),
            ),
        ),
        inv,
        0,
    )
}

/// One coordinate of a conic at `t`, given the inverse of the denominator.
fn conic_axis<A: Fn(FloatOp, u32, u32, u32) -> u32>(
    f: &FloatUnit<A>,
    a: u32,
    c: u32,
    b: u32,
    w: u32,
    t: u32,
    inv: u32,
) -> (r: u32)
    requires
        f.steady(),
    ensures
        r == conic_part(f.ops(), a, c, b, w, t, inv),
{
    let v1: u32 = f.op(FloatOp::Sub, ONE, t, 0);
    let mt: u32 = v1;
    let v2: u32 = f.op(FloatOp::Mul, b, t, 0);
    let v3: u32 = f.op(FloatOp::Mul, a, mt, 0);
    let v4: u32 = f.op(FloatOp::Mul, TWO, c, 0);
    let v5: u32 = f.op(FloatOp::Mul, v4, w, 0);
    let v6: u32 = f.op(FloatOp::Mul, v5, t, 0);
    let v7: u32 = f.op(FloatOp::Mul, v6, mt, 0);
    let v8: u32 = f.op(FloatOp::MulAdd, v3, mt, v7);
    let v9: u32 = f.op(FloatOp::MulAdd, v2, t, v8);
    let v10: u32 = f.op(FloatOp::Mul, v9, inv, 0);
    v10
}

/// The point of a conic at `t`.
pub open spec fn conic_at(f: Ops, a: Point, c: Point, b: Point, w: u32, t: u32) -> Point {
    let inv = f(FloatOp::Div, ONE, conic_weight_sum(f, w, t), 0);
    Point {
        x: conic_part(f, a.x, c.x, b.x, w, t, inv),
        y: conic_part(f, a.y, c.y, b.y, w, t, inv),
    }
}

/// The point of a conic at `t`.
fn eval_conic<A: Fn(FloatOp, u32, u32, u32) -> u32>(
    f: &FloatUnit<A>,
    a: Point,
    c: Point,
    b: Point,
    w: u32,
    t: u32,
) -> (r: Point)
    requires
        f.steady(),
    ensures
        r == conic_at(f.ops(), a, c, b, w, t),
{
    let sum: u32 = weight_sum(f, w, t);
    let inv: u32 = f.op(FloatOp::Div, ONE, sum, 0);
    Point {
        x: conic_axis(f, a.x, c.x, b.x, w, t, inv),
        y: conic_axis(f, a.y, c.y, b.y, w, t, inv),
    }
}

/// The points of a conic between `t0` and `t1`, without the first, halved at
/// most `left` more times: a piece is flat where its middle lies near the
/// middle of its ends.
pub open spec fn adaptive_conic(
    f: Ops,
    a: Point,
    c: Point,
    b: Point,
    w: u32,
    t0: u32,
    t1: u32,
    tol: u32,
    left: nat,
) -> Seq<Point>
    decreases left,
{
    let p0 = conic_at(f, a, c, b, w, t0);
    let p1 = conic_at(f, a, c, b, w, t1);
    let tm = middle(f, t0, t1);
    let pm = conic_at(f, a, c, b, w, tm);
    let dev = gap_squared(f, pm, midpoint(f, p0, p1));
    if left == 0 || float_lt(dev, f(FloatOp::Mul, tol, tol, 0)) {
        seq![p1]
    } else {
        adaptive_conic(f, a, c, b, w, t0, tm, tol, (left - 1) as nat) + adaptive_conic(
            f,
            a,
            c,
            b,
            w,
            tm,
            t1,
            tol,
            (left - 1) as nat,
        )
    }
}

/// Appends the points of a quadratic curve.
fn flatten_quad_recursive<A: Fn(FloatOp, u32, u32, u32) -> u32>(
    f: &FloatUnit<A>,
    output: &mut Vec<Point>,
    a: Point,
    c: Point,
    b: Point,
    tol: u32,
    left: u32,
)
    requires
        f.steady(),
    ensures
        final(output)@ == old(output)@ + adaptive_quad(f.ops(), a, c, b, tol, left as nat),
    decreases left,
{
    let chord = mid_of(f, a, b);
    let dev: u32 = gap2(f, c, chord);
    let tol2: u32 = f.op(FloatOp::Mul, tol, tol, 0);
    let limit: u32 = f.op(FloatOp::Mul, tol2, FOUR, 0);
    if left == 0 || bits_lt(dev, limit) {
        output.push(b);
        assert(output@ =~= old(output)@ + seq![b]);
        return;
    }
    let m1 = mid_of(f, a, c);
    let m2 = mid_of(f, c, b);
    let m = mid_of(f, m1, m2);
    flatten_quad_recursive(f, output, a, m1, m, tol, left - 1);
    flatten_quad_recursive(f, output, m, m2, b, tol, left - 1);
    assert(output@ =~= old(output)@ + adaptive_quad(f.ops(), a, c, b, tol, left as nat));
}

/// Appends the points of a cubic curve.
fn flatten_cubic_recursive<A: Fn(FloatOp, u32, u32, u32) -> u32>(
    f: &FloatUnit<A>,
    output: &mut Vec<Point>,
    a: Point,
    c: Point,
    d: Point,
    b: Point,
    tol: u32,
    left: u32,
)
    requires
        f.steady(),
    ensures
        final(output)@ == old(output)@ + adaptive_cubic(f.ops(), a, c, d, b, tol, left as nat),
    decreases left,
{
    let dev: u32 = bits_max(deviation_of(f, a, b, c), deviation_of(f, a, b, d));
    let limit: u32 = f.op(FloatOp::Mul, tol, tol, 0);
    if left == 0 || bits_lt(dev, limit) {
        output.push(b);
        assert(output@ =~= old(output)@ + seq![b]);
        return;
    }
    let m1 = mid_of(f, a, c);
    let m2 = mid_of(f, c, d);
    let m3 = mid_of(f, d, b);
    let m12 = mid_of(f, m1, m2);
    let m23 = mid_of(f, m2, m3);
    let m = mid_of(f, m12, m23);
    flatten_cubic_recursive(f, output, a, m1, m12, m, tol, left - 1);
    flatten_cubic_recursive(f, output, m, m23, m3, b, tol, left - 1);
    assert(output@ =~= old(output)@ + adaptive_cubic(f.ops(), a, c, d, b, tol, left as nat));
}

/// Appends the points of a piece of a conic.
fn flatten_conic_recursive<A: Fn(FloatOp, u32, u32, u32) -> u32>(
    f: &FloatUnit<A>,
    output: &mut Vec<Point>,
    a: Point,
    c: Point,
    b: Point,
    w: u32,
    t0: u32,
    t1: u32,
    tol: u32,
    left: u32,
)
    requires
        f.steady(),
    ensures
        final(output)@ == old(output)@ + adaptive_conic(
            f.ops(),
            a,
            c,
            b,
            w,
            t0,
            t1,
            tol,
            left as nat,
        ),
    decreases left,
{
    let p0 = eval_conic(f, a, c, b, w, t0);
    let p1 = eval_conic(f, a, c, b, w, t1);
    let tm: u32 = mid(f, t0, t1);
    let pm = eval_conic(f, a, c, b, w, tm);
    let chord = mid_of(f, p0, p1);
    let dev: u32 = gap2(f, pm, chord);
    let limit: u32 = f.op(FloatOp::Mul, tol, tol, 0);
    if left == 0 || bits_lt(dev, limit) {
        output.push(p1);
        assert(output@ =~= old(output)@ + seq![p1]);
        return;
    }
    flatten_conic_recursive(f, output, a, c, b, w, t0, tm, tol, left - 1);
    flatten_conic_recursive(f, output, a, c, b, w, tm, t1, tol, left - 1);
    assert(output@ =~= old(output)@ + adaptive_conic(
        f.ops(),
        a,
        c,
        b,
        w,
        t0,
        t1,
        tol,
        left as nat,
    ));
}

/// Appends the points of a quadratic curve, without the first.
pub fn flatten_quad_adaptive<A: Fn(FloatOp, u32, u32, u32) -> u32>(
    f: &FloatUnit<A>,
    output: &mut Vec<Point>,
    start: Point,
    ctrl: Point,
    end: Point,
    tolerance: u32,
)
    requires
        f.steady(),
    ensures
        final(output)@ == old(output)@ + adaptive_quad(f.ops(), start, ctrl, end, tolerance, 12),
{
    flatten_quad_recursive(f, output, start, ctrl, end, tolerance, MAX_SUBDIVISION_DEPTH);
}

/// Appends the points of a cubic curve, without the first.
pub fn flatten_cubic_adaptive<A: Fn(FloatOp, u32, u32, u32) -> u32>(
    f: &FloatUnit<A>,
    output: &mut Vec<Point>,
    start: Point,
    ctrl1: Point,
    ctrl2: Point,
    end: Point,
    tolerance: u32,
)
    requires
        f.steady(),
    ensures
        final(output)@ == old(output)@ + adaptive_cubic(
            f.ops(),
            start,
            ctrl1,
            ctrl2,
            end,
            tolerance,
            12,
        ),
{
    flatten_cubic_recursive(f, output, start, ctrl1, ctrl2, end, tolerance, MAX_SUBDIVISION_DEPTH);
}

/// Appends the points of a conic, without the first.
pub fn flatten_conic_adaptive<A: Fn(FloatOp, u32, u32, u32) -> u32>(
    f: &FloatUnit<A>,
    output: &mut Vec<Point>,
    start: Point,
    ctrl: Point,
    end: Point,
    weight: u32,
    tolerance: u32,
)
    requires
        f.steady(),
    ensures
        final(output)@ == old(output)@ + adaptive_conic(
            f.ops(),
            start,
            ctrl,
            end,
            weight,
            0,
            ONE,
            tolerance,
            12,
        ),
{
    flatten_conic_recursive(
        f,
        output,
        start,
        ctrl,
        end,
        weight,
        0,
        ONE,
        tolerance,
        MAX_SUBDIVISION_DEPTH,
    );
}

/// The points of an edge, without the first, cut adaptively.
pub open spec fn adaptive_points(f: Ops, tol: u32, e: Edge) -> Seq<Point> {
    match e {
        Edge::Line(_, b) => seq![b],
        Edge::Quad(a, c, b) => adaptive_quad(f, a, c, b, tol, 12),
        Edge::Conic(a, c, b, w) => adaptive_conic(f, a, c, b, w, 0, ONE, tol, 12),
        Edge::Cubic(a, c, d, b) => adaptive_cubic(f, a, c, d, b, tol, 12),
    }
}

/// The points of an edge, without the first, cut adaptively.
pub fn cut_adaptively<A: Fn(FloatOp, u32, u32, u32) -> u32>(
    f: &FloatUnit<A>,
    tol: u32,
    e: Edge,
) -> (r: Vec<Point>)
    requires
        f.steady(),
    ensures
        r@ == adaptive_points(f.ops(), tol, e),
{
    let mut out: Vec<Point> = Vec::new();
    match e {
        Edge::Line(_, b) => {
            out.push(b);
        },
        Edge::Quad(a, c, b) => {
            flatten_quad_adaptive(f, &mut out, a, c, b, tol);
        },
        Edge::Conic(a, c, b, w) => {
            flatten_conic_adaptive(f, &mut out, a, c, b, w, tol);
        },
        Edge::Cubic(a, c, d, b) => {
            flatten_cubic_adaptive(f, &mut out, a, c, d, b, tol);
        },
    }
    assert(out@ =~= adaptive_points(f.ops(), tol, e));
    out
}

/// A curve cut adaptively ends where it ends, and into no more pieces than
/// halving allows.
pub proof fn adaptive_quad_ends(f: Ops, a: Point, c: Point, b: Point, tol: u32, left: nat)
    ensures
        adaptive_quad(f, a, c, b, tol, left).len() > 0,
        adaptive_quad(f, a, c, b, tol, left).last() == b,
        adaptive_quad(f, a, c, b, tol, left).len() <= crate::float_bits::power(left),
    decreases left,
{
    if left > 0 {
        let m1 = midpoint(f, a, c);
        let m2 = midpoint(f, c, b);
        let m = midpoint(f, m1, m2);
        adaptive_quad_ends(f, a, m1, m, tol, (left - 1) as nat);
        adaptive_quad_ends(f, m, m2, b, tol, (left - 1) as nat);
        lemma_power_at_least_one(left);
    }
}

/// A cubic curve cut adaptively ends where it ends, and into no more pieces
/// than halving allows.
pub proof fn adaptive_cubic_ends(
    f: Ops,
    a: Point,
    c: Point,
    d: Point,
    b: Point,
    tol: u32,
    left: nat,
)
    ensures
        adaptive_cubic(f, a, c, d, b, tol, left).len() > 0,
        adaptive_cubic(f, a, c, d, b, tol, left).last() == b,
        adaptive_cubic(f, a, c, d, b, tol, left).len() <= crate::float_bits::power(left),
    decreases left,
{
    if left > 0 {
        let m1 = midpoint(f, a, c);
        let m2 = midpoint(f, c, d);
        let m3 = midpoint(f, d, b);
        let m12 = midpoint(f, m1, m2);
        let m23 = midpoint(f, m2, m3);
        let m = midpoint(f, m12, m23);
        adaptive_cubic_ends(f, a, m1, m12, m, tol, (left - 1) as nat);
        adaptive_cubic_ends(f, m, m23, m3, b, tol, (left - 1) as nat);
        lemma_power_at_least_one(left);
    }
}

proof fn lemma_power_at_least_one(n: nat)
    ensures
        crate::float_bits::power(n) >= 1,
    decreases n,
{
    if n > 0 {
        lemma_power_at_least_one((n - 1) as nat);
    }
}

// ---------------------------------------------------------------------------
// Even cuts
// ---------------------------------------------------------------------------

/// The distance of `p` from the line through `a` and `b`; from `a` where the
/// two are too close.
pub open spec fn distance_to_line(f: Ops, p: Point, a: Point, b: Point) -> u32 {
    let dx = f(FloatOp::Sub, b.x, a.x, 0);
    let dy = f(FloatOp::Sub, b.y, a.y, 0);
    let len = f(FloatOp::MulAdd, dx, dx, f(FloatOp::Mul, dy, dy, 0));
    let px = f(FloatOp::Sub, p.x, a.x, 0);
    let py = f(FloatOp::Sub, p.y, a.y, 0);
    if float_lt(len, 0x2edb_e6ff) {
        f(FloatOp::Hypot, px, py, 0)
    } else {
        f(
            FloatOp::Div,
            magnitude(f(FloatOp::MulAdd, px, dy, negated(f(FloatOp::Mul, py, dx, 0)))) as u32,
            f(FloatOp::Sqrt, len, 0, 0),
            0,
        )
    }
}

/// The distance of a point from a line.
fn point_to_line_distance<A: Fn(FloatOp, u32, u32, u32) -> u32>(
    f: &FloatUnit<A>,
    p: Point,
    a: Point,
    b: Point,
) -> (r: u32)
    requires
        f.steady(),
    ensures
        r == distance_to_line(f.ops(), p, a, b),
{
    let dx: u32 = f.op(FloatOp::Sub, b.x, a.x, 0);
    let dy: u32 = f.op(FloatOp::Sub, b.y, a.y, 0);
    let dy2: u32 = f.op(FloatOp::Mul, dy, dy, 0);
    let len: u32 = f.op(FloatOp::MulAdd, dx, dx, dy2);
    let px: u32 = f.op(FloatOp::Sub, p.x, a.x, 0);
    let py: u32 = f.op(FloatOp::Sub, p.y, a.y, 0);
    if bits_lt(len, 0x2edb_e6ff) {
        return f.op(FloatOp::Hypot, px, py, 0);
    }
    let pydx: u32 = f.op(FloatOp::Mul, py, dx, 0);
    let area: u32 = f.op(FloatOp::MulAdd, px, dy, bits_neg(pydx));
    let root: u32 = f.op(FloatOp::Sqrt, len, 0, 0);
    f.op(FloatOp::Div, area % 0x8000_0000, root, 0)
}

/// The number of pieces for a curve that bends by `d`, at least `least`.
pub open spec fn piece_count(f: Ops, d: u32, tol: u32, least: int) -> int {
    let n = natural_of_float(
        f(FloatOp::Ceil, f(FloatOp::Sqrt, f(FloatOp::Div, d, tol, 0), 0, 0), 0, 0),
    );
    if n < least {
        least
    } else if n > MAX_POINTS_PER_CURVE {
        MAX_POINTS_PER_CURVE as int
    } else {
        n
    }
}

/// The number of pieces for a curve.
fn count_pieces<A: Fn(FloatOp, u32, u32, u32) -> u32>(
    f: &FloatUnit<A>,
    d: u32,
    tol: u32,
    least: u32,
) -> (r: u32)
    requires
        f.steady(),
        1 <= least <= 2,
    ensures
        r == piece_count(f.ops(), d, tol, least as int),
        1 <= r <= MAX_POINTS_PER_CURVE,
{
    let q: u32 = f.op(FloatOp::Div, d, tol, 0);
    let s: u32 = f.op(FloatOp::Sqrt, q, 0, 0);
    let c: u32 = f.op(FloatOp::Ceil, s, 0, 0);
    let n: u32 = bits_to_natural(c);
    if n < least {
        least
    } else if n > MAX_POINTS_PER_CURVE {
        MAX_POINTS_PER_CURVE
    } else {
        n
    }
}

/// One coordinate of a quadratic curve at `t`.
pub open spec fn quad_part(f: Ops, a: u32, c: u32, b: u32, t: u32) -> u32 {
    let mt = f(FloatOp::Sub, ONE, t, 0);
    f(
        FloatOp::MulAdd,
        f(FloatOp::Mul, t, t, 0),
        b,
        f(
            FloatOp::MulAdd,
            f(FloatOp::Mul, f(FloatOp::Mul, TWO, mt, 0), t, 0),
            c,
            f(FloatOp::Mul, f(FloatOp::Mul, mt, mt, 0), a, 0),
        ),
    )
}

/// One coordinate of a quadratic curve at `t`.
fn quad_axis<A: Fn(FloatOp, u32, u32, u32) -> u32>(
    f: &FloatUnit<A>,
    a: u32,
    c: u32,
    b: u32,
    t: u32,
) -> (r: u32)
    requires
        f.steady(),
    ensures
        r == quad_part(f.ops(), a, c, b, t),
{
    let v1: u32 = f.op(FloatOp::Sub, ONE, t, 0);
    let mt: u32 = v1;
    let v2: u32 = f.op(FloatOp::Mul, t, t, 0);
    let v3: u32 = f.op(FloatOp::Mul, TWO, mt, 0);
    let v4: u32 = f.op(FloatOp::Mul, v3, t, 0);
    let v5: u32 = f.op(FloatOp::Mul, mt, mt, 0);
    let v6: u32 = f.op(FloatOp::Mul, v5, a, 0);
    let v7: u32 = f.op(FloatOp::MulAdd, v4, c, v6);
    let v8: u32 = f.op(FloatOp::MulAdd, v2, b, v7);
    v8
}

/// One coordinate of a cubic curve at `t`.
pub open spec fn cubic_part(f: Ops, a: u32, c: u32, d: u32, b: u32, t: u32) -> u32 {
    let mt = f(FloatOp::Sub, ONE, t, 0);
    let mt2 = f(FloatOp::Mul, mt, mt, 0);
    let t2 = f(FloatOp::Mul, t, t, 0);
    f(
        FloatOp::MulAdd,
        f(FloatOp::Mul, t2, t, 0),
        b,
        f(
            FloatOp::MulAdd,
            f(FloatOp::Mul, f(FloatOp::Mul, THREE, mt, 0), t2, 0),
            d,
            f(
                FloatOp::MulAdd,
                f(FloatOp::Mul, f(FloatOp::Mul, THREE, mt2, 0), t, 0),
                c,
                f(FloatOp::Mul, f(FloatOp::Mul, mt2, mt, 0), a, 0),
            ),
        ),
    )
}

/// One coordinate of a cubic curve at `t`.
fn cubic_axis<A: Fn(FloatOp, u32, u32, u32) -> u32>(
    f: &FloatUnit<A>,
    a: u32,
    c: u32,
    d: u32,
    b: u32,
    t: u32,
) -> (r: u32)
    requires
        f.steady(),
    ensures
        r == cubic_part(f.ops(), a, c, d, b, t),
{
    let v1: u32 = f.op(FloatOp::Sub, ONE, t, 0);
    let mt: u32 = v1;
    let v2: u32 = f.op(FloatOp::Mul, mt, mt, 0);
    let mt2: u32 = v2;
    let v3: u32 = f.op(FloatOp::Mul, t, t, 0);
    let t2: u32 = v3;
    let v4: u32 = f.op(FloatOp::Mul, t2, t, 0);
    let v5: u32 = f.op(FloatOp::Mul, THREE, mt, 0);
    let v6: u32 = f.op(FloatOp::Mul, v5, t2, 0);
    let v7: u32 = f.op(FloatOp::Mul, THREE, mt2, 0);
    let v8: u32 = f.op(FloatOp::Mul, v7, t, 0);
    let v9: u32 = f.op(FloatOp::Mul, mt2, mt, 0);
    let v10: u32 = f.op(FloatOp::Mul, v9, a, 0);
    let v11: u32 = f.op(FloatOp::MulAdd, v8, c, v10);
    let v12: u32 = f.op(FloatOp::MulAdd, v6, d, v11);
    let v13: u32 = f.op(FloatOp::MulAdd, v4, b, v12);
    v13
}

/// One coordinate of a conic at `t`.
pub open spec fn rational_part(f: Ops, a: u32, c: u32, b: u32, w: u32, t: u32) -> u32 {
    let mt = f(FloatOp::Sub, ONE, t, 0);
    let mt2 = f(FloatOp::Mul, mt, mt, 0);
    let t2 = f(FloatOp::Mul, t, t, 0);
    let wt = f(FloatOp::Mul, f(FloatOp::Mul, f(FloatOp::Mul, TWO, w, 0), mt, 0), t, 0);
    f(
        FloatOp::Div,
        f(
            FloatOp::MulAdd,
            t2,
            b,
            f(FloatOp::Add, f(FloatOp::Mul, mt2, a, 0), f(FloatOp::Mul, wt, c, 0), 0),
        ),
        f(FloatOp::Add, f(FloatOp::Add, mt2, wt, 0), t2, 0),
        0,
    )
}

/// One coordinate of a conic at `t`.
fn rational_axis<A: Fn(FloatOp, u32, u32, u32) -> u32>(
    f: &FloatUnit<A>,
    a: u32,
    c: u32,
    b: u32,
    w: u32,
    t: u32,
) -> (r: u32)
    requires
        f.steady(),
    ensures
        r == rational_part(f.ops(), a, c, b, w, t),
{
    let v1: u32 = f.op(FloatOp::Sub, ONE, t, 0);
    let mt: u32 = v1;
    let v2: u32 = f.op(FloatOp::Mul, mt, mt, 0);
    let mt2: u32 = v2;
    let v3: u32 = f.op(FloatOp::Mul, t, t, 0);
    let t2: u32 = v3;
    let v4: u32 = f.op(FloatOp::Mul, TWO, w, 0);
    let v5: u32 = f.op(FloatOp::Mul, v4, mt, 0);
    let v6: u32 = f.op(FloatOp::Mul, v5, t, 0);
    let wt: u32 = v6;
    let v7: u32 = f.op(FloatOp::Mul, mt2, a, 0);
    let v8: u32 = f.op(FloatOp::Mul, wt, c, 0);
    let v9: u32 = f.op(FloatOp::Add, v7, v8, 0);
    let v10: u32 = f.op(FloatOp::MulAdd, t2, b, v9);
    let v11: u32 = f.op(FloatOp::Add, mt2, wt, 0);
    let v12: u32 = f.op(FloatOp::Add, v11, t2, 0);
    let v13: u32 = f.op(FloatOp::Div, v10, v12, 0);
    v13
}

/// The point of a curve at `t`.
pub open spec fn curve_at(f: Ops, e: Edge, t: u32) -> Point {
    match e {
        Edge::Line(_, b) => b,
        Edge::Quad(a, c, b) => Point {
            x: quad_part(f, a.x, c.x, b.x, t),
            y: quad_part(f, a.y, c.y, b.y, t),
        },
        Edge::Conic(a, c, b, w) => Point {
            x: rational_part(f, a.x, c.x, b.x, w, t),
            y: rational_part(f, a.y, c.y, b.y, w, t),
        },
        Edge::Cubic(a, c, d, b) => Point {
            x: cubic_part(f, a.x, c.x, d.x, b.x, t),
            y: cubic_part(f, a.y, c.y, d.y, b.y, t),
        },
    }
}

/// The point of a curve at `t`.
fn eval_curve<A: Fn(FloatOp, u32, u32, u32) -> u32>(f: &FloatUnit<A>, e: Edge, t: u32) -> (r: Point)
    requires
        f.steady(),
    ensures
        r == curve_at(f.ops(), e, t),
{
    match e {
        Edge::Line(_, b) => b,
        Edge::Quad(a, c, b) => Point {
            x: quad_axis(f, a.x, c.x, b.x, t),
            y: quad_axis(f, a.y, c.y, b.y, t),
        },
        Edge::Conic(a, c, b, w) => Point {
            x: rational_axis(f, a.x, c.x, b.x, w, t),
            y: rational_axis(f, a.y, c.y, b.y, w, t),
        },
        Edge::Cubic(a, c, d, b) => Point {
            x: cubic_axis(f, a.x, c.x, d.x, b.x, t),
            y: cubic_axis(f, a.y, c.y, d.y, b.y, t),
        },
    }
}

/// How much a weight differs from one.
pub open spec fn weight_excess(f: Ops, w: u32) -> u32 {
    magnitude(f(FloatOp::Sub, w, ONE, 0)) as u32
}

/// A conic whose weight is nearly one counts as a quadratic curve.
pub open spec fn simplified(f: Ops, e: Edge) -> Edge {
    match e {
        Edge::Conic(a, c, b, w) => if float_lt(weight_excess(f, w), 0x3a83_126f) {
            Edge::Quad(a, c, b)
        } else {
            e
        },
        _ => e,
    }
}

/// The number of pieces that a curve is cut into: more where a control point
/// lies farther from the line through the ends, and for a conic where its
/// weight is farther from one.
pub open spec fn pieces(f: Ops, tol: u32, e: Edge) -> int {
    match e {
        Edge::Line(_, _) => 1,
        Edge::Quad(a, c, b) => piece_count(f, distance_to_line(f, c, a, b), tol, 1),
        Edge::Conic(a, c, b, w) => piece_count(
            f,
            f(
                FloatOp::Mul,
                distance_to_line(f, c, a, b),
                f(FloatOp::Add, ONE, float_min(weight_excess(f, w), FOUR), 0),
                0,
            ),
            tol,
            2,
        ),
        Edge::Cubic(a, c, d, b) => piece_count(
            f,
            float_max(distance_to_line(f, c, a, b), distance_to_line(f, d, a, b)),
            tol,
            1,
        ),
    }
}

/// The points of an edge, without the first, cut evenly.
pub open spec fn even_points(f: Ops, tol: u32, e: Edge) -> Seq<Point> {
    let s = simplified(f, e);
    let n = pieces(f, tol, s);
    Seq::new(
        n as nat,
        |i: int| curve_at(f, s, f(FloatOp::Div, float_of_int(i + 1), float_of_int(n), 0)),
    )
}

/// Simplifies a conic whose weight is nearly one.
fn simplify<A: Fn(FloatOp, u32, u32, u32) -> u32>(f: &FloatUnit<A>, e: Edge) -> (r: Edge)
    requires
        f.steady(),
    ensures
        r == simplified(f.ops(), e),
{
    match e {
        Edge::Conic(a, c, b, w) => {
            let d: u32 = f.op(FloatOp::Sub, w, ONE, 0);
            if bits_lt(d % 0x8000_0000, 0x3a83_126f) {
                Edge::Quad(a, c, b)
            } else {
                e
            }
        },
        _ => e,
    }
}

/// The number of pieces that a curve is cut into.
fn subdivisions<A: Fn(FloatOp, u32, u32, u32) -> u32>(f: &FloatUnit<A>, tol: u32, e: Edge) -> (r: u32)
    requires
        f.steady(),
    ensures
        r == pieces(f.ops(), tol, e),
        1 <= r <= MAX_POINTS_PER_CURVE,
{
    match e {
        Edge::Line(_, _) => 1,
        Edge::Quad(a, c, b) => {
            let d: u32 = point_to_line_distance(f, c, a, b);
            count_pieces(f, d, tol, 1)
        },
        Edge::Conic(a, c, b, w) => {
            let base: u32 = point_to_line_distance(f, c, a, b);
            let diff: u32 = f.op(FloatOp::Sub, w, ONE, 0);
            let amp: u32 = f.op(FloatOp::Add, ONE, bits_min(diff % 0x8000_0000, FOUR), 0);
            let d: u32 = f.op(FloatOp::Mul, base, amp, 0);
            count_pieces(f, d, tol, 2)
        },
        Edge::Cubic(a, c, d, b) => {
            let d1: u32 = point_to_line_distance(f, c, a, b);
            let d2: u32 = point_to_line_distance(f, d, a, b);
            count_pieces(f, bits_max(d1, d2), tol, 1)
        },
    }
}

/// The points of an edge, without the first, cut evenly.
pub fn cut_evenly<A: Fn(FloatOp, u32, u32, u32) -> u32>(
    f: &FloatUnit<A>,
    tol: u32,
    e: Edge,
) -> (r: Vec<Point>)
    requires
        f.steady(),
    ensures
        r@ == even_points(f.ops(), tol, e),
{
    let s = simplify(f, e);
    let n: u32 = subdivisions(f, tol, s);
    let ghost want = even_points(f.ops(), tol, e);
    let mut out: Vec<Point> = Vec::new();
    let mut i: u32 = 0;
    assert(out@ =~= want.take(0));
    while i < n
        invariant
            f.steady(),
            s == simplified(f.ops(), e),
            n == pieces(f.ops(), tol, s),
            n <= MAX_POINTS_PER_CURVE,
            want == even_points(f.ops(), tol, e),
            want.len() == n,
            i <= n,
            out@ == want.take(i as int),
        decreases n - i,
    {
        let t: u32 = f.op(FloatOp::Div, int_to_bits((i + 1) as i32), int_to_bits(n as i32), 0);
        out.push(eval_curve(f, s, t));
        assert(out@ =~= want.take(i + 1));
        i = i + 1;
    }
    assert(out@ =~= want);
    out
}

} // verus!
