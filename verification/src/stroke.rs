//! Strokes: the triangles and quadrilaterals along a contour.

use vstd::prelude::*;

use crate::arith::{FloatOp, FloatUnit, Ops};
use crate::curves::HALF;
use crate::float_bits::{
    ONE, bits_le, bits_lt, bits_neg, bits_to_natural, float_le, float_lt, magnitude,
    natural_of_float, negated,
};
use crate::geometry::Point;
use crate::outline::{
    JoinAt, StrokeCap, StrokeJoin, StrokeStyle, joins_of, segment, segment_count, stroke_joins,
    stroke_segments,
};

verus! {

/// The bit pattern of pi.
pub const PI: u32 = 0x4049_0fdb;

/// The bit pattern of twice pi.
pub const TWO_PI: u32 = 0x40c9_0fdb;

/// A piece of a stroke.
#[derive(Debug, Clone, Copy, PartialEq, Eq, Structural)]
pub enum Piece {
    /// A triangle.
    Tri(Point, Point, Point),
    /// A quadrilateral.
    Quad(Point, Point, Point, Point),
}

/// The vector from `b` to `a`.
pub open spec fn difference(f: Ops, a: Point, b: Point) -> Point {
    Point { x: f(FloatOp::Sub, a.x, b.x, 0), y: f(FloatOp::Sub, a.y, b.y, 0) }
}

/// The vector from `b` to `a`.
fn sub_points<A: Fn(FloatOp, u32, u32, u32) -> u32>(f: &FloatUnit<A>, a: Point, b: Point) -> (r: Point)
    requires
        f.steady(),
    ensures
        r == difference(f.ops(), a, b),
{
    let v1: u32 = f.op(FloatOp::Sub, a.x, b.x, 0);
    let v2: u32 = f.op(FloatOp::Sub, a.y, b.y, 0);
    Point { x: v1, y: v2 }
}

/// The square of the distance of two points.
pub open spec fn gap_of(f: Ops, a: Point, b: Point) -> u32 {
    let dx = f(FloatOp::Sub, a.x, b.x, 0);
    let dy = f(FloatOp::Sub, a.y, b.y, 0);
    f(FloatOp::MulAdd, dx, dx, f(FloatOp::Mul, dy, dy, 0))
}

/// The square of the distance of two points.
fn dist2<A: Fn(FloatOp, u32, u32, u32) -> u32>(f: &FloatUnit<A>, a: Point, b: Point) -> (r: u32)
    requires
        f.steady(),
    ensures
        r == gap_of(f.ops(), a, b),
{
    let v1: u32 = f.op(FloatOp::Sub, a.x, b.x, 0);
    let dx: u32 = v1;
    let v2: u32 = f.op(FloatOp::Sub, a.y, b.y, 0);
    let dy: u32 = v2;
    let v3: u32 = f.op(FloatOp::Mul, dy, dy, 0);
    let v4: u32 = f.op(FloatOp::MulAdd, dx, dx, v3);
    v4
}

/// The vector of length one in a direction; zero where there is no length.
pub open spec fn unit_of(f: Ops, v: Point) -> Point {
    let len = f(FloatOp::Hypot, v.x, v.y, 0);
    if float_lt(len, 0x2edb_e6ff) {
        Point { x: 0, y: 0 }
    } else {
        Point { x: f(FloatOp::Div, v.x, len, 0), y: f(FloatOp::Div, v.y, len, 0) }
    }
}

/// The vector of length one in a direction.
fn unit<A: Fn(FloatOp, u32, u32, u32) -> u32>(f: &FloatUnit<A>, v: Point) -> (r: Point)
    requires
        f.steady(),
    ensures
        r == unit_of(f.ops(), v),
{
    let len: u32 = f.op(FloatOp::Hypot, v.x, v.y, 0);
    if bits_lt(len, 0x2edb_e6ff) {
        Point { x: 0, y: 0 }
    } else {
        Point { x: f.op(FloatOp::Div, v.x, len, 0), y: f.op(FloatOp::Div, v.y, len, 0) }
    }
}

/// A direction turned to the left.
pub open spec fn turned_left(d: Point) -> Point {
    Point { x: negated(d.y), y: d.x }
}

/// A direction turned to the left.
fn left_normal(d: Point) -> (r: Point)
    ensures
        r == turned_left(d),
{
    Point { x: bits_neg(d.y), y: d.x }
}

/// A direction turned around.
pub open spec fn turned_around(d: Point) -> Point {
    Point { x: negated(d.x), y: negated(d.y) }
}

/// A point moved in a direction.
pub open spec fn moved(f: Ops, p: Point, dir: Point, amt: u32) -> Point {
    Point { x: f(FloatOp::MulAdd, dir.x, amt, p.x), y: f(FloatOp::MulAdd, dir.y, amt, p.y) }
}

/// A point moved in a direction.
fn offset<A: Fn(FloatOp, u32, u32, u32) -> u32>(
    f: &FloatUnit<A>,
    p: Point,
    dir: Point,
    amt: u32,
) -> (r: Point)
    requires
        f.steady(),
    ensures
        r == moved(f.ops(), p, dir, amt),
{
    let v1: u32 = f.op(FloatOp::MulAdd, dir.x, amt, p.x);
    let v2: u32 = f.op(FloatOp::MulAdd, dir.y, amt, p.y);
    Point { x: v1, y: v2 }
}

/// An angle brought between minus pi and pi.
pub open spec fn wrapped(f: Ops, angle: u32) -> u32 {
    f(
        FloatOp::Sub,
        angle,
        f(FloatOp::Mul, TWO_PI, f(FloatOp::Round, f(FloatOp::Div, angle, TWO_PI, 0), 0, 0), 0),
        0,
    )
}

/// An angle brought between minus pi and pi.
fn wrap_to_pi<A: Fn(FloatOp, u32, u32, u32) -> u32>(f: &FloatUnit<A>, angle: u32) -> (r: u32)
    requires
        f.steady(),
    ensures
        r == wrapped(f.ops(), angle),
{
    let v1: u32 = f.op(FloatOp::Div, angle, TWO_PI, 0);
    let v2: u32 = f.op(FloatOp::Round, v1, 0, 0);
    let v3: u32 = f.op(FloatOp::Mul, TWO_PI, v2, 0);
    let v4: u32 = f.op(FloatOp::Sub, angle, v3, 0);
    v4
}

/// The point of a circle at an angle.
pub open spec fn on_circle(f: Ops, v: Point, angle: u32, radius: u32) -> Point {
    Point {
        x: f(FloatOp::MulAdd, f(FloatOp::Cos, angle, 0, 0), radius, v.x),
        y: f(FloatOp::MulAdd, f(FloatOp::Sin, angle, 0, 0), radius, v.y),
    }
}

/// The point of a circle at an angle.
fn circle_point<A: Fn(FloatOp, u32, u32, u32) -> u32>(
    f: &FloatUnit<A>,
    v: Point,
    angle: u32,
    radius: u32,
) -> (r: Point)
    requires
        f.steady(),
    ensures
        r == on_circle(f.ops(), v, angle, radius),
{
    let v1: u32 = f.op(FloatOp::Cos, angle, 0, 0);
    let v2: u32 = f.op(FloatOp::MulAdd, v1, radius, v.x);
    let v3: u32 = f.op(FloatOp::Sin, angle, 0, 0);
    let v4: u32 = f.op(FloatOp::MulAdd, v3, radius, v.y);
    Point { x: v2, y: v4 }
}

/// The fraction of two natural numbers.
pub open spec fn share(f: Ops, i: u32, n: u32) -> u32 {
    f(FloatOp::Div, f(FloatOp::OfNatural, i, 0, 0), f(FloatOp::OfNatural, n, 0, 0), 0)
}

/// The fraction of two natural numbers.
fn share_of<A: Fn(FloatOp, u32, u32, u32) -> u32>(f: &FloatUnit<A>, i: u32, n: u32) -> (r: u32)
    requires
        f.steady(),
    ensures
        r == share(f.ops(), i, n),
{
    let v1: u32 = f.op(FloatOp::OfNatural, i, 0, 0);
    let v2: u32 = f.op(FloatOp::OfNatural, n, 0, 0);
    let v3: u32 = f.op(FloatOp::Div, v1, v2, 0);
    v3
}

/// The points of a contour without those that repeat the one before them.
pub open spec fn without_repeats(f: Ops, raw: Seq<Point>, n: nat) -> Seq<Point>
    decreases n,
{
    if n == 0 || n > raw.len() {
        Seq::empty()
    } else {
        let before = without_repeats(f, raw, (n - 1) as nat);
        if before.len() == 0 || float_lt(0x2b8c_bccc, gap_of(f, before.last(), raw[n - 1])) {
            before.push(raw[n - 1])
        } else {
            before
        }
    }
}

/// The points that a stroke runs along. The last point of a closed contour is
/// dropped where it repeats the first.
pub open spec fn stroke_points(f: Ops, raw: Seq<Point>, closed: bool) -> Seq<Point> {
    let pts = without_repeats(f, raw, raw.len());
    if closed && pts.len() > 1 && float_le(gap_of(f, pts[0], pts.last()), 0x2b8c_bccc) {
        pts.drop_last()
    } else {
        pts
    }
}

/// The points that a stroke runs along.
fn clean<A: Fn(FloatOp, u32, u32, u32) -> u32>(
    f: &FloatUnit<A>,
    raw: &Vec<Point>,
    closed: bool,
) -> (r: Vec<Point>)
    requires
        f.steady(),
    ensures
        r@ == stroke_points(f.ops(), raw@, closed),
{
    let mut pts: Vec<Point> = Vec::new();
    let mut i: usize = 0;
    while i < raw.len()
        invariant
            f.steady(),
            i <= raw@.len(),
            pts@ == without_repeats(f.ops(), raw@, i as nat),
        decreases raw@.len() - i,
    {
        let n: usize = pts.len();
        if n == 0 {
            pts.push(raw[i]);
        } else if bits_lt(0x2b8c_bccc, dist2(f, pts[n - 1], raw[i])) {
            pts.push(raw[i]);
        }
        i = i + 1;
    }
    let n: usize = pts.len();
    if closed && n > 1 && bits_le(dist2(f, pts[0], pts[n - 1]), 0x2b8c_bccc) {
        let ghost before = pts@;
        pts.pop();
        assert(pts@ =~= before.drop_last());
    }
    pts
}

/// The direction of segment `s`.
pub open spec fn direction(f: Ops, pts: Seq<Point>, s: int) -> Point {
    let (a, b) = segment(pts.len(), s);
    unit_of(f, difference(f, pts[b as int], pts[a as int]))
}

/// The quadrilateral along segment `s`.
pub open spec fn body(f: Ops, pts: Seq<Point>, hw: u32, s: int) -> Piece {
    let (a, b) = segment(pts.len(), s);
    let n = turned_left(direction(f, pts, s));
    Piece::Quad(
        moved(f, pts[a as int], n, hw),
        moved(f, pts[a as int], n, negated(hw)),
        moved(f, pts[b as int], n, negated(hw)),
        moved(f, pts[b as int], n, hw),
    )
}

/// The number of triangles on one side of a fan.
pub open spec fn fan_steps(f: Ops, delta: u32) -> u32 {
    let n = natural_of_float(
        f(FloatOp::Ceil, f(FloatOp::Div, magnitude(delta) as u32, 0x3ec9_0fdb, 0), 0, 0),
    );
    if n < 1 {
        1
    } else {
        n as u32
    }
}

/// The angle of a vector.
pub open spec fn angle_of(f: Ops, v: Point) -> u32 {
    f(FloatOp::Atan2, v.y, v.x, 0)
}

/// The first `k` pairs of triangles that round off a join, on both sides.
pub open spec fn fan_pieces(f: Ops, v: Point, a0: u32, delta: u32, hw: u32, n: u32, k: nat) -> Seq<
    Piece,
>
    decreases k,
{
    if k == 0 {
        Seq::empty()
    } else {
        let t0 = f(FloatOp::MulAdd, delta, share(f, (k - 1) as u32, n), a0);
        let t1 = f(FloatOp::MulAdd, delta, share(f, k as u32, n), a0);
        fan_pieces(f, v, a0, delta, hw, n, (k - 1) as nat) + seq![
            Piece::Tri(v, on_circle(f, v, t0, hw), on_circle(f, v, t1, hw)),
            Piece::Tri(v, on_circle(f, v, t1, negated(hw)), on_circle(f, v, t0, negated(hw))),
        ]
    }
}

/// The triangles that round off a join between two normals, the shorter way.
pub open spec fn round_join(f: Ops, v: Point, n0: Point, n1: Point, hw: u32) -> Seq<Piece> {
    let a0 = angle_of(f, n0);
    let delta = wrapped(f, f(FloatOp::Sub, angle_of(f, n1), a0, 0));
    let n = fan_steps(f, delta);
    fan_pieces(f, v, a0, delta, hw, n, n as nat)
}

/// The triangles that extend a join to a point; none beyond the miter limit.
pub open spec fn miter_join(f: Ops, v: Point, n0: Point, n1: Point, hw: u32, limit: u32) -> Seq<
    Piece,
> {
    let m = unit_of(
        f,
        Point { x: f(FloatOp::Add, n0.x, n1.x, 0), y: f(FloatOp::Add, n0.y, n1.y, 0) },
    );
    let cos = magnitude(f(FloatOp::MulAdd, m.x, n0.x, f(FloatOp::Mul, m.y, n0.y, 0))) as u32;
    let ratio = f(FloatOp::Div, ONE, cos, 0);
    if float_lt(0x38d1_b717, cos) && float_le(ratio, limit) {
        seq![
            Piece::Tri(
                moved(f, v, n0, hw),
                moved(f, v, m, f(FloatOp::Mul, hw, ratio, 0)),
                moved(f, v, n1, hw),
            ),
            Piece::Tri(
                moved(f, v, n0, negated(hw)),
                moved(f, v, m, f(FloatOp::Mul, negated(hw), ratio, 0)),
                moved(f, v, n1, negated(hw)),
            ),
        ]
    } else {
        Seq::empty()
    }
}

/// The triangles that fill a join. A join that does not turn needs none.
pub open spec fn join_pieces(
    f: Ops,
    v: Point,
    d_in: Point,
    d_out: Point,
    hw: u32,
    style: StrokeStyle,
) -> Seq<Piece> {
    let n0 = turned_left(d_in);
    let n1 = turned_left(d_out);
    let turn = f(
        FloatOp::MulAdd,
        d_in.x,
        d_out.y,
        negated(f(FloatOp::Mul, d_in.y, d_out.x, 0)),
    );
    if float_lt(magnitude(turn) as u32, 0x3089_705f) {
        Seq::empty()
    } else {
        let bevel = seq![
            Piece::Tri(v, moved(f, v, n0, hw), moved(f, v, n1, hw)),
            Piece::Tri(v, moved(f, v, n0, negated(hw)), moved(f, v, n1, negated(hw))),
        ];
        match style.join {
            StrokeJoin::Bevel => bevel,
            StrokeJoin::Round => bevel + round_join(f, v, n0, n1, hw),
            StrokeJoin::Miter => bevel + miter_join(f, v, n0, n1, hw, style.miter_limit),
        }
    }
}

/// The first `k` triangles of a round cap.
pub open spec fn cap_fan(f: Ops, p: Point, start: u32, sweep: u32, hw: u32, k: nat) -> Seq<Piece>
    decreases k,
{
    if k == 0 {
        Seq::empty()
    } else {
        let t0 = f(FloatOp::MulAdd, sweep, share(f, (k - 1) as u32, 8), start);
        let t1 = f(FloatOp::MulAdd, sweep, share(f, k as u32, 8), start);
        cap_fan(f, p, start, sweep, hw, (k - 1) as nat).push(
            Piece::Tri(p, on_circle(f, p, t0, hw), on_circle(f, p, t1, hw)),
        )
    }
}

/// The pieces of a cap at an end whose outward direction is `out`.
pub open spec fn cap_pieces(f: Ops, p: Point, out: Point, hw: u32, cap: StrokeCap) -> Seq<Piece> {
    let n = turned_left(out);
    match cap {
        StrokeCap::Butt => Seq::empty(),
        StrokeCap::Square => {
            let a = moved(f, p, n, hw);
            let b = moved(f, p, n, negated(hw));
            seq![Piece::Quad(a, b, moved(f, b, out, hw), moved(f, a, out, hw))]
        },
        StrokeCap::Round => {
            let start = angle_of(f, n);
            let d = wrapped(f, f(FloatOp::Sub, angle_of(f, out), start, 0));
            let sign = if float_le(0, d) {
                ONE
            } else {
                0xbf80_0000
            };
            cap_fan(f, p, start, f(FloatOp::Mul, sign, PI, 0), hw, 8)
        },
    }
}

/// The pieces of the first `k` joins.
pub open spec fn all_joins(
    f: Ops,
    pts: Seq<Point>,
    js: Seq<JoinAt>,
    hw: u32,
    style: StrokeStyle,
    k: nat,
) -> Seq<Piece>
    decreases k,
{
    if k == 0 || k > js.len() {
        Seq::empty()
    } else {
        let j = js[k - 1];
        all_joins(f, pts, js, hw, style, (k - 1) as nat) + join_pieces(
            f,
            pts[j.vertex as int],
            direction(f, pts, j.from as int),
            direction(f, pts, j.to as int),
            hw,
            style,
        )
    }
}

/// The pieces of a stroke along a contour: its segments, its joins, and where
/// it is open its caps.
pub open spec fn stroke_pieces(f: Ops, raw: Seq<Point>, style: StrokeStyle, closed: bool) -> Seq<
    Piece,
> {
    let hw = f(FloatOp::Mul, style.width, HALF, 0);
    let pts = stroke_points(f, raw, closed);
    let n = pts.len();
    if float_le(hw, 0) || n < 2 {
        Seq::empty()
    } else {
        let count = segment_count(n, closed);
        let js = joins_of(n, closed);
        let run = Seq::new(count, |s: int| body(f, pts, hw, s)) + all_joins(
            f,
            pts,
            js,
            hw,
            style,
            js.len(),
        );
        if closed {
            run
        } else {
            run + cap_pieces(f, pts[0], turned_around(direction(f, pts, 0)), hw, style.cap)
                + cap_pieces(f, pts[n - 1], direction(f, pts, count - 1), hw, style.cap)
        }
    }
}

/// The angle of a vector.
fn find_angle<A: Fn(FloatOp, u32, u32, u32) -> u32>(f: &FloatUnit<A>, v: Point) -> (r: u32)
    requires
        f.steady(),
    ensures
        r == angle_of(f.ops(), v),
{
    f.op(FloatOp::Atan2, v.y, v.x, 0)
}

/// Adds the triangles that round off a join.
fn emit_round_fan<A: Fn(FloatOp, u32, u32, u32) -> u32>(
    f: &FloatUnit<A>,
    out: &mut Vec<Piece>,
    v: Point,
    n0: Point,
    n1: Point,
    hw: u32,
)
    requires
        f.steady(),
    ensures
        final(out)@ == old(out)@ + round_join(f.ops(), v, n0, n1, hw),
{
    let a0: u32 = find_angle(f, n0);
    let a1: u32 = find_angle(f, n1);
    let d: u32 = f.op(FloatOp::Sub, a1, a0, 0);
    let delta: u32 = wrap_to_pi(f, d);
    let q: u32 = f.op(FloatOp::Div, delta % 0x8000_0000, 0x3ec9_0fdb, 0);
    let c: u32 = f.op(FloatOp::Ceil, q, 0, 0);
    let m: u32 = bits_to_natural(c);
    let n: u32 = if m < 1 {
        1
    } else {
        m
    };
    let ghost before = out@;
    let mut i: u32 = 0;
    assert(out@ =~= before + fan_pieces(f.ops(), v, a0, delta, hw, n, 0));
    while i < n
        invariant
            f.steady(),
            i <= n,
            out@ == before + fan_pieces(f.ops(), v, a0, delta, hw, n, i as nat),
        decreases n - i,
    {
        let s0: u32 = share_of(f, i, n);
        let s1: u32 = share_of(f, i + 1, n);
        let t0: u32 = f.op(FloatOp::MulAdd, delta, s0, a0);
        let t1: u32 = f.op(FloatOp::MulAdd, delta, s1, a0);
        let p0 = circle_point(f, v, t0, hw);
        let p1 = circle_point(f, v, t1, hw);
        out.push(Piece::Tri(v, p0, p1));
        let q0 = circle_point(f, v, t0, bits_neg(hw));
        let q1 = circle_point(f, v, t1, bits_neg(hw));
        out.push(Piece::Tri(v, q1, q0));
        assert(out@ =~= before + fan_pieces(f.ops(), v, a0, delta, hw, n, (i + 1) as nat));
        i = i + 1;
    }
}

/// Adds the triangles that extend a join to a point.
fn emit_miter<A: Fn(FloatOp, u32, u32, u32) -> u32>(
    f: &FloatUnit<A>,
    out: &mut Vec<Piece>,
    v: Point,
    n0: Point,
    n1: Point,
    hw: u32,
    limit: u32,
)
    requires
        f.steady(),
    ensures
        final(out)@ == old(out)@ + miter_join(f.ops(), v, n0, n1, hw, limit),
{
    let sum = Point {
        x: f.op(FloatOp::Add, n0.x, n1.x, 0),
        y: f.op(FloatOp::Add, n0.y, n1.y, 0),
    };
    let m = unit(f, sum);
    let my: u32 = f.op(FloatOp::Mul, m.y, n0.y, 0);
    let cos: u32 = f.op(FloatOp::MulAdd, m.x, n0.x, my) % 0x8000_0000;
    let ratio: u32 = f.op(FloatOp::Div, ONE, cos, 0);
    if bits_lt(0x38d1_b717, cos) && bits_le(ratio, limit) {
        let ahead: u32 = f.op(FloatOp::Mul, hw, ratio, 0);
        let behind: u32 = f.op(FloatOp::Mul, bits_neg(hw), ratio, 0);
        let a = offset(f, v, n0, hw);
        let tip = offset(f, v, m, ahead);
        let b = offset(f, v, n1, hw);
        out.push(Piece::Tri(a, tip, b));
        let c = offset(f, v, n0, bits_neg(hw));
        let back = offset(f, v, m, behind);
        let d = offset(f, v, n1, bits_neg(hw));
        out.push(Piece::Tri(c, back, d));
    }
    assert(out@ =~= old(out)@ + miter_join(f.ops(), v, n0, n1, hw, limit));
}

/// Adds the triangles that fill a join.
fn emit_join<A: Fn(FloatOp, u32, u32, u32) -> u32>(
    f: &FloatUnit<A>,
    out: &mut Vec<Piece>,
    v: Point,
    d_in: Point,
    d_out: Point,
    hw: u32,
    style: &StrokeStyle,
)
    requires
        f.steady(),
    ensures
        final(out)@ == old(out)@ + join_pieces(f.ops(), v, d_in, d_out, hw, *style),
{
    let n0 = left_normal(d_in);
    let n1 = left_normal(d_out);
    let back: u32 = f.op(FloatOp::Mul, d_in.y, d_out.x, 0);
    let turn: u32 = f.op(FloatOp::MulAdd, d_in.x, d_out.y, bits_neg(back));
    if bits_lt(turn % 0x8000_0000, 0x3089_705f) {
        assert(out@ =~= old(out)@ + Seq::<Piece>::empty());
        return;
    }
    let ghost before = out@;
    let a = offset(f, v, n0, hw);
    let b = offset(f, v, n1, hw);
    out.push(Piece::Tri(v, a, b));
    let c = offset(f, v, n0, bits_neg(hw));
    let d = offset(f, v, n1, bits_neg(hw));
    out.push(Piece::Tri(v, c, d));
    let ghost bevel = seq![Piece::Tri(v, a, b), Piece::Tri(v, c, d)];
    assert(out@ =~= before + bevel);
    match style.join {
        StrokeJoin::Bevel => {},
        StrokeJoin::Round => {
            emit_round_fan(f, out, v, n0, n1, hw);
            assert(out@ =~= before + (bevel + round_join(f.ops(), v, n0, n1, hw)));
        },
        StrokeJoin::Miter => {
            emit_miter(f, out, v, n0, n1, hw, style.miter_limit);
            assert(out@ =~= before + (bevel + miter_join(
                f.ops(),
                v,
                n0,
                n1,
                hw,
                style.miter_limit,
            )));
        },
    }
}

/// Adds the pieces of a cap.
fn emit_cap<A: Fn(FloatOp, u32, u32, u32) -> u32>(
    f: &FloatUnit<A>,
    out: &mut Vec<Piece>,
    p: Point,
    dir: Point,
    hw: u32,
    cap: StrokeCap,
)
    requires
        f.steady(),
    ensures
        final(out)@ == old(out)@ + cap_pieces(f.ops(), p, dir, hw, cap),
{
    let n = left_normal(dir);
    let ghost before = out@;
    match cap {
        StrokeCap::Butt => {
            assert(out@ =~= before + Seq::<Piece>::empty());
        },
        StrokeCap::Square => {
            let a = offset(f, p, n, hw);
            let b = offset(f, p, n, bits_neg(hw));
            let a2 = offset(f, a, dir, hw);
            let b2 = offset(f, b, dir, hw);
            out.push(Piece::Quad(a, b, b2, a2));
            assert(out@ =~= before + seq![Piece::Quad(a, b, b2, a2)]);
        },
        StrokeCap::Round => {
            let start: u32 = find_angle(f, n);
            let toward: u32 = find_angle(f, dir);
            let turn: u32 = f.op(FloatOp::Sub, toward, start, 0);
            let d: u32 = wrap_to_pi(f, turn);
            let sign: u32 = if bits_le(0, d) {
                ONE
            } else {
                0xbf80_0000
            };
            let sweep: u32 = f.op(FloatOp::Mul, sign, PI, 0);
            let mut i: u32 = 0;
            assert(out@ =~= before + cap_fan(f.ops(), p, start, sweep, hw, 0));
            while i < 8
                invariant
                    f.steady(),
                    i <= 8,
                    out@ == before + cap_fan(f.ops(), p, start, sweep, hw, i as nat),
                decreases 8 - i,
            {
                let s0: u32 = share_of(f, i, 8);
                let s1: u32 = share_of(f, i + 1, 8);
                let t0: u32 = f.op(FloatOp::MulAdd, sweep, s0, start);
                let t1: u32 = f.op(FloatOp::MulAdd, sweep, s1, start);
                let p0 = circle_point(f, p, t0, hw);
                let p1 = circle_point(f, p, t1, hw);
                out.push(Piece::Tri(p, p0, p1));
                assert(out@ =~= before + cap_fan(f.ops(), p, start, sweep, hw, (i + 1) as nat));
                i = i + 1;
            }
        },
    }
}

/// The directions of the segments.
fn directions<A: Fn(FloatOp, u32, u32, u32) -> u32>(
    f: &FloatUnit<A>,
    pts: &Vec<Point>,
    segs: &Vec<(usize, usize)>,
) -> (r: Vec<
    Point,
>)
    requires
        f.steady(),
        pts@.len() >= 2,
        segs@.len() <= pts@.len(),
        forall|s: int| 0 <= s < segs@.len() ==> #[trigger] segs@[s] == segment(pts@.len(), s),
    ensures
        r@.len() == segs@.len(),
        forall|s: int| 0 <= s < r@.len() ==> #[trigger] r@[s] == direction(f.ops(), pts@, s),
{
    let mut r: Vec<Point> = Vec::new();
    let mut s: usize = 0;
    while s < segs.len()
        invariant
            f.steady(),
            pts@.len() >= 2,
            segs@.len() <= pts@.len(),
            forall|s: int| 0 <= s < segs@.len() ==> #[trigger] segs@[s] == segment(pts@.len(), s),
            s <= segs@.len(),
            r@.len() == s,
            forall|k: int| 0 <= k < s ==> #[trigger] r@[k] == direction(f.ops(), pts@, k),
        decreases segs@.len() - s,
    {
        assert(segs@[s as int] == segment(pts@.len(), s as int));
        let (a, b) = segs[s];
        let n: usize = pts.len();
        assert(a < n && b < n);
        let d = sub_points(f, pts[b], pts[a]);
        r.push(unit(f, d));
        s = s + 1;
    }
    r
}

/// Adds the pieces of a stroke along a contour.
pub fn stroke_contour<A: Fn(FloatOp, u32, u32, u32) -> u32>(
    f: &FloatUnit<A>,
    raw: &Vec<Point>,
    style: &StrokeStyle,
    closed: bool,
    out: &mut Vec<Piece>,
)
    requires
        f.steady(),
    ensures
        final(out)@ == old(out)@ + stroke_pieces(f.ops(), raw@, *style, closed),
{
    let ghost ops = f.ops();
    let hw: u32 = f.op(FloatOp::Mul, style.width, HALF, 0);
    let pts = clean(f, raw, closed);
    let n: usize = pts.len();
    if bits_le(hw, 0) || n < 2 {
        assert(out@ =~= old(out)@ + Seq::<Piece>::empty());
        return;
    }
    let ghost before = out@;
    let segs = stroke_segments(n, closed);
    let dirs = directions(f, &pts, &segs);
    let ghost bodies = Seq::new(
        segment_count(n as nat, closed),
        |s: int| body(ops, pts@, hw, s),
    );
    let mut s: usize = 0;
    assert(out@ =~= before + bodies.take(0));
    while s < segs.len()
        invariant
            f.steady(),
            ops == f.ops(),
            n == pts@.len(),
            n >= 2,
            segs@ == Seq::new(segment_count(n as nat, closed), |s: int| segment(n as nat, s)),
            segs@.len() == bodies.len(),
            dirs@.len() == segs@.len(),
            forall|k: int| 0 <= k < dirs@.len() ==> #[trigger] dirs@[k] == direction(ops, pts@, k),
            bodies == Seq::new(
                segment_count(n as nat, closed),
                |s: int| body(ops, pts@, hw, s),
            ),
            s <= segs@.len(),
            out@ == before + bodies.take(s as int),
        decreases segs@.len() - s,
    {
        assert(segs@[s as int] == segment(n as nat, s as int));
        let (ia, ib) = segs[s];
        assert(ia < n && ib < n);
        let a = pts[ia];
        let b = pts[ib];
        let nrm = left_normal(dirs[s]);
        let p0 = offset(f, a, nrm, hw);
        let p1 = offset(f, a, nrm, bits_neg(hw));
        let p2 = offset(f, b, nrm, bits_neg(hw));
        let p3 = offset(f, b, nrm, hw);
        out.push(Piece::Quad(p0, p1, p2, p3));
        assert(out@.last() == bodies[s as int]);
        assert(out@ =~= before + bodies.take(s + 1));
        s = s + 1;
    }
    assert(bodies.take(s as int) =~= bodies);
    let ghost mid = out@;
    let js = stroke_joins(n, closed);
    let mut k: usize = 0;
    assert(out@ =~= mid + all_joins(ops, pts@, js@, hw, *style, 0));
    while k < js.len()
        invariant
            f.steady(),
            ops == f.ops(),
            n == pts@.len(),
            n >= 2,
            js@ == joins_of(n as nat, closed),
            dirs@.len() == segment_count(n as nat, closed),
            forall|k: int| 0 <= k < dirs@.len() ==> #[trigger] dirs@[k] == direction(ops, pts@, k),
            k <= js@.len(),
            out@ == mid + all_joins(ops, pts@, js@, hw, *style, k as nat),
        decreases js@.len() - k,
    {
        let j = js[k];
        proof {
            crate::outline::joins_meet_segments(n as nat, closed, k as int);
        }
        assert(j.vertex < n);
        let ghost here = out@;
        emit_join(f, out, pts[j.vertex], dirs[j.from], dirs[j.to], hw, style);
        assert(out@ =~= mid + all_joins(ops, pts@, js@, hw, *style, (k + 1) as nat));
        k = k + 1;
    }
    let ghost run = bodies + all_joins(ops, pts@, js@, hw, *style, js@.len());
    assert(out@ =~= before + run);
    if !closed {
        let first = Point { x: bits_neg(dirs[0].x), y: bits_neg(dirs[0].y) };
        emit_cap(f, out, pts[0], first, hw, style.cap);
        let last: usize = dirs.len() - 1;
        emit_cap(f, out, pts[n - 1], dirs[last], hw, style.cap);
    }
    assert(out@ =~= before + stroke_pieces(ops, raw@, *style, closed));
}

} // verus!
