//! Curves cut into lines for boolean operations, by halving them until they are
//! flat.

use vstd::prelude::*;

use crate::arith::{FloatOp, FloatUnit, Ops};
use crate::curves::{adaptive_points, cut_adaptively};
use crate::float_bits::{bits_lt, bits_max, bits_neg, float_lt, float_max, magnitude, negated};
use crate::geometry::Point;
use crate::outline::Flat;
use crate::path_edges::Edge;

verus! {

/// The distance of a point from the line through two others, or from the first
/// of them where they are at the same place.
pub open spec fn line_distance(f: Ops, p: Point, a: Point, b: Point) -> u32 {
    let dx = f(FloatOp::Sub, b.x, a.x, 0);
    let dy = f(FloatOp::Sub, b.y, a.y, 0);
    let px = f(FloatOp::Sub, p.x, a.x, 0);
    let py = f(FloatOp::Sub, p.y, a.y, 0);
    let square = f(FloatOp::MulAdd, dx, dx, f(FloatOp::Mul, dy, dy, 0));
    if float_lt(square, 0x2edb_e6ff) {
        f(FloatOp::Hypot, px, py, 0)
    } else {
        let cross = f(FloatOp::MulAdd, px, dy, negated(f(FloatOp::Mul, py, dx, 0)));
        f(FloatOp::Div, magnitude(cross) as u32, f(FloatOp::Sqrt, square, 0, 0), 0)
    }
}

/// The point halfway between two others.
pub open spec fn halfway(f: Ops, a: Point, b: Point) -> Point {
    Point {
        x: f(FloatOp::Blend, a.x, b.x, 0x3f00_0000),
        y: f(FloatOp::Blend, a.y, b.y, 0x3f00_0000),
    }
}

/// The points of a quadratic curve, without the first; none if it is not flat
/// after `depth` halvings.
pub open spec fn flat_quad(
    f: Ops,
    a: Point,
    c: Point,
    b: Point,
    tolerance: u32,
    depth: nat,
) -> Option<Seq<Point>>
    decreases depth,
{
    if float_lt(line_distance(f, c, a, b), tolerance) {
        Some(seq![b])
    } else if depth == 0 {
        None
    } else {
        let p = halfway(f, a, c);
        let q = halfway(f, c, b);
        let m = halfway(f, p, q);
        match (
            flat_quad(f, a, p, m, tolerance, (depth - 1) as nat),
            flat_quad(f, m, q, b, tolerance, (depth - 1) as nat),
        ) {
            (Some(x), Some(y)) => Some(x + y),
            _ => None,
        }
    }
}

/// The points of a cubic curve, without the first; none if it is not flat after
/// `depth` halvings.
pub open spec fn flat_cubic(
    f: Ops,
    a: Point,
    c: Point,
    d: Point,
    b: Point,
    tolerance: u32,
    depth: nat,
) -> Option<Seq<Point>>
    decreases depth,
{
    if float_lt(float_max(line_distance(f, c, a, b), line_distance(f, d, a, b)), tolerance) {
        Some(seq![b])
    } else if depth == 0 {
        None
    } else {
        let p = halfway(f, a, c);
        let q = halfway(f, c, d);
        let r = halfway(f, d, b);
        let s = halfway(f, p, q);
        let t = halfway(f, q, r);
        let m = halfway(f, s, t);
        match (
            flat_cubic(f, a, p, s, m, tolerance, (depth - 1) as nat),
            flat_cubic(f, m, t, r, b, tolerance, (depth - 1) as nat),
        ) {
            (Some(x), Some(y)) => Some(x + y),
            _ => None,
        }
    }
}

/// The distance of a point from a line.
fn distance_to_line<A: Fn(FloatOp, u32, u32, u32) -> u32>(
    f: &FloatUnit<A>,
    p: Point,
    a: Point,
    b: Point,
) -> (r: u32)
    requires
        f.steady(),
    ensures
        r == line_distance(f.ops(), p, a, b),
{
    let dx: u32 = f.op(FloatOp::Sub, b.x, a.x, 0);
    let dy: u32 = f.op(FloatOp::Sub, b.y, a.y, 0);
    let px: u32 = f.op(FloatOp::Sub, p.x, a.x, 0);
    let py: u32 = f.op(FloatOp::Sub, p.y, a.y, 0);
    let yy: u32 = f.op(FloatOp::Mul, dy, dy, 0);
    let square: u32 = f.op(FloatOp::MulAdd, dx, dx, yy);
    if bits_lt(square, 0x2edb_e6ff) {
        f.op(FloatOp::Hypot, px, py, 0)
    } else {
        let back: u32 = f.op(FloatOp::Mul, py, dx, 0);
        let cross: u32 = f.op(FloatOp::MulAdd, px, dy, bits_neg(back));
        let root: u32 = f.op(FloatOp::Sqrt, square, 0, 0);
        f.op(FloatOp::Div, cross % 0x8000_0000, root, 0)
    }
}

/// The point halfway between two others.
fn middle<A: Fn(FloatOp, u32, u32, u32) -> u32>(f: &FloatUnit<A>, a: Point, b: Point) -> (r: Point)
    requires
        f.steady(),
    ensures
        r == halfway(f.ops(), a, b),
{
    Point {
        x: f.op(FloatOp::Blend, a.x, b.x, 0x3f00_0000),
        y: f.op(FloatOp::Blend, a.y, b.y, 0x3f00_0000),
    }
}

/// Appends the points of a quadratic curve, without the first. The result tells
/// whether it is flat after `depth` halvings.
pub fn linearize_quad<A: Fn(FloatOp, u32, u32, u32) -> u32>(
    f: &FloatUnit<A>,
    out: &mut Vec<Point>,
    p0: Point,
    p1: Point,
    p2: Point,
    tolerance: u32,
    depth: u32,
) -> (ok: bool)
    requires
        f.steady(),
    ensures
        match flat_quad(f.ops(), p0, p1, p2, tolerance, depth as nat) {
            Some(ps) => ok && final(out)@ == old(out)@ + ps,
            None => !ok,
        },
    decreases depth,
{
    let d: u32 = distance_to_line(f, p1, p0, p2);
    if bits_lt(d, tolerance) {
        out.push(p2);
        assert(out@ =~= old(out)@ + seq![p2]);
        return true;
    }
    if depth == 0 {
        return false;
    }
    let q0 = middle(f, p0, p1);
    let q1 = middle(f, p1, p2);
    let r = middle(f, q0, q1);
    if !linearize_quad(f, out, p0, q0, r, tolerance, depth - 1) {
        return false;
    }
    let ok = linearize_quad(f, out, r, q1, p2, tolerance, depth - 1);
    assert(ok ==> out@ =~= old(out)@ + flat_quad(
        f.ops(),
        p0,
        p1,
        p2,
        tolerance,
        depth as nat,
    )->0);
    ok
}

/// Appends the points of a cubic curve, without the first. The result tells
/// whether it is flat after `depth` halvings.
pub fn linearize_cubic<A: Fn(FloatOp, u32, u32, u32) -> u32>(
    f: &FloatUnit<A>,
    out: &mut Vec<Point>,
    p0: Point,
    p1: Point,
    p2: Point,
    p3: Point,
    tolerance: u32,
    depth: u32,
) -> (ok: bool)
    requires
        f.steady(),
    ensures
        match flat_cubic(f.ops(), p0, p1, p2, p3, tolerance, depth as nat) {
            Some(ps) => ok && final(out)@ == old(out)@ + ps,
            None => !ok,
        },
    decreases depth,
{
    let d1: u32 = distance_to_line(f, p1, p0, p3);
    let d2: u32 = distance_to_line(f, p2, p0, p3);
    if bits_lt(bits_max(d1, d2), tolerance) {
        out.push(p3);
        assert(out@ =~= old(out)@ + seq![p3]);
        return true;
    }
    if depth == 0 {
        return false;
    }
    let q0 = middle(f, p0, p1);
    let q1 = middle(f, p1, p2);
    let q2 = middle(f, p2, p3);
    let r0 = middle(f, q0, q1);
    let r1 = middle(f, q1, q2);
    let s = middle(f, r0, r1);
    if !linearize_cubic(f, out, p0, q0, r0, s, tolerance, depth - 1) {
        return false;
    }
    let ok = linearize_cubic(f, out, s, r1, q2, p3, tolerance, depth - 1);
    assert(ok ==> out@ =~= old(out)@ + flat_cubic(
        f.ops(),
        p0,
        p1,
        p2,
        p3,
        tolerance,
        depth as nat,
    )->0);
    ok
}

/// A quadratic curve that is flat after some halvings has the same points
/// whatever more are allowed, and they end where it ends.
pub proof fn deeper_quads_are_the_same(
    f: Ops,
    a: Point,
    c: Point,
    b: Point,
    tolerance: u32,
    depth: nat,
    more: nat,
)
    requires
        depth <= more,
        flat_quad(f, a, c, b, tolerance, depth) is Some,
    ensures
        flat_quad(f, a, c, b, tolerance, more) == flat_quad(f, a, c, b, tolerance, depth),
        flat_quad(f, a, c, b, tolerance, depth)->0.len() > 0,
        flat_quad(f, a, c, b, tolerance, depth)->0.last() == b,
    decreases depth,
{
    if !float_lt(line_distance(f, c, a, b), tolerance) {
        let p = halfway(f, a, c);
        let q = halfway(f, c, b);
        let m = halfway(f, p, q);
        deeper_quads_are_the_same(f, a, p, m, tolerance, (depth - 1) as nat, (more - 1) as nat);
        deeper_quads_are_the_same(f, m, q, b, tolerance, (depth - 1) as nat, (more - 1) as nat);
    }
}

/// A cubic curve that is flat after some halvings has the same points whatever
/// more are allowed, and they end where it ends.
pub proof fn deeper_cubics_are_the_same(
    f: Ops,
    a: Point,
    c: Point,
    d: Point,
    b: Point,
    tolerance: u32,
    depth: nat,
    more: nat,
)
    requires
        depth <= more,
        flat_cubic(f, a, c, d, b, tolerance, depth) is Some,
    ensures
        flat_cubic(f, a, c, d, b, tolerance, more) == flat_cubic(
            f,
            a,
            c,
            d,
            b,
            tolerance,
            depth,
        ),
        flat_cubic(f, a, c, d, b, tolerance, depth)->0.len() > 0,
        flat_cubic(f, a, c, d, b, tolerance, depth)->0.last() == b,
    decreases depth,
{
    if !float_lt(
        float_max(line_distance(f, c, a, b), line_distance(f, d, a, b)),
        tolerance,
    ) {
        let p = halfway(f, a, c);
        let q = halfway(f, c, d);
        let r = halfway(f, d, b);
        let s = halfway(f, p, q);
        let t = halfway(f, q, r);
        let m = halfway(f, s, t);
        deeper_cubics_are_the_same(f, a, p, s, m, tolerance, (depth - 1) as nat, (more - 1) as nat);
        deeper_cubics_are_the_same(f, m, t, r, b, tolerance, (depth - 1) as nat, (more - 1) as nat);
    }
}

/// The points of an edge, without the first; none if it is not flat after
/// `depth` halvings. Conics are cut adaptively.
pub open spec fn flat_edge(f: Ops, e: Edge, tolerance: u32, depth: nat) -> Option<Seq<Point>> {
    match e {
        Edge::Line(_, b) => Some(seq![b]),
        Edge::Quad(a, c, b) => flat_quad(f, a, c, b, tolerance, depth),
        Edge::Conic(_, _, _, _) => Some(adaptive_points(f, tolerance, e)),
        Edge::Cubic(a, c, d, b) => flat_cubic(f, a, c, d, b, tolerance, depth),
    }
}

/// The points of an edge, without the first, if it is flat after `depth`
/// halvings.
pub fn flatten_edge<A: Fn(FloatOp, u32, u32, u32) -> u32>(
    f: &FloatUnit<A>,
    edge: Edge,
    tolerance: u32,
    depth: u32,
) -> (r: Option<Vec<Point>>)
    requires
        f.steady(),
    ensures
        match flat_edge(f.ops(), edge, tolerance, depth as nat) {
            Some(ps) => r is Some && r->0@ == ps,
            None => r is None,
        },
{
    let mut out: Vec<Point> = Vec::new();
    let ok = match edge {
        Edge::Line(_, b) => {
            out.push(b);
            assert(out@ =~= seq![b]);
            true
        },
        Edge::Quad(a, c, b) => linearize_quad(f, &mut out, a, c, b, tolerance, depth),
        Edge::Conic(_, _, _, _) => {
            return Some(cut_adaptively(f, tolerance, edge));
        },
        Edge::Cubic(a, c, d, b) => linearize_cubic(f, &mut out, a, c, d, b, tolerance, depth),
    };
    if ok {
        assert(out@ =~= flat_edge(f.ops(), edge, tolerance, depth as nat)->0);
        Some(out)
    } else {
        None
    }
}

/// How often a curve is halved at most. The deviation of a curve from a line
/// falls to a quarter each time, so that only curves with coordinates that are
/// not numbers, or too large to have a half, are not flat by then.
pub const MAX_HALVINGS: u32 = 128;

/// Where an edge ends.
pub open spec fn edge_end(e: Edge) -> Point {
    match e {
        Edge::Line(_, b) => b,
        Edge::Quad(_, _, b) => b,
        Edge::Conic(_, _, b, _) => b,
        Edge::Cubic(_, _, _, b) => b,
    }
}

/// The points of edges that are halved until they are flat. One that never is
/// counts as a line.
pub open spec fn by_halves(f: Ops, tolerance: u32) -> Flat {
    |e: Edge|
        match flat_edge(f, e, tolerance, MAX_HALVINGS as nat) {
            Some(ps) => ps,
            None => seq![edge_end(e)],
        }
}

/// The points of an edge that is halved until it is flat.
pub fn cut_by_halves<A: Fn(FloatOp, u32, u32, u32) -> u32>(
    f: &FloatUnit<A>,
    edge: Edge,
    tolerance: u32,
) -> (r: Vec<Point>)
    requires
        f.steady(),
    ensures
        r@ == by_halves(f.ops(), tolerance)(edge),
{
    match flatten_edge(f, edge, tolerance, MAX_HALVINGS) {
        Some(r) => r,
        None => {
            let mut r: Vec<Point> = Vec::new();
            r.push(
                match edge {
                    Edge::Line(_, b) => b,
                    Edge::Quad(_, _, b) => b,
                    Edge::Conic(_, _, b, _) => b,
                    Edge::Cubic(_, _, _, b) => b,
                },
            );
            assert(r@ =~= seq![edge_end(edge)]);
            r
        },
    }
}

} // verus!
