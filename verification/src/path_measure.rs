//! The length of a path, what it covers, and whether it holds a point.

use vstd::prelude::*;

use crate::arith::{FloatOp, FloatUnit, Ops};
use crate::curves::{FOUR, THREE, TWO, adaptive_points, cut_adaptively};
use crate::float_bits::{
    ONE, bits_eq, bits_finite, bits_le, bits_lt, bits_neg, float_eq, float_le, float_lt, is_finite,
    magnitude, negated,
};
use crate::geometry::{Point, Rect};
use crate::path::{Path, PathElement, PathModel, bounds_of, empty_rect};
use crate::path_edges::{
    AxisValue, Crossing, Edge, contains_inclusive, covered_rect, crossing, crossing_of, edges_of,
    filled, holds_point, is_filled, pen_point, values_of,
};

verus! {

/// A line from one point to another.
#[derive(Debug, Clone, Copy, PartialEq, Eq, Structural)]
pub struct Line {
    /// Where it starts.
    pub from: Point,
    /// Where it ends.
    pub to: Point,
}

/// The start of an edge.
pub open spec fn start_of(e: Edge) -> Point {
    match e {
        Edge::Line(a, _) => a,
        Edge::Quad(a, _, _) => a,
        Edge::Conic(a, _, _, _) => a,
        Edge::Cubic(a, _, _, _) => a,
    }
}

/// The start of an edge.
fn edge_start(e: Edge) -> (p: Point)
    ensures
        p == start_of(e),
{
    match e {
        Edge::Line(a, _) => a,
        Edge::Quad(a, _, _) => a,
        Edge::Conic(a, _, _, _) => a,
        Edge::Cubic(a, _, _, _) => a,
    }
}

/// The lines through points, starting at `from`.
pub open spec fn lines_through(from: Point, ps: Seq<Point>) -> Seq<Line> {
    Seq::new(
        ps.len(),
        |i: int|
            Line {
                from: if i == 0 {
                    from
                } else {
                    ps[i - 1]
                },
                to: ps[i],
            },
    )
}

/// The lines that the first `k` edges are cut into.
pub open spec fn lines_of(f: Ops, tol: u32, es: Seq<Edge>, k: nat) -> Seq<Line>
    decreases k,
{
    if k == 0 || k > es.len() {
        Seq::empty()
    } else {
        lines_of(f, tol, es, (k - 1) as nat) + lines_through(
            start_of(es[k - 1]),
            adaptive_points(f, tol, es[k - 1]),
        )
    }
}

impl Path {
    /// The lines that the edges of the path are cut into.
    fn lines<A: Fn(FloatOp, u32, u32, u32) -> u32>(
        &self,
        f: &FloatUnit<A>,
        tol: u32,
        fill: bool,
    ) -> (r: Vec<Line>)
        requires
            f.steady(),
        ensures
            r@ == lines_of(f.ops(), tol, edges_of(self@, fill), edges_of(self@, fill).len()),
    {
        let es = self.edges(fill);
        let mut out: Vec<Line> = Vec::new();
        assert(out@ =~= Seq::empty());
        let mut k: usize = 0;
        while k < es.len()
            invariant
                f.steady(),
                k <= es@.len(),
                out@ == lines_of(f.ops(), tol, es@, k as nat),
            decreases es@.len() - k,
        {
            let ps = cut_adaptively(f, tol, es[k]);
            let start = edge_start(es[k]);
            let mut from = start;
            let ghost before = out@;
            let ghost through = lines_through(start, ps@);
            let mut i: usize = 0;
            assert(out@ =~= before + through.take(0));
            while i < ps.len()
                invariant
                    through == lines_through(start, ps@),
                    i <= ps@.len(),
                    from == (if i == 0 {
                        start
                    } else {
                        ps@[i - 1]
                    }),
                    out@ == before + through.take(i as int),
                decreases ps@.len() - i,
            {
                out.push(Line { from, to: ps[i] });
                assert(out@ =~= before + through.take(i + 1));
                from = ps[i];
                i = i + 1;
            }
            assert(through.take(i as int) =~= through);
            k = k + 1;
        }
        out
    }
}

// ---------------------------------------------------------------------------
// Length
// ---------------------------------------------------------------------------

/// The sum of the lengths of the first `n` lines.
pub open spec fn length_sum(f: Ops, ls: Seq<Line>, n: nat) -> u32
    decreases n,
{
    if n == 0 {
        0
    } else {
        let l = ls[n - 1];
        f(
            FloatOp::Add,
            length_sum(f, ls, (n - 1) as nat),
            f(
                FloatOp::Hypot,
                f(FloatOp::Sub, l.to.x, l.from.x, 0),
                f(FloatOp::Sub, l.to.y, l.from.y, 0),
                0,
            ),
            0,
        )
    }
}

/// The length of a path. Contours count as closed only where they say so.
pub open spec fn path_length(f: Ops, m: PathModel) -> u32 {
    let ls = lines_of(f, 0x3e80_0000, edges_of(m, false), edges_of(m, false).len());
    length_sum(f, ls, ls.len())
}

impl Path {
    /// The length of the path.
    pub fn length<A: Fn(FloatOp, u32, u32, u32) -> u32>(&self, f: &FloatUnit<A>) -> (r: u32)
        requires
            f.steady(),
        ensures
            r == path_length(f.ops(), self@),
    {
        let ls = self.lines(f, 0x3e80_0000, false);
        let mut total: u32 = 0;
        let mut i: usize = 0;
        while i < ls.len()
            invariant
                f.steady(),
                i <= ls@.len(),
                total == length_sum(f.ops(), ls@, i as nat),
            decreases ls@.len() - i,
        {
            let dx: u32 = f.op(FloatOp::Sub, ls[i].to.x, ls[i].from.x, 0);
            let dy: u32 = f.op(FloatOp::Sub, ls[i].to.y, ls[i].from.y, 0);
            let d: u32 = f.op(FloatOp::Hypot, dx, dy, 0);
            total = f.op(FloatOp::Add, total, d, 0);
            i = i + 1;
        }
        total
    }
}

// ---------------------------------------------------------------------------
// Hit tests
// ---------------------------------------------------------------------------

/// Whether `b` lies between `a` and `c`.
pub open spec fn lies_between(f: Ops, a: u32, b: u32, c: u32) -> bool {
    float_le(
        f(FloatOp::Mul, f(FloatOp::Sub, a, b, 0), f(FloatOp::Sub, c, b, 0), 0),
        0,
    )
}

/// The sign of a number.
pub open spec fn sign_of(x: u32) -> int {
    if float_lt(x, 0) {
        -1
    } else if float_lt(0, x) {
        1
    } else {
        0
    }
}

/// What a line adds to the winding number around a point, and whether the
/// point lies on it.
pub open spec fn winding_of(f: Ops, l: Line, p: Point) -> (int, bool) {
    let a = l.from;
    let b = l.to;
    match crossing(a, b, p) {
        Crossing::Apart => (0, false),
        Crossing::Level => (0, lies_between(f, a.x, p.x, b.x) && !float_eq(p.x, b.x)),
        Crossing::AtStart => (0, true),
        Crossing::Across(dir) => {
            let cross = f(
                FloatOp::MulAdd,
                f(FloatOp::Sub, b.x, a.x, 0),
                f(FloatOp::Sub, p.y, a.y, 0),
                negated(
                    f(
                        FloatOp::Mul,
                        f(FloatOp::Sub, b.y, a.y, 0),
                        f(FloatOp::Sub, p.x, a.x, 0),
                        0,
                    ),
                ),
            );
            if float_eq(cross, 0) {
                (0, !float_eq(p.x, b.x) || !float_eq(p.y, b.y))
            } else if sign_of(cross) == dir {
                (0, false)
            } else {
                (dir as int, false)
            }
        },
    }
}

/// The winding number of the first `n` lines around a point, and the number of
/// them it lies on.
pub open spec fn winding_sum(f: Ops, ls: Seq<Line>, p: Point, n: nat) -> (int, int)
    decreases n,
{
    if n == 0 {
        (0, 0)
    } else {
        let (w, on) = winding_sum(f, ls, p, (n - 1) as nat);
        let (d, hit) = winding_of(f, ls[n - 1], p);
        (
            w + d,
            on + if hit {
                1int
            } else {
                0
            },
        )
    }
}

/// Whether a path holds a point: its fill rule decides, with every contour
/// closed. A point outside the bounds is held only by an inverse fill.
pub open spec fn holds_in_path(f: Ops, m: PathModel, p: Point) -> bool {
    let b = bounds_of(m.points);
    if m.verbs.len() == 0 || b == empty_rect() || !holds_point(b, p) {
        m.fill.inverted()
    } else {
        let ls = lines_of(f, 0x3dcc_cccd, edges_of(m, true), edges_of(m, true).len());
        let (w, on) = winding_sum(f, ls, p, ls.len());
        filled(m.fill, w, on)
    }
}

/// What a line adds to the winding number around a point.
fn winding_line<A: Fn(FloatOp, u32, u32, u32) -> u32>(f: &FloatUnit<A>, l: Line, p: Point) -> (r: (
    i8,
    bool,
))
    requires
        f.steady(),
    ensures
        r.0 == winding_of(f.ops(), l, p).0,
        r.1 == winding_of(f.ops(), l, p).1,
        -1 <= r.0 <= 1,
{
    let a = l.from;
    let b = l.to;
    match crossing_of(a, b, p) {
        Crossing::Apart => (0, false),
        Crossing::Level => {
            let left: u32 = f.op(FloatOp::Sub, a.x, p.x, 0);
            let right: u32 = f.op(FloatOp::Sub, b.x, p.x, 0);
            let m: u32 = f.op(FloatOp::Mul, left, right, 0);
            (0, bits_le(m, 0) && !bits_eq(p.x, b.x))
        },
        Crossing::AtStart => (0, true),
        Crossing::Across(dir) => {
            let bx: u32 = f.op(FloatOp::Sub, b.x, a.x, 0);
            let py: u32 = f.op(FloatOp::Sub, p.y, a.y, 0);
            let by: u32 = f.op(FloatOp::Sub, b.y, a.y, 0);
            let px: u32 = f.op(FloatOp::Sub, p.x, a.x, 0);
            let back: u32 = f.op(FloatOp::Mul, by, px, 0);
            let cross: u32 = f.op(FloatOp::MulAdd, bx, py, bits_neg(back));
            let sign: i8 = if bits_lt(cross, 0) {
                -1
            } else if bits_lt(0, cross) {
                1
            } else {
                0
            };
            if bits_eq(cross, 0) {
                (0, !bits_eq(p.x, b.x) || !bits_eq(p.y, b.y))
            } else if sign == dir {
                (0, false)
            } else {
                (dir, false)
            }
        },
    }
}

impl Path {
    /// Whether the path holds a point.
    pub fn contains<A: Fn(FloatOp, u32, u32, u32) -> u32>(&self, f: &FloatUnit<A>, p: Point) -> (r:
        bool)
        requires
            f.steady(),
        ensures
            r == holds_in_path(f.ops(), self@, p),
    {
        let fill = self.fill_type();
        if self.is_empty() {
            return fill.is_inverse();
        }
        let b = self.bounds();
        let none = Rect { left: 0, top: 0, right: 0, bottom: 0 };
        if b == none || !contains_inclusive(&b, p) {
            return fill.is_inverse();
        }
        let ls = self.lines(f, 0x3dcc_cccd, true);
        let mut w: i128 = 0;
        let mut on: u128 = 0;
        let mut i: usize = 0;
        while i < ls.len()
            invariant
                f.steady(),
                i <= ls@.len(),
                -(i as int) <= w <= i,
                on <= i,
                w == winding_sum(f.ops(), ls@, p, i as nat).0,
                on == winding_sum(f.ops(), ls@, p, i as nat).1,
            decreases ls@.len() - i,
        {
            let (d, hit) = winding_line(f, ls[i], p);
            w = w + d as i128;
            if hit {
                on = on + 1;
            }
            i = i + 1;
        }
        is_filled(fill, w, on)
    }
}

// ---------------------------------------------------------------------------
// Tight bounds
// ---------------------------------------------------------------------------

/// One coordinate of a quadratic curve at its turning point, if it has one
/// inside.
pub open spec fn quad_turn(f: Ops, s: u32, c: u32, e: u32) -> Option<u32> {
    let denom = f(FloatOp::Add, f(FloatOp::MulAdd, TWO, negated(c), s), e, 0);
    let t = f(FloatOp::Div, f(FloatOp::Sub, s, c, 0), denom, 0);
    if float_lt(0x3089_705f, magnitude(denom) as u32) && float_lt(0, t) && float_lt(t, ONE) {
        let mt = f(FloatOp::Sub, ONE, t, 0);
        Some(
            f(
                FloatOp::MulAdd,
                f(FloatOp::Mul, t, t, 0),
                e,
                f(
                    FloatOp::MulAdd,
                    f(FloatOp::Mul, mt, mt, 0),
                    s,
                    f(FloatOp::Mul, f(FloatOp::Mul, f(FloatOp::Mul, TWO, mt, 0), t, 0), c, 0),
                ),
            ),
        )
    } else {
        None
    }
}

/// The parameters at which a coordinate of a cubic curve may turn.
pub open spec fn cubic_turns(f: Ops, s: u32, c1: u32, c2: u32, e: u32) -> Seq<u32> {
    let a = f(
        FloatOp::Mul,
        THREE,
        f(
            FloatOp::Sub,
            f(FloatOp::MulAdd, THREE, c1, f(FloatOp::MulAdd, THREE, negated(c2), e)),
            s,
            0,
        ),
        0,
    );
    let b = f(
        FloatOp::Mul,
        0x40c0_0000,
        f(FloatOp::Add, f(FloatOp::MulAdd, TWO, negated(c1), c2), s, 0),
        0,
    );
    let c = f(FloatOp::Mul, THREE, f(FloatOp::Sub, c1, s, 0), 0);
    if float_lt(magnitude(a) as u32, 0x3089_705f) {
        if float_lt(0x3089_705f, magnitude(b) as u32) {
            seq![f(FloatOp::Div, negated(c), b, 0)]
        } else {
            Seq::empty()
        }
    } else {
        let disc = f(
            FloatOp::MulAdd,
            f(FloatOp::Mul, FOUR, a, 0),
            negated(c),
            f(FloatOp::Mul, b, b, 0),
        );
        if float_le(0, disc) {
            let root = f(FloatOp::Sqrt, disc, 0, 0);
            let twice = f(FloatOp::Mul, TWO, a, 0);
            seq![
                f(FloatOp::Div, f(FloatOp::Add, negated(b), root, 0), twice, 0),
                f(FloatOp::Div, f(FloatOp::Sub, negated(b), root, 0), twice, 0),
            ]
        } else {
            Seq::empty()
        }
    }
}

/// One coordinate of a cubic curve at a parameter, if the parameter lies inside.
pub open spec fn cubic_value(f: Ops, s: u32, c1: u32, c2: u32, e: u32, t: u32) -> Option<u32> {
    if is_finite(t) && float_lt(0, t) && float_lt(t, ONE) {
        let mt = f(FloatOp::Sub, ONE, t, 0);
        let mt2 = f(FloatOp::Mul, mt, mt, 0);
        Some(
            f(
                FloatOp::MulAdd,
                f(FloatOp::Mul, f(FloatOp::Mul, t, t, 0), t, 0),
                e,
                f(
                    FloatOp::MulAdd,
                    f(FloatOp::Mul, f(FloatOp::Mul, f(FloatOp::Mul, THREE, mt, 0), t, 0), t, 0),
                    c2,
                    f(
                        FloatOp::MulAdd,
                        f(FloatOp::Mul, mt2, mt, 0),
                        s,
                        f(
                            FloatOp::Mul,
                            f(
                                FloatOp::Mul,
                                f(FloatOp::Mul, f(FloatOp::Mul, THREE, mt, 0), mt, 0),
                                t,
                                0,
                            ),
                            c1,
                            0,
                        ),
                    ),
                ),
            ),
        )
    } else {
        None
    }
}

/// A value on an axis, if there is one.
pub open spec fn axis_list(vertical: bool, v: Option<u32>) -> Seq<AxisValue> {
    match v {
        Some(value) => seq![AxisValue { vertical, value }],
        None => Seq::empty(),
    }
}

/// The values that the first `n` parameters give on an axis.
pub open spec fn cubic_axis_values(
    f: Ops,
    vertical: bool,
    s: u32,
    c1: u32,
    c2: u32,
    e: u32,
    ts: Seq<u32>,
    n: nat,
) -> Seq<AxisValue>
    decreases n,
{
    if n == 0 || n > ts.len() {
        Seq::empty()
    } else {
        cubic_axis_values(f, vertical, s, c1, c2, e, ts, (n - 1) as nat) + axis_list(
            vertical,
            cubic_value(f, s, c1, c2, e, ts[n - 1]),
        )
    }
}

/// The coordinates that an element reaches between its ends, horizontal ones
/// first.
pub open spec fn turning_values(f: Ops, from: Point, e: PathElement) -> Seq<AxisValue> {
    match e {
        PathElement::Quad(c, p) => axis_list(false, quad_turn(f, from.x, c.x, p.x)) + axis_list(
            true,
            quad_turn(f, from.y, c.y, p.y),
        ),
        PathElement::Cubic(c, d, p) => {
            let xs = cubic_turns(f, from.x, c.x, d.x, p.x);
            let ys = cubic_turns(f, from.y, c.y, d.y, p.y);
            cubic_axis_values(f, false, from.x, c.x, d.x, p.x, xs, xs.len()) + cubic_axis_values(
                f,
                true,
                from.y,
                c.y,
                d.y,
                p.y,
                ys,
                ys.len(),
            )
        },
        _ => Seq::empty(),
    }
}

/// The coordinates that each element of a path reaches between its ends.
pub open spec fn all_turning_values(f: Ops, m: PathModel) -> Seq<Seq<AxisValue>> {
    Seq::new(
        m.verbs.len(),
        |k: int| turning_values(f, pen_point(m, k as nat), m.element(k)),
    )
}

/// The rectangle that a path covers, curves taken by where they turn.
pub open spec fn tight_rect(f: Ops, m: PathModel) -> Rect {
    covered_rect(m, all_turning_values(f, m))
}

/// One coordinate of a quadratic curve at its turning point.
fn find_quad_turn<A: Fn(FloatOp, u32, u32, u32) -> u32>(
    f: &FloatUnit<A>,
    s: u32,
    c: u32,
    e: u32,
) -> (r: Option<u32>)
    requires
        f.steady(),
    ensures
        r == quad_turn(f.ops(), s, c, e),
{
    let part: u32 = f.op(FloatOp::MulAdd, TWO, bits_neg(c), s);
    let denom: u32 = f.op(FloatOp::Add, part, e, 0);
    let diff: u32 = f.op(FloatOp::Sub, s, c, 0);
    let t: u32 = f.op(FloatOp::Div, diff, denom, 0);
    if bits_lt(0x3089_705f, denom % 0x8000_0000) && bits_lt(0, t) && bits_lt(t, ONE) {
        let mt: u32 = f.op(FloatOp::Sub, ONE, t, 0);
        let mt2: u32 = f.op(FloatOp::Mul, mt, mt, 0);
        let t2: u32 = f.op(FloatOp::Mul, t, t, 0);
        let m1: u32 = f.op(FloatOp::Mul, TWO, mt, 0);
        let m2: u32 = f.op(FloatOp::Mul, m1, t, 0);
        let m3: u32 = f.op(FloatOp::Mul, m2, c, 0);
        let inner: u32 = f.op(FloatOp::MulAdd, mt2, s, m3);
        Some(f.op(FloatOp::MulAdd, t2, e, inner))
    } else {
        None
    }
}

/// The parameters at which a coordinate of a cubic curve may turn.
fn find_cubic_turns<A: Fn(FloatOp, u32, u32, u32) -> u32>(
    f: &FloatUnit<A>,
    s: u32,
    c1: u32,
    c2: u32,
    e: u32,
) -> (r: Vec<u32>)
    requires
        f.steady(),
    ensures
        r@ == cubic_turns(f.ops(), s, c1, c2, e),
{
    let a1: u32 = f.op(FloatOp::MulAdd, THREE, bits_neg(c2), e);
    let a2: u32 = f.op(FloatOp::MulAdd, THREE, c1, a1);
    let a3: u32 = f.op(FloatOp::Sub, a2, s, 0);
    let a: u32 = f.op(FloatOp::Mul, THREE, a3, 0);
    let b1: u32 = f.op(FloatOp::MulAdd, TWO, bits_neg(c1), c2);
    let b2: u32 = f.op(FloatOp::Add, b1, s, 0);
    let b: u32 = f.op(FloatOp::Mul, 0x40c0_0000, b2, 0);
    let d: u32 = f.op(FloatOp::Sub, c1, s, 0);
    let c: u32 = f.op(FloatOp::Mul, THREE, d, 0);
    let mut out: Vec<u32> = Vec::new();
    if bits_lt(a % 0x8000_0000, 0x3089_705f) {
        if bits_lt(0x3089_705f, b % 0x8000_0000) {
            out.push(f.op(FloatOp::Div, bits_neg(c), b, 0));
        }
    } else {
        let four: u32 = f.op(FloatOp::Mul, FOUR, a, 0);
        let square: u32 = f.op(FloatOp::Mul, b, b, 0);
        let disc: u32 = f.op(FloatOp::MulAdd, four, bits_neg(c), square);
        if bits_le(0, disc) {
            let root: u32 = f.op(FloatOp::Sqrt, disc, 0, 0);
            let twice: u32 = f.op(FloatOp::Mul, TWO, a, 0);
            let plus: u32 = f.op(FloatOp::Add, bits_neg(b), root, 0);
            let minus: u32 = f.op(FloatOp::Sub, bits_neg(b), root, 0);
            out.push(f.op(FloatOp::Div, plus, twice, 0));
            out.push(f.op(FloatOp::Div, minus, twice, 0));
        }
    }
    assert(out@ =~= cubic_turns(f.ops(), s, c1, c2, e));
    out
}

/// One coordinate of a cubic curve at a parameter.
fn find_cubic_value<A: Fn(FloatOp, u32, u32, u32) -> u32>(
    f: &FloatUnit<A>,
    s: u32,
    c1: u32,
    c2: u32,
    e: u32,
    t: u32,
) -> (r: Option<u32>)
    requires
        f.steady(),
    ensures
        r == cubic_value(f.ops(), s, c1, c2, e, t),
{
    if !(bits_finite(t) && bits_lt(0, t) && bits_lt(t, ONE)) {
        return None;
    }
    let mt: u32 = f.op(FloatOp::Sub, ONE, t, 0);
    let mt2: u32 = f.op(FloatOp::Mul, mt, mt, 0);
    let mt3: u32 = f.op(FloatOp::Mul, mt2, mt, 0);
    let t2: u32 = f.op(FloatOp::Mul, t, t, 0);
    let t3: u32 = f.op(FloatOp::Mul, t2, t, 0);
    let three_mt: u32 = f.op(FloatOp::Mul, THREE, mt, 0);
    let p1: u32 = f.op(FloatOp::Mul, three_mt, mt, 0);
    let p2: u32 = f.op(FloatOp::Mul, p1, t, 0);
    let p3: u32 = f.op(FloatOp::Mul, p2, c1, 0);
    let q: u32 = f.op(FloatOp::MulAdd, mt3, s, p3);
    let r1: u32 = f.op(FloatOp::Mul, three_mt, t, 0);
    let r2: u32 = f.op(FloatOp::Mul, r1, t, 0);
    let r3: u32 = f.op(FloatOp::MulAdd, r2, c2, q);
    Some(f.op(FloatOp::MulAdd, t3, e, r3))
}

/// Appends the values that a cubic curve reaches on an axis.
fn push_cubic<A: Fn(FloatOp, u32, u32, u32) -> u32>(
    f: &FloatUnit<A>,
    out: &mut Vec<AxisValue>,
    vertical: bool,
    s: u32,
    c1: u32,
    c2: u32,
    e: u32,
)
    requires
        f.steady(),
    ensures
        ({
            let ts = cubic_turns(f.ops(), s, c1, c2, e);
            final(out)@ == old(out)@ + cubic_axis_values(
                f.ops(),
                vertical,
                s,
                c1,
                c2,
                e,
                ts,
                ts.len(),
            )
        }),
{
    let ts = find_cubic_turns(f, s, c1, c2, e);
    let ghost before = out@;
    let mut i: usize = 0;
    assert(out@ =~= before + cubic_axis_values(f.ops(), vertical, s, c1, c2, e, ts@, 0));
    while i < ts.len()
        invariant
            f.steady(),
            i <= ts@.len(),
            out@ == before + cubic_axis_values(
                f.ops(),
                vertical,
                s,
                c1,
                c2,
                e,
                ts@,
                i as nat,
            ),
        decreases ts@.len() - i,
    {
        match find_cubic_value(f, s, c1, c2, e, ts[i]) {
            Some(value) => {
                out.push(AxisValue { vertical, value });
            },
            None => {},
        }
        assert(out@ =~= before + cubic_axis_values(
            f.ops(),
            vertical,
            s,
            c1,
            c2,
            e,
            ts@,
            (i + 1) as nat,
        ));
        i = i + 1;
    }
}

/// Appends the value that a quadratic curve reaches on an axis.
fn push_quad<A: Fn(FloatOp, u32, u32, u32) -> u32>(
    f: &FloatUnit<A>,
    out: &mut Vec<AxisValue>,
    vertical: bool,
    s: u32,
    c: u32,
    e: u32,
)
    requires
        f.steady(),
    ensures
        final(out)@ == old(out)@ + axis_list(vertical, quad_turn(f.ops(), s, c, e)),
{
    match find_quad_turn(f, s, c, e) {
        Some(value) => {
            out.push(AxisValue { vertical, value });
        },
        None => {},
    }
    assert(out@ =~= old(out)@ + axis_list(vertical, quad_turn(f.ops(), s, c, e)));
}

impl Path {
    /// The rectangle that the path covers, curves taken by where they turn. Of
    /// a conic the control point is taken.
    pub fn tight_bounds<A: Fn(FloatOp, u32, u32, u32) -> u32>(&self, f: &FloatUnit<A>) -> (r: Rect)
        requires
            f.steady(),
        ensures
            r == tight_rect(f.ops(), self@),
    {
        let n: usize = self.verb_count();
        let mut all: Vec<Vec<AxisValue>> = Vec::new();
        let mut current = Point { x: 0, y: 0 };
        let mut it = self.iter();
        let mut k: usize = 0;
        while k < n
            invariant
                f.steady(),
                n == self@.verbs.len(),
                k <= n,
                it.path_model() == self@,
                it.position() == k,
                current == pen_point(self@, k as nat),
                all@.len() == k,
                forall|j: int|
                    0 <= j < k ==> (#[trigger] all@[j])@ == turning_values(
                        f.ops(),
                        pen_point(self@, j as nat),
                        self@.element(j),
                    ),
            decreases n - k,
        {
            let mut vs: Vec<AxisValue> = Vec::new();
            assert(vs@ =~= Seq::empty());
            match it.next() {
                Some(e) => match e {
                    PathElement::Move(p) => {
                        current = p;
                    },
                    PathElement::Line(p) => {
                        current = p;
                    },
                    PathElement::Quad(c, p) => {
                        push_quad(f, &mut vs, false, current.x, c.x, p.x);
                        push_quad(f, &mut vs, true, current.y, c.y, p.y);
                        assert(vs@ =~= turning_values(f.ops(), current, e));
                        current = p;
                    },
                    PathElement::Conic(_, p, _) => {
                        current = p;
                    },
                    PathElement::Cubic(c, d, p) => {
                        push_cubic(f, &mut vs, false, current.x, c.x, d.x, p.x);
                        push_cubic(f, &mut vs, true, current.y, c.y, d.y, p.y);
                        assert(vs@ =~= turning_values(f.ops(), current, e));
                        current = p;
                    },
                    PathElement::Close => {},
                },
                None => {},
            }
            assert(vs@ =~= turning_values(
                f.ops(),
                pen_point(self@, k as nat),
                self@.element(k as int),
            ));
            all.push(vs);
            k = k + 1;
        }
        assert(values_of(all@) =~= all_turning_values(f.ops(), self@));
        self.tight_bounds_from(&all)
    }
}

} // verus!
