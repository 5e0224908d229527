//! What kind of shape a path is, and paths moved to other places.

use vstd::prelude::*;

use crate::arith::{FloatOp, FloatUnit, Ops};
use crate::float_bits::{
    bits_eq, bits_finite, bits_le, bits_lt, float_eq, float_le, float_lt, is_finite, magnitude,
};
use crate::geometry::{Point, Rect};
use crate::lists::Verb;
use crate::path::{Path, PathConvexity, PathDirection, PathElement, PathModel, bounds_of};
use crate::path_convexity::{
    ConvexOp, Convexicator, FirstDir, Turn, convex_ops, is_concave_by_sign, sign_walk, trimmed,
};
use crate::path_direction::{
    Bend, bend_of, bottom_bend, contour_points, contour_ranges, direction_of, pairs,
};

verus! {

// ---------------------------------------------------------------------------
// Products of vectors
// ---------------------------------------------------------------------------

/// A product of two vectors.
#[derive(Debug, Clone, Copy, PartialEq, Eq, Structural)]
pub enum Product {
    /// The cross product.
    Cross,
    /// The dot product.
    Dot,
}

/// What shapes are told apart with, as functions.
pub struct Plane {
    /// Float operations.
    pub ops: Ops,
    /// The product of two vectors.
    pub product: spec_fn(Product, Point, Point) -> u32,
    /// The cross product of the vectors from the first point to the others.
    pub corner: spec_fn(Point, Point, Point) -> u32,
}

/// What shapes are told apart with.
pub struct Surveyor<A, P, C> {
    /// Float operations.
    pub floats: FloatUnit<A>,
    /// The product of two vectors.
    pub product: P,
    /// The cross product of the vectors from the first point to the others.
    pub corner: C,
}

impl<
    A: Fn(FloatOp, u32, u32, u32) -> u32,
    P: Fn(Product, Point, Point) -> u32,
    C: Fn(Point, Point, Point) -> u32,
> Surveyor<A, P, C> {
    /// Whether the surroundings always answer, and always answer the same.
    #[verifier::opaque]
    pub open spec fn steady(self) -> bool {
        &&& self.floats.steady()
        &&& forall|k: Product, a: Point, b: Point| #[trigger]
            call_requires(self.product, (k, a, b))
        &&& forall|k: Product, a: Point, b: Point, x: u32, y: u32| #[trigger]
            call_ensures(self.product, (k, a, b), x) && #[trigger] call_ensures(
                self.product,
                (k, a, b),
                y,
            ) ==> x == y
        &&& forall|a: Point, b: Point, c: Point| #[trigger] call_requires(self.corner, (a, b, c))
        &&& forall|a: Point, b: Point, c: Point, x: u32, y: u32| #[trigger]
            call_ensures(self.corner, (a, b, c), x) && #[trigger] call_ensures(
                self.corner,
                (a, b, c),
                y,
            ) ==> x == y
    }

    /// What the surroundings answer.
    #[verifier::opaque]
    pub open spec fn plane(self) -> Plane {
        Plane {
            ops: self.floats.ops(),
            product: |k: Product, a: Point, b: Point|
                choose|x: u32| call_ensures(self.product, (k, a, b), x),
            corner: |a: Point, b: Point, c: Point|
                choose|x: u32| call_ensures(self.corner, (a, b, c), x),
        }
    }

    /// The steadiness and the answers of the float unit.
    proof fn lemma_floats(self)
        requires
            self.steady(),
        ensures
            self.floats.steady(),
            self.floats.ops() == self.plane().ops,
    {
        reveal(Surveyor::steady);
        reveal(Surveyor::plane);
    }

    /// The product of two vectors.
    fn multiply(&self, k: Product, a: Point, b: Point) -> (r: u32)
        requires
            self.steady(),
        ensures
            r == (self.plane().product)(k, a, b),
    {
        proof {
            reveal(Surveyor::steady);
            reveal(Surveyor::plane);
        }
        let f = &self.product;
        f(k, a, b)
    }

    /// The cross product at a corner.
    fn measure_corner(&self, a: Point, b: Point, c: Point) -> (r: u32)
        requires
            self.steady(),
        ensures
            r == (self.plane().corner)(a, b, c),
    {
        proof {
            reveal(Surveyor::steady);
            reveal(Surveyor::plane);
        }
        let f = &self.corner;
        f(a, b, c)
    }
}

// ---------------------------------------------------------------------------
// Convexity
// ---------------------------------------------------------------------------

/// The vector from `b` to `a`.
pub open spec fn difference(f: Ops, a: Point, b: Point) -> Point {
    Point { x: f(FloatOp::Sub, a.x, b.x, 0), y: f(FloatOp::Sub, a.y, b.y, 0) }
}

/// The vector from `b` to `a`.
fn subtract<A: Fn(FloatOp, u32, u32, u32) -> u32>(f: &FloatUnit<A>, a: Point, b: Point) -> (r:
    Point)
    requires
        f.steady(),
    ensures
        r == difference(f.ops(), a, b),
{
    Point { x: f.op(FloatOp::Sub, a.x, b.x, 0), y: f.op(FloatOp::Sub, a.y, b.y, 0) }
}

/// How a vector turns against another.
pub open spec fn turn_of(p: Plane, last: Point, vec: Point) -> Turn {
    let cross = (p.product)(Product::Cross, last, vec);
    if !is_finite(cross) {
        Turn::Unknown
    } else if float_eq(cross, 0) {
        if float_lt((p.product)(Product::Dot, last, vec), 0) {
            Turn::Backwards
        } else {
            Turn::Straight
        }
    } else if float_lt(0, cross) {
        Turn::Right
    } else {
        Turn::Left
    }
}

/// Adds a point to what is known of a contour.
pub open spec fn add_point(p: Plane, c: Convexicator, pt: Point) -> (Convexicator, bool) {
    let vec = difference(p.ops, pt, c.last_pt);
    c.with_pt(pt, vec, turn_of(p, c.last_vec, vec))
}

/// Closes a contour: goes back to its first point and on along its first
/// vector.
pub open spec fn close_contour(p: Plane, c: Convexicator) -> (Convexicator, bool) {
    let (d, ok) = add_point(p, c, c.first_pt);
    if ok {
        d.with_vec(c.first_vec, turn_of(p, d.last_vec, c.first_vec))
    } else {
        (d, false)
    }
}

/// What is known of a contour after the first `k` steps; `None` once it is
/// known to be concave.
pub open spec fn survey(p: Plane, ops: Seq<ConvexOp>, k: nat) -> Option<Convexicator>
    decreases k,
{
    if k == 0 {
        Some(Convexicator::blank())
    } else {
        match survey(p, ops, (k - 1) as nat) {
            None => None,
            Some(c) => match ops[k - 1] {
                ConvexOp::Start(pt) => Some(
                    Convexicator { first_pt: pt, last_pt: pt, expected: None, ..c },
                ),
                ConvexOp::Add(pt) => {
                    let (d, ok) = add_point(p, c, pt);
                    if ok {
                        Some(d)
                    } else {
                        None
                    }
                },
                ConvexOp::Close => {
                    let (d, ok) = close_contour(p, c);
                    if ok {
                        Some(d)
                    } else {
                        None
                    }
                },
                ConvexOp::Reject => None,
            },
        }
    }
}

/// Whether each step around points is finite, the one back to the first point
/// last.
pub open spec fn finite_steps(f: Ops, ps: Seq<Point>) -> Seq<bool> {
    Seq::new(
        ps.len(),
        |k: int|
            {
                let d = difference(
                    f,
                    if k + 1 < ps.len() {
                        ps[k + 1]
                    } else {
                        ps[0]
                    },
                    ps[k],
                );
                is_finite(d.x) && is_finite(d.y)
            },
    )
}

/// Whether a path is convex. One that draws nothing is.
pub open spec fn convexity_of(p: Plane, m: PathModel) -> PathConvexity {
    if trimmed(m.verbs, m.verbs.len()) == 0 {
        PathConvexity::Convex
    } else if m.points.len() > 3 && sign_walk(
        m.points,
        finite_steps(p.ops, m.points),
        m.points.len(),
    ) is None {
        PathConvexity::Concave
    } else {
        match survey(p, convex_ops(m), convex_ops(m).len()) {
            None => PathConvexity::Concave,
            Some(c) => if c.first_direction == FirstDir::Unknown && c.reversals >= 3 {
                PathConvexity::Concave
            } else {
                PathConvexity::Convex
            },
        }
    }
}

proof fn lemma_survey_stops(p: Plane, ops: Seq<ConvexOp>, k: nat, n: nat)
    requires
        k <= n,
        survey(p, ops, k) is None,
    ensures
        survey(p, ops, n) is None,
    decreases n,
{
    if k < n {
        lemma_survey_stops(p, ops, k, (n - 1) as nat);
    }
}

impl<
    A: Fn(FloatOp, u32, u32, u32) -> u32,
    P: Fn(Product, Point, Point) -> u32,
    C: Fn(Point, Point, Point) -> u32,
> Surveyor<A, P, C> {
    /// How a vector turns against another.
    fn turn(&self, last: Point, vec: Point) -> (r: Turn)
        requires
            self.steady(),
        ensures
            r == turn_of(self.plane(), last, vec),
    {
        let cross: u32 = self.multiply(Product::Cross, last, vec);
        if !bits_finite(cross) {
            Turn::Unknown
        } else if bits_eq(cross, 0) {
            let dot: u32 = self.multiply(Product::Dot, last, vec);
            if bits_lt(dot, 0) {
                Turn::Backwards
            } else {
                Turn::Straight
            }
        } else if bits_lt(0, cross) {
            Turn::Right
        } else {
            Turn::Left
        }
    }

    /// Adds a point to what is known of a contour.
    fn extend(&self, c: &mut Convexicator, pt: Point) -> (ok: bool)
        requires
            self.steady(),
            old(c).reversals < 3,
        ensures
            (*final(c), ok) == add_point(self.plane(), *old(c), pt),
            ok ==> final(c).reversals < 3,
    {
        proof {
            self.lemma_floats();
        }
        let vec = subtract(&self.floats, pt, c.last_pt);
        let turn = self.turn(c.last_vec, vec);
        c.add_pt(pt, vec, turn)
    }

    /// Closes a contour.
    fn close(&self, c: &mut Convexicator) -> (ok: bool)
        requires
            self.steady(),
            old(c).reversals < 3,
        ensures
            (*final(c), ok) == close_contour(self.plane(), *old(c)),
            ok ==> final(c).reversals < 3,
    {
        let first_pt = c.first_pt;
        let first_vec = c.first_vec;
        if !self.extend(c, first_pt) {
            return false;
        }
        let turn = self.turn(c.last_vec, first_vec);
        c.add_vec(first_vec, turn)
    }

    /// Whether each step around points is finite.
    fn steps_are_finite(&self, ps: &[Point]) -> (r: Vec<bool>)
        requires
            self.steady(),
        ensures
            r@ == finite_steps(self.plane().ops, ps@),
    {
        proof {
            self.lemma_floats();
        }
        let n: usize = ps.len();
        let mut r: Vec<bool> = Vec::new();
        let mut k: usize = 0;
        while k < n
            invariant
                self.floats.steady(),
                self.floats.ops() == self.plane().ops,
                n == ps@.len(),
                k <= n,
                r@.len() == k,
                forall|j: int|
                    0 <= j < k ==> #[trigger] r@[j] == finite_steps(self.plane().ops, ps@)[j],
            decreases n - k,
        {
            let next = if k + 1 < n {
                ps[k + 1]
            } else {
                ps[0]
            };
            let d = subtract(&self.floats, next, ps[k]);
            r.push(bits_finite(d.x) && bits_finite(d.y));
            k = k + 1;
        }
        assert(r@ =~= finite_steps(self.plane().ops, ps@));
        r
    }

    /// Whether a path is convex.
    fn compute_convexity(&self, path: &Path) -> (r: PathConvexity)
        requires
            self.steady(),
        ensures
            r == convexity_of(self.plane(), path@),
    {
        let vs = path.verbs();
        let mut n: usize = vs.len();
        while n > 0 && vs[n - 1] == Verb::Move
            invariant
                n <= vs@.len(),
                trimmed(vs@, vs@.len()) == trimmed(vs@, n as nat),
            ensures
                n == trimmed(vs@, vs@.len()),
            decreases n,
        {
            n = n - 1;
        }
        if n == 0 {
            return PathConvexity::Convex;
        }
        let ps = path.points();
        let finite = self.steps_are_finite(ps);
        if is_concave_by_sign(ps, &finite) {
            return PathConvexity::Concave;
        }
        let ops = path.convexity_ops();
        let mut c = Convexicator::new();
        let mut k: usize = 0;
        while k < ops.len()
            invariant
                self.steady(),
                k <= ops@.len(),
                ops@ == convex_ops(path@),
                trimmed(path@.verbs, path@.verbs.len()) != 0,
                !(path@.points.len() > 3 && sign_walk(
                    path@.points,
                    finite_steps(self.plane().ops, path@.points),
                    path@.points.len(),
                ) is None),
                survey(self.plane(), ops@, k as nat) == Some(c),
                c.reversals < 3,
            decreases ops@.len() - k,
        {
            let ok = match ops[k] {
                ConvexOp::Start(pt) => {
                    c.set_move_pt(pt);
                    true
                },
                ConvexOp::Add(pt) => self.extend(&mut c, pt),
                ConvexOp::Close => self.close(&mut c),
                ConvexOp::Reject => false,
            };
            if !ok {
                proof {
                    lemma_survey_stops(
                        self.plane(),
                        ops@,
                        (k + 1) as nat,
                        ops@.len(),
                    );
                }
                return PathConvexity::Concave;
            }
            k = k + 1;
        }
        c.verdict()
    }

    /// Whether a path is convex. What was found out once is remembered.
    pub fn convexity(&self, path: &mut Path) -> (r: PathConvexity)
        requires
            self.steady(),
        ensures
            r == if old(path).known_convexity() != PathConvexity::Unknown {
                old(path).known_convexity()
            } else {
                convexity_of(self.plane(), old(path)@)
            },
            final(path)@ == old(path)@,
            final(path).known_convexity() == r,
    {
        match path.remembered_convexity() {
            PathConvexity::Unknown => {
                let r = self.compute_convexity(path);
                path.remember_convexity(r);
                r
            },
            known => known,
        }
    }

    /// Whether a path is convex.
    pub fn is_convex(&self, path: &mut Path) -> (r: bool)
        requires
            self.steady(),
        ensures
            r == (if old(path).known_convexity() != PathConvexity::Unknown {
                old(path).known_convexity()
            } else {
                convexity_of(self.plane(), old(path)@)
            } == PathConvexity::Convex),
            final(path)@ == old(path)@,
    {
        match self.convexity(path) {
            PathConvexity::Convex => true,
            _ => false,
        }
    }
}

// ---------------------------------------------------------------------------
// Direction
// ---------------------------------------------------------------------------

/// The sign of the cross product at the bottom of a contour.
pub open spec fn corner_sign(p: Plane, ps: Seq<Point>) -> i8 {
    match bend_of(ps) {
        Bend::Corner { prev, index, next } => {
            let cross = (p.corner)(ps[prev as int], ps[index as int], ps[next as int]);
            if float_lt(0, cross) {
                1
            } else if float_eq(cross, 0) {
                0
            } else {
                (-1) as i8
            }
        },
        _ => 0,
    }
}

/// The signs of the cross products at the bottoms of contours.
pub open spec fn corner_signs(p: Plane, m: PathModel) -> Seq<i8> {
    let ranges = contour_ranges(m.verbs, m.verbs.len());
    Seq::new(
        ranges.len(),
        |k: int|
            {
                let ps = contour_points(m, ranges[k]);
                if ps.len() < 3 {
                    0i8
                } else {
                    corner_sign(p, ps)
                }
            },
    )
}

impl<
    A: Fn(FloatOp, u32, u32, u32) -> u32,
    P: Fn(Product, Point, Point) -> u32,
    C: Fn(Point, Point, Point) -> u32,
> Surveyor<A, P, C> {
    /// The sense of a path: that of its bottom-most contour.
    pub fn direction(&self, path: &Path) -> (r: Option<PathDirection>)
        requires
            self.steady(),
        ensures
            r == direction_of(path@, corner_signs(self.plane(), path@)),
    {
        let ps = path.points();
        let ranges = path.contour_point_ranges();
        let ghost rs = pairs(ranges@);
        let mut signs: Vec<i8> = Vec::new();
        let mut k: usize = 0;
        while k < ranges.len()
            invariant
                self.steady(),
                ps@ == path@.points,
                rs == pairs(ranges@),
                rs == contour_ranges(path@.verbs, path@.verbs.len()),
                k <= ranges@.len(),
                forall|i: int|
                    0 <= i < ranges@.len() ==> (#[trigger] ranges@[i]).0 <= ranges@[i].1
                        <= ps@.len(),
                signs@.len() == k,
                forall|j: int|
                    0 <= j < k ==> #[trigger] signs@[j] == corner_signs(self.plane(), path@)[j],
            decreases ranges@.len() - k,
        {
            let (start, end) = ranges[k];
            assert(rs[k as int] == (start as int, end as int));
            let mut sign: i8 = 0;
            if end - start >= 3 {
                let contour = vstd::slice::slice_subrange(ps, start, end);
                assert(contour@ == contour_points(path@, rs[k as int]));
                match bottom_bend(contour) {
                    Bend::Corner { prev, index, next } => {
                        let cross: u32 = self.measure_corner(
                            contour[prev],
                            contour[index],
                            contour[next],
                        );
                        sign = if bits_lt(0, cross) {
                            1
                        } else if bits_eq(cross, 0) {
                            0
                        } else {
                            -1
                        };
                    },
                    _ => {},
                }
            }
            signs.push(sign);
            k = k + 1;
        }
        assert(signs@ =~= corner_signs(self.plane(), path@));
        path.direction_from(&signs)
    }
}

// ---------------------------------------------------------------------------
// Ovals
// ---------------------------------------------------------------------------

/// Where an element ends, if it is a cubic or a conic curve.
pub open spec fn curve_end(e: PathElement) -> Option<Point> {
    match e {
        PathElement::Cubic(_, _, p) => Some(p),
        PathElement::Conic(_, p, _) => Some(p),
        _ => None,
    }
}

/// Whether the verbs are a move, four cubic or four conic curves, and a close.
pub open spec fn oval_verbs(vs: Seq<Verb>) -> bool {
    &&& vs.len() == 6
    &&& vs[0] == Verb::Move
    &&& vs[5] == Verb::Close
    &&& (vs[1] == Verb::Cubic || vs[1] == Verb::Conic)
    &&& vs[2] == vs[1]
    &&& vs[3] == vs[1]
    &&& vs[4] == vs[1]
}

/// Whether two coordinates differ by less than a tolerance.
pub open spec fn close_to(f: Ops, a: u32, b: u32, tolerance: u32) -> bool {
    float_lt(magnitude(f(FloatOp::Sub, a, b, 0)) as u32, tolerance)
}

/// Whether a point is the middle of a side of a rectangle.
pub open spec fn on_cardinal(f: Ops, b: Rect, p: Point) -> bool {
    let cx = f(FloatOp::Mul, f(FloatOp::Add, b.left, b.right, 0), 0x3f00_0000, 0);
    let cy = f(FloatOp::Mul, f(FloatOp::Add, b.top, b.bottom, 0), 0x3f00_0000, 0);
    let tolerance = f(
        FloatOp::Mul,
        f(
            FloatOp::Add,
            f(FloatOp::Sub, b.right, b.left, 0),
            f(FloatOp::Sub, b.bottom, b.top, 0),
            0,
        ),
        0x38d1_b717,
        0,
    );
    ||| close_to(f, p.y, cy, tolerance) && (close_to(f, p.x, b.left, tolerance) || close_to(
        f,
        p.x,
        b.right,
        tolerance,
    ))
    ||| close_to(f, p.x, cx, tolerance) && (close_to(f, p.y, b.top, tolerance) || close_to(
        f,
        p.y,
        b.bottom,
        tolerance,
    ))
}

/// Whether a path is an oval: four curves between the middles of the sides of
/// its bounds.
pub open spec fn is_oval_path(f: Ops, m: PathModel) -> bool {
    let b = bounds_of(m.points);
    &&& oval_verbs(m.verbs)
    &&& !float_le(f(FloatOp::Sub, b.right, b.left, 0), 0)
    &&& !float_le(f(FloatOp::Sub, b.bottom, b.top, 0), 0)
    &&& (m.element(0) matches PathElement::Move(p) && on_cardinal(f, b, p))
    &&& forall|k: int|
        1 <= k < 5 ==> (curve_end(#[trigger] m.element(k)) matches Some(p) && on_cardinal(f, b, p))
}

/// Whether two coordinates differ by less than a tolerance.
fn near_to<A: Fn(FloatOp, u32, u32, u32) -> u32>(
    f: &FloatUnit<A>,
    a: u32,
    b: u32,
    tolerance: u32,
) -> (r: bool)
    requires
        f.steady(),
    ensures
        r == close_to(f.ops(), a, b, tolerance),
{
    let d: u32 = f.op(FloatOp::Sub, a, b, 0);
    bits_lt(d % 0x8000_0000, tolerance)
}

/// Whether a point is the middle of a side of a rectangle.
fn is_cardinal<A: Fn(FloatOp, u32, u32, u32) -> u32>(f: &FloatUnit<A>, b: Rect, p: Point) -> (r:
    bool)
    requires
        f.steady(),
    ensures
        r == on_cardinal(f.ops(), b, p),
{
    let sx: u32 = f.op(FloatOp::Add, b.left, b.right, 0);
    let cx: u32 = f.op(FloatOp::Mul, sx, 0x3f00_0000, 0);
    let sy: u32 = f.op(FloatOp::Add, b.top, b.bottom, 0);
    let cy: u32 = f.op(FloatOp::Mul, sy, 0x3f00_0000, 0);
    let w: u32 = f.op(FloatOp::Sub, b.right, b.left, 0);
    let h: u32 = f.op(FloatOp::Sub, b.bottom, b.top, 0);
    let sum: u32 = f.op(FloatOp::Add, w, h, 0);
    let t: u32 = f.op(FloatOp::Mul, sum, 0x38d1_b717, 0);
    (near_to(f, p.y, cy, t) && (near_to(f, p.x, b.left, t) || near_to(f, p.x, b.right, t))) || (
    near_to(f, p.x, cx, t) && (near_to(f, p.y, b.top, t) || near_to(f, p.y, b.bottom, t)))
}

impl Path {
    /// Whether the path is an oval.
    pub fn is_oval<A: Fn(FloatOp, u32, u32, u32) -> u32>(&self, f: &FloatUnit<A>) -> (r: bool)
        requires
            f.steady(),
        ensures
            r == is_oval_path(f.ops(), self@),
    {
        let vs = self.verbs();
        if vs.len() != 6 {
            return false;
        }
        let curves = vs[1] == Verb::Cubic || vs[1] == Verb::Conic;
        if !(vs[0] == Verb::Move && vs[5] == Verb::Close && curves && vs[2] == vs[1] && vs[3]
            == vs[1] && vs[4] == vs[1]) {
            return false;
        }
        let b = self.bounds();
        let w: u32 = f.op(FloatOp::Sub, b.right, b.left, 0);
        let h: u32 = f.op(FloatOp::Sub, b.bottom, b.top, 0);
        if bits_le(w, 0) || bits_le(h, 0) {
            return false;
        }
        let mut it = self.iter();
        match it.next() {
            Some(PathElement::Move(p)) => {
                if !is_cardinal(f, b, p) {
                    return false;
                }
            },
            _ => {
                return false;
            },
        }
        let mut k: usize = 1;
        while k < 5
            invariant
                f.steady(),
                1 <= k <= 5,
                self@.verbs.len() == 6,
                b == bounds_of(self@.points),
                it.path_model() == self@,
                it.position() == k,
                forall|j: int|
                    1 <= j < k ==> (curve_end(#[trigger] self@.element(j)) matches Some(p)
                        && on_cardinal(f.ops(), b, p)),
            decreases 5 - k,
        {
            let end = match it.next() {
                Some(PathElement::Cubic(_, _, p)) => Some(p),
                Some(PathElement::Conic(_, p, _)) => Some(p),
                _ => None,
            };
            assert(end == curve_end(self@.element(k as int)));
            match end {
                Some(p) => {
                    if !is_cardinal(f, b, p) {
                        return false;
                    }
                },
                None => {
                    return false;
                },
            }
            k = k + 1;
        }
        true
    }
}

// ---------------------------------------------------------------------------
// Moved paths
// ---------------------------------------------------------------------------

/// A path with its points moved.
pub open spec fn with_points(m: PathModel, to: spec_fn(Point) -> Point) -> PathModel {
    PathModel { points: Seq::new(m.points.len(), |i: int| to(m.points[i])), ..m }
}

/// Whether a function always answers, and always answers the same.
pub open spec fn maps_points<F: Fn(Point) -> Point>(f: F) -> bool {
    &&& forall|p: Point| #[trigger] call_requires(f, (p,))
    &&& forall|p: Point, x: Point, y: Point| #[trigger]
        call_ensures(f, (p,), x) && #[trigger] call_ensures(f, (p,), y) ==> x == y
}

/// What a function answers.
pub open spec fn mapping<F: Fn(Point) -> Point>(f: F) -> spec_fn(Point) -> Point {
    |p: Point| choose|x: Point| call_ensures(f, (p,), x)
}

impl Path {
    /// Moves every point to where `map` says, such as by a matrix.
    pub fn transform<F: Fn(Point) -> Point>(&mut self, map: F)
        requires
            maps_points(map),
        ensures
            final(self)@ == with_points(old(self)@, mapping(map)),
            final(self).known_convexity() == PathConvexity::Unknown,
    {
        let ghost before = self@;
        let ps = self.points();
        let mut moved: Vec<Point> = Vec::new();
        let mut i: usize = 0;
        while i < ps.len()
            invariant
                maps_points(map),
                before == self@,
                ps@ == before.points,
                i <= ps@.len(),
                moved@.len() == i,
                forall|k: int| 0 <= k < i ==> #[trigger] moved@[k] == mapping(map)(ps@[k]),
            decreases ps@.len() - i,
        {
            let q = map(ps[i]);
            moved.push(q);
            i = i + 1;
        }
        assert(moved@ =~= with_points(before, mapping(map)).points);
        self.replace_points(&moved);
        self.remember_convexity(PathConvexity::Unknown);
        assert(self@ =~= with_points(before, mapping(map)));
    }

    /// A copy of the path with every point moved to where `map` says.
    pub fn transformed<F: Fn(Point) -> Point>(&self, map: F) -> (r: Path)
        requires
            maps_points(map),
        ensures
            r@ == with_points(self@, mapping(map)),
            r.known_convexity() == PathConvexity::Unknown,
    {
        let mut r = self.duplicate();
        r.transform(map);
        r
    }

    /// Moves the path.
    pub fn offset<A: Fn(FloatOp, u32, u32, u32) -> u32>(
        &mut self,
        f: &FloatUnit<A>,
        dx: u32,
        dy: u32,
    )
        requires
            f.steady(),
        ensures
            final(self)@ == with_points(
                old(self)@,
                |p: Point|
                    Point {
                        x: f.ops()(FloatOp::Add, p.x, dx, 0),
                        y: f.ops()(FloatOp::Add, p.y, dy, 0),
                    },
            ),
            final(self).known_convexity() == old(self).known_convexity(),
    {
        let ghost before = self@;
        let ghost to = |p: Point|
            Point {
                x: f.ops()(FloatOp::Add, p.x, dx, 0),
                y: f.ops()(FloatOp::Add, p.y, dy, 0),
            };
        let ps = self.points();
        let mut moved: Vec<Point> = Vec::new();
        let mut i: usize = 0;
        while i < ps.len()
            invariant
                f.steady(),
                before == self@,
                ps@ == before.points,
                to == (|p: Point|
                    Point {
                        x: f.ops()(FloatOp::Add, p.x, dx, 0),
                        y: f.ops()(FloatOp::Add, p.y, dy, 0),
                    }),
                i <= ps@.len(),
                moved@.len() == i,
                forall|k: int| 0 <= k < i ==> #[trigger] moved@[k] == to(ps@[k]),
            decreases ps@.len() - i,
        {
            let x: u32 = f.op(FloatOp::Add, ps[i].x, dx, 0);
            let y: u32 = f.op(FloatOp::Add, ps[i].y, dy, 0);
            moved.push(Point { x, y });
            i = i + 1;
        }
        assert(moved@ =~= with_points(before, to).points);
        self.replace_points(&moved);
        assert(self@ =~= with_points(before, to));
    }
}

/// Moving the points of a path twice is moving them once by both moves.
pub proof fn moves_compose(m: PathModel, a: spec_fn(Point) -> Point, b: spec_fn(Point) -> Point)
    ensures
        with_points(with_points(m, a), b) == with_points(m, |p: Point| b(a(p))),
{
    assert(with_points(with_points(m, a), b).points =~= with_points(
        m,
        |p: Point| b(a(p)),
    ).points);
}

} // verus!
