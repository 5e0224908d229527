//! Paths: contours of lines and curves.

use vstd::prelude::*;

use crate::float_bits::{
    bits_eq, bits_finite, bits_max, bits_min, float_eq, float_le, float_max, float_min, is_finite,
    is_nan,
};
use crate::geometry::{Point, Rect};
use crate::lists::{PointList, Verb, VerbList, WeightList};

verus! {

/// Which side of a path is filled.
#[derive(Debug, Clone, Copy, PartialEq, Eq, Structural)]
pub enum FillType {
    /// Where the winding number is not zero.
    Winding,
    /// Where the winding number is odd.
    EvenOdd,
    /// Where the winding number is zero.
    InverseWinding,
    /// Where the winding number is even.
    InverseEvenOdd,
}

impl FillType {
    /// Whether the outside is filled.
    pub open spec fn inverted(self) -> bool {
        self == FillType::InverseWinding || self == FillType::InverseEvenOdd
    }

    /// The fill type of the other side.
    pub open spec fn other_side(self) -> FillType {
        match self {
            FillType::Winding => FillType::InverseWinding,
            FillType::EvenOdd => FillType::InverseEvenOdd,
            FillType::InverseWinding => FillType::Winding,
            FillType::InverseEvenOdd => FillType::EvenOdd,
        }
    }

    /// Whether the outside is filled.
    pub fn is_inverse(&self) -> (r: bool)
        ensures
            r == self.inverted(),
    {
        match self {
            FillType::InverseWinding => true,
            FillType::InverseEvenOdd => true,
            _ => false,
        }
    }

    /// The fill type of the other side.
    pub fn inverse(&self) -> (r: FillType)
        ensures
            r == self.other_side(),
    {
        match self {
            FillType::Winding => FillType::InverseWinding,
            FillType::EvenOdd => FillType::InverseEvenOdd,
            FillType::InverseWinding => FillType::Winding,
            FillType::InverseEvenOdd => FillType::EvenOdd,
        }
    }
}

impl Default for FillType {
    fn default() -> (r: FillType)
        ensures
            r == FillType::Winding,
    {
        FillType::Winding
    }
}

/// The other side of the other side is the side itself, and exactly one of
/// the two is inverse.
pub proof fn inverse_is_an_involution(f: FillType)
    ensures
        f.other_side().other_side() == f,
        f.other_side().inverted() != f.inverted(),
{
}

impl Verb {
    /// How many points a verb takes.
    pub open spec fn points(self) -> nat {
        match self {
            Verb::Move => 1,
            Verb::Line => 1,
            Verb::Quad => 2,
            Verb::Conic => 2,
            Verb::Cubic => 3,
            Verb::Close => 0,
        }
    }

    /// How many weights a verb takes.
    pub open spec fn weights(self) -> nat {
        if self == Verb::Conic {
            1
        } else {
            0
        }
    }

    /// How many points a verb takes.
    pub fn point_count(&self) -> (n: usize)
        ensures
            n == self.points(),
    {
        match self {
            Verb::Move => 1,
            Verb::Line => 1,
            Verb::Quad => 2,
            Verb::Conic => 2,
            Verb::Cubic => 3,
            Verb::Close => 0,
        }
    }
}

/// The sense in which a path turns.
#[derive(Debug, Clone, Copy, PartialEq, Eq, Structural)]
pub enum PathDirection {
    /// Clockwise.
    CW,
    /// Counter-clockwise.
    CCW,
}

impl Default for PathDirection {
    fn default() -> (r: PathDirection)
        ensures
            r == PathDirection::CW,
    {
        PathDirection::CW
    }
}

/// Whether a path is convex.
#[derive(Debug, Clone, Copy, PartialEq, Eq, Structural)]
pub enum PathConvexity {
    /// Not known.
    Unknown,
    /// Convex.
    Convex,
    /// Concave.
    Concave,
}

impl Default for PathConvexity {
    fn default() -> (r: PathConvexity)
        ensures
            r == PathConvexity::Unknown,
    {
        PathConvexity::Unknown
    }
}

/// A command of a path with its points.
#[derive(Debug, Clone, Copy, PartialEq, Eq, Structural)]
pub enum PathElement {
    /// Move to a point.
    Move(Point),
    /// Line to a point.
    Line(Point),
    /// Quadratic curve: control point and end.
    Quad(Point, Point),
    /// Conic curve: control point, end and weight.
    Conic(Point, Point, u32),
    /// Cubic curve: two control points and end.
    Cubic(Point, Point, Point),
    /// Close the contour.
    Close,
}

/// How many points the first `k` verbs take.
pub open spec fn points_before(vs: Seq<Verb>, k: nat) -> nat
    decreases k,
{
    if k == 0 || k > vs.len() {
        0
    } else {
        points_before(vs, (k - 1) as nat) + vs[k - 1].points()
    }
}

/// How many weights the first `k` verbs take.
pub open spec fn weights_before(vs: Seq<Verb>, k: nat) -> nat
    decreases k,
{
    if k == 0 || k > vs.len() {
        0
    } else {
        weights_before(vs, (k - 1) as nat) + vs[k - 1].weights()
    }
}

/// A path as a mathematical value.
#[verifier::ext_equal]
pub struct PathModel {
    /// The verbs.
    pub verbs: Seq<Verb>,
    /// The points.
    pub points: Seq<Point>,
    /// The weights of the conic curves.
    pub weights: Seq<u32>,
    /// The fill type.
    pub fill: FillType,
}

impl PathModel {
    /// Whether the verbs take exactly the points and weights there are, and
    /// the first one is a move.
    pub open spec fn valid(self) -> bool {
        &&& points_before(self.verbs, self.verbs.len()) == self.points.len()
        &&& weights_before(self.verbs, self.verbs.len()) == self.weights.len()
        &&& (self.verbs.len() > 0 ==> self.verbs[0] == Verb::Move)
    }

    /// Element `k`.
    pub open spec fn element(self, k: int) -> PathElement {
        let p = points_before(self.verbs, k as nat) as int;
        let w = weights_before(self.verbs, k as nat) as int;
        match self.verbs[k] {
            Verb::Move => PathElement::Move(self.points[p]),
            Verb::Line => PathElement::Line(self.points[p]),
            Verb::Quad => PathElement::Quad(self.points[p], self.points[p + 1]),
            Verb::Conic => PathElement::Conic(
                self.points[p],
                self.points[p + 1],
                self.weights[w],
            ),
            Verb::Cubic => PathElement::Cubic(
                self.points[p],
                self.points[p + 1],
                self.points[p + 2],
            ),
            Verb::Close => PathElement::Close,
        }
    }
}

/// Earlier verbs take no more points than later ones.
pub proof fn lemma_points_before(vs: Seq<Verb>, a: nat, b: nat)
    requires
        a <= b <= vs.len(),
    ensures
        points_before(vs, a) <= points_before(vs, b),
        weights_before(vs, a) <= weights_before(vs, b),
    decreases b,
{
    if a < b {
        lemma_points_before(vs, a, (b - 1) as nat);
    }
}

proof fn lemma_points_prefix(a: Seq<Verb>, b: Seq<Verb>, k: nat)
    requires
        k <= a.len(),
        k <= b.len(),
        forall|i: int| 0 <= i < k ==> a[i] == b[i],
    ensures
        points_before(a, k) == points_before(b, k),
        weights_before(a, k) == weights_before(b, k),
    decreases k,
{
    if k > 0 {
        lemma_points_prefix(a, b, (k - 1) as nat);
    }
}

/// A path.
#[derive(Debug)]
pub struct Path {
    verbs: VerbList,
    points: PointList,
    conic_weights: WeightList,
    fill_type: FillType,
    convexity: PathConvexity,
}

impl View for Path {
    type V = PathModel;

    closed spec fn view(&self) -> PathModel {
        PathModel {
            verbs: self.verbs@,
            points: self.points@,
            weights: self.conic_weights@,
            fill: self.fill_type,
        }
    }
}

impl Default for Path {
    fn default() -> (r: Path)
        ensures
            r@ == (PathModel {
                verbs: Seq::empty(),
                points: Seq::empty(),
                weights: Seq::empty(),
                fill: FillType::Winding,
            }),
            r.known_convexity() == PathConvexity::Unknown,
    {
        Path {
            verbs: VerbList::new(),
            points: PointList::new(),
            conic_weights: WeightList::new(),
            fill_type: FillType::Winding,
            convexity: PathConvexity::Unknown,
        }
    }
}

impl Path {
    #[verifier::type_invariant]
    spec fn well_formed(&self) -> bool {
        self@.valid()
    }

    /// What is known of the convexity.
    pub closed spec fn known_convexity(&self) -> PathConvexity {
        self.convexity
    }

    /// An empty path.
    pub fn new() -> (r: Path)
        ensures
            r@ == (PathModel {
                verbs: Seq::empty(),
                points: Seq::empty(),
                weights: Seq::empty(),
                fill: FillType::Winding,
            }),
            r.known_convexity() == PathConvexity::Unknown,
    {
        Path::default()
    }

    /// The path made of the given verbs, points and weights. There is none if
    /// the verbs take more or fewer points or weights, or do not start with a
    /// move.
    pub fn from_parts(
        verbs: &[Verb],
        points: &[Point],
        weights: &[u32],
        fill_type: FillType,
    ) -> (r: Option<Path>)
        ensures
            ({
                let m = PathModel {
                    verbs: verbs@,
                    points: points@,
                    weights: weights@,
                    fill: fill_type,
                };
                match r {
                    Some(x) => m.valid() && x@ == m,
                    None => !m.valid(),
                }
            }),
    {
        if verbs.len() > 0 {
            match verbs[0] {
                Verb::Move => {},
                _ => {
                    return None;
                },
            }
        }
        let mut np: usize = 0;
        let mut nw: usize = 0;
        let mut vs = VerbList::new();
        let total_points: usize = points.len();
        let total_weights: usize = weights.len();
        let mut k: usize = 0;
        while k < verbs.len()
            invariant
                k <= verbs@.len(),
                total_points == points@.len(),
                total_weights == weights@.len(),
                np == points_before(verbs@, k as nat) <= total_points,
                nw == weights_before(verbs@, k as nat) <= total_weights,
                vs@ == verbs@.take(k as int),
            decreases verbs@.len() - k,
        {
            let v = verbs[k];
            let n: usize = v.point_count();
            let w: usize = match v {
                Verb::Conic => 1,
                _ => 0,
            };
            proof {
                lemma_points_before(verbs@, (k + 1) as nat, verbs@.len());
            }
            if total_points - np < n || total_weights - nw < w {
                return None;
            }
            np = np + n;
            nw = nw + w;
            vs.push(v);
            assert(vs@ =~= verbs@.take(k + 1));
            k = k + 1;
        }
        assert(verbs@.take(k as int) =~= verbs@);
        if np != total_points || nw != total_weights {
            return None;
        }
        let mut ps = PointList::new();
        let mut i: usize = 0;
        while i < points.len()
            invariant
                i <= points@.len(),
                ps@ == points@.take(i as int),
            decreases points@.len() - i,
        {
            ps.push(points[i]);
            assert(ps@ =~= points@.take(i + 1));
            i = i + 1;
        }
        assert(points@.take(i as int) =~= points@);
        let mut ws = WeightList::new();
        let mut j: usize = 0;
        while j < weights.len()
            invariant
                j <= weights@.len(),
                ws@ == weights@.take(j as int),
            decreases weights@.len() - j,
        {
            ws.push(weights[j]);
            assert(ws@ =~= weights@.take(j + 1));
            j = j + 1;
        }
        assert(weights@.take(j as int) =~= weights@);
        Some(
            Path {
                verbs: vs,
                points: ps,
                conic_weights: ws,
                fill_type,
                convexity: PathConvexity::Unknown,
            },
        )
    }

    /// A copy of the path.
    pub fn duplicate(&self) -> (r: Path)
        ensures
            r@ == self@,
            r.known_convexity() == self.known_convexity(),
    {
        proof {
            use_type_invariant(self);
        }
        match Path::from_parts(
            self.verbs.as_slice(),
            self.points.as_slice(),
            self.conic_weights.as_slice(),
            self.fill_type,
        ) {
            Some(mut p) => {
                p.convexity = self.convexity;
                p
            },
            None => Path::new(),
        }
    }

    /// What is known of the convexity.
    pub(crate) fn remembered_convexity(&self) -> (r: PathConvexity)
        ensures
            r == self.known_convexity(),
    {
        self.convexity
    }

    /// Remembers the convexity.
    pub(crate) fn remember_convexity(&mut self, convexity: PathConvexity)
        ensures
            final(self)@ == old(self)@,
            final(self).known_convexity() == convexity,
    {
        proof {
            use_type_invariant(&*self);
        }
        self.convexity = convexity;
    }

    /// Puts other points in the place of the points of the path.
    pub(crate) fn replace_points(&mut self, points: &Vec<Point>)
        requires
            points@.len() == old(self)@.points.len(),
        ensures
            final(self)@ == (PathModel { points: points@, ..old(self)@ }),
            final(self).known_convexity() == old(self).known_convexity(),
    {
        proof {
            use_type_invariant(&*self);
        }
        let mut ps = PointList::new();
        let mut i: usize = 0;
        assert(ps@ =~= points@.take(0));
        while i < points.len()
            invariant
                i <= points@.len(),
                ps@ == points@.take(i as int),
            decreases points@.len() - i,
        {
            ps.push(points[i]);
            assert(ps@ =~= points@.take(i + 1));
            i = i + 1;
        }
        assert(points@.take(i as int) =~= points@);
        self.points = ps;
    }

    /// The fill type.
    pub fn fill_type(&self) -> (r: FillType)
        ensures
            r == self@.fill,
    {
        self.fill_type
    }

    /// Sets the fill type.
    pub fn set_fill_type(&mut self, fill_type: FillType)
        ensures
            final(self)@ == (PathModel { fill: fill_type, ..old(self)@ }),
            final(self).known_convexity() == old(self).known_convexity(),
    {
        proof {
            use_type_invariant(&*self);
        }
        self.fill_type = fill_type;
    }

    /// Whether the path has no verbs.
    pub fn is_empty(&self) -> (r: bool)
        ensures
            r == (self@.verbs.len() == 0),
    {
        self.verbs.as_slice().len() == 0
    }

    /// The number of verbs.
    pub fn verb_count(&self) -> (n: usize)
        ensures
            n == self@.verbs.len(),
    {
        self.verbs.as_slice().len()
    }

    /// The number of points.
    pub fn point_count(&self) -> (n: usize)
        ensures
            n == self@.points.len(),
    {
        self.points.as_slice().len()
    }

    /// The verbs.
    pub fn verbs(&self) -> (s: &[Verb])
        ensures
            s@ == self@.verbs,
            self@.valid(),
    {
        proof {
            use_type_invariant(self);
        }
        self.verbs.as_slice()
    }

    /// The points.
    pub fn points(&self) -> (s: &[Point])
        ensures
            s@ == self@.points,
    {
        self.points.as_slice()
    }

    /// The weights of the conic curves.
    pub fn weights(&self) -> (s: &[u32])
        ensures
            s@ == self@.weights,
    {
        self.conic_weights.as_slice()
    }

    /// The last point.
    pub fn last_point(&self) -> (r: Option<Point>)
        ensures
            r == if self@.points.len() > 0 {
                Some(self@.points.last())
            } else {
                None
            },
    {
        let s = self.points.as_slice();
        let n: usize = s.len();
        if n > 0 {
            Some(s[n - 1])
        } else {
            None
        }
    }

    /// The number of contours: of verbs that move.
    pub fn contour_count(&self) -> (n: usize)
        ensures
            n == self@.verbs.filter(|v: Verb| v == Verb::Move).len(),
    {
        let vs = self.verbs.as_slice();
        let ghost is_move = |v: Verb| v == Verb::Move;
        let mut n: usize = 0;
        let mut i: usize = 0;
        proof {
            reveal(Seq::filter);
            assert(vs@.take(0) =~= Seq::empty());
        }
        while i < vs.len()
            invariant
                i <= vs@.len(),
                is_move == (|v: Verb| v == Verb::Move),
                n == vs@.take(i as int).filter(is_move).len(),
                n <= i,
            decreases vs@.len() - i,
        {
            proof {
                reveal(Seq::filter);
                assert(vs@.take(i + 1).drop_last() =~= vs@.take(i as int));
            }
            match vs[i] {
                Verb::Move => {
                    n = n + 1;
                },
                _ => {},
            }
            i = i + 1;
        }
        assert(vs@.take(i as int) =~= vs@);
        n
    }

    /// Whether the last verb closes a contour.
    pub fn is_closed(&self) -> (r: bool)
        ensures
            r == (self@.verbs.len() > 0 && self@.verbs.last() == Verb::Close),
    {
        let vs = self.verbs.as_slice();
        let n: usize = vs.len();
        if n == 0 {
            return false;
        }
        match vs[n - 1] {
            Verb::Close => true,
            _ => false,
        }
    }

    /// Whether the path is one line.
    pub fn is_line(&self) -> (r: bool)
        ensures
            r == (self@.verbs == seq![Verb::Move, Verb::Line]),
    {
        let vs = self.verbs.as_slice();
        if vs.len() != 2 {
            return false;
        }
        let r = match (vs[0], vs[1]) {
            (Verb::Move, Verb::Line) => true,
            _ => false,
        };
        assert(r ==> vs@ =~= seq![Verb::Move, Verb::Line]);
        r
    }

    /// Removes all verbs, points and weights.
    pub fn reset(&mut self)
        ensures
            final(self)@ == (PathModel {
                verbs: Seq::empty(),
                points: Seq::empty(),
                weights: Seq::empty(),
                fill: old(self)@.fill,
            }),
            final(self).known_convexity() == PathConvexity::Unknown,
    {
        let fill_type = self.fill_type;
        *self = Path {
            verbs: VerbList::new(),
            points: PointList::new(),
            conic_weights: WeightList::new(),
            fill_type,
            convexity: PathConvexity::Unknown,
        };
    }

    /// The elements of the path, from the first one on.
    pub fn iter(&self) -> (r: PathIter<'_>)
        ensures
            r.path_model() == self@,
            r.position() == 0,
    {
        proof {
            use_type_invariant(self);
        }
        PathIter { path: self, verb_index: 0, point_index: 0, weight_index: 0 }
    }
}

/// The smallest of the first `n` values; a NaN yields to a number.
pub open spec fn lowest(xs: Seq<u32>, n: nat) -> u32
    decreases n,
{
    if n <= 1 || n > xs.len() {
        xs[0]
    } else {
        float_min(lowest(xs, (n - 1) as nat), xs[n - 1])
    }
}

/// The largest of the first `n` values; a NaN yields to a number.
pub open spec fn highest(xs: Seq<u32>, n: nat) -> u32
    decreases n,
{
    if n <= 1 || n > xs.len() {
        xs[0]
    } else {
        float_max(highest(xs, (n - 1) as nat), xs[n - 1])
    }
}

/// Horizontal coordinates.
pub open spec fn xs_of(ps: Seq<Point>) -> Seq<u32> {
    Seq::new(ps.len(), |i: int| ps[i].x)
}

/// Vertical coordinates.
pub open spec fn ys_of(ps: Seq<Point>) -> Seq<u32> {
    Seq::new(ps.len(), |i: int| ps[i].y)
}

/// The empty rectangle at the origin.
pub open spec fn empty_rect() -> Rect {
    Rect { left: 0, top: 0, right: 0, bottom: 0 }
}

/// Whether all coordinates are finite.
pub open spec fn all_finite(ps: Seq<Point>) -> bool {
    forall|k: int| 0 <= k < ps.len() ==> is_finite((#[trigger] ps[k]).x) && is_finite(ps[k].y)
}

/// The rectangle around points. It is empty if there are none or if a
/// coordinate is not finite.
pub open spec fn bounds_of(ps: Seq<Point>) -> Rect {
    if ps.len() > 0 && all_finite(ps) {
        Rect {
            left: lowest(xs_of(ps), ps.len()),
            top: lowest(ys_of(ps), ps.len()),
            right: highest(xs_of(ps), ps.len()),
            bottom: highest(ys_of(ps), ps.len()),
        }
    } else {
        empty_rect()
    }
}

proof fn lemma_range(xs: Seq<u32>, n: nat, i: int)
    requires
        0 <= i < n <= xs.len(),
        forall|k: int| 0 <= k < xs.len() ==> is_finite(#[trigger] xs[k]),
    ensures
        float_le(lowest(xs, n), xs[i]),
        float_le(xs[i], highest(xs, n)),
        is_finite(lowest(xs, n)),
        is_finite(highest(xs, n)),
    decreases n,
{
    if n > 1 {
        lemma_range(xs, (n - 1) as nat, if i < n - 1 {
            i
        } else {
            0
        });
        assert(is_finite(xs[n - 1]));
    } else {
        assert(is_finite(xs[0]));
    }
}

/// Where all coordinates are finite, every point lies in the bounds.
pub proof fn bounds_hold_every_point(ps: Seq<Point>, i: int)
    requires
        0 <= i < ps.len(),
        all_finite(ps),
    ensures
        float_le(bounds_of(ps).left, ps[i].x),
        float_le(ps[i].x, bounds_of(ps).right),
        float_le(bounds_of(ps).top, ps[i].y),
        float_le(ps[i].y, bounds_of(ps).bottom),
{
    assert forall|k: int| 0 <= k < ps.len() implies is_finite(#[trigger] xs_of(ps)[k]) by {
        assert(is_finite(ps[k].x));
    }
    assert forall|k: int| 0 <= k < ps.len() implies is_finite(#[trigger] ys_of(ps)[k]) by {
        assert(is_finite(ps[k].y));
    }
    lemma_range(xs_of(ps), ps.len(), i);
    lemma_range(ys_of(ps), ps.len(), i);
}

impl Path {
    /// The rectangle around the points of the path.
    pub fn bounds(&self) -> (r: Rect)
        ensures
            r == bounds_of(self@.points),
    {
        let ps = self.points.as_slice();
        let n: usize = ps.len();
        if n == 0 {
            return Rect { left: 0, top: 0, right: 0, bottom: 0 };
        }
        let mut r = Rect { left: ps[0].x, top: ps[0].y, right: ps[0].x, bottom: ps[0].y };
        let mut finite = bits_finite(ps[0].x) && bits_finite(ps[0].y);
        let mut i: usize = 1;
        while i < n
            invariant
                n == ps@.len(),
                1 <= i <= n,
                finite == (forall|k: int|
                    0 <= k < i ==> is_finite((#[trigger] ps@[k]).x) && is_finite(ps@[k].y)),
                r.left == lowest(xs_of(ps@), i as nat),
                r.top == lowest(ys_of(ps@), i as nat),
                r.right == highest(xs_of(ps@), i as nat),
                r.bottom == highest(ys_of(ps@), i as nat),
            decreases n - i,
        {
            let p = ps[i];
            r = Rect {
                left: bits_min(r.left, p.x),
                top: bits_min(r.top, p.y),
                right: bits_max(r.right, p.x),
                bottom: bits_max(r.bottom, p.y),
            };
            finite = finite && bits_finite(p.x) && bits_finite(p.y);
            i = i + 1;
        }
        if finite {
            r
        } else {
            Rect { left: 0, top: 0, right: 0, bottom: 0 }
        }
    }
}

// ---------------------------------------------------------------------------
// Contours and reversal
// ---------------------------------------------------------------------------

/// Where the last contour of the first `k` verbs starts.
pub open spec fn last_move(vs: Seq<Verb>, k: nat) -> int
    decreases k,
{
    if k == 0 || k > vs.len() {
        0
    } else if vs[k - 1] == Verb::Move {
        k - 1
    } else {
        last_move(vs, (k - 1) as nat)
    }
}

/// The verbs of `vs` between `a` and `b` that draw, last one first.
pub open spec fn drawn_backwards(vs: Seq<Verb>, a: int, b: int) -> Seq<Verb>
    decreases b - a,
{
    if b <= a {
        Seq::empty()
    } else if vs[a] == Verb::Move || vs[a] == Verb::Close {
        drawn_backwards(vs, a + 1, b)
    } else {
        drawn_backwards(vs, a + 1, b).push(vs[a])
    }
}

/// Whether a verb between `a` and `b` closes the contour.
pub open spec fn closes(vs: Seq<Verb>, a: int, b: int) -> bool {
    exists|i: int| a <= i < b && vs[i] == Verb::Close
}

/// The verbs of one contour, backwards: a move, what is drawn, and one close
/// if there was any.
pub open spec fn contour_backwards(vs: Seq<Verb>, a: int, b: int) -> Seq<Verb> {
    let body = seq![Verb::Move] + drawn_backwards(vs, a + 1, b);
    if closes(vs, a, b) {
        body.push(Verb::Close)
    } else {
        body
    }
}

/// The contours of the first `k` verbs, last one first, each backwards.
pub open spec fn backwards(vs: Seq<Verb>, k: nat) -> Seq<Verb>
    decreases k,
{
    if k == 0 || k > vs.len() {
        Seq::empty()
    } else {
        let a = last_move(vs, k);
        if 0 <= a < k {
            contour_backwards(vs, a, k as int) + backwards(vs, a as nat)
        } else {
            Seq::empty()
        }
    }
}

/// A path run through the other way: the points and weights in reverse order,
/// and the contours backwards.
pub open spec fn reversed(m: PathModel) -> PathModel {
    PathModel {
        verbs: backwards(m.verbs, m.verbs.len()),
        points: m.points.reverse(),
        weights: m.weights.reverse(),
        fill: m.fill,
    }
}

proof fn lemma_last_move(vs: Seq<Verb>, a: int, e: nat)
    requires
        0 <= a < e <= vs.len(),
        vs[a] == Verb::Move,
        forall|i: int| a < i < e ==> vs[i] != Verb::Move,
    ensures
        last_move(vs, e) == a,
    decreases e,
{
    if e > a + 1 {
        assert(vs[e - 1] != Verb::Move);
        lemma_last_move(vs, a, (e - 1) as nat);
    }
}

proof fn lemma_push_verb(vs: Seq<Verb>, v: Verb)
    ensures
        points_before(vs.push(v), vs.push(v).len()) == points_before(vs, vs.len()) + v.points(),
        weights_before(vs.push(v), vs.push(v).len()) == weights_before(vs, vs.len())
            + v.weights(),
{
    lemma_points_prefix(vs.push(v), vs, vs.len());
}

/// Whether `out` holds the points from `p` on, last one first.
spec fn tail_backwards<T>(out: Seq<T>, all: Seq<T>, p: int) -> bool {
    &&& 0 <= p <= all.len()
    &&& out.len() == all.len() - p
    &&& forall|i: int| 0 <= i < out.len() ==> #[trigger] out[i] == all[all.len() - 1 - i]
}

impl Path {
    /// Runs through the path the other way.
    #[verifier::rlimit(40)]
    pub fn reverse(&mut self)
        ensures
            final(self)@ == reversed(old(self)@),
            old(self)@.verbs.len() > 0 ==> final(self).known_convexity() == PathConvexity::Unknown,
    {
        proof {
            use_type_invariant(&*self);
        }
        let vs = self.verbs.as_slice();
        let ps = self.points.as_slice();
        let ws = self.conic_weights.as_slice();
        let n: usize = vs.len();
        if n == 0 {
            assert(self@.points =~= self@.points.reverse());
            assert(self@.weights =~= self@.weights.reverse());
            assert(self@ =~= reversed(self@));
            return;
        }
        let mut nv = VerbList::new();
        let mut np = PointList::new();
        let mut nw = WeightList::new();
        let mut p: usize = ps.len();
        let mut wi: usize = ws.len();
        let mut need_move = true;
        let mut need_close = false;
        let mut vi: usize = n;
        let ghost mut e: nat = n as nat;
        let ghost mut done: Seq<Verb> = Seq::empty();
        proof {
            assert(done + backwards(vs@, e) =~= backwards(vs@, n as nat));
        }
        while vi > 0
            invariant
                n == vs@.len(),
                vi <= n,
                points_before(vs@, n as nat) == ps@.len(),
                weights_before(vs@, n as nat) == ws@.len(),
                n > 0,
                vs@[0] == Verb::Move,
                vi <= e <= n,
                need_move ==> e == vi && !need_close && nv@ == done,
                !need_move ==> vi < e && nv@ == done + (seq![Verb::Move] + drawn_backwards(
                    vs@,
                    vi as int,
                    e as int,
                )),
                vi == 0 ==> need_move,
                need_close == closes(vs@, vi as int, e as int),
                forall|i: int| vi <= i < e ==> vs@[i] != Verb::Move,
                done + backwards(vs@, e) == backwards(vs@, n as nat),
                p == if need_move {
                    points_before(vs@, vi as nat) as int
                } else {
                    points_before(vs@, vi as nat) - 1
                },
                wi == weights_before(vs@, vi as nat),
                tail_backwards(np@, ps@, p as int),
                tail_backwards(nw@, ws@, wi as int),
                points_before(nv@, nv@.len()) == np@.len(),
                weights_before(nv@, nv@.len()) == nw@.len(),
                nv@.len() > 0 ==> nv@[0] == Verb::Move,
            decreases vi,
        {
            let ghost top = vi;
            vi = vi - 1;
            let v = vs[vi];
            proof {
                lemma_points_before(vs@, 1, (vi + 1) as nat);
                lemma_points_before(vs@, vi as nat, n as nat);
                lemma_points_before(vs@, (vi + 1) as nat, n as nat);
                assert(points_before(vs@, 1) == points_before(vs@, 0) + 1);
                if vi > 0 {
                    lemma_points_before(vs@, 1, vi as nat);
                }
            }
            if need_move {
                proof {
                    lemma_push_verb(nv@, Verb::Move);
                }
                p = p - 1;
                np.push(ps[p]);
                nv.push(Verb::Move);
                need_move = false;
                assert(nv@ =~= done + (seq![Verb::Move] + drawn_backwards(
                    vs@,
                    top as int,
                    e as int,
                )));
            }
            match v {
                Verb::Move => {
                    assert(closes(vs@, vi as int, e as int) == closes(vs@, top as int, e as int));
                    proof {
                        lemma_last_move(vs@, vi as int, e);
                    }
                    if need_close {
                        proof {
                            lemma_push_verb(nv@, Verb::Close);
                        }
                        nv.push(Verb::Close);
                        need_close = false;
                    }
                    need_move = true;
                    proof {
                        assert(nv@ =~= done + contour_backwards(vs@, vi as int, e as int));
                        assert(nv@ + backwards(vs@, vi as nat) =~= done + (contour_backwards(
                            vs@,
                            vi as int,
                            e as int,
                        ) + backwards(vs@, vi as nat)));
                        done = nv@;
                        e = vi as nat;
                    }
                },
                Verb::Close => {
                    need_close = true;
                    assert(vs@[vi as int] == Verb::Close);
                },
                Verb::Line => {
                    proof {
                        lemma_push_verb(nv@, v);
                    }
                    p = p - 1;
                    np.push(ps[p]);
                    nv.push(v);
                },
                Verb::Quad => {
                    proof {
                        lemma_push_verb(nv@, v);
                    }
                    np.push(ps[p - 1]);
                    np.push(ps[p - 2]);
                    p = p - 2;
                    nv.push(v);
                },
                Verb::Conic => {
                    proof {
                        lemma_push_verb(nv@, v);
                    }
                    np.push(ps[p - 1]);
                    np.push(ps[p - 2]);
                    p = p - 2;
                    wi = wi - 1;
                    nw.push(ws[wi]);
                    nv.push(v);
                },
                Verb::Cubic => {
                    proof {
                        lemma_push_verb(nv@, v);
                    }
                    np.push(ps[p - 1]);
                    np.push(ps[p - 2]);
                    np.push(ps[p - 3]);
                    p = p - 3;
                    nv.push(v);
                },
            }
            proof {
                if v != Verb::Move {
                    if v != Verb::Close {
                        assert(nv@ =~= done + (seq![Verb::Move] + drawn_backwards(
                            vs@,
                            vi as int,
                            e as int,
                        )));
                    }
                    assert(closes(vs@, vi as int, e as int) == (v == Verb::Close || closes(
                        vs@,
                        top as int,
                        e as int,
                    ))) by {
                        if closes(vs@, top as int, e as int) {
                            let i = choose|i: int| top <= i < e && vs@[i] == Verb::Close;
                            assert(vi <= i < e && vs@[i] == Verb::Close);
                        }
                    }
                }
            }
        }
        let fill_type = self.fill_type;
        proof {
            assert(done + backwards(vs@, 0) =~= done);
            assert(np@ =~= ps@.reverse());
            assert(nw@ =~= ws@.reverse());
        }
        *self = Path {
            verbs: nv,
            points: np,
            conic_weights: nw,
            fill_type,
            convexity: PathConvexity::Unknown,
        };
    }
}

/// Whether a close, if there is one at `i`, is followed by a move.
pub open spec fn close_ends(vs: Seq<Verb>, i: int) -> bool {
    vs[i] == Verb::Close ==> vs[i + 1] == Verb::Move
}

/// Whether every contour starts with a move and is closed at most once, at
/// its end.
pub open spec fn tidy(vs: Seq<Verb>) -> bool {
    &&& (vs.len() > 0 ==> vs[0] == Verb::Move)
    &&& forall|i: int| 0 <= i < vs.len() - 1 ==> #[trigger] close_ends(vs, i)
}

proof fn lemma_last_move_bounds(vs: Seq<Verb>, k: nat)
    requires
        0 < k <= vs.len(),
        vs[0] == Verb::Move,
    ensures
        0 <= last_move(vs, k) < k,
        vs[last_move(vs, k)] == Verb::Move,
        forall|i: int| last_move(vs, k) < i < k ==> vs[i] != Verb::Move,
    decreases k,
{
    if vs[k - 1] != Verb::Move {
        lemma_last_move_bounds(vs, (k - 1) as nat);
    }
}

proof fn lemma_drawn_same(x: Seq<Verb>, y: Seq<Verb>, a: int, b: int, d: int)
    requires
        forall|i: int| a <= i < b ==> x[i + d] == y[i],
    ensures
        drawn_backwards(x, a + d, b + d) == drawn_backwards(y, a, b),
    decreases b - a,
{
    if a < b {
        lemma_drawn_same(x, y, a + 1, b, d);
        assert(x[a + d] == y[a]);
    }
}

proof fn lemma_contour_same(x: Seq<Verb>, y: Seq<Verb>, a: int, b: int, d: int)
    requires
        forall|i: int| a <= i < b ==> x[i + d] == y[i],
    ensures
        contour_backwards(x, a + d, b + d) == contour_backwards(y, a, b),
{
    lemma_drawn_same(x, y, a + 1, b, d);
    assert(closes(x, a + d, b + d) == closes(y, a, b)) by {
        if closes(y, a, b) {
            let i = choose|i: int| a <= i < b && y[i] == Verb::Close;
            assert(x[i + d] == Verb::Close);
        }
        if closes(x, a + d, b + d) {
            let i = choose|i: int| a + d <= i < b + d && x[i] == Verb::Close;
            assert(x[(i - d) + d] == y[i - d]);
        }
    }
}

proof fn lemma_backwards_prefix(x: Seq<Verb>, y: Seq<Verb>, k: nat)
    requires
        k <= x.len(),
        k <= y.len(),
        forall|i: int| 0 <= i < k ==> x[i] == y[i],
        k > 0 ==> x[0] == Verb::Move,
    ensures
        backwards(x, k) == backwards(y, k),
    decreases k,
{
    if k > 0 {
        lemma_last_move_bounds(x, k);
        let a = last_move(x, k);
        assert(y[a] == x[a]);
        assert forall|i: int| a < i < k implies y[i] != Verb::Move by {
            assert(x[i] == y[i]);
        }
        lemma_last_move(y, a, k);
        lemma_contour_same(x, y, a, k as int, 0);
        lemma_backwards_prefix(x, y, a as nat);
    }
}

proof fn lemma_backwards_append(x: Seq<Verb>, y: Seq<Verb>, k: nat)
    requires
        k <= y.len(),
        x.len() > 0 ==> x[0] == Verb::Move,
        k > 0 ==> y[0] == Verb::Move,
    ensures
        backwards(x + y, x.len() + k) == backwards(y, k) + backwards(x, x.len()),
    decreases k,
{
    let d = x.len() as int;
    let z = x + y;
    if k == 0 {
        lemma_backwards_prefix(z, x, x.len());
        assert(backwards(y, 0) + backwards(x, x.len()) =~= backwards(x, x.len()));
    } else {
        lemma_last_move_bounds(y, k);
        let a = last_move(y, k);
        assert(z[a + d] == y[a]);
        assert forall|i: int| a + d < i < d + k implies z[i] != Verb::Move by {
            assert(z[i] == y[i - d]);
        }
        lemma_last_move(z, a + d, x.len() + k);
        lemma_contour_same(z, y, a, k as int, d);
        lemma_backwards_append(x, y, a as nat);
        let c = contour_backwards(y, a, k as int);
        assert(backwards(z, x.len() + k) =~= c + backwards(z, x.len() + a as nat));
        assert(c + (backwards(y, a as nat) + backwards(x, x.len())) =~= (c + backwards(
            y,
            a as nat,
        )) + backwards(x, x.len()));
    }
}

proof fn lemma_drawn_plain(vs: Seq<Verb>, a: int, b: int)
    requires
        0 <= a <= b <= vs.len(),
        forall|i: int| a <= i < b ==> vs[i] != Verb::Move && vs[i] != Verb::Close,
    ensures
        drawn_backwards(vs, a, b) == vs.subrange(a, b).reverse(),
    decreases b - a,
{
    if a < b {
        lemma_drawn_plain(vs, a + 1, b);
        assert(vs.subrange(a, b).reverse() =~= vs.subrange(a + 1, b).reverse().push(vs[a]));
    } else {
        assert(vs.subrange(a, b).reverse() =~= Seq::empty());
    }
}

proof fn lemma_drawn_drop_close(vs: Seq<Verb>, a: int, b: int)
    requires
        0 <= a < b <= vs.len(),
        vs[b - 1] == Verb::Close,
    ensures
        drawn_backwards(vs, a, b) == drawn_backwards(vs, a, b - 1),
    decreases b - a,
{
    if a + 1 < b {
        lemma_drawn_drop_close(vs, a + 1, b);
    } else {
        assert(drawn_backwards(vs, a + 1, b) =~= Seq::empty());
        assert(drawn_backwards(vs, a, b - 1) =~= Seq::empty());
    }
}

/// The number of verbs of a contour without a close at its end.
spec fn body_len(c: Seq<Verb>) -> int {
    if c.last() == Verb::Close {
        c.len() - 1
    } else {
        c.len() as int
    }
}

/// Whether `c` is one contour: a move, verbs that draw, and perhaps a close.
spec fn one_contour(c: Seq<Verb>) -> bool {
    &&& c.len() > 0
    &&& c[0] == Verb::Move
    &&& forall|i: int| 1 <= i < body_len(c) ==> c[i] != Verb::Move && c[i] != Verb::Close
}

proof fn lemma_contour_backwards(c: Seq<Verb>)
    requires
        one_contour(c),
    ensures
        ({
            let n = body_len(c);
            let r = contour_backwards(c, 0, c.len() as int);
            &&& one_contour(r)
            &&& r.len() == c.len()
            &&& body_len(r) == n
            &&& forall|i: int| 1 <= i < n ==> r[i] == c[n - i]
        }),
        backwards(c, c.len()) == contour_backwards(c, 0, c.len() as int),
{
    let n = body_len(c);
    let len = c.len() as int;
    let r = contour_backwards(c, 0, len);
    lemma_drawn_plain(c, 1, n);
    if n < len {
        lemma_drawn_drop_close(c, 1, len);
        assert(c[len - 1] == Verb::Close);
        assert(closes(c, 0, len));
    } else {
        assert(!closes(c, 0, len)) by {
            if closes(c, 0, len) {
                let i = choose|i: int| 0 <= i < len && c[i] == Verb::Close;
                assert(i == 0 || c[i] != Verb::Close);
            }
        }
    }
    let d = c.subrange(1, n).reverse();
    assert(d.len() == n - 1);
    assert forall|i: int| 1 <= i < n implies r[i] == c[n - i] by {
        assert(r[i] == d[i - 1]);
    }
    assert forall|i: int| 0 < i < len implies c[i] != Verb::Move by {
        if i < n {
        } else {
            assert(c[i] == Verb::Close);
        }
    }
    lemma_last_move(c, 0, c.len());
    assert(backwards(c, 0) =~= Seq::empty());
    assert(backwards(c, c.len()) =~= r);
    if n < len {
        assert(r.last() == Verb::Close);
    } else if n > 1 {
        assert(r.last() == r[n - 1]);
    }
}

proof fn lemma_backwards_twice(vs: Seq<Verb>)
    requires
        tidy(vs),
    ensures
        backwards(backwards(vs, vs.len()), backwards(vs, vs.len()).len()) == vs,
        vs.len() > 0 ==> backwards(vs, vs.len()).len() > 0 && backwards(vs, vs.len())[0]
            == Verb::Move,
    decreases vs.len(),
{
    if vs.len() == 0 {
        assert(backwards(vs, 0) =~= Seq::empty());
        assert(backwards(Seq::empty(), 0) =~= vs);
    } else {
        lemma_last_move_bounds(vs, vs.len());
        let a = last_move(vs, vs.len());
        let pre = vs.take(a);
        let c = vs.skip(a);
        assert(vs =~= pre + c);
        assert(tidy(pre)) by {
            assert forall|i: int| 0 <= i < pre.len() - 1 implies #[trigger] close_ends(pre, i) by {
                assert(close_ends(vs, i));
            }
        }
        assert(one_contour(c)) by {
            assert forall|i: int| 1 <= i < body_len(c) implies c[i] != Verb::Move && c[i]
                != Verb::Close by {
                assert(c[i] == vs[a + i]);
                if c[i] == Verb::Close {
                    if i < c.len() - 1 {
                        assert(close_ends(vs, a + i));
                    } else {
                        assert(c.last() == Verb::Close);
                    }
                }
            }
        }
        lemma_backwards_append(pre, c, c.len());
        lemma_contour_backwards(c);
        let rc = contour_backwards(c, 0, c.len() as int);
        lemma_contour_backwards(rc);
        let rrc = contour_backwards(rc, 0, rc.len() as int);
        assert(rrc =~= c) by {
            let n = body_len(c);
            assert forall|i: int| 0 <= i < c.len() implies rrc[i] == c[i] by {
                if 1 <= i < n {
                    assert(rrc[i] == rc[n - i]);
                    assert(rc[n - i] == c[n - (n - i)]);
                } else if i >= n {
                    assert(c[i] == c.last());
                    assert(rrc[i] == rrc.last());
                }
            }
        }
        lemma_backwards_twice(pre);
        let rp = backwards(pre, pre.len());
        lemma_backwards_append(rc, rp, rp.len());
        assert(backwards(vs, vs.len()) == rc + rp);
        assert(backwards(rc + rp, (rc + rp).len()) =~= pre + c);
    }
}

/// Running through a tidy path the other way twice gives it back.
pub proof fn reversing_twice_is_identity(m: PathModel)
    requires
        tidy(m.verbs),
    ensures
        reversed(reversed(m)) == m,
{
    lemma_backwards_twice(m.verbs);
    assert(m.points.reverse().reverse() =~= m.points);
    assert(m.weights.reverse().reverse() =~= m.weights);
}

/// A place among the elements of a path.
pub struct PathIter<'a> {
    path: &'a Path,
    verb_index: usize,
    point_index: usize,
    weight_index: usize,
}

impl<'a> PathIter<'a> {
    /// The path.
    pub closed spec fn path_model(&self) -> PathModel {
        self.path@
    }

    /// How many elements have been read.
    pub closed spec fn position(&self) -> nat {
        self.verb_index as nat
    }

    #[verifier::type_invariant]
    spec fn well_formed(&self) -> bool {
        &&& self.path@.valid()
        &&& self.verb_index <= self.path@.verbs.len()
        &&& self.point_index == points_before(self.path@.verbs, self.verb_index as nat)
        &&& self.weight_index == weights_before(self.path@.verbs, self.verb_index as nat)
    }

    /// The next element, if there is one.
    pub fn next(&mut self) -> (r: Option<PathElement>)
        ensures
            final(self).path_model() == old(self).path_model(),
            if old(self).position() < old(self).path_model().verbs.len() {
                r == Some(old(self).path_model().element(old(self).position() as int))
                    && final(self).position() == old(self).position() + 1
            } else {
                r is None && final(self).position() == old(self).position()
            },
    {
        proof {
            use_type_invariant(&*self);
        }
        let path = self.path;
        let vi: usize = self.verb_index;
        let p: usize = self.point_index;
        let w: usize = self.weight_index;
        let vs = path.verbs.as_slice();
        if vi >= vs.len() {
            return None;
        }
        proof {
            lemma_points_before(vs@, (vi + 1) as nat, vs@.len());
        }
        let ps = path.points.as_slice();
        let ws = path.conic_weights.as_slice();
        let np: usize = ps.len();
        let nw: usize = ws.len();
        let v = vs[vi];
        let e = match v {
            Verb::Move => PathElement::Move(ps[p]),
            Verb::Line => PathElement::Line(ps[p]),
            Verb::Quad => PathElement::Quad(ps[p], ps[p + 1]),
            Verb::Conic => PathElement::Conic(ps[p], ps[p + 1], ws[w]),
            Verb::Cubic => PathElement::Cubic(ps[p], ps[p + 1], ps[p + 2]),
            Verb::Close => PathElement::Close,
        };
        let dw: usize = match v {
            Verb::Conic => 1,
            _ => 0,
        };
        *self = PathIter {
            path,
            verb_index: vi + 1,
            point_index: p + v.point_count(),
            weight_index: w + dw,
        };
        Some(e)
    }
}

/// Whether points have equal coordinates one by one.
pub open spec fn points_match(a: Seq<Point>, b: Seq<Point>) -> bool {
    &&& a.len() == b.len()
    &&& forall|i: int|
        0 <= i < a.len() ==> float_eq((#[trigger] a[i]).x, b[i].x) && float_eq(a[i].y, b[i].y)
}

/// Whether numbers are equal one by one.
pub open spec fn weights_match(a: Seq<u32>, b: Seq<u32>) -> bool {
    &&& a.len() == b.len()
    &&& forall|i: int| 0 <= i < a.len() ==> float_eq(#[trigger] a[i], b[i])
}

impl PathModel {
    /// Whether two paths have the same verbs and fill type, and equal points
    /// and weights.
    pub open spec fn same(self, other: PathModel) -> bool {
        &&& self.verbs == other.verbs
        &&& points_match(self.points, other.points)
        &&& weights_match(self.weights, other.weights)
        &&& self.fill == other.fill
    }

    /// Whether every coordinate and weight is a number.
    pub open spec fn is_numeric(self) -> bool {
        &&& forall|i: int|
            0 <= i < self.points.len() ==> !is_nan((#[trigger] self.points[i]).x) && !is_nan(
                self.points[i].y,
            )
        &&& forall|i: int| 0 <= i < self.weights.len() ==> !is_nan(#[trigger] self.weights[i])
    }
}

/// Whether verbs are the same.
fn verbs_equal(a: &[Verb], b: &[Verb]) -> (r: bool)
    ensures
        r == (a@ == b@),
{
    if a.len() != b.len() {
        return false;
    }
    let mut i: usize = 0;
    while i < a.len()
        invariant
            i <= a@.len() == b@.len(),
            forall|j: int| 0 <= j < i ==> a@[j] == b@[j],
        decreases a@.len() - i,
    {
        if a[i] != b[i] {
            return false;
        }
        i = i + 1;
    }
    assert(a@ =~= b@);
    true
}

/// Whether points are equal one by one.
fn points_equal(a: &[Point], b: &[Point]) -> (r: bool)
    ensures
        r == points_match(a@, b@),
{
    if a.len() != b.len() {
        return false;
    }
    let mut i: usize = 0;
    while i < a.len()
        invariant
            i <= a@.len() == b@.len(),
            forall|j: int|
                0 <= j < i ==> float_eq((#[trigger] a@[j]).x, b@[j].x) && float_eq(
                    a@[j].y,
                    b@[j].y,
                ),
        decreases a@.len() - i,
    {
        if !bits_eq(a[i].x, b[i].x) || !bits_eq(a[i].y, b[i].y) {
            return false;
        }
        i = i + 1;
    }
    true
}

/// Whether numbers are equal one by one.
fn weights_equal(a: &[u32], b: &[u32]) -> (r: bool)
    ensures
        r == weights_match(a@, b@),
{
    if a.len() != b.len() {
        return false;
    }
    let mut i: usize = 0;
    while i < a.len()
        invariant
            i <= a@.len() == b@.len(),
            forall|j: int| 0 <= j < i ==> float_eq(#[trigger] a@[j], b@[j]),
        decreases a@.len() - i,
    {
        if !bits_eq(a[i], b[i]) {
            return false;
        }
        i = i + 1;
    }
    true
}

impl PartialEq for Path {
    fn eq(&self, other: &Path) -> (r: bool) {
        verbs_equal(self.verbs.as_slice(), other.verbs.as_slice()) && points_equal(
            self.points.as_slice(),
            other.points.as_slice(),
        ) && weights_equal(self.conic_weights.as_slice(), other.conic_weights.as_slice())
            && self.fill_type == other.fill_type
    }
}

impl vstd::std_specs::cmp::PartialEqSpecImpl for Path {
    open spec fn obeys_eq_spec() -> bool {
        true
    }

    open spec fn eq_spec(&self, other: &Path) -> bool {
        self@.same(other@)
    }
}

impl Clone for Path {
    fn clone(&self) -> (r: Path)
        ensures
            r@ == self@,
            r.known_convexity() == self.known_convexity(),
    {
        self.duplicate()
    }
}

/// A path whose coordinates and weights are all numbers is equal to itself;
/// equality is symmetric and transitive.
pub proof fn equality_is_an_equivalence(a: PathModel, b: PathModel, c: PathModel)
    ensures
        a.is_numeric() ==> a.same(a),
        a.same(b) ==> b.same(a),
        a.same(b) && b.same(c) ==> a.same(c),
{
}

} // verus!
