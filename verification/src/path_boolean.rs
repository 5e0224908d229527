//! Boolean operations on paths.
//!
//! Paths become polygons with holes, which are combined by a function that is
//! handed in; what comes back becomes a path again. Paths that lie apart need
//! none of that.

use vstd::prelude::*;

use crate::arith::{FloatOp, FloatUnit, Ops};
use crate::float_bits::{bits_lt, bits_neg, float_lt, negated};
use crate::geometry::Point;
use crate::linearize::by_halves;
use crate::path::{FillType, Path, PathModel};
use crate::path_ops::{
    Group, GroupModel, OpPlan, PathOp, Ring, RingModel, group_models, group_polygons, groups_of,
    joined, numbers, path_along, plan, plan_op, points_of, polygons_of, polygons_to_path,
    ring_models,
};

verus! {

// ---------------------------------------------------------------------------
// Holes
// ---------------------------------------------------------------------------

/// Twice the signed area that the first `n` edges of a polygon span.
pub open spec fn doubled_area(f: Ops, ps: Seq<Point>, n: nat) -> u32
    decreases n,
{
    if n == 0 {
        0
    } else {
        let p = ps[n - 1];
        let q = if n < ps.len() {
            ps[n as int]
        } else {
            ps[0]
        };
        f(
            FloatOp::MulAdd,
            q.x,
            negated(p.y),
            f(FloatOp::MulAdd, p.x, q.y, doubled_area(f, ps, (n - 1) as nat)),
        )
    }
}

/// Whether a polygon is a hole: its winding counts and its area is negative.
pub open spec fn is_hole(f: Ops, r: RingModel) -> bool {
    r.judged && r.points.len() >= 3 && float_lt(
        f(FloatOp::Div, doubled_area(f, r.points, r.points.len()), 0x4000_0000, 0),
        0,
    )
}

/// Which polygons are holes.
pub open spec fn holes_among(f: Ops, rs: Seq<RingModel>) -> Seq<bool> {
    Seq::new(rs.len(), |i: int| is_hole(f, rs[i]))
}

/// Whether a polygon is a hole.
fn ring_is_hole<A: Fn(FloatOp, u32, u32, u32) -> u32>(f: &FloatUnit<A>, r: &Ring) -> (h: bool)
    requires
        f.steady(),
    ensures
        h == is_hole(f.ops(), (RingModel { points: r.points@, judged: r.judged })),
{
    let n: usize = r.points.len();
    if !r.judged || n < 3 {
        return false;
    }
    let mut area: u32 = 0;
    let mut i: usize = 0;
    while i < n
        invariant
            f.steady(),
            n == r.points@.len(),
            i <= n,
            area == doubled_area(f.ops(), r.points@, i as nat),
        decreases n - i,
    {
        let p = r.points[i];
        let q = if i + 1 < n {
            r.points[i + 1]
        } else {
            r.points[0]
        };
        let m: u32 = f.op(FloatOp::MulAdd, p.x, q.y, area);
        area = f.op(FloatOp::MulAdd, q.x, bits_neg(p.y), m);
        i = i + 1;
    }
    let half: u32 = f.op(FloatOp::Div, area, 0x4000_0000, 0);
    bits_lt(half, 0)
}

// ---------------------------------------------------------------------------
// Polygons with holes
// ---------------------------------------------------------------------------

/// A polygon with holes.
#[derive(Debug)]
pub struct Shape {
    /// The outer polygon.
    pub shell: Vec<Point>,
    /// The holes.
    pub holes: Vec<Vec<Point>>,
}

/// A polygon with holes as a mathematical value.
#[verifier::ext_equal]
pub struct ShapeModel {
    /// The outer polygon.
    pub shell: Seq<Point>,
    /// The holes.
    pub holes: Seq<Seq<Point>>,
}

/// The models of polygons with holes.
pub open spec fn shape_models(v: Seq<Shape>) -> Seq<ShapeModel> {
    Seq::new(v.len(), |i: int| ShapeModel { shell: v[i].shell@, holes: points_of(v[i].holes@) })
}

/// The points of polygons given by number.
pub open spec fn rings_at(rs: Seq<RingModel>, at: Seq<int>) -> Seq<Seq<Point>> {
    Seq::new(at.len(), |i: int| rs[at[i]].points)
}

/// The shape of a group of polygons.
pub open spec fn group_shape(rs: Seq<RingModel>, g: GroupModel) -> ShapeModel {
    ShapeModel { shell: rs[g.shell].points, holes: rings_at(rs, g.holes) }
}

/// The shapes of polygons.
pub open spec fn shapes_of(f: Ops, rs: Seq<RingModel>) -> Seq<ShapeModel> {
    let gs = groups_of(holes_among(f, rs));
    Seq::new(gs.len(), |i: int| group_shape(rs, gs[i]))
}

/// How far the lines of polygons may lie from the curves they stand for: half a
/// unit.
pub const HALF_UNIT: u32 = 0x3f00_0000;

/// The shapes of a path.
pub open spec fn path_shapes(f: Ops, m: PathModel) -> Seq<ShapeModel> {
    shapes_of(f, polygons_of(by_halves(f, HALF_UNIT), m))
}

/// A copy of points.
fn copy_points(s: &Vec<Point>) -> (r: Vec<Point>)
    ensures
        r@ == s@,
{
    let mut r: Vec<Point> = Vec::new();
    let mut i: usize = 0;
    while i < s.len()
        invariant
            i <= s@.len(),
            r@ == s@.take(i as int),
        decreases s@.len() - i,
    {
        r.push(s[i]);
        assert(r@ =~= s@.take(i + 1));
        i = i + 1;
    }
    assert(s@.take(i as int) =~= s@);
    r
}

/// The shape of a group of polygons.
fn make_shape(rings: &Vec<Ring>, g: &Group) -> (r: Shape)
    requires
        g.shell < rings@.len(),
        forall|i: int| 0 <= i < g.holes@.len() ==> (#[trigger] g.holes@[i]) < rings@.len(),
    ensures
        (ShapeModel { shell: r.shell@, holes: points_of(r.holes@) }) == group_shape(
            ring_models(rings@),
            (GroupModel { shell: g.shell as int, holes: numbers(g.holes@) }),
        ),
{
    let ghost rs = ring_models(rings@);
    let ghost want = rings_at(rs, numbers(g.holes@));
    let shell = copy_points(&rings[g.shell].points);
    let mut holes: Vec<Vec<Point>> = Vec::new();
    let mut i: usize = 0;
    while i < g.holes.len()
        invariant
            rs == ring_models(rings@),
            want == rings_at(rs, numbers(g.holes@)),
            i <= g.holes@.len(),
            forall|i: int| 0 <= i < g.holes@.len() ==> (#[trigger] g.holes@[i]) < rings@.len(),
            holes@.len() == i,
            forall|k: int| 0 <= k < i ==> (#[trigger] holes@[k])@ == want[k],
        decreases g.holes@.len() - i,
    {
        let h: usize = g.holes[i];
        holes.push(copy_points(&rings[h].points));
        i = i + 1;
    }
    assert(points_of(holes@) =~= want);
    Shape { shell, holes }
}

/// The numbers in groups of polygons are numbers of polygons.
proof fn lemma_groups_in_range(h: Seq<bool>)
    ensures
        forall|i: int|
            0 <= i < groups_of(h).len() ==> 0 <= (#[trigger] groups_of(h)[i]).shell < h.len(),
        forall|i: int, j: int|
            0 <= i < groups_of(h).len() && 0 <= j < groups_of(h)[i].holes.len() ==> 0
                <= #[trigger] groups_of(h)[i].holes[j] < h.len(),
{
    lemma_grouping_in_range(h, h.len());
}

proof fn lemma_grouping_in_range(h: Seq<bool>, k: nat)
    requires
        k <= h.len(),
    ensures
        ({
            let g = crate::path_ops::grouping(h, k);
            &&& forall|i: int| 0 <= i < g.done.len() ==> 0 <= (#[trigger] g.done[i]).shell < k
            &&& forall|i: int, j: int|
                0 <= i < g.done.len() && 0 <= j < g.done[i].holes.len() ==> 0
                    <= #[trigger] g.done[i].holes[j] < k
            &&& g.shell matches Some(s) ==> 0 <= s < k
            &&& forall|j: int| 0 <= j < g.holes.len() ==> 0 <= #[trigger] g.holes[j] < k
        }),
    decreases k,
{
    if k > 0 {
        lemma_grouping_in_range(h, (k - 1) as nat);
    }
}

/// The shapes of polygons.
fn make_shapes<A: Fn(FloatOp, u32, u32, u32) -> u32>(f: &FloatUnit<A>, rings: &Vec<Ring>) -> (r:
    Vec<Shape>)
    requires
        f.steady(),
    ensures
        shape_models(r@) == shapes_of(f.ops(), ring_models(rings@)),
{
    let ghost rs = ring_models(rings@);
    let n: usize = rings.len();
    let mut holes: Vec<bool> = Vec::new();
    let mut i: usize = 0;
    while i < n
        invariant
            f.steady(),
            n == rings@.len(),
            rs == ring_models(rings@),
            i <= n,
            holes@.len() == i,
            forall|k: int| 0 <= k < i ==> #[trigger] holes@[k] == is_hole(f.ops(), rs[k]),
        decreases n - i,
    {
        holes.push(ring_is_hole(f, &rings[i]));
        i = i + 1;
    }
    assert(holes@ =~= holes_among(f.ops(), rs));
    let groups = group_polygons(&holes);
    let ghost gs = groups_of(holes@);
    let ghost want = shapes_of(f.ops(), rs);
    proof {
        lemma_groups_in_range(holes@);
    }
    let mut out: Vec<Shape> = Vec::new();
    let mut k: usize = 0;
    while k < groups.len()
        invariant
            n == rings@.len(),
            rs == ring_models(rings@),
            rs.len() == n,
            gs == group_models(groups@),
            gs == groups_of(holes_among(f.ops(), rs)),
            want == shapes_of(f.ops(), rs),
            k <= groups@.len(),
            forall|i: int| 0 <= i < gs.len() ==> 0 <= (#[trigger] gs[i]).shell < n,
            forall|i: int, j: int|
                0 <= i < gs.len() && 0 <= j < gs[i].holes.len() ==> 0 <= #[trigger] gs[i].holes[j]
                    < n,
            out@.len() == k,
            forall|i: int| 0 <= i < k ==> #[trigger] shape_models(out@)[i] == want[i],
        decreases groups@.len() - k,
    {
        let g = &groups[k];
        assert(gs[k as int] == (GroupModel { shell: g.shell as int, holes: numbers(g.holes@) }));
        assert forall|i: int| 0 <= i < g.holes@.len() implies (#[trigger] g.holes@[i]) < n by {
            assert(gs[k as int].holes[i] < n);
        }
        let ghost before = shape_models(out@);
        out.push(make_shape(rings, g));
        assert forall|i: int| 0 <= i < k + 1 implies #[trigger] shape_models(out@)[i] == want[i] by {
            if i < k {
                assert(before[i] == want[i]);
            }
        }
        k = k + 1;
    }
    assert(shape_models(out@) =~= want);
    out
}

// ---------------------------------------------------------------------------
// Operations
// ---------------------------------------------------------------------------

/// Whether `z` may be what a function makes of two sets of shapes.
pub open spec fn may_combine<K: Fn(PathOp, &Vec<Shape>, &Vec<Shape>) -> Vec<Vec<Point>>>(
    combine: K,
    op: PathOp,
    a: Seq<ShapeModel>,
    b: Seq<ShapeModel>,
    z: Seq<Seq<Point>>,
) -> bool {
    exists|x: &Vec<Shape>, y: &Vec<Shape>, r: Vec<Vec<Point>>|
        shape_models(x@) == a && shape_models(y@) == b && points_of(r@) == z
            && #[trigger] call_ensures(combine, (op, x, y), r)
}

/// Whether a function can be asked for any operation but the reverse
/// difference, and always answers the same.
pub open spec fn combines<K: Fn(PathOp, &Vec<Shape>, &Vec<Shape>) -> Vec<Vec<Point>>>(
    combine: K,
) -> bool {
    &&& forall|o: PathOp, x: &Vec<Shape>, y: &Vec<Shape>|
        o != PathOp::ReverseDifference ==> #[trigger] call_requires(combine, (o, x, y))
    &&& forall|
        o: PathOp,
        a: Seq<ShapeModel>,
        b: Seq<ShapeModel>,
        y: Seq<Seq<Point>>,
        z: Seq<Seq<Point>>,
    |
        #[trigger] may_combine(combine, o, a, b, y) && #[trigger] may_combine(combine, o, a, b, z)
            ==> y == z
}

/// The polygons of an operation on two sets of shapes.
pub type Combined = spec_fn(PathOp, Seq<ShapeModel>, Seq<ShapeModel>) -> Seq<Seq<Point>>;

/// The polygons that a function answers.
pub open spec fn combined<K: Fn(PathOp, &Vec<Shape>, &Vec<Shape>) -> Vec<Vec<Point>>>(
    combine: K,
) -> Combined {
    |o: PathOp, a: Seq<ShapeModel>, b: Seq<ShapeModel>|
        choose|z: Seq<Seq<Point>>| may_combine(combine, o, a, b, z)
}

/// The path without anything.
pub open spec fn no_path() -> PathModel {
    PathModel {
        verbs: Seq::empty(),
        points: Seq::empty(),
        weights: Seq::empty(),
        fill: FillType::Winding,
    }
}

/// The polygons of an operation on two paths that overlap. The reverse
/// difference is the difference with the paths exchanged.
pub open spec fn overlaid(
    k: Combined,
    op: PathOp,
    a: Seq<ShapeModel>,
    b: Seq<ShapeModel>,
) -> Seq<Seq<Point>> {
    if op == PathOp::ReverseDifference {
        k(PathOp::Difference, b, a)
    } else {
        k(op, a, b)
    }
}

/// The outcome of an operation on two paths.
pub open spec fn operated(
    f: Ops,
    k: Combined,
    a: PathModel,
    b: PathModel,
    op: PathOp,
) -> PathModel {
    match plan(a, b, op) {
        OpPlan::Nothing => no_path(),
        OpPlan::First => a,
        OpPlan::Second => b,
        OpPlan::Both => joined(a, b),
        OpPlan::Combine => path_along(
            overlaid(k, op, path_shapes(f, a), path_shapes(f, b)),
        ),
    }
}

/// Asks for the polygons of an operation on two sets of shapes.
fn ask<K: Fn(PathOp, &Vec<Shape>, &Vec<Shape>) -> Vec<Vec<Point>>>(
    kind: PathOp,
    a: &Vec<Shape>,
    b: &Vec<Shape>,
    combine: &K,
) -> (z: Vec<Vec<Point>>)
    requires
        kind != PathOp::ReverseDifference,
        combines(*combine),
    ensures
        points_of(z@) == combined(*combine)(kind, shape_models(a@), shape_models(b@)),
{
    let z = combine(kind, a, b);
    assert(may_combine(*combine, kind, shape_models(a@), shape_models(b@), points_of(z@)));
    z
}

/// Combines shapes and makes a path of what comes back.
fn overlay<K: Fn(PathOp, &Vec<Shape>, &Vec<Shape>) -> Vec<Vec<Point>>>(
    kind: PathOp,
    a: &Vec<Shape>,
    b: &Vec<Shape>,
    combine: &K,
) -> (r: Path)
    requires
        combines(*combine),
    ensures
        r@ == path_along(
            overlaid(combined(*combine), kind, shape_models(a@), shape_models(b@)),
        ),
{
    let z = match kind {
        PathOp::ReverseDifference => ask(PathOp::Difference, b, a, combine),
        _ => ask(kind, a, b, combine),
    };
    polygons_to_path(&z)
}

/// The shapes of a path.
fn shapes<A: Fn(FloatOp, u32, u32, u32) -> u32>(
    f: &FloatUnit<A>,
    path: &Path,
) -> (r: Vec<Shape>)
    requires
        f.steady(),
    ensures
        shape_models(r@) == path_shapes(f.ops(), path@),
{
    let rings = path.polygons(f, HALF_UNIT);
    make_shapes(f, &rings)
}

/// Combines two paths. Curves are cut into lines; `combine` is asked for the
/// polygons of a difference, intersection, union or exclusive union, and
/// only where the bounds of the paths overlap.
pub fn op<
    A: Fn(FloatOp, u32, u32, u32) -> u32,
    K: Fn(PathOp, &Vec<Shape>, &Vec<Shape>) -> Vec<Vec<Point>>,
>(f: &FloatUnit<A>, path1: &Path, path2: &Path, kind: PathOp, combine: K) -> (r:
    Option<Path>)
    requires
        f.steady(),
        combines(combine),
    ensures
        r is Some,
        r->0@ == operated(f.ops(), combined(combine), path1@, path2@, kind),
{
    let path = match plan_op(path1, path2, kind) {
        OpPlan::Nothing => Path::new(),
        OpPlan::First => path1.duplicate(),
        OpPlan::Second => path2.duplicate(),
        OpPlan::Both => path1.followed_by(path2),
        OpPlan::Combine => {
            let a = shapes(f, path1);
            let b = shapes(f, path2);
            overlay(kind, &a, &b, &combine)
        },
    };
    Some(path)
}

/// Resolves where a path crosses or covers itself: it is united with nothing.
pub fn simplify<
    A: Fn(FloatOp, u32, u32, u32) -> u32,
    K: Fn(PathOp, &Vec<Shape>, &Vec<Shape>) -> Vec<Vec<Point>>,
>(f: &FloatUnit<A>, path: &Path, combine: K) -> (r: Option<Path>)
    requires
        f.steady(),
        combines(combine),
    ensures
        r is Some,
        r->0@ == if path@.verbs.len() == 0 {
            no_path()
        } else {
            path_along(
                combined(combine)(
                    PathOp::Union,
                    path_shapes(f.ops(), path@),
                    Seq::empty(),
                ),
            )
        },
{
    if path.is_empty() {
        return Some(Path::new());
    }
    let a = shapes(f, path);
    let b: Vec<Shape> = Vec::new();
    assert(shape_models(b@) =~= Seq::empty());
    let z = ask(PathOp::Union, &a, &b, &combine);
    Some(polygons_to_path(&z))
}

/// The difference of two paths is the reverse difference of the paths
/// exchanged.
pub proof fn differences_are_exchanged(f: Ops, k: Combined, a: PathModel, b: PathModel)
    ensures
        operated(f, k, a, b, PathOp::Difference) == operated(
            f,
            k,
            b,
            a,
            PathOp::ReverseDifference,
        ),
{
}

/// With an empty path, union and exclusive union give the other path, the
/// difference gives the path that is subtracted from, and the intersection
/// gives an empty path.
pub proof fn empty_paths_change_nothing(f: Ops, k: Combined, a: PathModel, e: PathModel)
    requires
        e.verbs.len() == 0,
    ensures
        a.verbs.len() > 0 ==> operated(f, k, a, e, PathOp::Union) == a,
        a.verbs.len() > 0 ==> operated(f, k, e, a, PathOp::Union) == a,
        a.verbs.len() > 0 ==> operated(f, k, a, e, PathOp::Xor) == a,
        a.verbs.len() > 0 ==> operated(f, k, e, a, PathOp::Xor) == a,
        a.verbs.len() > 0 ==> operated(f, k, a, e, PathOp::Difference) == a,
        a.verbs.len() > 0 ==> operated(f, k, e, a, PathOp::ReverseDifference) == a,
        operated(f, k, a, e, PathOp::Intersect) == no_path(),
        operated(f, k, e, a, PathOp::Intersect) == no_path(),
        operated(f, k, e, a, PathOp::Difference) == no_path(),
        operated(f, k, a, e, PathOp::ReverseDifference) == no_path(),
        a.verbs.len() == 0 ==> forall|op: PathOp|
            operated(f, k, a, e, op) == no_path(),
{
}

} // verus!
