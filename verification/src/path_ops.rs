//! Boolean operations on paths.
//!
//! What an operation comes to where an operand is empty, or where the operands
//! lie apart, is decided here. Otherwise the operands are cut into polygons,
//! the polygons are combined elsewhere, and the outcome is made a path again.

use vstd::prelude::*;

use crate::arith::{FloatOp, FloatUnit};
use crate::float_bits::{bits_lt, float_lt};
use crate::geometry::{Point, Rect};
use crate::linearize::{by_halves, cut_by_halves};
use crate::lists::Verb;
use crate::outline::Flat;
use crate::path::{
    FillType, Path, PathElement, PathModel, bounds_of, points_before, weights_before,
};
use crate::path_edges::Edge;

verus! {

/// A boolean operation.
#[derive(Debug, Clone, Copy, PartialEq, Eq, Structural)]
pub enum PathOp {
    /// What lies in the first path but not in the second.
    Difference,
    /// What lies in both.
    Intersect,
    /// What lies in one of them.
    Union,
    /// What lies in exactly one of them.
    Xor,
    /// What lies in the second path but not in the first.
    ReverseDifference,
}

/// What an operation on two paths comes to.
#[derive(Debug, Clone, Copy, PartialEq, Eq, Structural)]
pub enum OpPlan {
    /// Nothing.
    Nothing,
    /// The first path.
    First,
    /// The second path.
    Second,
    /// The first path followed by the second.
    Both,
    /// Polygons have to be combined.
    Combine,
}

/// Whether two rectangles overlap.
pub open spec fn overlap(a: Rect, b: Rect) -> bool {
    float_lt(a.left, b.right) && float_lt(b.left, a.right) && float_lt(a.top, b.bottom) && float_lt(
        b.top,
        a.bottom,
    )
}

/// Whether two rectangles overlap.
pub fn bounds_intersect(a: &Rect, b: &Rect) -> (r: bool)
    ensures
        r == overlap(*a, *b),
{
    bits_lt(a.left, b.right) && bits_lt(b.left, a.right) && bits_lt(a.top, b.bottom) && bits_lt(
        b.top,
        a.bottom,
    )
}

/// What an operation keeps where the two paths lie apart: of the first path,
/// and of the second.
pub open spec fn keeps(op: PathOp) -> (bool, bool) {
    match op {
        PathOp::Difference => (true, false),
        PathOp::Intersect => (false, false),
        PathOp::Union => (true, true),
        PathOp::Xor => (true, true),
        PathOp::ReverseDifference => (false, true),
    }
}

/// What an operation on two paths comes to. An empty path lies apart from any
/// other.
pub open spec fn plan(a: PathModel, b: PathModel, op: PathOp) -> OpPlan {
    let no_a = a.verbs.len() == 0;
    let no_b = b.verbs.len() == 0;
    if !no_a && !no_b && overlap(bounds_of(a.points), bounds_of(b.points)) {
        OpPlan::Combine
    } else {
        let first = keeps(op).0 && !no_a;
        let second = keeps(op).1 && !no_b;
        if first && second {
            OpPlan::Both
        } else if first {
            OpPlan::First
        } else if second {
            OpPlan::Second
        } else {
            OpPlan::Nothing
        }
    }
}

/// What an operation on two paths comes to.
pub fn plan_op(a: &Path, b: &Path, op: PathOp) -> (r: OpPlan)
    ensures
        r == plan(a@, b@, op),
{
    let no_a = a.is_empty();
    let no_b = b.is_empty();
    if !no_a && !no_b {
        let ra = a.bounds();
        let rb = b.bounds();
        if bounds_intersect(&ra, &rb) {
            return OpPlan::Combine;
        }
    }
    let (keep_a, keep_b) = match op {
        PathOp::Difference => (true, false),
        PathOp::Intersect => (false, false),
        PathOp::Union => (true, true),
        PathOp::Xor => (true, true),
        PathOp::ReverseDifference => (false, true),
    };
    let first = keep_a && !no_a;
    let second = keep_b && !no_b;
    if first && second {
        OpPlan::Both
    } else if first {
        OpPlan::First
    } else if second {
        OpPlan::Second
    } else {
        OpPlan::Nothing
    }
}

/// A plan with the two paths exchanged.
pub open spec fn mirrored(p: OpPlan) -> OpPlan {
    match p {
        OpPlan::First => OpPlan::Second,
        OpPlan::Second => OpPlan::First,
        _ => p,
    }
}

/// The operation that does the same with the two paths exchanged.
pub open spec fn exchanged(op: PathOp) -> PathOp {
    match op {
        PathOp::Difference => PathOp::ReverseDifference,
        PathOp::ReverseDifference => PathOp::Difference,
        _ => op,
    }
}

/// Exchanging the paths exchanges the plan; union, intersection and exclusive
/// union do not care about the order.
pub proof fn plans_are_symmetric(a: PathModel, b: PathModel, op: PathOp)
    ensures
        plan(b, a, exchanged(op)) == mirrored(plan(a, b, op)),
{
}

/// With an empty path, union and exclusive union give the other path, the
/// difference gives the path that is subtracted from, and the intersection
/// gives nothing.
pub proof fn empty_operand_is_neutral(a: PathModel, b: PathModel)
    requires
        b.verbs.len() == 0,
        a.verbs.len() > 0,
    ensures
        plan(a, b, PathOp::Union) == OpPlan::First,
        plan(a, b, PathOp::Xor) == OpPlan::First,
        plan(a, b, PathOp::Difference) == OpPlan::First,
        plan(a, b, PathOp::Intersect) == OpPlan::Nothing,
        plan(a, b, PathOp::ReverseDifference) == OpPlan::Nothing,
{
}

proof fn lemma_counts_append(a: Seq<Verb>, b: Seq<Verb>, k: nat)
    requires
        k <= b.len(),
    ensures
        points_before(a + b, a.len() + k) == points_before(a, a.len()) + points_before(b, k),
        weights_before(a + b, a.len() + k) == weights_before(a, a.len()) + weights_before(b, k),
    decreases k,
{
    if k == 0 {
        lemma_counts_prefix(a, b, a.len());
    } else {
        lemma_counts_append(a, b, (k - 1) as nat);
        assert((a + b)[a.len() + k - 1] == b[k - 1]);
    }
}

proof fn lemma_counts_prefix(a: Seq<Verb>, b: Seq<Verb>, k: nat)
    requires
        k <= a.len(),
    ensures
        points_before(a + b, k) == points_before(a, k),
        weights_before(a + b, k) == weights_before(a, k),
    decreases k,
{
    if k > 0 {
        lemma_counts_prefix(a, b, (k - 1) as nat);
        assert((a + b)[k - 1] == a[k - 1]);
    }
}

/// A path followed by another, filled by winding.
pub open spec fn joined(a: PathModel, b: PathModel) -> PathModel {
    PathModel {
        verbs: a.verbs + b.verbs,
        points: a.points + b.points,
        weights: a.weights + b.weights,
        fill: FillType::Winding,
    }
}

/// Appends what a slice holds.
fn append_verbs(out: &mut Vec<Verb>, s: &[Verb])
    ensures
        final(out)@ == old(out)@ + s@,
{
    let mut i: usize = 0;
    assert(out@ =~= old(out)@ + s@.take(0));
    while i < s.len()
        invariant
            i <= s@.len(),
            out@ == old(out)@ + s@.take(i as int),
        decreases s@.len() - i,
    {
        out.push(s[i]);
        assert(out@ =~= old(out)@ + s@.take(i + 1));
        i = i + 1;
    }
    assert(s@.take(i as int) =~= s@);
}

/// Appends what a slice holds.
fn append_points(out: &mut Vec<Point>, s: &[Point])
    ensures
        final(out)@ == old(out)@ + s@,
{
    let mut i: usize = 0;
    assert(out@ =~= old(out)@ + s@.take(0));
    while i < s.len()
        invariant
            i <= s@.len(),
            out@ == old(out)@ + s@.take(i as int),
        decreases s@.len() - i,
    {
        out.push(s[i]);
        assert(out@ =~= old(out)@ + s@.take(i + 1));
        i = i + 1;
    }
    assert(s@.take(i as int) =~= s@);
}

/// Appends what a slice holds.
fn append_weights(out: &mut Vec<u32>, s: &[u32])
    ensures
        final(out)@ == old(out)@ + s@,
{
    let mut i: usize = 0;
    assert(out@ =~= old(out)@ + s@.take(0));
    while i < s.len()
        invariant
            i <= s@.len(),
            out@ == old(out)@ + s@.take(i as int),
        decreases s@.len() - i,
    {
        out.push(s[i]);
        assert(out@ =~= old(out)@ + s@.take(i + 1));
        i = i + 1;
    }
    assert(s@.take(i as int) =~= s@);
}

impl Path {
    /// This path followed by another, filled by winding.
    pub fn followed_by(&self, other: &Path) -> (r: Path)
        ensures
            r@ == joined(self@, other@),
    {
        let mut vs: Vec<Verb> = Vec::new();
        let mut ps: Vec<Point> = Vec::new();
        let mut ws: Vec<u32> = Vec::new();
        append_verbs(&mut vs, self.verbs());
        append_points(&mut ps, self.points());
        append_weights(&mut ws, self.weights());
        assert(vs@ =~= self@.verbs && ps@ =~= self@.points && ws@ =~= self@.weights);
        append_verbs(&mut vs, other.verbs());
        append_points(&mut ps, other.points());
        append_weights(&mut ws, other.weights());
        let ghost m = joined(self@, other@);
        proof {
            lemma_counts_append(self@.verbs, other@.verbs, other@.verbs.len());
            assert(m.valid()) by {
                if m.verbs.len() > 0 {
                    if self@.verbs.len() > 0 {
                        assert(m.verbs[0] == self@.verbs[0]);
                    } else {
                        assert(m.verbs[0] == other@.verbs[0]);
                    }
                }
            }
        }
        match Path::from_parts(vs.as_slice(), ps.as_slice(), ws.as_slice(), FillType::Winding) {
            Some(p) => p,
            None => Path::new(),
        }
    }
}

// ---------------------------------------------------------------------------
// Polygons
// ---------------------------------------------------------------------------

/// A polygon as a mathematical value.
pub struct RingModel {
    /// Its points.
    pub points: Seq<Point>,
    /// Whether its winding decides whether it is a hole. A polygon that is cut
    /// short by a move never is.
    pub judged: bool,
}

/// A polygon.
#[derive(Debug)]
pub struct Ring {
    /// Its points.
    pub points: Vec<Point>,
    /// Whether its winding decides whether it is a hole.
    pub judged: bool,
}

/// The models of polygons.
pub open spec fn ring_models(v: Seq<Ring>) -> Seq<RingModel> {
    Seq::new(v.len(), |i: int| RingModel { points: v[i].points@, judged: v[i].judged })
}

/// The polygons found so far, and where the pen is.
pub struct Cutter {
    /// Where the pen is.
    pub current: Point,
    /// Where the contour started.
    pub first: Point,
    /// The points of the polygon so far.
    pub pending: Seq<Point>,
    /// The polygons that are complete.
    pub done: Seq<RingModel>,
}

impl Cutter {
    /// Ends the polygon; one of fewer than three points is dropped.
    pub open spec fn cut(self, judged: bool) -> Cutter {
        Cutter {
            pending: Seq::empty(),
            done: if self.pending.len() >= 3 {
                self.done.push(RingModel { points: self.pending, judged })
            } else {
                self.done
            },
            ..self
        }
    }

    /// One more element.
    pub open spec fn step(self, f: Flat, e: PathElement) -> Cutter {
        match e {
            PathElement::Move(p) => Cutter {
                current: p,
                first: p,
                pending: seq![p],
                ..self.cut(false)
            },
            PathElement::Line(p) => Cutter { current: p, pending: self.pending.push(p), ..self },
            PathElement::Quad(c, p) => Cutter {
                current: p,
                pending: self.pending + f(Edge::Quad(self.current, c, p)),
                ..self
            },
            PathElement::Conic(c, p, w) => Cutter {
                current: p,
                pending: self.pending + f(Edge::Conic(self.current, c, p, w)),
                ..self
            },
            PathElement::Cubic(c, d, p) => Cutter {
                current: p,
                pending: self.pending + f(Edge::Cubic(self.current, c, d, p)),
                ..self
            },
            PathElement::Close => Cutter { current: self.first, ..self.cut(true) },
        }
    }
}

/// The polygons after the first `k` elements.
pub open spec fn cutter_after(f: Flat, m: PathModel, k: nat) -> Cutter
    decreases k,
{
    if k == 0 {
        let zero = Point { x: 0, y: 0 };
        Cutter { current: zero, first: zero, pending: Seq::empty(), done: Seq::empty() }
    } else {
        cutter_after(f, m, (k - 1) as nat).step(f, m.element(k - 1))
    }
}

/// The polygons of a path.
pub open spec fn polygons_of(f: Flat, m: PathModel) -> Seq<RingModel> {
    cutter_after(f, m, m.verbs.len()).cut(true).done
}

/// Ends a polygon.
fn cut_ring(done: &mut Vec<Ring>, pending: Vec<Point>, judged: bool)
    ensures
        ring_models(final(done)@) == if pending@.len() >= 3 {
            ring_models(old(done)@).push(RingModel { points: pending@, judged })
        } else {
            ring_models(old(done)@)
        },
{
    if pending.len() >= 3 {
        let ghost ps = pending@;
        done.push(Ring { points: pending, judged });
        assert(ring_models(done@) =~= ring_models(old(done)@).push(
            RingModel { points: ps, judged },
        ));
    }
}

/// Appends the points of an edge.
fn append_edge<A: Fn(FloatOp, u32, u32, u32) -> u32>(
    f: &FloatUnit<A>,
    tolerance: u32,
    out: &mut Vec<Point>,
    e: Edge,
)
    requires
        f.steady(),
    ensures
        final(out)@ == old(out)@ + by_halves(f.ops(), tolerance)(e),
{
    let r = cut_by_halves(f, e, tolerance);
    append_points(out, r.as_slice());
}

impl Path {
    /// The polygons of the path. Curves are cut into lines that lie nearer to
    /// them than the tolerance.
    pub fn polygons<A: Fn(FloatOp, u32, u32, u32) -> u32>(
        &self,
        f: &FloatUnit<A>,
        tolerance: u32,
    ) -> (r: Vec<Ring>)
        requires
            f.steady(),
        ensures
            ring_models(r@) == polygons_of(by_halves(f.ops(), tolerance), self@),
    {
        let zero = Point { x: 0, y: 0 };
        let n: usize = self.verb_count();
        let mut current = zero;
        let mut first = zero;
        let mut pending: Vec<Point> = Vec::new();
        let mut done: Vec<Ring> = Vec::new();
        assert(pending@ =~= Seq::empty());
        assert(ring_models(done@) =~= Seq::empty());
        let mut it = self.iter();
        let mut k: usize = 0;
        while k < n
            invariant
                f.steady(),
                n == self@.verbs.len(),
                k <= n,
                it.path_model() == self@,
                it.position() == k,
                cutter_after(by_halves(f.ops(), tolerance), self@, k as nat) == (Cutter {
                    current,
                    first,
                    pending: pending@,
                    done: ring_models(done@),
                }),
            decreases n - k,
        {
            match it.next() {
                Some(e) => match e {
                    PathElement::Move(p) => {
                        cut_ring(&mut done, pending, false);
                        pending = Vec::new();
                        pending.push(p);
                        assert(pending@ =~= seq![p]);
                        current = p;
                        first = p;
                    },
                    PathElement::Line(p) => {
                        pending.push(p);
                        current = p;
                    },
                    PathElement::Quad(c, p) => {
                        append_edge(f, tolerance, &mut pending, Edge::Quad(current, c, p));
                        current = p;
                    },
                    PathElement::Conic(c, p, w) => {
                        append_edge(f, tolerance, &mut pending, Edge::Conic(current, c, p, w));
                        current = p;
                    },
                    PathElement::Cubic(c, d, p) => {
                        append_edge(f, tolerance, &mut pending, Edge::Cubic(current, c, d, p));
                        current = p;
                    },
                    PathElement::Close => {
                        cut_ring(&mut done, pending, true);
                        pending = Vec::new();
                        assert(pending@ =~= Seq::empty());
                        current = first;
                    },
                },
                None => {},
            }
            k = k + 1;
        }
        cut_ring(&mut done, pending, true);
        done
    }
}

/// An outer polygon and the holes in it, by number.
pub struct GroupModel {
    /// The outer polygon.
    pub shell: int,
    /// The holes.
    pub holes: Seq<int>,
}

/// An outer polygon and the holes in it, by number.
#[derive(Debug)]
pub struct Group {
    /// The outer polygon.
    pub shell: usize,
    /// The holes.
    pub holes: Vec<usize>,
}

/// Numbers as integers.
pub open spec fn numbers(v: Seq<usize>) -> Seq<int> {
    Seq::new(v.len(), |i: int| v[i] as int)
}

/// The models of groups.
pub open spec fn group_models(v: Seq<Group>) -> Seq<GroupModel> {
    Seq::new(v.len(), |i: int| GroupModel { shell: v[i].shell as int, holes: numbers(v[i].holes@) })
}

/// Groups that are complete, the outer polygon that is open, and the holes
/// that have not found one yet.
pub struct Grouping {
    /// The groups.
    pub done: Seq<GroupModel>,
    /// The open outer polygon.
    pub shell: Option<int>,
    /// The holes.
    pub holes: Seq<int>,
}

/// The grouping of the first `k` polygons, given which of them are holes. A
/// hole belongs to the last outer polygon before it; holes before the first
/// outer polygon belong to that one.
pub open spec fn grouping(is_hole: Seq<bool>, k: nat) -> Grouping
    decreases k,
{
    if k == 0 {
        Grouping { done: Seq::empty(), shell: None, holes: Seq::empty() }
    } else {
        let g = grouping(is_hole, (k - 1) as nat);
        if is_hole[k - 1] {
            Grouping { holes: g.holes.push(k - 1), ..g }
        } else {
            match g.shell {
                Some(s) => Grouping {
                    done: g.done.push(GroupModel { shell: s, holes: g.holes }),
                    shell: Some(k - 1),
                    holes: Seq::empty(),
                },
                None => Grouping { shell: Some(k - 1), ..g },
            }
        }
    }
}

/// The groups of polygons. Without an outer polygon every hole counts as one.
pub open spec fn groups_of(is_hole: Seq<bool>) -> Seq<GroupModel> {
    let g = grouping(is_hole, is_hole.len());
    match g.shell {
        Some(s) => g.done.push(GroupModel { shell: s, holes: g.holes }),
        None => g.done + Seq::new(
            g.holes.len(),
            |i: int| GroupModel { shell: g.holes[i], holes: Seq::empty() },
        ),
    }
}

/// Adds a group.
fn push_group(done: &mut Vec<Group>, shell: usize, holes: Vec<usize>)
    ensures
        group_models(final(done)@) == group_models(old(done)@).push(
            GroupModel { shell: shell as int, holes: numbers(holes@) },
        ),
{
    let ghost h = numbers(holes@);
    done.push(Group { shell, holes });
    assert(group_models(done@) =~= group_models(old(done)@).push(
        GroupModel { shell: shell as int, holes: h },
    ));
}

/// The groups of polygons, given which of them are holes.
pub fn group_polygons(is_hole: &Vec<bool>) -> (r: Vec<Group>)
    ensures
        group_models(r@) == groups_of(is_hole@),
{
    let n: usize = is_hole.len();
    let mut done: Vec<Group> = Vec::new();
    let mut shell: Option<usize> = None;
    let mut holes: Vec<usize> = Vec::new();
    let ghost mut g = grouping(is_hole@, 0);
    assert(group_models(done@) =~= Seq::empty());
    assert(numbers(holes@) =~= Seq::empty());
    let mut k: usize = 0;
    while k < n
        invariant
            n == is_hole@.len(),
            k <= n,
            g == grouping(is_hole@, k as nat),
            group_models(done@) == g.done,
            numbers(holes@) == g.holes,
            match shell {
                Some(s) => g.shell == Some(s as int),
                None => g.shell is None,
            },
        decreases n - k,
    {
        if is_hole[k] {
            let ghost before = numbers(holes@);
            holes.push(k);
            assert(numbers(holes@) =~= before.push(k as int));
        } else {
            match shell {
                Some(s) => {
                    push_group(&mut done, s, holes);
                    holes = Vec::new();
                    assert(numbers(holes@) =~= Seq::empty());
                },
                None => {},
            }
            shell = Some(k);
        }
        proof {
            g = grouping(is_hole@, (k + 1) as nat);
        }
        k = k + 1;
    }
    match shell {
        Some(s) => {
            push_group(&mut done, s, holes);
        },
        None => {
            let ghost before = group_models(done@);
            let ghost hs = numbers(holes@);
            let mut i: usize = 0;
            assert(group_models(done@) =~= before + Seq::new(
                0,
                |i: int| GroupModel { shell: hs[i], holes: Seq::empty() },
            ));
            while i < holes.len()
                invariant
                    i <= holes@.len(),
                    hs == numbers(holes@),
                    group_models(done@) == before + Seq::new(
                        i as nat,
                        |i: int| GroupModel { shell: hs[i], holes: Seq::empty() },
                    ),
                decreases holes@.len() - i,
            {
                let none: Vec<usize> = Vec::new();
                assert(numbers(none@) =~= Seq::empty());
                push_group(&mut done, holes[i], none);
                assert(group_models(done@) =~= before + Seq::new(
                    (i + 1) as nat,
                    |i: int| GroupModel { shell: hs[i], holes: Seq::empty() },
                ));
                i = i + 1;
            }
        },
    }
    done
}

/// The verbs of the first `n` polygons.
pub open spec fn ring_verbs(rings: Seq<Seq<Point>>, n: nat) -> Seq<Verb>
    decreases n,
{
    if n == 0 || n > rings.len() {
        Seq::empty()
    } else if rings[n - 1].len() < 3 {
        ring_verbs(rings, (n - 1) as nat)
    } else {
        ring_verbs(rings, (n - 1) as nat) + (seq![Verb::Move] + Seq::new(
            (rings[n - 1].len() - 1) as nat,
            |i: int| Verb::Line,
        ) + seq![Verb::Close])
    }
}

/// The points of the first `n` polygons.
pub open spec fn ring_points(rings: Seq<Seq<Point>>, n: nat) -> Seq<Point>
    decreases n,
{
    if n == 0 || n > rings.len() {
        Seq::empty()
    } else if rings[n - 1].len() < 3 {
        ring_points(rings, (n - 1) as nat)
    } else {
        ring_points(rings, (n - 1) as nat) + rings[n - 1]
    }
}

/// The path along polygons: each is moved to, drawn and closed; those of fewer
/// than three points are left out.
pub open spec fn path_along(rings: Seq<Seq<Point>>) -> PathModel {
    PathModel {
        verbs: ring_verbs(rings, rings.len()),
        points: ring_points(rings, rings.len()),
        weights: Seq::empty(),
        fill: FillType::Winding,
    }
}

/// Points of polygons.
pub open spec fn points_of(v: Seq<Vec<Point>>) -> Seq<Seq<Point>> {
    Seq::new(v.len(), |i: int| v[i]@)
}

proof fn lemma_lines(k: nat)
    ensures
        points_before(Seq::new(k, |i: int| Verb::Line), k) == k,
        weights_before(Seq::new(k, |i: int| Verb::Line), k) == 0,
    decreases k,
{
    if k > 0 {
        let a = Seq::new((k - 1) as nat, |i: int| Verb::Line);
        let b = seq![Verb::Line];
        lemma_lines((k - 1) as nat);
        assert(Seq::new(k, |i: int| Verb::Line) =~= a + b);
        lemma_counts_append(a, b, 1);
        assert(points_before(b, 1) == points_before(b, 0) + 1);
        assert(weights_before(b, 1) == weights_before(b, 0));
    }
}

proof fn lemma_ring_counts(p: Seq<Point>)
    requires
        p.len() >= 3,
    ensures
        ({
            let v = seq![Verb::Move] + Seq::new((p.len() - 1) as nat, |i: int| Verb::Line)
                + seq![Verb::Close];
            points_before(v, v.len()) == p.len() && weights_before(v, v.len()) == 0
        }),
{
    let k = (p.len() - 1) as nat;
    let a = seq![Verb::Move];
    let b = Seq::new(k, |i: int| Verb::Line);
    let c = seq![Verb::Close];
    lemma_lines(k);
    lemma_counts_append(a, b, k);
    lemma_counts_append(a + b, c, 1);
    assert(points_before(a, 1) == points_before(a, 0) + 1);
    assert(weights_before(a, 1) == weights_before(a, 0));
    assert(points_before(c, 1) == points_before(c, 0));
    assert(weights_before(c, 1) == weights_before(c, 0));
}

proof fn lemma_path_along(rings: Seq<Seq<Point>>, n: nat)
    requires
        n <= rings.len(),
    ensures
        ({
            let v = ring_verbs(rings, n);
            &&& points_before(v, v.len()) == ring_points(rings, n).len()
            &&& weights_before(v, v.len()) == 0
            &&& v.len() > 0 ==> v[0] == Verb::Move
        }),
    decreases n,
{
    if n > 0 {
        lemma_path_along(rings, (n - 1) as nat);
        let p = rings[n - 1];
        if p.len() >= 3 {
            let front = ring_verbs(rings, (n - 1) as nat);
            let v = seq![Verb::Move] + Seq::new((p.len() - 1) as nat, |i: int| Verb::Line)
                + seq![Verb::Close];
            lemma_ring_counts(p);
            lemma_counts_append(front, v, v.len());
            if front.len() > 0 {
                assert((front + v)[0] == front[0]);
            } else {
                assert((front + v)[0] == v[0]);
            }
        }
    }
}

/// The path along polygons.
pub fn polygons_to_path(rings: &Vec<Vec<Point>>) -> (r: Path)
    ensures
        r@ == path_along(points_of(rings@)),
{
    let ghost rs = points_of(rings@);
    let mut vs: Vec<Verb> = Vec::new();
    let mut ps: Vec<Point> = Vec::new();
    let ws: Vec<u32> = Vec::new();
    assert(vs@ =~= ring_verbs(rs, 0));
    assert(ps@ =~= ring_points(rs, 0));
    assert(ws@ =~= Seq::empty());
    let mut k: usize = 0;
    while k < rings.len()
        invariant
            rs == points_of(rings@),
            k <= rings@.len(),
            vs@ == ring_verbs(rs, k as nat),
            ps@ == ring_points(rs, k as nat),
        decreases rings@.len() - k,
    {
        let p = &rings[k];
        assert(rs[k as int] == p@);
        if p.len() >= 3 {
            let ghost before = vs@;
            vs.push(Verb::Move);
            let mut i: usize = 1;
            assert(vs@ =~= before + (seq![Verb::Move] + Seq::new(0, |i: int| Verb::Line)));
            while i < p.len()
                invariant
                    1 <= i <= p@.len(),
                    vs@ == before + (seq![Verb::Move] + Seq::new(
                        (i - 1) as nat,
                        |i: int| Verb::Line,
                    )),
                decreases p@.len() - i,
            {
                vs.push(Verb::Line);
                assert(vs@ =~= before + (seq![Verb::Move] + Seq::new(
                    i as nat,
                    |i: int| Verb::Line,
                )));
                i = i + 1;
            }
            vs.push(Verb::Close);
            assert(vs@ =~= before + (seq![Verb::Move] + Seq::new(
                (p@.len() - 1) as nat,
                |i: int| Verb::Line,
            ) + seq![Verb::Close]));
            append_points(&mut ps, p.as_slice());
        }
        k = k + 1;
    }
    proof {
        lemma_path_along(rs, rs.len());
    }
    match Path::from_parts(vs.as_slice(), ps.as_slice(), ws.as_slice(), FillType::Winding) {
        Some(p) => p,
        None => Path::new(),
    }
}

} // verus!
