//! Tessellation of polygons.
//!
//! What is done depends on the points only by the way each three of them turn.

use vstd::prelude::*;

use crate::arith::{FloatOp, FloatUnit, Ops};
use crate::float_bits::{bits_le, bits_lt, bits_neg, float_le, float_lt, magnitude, negated};
use crate::geometry::Point;
use crate::mesh::{TessIndex, TessMesh};

verus! {

/// Which way three points turn: the sign of the area they span, and whether
/// the area is too small to matter.
#[derive(Debug, Clone, Copy, PartialEq, Eq, Structural)]
pub struct Orientation {
    /// The sign: positive for counter-clockwise.
    pub sign: i8,
    /// Whether the area is negligible.
    pub flat: bool,
}

/// Which way any three points turn, by their numbers.
pub type Turns = spec_fn(usize, usize, usize) -> Orientation;

/// Twice the area of a triangle, positive if it runs counter-clockwise.
pub open spec fn cross_of(f: Ops, a: Point, b: Point, c: Point) -> u32 {
    let bx = f(FloatOp::Sub, b.x, a.x, 0);
    let by = f(FloatOp::Sub, b.y, a.y, 0);
    let cx = f(FloatOp::Sub, c.x, a.x, 0);
    let cy = f(FloatOp::Sub, c.y, a.y, 0);
    f(FloatOp::MulAdd, bx, cy, negated(f(FloatOp::Mul, by, cx, 0)))
}

/// Twice the area of a triangle.
fn triangle_cross<A: Fn(FloatOp, u32, u32, u32) -> u32>(
    f: &FloatUnit<A>,
    a: Point,
    b: Point,
    c: Point,
) -> (r: u32)
    requires
        f.steady(),
    ensures
        r == cross_of(f.ops(), a, b, c),
{
    let bx: u32 = f.op(FloatOp::Sub, b.x, a.x, 0);
    let by: u32 = f.op(FloatOp::Sub, b.y, a.y, 0);
    let cx: u32 = f.op(FloatOp::Sub, c.x, a.x, 0);
    let cy: u32 = f.op(FloatOp::Sub, c.y, a.y, 0);
    let back: u32 = f.op(FloatOp::Mul, by, cx, 0);
    f.op(FloatOp::MulAdd, bx, cy, bits_neg(back))
}

/// The sign of a number.
pub open spec fn sign_of(x: u32) -> i8 {
    if float_lt(0, x) {
        1
    } else if float_lt(x, 0) {
        (-1) as i8
    } else {
        0
    }
}

/// Which way three points of a polygon turn. An area that does not exceed
/// 1e-12 is negligible.
pub open spec fn ear_turns(f: Ops, pts: Seq<Point>) -> Turns {
    |a: usize, b: usize, c: usize|
        {
            let x = cross_of(f, pts[a as int], pts[b as int], pts[c as int]);
            Orientation { sign: sign_of(x), flat: !float_lt(0x2b8c_bccc, magnitude(x) as u32) }
        }
}

/// Which way the corners of a polygon turn. An area below 1e-9 is negligible.
pub open spec fn corner_turns(f: Ops, pts: Seq<Point>) -> Turns {
    |a: usize, b: usize, c: usize|
        {
            let x = cross_of(f, pts[a as int], pts[b as int], pts[c as int]);
            Orientation { sign: sign_of(x), flat: float_lt(magnitude(x) as u32, 0x3089_705f) }
        }
}

/// The sign of a number.
fn find_sign(x: u32) -> (r: i8)
    ensures
        r == sign_of(x),
{
    if bits_lt(0, x) {
        1
    } else if bits_lt(x, 0) {
        -1
    } else {
        0
    }
}

/// Asks which way three points of a polygon turn.
fn ask<A: Fn(FloatOp, u32, u32, u32) -> u32>(
    f: &FloatUnit<A>,
    pts: &Vec<Point>,
    a: usize,
    b: usize,
    c: usize,
) -> (r: Orientation)
    requires
        f.steady(),
        a < pts@.len(),
        b < pts@.len(),
        c < pts@.len(),
    ensures
        r == ear_turns(f.ops(), pts@)(a, b, c),
{
    let x: u32 = triangle_cross(f, pts[a], pts[b], pts[c]);
    Orientation { sign: find_sign(x), flat: !bits_lt(0x2b8c_bccc, x % 0x8000_0000) }
}

/// The sum over the first `n` edges of a polygon of twice the area that each
/// spans with the origin.
pub open spec fn area_sum(f: Ops, pts: Seq<Point>, n: nat) -> u32
    decreases n,
{
    if n == 0 {
        0
    } else {
        let p = pts[n - 1];
        let q = if n < pts.len() {
            pts[n as int]
        } else {
            pts[0]
        };
        f(
            FloatOp::Add,
            area_sum(f, pts, (n - 1) as nat),
            f(FloatOp::MulAdd, p.x, q.y, negated(f(FloatOp::Mul, q.x, p.y, 0))),
            0,
        )
    }
}

/// Whether a polygon runs counter-clockwise, or spans no area.
pub open spec fn runs_ccw(f: Ops, pts: Seq<Point>) -> bool {
    pts.len() < 3 || float_le(
        0,
        f(FloatOp::Mul, area_sum(f, pts, pts.len()), 0x3f00_0000, 0),
    )
}

/// Whether a polygon runs counter-clockwise, or spans no area.
pub fn polygon_is_ccw<A: Fn(FloatOp, u32, u32, u32) -> u32>(f: &FloatUnit<A>, pts: &Vec<Point>) -> (
r: bool)
    requires
        f.steady(),
    ensures
        r == runs_ccw(f.ops(), pts@),
{
    let n: usize = pts.len();
    if n < 3 {
        return true;
    }
    let mut area: u32 = 0;
    let mut i: usize = 0;
    while i < n
        invariant
            f.steady(),
            n == pts@.len(),
            n >= 3,
            i <= n,
            area == area_sum(f.ops(), pts@, i as nat),
        decreases n - i,
    {
        let p = pts[i];
        let q = if i + 1 < n {
            pts[i + 1]
        } else {
            pts[0]
        };
        let back: u32 = f.op(FloatOp::Mul, q.x, p.y, 0);
        let part: u32 = f.op(FloatOp::MulAdd, p.x, q.y, bits_neg(back));
        area = f.op(FloatOp::Add, area, part, 0);
        i = i + 1;
    }
    let half: u32 = f.op(FloatOp::Mul, area, 0x3f00_0000, 0);
    bits_le(0, half)
}

/// Whether point `p` lies in the triangle, or on its edge: it does not lie to
/// the left of one side and to the right of another.
pub open spec fn in_triangle(
    f: Turns,
    p: usize,
    a: usize,
    b: usize,
    c: usize,
) -> bool {
    let d1 = f(p, a, b).sign;
    let d2 = f(p, b, c).sign;
    let d3 = f(p, c, a).sign;
    !((d1 < 0 || d2 < 0 || d3 < 0) && (d1 > 0 || d2 > 0 || d3 > 0))
}

/// Whether three points turn the way the polygon does.
pub open spec fn turns_with(
    f: Turns,
    ccw: bool,
    a: usize,
    b: usize,
    c: usize,
) -> bool {
    let s = f(a, b, c).sign;
    if ccw {
        s > 0
    } else {
        s < 0
    }
}

/// The point before place `i` of a ring.
pub open spec fn before(ring: Seq<usize>, i: int) -> usize {
    if i > 0 {
        ring[i - 1]
    } else {
        ring[ring.len() - 1]
    }
}

/// The point after place `i` of a ring.
pub open spec fn after(ring: Seq<usize>, i: int) -> usize {
    if i + 1 < ring.len() {
        ring[i + 1]
    } else {
        ring[0]
    }
}

/// Whether the corner at place `i` of a ring is an ear: it turns the way the
/// polygon does, and no other point lies in its triangle.
pub open spec fn is_ear(
    f: Turns,
    ccw: bool,
    ring: Seq<usize>,
    i: int,
) -> bool {
    let a = before(ring, i);
    let b = ring[i];
    let c = after(ring, i);
    &&& turns_with(f, ccw, a, b, c)
    &&& forall|j: int|
        0 <= j < ring.len() && (#[trigger] ring[j]) != a && ring[j] != b && ring[j] != c
            ==> !in_triangle(f, ring[j], a, b, c)
}

/// The first place from `i` on that is an ear; the length of the ring if there
/// is none.
pub open spec fn first_ear(
    f: Turns,
    ccw: bool,
    ring: Seq<usize>,
    i: int,
) -> int
    decreases ring.len() - i,
{
    if i >= ring.len() {
        ring.len() as int
    } else if is_ear(f, ccw, ring, i) {
        i
    } else {
        first_ear(f, ccw, ring, i + 1)
    }
}

/// A triangle with its corners in the given order, or turned around.
pub open spec fn wound(keep: bool, a: usize, b: usize, c: usize) -> Seq<usize> {
    if keep {
        seq![a, b, c]
    } else {
        seq![a, c, b]
    }
}

/// The triangles between the first point of a ring and each two neighbors up
/// to place `n`.
pub open spec fn fan(ring: Seq<usize>, n: nat) -> Seq<usize>
    decreases n,
{
    if n <= 2 {
        Seq::empty()
    } else {
        fan(ring, (n - 1) as nat) + seq![ring[0], ring[n - 2], ring[n - 1]]
    }
}

/// The triangles of a polygon: its ears are cut off one after the other, each
/// with its corners in the order in which the polygon runs. The last triangle
/// is left out if it is flat, and turned around if it does not turn the way the
/// polygon does. If there is no ear, which happens only where the polygon meets
/// itself, a fan covers what is left.
pub open spec fn triangles(
    f: Turns,
    ccw: bool,
    ring: Seq<usize>,
) -> Seq<usize>
    decreases ring.len(),
{
    if ring.len() < 3 {
        Seq::empty()
    } else if ring.len() == 3 {
        let t = f(ring[0], ring[1], ring[2]);
        if t.flat {
            Seq::empty()
        } else {
            wound(turns_with(f, ccw, ring[0], ring[1], ring[2]), ring[0], ring[1], ring[2])
        }
    } else {
        let i = first_ear(f, ccw, ring, 0);
        if 0 <= i < ring.len() {
            seq![before(ring, i), ring[i], after(ring, i)] + triangles(f, ccw, ring.remove(i))
        } else {
            fan(ring, ring.len())
        }
    }
}

/// Whether an ear is found each time one is to be cut off.
pub open spec fn clips(f: Turns, ccw: bool, ring: Seq<usize>) -> bool
    decreases ring.len(),
{
    ring.len() <= 3 || {
        let i = first_ear(f, ccw, ring, 0);
        0 <= i < ring.len() && clips(f, ccw, ring.remove(i))
    }
}

/// Whether a triangle runs the way the polygon does: its corners turn that
/// way, or the other way if they are taken in the opposite order.
pub open spec fn runs_with(f: Turns, ccw: bool, a: usize, b: usize, c: usize) -> bool {
    turns_with(f, ccw, a, b, c) || turns_with(f, !ccw, a, c, b)
}

/// Whether all triangles run the way the polygon does.
pub open spec fn all_run_with(f: Turns, ccw: bool, t: Seq<usize>) -> bool {
    forall|k: int|
        0 <= k && 3 * k + 2 < t.len() ==> #[trigger] runs_with(
            f,
            ccw,
            t[3 * k],
            t[3 * k + 1],
            t[3 * k + 2],
        )
}

/// Whether three points that span an area turn one way or the other.
pub open spec fn decided(f: Turns) -> bool {
    forall|a: usize, b: usize, c: usize|
        !(#[trigger] f(a, b, c)).flat ==> f(a, b, c).sign != 0
}

/// Whether two points of three exchanged turn the other way.
pub open spec fn antisymmetric(f: Turns) -> bool {
    forall|a: usize, b: usize, c: usize|
        (#[trigger] f(a, b, c)).sign > 0 <==> f(a, c, b).sign < 0
}

/// The numbers from zero up to `n`.
pub open spec fn counting(n: nat) -> Seq<usize> {
    Seq::new(n, |i: int| i as usize)
}

/// Numbers of points as numbers of vertices.
pub open spec fn offset_by(s: Seq<usize>, base: int) -> Seq<u32> {
    Seq::new(s.len(), |i: int| (base + s[i]) as u32)
}

/// Whether a point lies in a triangle.
fn point_in_triangle<A: Fn(FloatOp, u32, u32, u32) -> u32>(
    f: &FloatUnit<A>,
    pts: &Vec<Point>,
    p: usize,
    a: usize,
    b: usize,
    c: usize,
) -> (r: bool)
    requires
        f.steady(),
        p < pts@.len(),
        a < pts@.len(),
        b < pts@.len(),
        c < pts@.len(),
    ensures
        r == in_triangle(ear_turns(f.ops(), pts@), p, a, b, c),
{
    let d1: i8 = ask(f, pts, p, a, b).sign;
    let d2: i8 = ask(f, pts, p, b, c).sign;
    let d3: i8 = ask(f, pts, p, c, a).sign;
    let neg = d1 < 0 || d2 < 0 || d3 < 0;
    let pos = d1 > 0 || d2 > 0 || d3 > 0;
    !(neg && pos)
}

/// The points before and after place `i` of a ring.
fn neighbors(ring: &Vec<usize>, i: usize) -> (r: (usize, usize))
    requires
        i < ring@.len(),
    ensures
        r.0 == before(ring@, i as int),
        r.1 == after(ring@, i as int),
{
    let m: usize = ring.len();
    let a: usize = if i > 0 {
        ring[i - 1]
    } else {
        ring[m - 1]
    };
    let c: usize = if i + 1 < m {
        ring[i + 1]
    } else {
        ring[0]
    };
    (a, c)
}

/// Whether the corner at place `i` of a ring is an ear.
fn check_ear<A: Fn(FloatOp, u32, u32, u32) -> u32>(
    f: &FloatUnit<A>,
    pts: &Vec<Point>,
    ccw: bool,
    ring: &Vec<usize>,
    i: usize,
) -> (r: bool)
    requires
        f.steady(),
        i < ring@.len(),
        forall|k: int| 0 <= k < ring@.len() ==> (#[trigger] ring@[k]) < pts@.len(),
    ensures
        r == is_ear(ear_turns(f.ops(), pts@), ccw, ring@, i as int),
{
    let (a, c) = neighbors(ring, i);
    let b: usize = ring[i];
    assert(a < pts@.len() && b < pts@.len() && c < pts@.len());
    let s: i8 = ask(f, pts, a, b, c).sign;
    let convex = if ccw {
        s > 0
    } else {
        s < 0
    };
    if !convex {
        return false;
    }
    let mut j: usize = 0;
    while j < ring.len()
        invariant
            f.steady(),
            forall|k: int| 0 <= k < ring@.len() ==> (#[trigger] ring@[k]) < pts@.len(),
            i < ring@.len(),
            a == before(ring@, i as int),
            b == ring@[i as int],
            c == after(ring@, i as int),
            j <= ring@.len(),
            forall|k: int|
                0 <= k < j && (#[trigger] ring@[k]) != a && ring@[k] != b && ring@[k] != c
                    ==> !in_triangle(ear_turns(f.ops(), pts@), ring@[k], a, b, c),
        decreases ring@.len() - j,
    {
        let o: usize = ring[j];
        if o != a && o != b && o != c && point_in_triangle(f, pts, o, a, b, c) {
            assert(ring@[j as int] == o);
            return false;
        }
        j = j + 1;
    }
    true
}

/// The first place that is an ear; the length of the ring if there is none.
fn find_ear<A: Fn(FloatOp, u32, u32, u32) -> u32>(
    f: &FloatUnit<A>,
    pts: &Vec<Point>,
    ccw: bool,
    ring: &Vec<usize>,
) -> (r: usize)
    requires
        f.steady(),
        forall|k: int| 0 <= k < ring@.len() ==> (#[trigger] ring@[k]) < pts@.len(),
    ensures
        r == first_ear(ear_turns(f.ops(), pts@), ccw, ring@, 0),
        r <= ring@.len(),
{
    let mut i: usize = 0;
    while i < ring.len()
        invariant
            f.steady(),
            forall|k: int| 0 <= k < ring@.len() ==> (#[trigger] ring@[k]) < pts@.len(),
            i <= ring@.len(),
            first_ear(ear_turns(f.ops(), pts@), ccw, ring@, 0) == first_ear(ear_turns(f.ops(), pts@), ccw, ring@, i as int),
        decreases ring@.len() - i,
    {
        if check_ear(f, pts, ccw, ring, i) {
            return i;
        }
        i = i + 1;
    }
    i
}

/// Adds a triangle of a polygon to a mesh.
fn add_wound(mesh: &mut TessMesh, base: TessIndex, keep: bool, a: usize, b: usize, c: usize)
    requires
        base + a <= u32::MAX,
        base + b <= u32::MAX,
        base + c <= u32::MAX,
    ensures
        final(mesh).vertices@ == old(mesh).vertices@,
        final(mesh).indices@ == old(mesh).indices@ + offset_by(wound(keep, a, b, c), base as int),
{
    let ia: u32 = base + a as u32;
    let ib: u32 = base + b as u32;
    let ic: u32 = base + c as u32;
    if keep {
        mesh.add_triangle(ia, ib, ic);
    } else {
        mesh.add_triangle(ia, ic, ib);
    }
    assert(mesh.indices@ =~= old(mesh).indices@ + offset_by(wound(keep, a, b, c), base as int));
}

proof fn lemma_offset_append(s: Seq<usize>, t: Seq<usize>, base: int)
    ensures
        offset_by(s + t, base) == offset_by(s, base) + offset_by(t, base),
{
    assert(offset_by(s + t, base) =~= offset_by(s, base) + offset_by(t, base));
}

/// Cuts the ears off a polygon and adds the triangles to a mesh, in which the
/// points are the vertices from `base` on.
pub fn ear_clip_triangulate<A: Fn(FloatOp, u32, u32, u32) -> u32>(
    f: &FloatUnit<A>,
    pts: &Vec<Point>,
    base: TessIndex,
    mesh: &mut TessMesh,
)
    requires
        f.steady(),
        base + pts@.len() <= u32::MAX,
    ensures
        final(mesh).vertices@ == old(mesh).vertices@,
        final(mesh).indices@ == old(mesh).indices@ + offset_by(
            triangles(
                ear_turns(f.ops(), pts@),
                runs_ccw(f.ops(), pts@),
                counting(pts@.len()),
            ),
            base as int,
        ),
        clips(ear_turns(f.ops(), pts@), runs_ccw(f.ops(), pts@), counting(pts@.len()))
            ==> all_run_with(
            ear_turns(f.ops(), pts@),
            runs_ccw(f.ops(), pts@),
            triangles(
                ear_turns(f.ops(), pts@),
                runs_ccw(f.ops(), pts@),
                counting(pts@.len()),
            ),
        ),
{
    let n: usize = pts.len();
    let ccw = polygon_is_ccw(f, pts);
    let mut ring: Vec<usize> = Vec::new();
    let mut i: usize = 0;
    while i < n
        invariant
            i <= n,
            ring@ == counting(i as nat),
        decreases n - i,
    {
        ring.push(i);
        assert(ring@ =~= counting((i + 1) as nat));
        i = i + 1;
    }
    let ghost whole = triangles(ear_turns(f.ops(), pts@), ccw, ring@);
    let ghost mut done: Seq<usize> = Seq::empty();
    assert(done + triangles(ear_turns(f.ops(), pts@), ccw, ring@) =~= whole);
    assert(mesh.indices@ =~= old(mesh).indices@ + offset_by(done, base as int));
    while ring.len() > 3
        invariant
            f.steady(),
            n == pts@.len(),
            base + n <= u32::MAX,
            forall|k: int| 0 <= k < ring@.len() ==> (#[trigger] ring@[k]) < n,
            done + triangles(ear_turns(f.ops(), pts@), ccw, ring@) == whole,
            mesh.vertices@ == old(mesh).vertices@,
            mesh.indices@ == old(mesh).indices@ + offset_by(done, base as int),
        ensures
            ring@.len() > 3 ==> first_ear(ear_turns(f.ops(), pts@), ccw, ring@, 0) == ring@.len(),
        decreases ring@.len(),
    {
        let e: usize = find_ear(f, pts, ccw, &ring);
        if e >= ring.len() {
            break;
        }
        let (a, c) = neighbors(&ring, e);
        let b: usize = ring[e];
        let ghost r = ring@;
        add_wound(mesh, base, true, a, b, c);
        ring.remove(e);
        proof {
            let t = seq![a, b, c];
            lemma_offset_append(done, t, base as int);
            assert(old(mesh).indices@ + offset_by(done, base as int) + offset_by(t, base as int)
                =~= old(mesh).indices@ + offset_by(done + t, base as int));
            assert(done + (t + triangles(ear_turns(f.ops(), pts@), ccw, ring@)) =~= (done + t) + triangles(
                ear_turns(f.ops(), pts@),
                ccw,
                ring@,
            ));
            done = done + t;
            assert forall|k: int| 0 <= k < ring@.len() implies (#[trigger] ring@[k]) < n by {
                assert(ring@[k] == if k < e {
                    r[k]
                } else {
                    r[k + 1]
                });
            }
        }
    }
    let m: usize = ring.len();
    if m == 3 {
        let t = ask(f, pts, ring[0], ring[1], ring[2]);
        if !t.flat {
            let same = if ccw {
                t.sign > 0
            } else {
                t.sign < 0
            };
            add_wound(mesh, base, same, ring[0], ring[1], ring[2]);
        }
    } else if m > 3 {
        let mut k: usize = 2;
        let ghost before = mesh.indices@;
        assert(before =~= before + offset_by(fan(ring@, 2), base as int));
        while k < m
            invariant
                m == ring@.len(),
                2 <= k <= m,
                base + n <= u32::MAX,
                forall|k: int| 0 <= k < ring@.len() ==> (#[trigger] ring@[k]) < n,
                mesh.vertices@ == old(mesh).vertices@,
                mesh.indices@ == before + offset_by(fan(ring@, k as nat), base as int),
            decreases m - k,
        {
            add_wound(mesh, base, true, ring[0], ring[k - 1], ring[k]);
            proof {
                let t = seq![ring@[0], ring@[k - 1], ring@[k as int]];
                lemma_offset_append(fan(ring@, k as nat), t, base as int);
                assert(mesh.indices@ =~= before + offset_by(
                    fan(ring@, (k + 1) as nat),
                    base as int,
                ));
            }
            k = k + 1;
        }
    }
    proof {
        let rest = triangles(ear_turns(f.ops(), pts@), ccw, ring@);
        lemma_offset_append(done, rest, base as int);
        assert(mesh.indices@ =~= old(mesh).indices@ + offset_by(whole, base as int));
        let turns = ear_turns(f.ops(), pts@);
        if clips(turns, ccw, counting(pts@.len())) {
            lemma_turns_decided(f.ops(), pts@);
            triangles_keep_the_winding(turns, ccw, counting(pts@.len()));
        }
    }
}

/// A triangulation of `n` points has at most two triangles fewer than points,
/// and its corners are points of the ring.
pub proof fn triangulation_is_bounded(
    f: Turns,
    ccw: bool,
    ring: Seq<usize>,
    limit: usize,
)
    requires
        ring.len() >= 3,
        forall|k: int| 0 <= k < ring.len() ==> (#[trigger] ring[k]) < limit,
    ensures
        triangles(f, ccw, ring).len() == 3 * (ring.len() - 2) || triangles(f, ccw, ring).len() == 3
            * (ring.len() - 3),
        forall|k: int|
            0 <= k < triangles(f, ccw, ring).len() ==> (#[trigger] triangles(f, ccw, ring)[k])
                < limit,
    decreases ring.len(),
{
    if ring.len() > 3 {
        let i = first_ear(f, ccw, ring, 0);
        if 0 <= i < ring.len() {
            let rest = ring.remove(i);
            assert forall|k: int| 0 <= k < rest.len() implies (#[trigger] rest[k]) < limit by {
                assert(rest[k] == if k < i {
                    ring[k]
                } else {
                    ring[k + 1]
                });
            }
            triangulation_is_bounded(f, ccw, rest, limit);
            let t = triangles(f, ccw, ring);
            let w = seq![before(ring, i), ring[i], after(ring, i)];
            let r = triangles(f, ccw, rest);
            assert(t == w + r);
            assert forall|k: int| 0 <= k < t.len() implies (#[trigger] t[k]) < limit by {
                if k < 3 {
                    assert(t[k] == w[k]);
                } else {
                    assert(t[k] == r[k - 3]);
                }
            }
        } else {
            lemma_fan(ring, ring.len(), limit);
        }
    }
}

/// An area that is not negligible has a sign.
proof fn lemma_turns_decided(f: Ops, pts: Seq<Point>)
    ensures
        decided(ear_turns(f, pts)),
{
    let turns = ear_turns(f, pts);
    assert forall|a: usize, b: usize, c: usize| !(#[trigger] turns(a, b, c)).flat implies turns(
        a,
        b,
        c,
    ).sign != 0 by {
        let x = cross_of(f, pts[a as int], pts[b as int], pts[c as int]);
        assert(float_lt(0x2b8c_bccc, magnitude(x) as u32));
        assert(float_lt(0, x) || float_lt(x, 0));
    }
}

/// The first ear is an ear.
proof fn lemma_first_ear(f: Turns, ccw: bool, ring: Seq<usize>, i: int)
    requires
        0 <= i,
        first_ear(f, ccw, ring, i) < ring.len(),
    ensures
        i <= first_ear(f, ccw, ring, i),
        is_ear(f, ccw, ring, first_ear(f, ccw, ring, i)),
    decreases ring.len() - i,
{
    if i < ring.len() && !is_ear(f, ccw, ring, i) {
        lemma_first_ear(f, ccw, ring, i + 1);
    }
}

/// The triangles of a polygon keep its winding order, if an ear is found each
/// time. Where turns change their sign with the order of the points, this means
/// that the corners of each triangle turn the way the polygon does.
pub proof fn triangles_keep_the_winding(f: Turns, ccw: bool, ring: Seq<usize>)
    requires
        decided(f),
        clips(f, ccw, ring),
    ensures
        all_run_with(f, ccw, triangles(f, ccw, ring)),
        antisymmetric(f) ==> forall|k: int|
            0 <= k && 3 * k + 2 < triangles(f, ccw, ring).len() ==> #[trigger] turns_with(
                f,
                ccw,
                triangles(f, ccw, ring)[3 * k],
                triangles(f, ccw, ring)[3 * k + 1],
                triangles(f, ccw, ring)[3 * k + 2],
            ),
    decreases ring.len(),
{
    let t = triangles(f, ccw, ring);
    if ring.len() > 3 {
        let i = first_ear(f, ccw, ring, 0);
        lemma_first_ear(f, ccw, ring, 0);
        let rest = triangles(f, ccw, ring.remove(i));
        triangles_keep_the_winding(f, ccw, ring.remove(i));
        let w = seq![before(ring, i), ring[i], after(ring, i)];
        assert(t == w + rest);
        assert forall|k: int| 0 <= k && 3 * k + 2 < t.len() implies #[trigger] runs_with(
            f,
            ccw,
            t[3 * k],
            t[3 * k + 1],
            t[3 * k + 2],
        ) by {
            if k > 0 {
                let j = k - 1;
                assert(runs_with(f, ccw, rest[3 * j], rest[3 * j + 1], rest[3 * j + 2]));
            }
        }
    } else {
        assert forall|k: int| 0 <= k && 3 * k + 2 < t.len() implies #[trigger] runs_with(
            f,
            ccw,
            t[3 * k],
            t[3 * k + 1],
            t[3 * k + 2],
        ) by {
            assert(t.len() == 3);
            assert(k == 0);
        }
    }
    if antisymmetric(f) {
        assert forall|k: int| 0 <= k && 3 * k + 2 < t.len() implies #[trigger] turns_with(
            f,
            ccw,
            t[3 * k],
            t[3 * k + 1],
            t[3 * k + 2],
        ) by {
            let (a, b, c) = (t[3 * k], t[3 * k + 1], t[3 * k + 2]);
            assert(runs_with(f, ccw, a, b, c));
            assert(f(a, b, c).sign > 0 <==> f(a, c, b).sign < 0);
            assert(f(a, c, b).sign > 0 <==> f(a, b, c).sign < 0);
        }
    }
}

proof fn lemma_fan(ring: Seq<usize>, n: nat, limit: usize)
    requires
        2 <= n <= ring.len(),
        forall|k: int| 0 <= k < ring.len() ==> (#[trigger] ring[k]) < limit,
    ensures
        fan(ring, n).len() == 3 * (n - 2),
        forall|k: int| 0 <= k < fan(ring, n).len() ==> (#[trigger] fan(ring, n)[k]) < limit,
    decreases n,
{
    if n > 2 {
        lemma_fan(ring, (n - 1) as nat, limit);
        let p = fan(ring, (n - 1) as nat);
        let t = fan(ring, n);
        let w = seq![ring[0], ring[n - 2], ring[n - 1]];
        assert forall|k: int| 0 <= k < t.len() implies (#[trigger] t[k]) < limit by {
            if k < p.len() {
                assert(t[k] == p[k]);
            } else {
                assert(t[k] == w[k - p.len()]);
            }
        }
    }
}

// ---------------------------------------------------------------------------
// Areas
// ---------------------------------------------------------------------------

/// Points with whole coordinates.
pub struct Grid {
    /// The horizontal coordinates.
    pub xs: Seq<int>,
    /// The vertical coordinates.
    pub ys: Seq<int>,
}

impl Grid {
    /// Twice the signed area that two points span with the origin.
    pub open spec fn span(self, a: usize, b: usize) -> int {
        self.xs[a as int] * self.ys[b as int] - self.xs[b as int] * self.ys[a as int]
    }

    /// Twice the signed area of a triangle.
    pub open spec fn area(self, a: usize, b: usize, c: usize) -> int {
        self.span(a, b) + self.span(b, c) + self.span(c, a)
    }

    /// Twice the signed area that the first `n` points of a ring span with the
    /// origin.
    pub open spec fn chain(self, ring: Seq<usize>, n: nat) -> int
        decreases n,
    {
        if n <= 1 {
            0
        } else {
            self.chain(ring, (n - 1) as nat) + self.span(ring[n - 2], ring[n - 1])
        }
    }

    /// Twice the signed area of a polygon.
    pub open spec fn ring_area(self, ring: Seq<usize>) -> int {
        self.chain(ring, ring.len()) + self.span(ring[ring.len() - 1], ring[0])
    }

    /// Twice the signed area of the first `n` triangles.
    pub open spec fn total(self, t: Seq<usize>, n: nat) -> int
        decreases n,
    {
        if n == 0 {
            0
        } else {
            self.total(t, (n - 1) as nat) + self.area(t[3 * n - 3], t[3 * n - 2], t[3 * n - 1])
        }
    }

    /// Whether there is a point with this number.
    pub open spec fn has(self, a: usize) -> bool {
        a < self.xs.len() && a < self.ys.len()
    }

    /// Whether all points of a ring are there.
    pub open spec fn holds(self, ring: Seq<usize>) -> bool {
        forall|i: int| 0 <= i < ring.len() ==> self.has(#[trigger] ring[i])
    }

    /// Whether turns are those of the points: exact, and flat only where there
    /// is no area.
    pub open spec fn decides(self, f: Turns) -> bool {
        forall|a: usize, b: usize, c: usize|
            self.has(a) && self.has(b) && self.has(c) ==> {
                &&& (#[trigger] f(a, b, c)).sign > 0 <==> self.area(a, b, c) > 0
                &&& f(a, b, c).sign < 0 <==> self.area(a, b, c) < 0
                &&& f(a, b, c).flat <==> self.area(a, b, c) == 0
            }
    }
}

/// Whether the last three points, if ears are cut off until there are only
/// three, do not turn against the polygon.
pub open spec fn ends_straight(f: Turns, ccw: bool, ring: Seq<usize>) -> bool
    decreases ring.len(),
{
    if ring.len() < 3 {
        true
    } else if ring.len() == 3 {
        f(ring[0], ring[1], ring[2]).flat || turns_with(f, ccw, ring[0], ring[1], ring[2])
    } else {
        let i = first_ear(f, ccw, ring, 0);
        0 <= i < ring.len() ==> ends_straight(f, ccw, ring.remove(i))
    }
}

proof fn lemma_chain_remove(g: Grid, ring: Seq<usize>, i: int, n: nat)
    requires
        0 <= i < ring.len(),
        n < ring.len(),
    ensures
        g.chain(ring.remove(i), n) == if n <= i {
            g.chain(ring, n)
        } else if i == 0 {
            g.chain(ring, n + 1) - g.span(ring[0], ring[1])
        } else {
            g.chain(ring, n + 1) - g.span(ring[i - 1], ring[i]) - g.span(ring[i], ring[i + 1])
                + g.span(ring[i - 1], ring[i + 1])
        },
    decreases n,
{
    let r = ring.remove(i);
    reveal_with_fuel(Grid::chain, 3);
    if n > 1 {
        lemma_chain_remove(g, ring, i, (n - 1) as nat);
        assert(r[n - 1] == if n - 1 < i {
            ring[n - 1]
        } else {
            ring[n as int]
        });
        assert(r[n - 2] == if n - 2 < i {
            ring[n - 2]
        } else {
            ring[n - 1]
        });
    }
}

/// Cutting off a corner takes the area of its triangle away.
pub(crate) proof fn lemma_area_remove(g: Grid, ring: Seq<usize>, i: int)
    requires
        ring.len() >= 3,
        0 <= i < ring.len(),
    ensures
        g.ring_area(ring) == g.area(before(ring, i), ring[i], after(ring, i)) + g.ring_area(
            ring.remove(i),
        ),
{
    let r = ring.remove(i);
    let n = (ring.len() - 1) as nat;
    lemma_chain_remove(g, ring, i, n);
    assert(r.len() == n);
    assert(r[n - 1] == if n - 1 < i {
        ring[n - 1]
    } else {
        ring[n as int]
    });
    assert(r[0] == if 0 < i {
        ring[0]
    } else {
        ring[1]
    });
    if i == n {
        assert(g.chain(ring, ring.len()) == g.chain(ring, n) + g.span(ring[n - 1], ring[n as int]));
    }
}

proof fn lemma_total_append(g: Grid, w: Seq<usize>, rest: Seq<usize>, n: nat)
    requires
        w.len() == 3,
        3 * n <= rest.len(),
    ensures
        g.total(w + rest, n + 1) == g.area(w[0], w[1], w[2]) + g.total(rest, n),
    decreases n,
{
    let t = w + rest;
    if n > 0 {
        lemma_total_append(g, w, rest, (n - 1) as nat);
        let m = n + 1;
        assert(t[3 * m - 3] == rest[3 * n - 3]);
        assert(t[3 * m - 2] == rest[3 * n - 2]);
        assert(t[3 * m - 1] == rest[3 * n - 1]);
    } else {
        reveal_with_fuel(Grid::total, 2);
        assert(t[0] == w[0] && t[1] == w[1] && t[2] == w[2]);
    }
}

proof fn lemma_total_prefix(g: Grid, t: Seq<usize>, w: Seq<usize>, n: nat)
    requires
        3 * n <= t.len(),
    ensures
        g.total(t + w, n) == g.total(t, n),
    decreases n,
{
    if n > 0 {
        lemma_total_prefix(g, t, w, (n - 1) as nat);
        assert((t + w)[3 * n - 3] == t[3 * n - 3]);
        assert((t + w)[3 * n - 2] == t[3 * n - 2]);
        assert((t + w)[3 * n - 1] == t[3 * n - 1]);
    }
}

proof fn lemma_total_fan(g: Grid, ring: Seq<usize>, n: nat)
    requires
        2 <= n <= ring.len(),
    ensures
        fan(ring, n).len() == 3 * (n - 2),
        g.total(fan(ring, n), (n - 2) as nat) == g.chain(ring, n) + g.span(ring[n - 1], ring[0]),
    decreases n,
{
    if n == 2 {
        reveal_with_fuel(Grid::chain, 2);
    } else {
        lemma_total_fan(g, ring, (n - 1) as nat);
        let t = fan(ring, (n - 1) as nat);
        let w = seq![ring[0], ring[n - 2], ring[n - 1]];
        lemma_total_prefix(g, t, w, (n - 3) as nat);
        let m = (n - 2) as nat;
        assert((t + w)[3 * m - 3] == w[0]);
        assert((t + w)[3 * m - 2] == w[1]);
        assert((t + w)[3 * m - 1] == w[2]);
    }
}

proof fn lemma_holds_rest(g: Grid, ring: Seq<usize>, i: int)
    requires
        g.holds(ring),
        0 <= i < ring.len(),
    ensures
        g.holds(ring.remove(i)),
{
    let r = ring.remove(i);
    assert forall|t: int| 0 <= t < r.len() implies g.has(#[trigger] r[t]) by {
        assert(r[t] == ring[if t < i {
            t
        } else {
            t + 1
        }]);
    }
}

/// The triangles of a polygon have its area together, where turns are exact and
/// the last triangle need not be turned around.
pub proof fn triangles_have_the_area(g: Grid, f: Turns, ccw: bool, ring: Seq<usize>)
    requires
        ring.len() >= 3,
        g.holds(ring),
        g.decides(f),
        ends_straight(f, ccw, ring),
    ensures
        g.total(triangles(f, ccw, ring), triangles(f, ccw, ring).len() / 3) == g.ring_area(ring),
        triangles(f, ccw, ring).len() % 3 == 0,
    decreases ring.len(),
{
    let t = triangles(f, ccw, ring);
    if ring.len() == 3 {
        reveal_with_fuel(Grid::chain, 4);
        reveal_with_fuel(Grid::total, 2);
        let turn = f(ring[0], ring[1], ring[2]);
        assert(g.ring_area(ring) == g.area(ring[0], ring[1], ring[2]));
        if !turn.flat {
            assert(t == seq![ring[0], ring[1], ring[2]]);
        }
    } else {
        let i = first_ear(f, ccw, ring, 0);
        if 0 <= i < ring.len() {
            let w = seq![before(ring, i), ring[i], after(ring, i)];
            let rest = triangles(f, ccw, ring.remove(i));
            lemma_holds_rest(g, ring, i);
            triangles_have_the_area(g, f, ccw, ring.remove(i));
            lemma_area_remove(g, ring, i);
            assert(t == w + rest);
            lemma_total_append(g, w, rest, rest.len() / 3);
            assert(t.len() / 3 == rest.len() / 3 + 1);
        } else {
            lemma_total_fan(g, ring, ring.len());
            assert(t.len() / 3 == ring.len() - 2);
        }
    }
}

/// Whether any three points of a ring, in its order, turn the same way.
pub open spec fn convex_ring(f: Turns, ccw: bool, ring: Seq<usize>) -> bool {
    forall|i: int, j: int, k: int|
        0 <= i < j < k < ring.len() ==> turns_with(
            f,
            ccw,
            #[trigger] ring[i],
            #[trigger] ring[j],
            #[trigger] ring[k],
        )
}

/// A convex polygon of `n` points is cut into `n - 2` triangles, one ear after
/// the other, where turns are exact.
pub proof fn convex_polygons_are_clipped(g: Grid, f: Turns, ccw: bool, ring: Seq<usize>)
    requires
        ring.len() >= 3,
        g.holds(ring),
        g.decides(f),
        convex_ring(f, ccw, ring),
    ensures
        clips(f, ccw, ring),
        ends_straight(f, ccw, ring),
        triangles(f, ccw, ring).len() == 3 * (ring.len() - 2),
    decreases ring.len(),
{
    assert(turns_with(f, ccw, ring[0], ring[1], ring[2]));
    assert(g.area(ring[0], ring[1], ring[2]) != 0);
    if ring.len() > 3 {
        let m = ring.len() - 1;
        let a = before(ring, 0);
        let b = ring[0];
        let c = after(ring, 0);
        assert(turns_with(f, ccw, ring[0], ring[1], ring[m]));
        assert(g.area(a, b, c) == g.area(b, c, a));
        assert(f(a, b, c).sign > 0 <==> g.area(a, b, c) > 0);
        assert(turns_with(f, ccw, a, b, c));
        assert forall|j: int|
            0 <= j < ring.len() && (#[trigger] ring[j]) != a && ring[j] != b && ring[j]
                != c implies !in_triangle(f, ring[j], a, b, c) by {
            let p = ring[j];
            assert(1 < j < m);
            assert(turns_with(f, ccw, ring[0], ring[1], ring[j]));
            assert(turns_with(f, ccw, ring[1], ring[j], ring[m]));
            assert(g.area(p, b, c) == g.area(b, c, p));
            assert(g.area(p, c, a) == -g.area(c, p, a));
            assert(f(p, b, c).sign > 0 <==> g.area(p, b, c) > 0);
            assert(f(p, c, a).sign > 0 <==> g.area(p, c, a) > 0);
        }
        assert(is_ear(f, ccw, ring, 0));
        assert(first_ear(f, ccw, ring, 0) == 0);
        let r = ring.remove(0);
        assert forall|i: int, j: int, k: int| 0 <= i < j < k < r.len() implies turns_with(
            f,
            ccw,
            #[trigger] r[i],
            #[trigger] r[j],
            #[trigger] r[k],
        ) by {
            assert(turns_with(f, ccw, ring[i + 1], ring[j + 1], ring[k + 1]));
        }
        lemma_holds_rest(g, ring, 0);
        convex_polygons_are_clipped(g, f, ccw, r);
    }
}

// ---------------------------------------------------------------------------
// Convexity
// ---------------------------------------------------------------------------

/// How a fill is drawn.
#[derive(Debug, Clone, Copy, PartialEq, Eq, Structural)]
pub enum FillStrategy {
    /// One convex contour: its triangles are the fill.
    DirectConvex,
    /// Anything else: the fill rule decides in a stencil.
    StencilCover,
}

/// The sign with which corner `i` of a polygon of `n` points turns; zero if
/// the corner is flat.
pub open spec fn corner_sign(
    f: Turns,
    n: int,
    i: int,
) -> int {
    let t = f(i as usize, ((i + 1) % n) as usize, ((i + 2) % n) as usize);
    if t.flat {
        0
    } else if t.sign > 0 {
        1
    } else {
        -1
    }
}

/// Whether a polygon of `n` points is convex: it has at least three, and all
/// its corners that are not flat turn the same way.
pub open spec fn convex(f: Turns, n: int) -> bool {
    &&& n >= 3
    &&& forall|i: int, j: int|
        0 <= i < n && 0 <= j < n && #[trigger] corner_sign(f, n, i) != 0 && #[trigger] corner_sign(
            f,
            n,
            j,
        ) != 0 ==> corner_sign(f, n, i) == corner_sign(f, n, j)
}

/// Whether a polygon of `n` points is convex.
pub fn polygon_is_convex<A: Fn(FloatOp, u32, u32, u32) -> u32>(
    f: &FloatUnit<A>,
    pts: &Vec<Point>,
) -> (r: bool)
    requires
        f.steady(),
    ensures
        r == convex(corner_turns(f.ops(), pts@), pts@.len() as int),
{
    let n: usize = pts.len();
    if n < 3 {
        return false;
    }
    let ghost m = n as int;
    let mut sign: i8 = 0;
    let ghost mut first: int = 0;
    let mut i: usize = 0;
    while i < n
        invariant
            f.steady(),
            m == n,
            n == pts@.len(),
            n >= 3,
            i <= n,
            sign == 0 || sign == 1 || sign == -1,
            sign == 0 ==> forall|k: int| 0 <= k < i ==> #[trigger] corner_sign(corner_turns(f.ops(), pts@), m, k) == 0,
            sign != 0 ==> 0 <= first < i && corner_sign(corner_turns(f.ops(), pts@), m, first) == sign && forall|k: int|
                0 <= k < i ==> #[trigger] corner_sign(corner_turns(f.ops(), pts@), m, k) == 0 || corner_sign(
                    corner_turns(f.ops(), pts@),
                    m,
                    k,
                ) == sign,
        decreases n - i,
    {
        let j: usize = if i < n - 1 {
            i + 1
        } else {
            0
        };
        let k: usize = if i < n - 2 {
            i + 2
        } else {
            i - (n - 2)
        };
        proof {
            lemma_wrap(i as int, 1, m);
            lemma_wrap(i as int, 2, m);
        }
        let x: u32 = triangle_cross(f, pts[i], pts[j], pts[k]);
        let t = Orientation {
            sign: find_sign(x),
            flat: bits_lt(x % 0x8000_0000, 0x3089_705f),
        };
        assert(t == corner_turns(f.ops(), pts@)(i, j, k));
        assert(corner_sign(corner_turns(f.ops(), pts@), m, i as int) == if t.flat {
            0int
        } else if t.sign > 0 {
            1
        } else {
            -1
        });
        if !t.flat {
            let s: i8 = if t.sign > 0 {
                1
            } else {
                -1
            };
            if sign == 0 {
                sign = s;
                proof {
                    first = i as int;
                }
            } else if s != sign {
                assert(corner_sign(corner_turns(f.ops(), pts@), m, first) != corner_sign(corner_turns(f.ops(), pts@), m, i as int));
                return false;
            }
        }
        i = i + 1;
    }
    true
}

proof fn lemma_wrap(i: int, d: int, n: int)
    requires
        0 <= i < n,
        0 <= d < n,
    ensures
        (i + d) % n == if i + d < n {
            i + d
        } else {
            i + d - n
        },
{
    if i + d < n {
        vstd::arithmetic::div_mod::lemma_small_mod((i + d) as nat, n as nat);
    } else {
        vstd::arithmetic::div_mod::lemma_mod_multiples_vanish(1, i + d - n, n);
        vstd::arithmetic::div_mod::lemma_small_mod((i + d - n) as nat, n as nat);
        assert(n * 1 + (i + d - n) == i + d);
    }
}

/// How a fill with the given number of contours is drawn.
pub fn fill_strategy(contours: usize, first_is_convex: bool) -> (r: FillStrategy)
    ensures
        r == if contours == 1 && first_is_convex {
            FillStrategy::DirectConvex
        } else {
            FillStrategy::StencilCover
        },
{
    if contours == 1 && first_is_convex {
        FillStrategy::DirectConvex
    } else {
        FillStrategy::StencilCover
    }
}

} // verus!
