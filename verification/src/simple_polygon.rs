//! Simple polygons have ears.
//!
//! A polygon whose sides meet only at its corners can be cut into triangles by
//! taking its ears off one after the other. The corners stand on a grid, no
//! three of them in line.

use vstd::prelude::*;

use crate::plane::{
    crosses, inside, lemma_clear_view, lemma_no_crossing_at_ends, lemma_same_crossing, lemma_sign,
    lemma_through, lemma_weights, low, spread_out,
};
use crate::tessellation::{
    Grid, Turns, after, before, clips, ends_straight, first_ear, in_triangle, is_ear,
    lemma_area_remove, triangles, triangles_have_the_area, turns_with,
};
use crate::winding::{
    along, columns, drawn_in, lemma_around_remove, lemma_passing_back, lemma_triangle,
    lemma_winding_starts, lemma_winding_stays, passing, starts_left, uncrossed, winding,
};

verus! {

/// Whether no two sides of a polygon cross.
#[verifier::opaque]
pub open spec fn simple(g: Grid, ring: Seq<usize>) -> bool {
    forall|i: int| 0 <= i < ring.len() ==> uncrossed(g, ring, #[trigger] ring[i], after(ring, i))
}

/// Whether all points of a set stand on the grid.
pub open spec fn stands_on(g: Grid, s: Set<usize>) -> bool {
    forall|a: usize| #[trigger] s.contains(a) ==> g.has(a)
}

/// Whether a polygon is simple, with its corners in general position.
spec fn ready(g: Grid, s: Set<usize>, ring: Seq<usize>) -> bool {
    &&& stands_on(g, s)
    &&& spread_out(g, s)
    &&& columns(g, s)
    &&& drawn_in(ring, s)
    &&& ring.len() >= 3
    &&& simple(g, ring)
}

/// Whether the point at place `k` of a ring is left of all others.
spec fn is_left(g: Grid, ring: Seq<usize>, k: int) -> bool {
    forall|i: int|
        0 <= i < ring.len() && i != k ==> g.xs[ring[k] as int] < g.xs[#[trigger] ring[i] as int]
}

/// Whether a polygon turns to the left at its leftmost corner.
spec fn positive(g: Grid, ring: Seq<usize>) -> bool {
    forall|k: int|
        0 <= k < ring.len() && #[trigger] is_left(g, ring, k) ==> g.area(
            before(ring, k),
            ring[k],
            after(ring, k),
        ) > 0
}

/// Whether a corner turns to the left and no other corner lies in its triangle.
spec fn ear(g: Grid, ring: Seq<usize>, i: int) -> bool {
    let (a, b, c) = (before(ring, i), ring[i], after(ring, i));
    &&& g.area(a, b, c) > 0
    &&& forall|j: int|
        0 <= j < ring.len() && (#[trigger] ring[j]) != a && ring[j] != b && ring[j] != c ==> !inside(
            g,
            ring[j],
            a,
            b,
            c,
        )
}

/// Whether a polygon has a side from one point to another.
spec fn side(ring: Seq<usize>, p: usize, q: usize) -> bool {
    exists|i: int| 0 <= i < ring.len() && #[trigger] ring[i] == p && after(ring, i) == q
}

// ---------------------------------------------------------------------------
// Rings
// ---------------------------------------------------------------------------

proof fn lemma_least(g: Grid, ring: Seq<usize>, n: int) -> (k: int)
    requires
        0 < n <= ring.len(),
    ensures
        0 <= k < n,
        forall|i: int| 0 <= i < n ==> g.xs[ring[k] as int] <= g.xs[#[trigger] ring[i] as int],
    decreases n,
{
    if n == 1 {
        0
    } else {
        let k = lemma_least(g, ring, n - 1);
        if g.xs[ring[n - 1] as int] < g.xs[ring[k] as int] {
            n - 1
        } else {
            k
        }
    }
}

/// One corner is left of all others.
proof fn lemma_leftmost(g: Grid, s: Set<usize>, ring: Seq<usize>) -> (k: int)
    requires
        columns(g, s),
        drawn_in(ring, s),
        ring.len() >= 1,
    ensures
        0 <= k < ring.len(),
        is_left(g, ring, k),
{
    let k = lemma_least(g, ring, ring.len() as int);
    assert forall|i: int| 0 <= i < ring.len() && i != k implies g.xs[ring[k] as int]
        < g.xs[#[trigger] ring[i] as int] by {
        assert(ring[i] != ring[k]);
        assert(g.xs[ring[i] as int] != g.xs[ring[k] as int]);
    }
    k
}

/// A ring that starts at place `k`.
spec fn turned(ring: Seq<usize>, k: int) -> Seq<usize> {
    ring.subrange(k, ring.len() as int) + ring.subrange(0, k)
}

/// The place of a ring that comes to place `i` when it starts at place `k`.
spec fn from_place(i: int, k: int, n: int) -> int {
    if i + k < n {
        i + k
    } else {
        i + k - n
    }
}

proof fn lemma_turned(ring: Seq<usize>, k: int)
    requires
        0 <= k < ring.len(),
    ensures
        turned(ring, k).len() == ring.len(),
        forall|i: int|
            0 <= i < ring.len() ==> {
                let t = from_place(i, k, ring.len() as int);
                &&& 0 <= t < ring.len()
                &&& #[trigger] turned(ring, k)[i] == ring[t]
                &&& after(turned(ring, k), i) == after(ring, t)
                &&& before(turned(ring, k), i) == before(ring, t)
            },
{
}

/// Starting elsewhere does not change a polygon.
proof fn lemma_turned_ready(g: Grid, s: Set<usize>, ring: Seq<usize>, k: int)
    requires
        ready(g, s, ring),
        0 <= k < ring.len(),
    ensures
        ready(g, s, turned(ring, k)),
{
    reveal(simple);
    let r = turned(ring, k);
    let n = ring.len() as int;
    lemma_turned(ring, k);
    assert forall|i: int| 0 <= i < r.len() implies uncrossed(g, r, #[trigger] r[i], after(r, i)) by {
        let t = from_place(i, k, n);
        assert(uncrossed(g, ring, ring[t], after(ring, t)));
        assert forall|j: int| 0 <= j < r.len() implies !crosses(
            g,
            r[i],
            after(r, i),
            #[trigger] r[j],
            after(r, j),
        ) by {
            assert(ring[from_place(j, k, n)] == r[j]);
        }
    }
    assert forall|i: int, j: int| 0 <= i < j < r.len() implies #[trigger] r[i] != #[trigger] r[j] by {
        assert(ring[from_place(i, k, n)] == r[i]);
        assert(ring[from_place(j, k, n)] == r[j]);
    }
    assert forall|i: int| 0 <= i < r.len() implies s.contains(#[trigger] r[i]) by {
        assert(s.contains(ring[from_place(i, k, n)]));
    }
}

/// The neighbors in a ring without one of its points.
proof fn lemma_removed(s: Set<usize>, ring: Seq<usize>, i: int)
    requires
        drawn_in(ring, s),
        ring.len() >= 3,
        0 <= i < ring.len(),
    ensures
        drawn_in(ring.remove(i), s),
        ring.remove(i).len() == ring.len() - 1,
        forall|t: int|
            #![trigger ring.remove(i)[t]]
            0 <= t < ring.len() - 1 ==> {
                let r = ring.remove(i);
                let k = if t < i {
                    t
                } else {
                    t + 1
                };
                &&& r[t] == ring[k]
                &&& r[t] != ring[i]
                &&& after(r, t) == if r[t] == before(ring, i) {
                    after(ring, i)
                } else {
                    after(ring, k)
                }
                &&& before(r, t) == if r[t] == after(ring, i) {
                    before(ring, i)
                } else {
                    before(ring, k)
                }
            },
        before(ring, i) != ring[i],
        after(ring, i) != ring[i],
        before(ring, i) != after(ring, i),
{
    let r = ring.remove(i);
    assert forall|a: int, b: int| 0 <= a < b < r.len() implies #[trigger] r[a] != #[trigger] r[b] by {
        assert(r[a] == ring[if a < i {
            a
        } else {
            a + 1
        }]);
        assert(r[b] == ring[if b < i {
            b
        } else {
            b + 1
        }]);
    }
    assert forall|t: int| 0 <= t < r.len() implies s.contains(#[trigger] r[t]) by {
        assert(s.contains(ring[if t < i {
            t
        } else {
            t + 1
        }]));
    }
}

/// A point left of the corners of a triangle is not inside.
proof fn lemma_left_is_outside(g: Grid, m: usize, a: usize, b: usize, c: usize)
    requires
        g.xs[m as int] < g.xs[a as int],
        g.xs[m as int] < g.xs[b as int],
        g.xs[m as int] < g.xs[c as int],
    ensures
        !inside(g, m, a, b, c),
{
    lemma_weights(g, a, b, c, m);
    lemma_sign(g.area(b, c, m), g.xs[a as int] - g.xs[m as int]);
    lemma_sign(g.area(c, a, m), g.xs[b as int] - g.xs[m as int]);
    lemma_sign(g.area(a, b, m), g.xs[c as int] - g.xs[m as int]);
}

// ---------------------------------------------------------------------------
// Taking an ear off
// ---------------------------------------------------------------------------

/// A segment that crosses the open side of an ear crosses another side of it.
proof fn lemma_ear_is_closed(
    g: Grid,
    s: Set<usize>,
    a: usize,
    b: usize,
    c: usize,
    d: usize,
    e: usize,
)
    requires
        spread_out(g, s),
        s.contains(a),
        s.contains(b),
        s.contains(c),
        s.contains(d),
        s.contains(e),
        g.area(a, b, c) > 0,
        d != b,
        e != b,
        d != a && d != c ==> !inside(g, d, a, b, c),
        e != a && e != c ==> !inside(g, e, a, b, c),
        !crosses(g, d, e, a, b),
        !crosses(g, d, e, b, c),
    ensures
        !crosses(g, d, e, a, c),
        !crosses(g, a, c, d, e),
{
    if crosses(g, d, e, a, c) {
        assert(d != e);
        assert(d != a && d != c && e != a && e != c);
        assert(a != b && b != c);
        lemma_through(g, a, b, c, d, e);
    }
}

/// A polygon stays simple when an ear is taken off.
proof fn lemma_cut_simple(g: Grid, s: Set<usize>, ring: Seq<usize>, i: int)
    requires
        ready(g, s, ring),
        ring.len() >= 4,
        0 <= i < ring.len(),
        ear(g, ring, i),
    ensures
        ready(g, s, ring.remove(i)),
{
    reveal(simple);
    let r = ring.remove(i);
    let (a, b, c) = (before(ring, i), ring[i], after(ring, i));
    lemma_removed(s, ring, i);
    assert(uncrossed(g, ring, ring[i], after(ring, i)));
    let p = if i > 0 {
        i - 1
    } else {
        ring.len() - 1
    };
    assert(ring[p] == a && after(ring, p) == b);
    assert(uncrossed(g, ring, ring[p], after(ring, p)));
    assert forall|t: int| 0 <= t < r.len() && r[t] != a implies !crosses(
        g,
        #[trigger] r[t],
        after(r, t),
        a,
        c,
    ) && !crosses(g, a, c, r[t], after(r, t)) by {
        let k = if t < i {
            t
        } else {
            t + 1
        };
        let (d, e) = (ring[k], after(ring, k));
        assert(r[t] == d && after(r, t) == e);
        assert(!crosses(g, a, b, ring[k], after(ring, k)));
        assert(!crosses(g, b, c, ring[k], after(ring, k)));
        let l = if k + 1 < ring.len() {
            k + 1
        } else {
            0
        };
        assert(ring[l] == e);
        assert(e != b);
        assert(s.contains(ring[i]) && s.contains(ring[p]) && s.contains(ring[k]) && s.contains(
            ring[l],
        ));
        let q = if i + 1 < ring.len() {
            i + 1
        } else {
            0
        };
        assert(s.contains(ring[q]) && ring[q] == c);
        lemma_ear_is_closed(g, s, a, b, c, d, e);
    }
    assert forall|t: int| 0 <= t < r.len() implies uncrossed(g, r, #[trigger] r[t], after(r, t)) by {
        let k = if t < i {
            t
        } else {
            t + 1
        };
        assert(uncrossed(g, ring, ring[k], after(ring, k)));
        assert forall|j: int| 0 <= j < r.len() implies !crosses(
            g,
            r[t],
            after(r, t),
            #[trigger] r[j],
            after(r, j),
        ) by {
            if r[t] == a {
                if r[j] == a {
                    assert(g.area(a, c, a) == 0);
                } else {
                    assert(!crosses(g, a, c, r[j], after(r, j)));
                }
            } else if r[j] == a {
                assert(!crosses(g, r[t], after(r, t), a, c));
            } else {
                let l = if j < i {
                    j
                } else {
                    j + 1
                };
                assert(r[j] == ring[l]);
                assert(!crosses(g, ring[k], after(ring, k), ring[l], after(ring, l)));
            }
        }
    }
}

/// The place before place `i` of a ring.
spec fn place_before(ring: Seq<usize>, i: int) -> int {
    if i > 0 {
        i - 1
    } else {
        ring.len() - 1
    }
}

/// The place after place `i` of a ring.
spec fn place_after(ring: Seq<usize>, i: int) -> int {
    if i + 1 < ring.len() {
        i + 1
    } else {
        0
    }
}

proof fn lemma_neighbors(s: Set<usize>, ring: Seq<usize>, i: int)
    requires
        drawn_in(ring, s),
        ring.len() >= 3,
        0 <= i < ring.len(),
    ensures
        0 <= place_before(ring, i) < ring.len(),
        0 <= place_after(ring, i) < ring.len(),
        ring[place_before(ring, i)] == before(ring, i),
        ring[place_after(ring, i)] == after(ring, i),
        after(ring, place_before(ring, i)) == ring[i],
        before(ring, place_after(ring, i)) == ring[i],
        s.contains(ring[i]),
        s.contains(before(ring, i)),
        s.contains(after(ring, i)),
        before(ring, i) != ring[i],
        after(ring, i) != ring[i],
        before(ring, i) != after(ring, i),
        ring.contains(ring[i]),
        ring.contains(before(ring, i)),
        ring.contains(after(ring, i)),
{
    assert(s.contains(ring[place_before(ring, i)]));
    assert(s.contains(ring[place_after(ring, i)]));
}

/// The grid turned upside down.
spec fn mirror(g: Grid) -> Grid {
    Grid { xs: g.xs, ys: Seq::new(g.ys.len(), |i: int| -g.ys[i]) }
}

proof fn lemma_mirror_area(g: Grid, s: Set<usize>, a: usize, b: usize, c: usize)
    requires
        stands_on(g, s),
        s.contains(a),
        s.contains(b),
        s.contains(c),
    ensures
        mirror(g).area(a, b, c) == -g.area(a, b, c),
{
    let (ax, ay) = (g.xs[a as int], g.ys[a as int]);
    let (bx, by) = (g.xs[b as int], g.ys[b as int]);
    let (cx, cy) = (g.xs[c as int], g.ys[c as int]);
    assert(ax * (-by) - bx * (-ay) == -(ax * by - bx * ay)) by (nonlinear_arith);
    assert(bx * (-cy) - cx * (-by) == -(bx * cy - cx * by)) by (nonlinear_arith);
    assert(cx * (-ay) - ax * (-cy) == -(cx * ay - ax * cy)) by (nonlinear_arith);
}

proof fn lemma_mirror_crosses(g: Grid, s: Set<usize>, a: usize, b: usize, c: usize, d: usize)
    requires
        stands_on(g, s),
        s.contains(a),
        s.contains(b),
        s.contains(c),
        s.contains(d),
    ensures
        crosses(mirror(g), a, b, c, d) == crosses(g, a, b, c, d),
{
    lemma_mirror_area(g, s, a, b, c);
    lemma_mirror_area(g, s, a, b, d);
    lemma_mirror_area(g, s, c, d, a);
    lemma_mirror_area(g, s, c, d, b);
}

/// A polygon stays simple when the grid is turned upside down.
proof fn lemma_mirror_ready(g: Grid, s: Set<usize>, ring: Seq<usize>)
    requires
        ready(g, s, ring),
    ensures
        ready(mirror(g), s, ring),
{
    reveal(simple);
    let h = mirror(g);
    assert forall|a: usize, b: usize, c: usize|
        s.contains(a) && s.contains(b) && s.contains(c) && a != b && b != c && a != c implies
        #[trigger] h.area(a, b, c) != 0 by {
        lemma_mirror_area(g, s, a, b, c);
        assert(g.area(a, b, c) != 0);
    }
    assert(h.xs == g.xs);
    assert forall|a: usize, b: usize|
        s.contains(a) && s.contains(b) && a != b implies #[trigger] h.xs[a as int]
        != #[trigger] h.xs[b as int] by {
        assert(g.xs[a as int] != g.xs[b as int]);
    }
    assert forall|i: int| 0 <= i < ring.len() implies uncrossed(
        h,
        ring,
        #[trigger] ring[i],
        after(ring, i),
    ) by {
        lemma_neighbors(s, ring, i);
        assert(uncrossed(g, ring, ring[i], after(ring, i)));
        lemma_mirror_uncrossed(g, s, ring, ring[i], after(ring, i));
    }
}

proof fn lemma_mirror_uncrossed(g: Grid, s: Set<usize>, ring: Seq<usize>, p: usize, q: usize)
    requires
        stands_on(g, s),
        drawn_in(ring, s),
        ring.len() >= 3,
        s.contains(p),
        s.contains(q),
        uncrossed(g, ring, p, q),
    ensures
        uncrossed(mirror(g), ring, p, q),
{
    assert forall|j: int| 0 <= j < ring.len() implies !crosses(
        mirror(g),
        p,
        q,
        #[trigger] ring[j],
        after(ring, j),
    ) by {
        lemma_neighbors(s, ring, j);
        lemma_mirror_crosses(g, s, p, q, ring[j], after(ring, j));
        assert(!crosses(g, p, q, ring[j], after(ring, j)));
    }
}

/// A ring has one leftmost place.
proof fn lemma_left_once(g: Grid, ring: Seq<usize>, k: int)
    requires
        0 <= k < ring.len(),
        is_left(g, ring, k),
    ensures
        forall|j: int| 0 <= j < ring.len() && #[trigger] is_left(g, ring, j) ==> j == k,
{
    assert forall|j: int| 0 <= j < ring.len() && #[trigger] is_left(g, ring, j) implies j == k by {
        if j != k {
            assert(g.xs[ring[k] as int] < g.xs[ring[j] as int]);
            assert(g.xs[ring[j] as int] < g.xs[ring[k] as int]);
        }
    }
}

proof fn lemma_three(g: Grid, ring: Seq<usize>, i: int)
    requires
        ring.len() == 3,
        0 <= i < 3,
    ensures
        g.area(before(ring, i), ring[i], after(ring, i)) == g.area(ring[0], ring[1], ring[2]),
{
}

/// With the ear after it taken off, the leftmost corner still turns to the left.
proof fn lemma_turn_before_ear(g: Grid, s: Set<usize>, u: usize, m: usize, b: usize, c: usize)
    requires
        spread_out(g, s),
        s.contains(u),
        s.contains(m),
        s.contains(b),
        s.contains(c),
        u != m,
        u != b,
        u != c,
        m != b,
        m != c,
        b != c,
        g.area(u, m, b) > 0,
        g.area(m, b, c) > 0,
        !inside(g, u, m, b, c),
        !crosses(g, u, m, b, c),
    ensures
        g.area(u, m, c) > 0,
{
    assert(g.area(u, m, c) != 0);
    assert(g.area(b, c, u) != 0);
}

/// With the ear before it taken off, the leftmost corner still turns to the
/// left.
proof fn lemma_turn_after_ear(g: Grid, s: Set<usize>, a: usize, b: usize, m: usize, w: usize)
    requires
        spread_out(g, s),
        s.contains(a),
        s.contains(b),
        s.contains(m),
        s.contains(w),
        w != m,
        w != b,
        w != a,
        m != b,
        m != a,
        b != a,
        g.area(b, m, w) > 0,
        g.area(a, b, m) > 0,
        !inside(g, w, a, b, m),
        !crosses(g, m, w, a, b),
    ensures
        g.area(a, m, w) > 0,
{
    assert(g.area(a, m, w) != 0);
    assert(g.area(a, b, w) != 0);
}

/// If an ear other than the leftmost corner is taken off, the polygon turns to
/// the left at its leftmost corner as before.
#[verifier::spinoff_prover]
proof fn lemma_cut_elsewhere(g: Grid, s: Set<usize>, ring: Seq<usize>, i: int, k: int)
    requires
        ready(g, s, ring),
        ring.len() >= 4,
        0 <= i < ring.len(),
        ear(g, ring, i),
        0 <= k < ring.len(),
        is_left(g, ring, k),
        g.area(before(ring, k), ring[k], after(ring, k)) > 0,
        k != i,
    ensures
        positive(g, ring.remove(i)),
{
    let r = ring.remove(i);
    lemma_removed(s, ring, i);
    let (a, b, c) = (before(ring, i), ring[i], after(ring, i));
    let (u, m, w) = (before(ring, k), ring[k], after(ring, k));
    lemma_neighbors(s, ring, i);
    lemma_neighbors(s, ring, k);
    let (pi, pk) = (place_before(ring, i), place_before(ring, k));
    let (ni, nk) = (place_after(ring, i), place_after(ring, k));
    let kk = if k < i {
        k
    } else {
        k - 1
    };
    assert(r[kk] == m);
    assert forall|t: int| 0 <= t < r.len() && t != kk implies g.xs[r[kk] as int]
        < g.xs[#[trigger] r[t] as int] by {
        let l = if t < i {
            t
        } else {
            t + 1
        };
        assert(r[t] == ring[l]);
        assert(l != k);
    }
    lemma_left_once(g, r, kk);
    if m == a {
        assert(pi == k);
        assert(!crosses(g, ring[pk], after(ring, pk), ring[i], after(ring, i))) by {
            reveal(simple);
            assert(uncrossed(g, ring, ring[pk], after(ring, pk)));
        }
        assert(u != b && u != c);
        assert(!inside(g, ring[pk], a, b, c));
        lemma_turn_before_ear(g, s, u, m, b, c);
    } else if m == c {
        assert(ni == k);
        assert(!crosses(g, ring[k], after(ring, k), ring[pi], after(ring, pi))) by {
            reveal(simple);
            assert(uncrossed(g, ring, ring[k], after(ring, k)));
        }
        assert(w != a && w != b);
        assert(!inside(g, ring[nk], a, b, c));
        lemma_turn_after_ear(g, s, a, b, m, w);
    }
    assert(g.area(before(r, kk), r[kk], after(r, kk)) > 0);
}

/// What is seen of a polygon from its leftmost corner, once it was taken off.
#[verifier::spinoff_prover]
proof fn lemma_cut_left(g: Grid, s: Set<usize>, ring: Seq<usize>, i: int)
    requires
        ready(g, s, ring),
        ring.len() >= 4,
        0 <= i < ring.len(),
        ear(g, ring, i),
        is_left(g, ring, i),
    ensures
        ({
            let r = ring.remove(i);
            let (a, b, c) = (before(ring, i), ring[i], after(ring, i));
            &&& side(r, a, c)
            &&& !r.contains(b)
            &&& forall|j: int|
                0 <= j < r.len() ==> g.xs[b as int] < g.xs[#[trigger] r[j] as int]
            &&& forall|j: int|
                0 <= j < r.len() && (#[trigger] r[j]) != a && r[j] != c ==> !inside(
                    g,
                    r[j],
                    a,
                    b,
                    c,
                )
            &&& uncrossed(g, r, b, a)
            &&& uncrossed(g, r, b, c)
        }),
{
    let r = ring.remove(i);
    lemma_removed(s, ring, i);
    lemma_neighbors(s, ring, i);
    let (a, b, c) = (before(ring, i), ring[i], after(ring, i));
    let p = place_before(ring, i);
    let t = if p < i {
        p
    } else {
        p - 1
    };
    assert(r[t] == ring[p]);
    assert(after(r, t) == c);
    assert(uncrossed(g, ring, ring[i], after(ring, i)) && uncrossed(g, ring, ring[p], after(ring, p)))
        by {
        reveal(simple);
    }
    assert forall|j: int| 0 <= j < r.len() implies {
        &&& g.xs[b as int] < g.xs[#[trigger] r[j] as int]
        &&& r[j] != b
        &&& (r[j] != a && r[j] != c ==> !inside(g, r[j], a, b, c))
        &&& !crosses(g, b, a, r[j], after(r, j))
        &&& !crosses(g, b, c, r[j], after(r, j))
    } by {
        let l = if j < i {
            j
        } else {
            j + 1
        };
        assert(r[j] == ring[l]);
        assert(l != i);
        assert(!crosses(g, b, c, ring[l], after(ring, l)));
        assert(!crosses(g, a, b, ring[l], after(ring, l)));
        lemma_same_crossing(g, a, b, ring[l], after(ring, l));
        lemma_no_crossing_at_ends(g, a, b, c);
    }
}

/// Taking an ear off leaves a simple polygon that runs the same way.
proof fn lemma_cut(g: Grid, s: Set<usize>, ring: Seq<usize>, i: int)
    requires
        ready(g, s, ring),
        ring.len() >= 4,
        positive(g, ring),
        0 <= i < ring.len(),
        ear(g, ring, i),
    ensures
        ready(g, s, ring.remove(i)),
        positive(g, ring.remove(i)),
    decreases ring.len(), 0int, 0int,
{
    lemma_cut_simple(g, s, ring, i);
    let k = lemma_leftmost(g, s, ring);
    if k != i {
        lemma_cut_elsewhere(g, s, ring, i, k);
    } else {
        let r = ring.remove(i);
        let kk = lemma_leftmost(g, s, r);
        lemma_left_once(g, r, kk);
        lemma_neighbors(s, r, kk);
        if g.area(before(r, kk), r[kk], after(r, kk)) <= 0 {
            lemma_cut_left(g, s, ring, i);
            lemma_cut_around(g, s, ring, i, kk);
        }
    }
}

/// A polygon that turned around when its leftmost corner was taken off would
/// show a side from behind.
#[verifier::spinoff_prover]
proof fn lemma_cut_around(g: Grid, s: Set<usize>, ring: Seq<usize>, i: int, kk: int)
    requires
        ready(g, s, ring),
        ring.len() >= 4,
        0 <= i < ring.len(),
        ear(g, ring, i),
        is_left(g, ring, i),
        ready(g, s, ring.remove(i)),
        0 <= kk < ring.len() - 1,
        is_left(g, ring.remove(i), kk),
    ensures
        g.area(
            before(ring.remove(i), kk),
            ring.remove(i)[kk],
            after(ring.remove(i), kk),
        ) > 0,
    decreases ring.len() - 1, 4int, 0int,
{
    let r = ring.remove(i);
    let h = mirror(g);
    let (a, b, c) = (before(ring, i), ring[i], after(ring, i));
    lemma_cut_left(g, s, ring, i);
    lemma_neighbors(s, r, kk);
    lemma_neighbors(s, ring, i);
    if g.area(before(r, kk), r[kk], after(r, kk)) <= 0 {
        assert(g.area(before(r, kk), r[kk], after(r, kk)) != 0);
        lemma_mirror_ready(g, s, r);
        lemma_mirror_area(g, s, before(r, kk), r[kk], after(r, kk));
        assert(h.xs == g.xs);
        assert(is_left(h, r, kk));
        lemma_left_once(h, r, kk);
        assert(positive(h, r));
        lemma_mirror_area(g, s, a, c, b);
        assert(g.area(a, c, b) == -g.area(a, b, c));
        assert forall|j: int| 0 <= j < r.len() && (#[trigger] r[j]) != a && r[j] != c implies !inside(
            h,
            r[j],
            a,
            c,
            b,
        ) by {
            assert(s.contains(r[j]));
            lemma_mirror_inside(g, s, r[j], a, b, c);
        }
        lemma_mirror_uncrossed(g, s, r, b, a);
        lemma_mirror_uncrossed(g, s, r, b, c);
        lemma_behind(h, s, r, a, c, b);
    }
}

proof fn lemma_mirror_inside(g: Grid, s: Set<usize>, p: usize, a: usize, b: usize, c: usize)
    requires
        stands_on(g, s),
        s.contains(p),
        s.contains(a),
        s.contains(b),
        s.contains(c),
    ensures
        inside(mirror(g), p, a, c, b) == inside(g, p, a, b, c),
{
    lemma_mirror_area(g, s, a, c, p);
    lemma_mirror_area(g, s, c, b, p);
    lemma_mirror_area(g, s, b, a, p);
}

/// From the left, no side is seen from behind.
proof fn lemma_behind(g: Grid, s: Set<usize>, ring: Seq<usize>, u: usize, w: usize, m: usize)
    requires
        ready(g, s, ring),
        positive(g, ring),
        side(ring, u, w),
        s.contains(m),
        !ring.contains(m),
        forall|i: int|
            0 <= i < ring.len() ==> g.xs[m as int] < g.xs[#[trigger] ring[i] as int],
        g.area(u, w, m) > 0,
        forall|i: int|
            0 <= i < ring.len() && (#[trigger] ring[i]) != u && ring[i] != w ==> !inside(
                g,
                ring[i],
                u,
                w,
                m,
            ),
    ensures
        !(uncrossed(g, ring, m, u) && uncrossed(g, ring, m, w)),
    decreases ring.len(), 3int, 0int,
{
    let clear = uncrossed(g, ring, m, u) && uncrossed(g, ring, m, w);
    let t = choose|t: int| 0 <= t < ring.len() && #[trigger] ring[t] == u && after(ring, t) == w;
    lemma_neighbors(s, ring, t);
    if clear && ring.len() == 3 {
        let k = lemma_leftmost(g, s, ring);
        lemma_three(g, ring, k);
        lemma_three(g, ring, t);
        let x = before(ring, t);
        let (p, q) = (place_before(ring, t), place_after(ring, t));
        assert(after(ring, q) == x);
        assert(!crosses(g, m, u, ring[q], after(ring, q)));
        assert(!crosses(g, m, w, ring[p], after(ring, p)));
        assert(!inside(g, ring[p], u, w, m));
        assert(g.xs[m as int] < g.xs[ring[p] as int]);
        assert(g.xs[m as int] < g.xs[ring[q] as int]);
        assert(g.xs[m as int] < g.xs[ring[t] as int]);
        lemma_left_is_outside(g, m, u, w, x);
        assert(x != m && u != m && w != m);
        assert(g.area(w, m, x) != 0);
        assert(g.area(m, u, x) != 0);
    } else if clear {
        let i = lemma_ear(g, s, ring, u, w);
        lemma_cut(g, s, ring, i);
        lemma_removed(s, ring, i);
        lemma_neighbors(s, ring, i);
        let r = ring.remove(i);
        let (a, b, c) = (before(ring, i), ring[i], after(ring, i));
        let tt = if t < i {
            t
        } else {
            t - 1
        };
        assert(r[tt] == u);
        assert(t != place_before(ring, i));
        assert(u != a);
        assert(after(r, tt) == w);
        assert(side(r, u, w));
        assert forall|j: int| 0 <= j < r.len() implies g.xs[m as int] < g.xs[#[trigger] r[j] as int]
            && ring.contains(r[j]) && (r[j] != u && r[j] != w ==> !inside(g, r[j], u, w, m)) by {
            let l = if j < i {
                j
            } else {
                j + 1
            };
            assert(r[j] == ring[l]);
        }
        assert(!r.contains(m));
        assert(g.xs[m as int] < g.xs[ring[i] as int]);
        assert(g.xs[m as int] < g.xs[ring[place_before(ring, i)] as int]);
        assert(g.xs[m as int] < g.xs[ring[place_after(ring, i)] as int]);
        lemma_left_is_outside(g, m, a, b, c);
        assert(!crosses(g, m, u, ring[i], after(ring, i)));
        assert(!crosses(g, m, w, ring[i], after(ring, i)));
        let p = place_before(ring, i);
        assert(!crosses(g, m, u, ring[p], after(ring, p)));
        assert(!crosses(g, m, w, ring[p], after(ring, p)));
        assert(ring[t] == u && ring[place_after(ring, t)] == w);
        lemma_ear_is_closed(g, s, a, b, c, m, u);
        lemma_ear_is_closed(g, s, a, b, c, m, w);
        assert forall|j: int| 0 <= j < r.len() implies !crosses(
            g,
            m,
            u,
            #[trigger] r[j],
            after(r, j),
        ) && !crosses(g, m, w, r[j], after(r, j)) by {
            let l = if j < i {
                j
            } else {
                j + 1
            };
            assert(r[j] == ring[l]);
            assert(!crosses(g, m, u, ring[l], after(ring, l)));
            assert(!crosses(g, m, w, ring[l], after(ring, l)));
        }
        lemma_behind(g, s, r, u, w, m);
    }
}

/// A polygon that runs counter-clockwise does not wind around a point the other
/// way.
proof fn lemma_winding_is_positive(g: Grid, s: Set<usize>, ring: Seq<usize>, q: usize)
    requires
        ready(g, s, ring),
        positive(g, ring),
        s.contains(q),
        !ring.contains(q),
    ensures
        winding(g, q, ring) >= 0,
    decreases ring.len(), 3int, 0int,
{
    if ring.len() == 3 {
        lemma_winding_of_three(g, s, ring, q);
    } else {
        lemma_neighbors(s, ring, 0);
        assert(after(ring, 0) == ring[1]);
        assert(side(ring, ring[0], ring[1]));
        let i = lemma_ear(g, s, ring, ring[0], ring[1]);
        lemma_cut(g, s, ring, i);
        lemma_removed(s, ring, i);
        lemma_neighbors(s, ring, i);
        let r = ring.remove(i);
        assert forall|j: int| 0 <= j < r.len() implies #[trigger] r[j] != q by {
            let l = if j < i {
                j
            } else {
                j + 1
            };
            assert(ring.contains(ring[l]));
        }
        lemma_winding_is_positive(g, s, r, q);
        lemma_winding_removed(g, s, ring, i, q);
    }
}

/// A triangle winds around the points in it.
proof fn lemma_winding_of_three(g: Grid, s: Set<usize>, ring: Seq<usize>, q: usize)
    requires
        ready(g, s, ring),
        positive(g, ring),
        ring.len() == 3,
        s.contains(q),
        !ring.contains(q),
    ensures
        winding(g, q, ring) == if inside(g, q, ring[0], ring[1], ring[2]) {
            1int
        } else {
            0
        },
        g.area(ring[0], ring[1], ring[2]) > 0,
{
    let k = lemma_leftmost(g, s, ring);
    lemma_three(g, ring, k);
    lemma_neighbors(s, ring, 1);
    assert(q != ring[0] && q != ring[1] && q != ring[2]);
    lemma_triangle(g, s, ring[0], ring[1], ring[2], q);
    reveal_with_fuel(along, 4);
}

/// An ear winds around the points in it.
proof fn lemma_winding_removed(g: Grid, s: Set<usize>, ring: Seq<usize>, i: int, q: usize)
    requires
        ready(g, s, ring),
        0 <= i < ring.len(),
        g.area(before(ring, i), ring[i], after(ring, i)) > 0,
        s.contains(q),
        !ring.contains(q),
    ensures
        winding(g, q, ring) == winding(g, q, ring.remove(i)) + if inside(
            g,
            q,
            before(ring, i),
            ring[i],
            after(ring, i),
        ) {
            1int
        } else {
            0
        },
{
    let (a, b, c) = (before(ring, i), ring[i], after(ring, i));
    let f = |a: usize, b: usize| passing(g, q, a, b);
    lemma_neighbors(s, ring, i);
    lemma_around_remove(f, ring, i);
    lemma_triangle(g, s, a, b, c, q);
    lemma_passing_back(g, q, a, c);
}

// ---------------------------------------------------------------------------
// Ears
// ---------------------------------------------------------------------------

/// Of the points in a triangle, one is the farthest from its last side.
proof fn lemma_farthest(g: Grid, ring: Seq<usize>, u: usize, m: usize, w: usize, n: int) -> (k: int)
    requires
        0 <= n <= ring.len(),
        exists|j: int| 0 <= j < n && inside(g, #[trigger] ring[j], u, m, w),
    ensures
        0 <= k < n,
        inside(g, ring[k], u, m, w),
        forall|j: int|
            0 <= j < n && inside(g, #[trigger] ring[j], u, m, w) ==> g.area(w, u, ring[j])
                <= g.area(w, u, ring[k]),
    decreases n,
{
    if exists|j: int| 0 <= j < n - 1 && inside(g, #[trigger] ring[j], u, m, w) {
        let k = lemma_farthest(g, ring, u, m, w, n - 1);
        if inside(g, ring[n - 1], u, m, w) && g.area(w, u, ring[n - 1]) > g.area(w, u, ring[k]) {
            n - 1
        } else {
            k
        }
    } else {
        n - 1
    }
}

/// The corners of a polygon up to place `k`.
spec fn first_part(ring: Seq<usize>, k: int) -> Seq<usize> {
    ring.subrange(0, k + 1)
}

/// The first corner of a polygon and those from place `k` on.
spec fn last_part(ring: Seq<usize>, k: int) -> Seq<usize> {
    seq![ring[0]] + ring.subrange(k, ring.len() as int)
}

/// Whether a polygon can be cut in two between its leftmost corner and place
/// `k`.
spec fn divides(g: Grid, s: Set<usize>, ring: Seq<usize>, k: int) -> bool {
    let (u, m, w, z) = (ring[ring.len() - 1], ring[0], ring[1], ring[k]);
    &&& ready(g, s, ring)
    &&& starts_left(g, ring)
    &&& 2 <= k <= ring.len() - 2
    &&& uncrossed(g, ring, m, z)
    &&& g.area(m, w, z) > 0
    &&& g.area(u, m, z) > 0
    &&& g.area(u, m, w) > 0
}

/// The first part is a simple polygon that runs the same way.
#[verifier::rlimit(60)]
#[verifier::spinoff_prover]
proof fn lemma_first_part(g: Grid, s: Set<usize>, ring: Seq<usize>, k: int)
    requires
        divides(g, s, ring, k),
    ensures
        ready(g, s, first_part(ring, k)),
        starts_left(g, first_part(ring, k)),
        positive(g, first_part(ring, k)),
{
    reveal(simple);
    let r = first_part(ring, k);
    assert forall|i: int| 0 <= i < r.len() implies uncrossed(g, r, #[trigger] r[i], after(r, i)) by {
        assert(uncrossed(g, ring, ring[i], after(ring, i)));
        assert forall|j: int| 0 <= j < r.len() implies !crosses(
            g,
            r[i],
            after(r, i),
            #[trigger] r[j],
            after(r, j),
        ) by {
            assert(r[j] == ring[j] && r[i] == ring[i]);
            assert(!crosses(g, ring[i], after(ring, i), ring[j], after(ring, j)));
            assert(!crosses(g, ring[0], ring[k], ring[j], after(ring, j)));
            assert(!crosses(g, ring[0], ring[k], ring[i], after(ring, i)));
        }
    }
    assert forall|i: int| 0 < i < r.len() implies g.xs[r[0] as int] < g.xs[#[trigger] r[i] as int] by {
        assert(r[i] == ring[i]);
    }
    assert(is_left(g, r, 0));
    lemma_left_once(g, r, 0);
    assert(g.area(r[k], r[0], r[1]) > 0);
}

/// The last part is a simple polygon that runs the same way.
#[verifier::rlimit(60)]
#[verifier::spinoff_prover]
proof fn lemma_last_part(g: Grid, s: Set<usize>, ring: Seq<usize>, k: int)
    requires
        divides(g, s, ring, k),
    ensures
        ready(g, s, last_part(ring, k)),
        starts_left(g, last_part(ring, k)),
        positive(g, last_part(ring, k)),
{
    reveal(simple);
    let r = last_part(ring, k);
    let n = ring.len() as int;
    assert(r[0] == ring[0]);
    assert forall|i: int| 0 < i < r.len() implies #[trigger] r[i] == ring[i + k - 1] by {}
    assert forall|i: int| 0 < i < r.len() implies after(r, i) == after(ring, i + k - 1) by {
        if i + 1 < r.len() {
            assert(r[i + 1] == ring[i + k]);
        }
    }
    assert(r[1] == ring[k]);
    assert(after(r, 0) == ring[k]);
    assert forall|i: int| 0 <= i < r.len() implies uncrossed(g, r, #[trigger] r[i], after(r, i)) by {
        let p = i + k - 1;
        if i > 0 {
            assert(uncrossed(g, ring, ring[p], after(ring, p)));
        }
        assert forall|j: int| 0 <= j < r.len() implies !crosses(
            g,
            r[i],
            after(r, i),
            #[trigger] r[j],
            after(r, j),
        ) by {
            let q = j + k - 1;
            if i > 0 && j > 0 {
                assert(!crosses(g, ring[p], after(ring, p), ring[q], after(ring, q)));
            } else if i > 0 {
                assert(!crosses(g, ring[0], ring[k], ring[p], after(ring, p)));
            } else if j > 0 {
                assert(!crosses(g, ring[0], ring[k], ring[q], after(ring, q)));
            } else {
                assert(g.area(r[0], r[1], r[0]) == 0);
            }
        }
    }
    assert forall|i: int, j: int| 0 <= i < j < r.len() implies #[trigger] r[i] != #[trigger] r[j] by {
        if i > 0 {
            assert(ring[i + k - 1] != ring[j + k - 1]);
        } else {
            assert(ring[0] != ring[j + k - 1]);
        }
    }
    assert forall|i: int| 0 <= i < r.len() implies s.contains(#[trigger] r[i]) by {
        if i > 0 {
            assert(s.contains(ring[i + k - 1]));
        } else {
            assert(s.contains(ring[0]));
        }
    }
    assert forall|i: int| 0 < i < r.len() implies g.xs[r[0] as int] < g.xs[#[trigger] r[i] as int] by {
        assert(r[i] == ring[i + k - 1]);
    }
    assert(is_left(g, r, 0));
    lemma_left_once(g, r, 0);
    assert(r[r.len() - 1] == ring[n - 1]);
}

/// The last part does not wind around the corners of the first.
proof fn lemma_first_is_outside(g: Grid, s: Set<usize>, ring: Seq<usize>, k: int, j: int)
    requires
        divides(g, s, ring, k),
        1 <= j < k,
    ensures
        winding(g, ring[j], last_part(ring, k)) == 0,
        !last_part(ring, k).contains(ring[j]),
    decreases j,
{
    let r = last_part(ring, k);
    lemma_last_part(g, s, ring, k);
    lemma_last_uncrossed(g, s, ring, k, j - 1);
    lemma_absent(g, s, ring, k, j);
    assert(s.contains(ring[j]));
    if j == 1 {
        assert(r[0] == ring[0] && r[1] == ring[k] && r[r.len() - 1] == ring[ring.len() - 1]);
        lemma_winding_starts(g, s, r, ring[1]);
    } else {
        lemma_first_is_outside(g, s, ring, k, j - 1);
        assert(s.contains(ring[j - 1]));
        lemma_winding_stays(g, s, r, ring[j - 1], ring[j]);
    }
}

/// The corners of one part, but for the ends of the cut, are not in the other.
proof fn lemma_absent(g: Grid, s: Set<usize>, ring: Seq<usize>, k: int, j: int)
    requires
        divides(g, s, ring, k),
        1 <= j < ring.len(),
    ensures
        j < k ==> !last_part(ring, k).contains(ring[j]),
        j > k ==> !first_part(ring, k).contains(ring[j]),
{
    let r = last_part(ring, k);
    let f = first_part(ring, k);
    if j < k {
        assert forall|i: int| 0 <= i < r.len() implies #[trigger] r[i] != ring[j] by {
            if i > 0 {
                assert(r[i] == ring[i + k - 1]);
            }
        }
    }
    if j > k {
        assert forall|i: int| 0 <= i < f.len() implies #[trigger] f[i] != ring[j] by {
            assert(f[i] == ring[i]);
        }
    }
}

/// The sides of the last part are those of the polygon, and the cut.
proof fn lemma_last_side(ring: Seq<usize>, k: int, i: int)
    requires
        2 <= k <= ring.len() - 2,
        0 <= i < last_part(ring, k).len(),
    ensures
        last_part(ring, k).len() == ring.len() - k + 1,
        i == 0 ==> last_part(ring, k)[i] == ring[0] && after(last_part(ring, k), i) == ring[k],
        i > 0 ==> last_part(ring, k)[i] == ring[i + k - 1] && after(last_part(ring, k), i) == after(
            ring,
            i + k - 1,
        ),
{
    let r = last_part(ring, k);
    assert(r[0] == ring[0] && r[1] == ring[k]);
    if i > 0 && i + 1 < r.len() {
        assert(r[i + 1] == ring[i + k]);
    }
}

/// No side of the first part is crossed by the last.
proof fn lemma_last_uncrossed(g: Grid, s: Set<usize>, ring: Seq<usize>, k: int, j: int)
    requires
        2 <= k <= ring.len() - 2,
        uncrossed(g, ring, ring[0], ring[k]),
        simple(g, ring),
        0 <= j < k,
    ensures
        uncrossed(g, last_part(ring, k), ring[j], ring[j + 1]),
{
    reveal(simple);
    let r = last_part(ring, k);
    assert(uncrossed(g, ring, ring[j], after(ring, j)));
    let (p, q) = (ring[j], ring[j + 1]);
    assert forall|i: int| 0 <= i < r.len() implies !crosses(g, p, q, #[trigger] r[i], after(r, i)) by {
        lemma_last_side(ring, k, i);
        if i > 0 {
            let l = i + k - 1;
            assert(!crosses(g, p, q, ring[l], after(ring, l)));
        } else {
            assert(!crosses(g, ring[0], ring[k], ring[j], after(ring, j)));
            lemma_same_crossing(g, ring[0], ring[k], p, q);
        }
    }
}

/// The first part does not wind around the corners of the last.
#[verifier::rlimit(60)]
#[verifier::spinoff_prover]
proof fn lemma_last_is_outside(g: Grid, s: Set<usize>, ring: Seq<usize>, k: int, j: int)
    requires
        divides(g, s, ring, k),
        k < j < ring.len(),
    ensures
        winding(g, ring[j], first_part(ring, k)) == 0,
        !first_part(ring, k).contains(ring[j]),
    decreases ring.len() - j,
{
    reveal(simple);
    let r = first_part(ring, k);
    let n = ring.len() as int;
    lemma_first_part(g, s, ring, k);
    lemma_absent(g, s, ring, k, j);
    assert(s.contains(ring[j]));
    assert(uncrossed(g, ring, ring[j], after(ring, j)));
    let e = after(ring, j);
    assert forall|i: int| 0 <= i < r.len() implies !crosses(g, ring[j], e, #[trigger] r[i], after(r, i))
        && !crosses(g, e, ring[j], r[i], after(r, i)) by {
        assert(r[i] == ring[i]);
        if i < k {
            assert(!crosses(g, ring[j], after(ring, j), ring[i], after(ring, i)));
        } else {
            assert(!crosses(g, ring[0], ring[k], ring[j], after(ring, j)));
        }
    }
    if j == n - 1 {
        assert(e == ring[0]);
        assert(r[0] == ring[0] && r[1] == ring[1] && r[r.len() - 1] == ring[k]);
        lemma_winding_starts(g, s, r, ring[j]);
    } else {
        lemma_last_is_outside(g, s, ring, k, j + 1);
        assert(s.contains(ring[j + 1]));
        lemma_winding_stays(g, s, r, ring[j], ring[j + 1]);
    }
}

/// A corner that is an ear, and is no end of the given side.
proof fn lemma_ear(g: Grid, s: Set<usize>, ring: Seq<usize>, p: usize, q: usize) -> (i: int)
    requires
        ready(g, s, ring),
        positive(g, ring),
        ring.len() >= 4,
        side(ring, p, q),
    ensures
        0 <= i < ring.len(),
        ear(g, ring, i),
        ring[i] != p,
        ring[i] != q,
    decreases ring.len(), 2int, 0int,
{
    let n = ring.len() as int;
    let k = lemma_leftmost(g, s, ring);
    let r = turned(ring, k);
    lemma_turned(ring, k);
    lemma_turned_ready(g, s, ring, k);
    assert(r[0] == ring[k]);
    assert forall|i: int| 0 < i < r.len() implies g.xs[r[0] as int] < g.xs[#[trigger] r[i] as int] by {
        assert(r[i] == ring[from_place(i, k, n)]);
    }
    let t = choose|t: int| 0 <= t < ring.len() && #[trigger] ring[t] == p && after(ring, t) == q;
    let tt = if t >= k {
        t - k
    } else {
        t - k + n
    };
    assert(from_place(tt, k, n) == t);
    assert(r[tt] == p);
    assert(side(r, p, q));
    let j = lemma_ear_from_left(g, s, r, p, q);
    let i = from_place(j, k, n);
    assert(r[j] == ring[i]);
    assert forall|l: int|
        0 <= l < ring.len() && (#[trigger] ring[l]) != before(ring, i) && ring[l] != ring[i] && ring[l]
            != after(ring, i) implies !inside(g, ring[l], before(ring, i), ring[i], after(ring, i)) by {
        let ll = if l >= k {
            l - k
        } else {
            l - k + n
        };
        assert(from_place(ll, k, n) == l);
        assert(r[ll] == ring[l]);
    }
    i
}

/// A corner that is an ear, and is no end of the given side, of a polygon that
/// starts with its leftmost corner.
proof fn lemma_ear_from_left(g: Grid, s: Set<usize>, ring: Seq<usize>, p: usize, q: usize) -> (i: int)
    requires
        ready(g, s, ring),
        ring.len() >= 4,
        starts_left(g, ring),
        g.area(ring[ring.len() - 1], ring[0], ring[1]) > 0,
        side(ring, p, q),
    ensures
        0 <= i < ring.len(),
        ear(g, ring, i),
        ring[i] != p,
        ring[i] != q,
    decreases ring.len(), 1int, 0int,
{
    reveal(simple);
    let n = ring.len() as int;
    let (u, m, w) = (ring[n - 1], ring[0], ring[1]);
    let t = choose|t: int| 0 <= t < ring.len() && #[trigger] ring[t] == p && after(ring, t) == q;
    assert(is_left(g, ring, 0));
    lemma_left_once(g, ring, 0);
    assert(positive(g, ring));
    lemma_neighbors(s, ring, 0);
    if !(exists|j: int| 0 <= j < n && inside(g, #[trigger] ring[j], u, m, w)) {
        assert(ear(g, ring, 0));
        if m != p && m != q {
            0
        } else {
            lemma_ear_without_left(g, s, ring, p, q)
        }
    } else {
        let k = lemma_farthest(g, ring, u, m, w, n);
        assert(g.area(u, m, u) == 0 && g.area(u, m, m) == 0 && g.area(m, w, w) == 0);
        assert(2 <= k <= n - 2);
        let z = ring[k];
        assert(s.contains(z));
        assert forall|j: int| 0 <= j < n implies !crosses(g, m, z, #[trigger] ring[j], after(ring, j)) by {
            lemma_neighbors(s, ring, j);
            let (d, e) = (ring[j], after(ring, j));
            let l = place_after(ring, j);
            assert(low(g, u, m, w, z, ring[j]));
            assert(low(g, u, m, w, z, ring[l]));
            assert(uncrossed(g, ring, ring[j], after(ring, j)));
            assert(!crosses(g, d, e, ring[0], after(ring, 0)));
            assert(!crosses(g, d, e, ring[n - 1], after(ring, n - 1)));
            if crosses(g, d, e, m, z) {
                lemma_clear_view(g, s, u, m, w, z, d, e);
            }
        }
        assert(divides(g, s, ring, k));
        if t < k {
            lemma_ear_in_last_part(g, s, ring, k, t)
        } else {
            lemma_ear_in_first_part(g, s, ring, k, t)
        }
    }
}

/// If the leftmost corner is an ear, there is another that is no neighbor.
proof fn lemma_ear_without_left(g: Grid, s: Set<usize>, ring: Seq<usize>, p: usize, q: usize) -> (i:
    int)
    requires
        ready(g, s, ring),
        ring.len() >= 4,
        starts_left(g, ring),
        positive(g, ring),
        ear(g, ring, 0),
        side(ring, p, q),
        ring[0] == p || ring[0] == q,
    ensures
        0 <= i < ring.len(),
        ear(g, ring, i),
        ring[i] != p,
        ring[i] != q,
    decreases ring.len(), 0int, 1int,
{
    let n = ring.len() as int;
    let (u, m, w) = (ring[n - 1], ring[0], ring[1]);
    let t = choose|t: int| 0 <= t < ring.len() && #[trigger] ring[t] == p && after(ring, t) == q;
    assert(t == 0 || t == n - 1);
    lemma_cut(g, s, ring, 0);
    lemma_removed(s, ring, 0);
    let r = ring.remove(0);
    assert forall|j: int| 0 <= j < r.len() implies #[trigger] r[j] == ring[j + 1] by {}
    let i = if r.len() == 3 {
        let k = lemma_leftmost(g, s, r);
        lemma_three(g, r, k);
        lemma_three(g, r, 1);
        1
    } else {
        assert(r[r.len() - 1] == u && after(r, r.len() - 1) == w);
        assert(side(r, u, w));
        lemma_ear(g, s, r, u, w)
    };
    assert(r[0] == w && r[r.len() - 1] == u);
    assert(0 < i < r.len() - 1);
    let l = i + 1;
    assert(r[i] == ring[l] && r[i - 1] == ring[i] && r[i + 1] == ring[i + 2]);
    let (a, b, c) = (before(ring, l), ring[l], after(ring, l));
    assert(before(r, i) == a && after(r, i) == c);
    assert forall|j: int|
        0 <= j < n && (#[trigger] ring[j]) != a && ring[j] != b && ring[j] != c implies !inside(
        g,
        ring[j],
        a,
        b,
        c,
    ) by {
        if j == 0 {
            assert(g.xs[m as int] < g.xs[ring[i] as int]);
            assert(g.xs[m as int] < g.xs[ring[l] as int]);
            assert(g.xs[m as int] < g.xs[ring[i + 2] as int]);
            lemma_left_is_outside(g, m, a, b, c);
        } else {
            assert(r[j - 1] == ring[j]);
        }
    }
    l
}

/// An ear of the last part is one of the polygon.
#[verifier::rlimit(60)]
#[verifier::spinoff_prover]
proof fn lemma_ear_in_last_part(g: Grid, s: Set<usize>, ring: Seq<usize>, k: int, t: int) -> (i: int)
    requires
        divides(g, s, ring, k),
        ring.len() >= 4,
        0 <= t < k,
    ensures
        0 <= i < ring.len(),
        ear(g, ring, i),
        ring[i] != ring[t],
        ring[i] != after(ring, t),
    decreases ring.len(), 0int, 1int,
{
    let n = ring.len() as int;
    let r = last_part(ring, k);
    lemma_last_part(g, s, ring, k);
    assert(r[0] == ring[0]);
    assert forall|j: int| 0 < j < r.len() implies #[trigger] r[j] == ring[j + k - 1] by {}
    assert(r[1] == ring[k] && after(r, 0) == r[1]);
    assert(side(r, r[0], r[1]));
    let i = if r.len() == 3 {
        2
    } else {
        lemma_ear(g, s, r, r[0], r[1])
    };
    assert(i >= 2);
    let l = i + k - 1;
    assert(r[i] == ring[l] && r[i - 1] == ring[l - 1]);
    if i + 1 < r.len() {
        assert(r[i + 1] == ring[l + 1]);
    }
    let (a, b, c) = (before(ring, l), ring[l], after(ring, l));
    assert(before(r, i) == a && after(r, i) == c);
    if r.len() == 3 {
        let kk = lemma_leftmost(g, s, r);
        lemma_three(g, r, kk);
        lemma_three(g, r, i);
    }
    assert(g.area(a, b, c) > 0);
    assert forall|j: int|
        0 <= j < n && (#[trigger] ring[j]) != a && ring[j] != b && ring[j] != c implies !inside(
        g,
        ring[j],
        a,
        b,
        c,
    ) by {
        let y = ring[j];
        if 1 <= j < k {
            lemma_first_is_outside(g, s, ring, k, j);
            lemma_ear_is_inside(g, s, r, i, y);
        } else if j == 0 {
            assert(r[0] == y);
        } else {
            assert(r[j - k + 1] == y);
        }
    }
    l
}

/// An ear of the first part is one of the polygon.
#[verifier::rlimit(60)]
#[verifier::spinoff_prover]
proof fn lemma_ear_in_first_part(g: Grid, s: Set<usize>, ring: Seq<usize>, k: int, t: int) -> (i: int)
    requires
        divides(g, s, ring, k),
        ring.len() >= 4,
        k <= t < ring.len(),
    ensures
        0 <= i < ring.len(),
        ear(g, ring, i),
        ring[i] != ring[t],
        ring[i] != after(ring, t),
    decreases ring.len(), 0int, 1int,
{
    let n = ring.len() as int;
    let r = first_part(ring, k);
    lemma_first_part(g, s, ring, k);
    assert forall|j: int| 0 <= j < r.len() implies #[trigger] r[j] == ring[j] by {}
    assert(after(r, k) == r[0]);
    assert(side(r, r[k], r[0]));
    let i = if r.len() == 3 {
        1
    } else {
        lemma_ear(g, s, r, r[k], r[0])
    };
    assert(1 <= i < k);
    assert(r[i] == ring[i] && r[i - 1] == ring[i - 1] && r[i + 1] == ring[i + 1]);
    let (a, b, c) = (before(ring, i), ring[i], after(ring, i));
    assert(before(r, i) == a && after(r, i) == c);
    if r.len() == 3 {
        let kk = lemma_leftmost(g, s, r);
        lemma_three(g, r, kk);
        lemma_three(g, r, i);
    }
    assert(g.area(a, b, c) > 0);
    assert forall|j: int|
        0 <= j < n && (#[trigger] ring[j]) != a && ring[j] != b && ring[j] != c implies !inside(
        g,
        ring[j],
        a,
        b,
        c,
    ) by {
        let y = ring[j];
        if j > k {
            lemma_last_is_outside(g, s, ring, k, j);
            lemma_ear_is_inside(g, s, r, i, y);
        } else {
            assert(r[j] == y);
        }
    }
    i
}

/// A point around which a polygon does not wind is not in an ear of it.
proof fn lemma_ear_is_inside(g: Grid, s: Set<usize>, ring: Seq<usize>, i: int, q: usize)
    requires
        ready(g, s, ring),
        positive(g, ring),
        0 <= i < ring.len(),
        ring.len() > 3 ==> ear(g, ring, i),
        s.contains(q),
        !ring.contains(q),
        winding(g, q, ring) == 0,
    ensures
        !inside(g, q, before(ring, i), ring[i], after(ring, i)),
    decreases ring.len(), 1int, 0int,
{
    if ring.len() == 3 {
        lemma_winding_of_three(g, s, ring, q);
        let (a, b, c) = (ring[0], ring[1], ring[2]);
        assert(inside(g, q, before(ring, i), ring[i], after(ring, i)) ==> inside(g, q, a, b, c));
    } else {
        lemma_cut(g, s, ring, i);
        lemma_removed(s, ring, i);
        let r = ring.remove(i);
        assert forall|j: int| 0 <= j < r.len() implies #[trigger] r[j] != q by {
            let l = if j < i {
                j
            } else {
                j + 1
            };
            assert(ring.contains(ring[l]));
        }
        lemma_winding_is_positive(g, s, r, q);
        lemma_winding_removed(g, s, ring, i, q);
    }
}

// ---------------------------------------------------------------------------
// Triangulation
// ---------------------------------------------------------------------------

/// Whether the corners of a polygon stand on the grid, no two at one place and
/// no three in line.
pub open spec fn in_general_position(g: Grid, ring: Seq<usize>) -> bool {
    &&& g.holds(ring)
    &&& forall|i: int, j: int| 0 <= i < j < ring.len() ==> #[trigger] ring[i] != #[trigger] ring[j]
    &&& forall|i: int, j: int, k: int|
        0 <= i < j < k < ring.len() ==> g.area(
            #[trigger] ring[i],
            #[trigger] ring[j],
            #[trigger] ring[k],
        ) != 0
}

/// The grid with each column moved, so that no two points stand above each
/// other.
spec fn sheared(g: Grid, m: int) -> Grid {
    Grid { xs: Seq::new(g.xs.len(), |i: int| m * g.xs[i] + g.ys[i]), ys: g.ys }
}

proof fn lemma_sheared_area(g: Grid, s: Set<usize>, m: int, a: usize, b: usize, c: usize)
    requires
        stands_on(g, s),
        s.contains(a),
        s.contains(b),
        s.contains(c),
    ensures
        sheared(g, m).area(a, b, c) == m * g.area(a, b, c),
{
    let (ax, ay) = (g.xs[a as int], g.ys[a as int]);
    let (bx, by) = (g.xs[b as int], g.ys[b as int]);
    let (cx, cy) = (g.xs[c as int], g.ys[c as int]);
    lemma_sheared_span(m, ax, ay, bx, by);
    lemma_sheared_span(m, bx, by, cx, cy);
    lemma_sheared_span(m, cx, cy, ax, ay);
    let (p, q, r) = (ax * by - bx * ay, bx * cy - cx * by, cx * ay - ax * cy);
    assert(m * p + m * q + m * r == m * (p + q + r)) by (nonlinear_arith);
}

proof fn lemma_sheared_span(m: int, ax: int, ay: int, bx: int, by: int)
    ensures
        (m * ax + ay) * by - (m * bx + by) * ay == m * (ax * by - bx * ay),
{
    assert((m * ax + ay) * by == m * (ax * by) + ay * by) by (nonlinear_arith);
    assert((m * bx + by) * ay == m * (bx * ay) + ay * by) by (nonlinear_arith);
    assert(m * (ax * by - bx * ay) == m * (ax * by) - m * (bx * ay)) by (nonlinear_arith);
}

proof fn lemma_bounded(g: Grid, ring: Seq<usize>, n: int) -> (m: int)
    requires
        0 <= n <= ring.len(),
    ensures
        m >= 0,
        forall|i: int| 0 <= i < n ==> -m <= g.ys[#[trigger] ring[i] as int] <= m,
    decreases n,
{
    if n == 0 {
        0
    } else {
        let m = lemma_bounded(g, ring, n - 1);
        let y = g.ys[ring[n - 1] as int];
        if y > m {
            y
        } else if -y > m {
            -y
        } else {
            m
        }
    }
}

proof fn lemma_apart(m: int, ax: int, ay: int, bx: int, by: int)
    requires
        -m <= ay <= m,
        -m <= by <= m,
        ax != bx || ay != by,
    ensures
        (2 * m + 1) * ax + ay != (2 * m + 1) * bx + by,
{
    assert((2 * m + 1) * ax + ay != (2 * m + 1) * bx + by) by (nonlinear_arith)
        requires
            -m <= ay <= m,
            -m <= by <= m,
            ax != bx || ay != by,
    ;
}

/// Whether the areas of one grid have the signs of those of another, or the
/// opposite ones.
spec fn agrees(g: Grid, h: Grid, same: bool, s: Set<usize>) -> bool {
    forall|a: usize, b: usize, c: usize|
        s.contains(a) && s.contains(b) && s.contains(c) ==> {
            &&& (#[trigger] h.area(a, b, c) > 0 <==> if same {
                g.area(a, b, c) > 0
            } else {
                g.area(a, b, c) < 0
            })
            &&& (h.area(a, b, c) < 0 <==> if same {
                g.area(a, b, c) < 0
            } else {
                g.area(a, b, c) > 0
            })
        }
}

/// A simple polygon is one on a sheared grid too.
proof fn lemma_sheared_ready(g: Grid, s: Set<usize>, ring: Seq<usize>, m: int)
    requires
        ring.len() >= 3,
        in_general_position(g, ring),
        simple(g, ring),
        s == ring.to_set(),
        m >= 0,
        forall|i: int| 0 <= i < ring.len() ==> -m <= g.ys[#[trigger] ring[i] as int] <= m,
    ensures
        ready(sheared(g, 2 * m + 1), s, ring),
        agrees(g, sheared(g, 2 * m + 1), true, s),
{
    reveal(simple);
    let t = 2 * m + 1;
    let h = sheared(g, t);
    assert(drawn_in(ring, s));
    assert forall|a: usize| #[trigger] s.contains(a) implies g.has(a) by {
        let i = choose|i: int| 0 <= i < ring.len() && ring[i] == a;
        assert(ring[i] == a);
    }
    assert(stands_on(h, s));
    assert forall|a: usize, b: usize, c: usize|
        s.contains(a) && s.contains(b) && s.contains(c) implies {
        &&& (#[trigger] h.area(a, b, c) > 0 <==> g.area(a, b, c) > 0)
        &&& (h.area(a, b, c) < 0 <==> g.area(a, b, c) < 0)
    } by {
        lemma_sheared_area(g, s, t, a, b, c);
        lemma_sign(t, g.area(a, b, c));
    }
    assert(agrees(g, h, true, s));
    assert forall|a: usize, b: usize, c: usize|
        s.contains(a) && s.contains(b) && s.contains(c) && a != b && b != c && a != c implies
        #[trigger] h.area(a, b, c) != 0 by {
        lemma_not_in_line(g, ring, a, b, c);
    }
    assert forall|a: usize, b: usize|
        s.contains(a) && s.contains(b) && a != b implies #[trigger] h.xs[a as int]
        != #[trigger] h.xs[b as int] by {
        let i = choose|i: int| 0 <= i < ring.len() && ring[i] == a;
        let j = choose|j: int| 0 <= j < ring.len() && ring[j] == b;
        let k: int = if i != 0 && j != 0 {
            0
        } else if i != 1 && j != 1 {
            1
        } else {
            2
        };
        let c = ring[k];
        assert(ring[i] == a && ring[j] == b && s.contains(c));
        assert(c != a && c != b);
        lemma_not_in_line(g, ring, a, b, c);
        lemma_apart(m, g.xs[a as int], g.ys[a as int], g.xs[b as int], g.ys[b as int]);
    }
    assert forall|i: int| 0 <= i < ring.len() implies uncrossed(
        h,
        ring,
        #[trigger] ring[i],
        after(ring, i),
    ) by {
        assert(uncrossed(g, ring, ring[i], after(ring, i)));
        lemma_neighbors(s, ring, i);
        assert forall|j: int| 0 <= j < ring.len() implies !crosses(
            h,
            ring[i],
            after(ring, i),
            #[trigger] ring[j],
            after(ring, j),
        ) by {
            lemma_neighbors(s, ring, j);
            assert(!crosses(g, ring[i], after(ring, i), ring[j], after(ring, j)));
            lemma_agreeing_crosses(g, h, s, ring[i], after(ring, i), ring[j], after(ring, j));
        }
    }
}

proof fn lemma_agreeing_crosses(
    g: Grid,
    h: Grid,
    s: Set<usize>,
    a: usize,
    b: usize,
    c: usize,
    d: usize,
)
    requires
        agrees(g, h, true, s),
        s.contains(a),
        s.contains(b),
        s.contains(c),
        s.contains(d),
    ensures
        crosses(h, a, b, c, d) == crosses(g, a, b, c, d),
{
    assert(h.area(a, b, c) > 0 <==> g.area(a, b, c) > 0);
    assert(h.area(a, b, d) > 0 <==> g.area(a, b, d) > 0);
    assert(h.area(c, d, a) > 0 <==> g.area(c, d, a) > 0);
    assert(h.area(c, d, b) > 0 <==> g.area(c, d, b) > 0);
}

proof fn lemma_not_in_line(g: Grid, ring: Seq<usize>, a: usize, b: usize, c: usize)
    requires
        in_general_position(g, ring),
        ring.contains(a),
        ring.contains(b),
        ring.contains(c),
        a != b,
        b != c,
        a != c,
    ensures
        g.area(a, b, c) != 0,
        g.xs[a as int] != g.xs[b as int] || g.ys[a as int] != g.ys[b as int],
{
    let i = choose|i: int| 0 <= i < ring.len() && ring[i] == a;
    let j = choose|j: int| 0 <= j < ring.len() && ring[j] == b;
    let k = choose|k: int| 0 <= k < ring.len() && ring[k] == c;
    assert(ring[i] == a && ring[j] == b && ring[k] == c);
    if i < j && j < k {
        assert(g.area(ring[i], ring[j], ring[k]) != 0);
    } else if i < k && k < j {
        assert(g.area(ring[i], ring[k], ring[j]) != 0);
    } else if j < i && i < k {
        assert(g.area(ring[j], ring[i], ring[k]) != 0);
    } else if j < k && k < i {
        assert(g.area(ring[j], ring[k], ring[i]) != 0);
    } else if k < i && i < j {
        assert(g.area(ring[k], ring[i], ring[j]) != 0);
    } else {
        assert(g.area(ring[k], ring[j], ring[i]) != 0);
    }
}

/// An ear on one grid is an ear for turns of another that agrees.
proof fn lemma_ears_agree(
    g: Grid,
    h: Grid,
    f: Turns,
    ccw: bool,
    s: Set<usize>,
    ring: Seq<usize>,
    i: int,
)
    requires
        stands_on(g, s),
        g.decides(f),
        ready(h, s, ring),
        agrees(g, h, ccw, s),
        0 <= i < ring.len(),
    ensures
        is_ear(f, ccw, ring, i) == ear(h, ring, i),
{
    let (a, b, c) = (before(ring, i), ring[i], after(ring, i));
    lemma_neighbors(s, ring, i);
    assert(h.area(a, b, c) > 0 <==> turns_with(f, ccw, a, b, c));
    if h.area(a, b, c) > 0 {
        assert forall|j: int|
            0 <= j < ring.len() && (#[trigger] ring[j]) != a && ring[j] != b && ring[j]
                != c implies in_triangle(f, ring[j], a, b, c) == inside(h, ring[j], a, b, c) by {
            let p = ring[j];
            assert(s.contains(p));
            assert(f(p, a, b).sign > 0 <==> g.area(p, a, b) > 0);
            assert(f(p, b, c).sign > 0 <==> g.area(p, b, c) > 0);
            assert(f(p, c, a).sign > 0 <==> g.area(p, c, a) > 0);
            assert(h.area(a, b, p) == h.area(p, a, b));
            assert(h.area(b, c, p) == h.area(p, b, c));
            assert(h.area(c, a, p) == h.area(p, c, a));
            assert(h.area(p, a, b) + h.area(p, b, c) + h.area(p, c, a) == h.area(a, b, c));
            assert(h.area(p, a, b) != 0 && h.area(p, b, c) != 0 && h.area(p, c, a) != 0);
        }
    }
}

proof fn lemma_first_ear_found(f: Turns, ccw: bool, ring: Seq<usize>, i: int, k: int)
    requires
        0 <= i <= k < ring.len(),
        is_ear(f, ccw, ring, k),
    ensures
        i <= first_ear(f, ccw, ring, i) <= k,
        is_ear(f, ccw, ring, first_ear(f, ccw, ring, i)),
    decreases k - i,
{
    if !is_ear(f, ccw, ring, i) {
        lemma_first_ear_found(f, ccw, ring, i + 1, k);
    }
}

/// Whether all triangles turn the way the polygon does.
pub open spec fn all_turn_with(f: Turns, ccw: bool, t: Seq<usize>) -> bool {
    forall|k: int|
        0 <= k && 3 * k + 2 < t.len() ==> #[trigger] turns_with(
            f,
            ccw,
            t[3 * k],
            t[3 * k + 1],
            t[3 * k + 2],
        )
}

/// Taking the first ear off leaves one triangle less to find.
proof fn lemma_clip_step(f: Turns, ccw: bool, ring: Seq<usize>)
    requires
        ring.len() > 3,
        0 <= first_ear(f, ccw, ring, 0) < ring.len(),
        is_ear(f, ccw, ring, first_ear(f, ccw, ring, 0)),
        clips(f, ccw, ring.remove(first_ear(f, ccw, ring, 0))),
        ends_straight(f, ccw, ring.remove(first_ear(f, ccw, ring, 0))),
        all_turn_with(f, ccw, triangles(f, ccw, ring.remove(first_ear(f, ccw, ring, 0)))),
    ensures
        clips(f, ccw, ring),
        ends_straight(f, ccw, ring),
        all_turn_with(f, ccw, triangles(f, ccw, ring)),
        triangles(f, ccw, ring).len() == 3 + triangles(
            f,
            ccw,
            ring.remove(first_ear(f, ccw, ring, 0)),
        ).len(),
{
    let i = first_ear(f, ccw, ring, 0);
    let t = triangles(f, ccw, ring);
    let rest = triangles(f, ccw, ring.remove(i));
    assert(t == seq![before(ring, i), ring[i], after(ring, i)] + rest);
    assert forall|k: int| 0 <= k && 3 * k + 2 < t.len() implies #[trigger] turns_with(
        f,
        ccw,
        t[3 * k],
        t[3 * k + 1],
        t[3 * k + 2],
    ) by {
        if k > 0 {
            let j = k - 1;
            assert(turns_with(f, ccw, rest[3 * j], rest[3 * j + 1], rest[3 * j + 2]));
        }
    }
}

/// The first ear can be taken off.
proof fn lemma_next_ear(g: Grid, h: Grid, f: Turns, ccw: bool, s: Set<usize>, ring: Seq<usize>)
    requires
        stands_on(g, s),
        g.decides(f),
        ready(h, s, ring),
        positive(h, ring),
        agrees(g, h, ccw, s),
        ring.len() > 3,
    ensures
        ({
            let i = first_ear(f, ccw, ring, 0);
            &&& 0 <= i < ring.len()
            &&& is_ear(f, ccw, ring, i)
            &&& ready(h, s, ring.remove(i))
            &&& positive(h, ring.remove(i))
            &&& h.area(before(ring, i), ring[i], after(ring, i)) > 0
        }),
{
    assert(after(ring, 0) == ring[1]);
    assert(side(ring, ring[0], ring[1]));
    let k = lemma_ear(h, s, ring, ring[0], ring[1]);
    lemma_ears_agree(g, h, f, ccw, s, ring, k);
    lemma_first_ear_found(f, ccw, ring, 0, k);
    let i = first_ear(f, ccw, ring, 0);
    lemma_ears_agree(g, h, f, ccw, s, ring, i);
    lemma_cut(h, s, ring, i);
}

/// The last triangle turns the way the polygon does.
proof fn lemma_last_triangle(g: Grid, h: Grid, f: Turns, ccw: bool, s: Set<usize>, ring: Seq<usize>)
    requires
        stands_on(g, s),
        g.decides(f),
        ready(h, s, ring),
        positive(h, ring),
        agrees(g, h, ccw, s),
        ring.len() == 3,
    ensures
        clips(f, ccw, ring),
        ends_straight(f, ccw, ring),
        all_turn_with(f, ccw, triangles(f, ccw, ring)),
        triangles(f, ccw, ring).len() == 3,
        if ccw {
            g.ring_area(ring) > 0
        } else {
            g.ring_area(ring) < 0
        },
{
    let k = lemma_leftmost(h, s, ring);
    lemma_three(h, ring, k);
    lemma_neighbors(s, ring, 1);
    let (a, b, c) = (ring[0], ring[1], ring[2]);
    assert(h.area(a, b, c) > 0);
    assert(f(a, b, c).sign > 0 <==> g.area(a, b, c) > 0);
    reveal_with_fuel(Grid::chain, 4);
    assert(g.ring_area(ring) == g.area(a, b, c));
}

/// One ear after the other is found, and the area has the sign of the turns.
proof fn lemma_all_clipped(g: Grid, h: Grid, f: Turns, ccw: bool, s: Set<usize>, ring: Seq<usize>)
    requires
        stands_on(g, s),
        g.decides(f),
        ready(h, s, ring),
        positive(h, ring),
        agrees(g, h, ccw, s),
    ensures
        clips(f, ccw, ring),
        ends_straight(f, ccw, ring),
        all_turn_with(f, ccw, triangles(f, ccw, ring)),
        triangles(f, ccw, ring).len() == 3 * (ring.len() - 2),
        if ccw {
            g.ring_area(ring) > 0
        } else {
            g.ring_area(ring) < 0
        },
    decreases ring.len(),
{
    if ring.len() == 3 {
        lemma_last_triangle(g, h, f, ccw, s, ring);
    } else {
        let i = first_ear(f, ccw, ring, 0);
        lemma_next_ear(g, h, f, ccw, s, ring);
        lemma_all_clipped(g, h, f, ccw, s, ring.remove(i));
        lemma_clip_step(f, ccw, ring);
        lemma_area_remove(g, ring, i);
        lemma_neighbors(s, ring, i);
        assert(h.area(before(ring, i), ring[i], after(ring, i)) > 0);
    }
}

/// A simple polygon of `n` corners, no three of them in line, is cut into
/// `n - 2` triangles, where turns are exact. Together they have the area of the
/// polygon, and each of them turns the way the polygon runs.
pub proof fn simple_polygons_are_clipped(g: Grid, f: Turns, ccw: bool, ring: Seq<usize>)
    requires
        ring.len() >= 3,
        g.decides(f),
        in_general_position(g, ring),
        simple(g, ring),
        ccw == (g.ring_area(ring) > 0),
    ensures
        clips(f, ccw, ring),
        triangles(f, ccw, ring).len() == 3 * (ring.len() - 2),
        g.total(triangles(f, ccw, ring), (ring.len() - 2) as nat) == g.ring_area(ring),
        all_turn_with(f, ccw, triangles(f, ccw, ring)),
{
    let s = ring.to_set();
    let m = lemma_bounded(g, ring, ring.len() as int);
    lemma_sheared_ready(g, s, ring, m);
    let h = sheared(g, 2 * m + 1);
    let k = lemma_leftmost(h, s, ring);
    lemma_left_once(h, ring, k);
    lemma_neighbors(s, ring, k);
    let (a, b, c) = (before(ring, k), ring[k], after(ring, k));
    if h.area(a, b, c) > 0 {
        assert(positive(h, ring));
        lemma_all_clipped(g, h, f, true, s, ring);
    } else {
        assert(h.area(a, b, c) != 0);
        let o = mirror(h);
        lemma_mirror_ready(h, s, ring);
        lemma_mirror_area(h, s, a, b, c);
        assert(o.xs == h.xs);
        assert(is_left(o, ring, k));
        lemma_left_once(o, ring, k);
        assert(positive(o, ring));
        assert forall|a: usize, b: usize, c: usize|
            s.contains(a) && s.contains(b) && s.contains(c) implies {
            &&& (#[trigger] o.area(a, b, c) > 0 <==> g.area(a, b, c) < 0)
            &&& (o.area(a, b, c) < 0 <==> g.area(a, b, c) > 0)
        } by {
            lemma_mirror_area(h, s, a, b, c);
            assert(h.area(a, b, c) > 0 <==> g.area(a, b, c) > 0);
        }
        lemma_all_clipped(g, o, f, false, s, ring);
    }
    triangles_have_the_area(g, f, ccw, ring);
}

} // verus!
