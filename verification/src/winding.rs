//! How often a polygon winds around a point.
//!
//! The sides of the polygon that pass above the point are counted: those that
//! run to the left for it, those that run to the right against it.

use vstd::prelude::*;

use crate::plane::{crosses, inside, lemma_sign, lemma_weights, opposed, spread_out};
use crate::tessellation::{Grid, after, before};

verus! {

/// Whether no two points stand above each other.
pub open spec fn columns(g: Grid, s: Set<usize>) -> bool {
    forall|a: usize, b: usize|
        s.contains(a) && s.contains(b) && a != b ==> #[trigger] g.xs[a as int]
            != #[trigger] g.xs[b as int]
}

/// What a side counts for at a point.
pub open spec fn passing(g: Grid, q: usize, a: usize, b: usize) -> int {
    if g.xs[b as int] < g.xs[q as int] < g.xs[a as int] && g.area(a, b, q) > 0 {
        1
    } else if g.xs[a as int] < g.xs[q as int] < g.xs[b as int] && g.area(a, b, q) < 0 {
        -1
    } else {
        0
    }
}

/// A sum over the sides between the first `n` points of a ring.
pub open spec fn along(f: spec_fn(usize, usize) -> int, ring: Seq<usize>, n: nat) -> int
    decreases n,
{
    if n <= 1 {
        0
    } else {
        along(f, ring, (n - 1) as nat) + f(ring[n - 2], ring[n - 1])
    }
}

/// A sum over the sides of a polygon.
pub open spec fn around(f: spec_fn(usize, usize) -> int, ring: Seq<usize>) -> int {
    along(f, ring, ring.len()) + f(ring[ring.len() - 1], ring[0])
}

/// How often a polygon winds around a point.
pub open spec fn winding(g: Grid, q: usize, ring: Seq<usize>) -> int {
    around(|a: usize, b: usize| passing(g, q, a, b), ring)
}

proof fn lemma_along_remove(
    f: spec_fn(usize, usize) -> int,
    ring: Seq<usize>,
    i: int,
    n: nat,
)
    requires
        0 <= i < ring.len(),
        n < ring.len(),
    ensures
        along(f, ring.remove(i), n) == if n <= i {
            along(f, ring, n)
        } else if i == 0 {
            along(f, ring, n + 1) - f(ring[0], ring[1])
        } else {
            along(f, ring, n + 1) - f(ring[i - 1], ring[i]) - f(ring[i], ring[i + 1]) + f(
                ring[i - 1],
                ring[i + 1],
            )
        },
    decreases n,
{
    let r = ring.remove(i);
    reveal_with_fuel(along, 3);
    if n > 1 {
        lemma_along_remove(f, ring, i, (n - 1) as nat);
        assert(r[n - 1] == if n - 1 < i {
            ring[n - 1]
        } else {
            ring[n as int]
        });
        assert(r[n - 2] == if n - 2 < i {
            ring[n - 2]
        } else {
            ring[n - 1]
        });
    }
}

/// Without a corner, one side takes the place of two.
pub(crate) proof fn lemma_around_remove(
    f: spec_fn(usize, usize) -> int,
    ring: Seq<usize>,
    i: int,
)
    requires
        ring.len() >= 3,
        0 <= i < ring.len(),
    ensures
        around(f, ring) == around(f, ring.remove(i)) + f(before(ring, i), ring[i]) + f(
            ring[i],
            after(ring, i),
        ) - f(before(ring, i), after(ring, i)),
{
    let r = ring.remove(i);
    let n = (ring.len() - 1) as nat;
    lemma_along_remove(f, ring, i, n);
    assert(r.len() == n);
    assert(r[n - 1] == if n - 1 < i {
        ring[n - 1]
    } else {
        ring[n as int]
    });
    assert(r[0] == if 0 < i {
        ring[0]
    } else {
        ring[1]
    });
    if i == n {
        assert(along(f, ring, ring.len()) == along(f, ring, n) + f(ring[n - 1], ring[n as int]));
    }
}

proof fn lemma_along_differs(
    f: spec_fn(usize, usize) -> int,
    k: spec_fn(usize, usize) -> int,
    h: spec_fn(usize) -> int,
    ring: Seq<usize>,
    n: nat,
)
    requires
        1 <= n <= ring.len(),
        forall|i: int|
            0 <= i < ring.len() ==> f(#[trigger] ring[i], after(ring, i)) - k(
                ring[i],
                after(ring, i),
            ) == h(after(ring, i)) - h(ring[i]),
    ensures
        along(f, ring, n) - along(k, ring, n) == h(ring[n - 1]) - h(ring[0]),
    decreases n,
{
    if n > 1 {
        lemma_along_differs(f, k, h, ring, (n - 1) as nat);
        assert(after(ring, n - 2) == ring[n - 1]);
        assert(f(ring[n - 2], after(ring, n - 2)) - k(ring[n - 2], after(ring, n - 2)) == h(
            ring[n - 1],
        ) - h(ring[n - 2]));
    }
}

/// Sums over the sides of a polygon are the same, if what they differ by for a
/// side is lost and won at its ends.
pub(crate) proof fn lemma_around_same(
    f: spec_fn(usize, usize) -> int,
    k: spec_fn(usize, usize) -> int,
    h: spec_fn(usize) -> int,
    ring: Seq<usize>,
)
    requires
        ring.len() >= 1,
        forall|i: int|
            0 <= i < ring.len() ==> f(#[trigger] ring[i], after(ring, i)) - k(
                ring[i],
                after(ring, i),
            ) == h(after(ring, i)) - h(ring[i]),
    ensures
        around(f, ring) == around(k, ring),
{
    lemma_along_differs(f, k, h, ring, ring.len());
    let m = ring.len() - 1;
    assert(after(ring, m) == ring[0]);
    assert(f(ring[m], after(ring, m)) - k(ring[m], after(ring, m)) == h(ring[0]) - h(ring[m]));
}

proof fn lemma_around_nothing(f: spec_fn(usize, usize) -> int, ring: Seq<usize>, n: nat)
    requires
        n <= ring.len(),
        forall|a: usize, b: usize| #[trigger] f(a, b) == 0,
    ensures
        along(f, ring, n) == 0,
    decreases n,
{
    if n > 1 {
        lemma_around_nothing(f, ring, (n - 1) as nat);
    }
}

/// A linear function has one sign between two places where it has it.
proof fn lemma_between(k: int, xp: int, tp: int, xq: int, tq: int, xr: int, tr: int)
    requires
        tq - tp == k * (xq - xp),
        tr - tp == k * (xr - xp),
    ensures
        xp < xq < xr || xr < xq < xp ==> (tp > 0 && tr > 0 ==> tq > 0) && (tp < 0 && tr < 0 ==> tq
            < 0),
{
    assert(k * (xr - xp) - k * (xq - xp) == k * (xr - xq)) by (nonlinear_arith);
    lemma_sign(k, xq - xp);
    lemma_sign(k, xr - xq);
}

/// Whether a point lies above the segment from `p` to `q`.
pub open spec fn above(g: Grid, p: usize, q: usize, a: usize) -> int {
    if g.xs[p as int] < g.xs[a as int] < g.xs[q as int] && g.area(p, q, a) > 0 {
        1
    } else {
        0
    }
}

/// What a side counts for changes along a segment that it does not cross by how
/// many of its ends lie above the segment.
proof fn lemma_step(g: Grid, s: Set<usize>, p: usize, q: usize, a: usize, b: usize)
    requires
        spread_out(g, s),
        columns(g, s),
        s.contains(p),
        s.contains(q),
        s.contains(a),
        s.contains(b),
        p != a,
        p != b,
        q != a,
        q != b,
        a != b,
        g.xs[p as int] < g.xs[q as int],
        !crosses(g, p, q, a, b),
    ensures
        passing(g, p, a, b) - passing(g, q, a, b) == above(g, p, q, a) - above(g, p, q, b),
{
    let (xp, xq, xa, xb) = (g.xs[p as int], g.xs[q as int], g.xs[a as int], g.xs[b as int]);
    let (ep, eq) = (g.area(a, b, p), g.area(a, b, q));
    let (fa, fb) = (g.area(p, q, a), g.area(p, q, b));
    let k = eq - ep;
    lemma_weights(g, p, q, b, a);
    lemma_weights(g, p, q, a, b);
    assert(g.area(q, b, a) == -eq && g.area(b, p, a) == ep);
    assert(g.area(q, a, b) == eq && g.area(a, p, b) == -ep);
    let tp = (xq - xp) * ep;
    let tq = (xq - xp) * eq;
    let ta = (xa - xb) * fa;
    let tb = (xa - xb) * fb;
    assert(tq - tp == k * (xq - xp)) by (nonlinear_arith)
        requires
            tp == (xq - xp) * ep,
            tq == (xq - xp) * eq,
            k == eq - ep,
    ;
    assert(ta - tp == k * (xa - xp)) by (nonlinear_arith)
        requires
            (-eq) * (xp - xa) + ep * (xq - xa) + fa * (xb - xa) == 0,
            tp == (xq - xp) * ep,
            ta == (xa - xb) * fa,
            k == eq - ep,
    ;
    assert(tb - tp == k * (xb - xp)) by (nonlinear_arith)
        requires
            eq * (xp - xb) + (-ep) * (xq - xb) + fb * (xa - xb) == 0,
            tp == (xq - xp) * ep,
            tb == (xa - xb) * fb,
            k == eq - ep,
    ;
    lemma_sign(xq - xp, ep);
    lemma_sign(xq - xp, eq);
    lemma_sign(xa - xb, fa);
    lemma_sign(xa - xb, fb);
    lemma_linear(k, xp, tp, xq, tq, xa, ta);
    lemma_linear(k, xp, tp, xq, tq, xb, tb);
    assert(tb - ta == k * (xb - xa)) by (nonlinear_arith)
        requires
            ta - tp == k * (xa - xp),
            tb - tp == k * (xb - xp),
    ;
    lemma_linear(k, xa, ta, xb, tb, xp, tp);
    assert(tq - ta == k * (xq - xa)) by (nonlinear_arith)
        requires
            ta - tp == k * (xa - xp),
            tq - tp == k * (xq - xp),
    ;
    lemma_linear(k, xa, ta, xb, tb, xq, tq);
    assert(xa != xb && xa != xp && xa != xq && xb != xp && xb != xq);
    assert(ep != 0 && eq != 0 && fa != 0 && fb != 0);
}

/// `lemma_between` for three places in any order.
proof fn lemma_linear(k: int, xp: int, tp: int, xq: int, tq: int, xr: int, tr: int)
    requires
        tq - tp == k * (xq - xp),
        tr - tp == k * (xr - xp) || tp - tr == k * (xp - xr),
    ensures
        xp < xq < xr || xr < xq < xp ==> (tp > 0 && tr > 0 ==> tq > 0) && (tp < 0 && tr < 0 ==> tq
            < 0),
        xp < xr < xq || xq < xr < xp ==> (tp > 0 && tq > 0 ==> tr > 0) && (tp < 0 && tq < 0 ==> tr
            < 0),
        xq < xp < xr || xr < xp < xq ==> (tq > 0 && tr > 0 ==> tp > 0) && (tq < 0 && tr < 0 ==> tp
            < 0),
{
    assert(tr - tp == k * (xr - xp)) by (nonlinear_arith)
        requires
            tr - tp == k * (xr - xp) || tp - tr == k * (xp - xr),
    ;
    lemma_between(k, xp, tp, xq, tq, xr, tr);
    lemma_between(k, xp, tp, xr, tr, xq, tq);
    assert(tp - tq == k * (xp - xq)) by (nonlinear_arith)
        requires
            tq - tp == k * (xq - xp),
    ;
    assert(tr - tq == k * (xr - xq)) by (nonlinear_arith)
        requires
            tq - tp == k * (xq - xp),
            tr - tp == k * (xr - xp),
    ;
    lemma_between(k, xq, tq, xp, tp, xr, tr);
}

/// A triangle winds once around the points in it, and not around others.
pub(crate) proof fn lemma_triangle(g: Grid, s: Set<usize>, a: usize, b: usize, c: usize, q: usize)
    requires
        spread_out(g, s),
        columns(g, s),
        s.contains(a),
        s.contains(b),
        s.contains(c),
        s.contains(q),
        q != a,
        q != b,
        q != c,
        a != b,
        b != c,
        a != c,
        g.area(a, b, c) > 0,
    ensures
        passing(g, q, a, b) + passing(g, q, b, c) + passing(g, q, c, a) == if inside(g, q, a, b, c) {
            1int
        } else {
            0
        },
{
    lemma_weights(g, a, b, c, q);
    let xq = g.xs[q as int];
    lemma_sign(g.area(b, c, q), g.xs[a as int] - xq);
    lemma_sign(g.area(c, a, q), g.xs[b as int] - xq);
    lemma_sign(g.area(a, b, q), g.xs[c as int] - xq);
    assert(g.area(b, c, q) + g.area(c, a, q) + g.area(a, b, q) == g.area(a, b, c));
    assert(g.area(b, c, q) != 0 && g.area(c, a, q) != 0 && g.area(a, b, q) != 0);
}

/// Passing in the other direction counts the other way.
pub(crate) proof fn lemma_passing_back(g: Grid, q: usize, a: usize, b: usize)
    ensures
        passing(g, q, b, a) == -passing(g, q, a, b),
{
    assert(g.area(b, a, q) == -g.area(a, b, q));
}

/// Whether a ring has no point twice, and all of them in a set.
pub open spec fn drawn_in(ring: Seq<usize>, s: Set<usize>) -> bool {
    &&& forall|i: int| 0 <= i < ring.len() ==> s.contains(#[trigger] ring[i])
    &&& forall|i: int, j: int| 0 <= i < j < ring.len() ==> #[trigger] ring[i] != #[trigger] ring[j]
}

/// Whether no side of a polygon crosses a segment.
pub open spec fn uncrossed(g: Grid, ring: Seq<usize>, p: usize, q: usize) -> bool {
    forall|i: int| 0 <= i < ring.len() ==> !crosses(g, p, q, #[trigger] ring[i], after(ring, i))
}

/// A polygon winds as often around one point as around another, if it does not
/// cross the way between them.
pub(crate) proof fn lemma_winding_stays(
    g: Grid,
    s: Set<usize>,
    ring: Seq<usize>,
    p: usize,
    q: usize,
)
    requires
        spread_out(g, s),
        columns(g, s),
        drawn_in(ring, s),
        ring.len() >= 3,
        s.contains(p),
        s.contains(q),
        p != q,
        !ring.contains(p),
        !ring.contains(q),
        uncrossed(g, ring, p, q),
    ensures
        winding(g, p, ring) == winding(g, q, ring),
{
    if g.xs[p as int] < g.xs[q as int] {
        lemma_winding_leftwards(g, s, ring, p, q);
    } else {
        assert(g.xs[p as int] != g.xs[q as int]);
        assert forall|i: int| 0 <= i < ring.len() implies !crosses(
            g,
            q,
            p,
            #[trigger] ring[i],
            after(ring, i),
        ) by {
            assert(!crosses(g, p, q, ring[i], after(ring, i)));
        }
        lemma_winding_leftwards(g, s, ring, q, p);
    }
}

proof fn lemma_winding_leftwards(
    g: Grid,
    s: Set<usize>,
    ring: Seq<usize>,
    p: usize,
    q: usize,
)
    requires
        spread_out(g, s),
        columns(g, s),
        drawn_in(ring, s),
        ring.len() >= 3,
        s.contains(p),
        s.contains(q),
        !ring.contains(p),
        !ring.contains(q),
        uncrossed(g, ring, p, q),
        g.xs[p as int] < g.xs[q as int],
    ensures
        winding(g, p, ring) == winding(g, q, ring),
{
    let f = |a: usize, b: usize| passing(g, p, a, b);
    let k = |a: usize, b: usize| passing(g, q, a, b);
    let h = |a: usize| -above(g, p, q, a);
    assert forall|i: int| 0 <= i < ring.len() implies f(#[trigger] ring[i], after(ring, i)) - k(
        ring[i],
        after(ring, i),
    ) == h(after(ring, i)) - h(ring[i]) by {
        lemma_step(g, s, p, q, ring[i], after(ring, i));
    }
    lemma_around_same(f, k, h, ring);
}

/// Whether the point at place zero of a ring is left of all others.
pub open spec fn starts_left(g: Grid, ring: Seq<usize>) -> bool {
    forall|i: int|
        0 < i < ring.len() ==> g.xs[ring[0] as int] < g.xs[#[trigger] ring[i] as int]
}

/// A polygon does not wind around a point that is seen from its leftmost corner
/// beside both sides at the corner.
pub(crate) proof fn lemma_winding_starts(g: Grid, s: Set<usize>, ring: Seq<usize>, q: usize)
    requires
        spread_out(g, s),
        columns(g, s),
        drawn_in(ring, s),
        ring.len() >= 3,
        starts_left(g, ring),
        s.contains(q),
        !ring.contains(q),
        g.xs[ring[0] as int] < g.xs[q as int],
        uncrossed(g, ring, ring[0], q),
        !opposed(g.area(ring[0], q, ring[1]), g.area(ring[0], q, ring[ring.len() - 1])),
    ensures
        winding(g, q, ring) == 0,
{
    let m = ring[0];
    let up = g.area(m, q, ring[1]) > 0;
    assert(ring.contains(ring[1]) && ring.contains(m) && ring.contains(ring[ring.len() - 1]));
    assert(g.area(m, q, ring[1]) != 0);
    assert(g.area(m, q, ring[ring.len() - 1]) != 0);
    let f = |a: usize, b: usize| passing(g, q, a, b);
    let k = |a: usize, b: usize| 0int;
    let h = |a: usize|
        if a == m {
            if up {
                1int
            } else {
                0int
            }
        } else {
            above(g, m, q, a)
        };
    assert forall|i: int| 0 <= i < ring.len() implies f(#[trigger] ring[i], after(ring, i)) - k(
        ring[i],
        after(ring, i),
    ) == h(after(ring, i)) - h(ring[i]) by {
        let (a, b) = (ring[i], after(ring, i));
        assert(ring.contains(a) && ring.contains(b));
        if i == 0 {
            assert(b == ring[1]);
            assert(g.area(a, b, q) == -g.area(m, q, b));
        } else if i + 1 == ring.len() {
            assert(b == m);
            assert(g.area(a, b, q) == g.area(m, q, a));
        } else {
            assert(g.xs[m as int] < g.xs[ring[i] as int]);
            assert(g.xs[m as int] < g.xs[ring[i + 1] as int]);
            lemma_step(g, s, m, q, a, b);
        }
    }
    lemma_around_same(f, k, h, ring);
    lemma_around_nothing(k, ring, ring.len());
}

} // verus!
