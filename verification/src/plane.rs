//! Points of a grid, and the lines and triangles between them.
//!
//! Everything here follows from the signs of the areas of triangles.

use vstd::prelude::*;

use crate::tessellation::Grid;

verus! {

/// Whether two numbers have different signs.
pub open spec fn opposed(p: int, q: int) -> bool {
    (p > 0 && q < 0) || (p < 0 && q > 0)
}

/// Whether the segment between two points crosses that between two others.
pub open spec fn crosses(g: Grid, a: usize, b: usize, c: usize, d: usize) -> bool {
    opposed(g.area(a, b, c), g.area(a, b, d)) && opposed(g.area(c, d, a), g.area(c, d, b))
}

/// Whether a point lies in a triangle whose corners run counter-clockwise.
pub open spec fn inside(g: Grid, p: usize, a: usize, b: usize, c: usize) -> bool {
    g.area(a, b, p) > 0 && g.area(b, c, p) > 0 && g.area(c, a, p) > 0
}

// ---------------------------------------------------------------------------
// Identities
// ---------------------------------------------------------------------------

/// The area of a triangle with two corners written in terms of another
/// triangle.
proof fn lemma_bilinear(g: Grid, a: usize, b: usize, c: usize, d: usize, e: usize)
    ensures
        g.area(a, b, c) * g.area(d, e, a) == g.area(c, a, d) * g.area(a, b, e) - g.area(a, b, d)
            * g.area(c, a, e),
{
    let (ax, ay) = (g.xs[a as int], g.ys[a as int]);
    let (bx, by) = (g.xs[b as int], g.ys[b as int]);
    let (cx, cy) = (g.xs[c as int], g.ys[c as int]);
    let (dx, dy) = (g.xs[d as int], g.ys[d as int]);
    let (ex, ey) = (g.xs[e as int], g.ys[e as int]);
    lemma_bilinear_at_origin(bx - ax, by - ay, cx - ax, cy - ay, dx - ax, dy - ay, ex - ax, ey - ay);
    lemma_moved(g, a, b, c);
    lemma_moved(g, a, d, e);
    lemma_moved(g, a, c, d);
    lemma_moved(g, a, b, e);
    lemma_moved(g, a, b, d);
    lemma_moved(g, a, c, e);
    assert(g.area(d, e, a) == g.area(a, d, e));
    assert(g.area(c, a, d) == -g.area(a, c, d));
    assert(g.area(c, a, e) == -g.area(a, c, e));
    let p = g.area(a, c, d);
    let q = g.area(a, b, e);
    let r = g.area(a, b, d);
    let s = g.area(a, c, e);
    assert((-p) * q - r * (-s) == r * s - p * q) by (nonlinear_arith);
}

/// The area of a triangle, seen from its first corner.
proof fn lemma_moved(g: Grid, a: usize, b: usize, c: usize)
    ensures
        g.area(a, b, c) == (g.xs[b as int] - g.xs[a as int]) * (g.ys[c as int] - g.ys[a as int]) - (
        g.xs[c as int] - g.xs[a as int]) * (g.ys[b as int] - g.ys[a as int]),
{
    let (ax, ay) = (g.xs[a as int], g.ys[a as int]);
    let (bx, by) = (g.xs[b as int], g.ys[b as int]);
    let (cx, cy) = (g.xs[c as int], g.ys[c as int]);
    assert((bx - ax) * (cy - ay) - (cx - ax) * (by - ay) == (ax * by - bx * ay) + (bx * cy - cx
        * by) + (cx * ay - ax * cy)) by (nonlinear_arith);
}

proof fn lemma_exchange(p: int, q: int, r: int, s: int)
    ensures
        (p * q) * (r * s) == (p * s) * (r * q),
        (p * q) * (r * s) == (r * q) * (p * s),
        (p * q) * (r * s) == (r * s) * (p * q),
{
    assert((p * q) * (r * s) == (p * s) * (r * q)) by (nonlinear_arith);
    assert((p * q) * (r * s) == (r * q) * (p * s)) by (nonlinear_arith);
    assert((p * q) * (r * s) == (r * s) * (p * q)) by (nonlinear_arith);
}

proof fn lemma_expand(p: int, q: int, r: int, s: int)
    ensures
        (p - q) * (r - s) == p * r - p * s - q * r + q * s,
{
    assert((p - q) * (r - s) == p * r - p * s - q * r + q * s) by (nonlinear_arith);
}

proof fn lemma_bilinear_at_origin(
    bx: int,
    by: int,
    cx: int,
    cy: int,
    dx: int,
    dy: int,
    ex: int,
    ey: int,
)
    ensures
        (bx * cy - cx * by) * (dx * ey - ex * dy) == (bx * dy - dx * by) * (cx * ey - ex * cy) - (cx
            * dy - dx * cy) * (bx * ey - ex * by),
{
    lemma_expand(bx * cy, cx * by, dx * ey, ex * dy);
    lemma_expand(bx * dy, dx * by, cx * ey, ex * cy);
    lemma_expand(cx * dy, dx * cy, bx * ey, ex * by);
    lemma_exchange(bx, dy, cx, ey);
    lemma_exchange(bx, dy, ex, cy);
    lemma_exchange(dx, by, cx, ey);
    lemma_exchange(dx, by, ex, cy);
    lemma_exchange(cx, dy, ex, by);
    lemma_exchange(dx, cy, bx, ey);
}

/// The corners of a triangle, weighed with the areas that a point spans with
/// the sides, balance at the point.
proof fn lemma_balance(ax: int, ay: int, bx: int, by: int, cx: int, cy: int)
    ensures
        (bx * cy - cx * by) * ax + (cx * ay - ax * cy) * bx + (ax * by - bx * ay) * cx == 0,
        (bx * cy - cx * by) * ay + (cx * ay - ax * cy) * by + (ax * by - bx * ay) * cy == 0,
{
    assert((bx * cy - cx * by) * ax == ax * bx * cy - ax * cx * by) by (nonlinear_arith);
    assert((cx * ay - ax * cy) * bx == bx * cx * ay - ax * bx * cy) by (nonlinear_arith);
    assert((ax * by - bx * ay) * cx == ax * cx * by - bx * cx * ay) by (nonlinear_arith);
    assert((bx * cy - cx * by) * ay == bx * ay * cy - cx * ay * by) by (nonlinear_arith);
    assert((cx * ay - ax * cy) * by == cx * ay * by - ax * by * cy) by (nonlinear_arith);
    assert((ax * by - bx * ay) * cy == ax * by * cy - bx * ay * cy) by (nonlinear_arith);
}

/// The corners of a triangle, weighed with the areas that a point spans with
/// the sides, balance at the point.
pub(crate) proof fn lemma_weights(g: Grid, a: usize, b: usize, c: usize, z: usize)
    ensures
        g.area(b, c, z) * (g.xs[a as int] - g.xs[z as int]) + g.area(c, a, z) * (g.xs[b as int]
            - g.xs[z as int]) + g.area(a, b, z) * (g.xs[c as int] - g.xs[z as int]) == 0,
        g.area(b, c, z) * (g.ys[a as int] - g.ys[z as int]) + g.area(c, a, z) * (g.ys[b as int]
            - g.ys[z as int]) + g.area(a, b, z) * (g.ys[c as int] - g.ys[z as int]) == 0,
{
    let (zx, zy) = (g.xs[z as int], g.ys[z as int]);
    lemma_moved(g, z, b, c);
    lemma_moved(g, z, c, a);
    lemma_moved(g, z, a, b);
    assert(g.area(b, c, z) == g.area(z, b, c));
    assert(g.area(c, a, z) == g.area(z, c, a));
    assert(g.area(a, b, z) == g.area(z, a, b));
    lemma_balance(
        g.xs[a as int] - zx,
        g.ys[a as int] - zy,
        g.xs[b as int] - zx,
        g.ys[b as int] - zy,
        g.xs[c as int] - zx,
        g.ys[c as int] - zy,
    );
}

proof fn lemma_combine(
    ka: int,
    kb: int,
    kc: int,
    xa: int,
    xb: int,
    xc: int,
    ya: int,
    yb: int,
    yc: int,
    u: int,
    v: int,
)
    requires
        ka * xa + kb * xb + kc * xc == 0,
        ka * ya + kb * yb + kc * yc == 0,
    ensures
        ka * (u * ya - xa * v) + kb * (u * yb - xb * v) + kc * (u * yc - xc * v) == 0,
{
    assert(ka * (u * ya - xa * v) == u * (ka * ya) - v * (ka * xa)) by (nonlinear_arith);
    assert(kb * (u * yb - xb * v) == u * (kb * yb) - v * (kb * xb)) by (nonlinear_arith);
    assert(kc * (u * yc - xc * v) == u * (kc * yc) - v * (kc * xc)) by (nonlinear_arith);
    assert(u * (ka * ya) + u * (kb * yb) + u * (kc * yc) == u * (ka * ya + kb * yb + kc * yc))
        by (nonlinear_arith);
    assert(v * (ka * xa) + v * (kb * xb) + v * (kc * xc) == v * (ka * xa + kb * xb + kc * xc))
        by (nonlinear_arith);
}

/// How an area changes when one corner moves.
proof fn lemma_shifted(g: Grid, d: usize, e: usize, p: usize, z: usize)
    ensures
        g.area(d, e, p) - g.area(d, e, z) == (g.xs[e as int] - g.xs[d as int]) * (g.ys[p as int]
            - g.ys[z as int]) - (g.xs[p as int] - g.xs[z as int]) * (g.ys[e as int]
            - g.ys[d as int]),
{
    lemma_moved(g, d, e, p);
    lemma_moved(g, d, e, z);
    let (ux, uy) = (g.xs[e as int] - g.xs[d as int], g.ys[e as int] - g.ys[d as int]);
    let (px, py) = (g.xs[p as int] - g.xs[d as int], g.ys[p as int] - g.ys[d as int]);
    let (qx, qy) = (g.xs[z as int] - g.xs[d as int], g.ys[z as int] - g.ys[d as int]);
    assert((ux * py - px * uy) - (ux * qy - qx * uy) == ux * (py - qy) - (px - qx) * uy)
        by (nonlinear_arith);
}

/// An affine function at a point, from its values at the corners of a triangle.
proof fn lemma_affine(g: Grid, a: usize, b: usize, c: usize, z: usize, d: usize, e: usize)
    ensures
        g.area(a, b, c) * g.area(d, e, z) == g.area(b, c, z) * g.area(d, e, a) + g.area(c, a, z)
            * g.area(d, e, b) + g.area(a, b, z) * g.area(d, e, c),
{
    let (ka, kb, kc) = (g.area(b, c, z), g.area(c, a, z), g.area(a, b, z));
    let (pa, pb, pc) = (g.area(d, e, a), g.area(d, e, b), g.area(d, e, c));
    let l = g.area(d, e, z);
    lemma_weights(g, a, b, c, z);
    lemma_shifted(g, d, e, a, z);
    lemma_shifted(g, d, e, b, z);
    lemma_shifted(g, d, e, c, z);
    lemma_combine(
        ka,
        kb,
        kc,
        g.xs[a as int] - g.xs[z as int],
        g.xs[b as int] - g.xs[z as int],
        g.xs[c as int] - g.xs[z as int],
        g.ys[a as int] - g.ys[z as int],
        g.ys[b as int] - g.ys[z as int],
        g.ys[c as int] - g.ys[z as int],
        g.xs[e as int] - g.xs[d as int],
        g.ys[e as int] - g.ys[d as int],
    );
    assert(g.area(a, b, c) == ka + kb + kc);
    assert((ka + kb + kc) * l == ka * pa + kb * pb + kc * pc) by (nonlinear_arith)
        requires
            ka * (pa - l) + kb * (pb - l) + kc * (pc - l) == 0,
    ;
}

/// Where two lines meet, an affine function has the same value along both.
proof fn lemma_meeting(g: Grid, m: usize, z: usize, d: usize, e: usize, w: usize, u: usize)
    ensures
        g.area(m, z, d) * g.area(w, u, e) - g.area(m, z, e) * g.area(w, u, d) == g.area(d, e, z)
            * g.area(w, u, m) - g.area(d, e, m) * g.area(w, u, z),
{
    lemma_affine(g, m, z, d, e, w, u);
    let bz = g.area(w, u, z);
    assert(g.area(z, d, e) == g.area(d, e, z));
    assert(g.area(d, m, e) == -g.area(d, e, m));
    assert(g.area(d, m, e) * bz == -(g.area(d, e, m) * bz)) by (nonlinear_arith)
        requires
            g.area(d, m, e) == -g.area(d, e, m),
    ;
}

// ---------------------------------------------------------------------------
// Segments and triangles
// ---------------------------------------------------------------------------

pub(crate) proof fn lemma_sign(p: int, q: int)
    ensures
        (p > 0 && q > 0) || (p < 0 && q < 0) ==> p * q > 0,
        opposed(p, q) ==> p * q < 0,
        p == 0 || q == 0 ==> p * q == 0,
{
    assert((p > 0 && q > 0) || (p < 0 && q < 0) ==> p * q > 0) by (nonlinear_arith);
    assert((p > 0 && q < 0) || (p < 0 && q > 0) ==> p * q < 0) by (nonlinear_arith);
    assert(p == 0 || q == 0 ==> p * q == 0) by (nonlinear_arith);
}

/// Segments cross whichever is named first, and from whichever end.
pub(crate) proof fn lemma_same_crossing(g: Grid, a: usize, b: usize, c: usize, d: usize)
    ensures
        crosses(g, c, d, a, b) == crosses(g, a, b, c, d),
        crosses(g, b, a, c, d) == crosses(g, a, b, c, d),
{
}

/// Segments do not cross where they end.
pub(crate) proof fn lemma_no_crossing_at_ends(g: Grid, a: usize, b: usize, c: usize)
    ensures
        !crosses(g, b, a, a, c),
        !crosses(g, b, c, a, c),
{
}

/// A segment between two points outside a triangle that crosses one side
/// crosses another.
pub(crate) proof fn lemma_through(g: Grid, a: usize, b: usize, c: usize, d: usize, e: usize)
    requires
        g.area(a, b, c) > 0,
        !inside(g, d, a, b, c),
        !inside(g, e, a, b, c),
        crosses(g, d, e, a, c),
        g.area(d, e, b) != 0,
        g.area(a, b, d) != 0,
        g.area(a, b, e) != 0,
        g.area(b, c, d) != 0,
        g.area(b, c, e) != 0,
    ensures
        crosses(g, d, e, a, b) || crosses(g, d, e, b, c),
{
    lemma_bilinear(g, a, b, c, d, e);
    lemma_bilinear(g, b, c, a, d, e);
    lemma_bilinear(g, c, a, b, d, e);
    let t = g.area(a, b, c);
    assert(g.area(b, c, a) == t && g.area(c, a, b) == t);
    let (ad, bd, cd) = (g.area(b, c, d), g.area(c, a, d), g.area(a, b, d));
    let (ae, be, ce) = (g.area(b, c, e), g.area(c, a, e), g.area(a, b, e));
    let (la, lb, lc) = (g.area(d, e, a), g.area(d, e, b), g.area(d, e, c));
    assert(g.area(a, c, d) == -bd && g.area(a, c, e) == -be);
    lemma_exit(t, ad, bd, cd, ae, be, ce, la, lb, lc);
}

proof fn lemma_exit(
    t: int,
    ad: int,
    bd: int,
    cd: int,
    ae: int,
    be: int,
    ce: int,
    la: int,
    lb: int,
    lc: int,
)
    requires
        t > 0,
        ad + bd + cd == t,
        ae + be + ce == t,
        t * la == bd * ce - cd * be,
        t * lb == cd * ae - ad * ce,
        t * lc == ad * be - bd * ae,
        opposed(bd, be),
        opposed(la, lc),
        lb != 0,
        ad != 0,
        ae != 0,
        cd != 0,
        ce != 0,
        !(ad > 0 && bd > 0 && cd > 0),
        !(ae > 0 && be > 0 && ce > 0),
    ensures
        (opposed(la, lb) && opposed(cd, ce)) || (opposed(lb, lc) && opposed(ad, ae)),
{
    lemma_sign(t, la);
    lemma_sign(t, lb);
    lemma_sign(t, lc);
    lemma_sign(bd, ce);
    lemma_sign(cd, be);
    lemma_sign(cd, ae);
    lemma_sign(ad, ce);
    lemma_sign(ad, be);
    lemma_sign(bd, ae);
}

/// A point in a triangle that has two corners of another, and its third inside
/// of it, lies in the other.
proof fn lemma_nested(g: Grid, u: usize, m: usize, w: usize, z: usize, p: usize)
    requires
        g.area(u, m, w) > 0,
        inside(g, z, u, m, w),
        inside(g, p, u, m, z) || inside(g, p, m, w, z),
    ensures
        inside(g, p, u, m, w),
{
    if inside(g, p, u, m, z) {
        lemma_affine(g, u, m, z, p, m, w);
        lemma_affine(g, u, m, z, p, w, u);
        let t = g.area(u, m, z);
        lemma_sign(t, g.area(m, w, p));
        lemma_sign(t, g.area(w, u, p));
        lemma_sign(g.area(m, z, p), g.area(m, w, u));
        lemma_sign(g.area(z, u, p), g.area(m, w, m));
        lemma_sign(g.area(u, m, p), g.area(m, w, z));
        lemma_sign(g.area(m, z, p), g.area(w, u, u));
        lemma_sign(g.area(z, u, p), g.area(w, u, m));
        lemma_sign(g.area(u, m, p), g.area(w, u, z));
    } else {
        lemma_affine(g, m, w, z, p, u, m);
        lemma_affine(g, m, w, z, p, w, u);
        let t = g.area(m, w, z);
        lemma_sign(t, g.area(u, m, p));
        lemma_sign(t, g.area(w, u, p));
        lemma_sign(g.area(w, z, p), g.area(u, m, m));
        lemma_sign(g.area(z, m, p), g.area(u, m, w));
        lemma_sign(g.area(m, w, p), g.area(u, m, z));
        lemma_sign(g.area(w, z, p), g.area(w, u, m));
        lemma_sign(g.area(z, m, p), g.area(w, u, w));
        lemma_sign(g.area(m, w, p), g.area(w, u, z));
    }
}

proof fn lemma_higher(dd: int, de: int, lz: int, lm: int, bm: int, bz: int, bd: int, be: int)
    requires
        dd > 0 > de,
        lz > 0 > lm,
        dd - de == lz - lm,
        bm > bz,
        dd * be - de * bd == lz * bm - lm * bz,
    ensures
        bd > bz || be > bz,
{
    assert(dd * (be - bz) - de * (bd - bz) == dd * be - de * bd - (dd - de) * bz)
        by (nonlinear_arith);
    assert(lz * (bm - bz) == lz * bm - lm * bz - (lz - lm) * bz) by (nonlinear_arith);
    lemma_sign(lz, bm - bz);
    lemma_sign(dd, be - bz);
    lemma_sign(de, bd - bz);
}

proof fn lemma_too_heavy(az: int, bz: int, cz: int, ae: int, be: int, ce: int)
    requires
        az > 0,
        bz > 0,
        cz > 0,
        be > bz,
        az * be - bz * ae < 0,
        cz * ae - az * ce < 0,
    ensures
        ae + be + ce > az + bz + cz,
{
    assert(ae > az) by (nonlinear_arith)
        requires
            az > 0,
            bz > 0,
            be > bz,
            az * be - bz * ae < 0,
    ;
    assert(ce > cz) by (nonlinear_arith)
        requires
            az > 0,
            cz > 0,
            ae > az,
            cz * ae - az * ce < 0,
    ;
}

/// Whether a point, if it is in a triangle, is no farther from its last side than
/// another.
pub open spec fn low(g: Grid, u: usize, m: usize, w: usize, z: usize, p: usize) -> bool {
    inside(g, p, u, m, w) ==> g.area(w, u, p) <= g.area(w, u, z)
}

/// Whether no three points of a set are in line.
pub open spec fn spread_out(g: Grid, s: Set<usize>) -> bool {
    forall|a: usize, b: usize, c: usize|
        s.contains(a) && s.contains(b) && s.contains(c) && a != b && b != c && a != c
            ==> #[trigger] g.area(a, b, c) != 0
}

/// From a corner, the view of the farthest point in its triangle is clear: a
/// segment across it crosses one of the sides at the corner.
pub(crate) proof fn lemma_clear_view(
    g: Grid,
    s: Set<usize>,
    u: usize,
    m: usize,
    w: usize,
    z: usize,
    d: usize,
    e: usize,
)
    requires
        spread_out(g, s),
        s.contains(u),
        s.contains(m),
        s.contains(w),
        s.contains(z),
        s.contains(d),
        s.contains(e),
        g.area(u, m, w) > 0,
        inside(g, z, u, m, w),
        low(g, u, m, w, z, d),
        low(g, u, m, w, z, e),
        crosses(g, d, e, m, z),
    ensures
        crosses(g, d, e, m, u) || crosses(g, d, e, m, w),
    decreases
            if g.area(d, e, z) < 0 {
                1int
            } else {
                0int
            },
{
    if g.area(d, e, z) < 0 {
        lemma_clear_view(g, s, u, m, w, z, e, d);
    } else if !crosses(g, d, e, m, u) && !crosses(g, d, e, m, w) {
        let (dd, de) = (g.area(m, z, d), g.area(m, z, e));
        let (lz, lm) = (g.area(d, e, z), g.area(d, e, m));
        assert(dd - de == lz - lm);
        let (az, bz, cz) = (g.area(m, w, z), g.area(w, u, z), g.area(u, m, z));
        let (ad, bd, cd) = (g.area(m, w, d), g.area(w, u, d), g.area(u, m, d));
        let (ae, be, ce) = (g.area(m, w, e), g.area(w, u, e), g.area(u, m, e));
        let t = g.area(u, m, w);
        lemma_meeting(g, m, z, d, e, w, u);
        assert(g.area(w, u, m) == t);
        lemma_higher(dd, de, lz, lm, t, bz, bd, be);
        let in_d = inside(g, d, u, m, z);
        let in_e = inside(g, e, m, w, z);
        if in_d {
            lemma_nested(g, u, m, w, z, d);
        }
        if in_e {
            lemma_nested(g, u, m, w, z, e);
        }
        assert(!(in_d && in_e));
        if !in_d && d != u {
            lemma_through(g, z, u, m, d, e);
        }
        if !in_e && e != w {
            lemma_through(g, m, w, z, d, e);
        }
        if in_d {
            assert(e != w);
            assert(crosses(g, d, e, w, z));
            assert(g.area(w, z, e) < 0);
            lemma_bilinear(g, w, u, m, z, e);
            lemma_bilinear(g, m, w, u, z, e);
            lemma_sign(t, g.area(w, z, e));
            lemma_sign(t, de);
            lemma_too_heavy(az, bz, cz, ae, be, ce);
        } else if in_e {
            assert(d != u);
            assert(crosses(g, d, e, z, u));
            assert(g.area(z, u, d) < 0);
            lemma_bilinear(g, u, m, w, d, z);
            lemma_bilinear(g, m, w, u, z, d);
            lemma_sign(t, g.area(z, u, d));
            lemma_sign(t, dd);
            lemma_too_heavy(cz, bz, az, cd, bd, ad);
        } else {
            lemma_affine(g, u, m, w, z, d, e);
            let (lu, lw) = (g.area(d, e, u), g.area(d, e, w));
            assert(lu <= 0 && lw <= 0);
            lemma_sign(t, lz);
            lemma_sign(az, lu);
            lemma_sign(bz, lm);
            lemma_sign(cz, lw);
        }
    }
}

} // verus!
