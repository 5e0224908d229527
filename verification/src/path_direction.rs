//! The sense in which a path turns.
//!
//! The sense is that of the turn at the bottom-most point. Whether three
//! points turn left or right is a matter of float arithmetic; everything else
//! is decided here from how coordinates compare.

use vstd::prelude::*;

use crate::float_bits::{bits_eq, bits_lt, float_eq, float_lt};
use crate::geometry::{Point, Rect};
use crate::lists::Verb;
use crate::path::{
    Path, PathDirection, PathModel, bounds_of, last_move, lemma_points_before, points_before,
};
use crate::path_shape::{at_same_place, same_place};

verus! {

/// The first and last point, the latter excluded, of each contour of the first
/// `k` verbs.
pub open spec fn contour_ranges(vs: Seq<Verb>, k: nat) -> Seq<(int, int)>
    decreases k,
{
    if k == 0 || k > vs.len() {
        Seq::empty()
    } else {
        let a = last_move(vs, k);
        if 0 <= a < k {
            contour_ranges(vs, a as nat).push(
                (points_before(vs, a as nat) as int, points_before(vs, k) as int),
            )
        } else {
            Seq::empty()
        }
    }
}

/// Pairs of numbers as pairs of integers.
pub open spec fn pairs(v: Seq<(usize, usize)>) -> Seq<(int, int)> {
    Seq::new(v.len(), |i: int| (v[i].0 as int, v[i].1 as int))
}

/// Where the lowest of the first `n` points stands, that is the one with the
/// largest vertical coordinate; the first one of several.
pub open spec fn bottom_index(ps: Seq<Point>, n: nat) -> int
    decreases n,
{
    if n <= 1 {
        0
    } else {
        let i = bottom_index(ps, (n - 1) as nat);
        if float_lt(ps[i].y, ps[n - 1].y) {
            n - 1
        } else {
            i
        }
    }
}

/// The place `k` steps away from `index` on a ring of `n` places.
pub open spec fn ring(index: int, k: int, forward: bool, n: int) -> int {
    if forward {
        (index + k) % n
    } else {
        (index + k * (n - 1)) % n
    }
}

/// Where the nearest point stands, from `k` steps away on, that differs from
/// the one at `index`; `index` itself if there is none.
pub open spec fn nearest_other(ps: Seq<Point>, index: int, forward: bool, k: int) -> int
    decreases ps.len() - k,
{
    if k >= ps.len() {
        index
    } else {
        let j = ring(index, k, forward, ps.len() as int);
        if !same_place(ps[index], ps[j]) {
            j
        } else {
            nearest_other(ps, index, forward, k + 1)
        }
    }
}

/// Where the leftmost and the rightmost points stand among those before `n`
/// that follow `index` at the same height without a gap.
pub open spec fn level_span(ps: Seq<Point>, index: int, n: int) -> (int, int)
    decreases n - index,
{
    if n <= index + 1 || !level_until(ps, index, n) {
        if n <= index + 1 {
            (index, index)
        } else {
            level_span(ps, index, n - 1)
        }
    } else {
        let (lo, hi) = level_span(ps, index, n - 1);
        if float_lt(ps[n - 1].x, ps[lo].x) {
            (n - 1, hi)
        } else if float_lt(ps[hi].x, ps[n - 1].x) {
            (lo, n - 1)
        } else {
            (lo, hi)
        }
    }
}

/// Whether the points after `index` and before `n` are all at its height.
pub open spec fn level_until(ps: Seq<Point>, index: int, n: int) -> bool {
    forall|i: int| index < i < n ==> float_eq((#[trigger] ps[i]).y, ps[index].y)
}

/// How the bottom of a contour turns, as far as comparisons tell.
#[derive(Debug, Clone, Copy, PartialEq, Eq, Structural)]
pub enum Bend {
    /// It does not turn.
    Straight,
    /// It runs to larger horizontal coordinates at the bottom.
    Rightward,
    /// It runs to smaller horizontal coordinates at the bottom.
    Leftward,
    /// It turns as these three points do.
    Corner {
        /// The point before.
        prev: usize,
        /// The bottom-most point.
        index: usize,
        /// The point after.
        next: usize,
    },
}

/// How the bottom of a contour turns.
pub open spec fn bend_of(ps: Seq<Point>) -> Bend {
    let n = ps.len() as int;
    let index = bottom_index(ps, ps.len());
    let (lo, hi) = level_span(ps, index, n);
    if float_eq(ps[(index + 1) % n].y, ps[index].y) && lo != hi {
        if lo < hi {
            Bend::Leftward
        } else {
            Bend::Rightward
        }
    } else {
        let prev = nearest_other(ps, index, false, 1);
        let next = nearest_other(ps, index, true, 1);
        if prev == index {
            Bend::Straight
        } else {
            Bend::Corner { prev: prev as usize, index: index as usize, next: next as usize }
        }
    }
}

/// The sign of a bend, given the sign of the cross product at its corner:
/// positive for clockwise. A corner without a cross product whose points are
/// all at one height goes by its horizontal coordinates.
pub open spec fn bend_sign(ps: Seq<Point>, bend: Bend, cross: int) -> int {
    match bend {
        Bend::Straight => 0,
        Bend::Leftward => -1,
        Bend::Rightward => 1,
        Bend::Corner { prev, index, next } => {
            let p = ps[index as int];
            let q = ps[next as int];
            if cross == 0 && float_eq(ps[prev as int].y, p.y) && float_eq(q.y, p.y) {
                if float_lt(q.x, p.x) {
                    1
                } else if float_lt(p.x, q.x) {
                    -1
                } else {
                    0
                }
            } else {
                cross
            }
        },
    }
}

/// The points of a contour.
pub open spec fn contour_points(m: PathModel, r: (int, int)) -> Seq<Point> {
    m.points.subrange(r.0, r.1)
}

/// The sign of the bottom-most bend of the first `k` contours, and its height.
pub open spec fn lowest_bend(
    m: PathModel,
    ranges: Seq<(int, int)>,
    crosses: Seq<i8>,
    k: nat,
) -> (int, u32)
    decreases k,
{
    if k == 0 {
        (0, bounds_of(m.points).top)
    } else {
        let (sign, height) = lowest_bend(m, ranges, crosses, (k - 1) as nat);
        let ps = contour_points(m, ranges[k - 1]);
        let index = bottom_index(ps, ps.len());
        if ps.len() < 3 || float_lt(ps[index].y, height) {
            (sign, height)
        } else {
            let s = bend_sign(ps, bend_of(ps), crosses[k - 1] as int);
            if s != 0 {
                (s, ps[index].y)
            } else {
                (sign, height)
            }
        }
    }
}

/// The sense of a path, given the sign of the cross product at the bottom of
/// each contour.
pub open spec fn direction_of(m: PathModel, crosses: Seq<i8>) -> Option<PathDirection> {
    let ranges = contour_ranges(m.verbs, m.verbs.len());
    let sign = lowest_bend(m, ranges, crosses, ranges.len()).0;
    if m.points.len() == 0 || rect_is_empty(bounds_of(m.points)) || sign == 0 {
        None
    } else if sign > 0 {
        Some(PathDirection::CW)
    } else {
        Some(PathDirection::CCW)
    }
}

/// Whether all edges are zero.
pub open spec fn rect_is_empty(r: Rect) -> bool {
    float_eq(r.left, 0) && float_eq(r.top, 0) && float_eq(r.right, 0) && float_eq(r.bottom, 0)
}

/// Where the lowest point stands.
fn find_max_y(ps: &[Point]) -> (r: usize)
    requires
        ps@.len() > 0,
    ensures
        r == bottom_index(ps@, ps@.len()),
        r < ps@.len(),
{
    let n: usize = ps.len();
    let mut r: usize = 0;
    let mut i: usize = 1;
    while i < n
        invariant
            n == ps@.len(),
            1 <= i <= n,
            r < i,
            r == bottom_index(ps@, i as nat),
        decreases n - i,
    {
        if bits_lt(ps[r].y, ps[i].y) {
            r = i;
        }
        i = i + 1;
    }
    r
}

/// Where the nearest point stands that differs from the one at `index`.
fn find_diff_pt(ps: &[Point], index: usize, forward: bool) -> (r: usize)
    requires
        index < ps@.len(),
    ensures
        r == nearest_other(ps@, index as int, forward, 1),
        r < ps@.len(),
{
    let n: usize = ps.len();
    let mut k: usize = 1;
    let mut i: usize = index;
    proof {
        vstd::arithmetic::div_mod::lemma_small_mod(index as nat, n as nat);
        assert(0 * (n - 1) == 0) by (nonlinear_arith);
        assert(ring(index as int, 0, forward, n as int) == index);
    }
    while k < n
        invariant
            n == ps@.len(),
            index < n,
            1 <= k <= n,
            i < n,
            i == ring(index as int, k - 1, forward, n as int),
            nearest_other(ps@, index as int, forward, 1) == nearest_other(
                ps@,
                index as int,
                forward,
                k as int,
            ),
        decreases n - k,
    {
        proof {
            lemma_ring_step(index as int, k - 1, forward, n as int);
        }
        i = if forward {
            if i + 1 < n {
                i + 1
            } else {
                0
            }
        } else {
            if i > 0 {
                i - 1
            } else {
                n - 1
            }
        };
        if !at_same_place(ps[index], ps[i]) {
            return i;
        }
        k = k + 1;
    }
    index
}

proof fn lemma_ring_step(index: int, k: int, forward: bool, n: int)
    requires
        0 < n,
        0 <= index < n,
        0 <= k,
    ensures
        ({
            let i = ring(index, k, forward, n);
            let j = ring(index, k + 1, forward, n);
            &&& 0 <= i < n
            &&& 0 <= j < n
            &&& forward ==> j == if i + 1 < n {
                i + 1
            } else {
                0
            }
            &&& !forward ==> j == if i > 0 {
                i - 1
            } else {
                n - 1
            }
        }),
{
    if forward {
        let a = index + k;
        vstd::arithmetic::div_mod::lemma_add_mod_noop(a, 1, n);
        let i = a % n;
        assert(0 <= i < n);
        if n == 1 {
        } else if i + 1 < n {
            vstd::arithmetic::div_mod::lemma_small_mod((i + 1) as nat, n as nat);
            vstd::arithmetic::div_mod::lemma_small_mod(1, n as nat);
        } else {
            vstd::arithmetic::div_mod::lemma_small_mod(1, n as nat);
            vstd::arithmetic::div_mod::lemma_mod_self_0(n);
        }
    } else {
        let a = index + k * (n - 1);
        assert(index + (k + 1) * (n - 1) == a + (n - 1)) by (nonlinear_arith)
            requires
                a == index + k * (n - 1),
        ;
        vstd::arithmetic::div_mod::lemma_add_mod_noop(a, n - 1, n);
        let i = a % n;
        assert(0 <= i < n) by {
            vstd::arithmetic::div_mod::lemma_mod_bound(a, n);
        }
        vstd::arithmetic::div_mod::lemma_small_mod((n - 1) as nat, n as nat);
        if i > 0 {
            vstd::arithmetic::div_mod::lemma_mod_add_multiples_vanish(i - 1, n);
            vstd::arithmetic::div_mod::lemma_small_mod((i - 1) as nat, n as nat);
        } else {
        }
    }
}

/// Where the leftmost and the rightmost points stand among those that follow
/// `index` at the same height.
fn find_min_max_x_at_y(ps: &[Point], index: usize) -> (r: (usize, usize))
    requires
        index < ps@.len(),
    ensures
        (r.0 as int, r.1 as int) == level_span(ps@, index as int, ps@.len() as int),
{
    let n: usize = ps.len();
    let mut lo: usize = index;
    let mut hi: usize = index;
    let mut i: usize = index + 1;
    while i < n
        invariant
            n == ps@.len(),
            index < i <= n,
            index <= lo < i,
            index <= hi < i,
            level_until(ps@, index as int, i as int),
            (lo as int, hi as int) == level_span(ps@, index as int, i as int),
        decreases n - i,
    {
        if !bits_eq(ps[i].y, ps[index].y) {
            proof {
                lemma_span_stops(ps@, index as int, i as int, n as int);
            }
            return (lo, hi);
        }
        assert(level_until(ps@, index as int, i + 1));
        if bits_lt(ps[i].x, ps[lo].x) {
            lo = i;
        } else if bits_lt(ps[hi].x, ps[i].x) {
            hi = i;
        }
        i = i + 1;
    }
    (lo, hi)
}

proof fn lemma_span_stops(ps: Seq<Point>, index: int, i: int, n: int)
    requires
        0 <= index < i < n <= ps.len(),
        !float_eq(ps[i].y, ps[index].y),
    ensures
        level_span(ps, index, n) == level_span(ps, index, i),
    decreases n - i,
{
    assert(!level_until(ps, index, n));
    if n > i + 1 {
        lemma_span_stops(ps, index, i, n - 1);
    }
}

/// How the bottom of a contour turns.
pub fn bottom_bend(ps: &[Point]) -> (r: Bend)
    requires
        ps@.len() > 0,
    ensures
        r == bend_of(ps@),
        r matches Bend::Corner { prev, index, next } ==> prev < ps@.len() && index < ps@.len()
            && next < ps@.len(),
{
    let n: usize = ps.len();
    let index: usize = find_max_y(ps);
    let after: usize = if index + 1 < n {
        index + 1
    } else {
        0
    };
    assert(after == (index + 1) % (n as int)) by {
        if index + 1 < n {
            vstd::arithmetic::div_mod::lemma_small_mod((index + 1) as nat, n as nat);
        } else {
            vstd::arithmetic::div_mod::lemma_mod_self_0(n as int);
        }
    }
    let (lo, hi) = find_min_max_x_at_y(ps, index);
    if bits_eq(ps[after].y, ps[index].y) && lo != hi {
        if lo < hi {
            Bend::Leftward
        } else {
            Bend::Rightward
        }
    } else {
        let prev: usize = find_diff_pt(ps, index, false);
        let next: usize = find_diff_pt(ps, index, true);
        if prev == index {
            Bend::Straight
        } else {
            Bend::Corner { prev, index, next }
        }
    }
}

/// The sign of a bend, given the sign of the cross product at its corner.
fn settle_bend(ps: &[Point], bend: Bend, cross: i8) -> (r: i8)
    requires
        bend matches Bend::Corner { prev, index, next } ==> prev < ps@.len() && index < ps@.len()
            && next < ps@.len(),
    ensures
        r == bend_sign(ps@, bend, cross as int),
{
    match bend {
        Bend::Straight => 0,
        Bend::Leftward => -1,
        Bend::Rightward => 1,
        Bend::Corner { prev, index, next } => {
            let p = ps[index];
            let q = ps[next];
            if cross == 0 && bits_eq(ps[prev].y, p.y) && bits_eq(q.y, p.y) {
                if bits_lt(q.x, p.x) {
                    1
                } else if bits_lt(p.x, q.x) {
                    -1
                } else {
                    0
                }
            } else {
                cross
            }
        },
    }
}

proof fn lemma_last_move_step(vs: Seq<Verb>, k: nat)
    requires
        k < vs.len(),
    ensures
        last_move(vs, k + 1) == if vs[k as int] == Verb::Move {
            k as int
        } else {
            last_move(vs, k)
        },
{
}

impl Path {
    /// The first and last point, the latter excluded, of each contour.
    pub fn contour_point_ranges(&self) -> (r: Vec<(usize, usize)>)
        ensures
            pairs(r@) == contour_ranges(self@.verbs, self@.verbs.len()),
            forall|i: int|
                0 <= i < r@.len() ==> (#[trigger] r@[i]).0 <= r@[i].1 <= self@.points.len(),
    {
        let vs = self.verbs();
        let n: usize = vs.len();
        let total: usize = self.point_count();
        let mut r: Vec<(usize, usize)> = Vec::new();
        assert(pairs(r@) =~= Seq::empty());
        if n == 0 {
            return r;
        }
        let mut pt: usize = 1;
        let mut start: usize = 0;
        let ghost mut a: int = 0;
        let mut k: usize = 1;
        assert(points_before(vs@, 1) == points_before(vs@, 0) + 1);
        assert(last_move(vs@, 1) == 0);
        proof {
            lemma_points_before(vs@, 1, n as nat);
        }
        while k < n
            invariant
                n == vs@.len(),
                1 <= k <= n,
                total == points_before(vs@, n as nat),
                pt == points_before(vs@, k as nat),
                pt <= total,
                0 <= a < k,
                a == last_move(vs@, k as nat),
                start == points_before(vs@, a as nat),
                start <= pt,
                pairs(r@) == contour_ranges(vs@, a as nat),
                forall|i: int|
                    0 <= i < r@.len() ==> (#[trigger] r@[i]).0 <= r@[i].1 <= total,
            decreases n - k,
        {
            let v = vs[k];
            proof {
                lemma_points_before(vs@, (k + 1) as nat, n as nat);
                lemma_last_move_step(vs@, k as nat);
            }
            match v {
                Verb::Move => {
                    let ghost before = pairs(r@);
                    r.push((start, pt));
                    assert(pairs(r@) =~= before.push((start as int, pt as int)));
                    start = pt;
                    proof {
                        a = k as int;
                    }
                },
                _ => {},
            }
            pt = pt + v.point_count();
            k = k + 1;
        }
        let ghost before = pairs(r@);
        r.push((start, pt));
        assert(pairs(r@) =~= before.push((start as int, pt as int)));
        r
    }

    /// The sense of the path, given the sign of the cross product at the
    /// corner that `bottom_bend` names for each contour, in order.
    pub fn direction_from(&self, crosses: &Vec<i8>) -> (r: Option<PathDirection>)
        requires
            crosses@.len() == contour_ranges(self@.verbs, self@.verbs.len()).len(),
        ensures
            r == direction_of(self@, crosses@),
    {
        let ps = self.points();
        if ps.len() == 0 {
            return None;
        }
        let b = self.bounds();
        if bits_eq(b.left, 0) && bits_eq(b.top, 0) && bits_eq(b.right, 0) && bits_eq(b.bottom, 0) {
            return None;
        }
        let ranges = self.contour_point_ranges();
        let ghost rs = pairs(ranges@);
        let mut height: u32 = b.top;
        let mut sign: i8 = 0;
        let mut k: usize = 0;
        while k < ranges.len()
            invariant
                ps@ == self@.points,
                rs == pairs(ranges@),
                rs == contour_ranges(self@.verbs, self@.verbs.len()),
                crosses@.len() == rs.len(),
                k <= ranges@.len(),
                forall|i: int|
                    0 <= i < ranges@.len() ==> (#[trigger] ranges@[i]).0 <= ranges@[i].1
                        <= ps@.len(),
                (sign as int, height) == lowest_bend(self@, rs, crosses@, k as nat),
            decreases ranges@.len() - k,
        {
            let (start, end) = ranges[k];
            assert(rs[k as int] == (start as int, end as int));
            if end - start >= 3 {
                let contour = vstd::slice::slice_subrange(ps, start, end);
                assert(contour@ == contour_points(self@, rs[k as int]));
                let index: usize = find_max_y(contour);
                if !bits_lt(contour[index].y, height) {
                    let s: i8 = settle_bend(contour, bottom_bend(contour), crosses[k]);
                    if s != 0 {
                        height = contour[index].y;
                        sign = s;
                    }
                }
            }
            k = k + 1;
        }
        if sign == 0 {
            None
        } else if sign > 0 {
            Some(PathDirection::CW)
        } else {
            Some(PathDirection::CCW)
        }
    }
}

} // verus!
