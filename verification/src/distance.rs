//! Exact squared distance transforms.
//!
//! The transform of a line of heights is the lower envelope of the parabolas
//! that stand on them. It is found in one sweep that keeps the envelope as a
//! stack of parabolas, each with the place from which it is the lowest. Rows
//! and then columns give the squared Euclidean distance in the plane.

use vstd::prelude::*;

verus! {

/// The largest height and the largest place of a line.
pub const LIMIT: i128 = 0x1_0000_0000_0000_0000;

/// The height of the parabola on `i` at place `x`.
pub open spec fn parabola(x: int, i: int, height: int) -> int {
    (x - i) * (x - i) + height
}

/// Whether `d` is the lowest height at `x` of the parabolas on the first `n`
/// places; `None` if none of them has a height.
pub open spec fn is_lowest(line: Seq<Option<i128>>, n: int, x: int, d: Option<i128>) -> bool {
    match d {
        Some(v) => {
            &&& exists|i: int|
                0 <= i < n && (#[trigger] line[i]) is Some && v == parabola(
                    x,
                    i,
                    line[i]->0 as int,
                )
            &&& forall|i: int|
                0 <= i < n && (#[trigger] line[i]) is Some ==> v <= parabola(
                    x,
                    i,
                    line[i]->0 as int,
                )
        },
        None => forall|i: int| 0 <= i < n ==> (#[trigger] line[i]) is None,
    }
}

/// Whether the heights of a line are in range.
pub open spec fn in_range(line: Seq<Option<i128>>) -> bool {
    &&& line.len() <= 0x1_0000_0000
    &&& forall|i: int|
        0 <= i < line.len() && (#[trigger] line[i]) is Some ==> 0 <= line[i]->0 <= LIMIT
}

/// A parabola of the envelope and where it starts to be the lowest.
struct Arc {
    vertex: usize,
    from: usize,
}

/// Where an arc ends.
spec fn arc_end(arcs: Seq<Arc>, k: int, n: int) -> int {
    if k + 1 < arcs.len() {
        arcs[k + 1].from as int
    } else {
        n
    }
}

/// Whether the arcs stand one after the other, from the first place on, on
/// places before `u` that have a height.
spec fn arcs_ordered(arcs: Seq<Arc>, line: Seq<Option<i128>>, u: int) -> bool {
    &&& arcs.len() > 0 ==> arcs[0].from == 0
    &&& forall|k: int|
        0 <= k < arcs.len() ==> (#[trigger] arcs[k]).from < line.len() && arcs[k].vertex < u
            && line[arcs[k].vertex as int] is Some
    &&& forall|j: int, k: int|
        0 <= j < k < arcs.len() ==> (#[trigger] arcs[j]).from < (#[trigger] arcs[k]).from
}

/// Whether `v` is as low at `x` as any place before `u`.
spec fn beats_all(line: Seq<Option<i128>>, u: int, x: int, v: int) -> bool {
    forall|i: int|
        0 <= i < u && (#[trigger] line[i]) is Some ==> parabola(x, v, line[v]->0 as int)
            <= parabola(x, i, line[i]->0 as int)
}

/// Whether each arc before `top` is the lowest from its start to its end, of
/// all places before `u`.
spec fn arcs_lowest(arcs: Seq<Arc>, line: Seq<Option<i128>>, u: int, end: int) -> bool {
    forall|k: int, x: int|
        0 <= k < arcs.len() && arcs[k].from <= x < (if k + 1 < arcs.len() {
            arcs[k + 1].from as int
        } else {
            end
        }) ==> #[trigger] beats_all(line, u, x, (#[trigger] arcs[k]).vertex as int)
}

/// A parabola further to the right that is lower somewhere is lower from there
/// on.
proof fn lemma_lower_stays(x: int, y: int, i: int, hi: int, u: int, hu: int)
    requires
        i < u,
        x <= y,
        parabola(x, u, hu) < parabola(x, i, hi),
    ensures
        parabola(y, u, hu) < parabola(y, i, hi),
{
    assert(parabola(y, u, hu) - parabola(y, i, hi) == parabola(x, u, hu) - parabola(x, i, hi) - 2
        * (u - i) * (y - x)) by (nonlinear_arith);
    assert(2 * (u - i) * (y - x) >= 0) by (nonlinear_arith)
        requires
            i < u,
            x <= y,
    ;
}

/// The last place at which the parabola on `i` is not above the one on `u`.
spec fn crossing(i: int, hi: int, u: int, hu: int) -> int {
    (u * u - i * i + hu - hi) / (2 * (u - i))
}

proof fn lemma_crossing(x: int, i: int, hi: int, u: int, hu: int)
    requires
        i < u,
    ensures
        parabola(x, i, hi) <= parabola(x, u, hu) <==> x <= crossing(i, hi, u, hu),
{
    let a = u * u - i * i + hu - hi;
    let b = 2 * (u - i);
    assert(parabola(x, u, hu) - parabola(x, i, hi) == a - b * x) by (nonlinear_arith)
        requires
            a == u * u - i * i + hu - hi,
            b == 2 * (u - i),
            parabola(x, u, hu) == (x - u) * (x - u) + hu,
            parabola(x, i, hi) == (x - i) * (x - i) + hi,
    ;
    assert(b * x <= a <==> x <= a / b) by (nonlinear_arith)
        requires
            b > 0,
    ;
}

/// The height of the parabola on `i` at place `x`.
fn parabola_at(x: usize, i: usize, height: i128) -> (r: i128)
    requires
        x <= 0x1_0000_0000,
        i <= 0x1_0000_0000,
        0 <= height <= LIMIT,
    ensures
        r == parabola(x as int, i as int, height as int),
        0 <= r <= 2 * LIMIT,
{
    let d: i128 = x as i128 - i as i128;
    assert(0 <= d * d <= LIMIT) by (nonlinear_arith)
        requires
            -0x1_0000_0000 <= d <= 0x1_0000_0000,
            LIMIT == 0x1_0000_0000_0000_0000,
    ;
    d * d + height
}

/// The place after the last one at which the parabola on `i` is not above the
/// one on `u`, or `n` if that comes first.
fn takeover(i: usize, hi: i128, u: usize, hu: i128, at: usize, n: usize) -> (r: usize)
    requires
        i < u <= 0x1_0000_0000,
        0 <= hi <= LIMIT,
        0 <= hu <= LIMIT,
        at < n,
        parabola(at as int, i as int, hi as int) <= parabola(at as int, u as int, hu as int),
    ensures
        at < r <= n,
        r < n ==> r == crossing(i as int, hi as int, u as int, hu as int) + 1,
        r == n ==> crossing(i as int, hi as int, u as int, hu as int) + 1 >= n,
{
    let u1: i128 = u as i128;
    let i1: i128 = i as i128;
    proof {
        lemma_crossing(at as int, i as int, hi as int, u as int, hu as int);
        assert(0 <= u1 * u1 <= LIMIT && 0 <= i1 * i1 <= LIMIT) by (nonlinear_arith)
            requires
                0 <= i1 <= 0x1_0000_0000,
                0 <= u1 <= 0x1_0000_0000,
                LIMIT == 0x1_0000_0000_0000_0000,
        ;
    }
    let a: i128 = u1 * u1 - i1 * i1 + hu - hi;
    let b: i128 = 2 * (u1 - i1);
    let ghost c = crossing(i as int, hi as int, u as int, hu as int);
    assert(a >= 0) by {
        assert(a as int / b as int >= 0);
        assert(a >= 0) by (nonlinear_arith)
            requires
                a as int / b as int >= 0,
                b > 0,
        ;
    }
    let q: u128 = (a as u128) / (b as u128);
    assert(q == c);
    if q < n as u128 - 1 {
        q as usize + 1
    } else {
        n
    }
}

/// The lowest height of the parabolas at each place of a line; nothing where
/// no place has a height.
pub fn distance_transform_1d(line: &Vec<Option<i128>>) -> (out: Vec<Option<i128>>)
    requires
        in_range(line@),
    ensures
        out@.len() == line@.len(),
        forall|x: int|
            0 <= x < line@.len() ==> is_lowest(
                line@,
                line@.len() as int,
                x,
                #[trigger] out@[x],
            ),
{
    let n: usize = line.len();
    let mut arcs: Vec<Arc> = Vec::new();
    let mut u: usize = 0;
    while u < n
        invariant
            n == line@.len(),
            in_range(line@),
            u <= n,
            arcs_ordered(arcs@, line@, u as int),
            arcs@.len() == 0 ==> forall|i: int| 0 <= i < u ==> (#[trigger] line@[i]) is None,
            arcs_lowest(arcs@, line@, u as int, n as int),
        decreases n - u,
    {
        match line[u] {
            Some(h) => {
                add_parabola(&mut arcs, line, u, h, n);
            },
            None => {
                assert forall|k: int, x: int|
                    0 <= k < arcs@.len() && arcs@[k].from <= x < (if k + 1 < arcs@.len() {
                        arcs@[k + 1].from as int
                    } else {
                        n as int
                    }) implies #[trigger] beats_all(
                    line@,
                    u + 1,
                    x,
                    (#[trigger] arcs@[k]).vertex as int,
                ) by {
                    assert(beats_all(line@, u as int, x, arcs@[k].vertex as int));
                }
            },
        }
        u = u + 1;
    }
    let mut out: Vec<Option<i128>> = Vec::new();
    if arcs.len() == 0 {
        let mut x: usize = 0;
        while x < n
            invariant
                n == line@.len(),
                x <= n,
                forall|i: int| 0 <= i < n ==> (#[trigger] line@[i]) is None,
                out@.len() == x,
                forall|y: int|
                    0 <= y < x ==> is_lowest(line@, n as int, y, #[trigger] out@[y]),
            decreases n - x,
        {
            out.push(None);
            x = x + 1;
        }
        return out;
    }
    let mut k: usize = 0;
    let mut x: usize = 0;
    while x < n
        invariant
            n == line@.len(),
            in_range(line@),
            x <= n,
            arcs_ordered(arcs@, line@, n as int),
            arcs_lowest(arcs@, line@, n as int, n as int),
            k < arcs@.len(),
            arcs@[k as int].from <= x,
            x < n ==> x <= arc_end(arcs@, k as int, n as int),
            out@.len() == x,
            forall|y: int| 0 <= y < x ==> is_lowest(line@, n as int, y, #[trigger] out@[y]),
        decreases n - x,
    {
        let count: usize = arcs.len();
        if k + 1 < count && arcs[k + 1].from <= x {
            k = k + 1;
            assert(k + 1 < count ==> arcs@[k as int].from < arcs@[k + 1].from);
        }
        let v: usize = arcs[k].vertex;
        assert(x < arc_end(arcs@, k as int, n as int));
        assert(beats_all(line@, n as int, x as int, arcs@[k as int].vertex as int));
        match line[v] {
            Some(h) => {
                let d: i128 = parabola_at(x, v, h);
                assert(line@[v as int] is Some);
                out.push(Some(d));
                assert(is_lowest(line@, n as int, x as int, Some(d)));
            },
            None => {
                assert(line@[arcs@[k as int].vertex as int] is Some);
                out.push(None);
            },
        }
        x = x + 1;
    }
    out
}

proof fn lemma_added(
    all: Seq<Arc>,
    kept: Seq<Arc>,
    line: Seq<Option<i128>>,
    u: int,
    h: i128,
    n: int,
    count: int,
    end: int,
    w: int,
)
    requires
        n == line.len(),
        0 <= u < n,
        line[u] == Some(h),
        arcs_ordered(all, line, u),
        arcs_lowest(all, line, u, n),
        0 < count <= all.len(),
        end == arc_end(all, count - 1, n),
        forall|x: int| end <= x < n ==> #[trigger] beats_all(line, u, x, u),
        all[count - 1].from < w <= n,
        w < n ==> w == crossing(
            all[count - 1].vertex as int,
            line[all[count - 1].vertex as int]->0 as int,
            u,
            h as int,
        ) + 1,
        w == n ==> crossing(
            all[count - 1].vertex as int,
            line[all[count - 1].vertex as int]->0 as int,
            u,
            h as int,
        ) + 1 >= n,
        kept.len() == if w < n {
            count + 1
        } else {
            count
        },
        forall|k: int| 0 <= k < count ==> #[trigger] kept[k] == all[k],
        w < n ==> kept[count].vertex == u && kept[count].from == w,
    ensures
        kept.len() > 0,
        arcs_ordered(kept, line, u + 1),
        arcs_lowest(kept, line, u + 1, n),
{
    let v = all[count - 1].vertex as int;
    let hv = line[v]->0 as int;
    let from = all[count - 1].from as int;
    assert(line[v] is Some && v < u);
    assert(kept[0] == all[0]);
    assert forall|k: int| 0 <= k < kept.len() implies (#[trigger] kept[k]).from < line.len()
        && kept[k].vertex < u + 1 && line[kept[k].vertex as int] is Some by {
        if k < count {
            assert(kept[k] == all[k]);
        }
    }
    assert forall|j: int, k: int| 0 <= j < k < kept.len() implies (#[trigger] kept[j]).from < (
    #[trigger] kept[k]).from by {
        assert(kept[j] == all[j]);
        if k < count {
            assert(kept[k] == all[k]);
        } else if j < count - 1 {
            assert(all[j].from < all[count - 1].from);
        }
    }
    assert forall|k: int, x: int|
        0 <= k < kept.len() && kept[k].from <= x < (if k + 1 < kept.len() {
            kept[k + 1].from as int
        } else {
            n
        }) implies #[trigger] beats_all(line, u + 1, x, (#[trigger] kept[k]).vertex as int) by {
        lemma_crossing(x, v, hv, u, h as int);
        if k < count - 1 {
            assert(kept[k] == all[k] && kept[k + 1] == all[k + 1]);
            assert(beats_all(line, u, x, all[k].vertex as int));
            // The arc before the last one kept is lower than `u`, too: the last
            // one is not above `u` at its start, and hence not before.
            assert(all[k + 1].from <= from) by {
                if k + 1 < count - 1 {
                    assert(all[k + 1].from < all[count - 1].from);
                }
            }
            lemma_crossing(from, v, hv, u, h as int);
            assert(parabola(x, all[k].vertex as int, line[all[k].vertex as int]->0 as int)
                <= parabola(x, v, hv));
        } else if k == count - 1 {
            assert(kept[k] == all[k]);
            if x < end {
                assert(beats_all(line, u, x, all[count - 1].vertex as int));
            } else {
                // Beyond its old end the arc would have to be as low as `u`.
                assert(beats_all(line, u, x, u));
                assert forall|i: int|
                    0 <= i < u + 1 && (#[trigger] line[i]) is Some implies parabola(
                    x,
                    v,
                    hv,
                ) <= parabola(x, i, line[i]->0 as int) by {
                    if i < u {
                        assert(parabola(x, u, h as int) <= parabola(x, i, line[i]->0 as int));
                    }
                }
            }
        } else {
            if x < end {
                assert(beats_all(line, u, x, all[count - 1].vertex as int));
                assert forall|i: int|
                    0 <= i < u + 1 && (#[trigger] line[i]) is Some implies parabola(
                    x,
                    u,
                    h as int,
                ) <= parabola(x, i, line[i]->0 as int) by {
                    if i < u {
                        assert(parabola(x, v, hv) <= parabola(x, i, line[i]->0 as int));
                    }
                }
            } else {
                assert(beats_all(line, u, x, u));
            }
        }
    }
}

/// Adds the parabola on `u` to the envelope: it takes over from the last arcs
/// that are above it where they start, and from some place on from the one
/// before.
fn add_parabola(arcs: &mut Vec<Arc>, line: &Vec<Option<i128>>, u: usize, h: i128, n: usize)
    requires
        n == line@.len(),
        in_range(line@),
        u < n,
        line@[u as int] == Some(h),
        arcs_ordered(old(arcs)@, line@, u as int),
        old(arcs)@.len() == 0 ==> forall|i: int| 0 <= i < u ==> (#[trigger] line@[i]) is None,
        arcs_lowest(old(arcs)@, line@, u as int, n as int),
    ensures
        final(arcs)@.len() > 0,
        arcs_ordered(final(arcs)@, line@, u + 1),
        arcs_lowest(final(arcs)@, line@, u + 1, n as int),
{
    let ghost mut end: int = n as int;
    let mut count: usize = arcs.len();
    let ghost all = arcs@;
    assert(0 <= h <= LIMIT);
    while count > 0
        invariant_except_break
            all == arcs@,
        invariant
            n == line@.len(),
            in_range(line@),
            u < n,
            line@[u as int] == Some(h),
            0 <= h <= LIMIT,
            arcs_ordered(all, line@, u as int),
            all.len() == 0 ==> forall|i: int| 0 <= i < u ==> (#[trigger] line@[i]) is None,
            arcs_lowest(all, line@, u as int, n as int),
            arcs@ == all,
            count <= all.len(),
            end == arc_end(all, count - 1, n as int),
            forall|x: int|
                end <= x < n ==> #[trigger] beats_all(line@, u as int, x, u as int),
        ensures
            count > 0 ==> ({
                let a = all[count - 1];
                parabola(a.from as int, a.vertex as int, line@[a.vertex as int]->0 as int)
                    <= parabola(a.from as int, u as int, h as int)
            }),
        decreases count,
    {
        let top = &arcs[count - 1];
        let v: usize = top.vertex;
        let from: usize = top.from;
        assert(all[count - 1].vertex == v && all[count - 1].from == from);
        assert(line@[v as int] is Some);
        let hv: i128 = match line[v] {
            Some(x) => x,
            None => 0,
        };
        assert(0 <= hv <= LIMIT);
        let a: i128 = parabola_at(from, v, hv);
        let b: i128 = parabola_at(from, u, h);
        if a <= b {
            break;
        }
        proof {
            assert forall|x: int| from <= x < n implies #[trigger] beats_all(
                line@,
                u as int,
                x,
                u as int,
            ) by {
                if x < end {
                    assert(beats_all(line@, u as int, x, all[count - 1].vertex as int));
                    lemma_lower_stays(
                        from as int,
                        x,
                        v as int,
                        hv as int,
                        u as int,
                        h as int,
                    );
                }
            }
            end = from as int;
            if count >= 2 {
                assert(all[count - 2].from < all[count - 1].from);
            }
        }
        count = count - 1;
    }
    if count == 0 {
        assert(end == 0 || all.len() == 0) by {
            if all.len() > 0 {
                assert(all[0].from == 0);
            }
        }
        arcs.clear();
        arcs.push(Arc { vertex: u, from: 0 });
        proof {
            assert forall|k: int, x: int|
                0 <= k < arcs@.len() && arcs@[k].from <= x < n implies #[trigger] beats_all(
                line@,
                u + 1,
                x,
                (#[trigger] arcs@[k]).vertex as int,
            ) by {
                if all.len() > 0 {
                    assert(beats_all(line@, u as int, x, u as int));
                }
            }
        }
        return;
    }
    let v: usize = arcs[count - 1].vertex;
    let from: usize = arcs[count - 1].from;
    assert(line@[all[count - 1].vertex as int] is Some);
    let hv: i128 = match line[v] {
        Some(x) => x,
        None => 0,
    };
    assert(0 <= hv <= LIMIT);
    let w: usize = takeover(v, hv, u, h, from, n);
    let ghost c = crossing(v as int, hv as int, u as int, h as int);
    proof {
        if end < n {
            assert(beats_all(line@, u as int, end, u as int));
            assert(parabola(end, u as int, h as int) <= parabola(end, v as int, hv as int));
        }
    }
    arcs.truncate(count);
    if w < n {
        arcs.push(Arc { vertex: u, from: w });
    }
    proof {
        lemma_added(all, arcs@, line@, u as int, h, n as int, count as int, end, w as int);
    }
}

/// The squared distance between two places in the plane.
pub open spec fn squared(x: int, y: int, a: int, b: int) -> int {
    (x - a) * (x - a) + (y - b) * (y - b)
}

/// Where a place in the plane stands, row by row.
pub open spec fn cell(x: int, y: int, width: int) -> int {
    y * width + x
}

/// Whether a place is a source.
pub open spec fn source(on: Seq<bool>, a: int, b: int, width: int, height: int) -> bool {
    0 <= a < width && 0 <= b < height && on[cell(a, b, width)]
}

/// Whether `d` is the squared distance of a place to the nearest source;
/// `None` if there is no source.
pub open spec fn is_nearest(
    on: Seq<bool>,
    width: int,
    height: int,
    x: int,
    y: int,
    d: Option<i128>,
) -> bool {
    match d {
        Some(v) => {
            &&& exists|a: int, b: int|
                #[trigger] source(on, a, b, width, height) && v == squared(x, y, a, b)
            &&& forall|a: int, b: int|
                #[trigger] source(on, a, b, width, height) ==> v <= squared(x, y, a, b)
        },
        None => forall|a: int, b: int| !#[trigger] source(on, a, b, width, height),
    }
}

proof fn lemma_cell(x: int, y: int, width: int, height: int)
    requires
        0 <= x < width,
        0 <= y < height,
    ensures
        0 <= cell(x, y, width) < width * height,
        0 <= y * width,
{
    assert(0 <= y * width + x < width * height && 0 <= y * width) by (nonlinear_arith)
        requires
            0 <= x < width,
            0 <= y <= height - 1,
    ;
}

/// Whether `d` is the squared distance to the nearest source in the same row.
spec fn is_row_nearest(on: Seq<bool>, width: int, x: int, y: int, d: Option<i128>) -> bool {
    match d {
        Some(v) => {
            &&& 0 <= v <= LIMIT
            &&& exists|a: int|
                0 <= a < width && #[trigger] on[cell(a, y, width)] && v == (x - a) * (x - a)
            &&& forall|a: int|
                0 <= a < width && #[trigger] on[cell(a, y, width)] ==> v <= (x - a) * (x - a)
        },
        None => forall|a: int| 0 <= a < width ==> !#[trigger] on[cell(a, y, width)],
    }
}

/// The squared distances along row `y`.
fn transform_row(on: &Vec<bool>, width: usize, height: usize, y: usize) -> (out: Vec<Option<i128>>)
    requires
        width * height == on@.len(),
        width <= 0x1_0000_0000,
        y < height,
    ensures
        out@.len() == width,
        forall|x: int|
            0 <= x < width ==> is_row_nearest(
                on@,
                width as int,
                x,
                y as int,
                #[trigger] out@[x],
            ),
{
    let ghost w = width as int;
    let len: usize = on.len();
    let mut line: Vec<Option<i128>> = Vec::new();
    let mut x: usize = 0;
    while x < width
        invariant
            w == width,
            width * height == len,
            len == on@.len(),
            y < height,
            x <= width,
            line@.len() == x,
            forall|k: int|
                0 <= k < x ==> #[trigger] line@[k] == if on@[cell(k, y as int, w)] {
                    Some(0i128)
                } else {
                    None
                },
        decreases width - x,
    {
        proof {
            lemma_cell(x as int, y as int, w, height as int);
        }
        if on[y * width + x] {
            line.push(Some(0));
        } else {
            line.push(None);
        }
        x = x + 1;
    }
    let out = distance_transform_1d(&line);
    proof {
        assert forall|x: int| 0 <= x < width implies is_row_nearest(
            on@,
            w,
            x,
            y as int,
            #[trigger] out@[x],
        ) by {
            assert(is_lowest(line@, w, x, out@[x]));
            match out@[x] {
                Some(v) => {
                    let i = choose|i: int|
                        0 <= i < w && (#[trigger] line@[i]) is Some && v == parabola(
                            x,
                            i,
                            line@[i]->0 as int,
                        );
                    assert(on@[cell(i, y as int, w)] && v == (x - i) * (x - i));
                    assert(0 <= (x - i) * (x - i) <= LIMIT) by (nonlinear_arith)
                        requires
                            -0x1_0000_0000 <= x - i <= 0x1_0000_0000,
                            LIMIT == 0x1_0000_0000_0000_0000,
                    ;
                    assert forall|a: int|
                        0 <= a < w && #[trigger] on@[cell(a, y as int, w)] implies v <= (x - a)
                        * (x - a) by {
                        assert(line@[a] is Some);
                    }
                },
                None => {
                    assert forall|a: int| 0 <= a < w implies !#[trigger] on@[cell(
                        a,
                        y as int,
                        w,
                    )] by {
                        assert(line@[a] is None);
                    }
                },
            }
        }
    }
    out
}

/// The squared distance of every place to the nearest source; nothing where
/// there is no source.
pub fn distance_transform_2d(on: &Vec<bool>, width: usize, height: usize) -> (out: Vec<
    Option<i128>,
>)
    requires
        width * height == on@.len(),
        width <= 0x1_0000_0000,
        height <= 0x1_0000_0000,
    ensures
        out@.len() == on@.len(),
        forall|x: int, y: int|
            0 <= x < width && 0 <= y < height ==> is_nearest(
                on@,
                width as int,
                height as int,
                x,
                y,
                #[trigger] out@[cell(x, y, width as int)],
            ),
{
    let ghost w = width as int;
    let ghost h = height as int;
    let len: usize = on.len();
    let mut rows: Vec<Option<i128>> = Vec::new();
    let mut y: usize = 0;
    assert(0 * w == 0) by (nonlinear_arith);
    while y < height
        invariant
            w == width,
            h == height,
            w * h == len,
            len == on@.len(),
            width <= 0x1_0000_0000,
            y <= height,
            rows@.len() == y * w,
            forall|a: int, b: int|
                0 <= a < w && 0 <= b < y ==> is_row_nearest(
                    on@,
                    w,
                    a,
                    b,
                    #[trigger] rows@[cell(a, b, w)],
                ),
        decreases height - y,
    {
        let row = transform_row(on, width, height, y);
        let ghost before = rows@;
        let mut x: usize = 0;
        while x < width
            invariant
                w == width,
                row@.len() == w,
                x <= width,
                before.len() == y * w,
                rows@ == before + row@.take(x as int),
            decreases width - x,
        {
            rows.push(row[x]);
            assert(rows@ =~= before + row@.take(x + 1));
            x = x + 1;
        }
        assert(row@.take(w) =~= row@);
        assert((y + 1) * w == y * w + w) by (nonlinear_arith);
        assert forall|a: int, b: int| 0 <= a < w && 0 <= b < y + 1 implies is_row_nearest(
            on@,
            w,
            a,
            b,
            #[trigger] rows@[cell(a, b, w)],
        ) by {
            if b < y {
                lemma_cell(a, b, w, y as int);
                assert(w * y == y * w) by (nonlinear_arith);
                assert(rows@[cell(a, b, w)] == before[cell(a, b, w)]);
            } else {
                assert(rows@[cell(a, b, w)] == row@[a]);
            }
        }
        y = y + 1;
    }
    assert(w * h == h * w) by (nonlinear_arith);
    let mut out: Vec<Option<i128>> = Vec::new();
    let mut i: usize = 0;
    while i < len
        invariant
            i <= len,
            out@.len() == i,
        decreases len - i,
    {
        out.push(None);
        i = i + 1;
    }
    let mut x: usize = 0;
    while x < width
        invariant
            w == width,
            h == height,
            w * h == len,
            len == on@.len(),
            len == rows@.len(),
            len == out@.len(),
            width <= 0x1_0000_0000,
            height <= 0x1_0000_0000,
            x <= width,
            forall|a: int, b: int|
                0 <= a < w && 0 <= b < h ==> is_row_nearest(
                    on@,
                    w,
                    a,
                    b,
                    #[trigger] rows@[cell(a, b, w)],
                ),
            forall|a: int, b: int|
                0 <= a < x && 0 <= b < h ==> is_nearest(
                    on@,
                    w,
                    h,
                    a,
                    b,
                    #[trigger] out@[cell(a, b, w)],
                ),
        decreases width - x,
    {
        let mut line: Vec<Option<i128>> = Vec::new();
        let mut b: usize = 0;
        while b < height
            invariant
                w == width,
                h == height,
                w * h == len,
                len == rows@.len(),
                x < width,
                b <= height,
                line@.len() == b,
                forall|k: int|
                    0 <= k < b ==> #[trigger] line@[k] == rows@[cell(x as int, k, w)],
            decreases height - b,
        {
            proof {
                lemma_cell(x as int, b as int, w, h);
            }
            line.push(rows[b * width + x]);
            b = b + 1;
        }
        proof {
            assert forall|k: int|
                0 <= k < line@.len() && (#[trigger] line@[k]) is Some implies 0 <= line@[k]->0
                <= LIMIT by {
                assert(is_row_nearest(on@, w, x as int, k, rows@[cell(x as int, k, w)]));
            }
        }
        let col = distance_transform_1d(&line);
        let mut c: usize = 0;
        while c < height
            invariant
                w == width,
                h == height,
                w * h == len,
                len == out@.len(),
                x < width,
                c <= height,
                col@.len() == h,
                forall|a: int, b: int|
                    0 <= a < x && 0 <= b < h ==> is_nearest(
                        on@,
                        w,
                        h,
                        a,
                        b,
                        #[trigger] out@[cell(a, b, w)],
                    ),
                forall|b: int| 0 <= b < c ==> #[trigger] out@[cell(x as int, b, w)] == col@[b],
            decreases height - c,
        {
            proof {
                lemma_cell(x as int, c as int, w, h);
                assert forall|a: int, b: int|
                    0 <= a < w && 0 <= b < h && #[trigger] cell(a, b, w) == cell(
                        x as int,
                        c as int,
                        w,
                    ) implies a == x && b == c by {
                    assert(a == x && b == c) by (nonlinear_arith)
                        requires
                            b * w + a == c * w + x,
                            0 <= a < w,
                            0 <= x < w,
                    ;
                }
                assert forall|a: int, b: int| 0 <= a < w && 0 <= b < h implies 0
                    <= #[trigger] cell(a, b, w) < len by {
                    lemma_cell(a, b, w, h);
                }
            }
            let v = col[c];
            out.set(c * width + x, v);
            c = c + 1;
        }
        proof {
            assert forall|b: int| 0 <= b < h implies is_nearest(
                on@,
                w,
                h,
                x as int,
                b,
                #[trigger] out@[cell(x as int, b, w)],
            ) by {
                assert(out@[cell(x as int, b, w)] == col@[b]);
                assert(is_lowest(line@, h, b, col@[b]));
                assert forall|k: int| 0 <= k < h implies is_row_nearest(
                    on@,
                    w,
                    x as int,
                    k,
                    #[trigger] line@[k],
                ) by {
                    assert(line@[k] == rows@[cell(x as int, k, w)]);
                }
                lemma_combine(on@, w, h, x as int, b, line@, col@[b]);
            }
        }
        x = x + 1;
    }
    out
}

proof fn lemma_combine(
    on: Seq<bool>,
    w: int,
    h: int,
    x: int,
    y: int,
    line: Seq<Option<i128>>,
    d: Option<i128>,
)
    requires
        line.len() == h,
        is_lowest(line, h, y, d),
        forall|k: int| 0 <= k < h ==> is_row_nearest(on, w, x, k, #[trigger] line[k]),
    ensures
        is_nearest(on, w, h, x, y, d),
{
    match d {
        Some(v) => {
            let j = choose|i: int|
                0 <= i < h && (#[trigger] line[i]) is Some && v == parabola(
                    y,
                    i,
                    line[i]->0 as int,
                );
            assert(is_row_nearest(on, w, x, j, line[j]));
            let g = line[j]->0;
            let a = choose|a: int|
                0 <= a < w && #[trigger] on[cell(a, j, w)] && g == (x - a) * (x - a);
            assert(source(on, a, j, w, h));
            assert(v == squared(x, y, a, j));
            assert forall|p: int, q: int| #[trigger] source(on, p, q, w, h) implies v <= squared(
                x,
                y,
                p,
                q,
            ) by {
                assert(is_row_nearest(on, w, x, q, line[q]));
                assert(on[cell(p, q, w)]);
                assert(line[q] is Some);
                assert(line[q]->0 <= (x - p) * (x - p));
                assert(v <= parabola(y, q, line[q]->0 as int));
            }
        },
        None => {
            assert forall|p: int, q: int| !#[trigger] source(on, p, q, w, h) by {
                if source(on, p, q, w, h) {
                    assert(is_row_nearest(on, w, x, q, line[q]));
                    assert(on[cell(p, q, w)]);
                    assert(line[q] is None);
                }
            }
        },
    }
}

/// Whether each byte of a mask counts as inside.
pub fn inside_of(mask: &[u8]) -> (r: Vec<bool>)
    ensures
        r@ == Seq::new(mask@.len(), |i: int| mask@[i] > 127),
{
    let mut r: Vec<bool> = Vec::new();
    let mut i: usize = 0;
    while i < mask.len()
        invariant
            i <= mask@.len(),
            r@ == Seq::new(i as nat, |i: int| mask@[i] > 127),
        decreases mask@.len() - i,
    {
        r.push(mask[i] > 127);
        assert(r@ =~= Seq::new((i + 1) as nat, |i: int| mask@[i] > 127));
        i = i + 1;
    }
    r
}

/// A squared distance to the edge of a mask: from a place inside to the
/// nearest one outside, or the other way round.
#[derive(Debug, Clone, Copy, PartialEq, Eq, Structural)]
pub struct EdgeDistance {
    /// Whether the place is inside.
    pub inside: bool,
    /// The squared distance; nothing if the mask has no place of the other
    /// kind.
    pub squared: Option<i128>,
}

/// The squared distance of every place of a mask to the nearest place of the
/// other kind.
pub fn edge_distances(mask: &[u8], width: usize, height: usize) -> (r: Vec<EdgeDistance>)
    requires
        width * height == mask@.len(),
        width <= 0x1_0000_0000,
        height <= 0x1_0000_0000,
    ensures
        r@.len() == mask@.len(),
        forall|x: int, y: int|
            0 <= x < width && 0 <= y < height ==> {
                let e = #[trigger] r@[cell(x, y, width as int)];
                let inside = mask@[cell(x, y, width as int)] > 127;
                &&& e.inside == inside
                &&& is_nearest(
                    Seq::new(mask@.len(), |i: int| (mask@[i] > 127) != inside),
                    width as int,
                    height as int,
                    x,
                    y,
                    e.squared,
                )
            },
{
    let on = inside_of(mask);
    let n: usize = on.len();
    let mut off: Vec<bool> = Vec::new();
    let mut i: usize = 0;
    while i < n
        invariant
            n == on@.len(),
            i <= n,
            off@ == Seq::new(i as nat, |i: int| !on@[i]),
        decreases n - i,
    {
        off.push(!on[i]);
        assert(off@ =~= Seq::new((i + 1) as nat, |i: int| !on@[i]));
        i = i + 1;
    }
    let to_off = distance_transform_2d(&off, width, height);
    let to_on = distance_transform_2d(&on, width, height);
    let mut r: Vec<EdgeDistance> = Vec::new();
    let mut k: usize = 0;
    while k < n
        invariant
            n == on@.len(),
            n == to_off@.len(),
            n == to_on@.len(),
            k <= n,
            r@.len() == k,
            forall|j: int|
                0 <= j < k ==> #[trigger] r@[j] == (EdgeDistance {
                    inside: on@[j],
                    squared: if on@[j] {
                        to_off@[j]
                    } else {
                        to_on@[j]
                    },
                }),
        decreases n - k,
    {
        let inside = on[k];
        let squared = if inside {
            to_off[k]
        } else {
            to_on[k]
        };
        r.push(EdgeDistance { inside, squared });
        k = k + 1;
    }
    proof {
        let ghost w = width as int;
        assert forall|x: int, y: int| 0 <= x < width && 0 <= y < height implies {
            let e = #[trigger] r@[cell(x, y, w)];
            let inside = mask@[cell(x, y, w)] > 127;
            &&& e.inside == inside
            &&& is_nearest(
                Seq::new(mask@.len(), |i: int| (mask@[i] > 127) != inside),
                w,
                height as int,
                x,
                y,
                e.squared,
            )
        } by {
            lemma_cell(x, y, w, height as int);
            assert(is_nearest(off@, w, height as int, x, y, to_off@[cell(x, y, w)]));
            assert(is_nearest(on@, w, height as int, x, y, to_on@[cell(x, y, w)]));
            assert(off@ =~= Seq::new(mask@.len(), |i: int| (mask@[i] > 127) != true));
            assert(on@ =~= Seq::new(mask@.len(), |i: int| (mask@[i] > 127) != false));
        }
    }
    r
}

} // verus!
