//! Flattened contours of a path, and what a stroke along them is made of.
//!
//! Curves are cut evenly.

use vstd::prelude::*;

use crate::arith::{FloatOp, FloatUnit, Ops};
use crate::curves::{FOUR, cut_evenly, even_points};
use crate::geometry::Point;
use crate::path::{Path, PathElement, PathModel};
use crate::path_edges::Edge;
use crate::path_shape::{at_same_place, same_place};

verus! {

/// The points of every edge, without the first.
pub type Flat = spec_fn(Edge) -> Seq<Point>;

/// The points of edges that are cut evenly.
pub open spec fn evenly(f: Ops, tol: u32) -> Flat {
    |e: Edge| even_points(f, tol, e)
}

/// A contour as a mathematical value.
pub struct ContourModel {
    /// Its points.
    pub points: Seq<Point>,
    /// Whether a close ended it.
    pub closed: bool,
}

/// A flattened contour.
#[derive(Debug)]
pub struct Contour {
    /// Its points.
    pub points: Vec<Point>,
    /// Whether a close ended it.
    pub closed: bool,
}

impl View for Contour {
    type V = ContourModel;

    open spec fn view(&self) -> ContourModel {
        ContourModel { points: self.points@, closed: self.closed }
    }
}

/// The models of contours.
pub open spec fn contour_models(v: Seq<Contour>) -> Seq<ContourModel> {
    Seq::new(v.len(), |i: int| v[i]@)
}

/// The contours found so far, and where the pen is.
pub struct Outline {
    /// Where the pen is.
    pub current: Point,
    /// Where the contour started.
    pub start: Point,
    /// The points of the contour so far.
    pub pending: Seq<Point>,
    /// The contours that are complete.
    pub done: Seq<ContourModel>,
}

impl Outline {
    /// Before anything is drawn.
    pub open spec fn blank() -> Outline {
        let zero = Point { x: 0, y: 0 };
        Outline { current: zero, start: zero, pending: Seq::empty(), done: Seq::empty() }
    }

    /// Ends the contour, if it has points.
    pub open spec fn flush(self, closed: bool) -> Outline {
        Outline {
            pending: Seq::empty(),
            done: if self.pending.len() > 0 {
                self.done.push(ContourModel { points: self.pending, closed })
            } else {
                self.done
            },
            ..self
        }
    }

    /// Draws through points to the last of them, `to`. A contour without
    /// points begins where the last one started.
    pub open spec fn draw(self, ps: Seq<Point>, to: Point) -> Outline {
        let seeded = if self.pending.len() == 0 {
            seq![self.start]
        } else {
            self.pending
        };
        Outline { current: to, pending: seeded + ps, ..self }
    }

    /// One more element. If `repeat`, a close goes back to the start unless
    /// the pen is there.
    pub open spec fn step(
        self,
        f: Flat,
        e: PathElement,
        repeat: bool,
    ) -> Outline {
        match e {
            PathElement::Move(p) => Outline {
                current: p,
                start: p,
                pending: seq![p],
                ..self.flush(false)
            },
            PathElement::Line(p) => self.draw(seq![p], p),
            PathElement::Quad(c, p) => self.draw(
                f(Edge::Quad(self.current, c, p)),
                p,
            ),
            PathElement::Conic(c, p, w) => self.draw(
                f(Edge::Conic(self.current, c, p, w)),
                p,
            ),
            PathElement::Cubic(c, d, p) => self.draw(
                f(Edge::Cubic(self.current, c, d, p)),
                p,
            ),
            PathElement::Close => {
                let o = if repeat && !same_place(self.current, self.start) {
                    Outline { pending: self.pending.push(self.start), ..self }
                } else {
                    self
                };
                Outline { current: self.start, ..o.flush(true) }
            },
        }
    }
}

/// The outline after the first `k` elements.
pub open spec fn outline_after(
    f: Flat,
    m: PathModel,
    repeat: bool,
    k: nat,
) -> Outline
    decreases k,
{
    if k == 0 {
        Outline::blank()
    } else {
        outline_after(f, m, repeat, (k - 1) as nat).step(f, m.element(k - 1), repeat)
    }
}

/// The flattened contours of a path.
pub open spec fn contours_of(
    f: Flat,
    m: PathModel,
    repeat: bool,
) -> Seq<ContourModel> {
    outline_after(f, m, repeat, m.verbs.len()).flush(false).done
}

/// Appends points.
fn append_points(out: &mut Vec<Point>, ps: &Vec<Point>)
    ensures
        final(out)@ == old(out)@ + ps@,
{
    let mut i: usize = 0;
    assert(out@ =~= old(out)@ + ps@.take(0));
    while i < ps.len()
        invariant
            i <= ps@.len(),
            out@ == old(out)@ + ps@.take(i as int),
        decreases ps@.len() - i,
    {
        out.push(ps[i]);
        assert(out@ =~= old(out)@ + ps@.take(i + 1));
        i = i + 1;
    }
    assert(ps@.take(i as int) =~= ps@);
}

/// A contour that is being drawn.
struct Drawing {
    current: Point,
    start: Point,
    pending: Vec<Point>,
    done: Vec<Contour>,
}

impl View for Drawing {
    type V = Outline;

    closed spec fn view(&self) -> Outline {
        Outline {
            current: self.current,
            start: self.start,
            pending: self.pending@,
            done: contour_models(self.done@),
        }
    }
}

impl Drawing {
    /// Ends the contour, if it has points.
    fn flush(self, closed: bool) -> (r: Drawing)
        ensures
            r@ == self@.flush(closed),
    {
        let mut d = self;
        if d.pending.len() == 0 {
            assert(d.pending@ =~= Seq::empty());
            return d;
        }
        let ghost before = contour_models(d.done@);
        let c = Contour { points: d.pending, closed };
        let ghost cm = c@;
        d.done.push(c);
        assert(contour_models(d.done@) =~= before.push(cm));
        let r = Drawing {
            current: d.current,
            start: d.start,
            pending: Vec::new(),
            done: d.done,
        };
        assert(r.pending@ =~= Seq::empty());
        r
    }

    /// Draws through points.
    fn draw(&mut self, ps: &Vec<Point>, to: Point)
        ensures
            final(self)@ == old(self)@.draw(ps@, to),
    {
        if self.pending.len() == 0 {
            let s = self.start;
            self.pending.push(s);
            assert(self.pending@ =~= seq![s]);
        }
        append_points(&mut self.pending, ps);
        self.current = to;
    }
}

impl Path {
    /// The flattened contours of the path. If `repeat`, a close goes back to
    /// the start of the contour unless the pen is there.
    pub fn flatten_contours<A: Fn(FloatOp, u32, u32, u32) -> u32>(
        &self,
        f: &FloatUnit<A>,
        tol: u32,
        repeat: bool,
    ) -> (r: Vec<Contour>)
        requires
            f.steady(),
        ensures
            contour_models(r@) == contours_of(evenly(f.ops(), tol), self@, repeat),
    {
        let zero = Point { x: 0, y: 0 };
        let n: usize = self.verb_count();
        let mut d = Drawing {
            current: zero,
            start: zero,
            pending: Vec::new(),
            done: Vec::new(),
        };
        assert(d.pending@ =~= Seq::empty());
        assert(contour_models(d.done@) =~= Seq::empty());
        let mut it = self.iter();
        let mut k: usize = 0;
        while k < n
            invariant
                f.steady(),
                n == self@.verbs.len(),
                k <= n,
                it.path_model() == self@,
                it.position() == k,
                d@ == outline_after(evenly(f.ops(), tol), self@, repeat, k as nat),
            decreases n - k,
        {
            match it.next() {
                Some(e) => match e {
                    PathElement::Move(p) => {
                        d = d.flush(false);
                        d.pending.push(p);
                        assert(d.pending@ =~= seq![p]);
                        d.current = p;
                        d.start = p;
                    },
                    PathElement::Line(p) => {
                        let mut ps: Vec<Point> = Vec::new();
                        ps.push(p);
                        assert(ps@ =~= seq![p]);
                        d.draw(&ps, p);
                    },
                    PathElement::Quad(c, p) => {
                        let ps = cut_evenly(f, tol, Edge::Quad(d.current, c, p));
                        d.draw(&ps, p);
                    },
                    PathElement::Conic(c, p, w) => {
                        let ps = cut_evenly(f, tol, Edge::Conic(d.current, c, p, w));
                        d.draw(&ps, p);
                    },
                    PathElement::Cubic(c, q, p) => {
                        let ps = cut_evenly(f, tol, Edge::Cubic(d.current, c, q, p));
                        d.draw(&ps, p);
                    },
                    PathElement::Close => {
                        if repeat && !at_same_place(d.current, d.start) {
                            let s = d.start;
                            d.pending.push(s);
                        }
                        d = d.flush(true);
                        d.current = d.start;
                    },
                },
                None => {},
            }
            k = k + 1;
        }
        d = d.flush(false);
        d.done
    }
}

// ---------------------------------------------------------------------------
// Strokes
// ---------------------------------------------------------------------------

/// How two segments of a stroke meet.
#[derive(Debug, Clone, Copy, PartialEq, Eq, Structural)]
pub enum StrokeJoin {
    /// In a point, up to the miter limit.
    Miter,
    /// In a flat corner.
    Bevel,
    /// In a round corner.
    Round,
}

impl Default for StrokeJoin {
    fn default() -> (r: StrokeJoin)
        ensures
            r == StrokeJoin::Miter,
    {
        StrokeJoin::Miter
    }
}

/// How a stroke ends.
#[derive(Debug, Clone, Copy, PartialEq, Eq, Structural)]
pub enum StrokeCap {
    /// At the last point.
    Butt,
    /// Half a width beyond the last point.
    Square,
    /// In a half circle.
    Round,
}

impl Default for StrokeCap {
    fn default() -> (r: StrokeCap)
        ensures
            r == StrokeCap::Butt,
    {
        StrokeCap::Butt
    }
}

/// What a stroke looks like.
#[derive(Debug, Clone, Copy, PartialEq, Eq, Structural)]
pub struct StrokeStyle {
    /// Width.
    pub width: u32,
    /// How segments meet.
    pub join: StrokeJoin,
    /// How the stroke ends.
    pub cap: StrokeCap,
    /// The longest miter, in half widths.
    pub miter_limit: u32,
}

impl StrokeStyle {
    /// A stroke of the given width, with mitered joins and without caps.
    pub fn new(width: u32) -> (r: StrokeStyle)
        ensures
            r == (StrokeStyle {
                width,
                join: StrokeJoin::Miter,
                cap: StrokeCap::Butt,
                miter_limit: FOUR,
            }),
    {
        StrokeStyle { width, join: StrokeJoin::Miter, cap: StrokeCap::Butt, miter_limit: FOUR }
    }

    /// The style with other joins.
    pub fn with_join(self, join: StrokeJoin) -> (r: StrokeStyle)
        ensures
            r == (StrokeStyle { join, ..self }),
    {
        StrokeStyle { join, ..self }
    }

    /// The style with other caps.
    pub fn with_cap(self, cap: StrokeCap) -> (r: StrokeStyle)
        ensures
            r == (StrokeStyle { cap, ..self }),
    {
        StrokeStyle { cap, ..self }
    }

    /// The style with another miter limit.
    pub fn with_miter_limit(self, limit: u32) -> (r: StrokeStyle)
        ensures
            r == (StrokeStyle { miter_limit: limit, ..self }),
    {
        StrokeStyle { miter_limit: limit, ..self }
    }
}

/// Where two segments of a stroke meet.
#[derive(Debug, Clone, Copy, PartialEq, Eq, Structural)]
pub struct JoinAt {
    /// The point.
    pub vertex: usize,
    /// The segment that ends there.
    pub from: usize,
    /// The segment that starts there.
    pub to: usize,
}

/// The number of segments of a stroke along `n` points.
pub open spec fn segment_count(n: nat, closed: bool) -> nat {
    if n < 2 {
        0
    } else if closed {
        n
    } else {
        (n - 1) as nat
    }
}

/// The ends of segment `s` of a stroke along `n` points.
pub open spec fn segment(n: nat, s: int) -> (usize, usize) {
    (
        s as usize,
        if s + 1 < n {
            (s + 1) as usize
        } else {
            0
        },
    )
}

/// The joins of a stroke along `n` points: at every point if it is closed,
/// else at every point but the two ends.
pub open spec fn joins_of(n: nat, closed: bool) -> Seq<JoinAt> {
    let count = segment_count(n, closed);
    if n < 2 {
        Seq::empty()
    } else if closed {
        Seq::new(
            n,
            |v: int|
                JoinAt {
                    vertex: v as usize,
                    from: if v > 0 {
                        (v - 1) as usize
                    } else {
                        (n - 1) as usize
                    },
                    to: v as usize,
                },
        )
    } else {
        Seq::new(
            (n - 2) as nat,
            |k: int| JoinAt { vertex: (k + 1) as usize, from: k as usize, to: (k + 1) as usize },
        )
    }
}

/// The ends of the segments of a stroke along `n` points.
pub fn stroke_segments(n: usize, closed: bool) -> (r: Vec<(usize, usize)>)
    ensures
        r@ == Seq::new(segment_count(n as nat, closed), |s: int| segment(n as nat, s)),
{
    let mut r: Vec<(usize, usize)> = Vec::new();
    let count: usize = if n < 2 {
        0
    } else if closed {
        n
    } else {
        n - 1
    };
    let mut s: usize = 0;
    while s < count
        invariant
            s <= count <= n,
            r@ == Seq::new(s as nat, |s: int| segment(n as nat, s)),
        decreases count - s,
    {
        let next: usize = if s < n - 1 {
            s + 1
        } else {
            0
        };
        r.push((s, next));
        assert(r@ =~= Seq::new((s + 1) as nat, |s: int| segment(n as nat, s)));
        s = s + 1;
    }
    r
}

/// The joins of a stroke along `n` points.
pub fn stroke_joins(n: usize, closed: bool) -> (r: Vec<JoinAt>)
    ensures
        r@ == joins_of(n as nat, closed),
{
    let mut r: Vec<JoinAt> = Vec::new();
    if n < 2 {
        assert(r@ =~= Seq::empty());
        return r;
    }
    let mut v: usize = if closed {
        0
    } else {
        1
    };
    let end: usize = if closed {
        n
    } else {
        n - 1
    };
    assert(r@ =~= joins_of(n as nat, closed).take(0));
    while v < end
        invariant
            n >= 2,
            end == if closed {
                n as int
            } else {
                n - 1
            },
            (if closed {
                0
            } else {
                1int
            }) <= v <= end,
            r@ == joins_of(n as nat, closed).take(
                if closed {
                    v as int
                } else {
                    v - 1
                },
            ),
        decreases end - v,
    {
        let from: usize = if v > 0 {
            v - 1
        } else {
            n - 1
        };
        r.push(JoinAt { vertex: v, from, to: v });
        assert(r@ =~= joins_of(n as nat, closed).take(
            if closed {
                v + 1
            } else {
                v as int
            },
        ));
        v = v + 1;
    }
    assert(r@ =~= joins_of(n as nat, closed));
    r
}

/// Every join of a stroke joins two of its segments, of which the first ends
/// and the second starts there.
pub proof fn joins_meet_segments(n: nat, closed: bool, k: int)
    requires
        2 <= n <= usize::MAX,
        0 <= k < joins_of(n, closed).len(),
    ensures
        ({
            let j = joins_of(n, closed)[k];
            &&& j.from < segment_count(n, closed)
            &&& j.to < segment_count(n, closed)
            &&& segment(n, j.from as int).1 == j.vertex
            &&& segment(n, j.to as int).0 == j.vertex
        }),
{
}

} // verus!
