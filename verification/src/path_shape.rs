//! What can be told of a path from how its coordinates compare.

use vstd::prelude::*;

use crate::float_bits::{
    bits_eq, bits_finite, bits_lt, bits_max, bits_min, bits_same, float_eq, float_lt, float_max,
    float_min, is_finite, same_finite,
};
use crate::geometry::{Point, Rect};
use crate::lists::Verb;
use crate::path::{Path, PathElement, PathModel};

verus! {

/// Whether two points are equal as floats are: a NaN equals nothing.
pub open spec fn same_place(a: Point, b: Point) -> bool {
    float_eq(a.x, b.x) && float_eq(a.y, b.y)
}

/// Whether two points are equal as floats are.
pub fn at_same_place(a: Point, b: Point) -> (r: bool)
    ensures
        r == same_place(a, b),
{
    bits_eq(a.x, b.x) && bits_eq(a.y, b.y)
}

/// Whether a line between two points is neither horizontal nor vertical.
pub open spec fn diagonal(a: Point, b: Point) -> bool {
    !same_finite(a.x, b.x) && !same_finite(a.y, b.y)
}

/// Whether a line between two points is neither horizontal nor vertical.
fn is_diagonal(a: Point, b: Point) -> (r: bool)
    ensures
        r == diagonal(a, b),
{
    !bits_same(a.x, b.x) && !bits_same(a.y, b.y)
}

/// Whether both coordinates are finite.
pub open spec fn finite_point(p: Point) -> bool {
    is_finite(p.x) && is_finite(p.y)
}

/// Where a horizontal or vertical line goes.
#[derive(Debug, Clone, Copy, PartialEq, Eq, Structural)]
pub enum Heading {
    /// To smaller vertical coordinates.
    Up,
    /// To smaller horizontal coordinates.
    Left,
    /// To larger vertical coordinates.
    Down,
    /// To larger horizontal coordinates.
    Right,
}

impl Heading {
    /// Whether two headings are opposite.
    pub open spec fn opposes(self, o: Heading) -> bool {
        match self {
            Heading::Up => o == Heading::Down,
            Heading::Down => o == Heading::Up,
            Heading::Left => o == Heading::Right,
            Heading::Right => o == Heading::Left,
        }
    }

    /// Whether two headings are opposite.
    fn is_opposite(self, o: Heading) -> (r: bool)
        ensures
            r == self.opposes(o),
    {
        match self {
            Heading::Up => o == Heading::Down,
            Heading::Down => o == Heading::Up,
            Heading::Left => o == Heading::Right,
            Heading::Right => o == Heading::Left,
        }
    }
}

/// Where the line from `a` to `b` goes.
pub open spec fn heading(a: Point, b: Point) -> Heading {
    let forward = float_lt(a.x, b.x) || float_lt(a.y, b.y);
    if same_finite(a.x, b.x) {
        if forward {
            Heading::Down
        } else {
            Heading::Up
        }
    } else {
        if forward {
            Heading::Right
        } else {
            Heading::Left
        }
    }
}

/// Where the line from `a` to `b` goes.
fn heading_of(a: Point, b: Point) -> (r: Heading)
    ensures
        r == heading(a, b),
{
    let forward = bits_lt(a.x, b.x) || bits_lt(a.y, b.y);
    if bits_same(a.x, b.x) {
        if forward {
            Heading::Down
        } else {
            Heading::Up
        }
    } else {
        if forward {
            Heading::Right
        } else {
            Heading::Left
        }
    }
}

/// What is known of a contour that may turn out to be a rectangle.
#[verifier::ext_equal]
pub struct RectTrace {
    /// The headings of its sides so far.
    pub headings: Seq<Heading>,
    /// Where the next line starts.
    pub line_start: Point,
    /// The first point.
    pub first: Point,
    /// The last point that a line went to.
    pub last: Point,
    /// The corner between the first two sides.
    pub first_corner: Point,
    /// The corner across from it.
    pub third_corner: Point,
    /// Whether the contour was just closed, or a new one started.
    pub closed_or_moved: bool,
    /// Whether a close has been seen.
    pub auto_close: bool,
}

/// The origin.
pub open spec fn origin() -> Point {
    Point { x: 0, y: 0 }
}

impl RectTrace {
    /// Nothing is known yet.
    pub open spec fn start() -> RectTrace {
        RectTrace {
            headings: Seq::empty(),
            line_start: origin(),
            first: origin(),
            last: origin(),
            first_corner: origin(),
            third_corner: origin(),
            closed_or_moved: false,
            auto_close: false,
        }
    }

    /// A line to `end`; `drawn` unless a close asks for it. There is no
    /// rectangle if the line is slanted, if a coordinate is not finite, or if
    /// the sides do not turn as those of a rectangle do.
    pub open spec fn line(self, end: Point, drawn: bool) -> Option<RectTrace> {
        let n = self.headings.len();
        let h = heading(self.line_start, end);
        if diagonal(self.line_start, end) || !finite_point(end) || !finite_point(self.line_start) {
            None
        } else if same_place(self.line_start, end) {
            Some(self)
        } else if n == 0 {
            Some(
                RectTrace {
                    headings: seq![h],
                    closed_or_moved: false,
                    line_start: end,
                    ..self
                },
            )
        } else if self.closed_or_moved {
            None
        } else if self.auto_close && h == self.headings[0] {
            Some(self)
        } else if self.headings[n - 1] == h {
            Some(
                RectTrace {
                    closed_or_moved: self.auto_close,
                    third_corner: if n == 3 && drawn {
                        end
                    } else {
                        self.third_corner
                    },
                    line_start: end,
                    ..self
                },
            )
        } else if n >= 4 || (n == 2 && !self.headings[0].opposes(h)) || (n == 3
            && !self.headings[1].opposes(h)) {
            None
        } else {
            Some(
                RectTrace {
                    headings: self.headings.push(h),
                    closed_or_moved: self.auto_close,
                    first_corner: if n == 1 {
                        self.line_start
                    } else {
                        self.first_corner
                    },
                    third_corner: if n == 2 {
                        end
                    } else {
                        self.third_corner
                    },
                    line_start: end,
                    ..self
                },
            )
        }
    }

    /// One more element. Curves rule out a rectangle.
    #[verifier::opaque]
    pub open spec fn step(self, e: PathElement) -> Option<RectTrace> {
        match e {
            PathElement::Close => (RectTrace { auto_close: true, ..self }).line(self.first, false),
            PathElement::Line(p) => (RectTrace { last: p, ..self }).line(p, true),
            PathElement::Move(p) => if self.headings.len() == 0 {
                Some(RectTrace { first: p, line_start: p, closed_or_moved: true, ..self })
            } else if diagonal(self.last, self.first) {
                None
            } else {
                Some(RectTrace { line_start: p, closed_or_moved: true, ..self })
            },
            _ => None,
        }
    }

    /// What is known after the first `k` elements.
    pub open spec fn after(m: PathModel, k: nat) -> Option<RectTrace>
        decreases k,
    {
        if k == 0 {
            Some(RectTrace::start())
        } else {
            match RectTrace::after(m, (k - 1) as nat) {
                Some(t) => t.step(m.element(k - 1)),
                None => None,
            }
        }
    }

    /// The rectangle, once all elements have been seen.
    pub open spec fn finish(self) -> Option<Rect> {
        if 3 <= self.headings.len() <= 4 && !diagonal(self.last, self.first) {
            Some(spanned(self.first_corner, self.third_corner))
        } else {
            None
        }
    }
}

/// The rectangle with two opposite corners.
pub open spec fn spanned(a: Point, b: Point) -> Rect {
    Rect {
        left: float_min(a.x, b.x),
        top: float_min(a.y, b.y),
        right: float_max(a.x, b.x),
        bottom: float_max(a.y, b.y),
    }
}

/// The rectangle with two opposite corners.
fn rect_from_corners(a: Point, b: Point) -> (r: Rect)
    ensures
        r == spanned(a, b),
{
    Rect {
        left: bits_min(a.x, b.x),
        top: bits_min(a.y, b.y),
        right: bits_max(a.x, b.x),
        bottom: bits_max(a.y, b.y),
    }
}

/// Whether the lines from `a` to `b` and on to `c` differ both in being
/// vertical and in being horizontal.
pub open spec fn turns_square(a: Point, b: Point, c: Point) -> bool {
    &&& same_finite(a.x, b.x) != same_finite(b.x, c.x)
    &&& same_finite(a.y, b.y) != same_finite(b.y, c.y)
}

/// The verbs of a plain rectangle.
pub open spec fn rect_verbs() -> Seq<Verb> {
    seq![Verb::Move, Verb::Line, Verb::Line, Verb::Line, Verb::Close]
}

/// Whether a path is a plain rectangle: four points, joined by lines that are
/// alternately horizontal and vertical, and closed.
pub open spec fn plain_rect(m: PathModel) -> bool {
    let p = m.points;
    &&& p.len() == 4
    &&& m.verbs == rect_verbs()
    &&& same_finite(p[0].x, p[1].x) != same_finite(p[0].y, p[1].y)
    &&& turns_square(p[0], p[1], p[2])
    &&& turns_square(p[1], p[2], p[3])
    &&& turns_square(p[2], p[3], p[0])
}

/// The rectangle that a path traces, if it traces one.
pub open spec fn rect_of(m: PathModel) -> Option<Rect> {
    if m.verbs.len() < 4 || m.points.len() < 4 {
        None
    } else if plain_rect(m) {
        Some(spanned(m.points[0], m.points[2]))
    } else {
        match RectTrace::after(m, m.verbs.len()) {
            Some(t) => t.finish(),
            None => None,
        }
    }
}

/// A trace with its headings in a vector.
struct Trace {
    headings: Vec<Heading>,
    line_start: Point,
    first: Point,
    last: Point,
    first_corner: Point,
    third_corner: Point,
    closed_or_moved: bool,
    auto_close: bool,
}

impl View for Trace {
    type V = RectTrace;

    closed spec fn view(&self) -> RectTrace {
        RectTrace {
            headings: self.headings@,
            line_start: self.line_start,
            first: self.first,
            last: self.last,
            first_corner: self.first_corner,
            third_corner: self.third_corner,
            closed_or_moved: self.closed_or_moved,
            auto_close: self.auto_close,
        }
    }
}

impl Trace {
    /// A line to `end`. Returns `false` if there is no rectangle.
    fn line(&mut self, end: Point, drawn: bool) -> (ok: bool)
        ensures
            match old(self)@.line(end, drawn) {
                Some(t) => ok && final(self)@ == t,
                None => !ok,
            },
    {
        let n: usize = self.headings.len();
        if is_diagonal(self.line_start, end) {
            return false;
        }
        if !bits_finite(end.x) || !bits_finite(end.y) || !bits_finite(self.line_start.x)
            || !bits_finite(self.line_start.y) {
            return false;
        }
        if at_same_place(self.line_start, end) {
            return true;
        }
        let h = heading_of(self.line_start, end);
        if n == 0 {
            self.headings.push(h);
            assert(self.headings@ =~= seq![h]);
            self.closed_or_moved = false;
            self.line_start = end;
            return true;
        }
        if self.closed_or_moved {
            return false;
        }
        if self.auto_close && h == self.headings[0] {
            return true;
        }
        if self.headings[n - 1] == h {
            self.closed_or_moved = self.auto_close;
            if n == 3 && drawn {
                self.third_corner = end;
            }
            self.line_start = end;
            return true;
        }
        if n >= 4 {
            return false;
        }
        if n == 2 && !self.headings[0].is_opposite(h) {
            return false;
        }
        if n == 3 && !self.headings[1].is_opposite(h) {
            return false;
        }
        self.headings.push(h);
        self.closed_or_moved = self.auto_close;
        if n == 1 {
            self.first_corner = self.line_start;
        }
        if n == 2 {
            self.third_corner = end;
        }
        self.line_start = end;
        true
    }

    /// One more element. Returns `false` if there is no rectangle.
    fn step(&mut self, e: PathElement) -> (ok: bool)
        ensures
            match old(self)@.step(e) {
                Some(t) => ok && final(self)@ == t,
                None => !ok,
            },
    {
        proof {
            reveal(RectTrace::step);
        }
        match e {
            PathElement::Close => {
                self.auto_close = true;
                let first = self.first;
                self.line(first, false)
            },
            PathElement::Line(p) => {
                self.last = p;
                self.line(p, true)
            },
            PathElement::Move(p) => {
                if self.headings.len() == 0 {
                    self.first = p;
                } else if is_diagonal(self.last, self.first) {
                    return false;
                }
                self.line_start = p;
                self.closed_or_moved = true;
                true
            },
            _ => false,
        }
    }
}

/// Whether the lines from `a` to `b` and on to `c` turn squarely.
fn is_square(a: Point, b: Point, c: Point) -> (r: bool)
    ensures
        r == turns_square(a, b, c),
{
    bits_same(a.x, b.x) != bits_same(b.x, c.x) && bits_same(a.y, b.y) != bits_same(b.y, c.y)
}

/// Whether verbs and points make a plain rectangle.
fn trivial_rect(vs: &[Verb], p: &[Point]) -> (r: bool)
    ensures
        forall|m: PathModel|
            m.verbs == vs@ && m.points == p@ ==> r == #[trigger] plain_rect(m),
{
    if p.len() != 4 || vs.len() != 5 {
        assert(rect_verbs().len() == 5);
        return false;
    }
    let shape = vs[0] == Verb::Move && vs[1] == Verb::Line && vs[2] == Verb::Line && vs[3]
        == Verb::Line && vs[4] == Verb::Close;
    assert(shape == (vs@ == rect_verbs())) by {
        if shape {
            assert(vs@ =~= rect_verbs());
        } else {
            assert(rect_verbs()[0] == Verb::Move && rect_verbs()[1] == Verb::Line
                && rect_verbs()[2] == Verb::Line && rect_verbs()[3] == Verb::Line
                && rect_verbs()[4] == Verb::Close);
        }
    }
    shape && bits_same(p[0].x, p[1].x) != bits_same(p[0].y, p[1].y) && is_square(
        p[0],
        p[1],
        p[2],
    ) && is_square(p[1], p[2], p[3]) && is_square(p[2], p[3], p[0])
}

proof fn lemma_trace_stops(m: PathModel, k: nat, n: nat)
    requires
        k <= n,
        RectTrace::after(m, k) is None,
    ensures
        RectTrace::after(m, n) is None,
    decreases n,
{
    if k < n {
        lemma_trace_stops(m, k, (n - 1) as nat);
    }
}

impl Path {
    /// The rectangle that the path traces, if it traces one.
    pub fn is_rect(&self) -> (r: Option<Rect>)
        ensures
            r == rect_of(self@),
    {
        let vs = self.verbs();
        let ps = self.points();
        let n: usize = vs.len();
        if n < 4 || ps.len() < 4 {
            return None;
        }
        if trivial_rect(vs, ps) {
            assert(plain_rect(self@));
            return Some(rect_from_corners(ps[0], ps[2]));
        }
        assert(!plain_rect(self@));
        let origin = Point { x: 0, y: 0 };
        let mut t = Trace {
            headings: Vec::new(),
            line_start: origin,
            first: origin,
            last: origin,
            first_corner: origin,
            third_corner: origin,
            closed_or_moved: false,
            auto_close: false,
        };
        assert(t@ =~= RectTrace::start());
        let mut it = self.iter();
        let mut k: usize = 0;
        while k < n
            invariant
                n == self@.verbs.len(),
                k <= n,
                !plain_rect(self@),
                it.path_model() == self@,
                it.position() == k,
                RectTrace::after(self@, k as nat) == Some(t@),
            decreases n - k,
        {
            match it.next() {
                Some(e) => {
                    if !t.step(e) {
                        proof {
                            lemma_trace_stops(self@, (k + 1) as nat, n as nat);
                        }
                        return None;
                    }
                },
                None => {},
            }
            k = k + 1;
        }
        let sides: usize = t.headings.len();
        if sides < 3 || sides > 4 || is_diagonal(t.last, t.first) {
            return None;
        }
        Some(rect_from_corners(t.first_corner, t.third_corner))
    }
}

/// The path around a rectangle is recognized, and gives the rectangle.
pub proof fn rectangles_are_recognized(m: PathModel, r: Rect)
    requires
        is_finite(r.left),
        is_finite(r.top),
        is_finite(r.right),
        is_finite(r.bottom),
        float_lt(r.left, r.right),
        float_lt(r.top, r.bottom),
        m.verbs == rect_verbs(),
        m.points == seq![
            (Point { x: r.left, y: r.top }),
            (Point { x: r.right, y: r.top }),
            (Point { x: r.right, y: r.bottom }),
            (Point { x: r.left, y: r.bottom }),
        ],
    ensures
        rect_of(m) == Some(r),
{
}

/// A path with a curve is no rectangle.
pub proof fn curves_are_no_rectangles(m: PathModel, k: int)
    requires
        0 <= k < m.verbs.len(),
        m.verbs[k] == Verb::Quad || m.verbs[k] == Verb::Conic || m.verbs[k] == Verb::Cubic,
    ensures
        rect_of(m) is None,
{
    assert(!plain_rect(m)) by {
        if plain_rect(m) {
            assert(rect_verbs()[k] == m.verbs[k]);
        }
    }
    reveal(RectTrace::step);
    assert(RectTrace::after(m, (k + 1) as nat) is None);
    lemma_trace_stops(m, (k + 1) as nat, m.verbs.len());
}

} // verus!
