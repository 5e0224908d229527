//! The edges of a path, what a hit test makes of them, and the extent of what
//! they cover.

use vstd::prelude::*;

use crate::float_bits::{bits_eq, bits_le, bits_lt, float_eq, float_le, float_lt};
use crate::geometry::{Point, Rect};
use crate::path::{FillType, Path, PathElement, PathModel, empty_rect};

verus! {

/// A line or curve of a path, with the point it starts at.
#[derive(Debug, Clone, Copy, PartialEq, Eq, Structural)]
pub enum Edge {
    /// A line.
    Line(Point, Point),
    /// A quadratic curve.
    Quad(Point, Point, Point),
    /// A conic curve and its weight.
    Conic(Point, Point, Point, u32),
    /// A cubic curve.
    Cubic(Point, Point, Point, Point),
}

/// The edges found so far, and where the pen is.
pub struct Pen {
    /// Where the pen is.
    pub current: Point,
    /// Where the contour started.
    pub start: Point,
    /// Whether something was drawn since the contour started or was closed.
    pub open: bool,
    /// The edges.
    pub edges: Seq<Edge>,
}

impl Pen {
    /// Before anything is drawn.
    pub open spec fn down() -> Pen {
        let zero = Point { x: 0, y: 0 };
        Pen { current: zero, start: zero, open: false, edges: Seq::empty() }
    }

    /// An edge to `to`.
    pub open spec fn draw(self, e: Edge, to: Point) -> Pen {
        Pen { current: to, open: true, edges: self.edges.push(e), ..self }
    }

    /// The line that closes the contour, if something was drawn.
    pub open spec fn close(self) -> Pen {
        if self.open {
            Pen {
                open: false,
                edges: self.edges.push(Edge::Line(self.current, self.start)),
                ..self
            }
        } else {
            self
        }
    }

    /// One more element. If `fill`, contours that are left open are closed.
    pub open spec fn step(self, e: PathElement, fill: bool) -> Pen {
        match e {
            PathElement::Move(p) => {
                let c = if fill {
                    self.close()
                } else {
                    self
                };
                Pen { current: p, start: p, open: false, ..c }
            },
            PathElement::Line(p) => self.draw(Edge::Line(self.current, p), p),
            PathElement::Quad(c, p) => self.draw(Edge::Quad(self.current, c, p), p),
            PathElement::Conic(c, p, w) => self.draw(Edge::Conic(self.current, c, p, w), p),
            PathElement::Cubic(c, d, p) => self.draw(Edge::Cubic(self.current, c, d, p), p),
            PathElement::Close => {
                let c = self.close();
                Pen { current: c.start, ..c }
            },
        }
    }
}

/// The pen after the first `k` elements.
pub open spec fn pen_after(m: PathModel, fill: bool, k: nat) -> Pen
    decreases k,
{
    if k == 0 {
        Pen::down()
    } else {
        pen_after(m, fill, (k - 1) as nat).step(m.element(k - 1), fill)
    }
}

/// The edges of a path. If `fill`, every contour is closed, as it is when the
/// path is filled; otherwise only those that say so.
pub open spec fn edges_of(m: PathModel, fill: bool) -> Seq<Edge> {
    let p = pen_after(m, fill, m.verbs.len());
    if fill {
        p.close().edges
    } else {
        p.edges
    }
}

impl Path {
    /// The edges of the path. If `fill`, every contour is closed.
    pub fn edges(&self, fill: bool) -> (r: Vec<Edge>)
        ensures
            r@ == edges_of(self@, fill),
    {
        let zero = Point { x: 0, y: 0 };
        let n: usize = self.verb_count();
        let mut current = zero;
        let mut start = zero;
        let mut open = false;
        let mut edges: Vec<Edge> = Vec::new();
        assert(edges@ =~= Seq::empty());
        let mut it = self.iter();
        let mut k: usize = 0;
        while k < n
            invariant
                n == self@.verbs.len(),
                k <= n,
                it.path_model() == self@,
                it.position() == k,
                pen_after(self@, fill, k as nat) == (Pen { current, start, open, edges: edges@ }),
            decreases n - k,
        {
            match it.next() {
                Some(e) => match e {
                    PathElement::Move(p) => {
                        if fill && open {
                            edges.push(Edge::Line(current, start));
                        }
                        current = p;
                        start = p;
                        open = false;
                    },
                    PathElement::Line(p) => {
                        edges.push(Edge::Line(current, p));
                        current = p;
                        open = true;
                    },
                    PathElement::Quad(c, p) => {
                        edges.push(Edge::Quad(current, c, p));
                        current = p;
                        open = true;
                    },
                    PathElement::Conic(c, p, w) => {
                        edges.push(Edge::Conic(current, c, p, w));
                        current = p;
                        open = true;
                    },
                    PathElement::Cubic(c, d, p) => {
                        edges.push(Edge::Cubic(current, c, d, p));
                        current = p;
                        open = true;
                    },
                    PathElement::Close => {
                        if open {
                            edges.push(Edge::Line(current, start));
                            open = false;
                        }
                        current = start;
                    },
                },
                None => {},
            }
            k = k + 1;
        }
        if fill && open {
            edges.push(Edge::Line(current, start));
        }
        edges
    }
}

// ---------------------------------------------------------------------------
// Hit tests
// ---------------------------------------------------------------------------

/// Whether a point lies in a rectangle or on its edges.
pub open spec fn holds_point(r: Rect, p: Point) -> bool {
    float_le(r.left, p.x) && float_le(p.x, r.right) && float_le(r.top, p.y) && float_le(
        p.y,
        r.bottom,
    )
}

/// Whether a point lies in a rectangle or on its edges.
pub fn contains_inclusive(r: &Rect, p: Point) -> (b: bool)
    ensures
        b == holds_point(*r, p),
{
    bits_le(r.left, p.x) && bits_le(p.x, r.right) && bits_le(r.top, p.y) && bits_le(p.y, r.bottom)
}

/// Whether a point is filled, given the winding number of the path around it
/// and the number of edges it lies on. Where both rules leave it open, a point
/// on an edge is inside.
pub open spec fn filled(fill: FillType, winding: int, on_edges: int) -> bool {
    let even_odd = fill == FillType::EvenOdd || fill == FillType::InverseEvenOdd;
    let wound = if even_odd {
        winding % 2 != 0
    } else {
        winding != 0
    };
    let inside = wound || (if on_edges <= 1 || even_odd {
        on_edges % 2 != 0
    } else {
        true
    });
    inside != fill.inverted()
}

/// Whether a point is filled, given the winding number of the path around it
/// and the number of edges it lies on.
pub fn is_filled(fill: FillType, winding: i128, on_edges: u128) -> (r: bool)
    ensures
        r == filled(fill, winding as int, on_edges as int),
{
    let inverse = fill.is_inverse();
    let even_odd = match fill {
        FillType::EvenOdd => true,
        FillType::InverseEvenOdd => true,
        _ => false,
    };
    let parity: bool = if winding >= 0 {
        winding % 2 != 0
    } else {
        (-(winding + 1)) % 2 == 0
    };
    let wound = if even_odd {
        parity
    } else {
        winding != 0
    };
    let inside = if wound {
        true
    } else if on_edges <= 1 || even_odd {
        on_edges % 2 != 0
    } else {
        true
    };
    inside != inverse
}

/// An inverse fill type fills exactly what the other one leaves out.
pub proof fn inverse_fill_is_the_complement(fill: FillType, winding: int, on_edges: int)
    ensures
        filled(fill.other_side(), winding, on_edges) != filled(fill, winding, on_edges),
{
}

/// What can be said of the winding number of an edge around a point from how
/// coordinates compare.
#[derive(Debug, Clone, Copy, PartialEq, Eq, Structural)]
pub enum Crossing {
    /// The edge does not cross the height of the point, or only touches it.
    Apart,
    /// The edge is level with the point, which lies on it if it lies between
    /// the ends and not at the second.
    Level,
    /// The point is at the start of the edge.
    AtStart,
    /// The edge crosses the height of the point downwards if the number is
    /// one, and upwards if it is minus one.
    Across(i8),
}

/// Where an edge from `a` to `b` passes the point.
pub open spec fn crossing(a: Point, b: Point, p: Point) -> Crossing {
    let swapped = float_lt(b.y, a.y);
    let top = if swapped {
        b.y
    } else {
        a.y
    };
    let bottom = if swapped {
        a.y
    } else {
        b.y
    };
    if float_lt(p.y, top) || float_lt(bottom, p.y) {
        Crossing::Apart
    } else if float_eq(a.y, b.y) {
        Crossing::Level
    } else if float_eq(p.x, a.x) && float_eq(p.y, a.y) {
        Crossing::AtStart
    } else if float_eq(p.y, bottom) {
        Crossing::Apart
    } else {
        Crossing::Across(
            if swapped {
                (-1) as i8
            } else {
                1
            },
        )
    }
}

/// Where an edge from `a` to `b` passes the point.
pub fn crossing_of(a: Point, b: Point, p: Point) -> (r: Crossing)
    ensures
        r == crossing(a, b, p),
{
    let swapped = bits_lt(b.y, a.y);
    let top: u32 = if swapped {
        b.y
    } else {
        a.y
    };
    let bottom: u32 = if swapped {
        a.y
    } else {
        b.y
    };
    if bits_lt(p.y, top) || bits_lt(bottom, p.y) {
        Crossing::Apart
    } else if bits_eq(a.y, b.y) {
        Crossing::Level
    } else if bits_eq(p.x, a.x) && bits_eq(p.y, a.y) {
        Crossing::AtStart
    } else if bits_eq(p.y, bottom) {
        Crossing::Apart
    } else {
        Crossing::Across(
            if swapped {
                -1
            } else {
                1
            },
        )
    }
}

// ---------------------------------------------------------------------------
// Extents
// ---------------------------------------------------------------------------

/// Positive infinity.
pub const INFINITY: u32 = 0x7f80_0000;

/// Negative infinity.
pub const NEG_INFINITY: u32 = 0xff80_0000;

/// The extent of what has been included.
#[derive(Debug, Clone, Copy, PartialEq, Eq, Structural)]
pub struct Extent {
    /// Smallest horizontal coordinate.
    pub min_x: u32,
    /// Smallest vertical coordinate.
    pub min_y: u32,
    /// Largest horizontal coordinate.
    pub max_x: u32,
    /// Largest vertical coordinate.
    pub max_y: u32,
}

/// The smaller one; a NaN is ignored.
pub open spec fn lower(a: u32, v: u32) -> u32 {
    if float_lt(v, a) {
        v
    } else {
        a
    }
}

/// The larger one; a NaN is ignored.
pub open spec fn upper(a: u32, v: u32) -> u32 {
    if float_lt(a, v) {
        v
    } else {
        a
    }
}

/// A coordinate that a curve reaches between its ends.
#[derive(Debug, Clone, Copy, PartialEq, Eq, Structural)]
pub struct AxisValue {
    /// Whether the coordinate is vertical.
    pub vertical: bool,
    /// The coordinate.
    pub value: u32,
}

impl Extent {
    /// Nothing has been included.
    pub open spec fn nothing() -> Extent {
        Extent {
            min_x: INFINITY,
            min_y: INFINITY,
            max_x: NEG_INFINITY,
            max_y: NEG_INFINITY,
        }
    }

    /// The extent with a horizontal coordinate.
    pub open spec fn with_x(self, v: u32) -> Extent {
        Extent { min_x: lower(self.min_x, v), max_x: upper(self.max_x, v), ..self }
    }

    /// The extent with a vertical coordinate.
    pub open spec fn with_y(self, v: u32) -> Extent {
        Extent { min_y: lower(self.min_y, v), max_y: upper(self.max_y, v), ..self }
    }

    /// The extent with a point.
    pub open spec fn with(self, p: Point) -> Extent {
        self.with_x(p.x).with_y(p.y)
    }

    /// The extent with the first `n` coordinates.
    pub open spec fn with_values(self, vs: Seq<AxisValue>, n: nat) -> Extent
        decreases n,
    {
        if n == 0 || n > vs.len() {
            self
        } else {
            let e = self.with_values(vs, (n - 1) as nat);
            let v = vs[n - 1];
            if v.vertical {
                e.with_y(v.value)
            } else {
                e.with_x(v.value)
            }
        }
    }

    /// The extent with an element that starts at `from` and reaches `vs`
    /// between its ends. Of a conic the control point is taken instead.
    pub open spec fn with_element(
        self,
        from: Point,
        e: PathElement,
        vs: Seq<AxisValue>,
    ) -> Extent {
        match e {
            PathElement::Move(p) => self.with(p),
            PathElement::Line(p) => self.with(p),
            PathElement::Quad(_, p) => self.with(from).with(p).with_values(vs, vs.len()),
            PathElement::Cubic(_, _, p) => self.with(from).with(p).with_values(vs, vs.len()),
            PathElement::Conic(c, p, _) => self.with(from).with(c).with(p),
            PathElement::Close => self,
        }
    }

    /// Includes a horizontal coordinate.
    fn include_x(&mut self, v: u32)
        ensures
            *final(self) == old(self).with_x(v),
    {
        if bits_lt(v, self.min_x) {
            self.min_x = v;
        }
        if bits_lt(self.max_x, v) {
            self.max_x = v;
        }
    }

    /// Includes a vertical coordinate.
    fn include_y(&mut self, v: u32)
        ensures
            *final(self) == old(self).with_y(v),
    {
        if bits_lt(v, self.min_y) {
            self.min_y = v;
        }
        if bits_lt(self.max_y, v) {
            self.max_y = v;
        }
    }

    /// Includes a point.
    fn add_point(&mut self, p: Point)
        ensures
            *final(self) == old(self).with(p),
    {
        self.include_x(p.x);
        self.include_y(p.y);
    }

    /// Includes coordinates.
    fn add_values(&mut self, vs: &Vec<AxisValue>)
        ensures
            *final(self) == old(self).with_values(vs@, vs@.len()),
    {
        let mut i: usize = 0;
        while i < vs.len()
            invariant
                i <= vs@.len(),
                *self == old(self).with_values(vs@, i as nat),
            decreases vs@.len() - i,
        {
            let v = vs[i];
            if v.vertical {
                self.include_y(v.value);
            } else {
                self.include_x(v.value);
            }
            i = i + 1;
        }
    }
}

/// The end of an element that starts at `from`.
pub open spec fn end_of(from: Point, e: PathElement) -> Point {
    match e {
        PathElement::Move(p) => p,
        PathElement::Line(p) => p,
        PathElement::Quad(_, p) => p,
        PathElement::Conic(_, p, _) => p,
        PathElement::Cubic(_, _, p) => p,
        PathElement::Close => from,
    }
}

/// Where the pen is after the first `k` elements; a close leaves it there.
pub open spec fn pen_point(m: PathModel, k: nat) -> Point
    decreases k,
{
    if k == 0 {
        Point { x: 0, y: 0 }
    } else {
        end_of(pen_point(m, (k - 1) as nat), m.element(k - 1))
    }
}

/// The coordinates that each element reaches between its ends.
pub open spec fn values_of(vs: Seq<Vec<AxisValue>>) -> Seq<Seq<AxisValue>> {
    Seq::new(vs.len(), |i: int| vs[i]@)
}

/// The extent of the first `k` elements.
pub open spec fn extent_of(m: PathModel, values: Seq<Seq<AxisValue>>, k: nat) -> Extent
    decreases k,
{
    if k == 0 {
        Extent::nothing()
    } else {
        extent_of(m, values, (k - 1) as nat).with_element(
            pen_point(m, (k - 1) as nat),
            m.element(k - 1),
            values[k - 1],
        )
    }
}

/// The rectangle that a path covers, given the coordinates that each of its
/// elements reaches between its ends.
pub open spec fn covered_rect(m: PathModel, values: Seq<Seq<AxisValue>>) -> Rect {
    let e = extent_of(m, values, m.verbs.len());
    if m.verbs.len() == 0 || float_eq(e.min_x, INFINITY) {
        empty_rect()
    } else {
        Rect { left: e.min_x, top: e.min_y, right: e.max_x, bottom: e.max_y }
    }
}

impl Path {
    /// The rectangle that the path covers, given the coordinates that each of
    /// its elements reaches between its ends.
    pub fn tight_bounds_from(&self, values: &Vec<Vec<AxisValue>>) -> (r: Rect)
        requires
            values@.len() == self@.verbs.len(),
        ensures
            r == covered_rect(self@, values_of(values@)),
    {
        let n: usize = self.verb_count();
        let mut e = Extent {
            min_x: INFINITY,
            min_y: INFINITY,
            max_x: NEG_INFINITY,
            max_y: NEG_INFINITY,
        };
        let mut current = Point { x: 0, y: 0 };
        let mut it = self.iter();
        let mut k: usize = 0;
        while k < n
            invariant
                n == self@.verbs.len(),
                values@.len() == n,
                k <= n,
                it.path_model() == self@,
                it.position() == k,
                current == pen_point(self@, k as nat),
                e == extent_of(self@, values_of(values@), k as nat),
            decreases n - k,
        {
            assert(values_of(values@)[k as int] == values@[k as int]@);
            match it.next() {
                Some(x) => match x {
                    PathElement::Move(p) => {
                        e.add_point(p);
                        current = p;
                    },
                    PathElement::Line(p) => {
                        e.add_point(p);
                        current = p;
                    },
                    PathElement::Quad(_, p) => {
                        e.add_point(current);
                        e.add_point(p);
                        e.add_values(&values[k]);
                        current = p;
                    },
                    PathElement::Cubic(_, _, p) => {
                        e.add_point(current);
                        e.add_point(p);
                        e.add_values(&values[k]);
                        current = p;
                    },
                    PathElement::Conic(c, p, _) => {
                        e.add_point(current);
                        e.add_point(c);
                        e.add_point(p);
                        current = p;
                    },
                    PathElement::Close => {},
                },
                None => {},
            }
            k = k + 1;
        }
        if n == 0 || bits_eq(e.min_x, INFINITY) {
            return Rect { left: 0, top: 0, right: 0, bottom: 0 };
        }
        Rect { left: e.min_x, top: e.min_y, right: e.max_x, bottom: e.max_y }
    }
}

} // verus!
