//! Whether a path is convex.
//!
//! A contour is convex if it always turns to the same side. How one vector
//! turns against another is a matter of float arithmetic; what follows from
//! it is decided here.

use vstd::prelude::*;

use crate::float_bits::{bits_eq, bits_lt, bits_same, float_eq, float_lt, same_finite};
use crate::geometry::Point;
use crate::lists::Verb;
use crate::path::{Path, PathConvexity, PathElement, PathModel};
use crate::path_shape::{at_same_place, same_place};

verus! {

// ---------------------------------------------------------------------------
// Signs
// ---------------------------------------------------------------------------

/// What a walk around points has seen: how often the horizontal and the
/// vertical sense changed, and the last senses.
pub struct SignWalk {
    /// Changes of the horizontal sense.
    pub x_changes: int,
    /// Changes of the vertical sense.
    pub y_changes: int,
    /// Whether the last step went left.
    pub left: Option<bool>,
    /// Whether the last step went up.
    pub up: Option<bool>,
}

impl SignWalk {
    /// A step from `a` to `b`. Returns `None` if the points cannot be convex:
    /// a step is not finite, or a sense changes too often.
    pub open spec fn step(self, a: Point, b: Point, finite: bool) -> Option<SignWalk> {
        if same_finite(a.x, b.x) && same_finite(a.y, b.y) {
            Some(self)
        } else if !finite {
            None
        } else {
            let left = float_lt(b.x, a.x);
            let up = float_lt(b.y, a.y);
            let x_changes = if self.left == Some(left) {
                self.x_changes
            } else {
                self.x_changes + 1
            };
            let y_changes = if self.up == Some(up) {
                self.y_changes
            } else {
                self.y_changes + 1
            };
            if x_changes > 3 || y_changes > 3 {
                None
            } else {
                Some(SignWalk { x_changes, y_changes, left: Some(left), up: Some(up) })
            }
        }
    }
}

/// What a walk around points has seen after `k` steps, the last of which goes
/// back to the first point.
pub open spec fn sign_walk(ps: Seq<Point>, finite: Seq<bool>, k: nat) -> Option<SignWalk>
    decreases k,
{
    if k == 0 {
        Some(SignWalk { x_changes: 0, y_changes: 0, left: None, up: None })
    } else {
        match sign_walk(ps, finite, (k - 1) as nat) {
            Some(w) => w.step(
                ps[k - 1],
                if k < ps.len() {
                    ps[k as int]
                } else {
                    ps[0]
                },
                finite[k - 1],
            ),
            None => None,
        }
    }
}

proof fn lemma_walk_stops(ps: Seq<Point>, finite: Seq<bool>, k: nat, n: nat)
    requires
        k <= n,
        sign_walk(ps, finite, k) is None,
    ensures
        sign_walk(ps, finite, n) is None,
    decreases n,
{
    if k < n {
        lemma_walk_stops(ps, finite, k, (n - 1) as nat);
    }
}

/// Whether more than three points cannot be convex because a walk around them
/// changes its senses too often. `finite` says of each step, the one back to
/// the first point last, whether it is finite.
pub fn is_concave_by_sign(ps: &[Point], finite: &Vec<bool>) -> (r: bool)
    requires
        finite@.len() == ps@.len(),
    ensures
        r == (ps@.len() > 3 && sign_walk(ps@, finite@, ps@.len()) is None),
{
    let n: usize = ps.len();
    if n <= 3 {
        return false;
    }
    let mut x_changes: u32 = 0;
    let mut y_changes: u32 = 0;
    let mut last_left: Option<bool> = None;
    let mut last_up: Option<bool> = None;
    let mut k: usize = 0;
    while k < n
        invariant
            n == ps@.len(),
            n > 3,
            finite@.len() == n,
            k <= n,
            x_changes <= 3,
            y_changes <= 3,
            sign_walk(ps@, finite@, k as nat) == Some(
                (SignWalk {
                    x_changes: x_changes as int,
                    y_changes: y_changes as int,
                    left: last_left,
                    up: last_up,
                }),
            ),
        decreases n - k,
    {
        let a = ps[k];
        let b = if k + 1 < n {
            ps[k + 1]
        } else {
            ps[0]
        };
        if !(bits_same(a.x, b.x) && bits_same(a.y, b.y)) {
            if !finite[k] {
                proof {
                    lemma_walk_stops(ps@, finite@, (k + 1) as nat, n as nat);
                }
                return true;
            }
            let left = bits_lt(b.x, a.x);
            let up = bits_lt(b.y, a.y);
            let x_same = match last_left {
                Some(v) => v == left,
                None => false,
            };
            let y_same = match last_up {
                Some(v) => v == up,
                None => false,
            };
            if !x_same {
                x_changes = x_changes + 1;
            }
            if !y_same {
                y_changes = y_changes + 1;
            }
            if x_changes > 3 || y_changes > 3 {
                proof {
                    lemma_walk_stops(ps@, finite@, (k + 1) as nat, n as nat);
                }
                return true;
            }
            last_left = Some(left);
            last_up = Some(up);
        }
        k = k + 1;
    }
    false
}

// ---------------------------------------------------------------------------
// Turns
// ---------------------------------------------------------------------------

/// How a vector turns against the last one.
#[derive(Debug, Clone, Copy, PartialEq, Eq, Structural)]
pub enum Turn {
    /// To the left.
    Left,
    /// To the right.
    Right,
    /// Not at all.
    Straight,
    /// All the way around.
    Backwards,
    /// There is no telling.
    Unknown,
}

/// The side a contour turned to first.
#[derive(Debug, Clone, Copy, PartialEq, Eq, Structural)]
pub enum FirstDir {
    /// Clockwise.
    Cw,
    /// Counter-clockwise.
    Ccw,
    /// None, or both.
    Unknown,
}

/// What is known of the turns of one contour.
#[derive(Debug, Clone, Copy, PartialEq, Eq, Structural)]
pub struct Convexicator {
    /// The first point.
    pub first_pt: Point,
    /// The first vector.
    pub first_vec: Point,
    /// The last point.
    pub last_pt: Point,
    /// The last vector that turned.
    pub last_vec: Point,
    /// The side all turns must go to, once there was one.
    pub expected: Option<Turn>,
    /// The side the contour turned to first.
    pub first_direction: FirstDir,
    /// How often the contour turned all the way around.
    pub reversals: u8,
}

impl Convexicator {
    /// Adds a vector that turns as given. The flag says whether the contour
    /// may still be convex: it must keep to one side, and may turn all the
    /// way around twice.
    pub open spec fn with_vec(self, vec: Point, turn: Turn) -> (Convexicator, bool) {
        match turn {
            Turn::Left | Turn::Right => if self.expected is None {
                (
                    Convexicator {
                        expected: Some(turn),
                        first_direction: if turn == Turn::Right {
                            FirstDir::Cw
                        } else {
                            FirstDir::Ccw
                        },
                        last_vec: vec,
                        ..self
                    },
                    true,
                )
            } else if self.expected == Some(turn) {
                (Convexicator { last_vec: vec, ..self }, true)
            } else {
                (Convexicator { first_direction: FirstDir::Unknown, ..self }, false)
            },
            Turn::Straight => (self, true),
            Turn::Backwards => (
                Convexicator { last_vec: vec, reversals: (self.reversals + 1) as u8, ..self },
                self.reversals + 1 < 3,
            ),
            Turn::Unknown => (self, false),
        }
    }

    /// Whether no vector has been seen yet.
    pub open spec fn fresh(self) -> bool {
        same_place(self.first_pt, self.last_pt) && self.expected is None && float_eq(
            self.last_vec.x,
            0,
        ) && float_eq(self.last_vec.y, 0)
    }

    /// Adds a point, reached by `vec`, which turns as given. A point at the
    /// place of the last one changes nothing, and the first vector turns
    /// against none.
    pub open spec fn with_pt(self, pt: Point, vec: Point, turn: Turn) -> (Convexicator, bool) {
        if same_place(self.last_pt, pt) {
            (self, true)
        } else if self.fresh() {
            (Convexicator { last_vec: vec, first_vec: vec, last_pt: pt, ..self }, true)
        } else {
            let (c, ok) = self.with_vec(vec, turn);
            if ok {
                (Convexicator { last_pt: pt, ..c }, true)
            } else {
                (c, false)
            }
        }
    }

    /// Nothing is known.
    pub open spec fn blank() -> Convexicator {
        let zero = Point { x: 0, y: 0 };
        Convexicator {
            first_pt: zero,
            first_vec: zero,
            last_pt: zero,
            last_vec: zero,
            expected: None,
            first_direction: FirstDir::Unknown,
            reversals: 0,
        }
    }

    /// Nothing is known.
    pub fn new() -> (r: Convexicator)
        ensures
            r == Convexicator::blank(),
            r.fresh(),
    {
        let zero = Point { x: 0, y: 0 };
        Convexicator {
            first_pt: zero,
            first_vec: zero,
            last_pt: zero,
            last_vec: zero,
            expected: None,
            first_direction: FirstDir::Unknown,
            reversals: 0,
        }
    }

    /// The side the contour turned to first.
    pub fn first_direction(&self) -> (r: FirstDir)
        ensures
            r == self.first_direction,
    {
        self.first_direction
    }

    /// How often the contour turned all the way around.
    pub fn reversals(&self) -> (r: u8)
        ensures
            r == self.reversals,
    {
        self.reversals
    }

    /// Starts the contour at a point.
    pub fn set_move_pt(&mut self, pt: Point)
        ensures
            *final(self) == (Convexicator {
                first_pt: pt,
                last_pt: pt,
                expected: None,
                ..*old(self)
            }),
    {
        self.first_pt = pt;
        self.last_pt = pt;
        self.expected = None;
    }

    /// Adds a vector that turns as given. Returns whether the contour may
    /// still be convex.
    pub fn add_vec(&mut self, vec: Point, turn: Turn) -> (ok: bool)
        requires
            old(self).reversals < 255,
        ensures
            (*final(self), ok) == old(self).with_vec(vec, turn),
    {
        match turn {
            Turn::Left | Turn::Right => {
                match self.expected {
                    None => {
                        self.expected = Some(turn);
                        self.first_direction = if turn == Turn::Right {
                            FirstDir::Cw
                        } else {
                            FirstDir::Ccw
                        };
                        self.last_vec = vec;
                        true
                    },
                    Some(t) => {
                        if t == turn {
                            self.last_vec = vec;
                            true
                        } else {
                            self.first_direction = FirstDir::Unknown;
                            false
                        }
                    },
                }
            },
            Turn::Straight => true,
            Turn::Backwards => {
                self.last_vec = vec;
                self.reversals = self.reversals + 1;
                self.reversals < 3
            },
            Turn::Unknown => false,
        }
    }

    /// Adds a point, reached by `vec`, which turns as given. Returns whether
    /// the contour may still be convex.
    pub fn add_pt(&mut self, pt: Point, vec: Point, turn: Turn) -> (ok: bool)
        requires
            old(self).reversals < 255,
        ensures
            (*final(self), ok) == old(self).with_pt(pt, vec, turn),
    {
        if at_same_place(self.last_pt, pt) {
            return true;
        }
        let first = at_same_place(self.first_pt, self.last_pt) && self.expected.is_none()
            && bits_eq(self.last_vec.x, 0) && bits_eq(self.last_vec.y, 0);
        if first {
            self.last_vec = vec;
            self.first_vec = vec;
        } else if !self.add_vec(vec, turn) {
            return false;
        }
        self.last_pt = pt;
        true
    }

    /// What the turns of a closed contour say of it. One that never turned to
    /// a side is convex unless it went back and forth too often.
    pub fn verdict(&self) -> (r: PathConvexity)
        ensures
            r == if self.first_direction == FirstDir::Unknown && self.reversals >= 3 {
                PathConvexity::Concave
            } else {
                PathConvexity::Convex
            },
    {
        match self.first_direction {
            FirstDir::Unknown => {
                if self.reversals >= 3 {
                    PathConvexity::Concave
                } else {
                    PathConvexity::Convex
                }
            },
            _ => PathConvexity::Convex,
        }
    }
}

/// Once a contour has turned to one side, a turn to the other rules out that
/// it is convex, whatever vector makes it.
pub proof fn turning_both_ways_is_concave(c: Convexicator, vec: Point)
    ensures
        c.expected == Some(Turn::Left) ==> !c.with_vec(vec, Turn::Right).1,
        c.expected == Some(Turn::Right) ==> !c.with_vec(vec, Turn::Left).1,
{
}

// ---------------------------------------------------------------------------
// Contours
// ---------------------------------------------------------------------------

/// What to do with a contour to find out whether it is convex.
#[derive(Debug, Clone, Copy, PartialEq, Eq, Structural)]
pub enum ConvexOp {
    /// Start at a point.
    Start(Point),
    /// Add a point.
    Add(Point),
    /// Close the contour.
    Close,
    /// Give up: a second contour is drawn, so the path is concave.
    Reject,
}

/// How far the scan of a path has come, and what it asks to be done.
pub struct ConvexScan {
    /// Whether something was drawn.
    pub drawing: bool,
    /// Whether the first contour is over.
    pub closed: bool,
    /// What to do.
    pub ops: Seq<ConvexOp>,
}

impl ConvexScan {
    /// One more element. Only the first contour counts; whatever is drawn
    /// after it makes the path concave.
    pub open spec fn step(self, e: PathElement) -> ConvexScan {
        if self.closed {
            match e {
                PathElement::Move(_) => self,
                _ => ConvexScan { ops: self.ops.push(ConvexOp::Reject), ..self },
            }
        } else {
            match e {
                PathElement::Move(p) => if self.drawing {
                    ConvexScan { closed: true, ops: self.ops.push(ConvexOp::Close), ..self }
                } else {
                    ConvexScan { ops: self.ops.push(ConvexOp::Start(p)), ..self }
                },
                PathElement::Close => ConvexScan {
                    drawing: true,
                    closed: true,
                    ops: self.ops.push(ConvexOp::Close),
                },
                PathElement::Line(p) => ConvexScan {
                    drawing: true,
                    closed: false,
                    ops: self.ops.push(ConvexOp::Add(p)),
                },
                PathElement::Quad(c, p) => ConvexScan {
                    drawing: true,
                    closed: false,
                    ops: self.ops.push(ConvexOp::Add(c)).push(ConvexOp::Add(p)),
                },
                PathElement::Conic(c, p, _) => ConvexScan {
                    drawing: true,
                    closed: false,
                    ops: self.ops.push(ConvexOp::Add(c)).push(ConvexOp::Add(p)),
                },
                PathElement::Cubic(c, d, p) => ConvexScan {
                    drawing: true,
                    closed: false,
                    ops: self.ops.push(ConvexOp::Add(c)).push(ConvexOp::Add(d)).push(
                        ConvexOp::Add(p),
                    ),
                },
            }
        }
    }
}

/// The scan of the first `k` elements.
pub open spec fn convex_scan(m: PathModel, k: nat) -> ConvexScan
    decreases k,
{
    if k == 0 {
        ConvexScan { drawing: false, closed: false, ops: Seq::empty() }
    } else {
        convex_scan(m, (k - 1) as nat).step(m.element(k - 1))
    }
}

/// The number of verbs without the moves at the end.
pub open spec fn trimmed(vs: Seq<Verb>, k: nat) -> nat
    decreases k,
{
    if k == 0 || k > vs.len() {
        0
    } else if vs[k - 1] == Verb::Move {
        trimmed(vs, (k - 1) as nat)
    } else {
        k
    }
}

/// What to do to find out whether a path is convex: the scan of its verbs
/// without the moves at the end, and a close if the contour is still open.
pub open spec fn convex_ops(m: PathModel) -> Seq<ConvexOp> {
    let s = convex_scan(m, trimmed(m.verbs, m.verbs.len()));
    if s.drawing && !s.closed {
        s.ops.push(ConvexOp::Close)
    } else {
        s.ops
    }
}

impl Path {
    /// What to do to find out whether the path is convex.
    pub fn convexity_ops(&self) -> (r: Vec<ConvexOp>)
        ensures
            r@ == convex_ops(self@),
    {
        let vs = self.verbs();
        let mut n: usize = vs.len();
        while n > 0 && vs[n - 1] == Verb::Move
            invariant
                n <= vs@.len(),
                trimmed(vs@, vs@.len()) == trimmed(vs@, n as nat),
            ensures
                n == trimmed(vs@, vs@.len()),
                n <= vs@.len(),
            decreases n,
        {
            n = n - 1;
        }
        let mut drawing = false;
        let mut closed = false;
        let mut ops: Vec<ConvexOp> = Vec::new();
        assert(ops@ =~= Seq::empty());
        let mut it = self.iter();
        let mut k: usize = 0;
        while k < n
            invariant
                n <= self@.verbs.len(),
                k <= n,
                it.path_model() == self@,
                it.position() == k,
                convex_scan(self@, k as nat) == (ConvexScan { drawing, closed, ops: ops@ }),
            decreases n - k,
        {
            match it.next() {
                Some(e) => {
                    if closed {
                        match e {
                            PathElement::Move(_) => {},
                            _ => {
                                ops.push(ConvexOp::Reject);
                            },
                        }
                    } else {
                        match e {
                            PathElement::Move(p) => {
                                if drawing {
                                    closed = true;
                                    ops.push(ConvexOp::Close);
                                } else {
                                    ops.push(ConvexOp::Start(p));
                                }
                            },
                            PathElement::Close => {
                                drawing = true;
                                closed = true;
                                ops.push(ConvexOp::Close);
                            },
                            PathElement::Line(p) => {
                                drawing = true;
                                ops.push(ConvexOp::Add(p));
                            },
                            PathElement::Quad(c, p) => {
                                drawing = true;
                                ops.push(ConvexOp::Add(c));
                                ops.push(ConvexOp::Add(p));
                            },
                            PathElement::Conic(c, p, _) => {
                                drawing = true;
                                ops.push(ConvexOp::Add(c));
                                ops.push(ConvexOp::Add(p));
                            },
                            PathElement::Cubic(c, d, p) => {
                                drawing = true;
                                ops.push(ConvexOp::Add(c));
                                ops.push(ConvexOp::Add(d));
                                ops.push(ConvexOp::Add(p));
                            },
                        }
                    }
                },
                None => {},
            }
            k = k + 1;
        }
        if drawing && !closed {
            ops.push(ConvexOp::Close);
        }
        ops
    }
}

} // verus!
