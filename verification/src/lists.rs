//! Short lists that keep their first elements in place.
//!
//! The elements live in vectors of the `smallvec` crate, whose type Verus
//! cannot declare because of the bound on its parameter. Each list therefore
//! hides its vector, and a name stands for what it holds.

use smallvec::SmallVec;
use vstd::prelude::*;

use crate::geometry::Point;

verus! {

/// A command of a path.
#[derive(Debug, Clone, Copy, PartialEq, Eq, Structural)]
pub enum Verb {
    /// Move to a point.
    Move,
    /// Line to a point.
    Line,
    /// Quadratic curve.
    Quad,
    /// Conic curve: a quadratic curve with a weight.
    Conic,
    /// Cubic curve.
    Cubic,
    /// Close the contour.
    Close,
}

/// The verbs of a path.
#[verifier::external_body]
#[derive(Debug)]
pub struct VerbList {
    items: SmallVec<[Verb; 16]>,
}

/// The verbs that a list holds, in order.
pub uninterp spec fn verbs_in(v: VerbList) -> Seq<Verb>;

impl View for VerbList {
    type V = Seq<Verb>;

    open spec fn view(&self) -> Seq<Verb> {
        verbs_in(*self)
    }
}

impl VerbList {
    /// An empty list. Trusted: `smallvec::SmallVec::new` makes a vector that
    /// holds nothing.
    #[verifier::external_body]
    pub(crate) fn new() -> (v: VerbList)
        ensures
            verbs_in(v) == Seq::<Verb>::empty(),
    {
        VerbList { items: SmallVec::new() }
    }

    /// Appends a verb. Trusted: `smallvec::SmallVec::push` puts the value
    /// behind the others and leaves those as they are.
    #[verifier::external_body]
    pub(crate) fn push(&mut self, x: Verb)
        ensures
            verbs_in(*final(self)) == verbs_in(*old(self)).push(x),
    {
        self.items.push(x);
    }

    /// The list as a slice. Trusted: `smallvec::SmallVec::as_slice` gives the
    /// values in order.
    #[verifier::external_body]
    pub(crate) fn as_slice(&self) -> (s: &[Verb])
        ensures
            s@ == verbs_in(*self),
    {
        self.items.as_slice()
    }
}

/// The points of a path.
#[verifier::external_body]
#[derive(Debug)]
pub struct PointList {
    items: SmallVec<[Point; 32]>,
}

/// The points that a list holds, in order.
pub uninterp spec fn points_in(v: PointList) -> Seq<Point>;

impl View for PointList {
    type V = Seq<Point>;

    open spec fn view(&self) -> Seq<Point> {
        points_in(*self)
    }
}

impl PointList {
    /// An empty list. Trusted: `smallvec::SmallVec::new` makes a vector that
    /// holds nothing.
    #[verifier::external_body]
    pub(crate) fn new() -> (v: PointList)
        ensures
            points_in(v) == Seq::<Point>::empty(),
    {
        PointList { items: SmallVec::new() }
    }

    /// Appends a point. Trusted: `smallvec::SmallVec::push` puts the value
    /// behind the others and leaves those as they are.
    #[verifier::external_body]
    pub(crate) fn push(&mut self, x: Point)
        ensures
            points_in(*final(self)) == points_in(*old(self)).push(x),
    {
        self.items.push(x);
    }

    /// The list as a slice. Trusted: `smallvec::SmallVec::as_slice` gives the
    /// values in order.
    #[verifier::external_body]
    pub(crate) fn as_slice(&self) -> (s: &[Point])
        ensures
            s@ == points_in(*self),
    {
        self.items.as_slice()
    }
}

/// The weights of a path's conic curves.
#[verifier::external_body]
#[derive(Debug)]
pub struct WeightList {
    items: SmallVec<[u32; 4]>,
}

/// The weights that a list holds, in order.
pub uninterp spec fn weights_in(v: WeightList) -> Seq<u32>;

impl View for WeightList {
    type V = Seq<u32>;

    open spec fn view(&self) -> Seq<u32> {
        weights_in(*self)
    }
}

impl WeightList {
    /// An empty list. Trusted: `smallvec::SmallVec::new` makes a vector that
    /// holds nothing.
    #[verifier::external_body]
    pub(crate) fn new() -> (v: WeightList)
        ensures
            weights_in(v) == Seq::<u32>::empty(),
    {
        WeightList { items: SmallVec::new() }
    }

    /// Appends a weight. Trusted: `smallvec::SmallVec::push` puts the value
    /// behind the others and leaves those as they are.
    #[verifier::external_body]
    pub(crate) fn push(&mut self, x: u32)
        ensures
            weights_in(*final(self)) == weights_in(*old(self)).push(x),
    {
        self.items.push(x);
    }

    /// The list as a slice. Trusted: `smallvec::SmallVec::as_slice` gives the
    /// values in order.
    #[verifier::external_body]
    pub(crate) fn as_slice(&self) -> (s: &[u32])
        ensures
            s@ == weights_in(*self),
    {
        self.items.as_slice()
    }
}

} // verus!
