//! Points, colors, rectangles and matrices made of float bit patterns.

use vstd::prelude::*;

verus! {

/// A point.
#[derive(Debug, Clone, Copy, PartialEq, Eq, Structural)]
pub struct Point {
    /// Horizontal coordinate.
    pub x: u32,
    /// Vertical coordinate.
    pub y: u32,
}

/// A color with straight alpha.
#[derive(Debug, Clone, Copy, PartialEq, Eq, Structural)]
pub struct Color4f {
    /// Red.
    pub r: u32,
    /// Green.
    pub g: u32,
    /// Blue.
    pub b: u32,
    /// Alpha.
    pub a: u32,
}

/// A rectangle given by its edges.
#[derive(Debug, Clone, Copy, PartialEq, Eq, Structural)]
pub struct Rect {
    /// Left edge.
    pub left: u32,
    /// Top edge.
    pub top: u32,
    /// Right edge.
    pub right: u32,
    /// Bottom edge.
    pub bottom: u32,
}

/// A 3x3 matrix, row by row.
#[derive(Debug, Clone, Copy)]
pub struct Matrix {
    /// The nine entries.
    pub values: [u32; 9],
}

impl View for Matrix {
    type V = Seq<u32>;

    open spec fn view(&self) -> Seq<u32> {
        self.values@
    }
}

/// The entries of an optional matrix.
pub open spec fn opt_matrix(m: Option<Matrix>) -> Option<Seq<u32>> {
    match m {
        None => None,
        Some(x) => Some(x@),
    }
}

} // verus!
