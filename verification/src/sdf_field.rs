//! Signed distance fields: how they are made, packed and sampled.

use vstd::prelude::*;
use vstd::slice::slice_subrange;

use crate::arith::{FloatOp, FloatUnit, Ops};
use crate::color_filter::{BYTE_MAX, keep, kept, near_byte, nearest_byte};
use crate::distance::{EdgeDistance, cell, edge_distances, is_nearest};
use crate::float_bits::{
    ONE, bits_max, bits_min, bits_neg, bits_to_int, float_le, float_max, float_min, float_of_int,
    int_of_float, int_to_bits, magnitude, negated,
};
use crate::geometry::{Point, Rect};
use crate::sdf::{bilinear_corners, corners, median, median_of_three};

verus! {

/// The distance where a mask has no edge.
pub const FAR: u32 = 0x7e7f_ffff;

/// The bit pattern of 0.5.
pub const HALF: u32 = 0x3f00_0000;

// ---------------------------------------------------------------------------
// Fields of masks
// ---------------------------------------------------------------------------

/// A squared distance as a float.
pub open spec fn squared_float(f: Ops, d: int) -> u32 {
    if d <= i32::MAX {
        float_of_int(d)
    } else {
        f(
            FloatOp::MulAdd,
            float_of_int(d / 0x100_0000_0000),
            0x5380_0000,
            f(
                FloatOp::MulAdd,
                float_of_int(d % 0x100_0000_0000 / 0x10_0000),
                0x4980_0000,
                float_of_int(d % 0x10_0000),
            ),
        )
    }
}

/// The signed distance to the edge: negative inside, and half a pixel less than
/// the distance to the nearest pixel of the other kind, held within the spread.
pub open spec fn signed_distance(f: Ops, e: EdgeDistance, spread: u32) -> u32 {
    let d = match e.squared {
        Some(d) => squared_float(f, d as int),
        None => FAR,
    };
    let r = f(FloatOp::Sub, f(FloatOp::Sqrt, d, 0, 0), HALF, 0);
    kept(
        if e.inside {
            negated(r)
        } else {
            r
        },
        negated(spread),
        spread,
    )
}

/// Whether `e` tells the squared distance of a place of a mask to the nearest
/// place of the other kind.
pub open spec fn tells_edge(
    mask: Seq<u8>,
    width: int,
    height: int,
    x: int,
    y: int,
    e: EdgeDistance,
) -> bool {
    let inside = mask[cell(x, y, width)] > 127;
    &&& e.inside == inside
    &&& is_nearest(
        Seq::new(mask.len(), |i: int| (mask[i] > 127) != inside),
        width,
        height,
        x,
        y,
        e.squared,
    )
}

/// Whether `v` is the signed distance of a place of a mask to the edge.
pub open spec fn is_signed_distance(
    f: Ops,
    mask: Seq<u8>,
    width: int,
    height: int,
    x: int,
    y: int,
    spread: u32,
    v: u32,
) -> bool {
    exists|e: EdgeDistance| #[trigger]
        tells_edge(mask, width, height, x, y, e) && v == signed_distance(f, e, spread)
}

/// A squared distance as a float.
fn float_of_square<A: Fn(FloatOp, u32, u32, u32) -> u32>(f: &FloatUnit<A>, d: i128) -> (r: u32)
    requires
        f.steady(),
        0 <= d <= 0x4_0000_0000_0000_0000,
    ensures
        r == squared_float(f.ops(), d as int),
{
    if d <= i32::MAX as i128 {
        int_to_bits(d as i32)
    } else {
        let high: u32 = int_to_bits((d / 0x100_0000_0000) as i32);
        let middle: u32 = int_to_bits((d % 0x100_0000_0000 / 0x10_0000) as i32);
        let low: u32 = int_to_bits((d % 0x10_0000) as i32);
        let rest: u32 = f.op(FloatOp::MulAdd, middle, 0x4980_0000, low);
        f.op(FloatOp::MulAdd, high, 0x5380_0000, rest)
    }
}

/// The signed distance to the edge.
fn sign_distance<A: Fn(FloatOp, u32, u32, u32) -> u32>(
    f: &FloatUnit<A>,
    e: EdgeDistance,
    spread: u32,
) -> (r: u32)
    requires
        f.steady(),
        e.squared matches Some(d) ==> 0 <= d <= 0x4_0000_0000_0000_0000,
    ensures
        r == signed_distance(f.ops(), e, spread),
{
    let d: u32 = match e.squared {
        Some(d) => float_of_square(f, d),
        None => FAR,
    };
    let root: u32 = f.op(FloatOp::Sqrt, d, 0, 0);
    let r: u32 = f.op(FloatOp::Sub, root, HALF, 0);
    keep(
        if e.inside {
            bits_neg(r)
        } else {
            r
        },
        bits_neg(spread),
        spread,
    )
}

/// The signed distance field of a mask: the distance of each place to the edge,
/// negative inside. Bytes behind the mask do not count.
pub fn generate_sdf_from_mask<A: Fn(FloatOp, u32, u32, u32) -> u32>(
    f: &FloatUnit<A>,
    mask: &[u8],
    width: u32,
    height: u32,
    spread: u32,
) -> (r: Vec<u32>)
    requires
        f.steady(),
        width * height <= mask@.len(),
        float_le(negated(spread), spread),
    ensures
        r@.len() == width * height,
        forall|x: int, y: int|
            0 <= x < width && 0 <= y < height ==> is_signed_distance(
                f.ops(),
                mask@.take(width * height),
                width as int,
                height as int,
                x,
                y,
                spread,
                #[trigger] r@[cell(x, y, width as int)],
            ),
{
    assert(mask.len() <= usize::MAX);
    let total: usize = width as usize * height as usize;
    let ghost cells = mask@.take(width * height);
    let part: &[u8] = slice_subrange(mask, 0, total);
    assert(part@ =~= cells);
    let es = edge_distances(part, width as usize, height as usize);
    let n: usize = es.len();
    proof {
        assert forall|i: int| 0 <= i < n implies ((#[trigger] es@[i]).squared matches Some(d)
            ==> 0 <= d <= 0x4_0000_0000_0000_0000) by {
            lemma_square_is_small(cells, width as int, height as int, es@, i);
        }
    }
    let mut r: Vec<u32> = Vec::new();
    let mut i: usize = 0;
    while i < n
        invariant
            f.steady(),
            n == es@.len(),
            i <= n,
            forall|i: int|
                0 <= i < n ==> ((#[trigger] es@[i]).squared matches Some(d) ==> 0 <= d
                    <= 0x4_0000_0000_0000_0000),
            r@.len() == i,
            forall|k: int|
                0 <= k < i ==> #[trigger] r@[k] == signed_distance(f.ops(), es@[k], spread),
        decreases n - i,
    {
        assert(es@[i as int].squared matches Some(d) ==> 0 <= d <= 0x4_0000_0000_0000_0000);
        r.push(sign_distance(f, es[i], spread));
        i = i + 1;
    }
    proof {
        assert forall|x: int, y: int| 0 <= x < width && 0 <= y < height implies is_signed_distance(
            f.ops(),
            cells,
            width as int,
            height as int,
            x,
            y,
            spread,
            #[trigger] r@[cell(x, y, width as int)],
        ) by {
            let c = cell(x, y, width as int);
            let e = es@[c];
            lemma_cell_in_range(x, y, width as int, height as int);
            assert(tells_edge(cells, width as int, height as int, x, y, e));
            assert(r@[c] == signed_distance(f.ops(), e, spread));
        }
    }
    r
}

proof fn lemma_cell_in_range(x: int, y: int, w: int, h: int)
    requires
        0 <= x < w,
        0 <= y < h,
    ensures
        0 <= cell(x, y, w) < w * h,
{
    assert(0 <= y * w && y * w + w <= w * h) by (nonlinear_arith)
        requires
            0 <= y <= h - 1,
            0 < w,
    ;
}

/// The squared distances in a mask fit in a few bytes.
proof fn lemma_square_is_small(mask: Seq<u8>, w: int, h: int, es: Seq<EdgeDistance>, i: int)
    requires
        0 <= w <= u32::MAX,
        0 <= h <= u32::MAX,
        mask.len() == w * h,
        es.len() == mask.len(),
        0 <= i < es.len(),
        forall|x: int, y: int|
            0 <= x < w && 0 <= y < h ==> tells_edge(
                mask,
                w,
                h,
                x,
                y,
                #[trigger] es[cell(x, y, w)],
            ),
    ensures
        es[i].squared matches Some(d) ==> 0 <= d <= 0x4_0000_0000_0000_0000,
{
    assert(0 < w && 0 < h) by (nonlinear_arith)
        requires
            0 < w * h,
            0 <= w,
            0 <= h,
    ;
    let x = i % w;
    let y = i / w;
    vstd::arithmetic::div_mod::lemma_fundamental_div_mod(i, w);
    assert(0 <= y < h && y * w + x == i) by (nonlinear_arith)
        requires
            0 <= i < w * h,
            0 < w,
            i == w * y + x,
            0 <= x < w,
    ;
    assert(cell(x, y, w) == i);
    assert(tells_edge(mask, w, h, x, y, es[cell(x, y, w)]));
    let on = Seq::new(mask.len(), |k: int| (mask[k] > 127) != (mask[i] > 127));
    assert(is_nearest(on, w, h, x, y, es[i].squared));
    if let Some(d) = es[i].squared {
        assert(exists|a: int, b: int|
            crate::distance::source(on, a, b, w, h) && d == #[trigger] crate::distance::squared(
                x,
                y,
                a,
                b,
            ));
        let (a, b): (int, int) = choose|a: int, b: int|
            crate::distance::source(on, a, b, w, h) && d == #[trigger] crate::distance::squared(
                x,
                y,
                a,
                b,
            );
        let p = x - a;
        let q = y - b;
        assert(0 <= p * p <= 0x1_0000_0000_0000_0000 && 0 <= q * q <= 0x1_0000_0000_0000_0000)
            by (nonlinear_arith)
            requires
                -0x1_0000_0000 <= p <= 0x1_0000_0000,
                -0x1_0000_0000 <= q <= 0x1_0000_0000,
        ;
    }
}

// ---------------------------------------------------------------------------
// Fields of shapes
// ---------------------------------------------------------------------------

/// The middle of a pixel on an axis.
pub open spec fn pixel_middle(f: Ops, x: u32) -> u32 {
    f(FloatOp::Add, f(FloatOp::OfNatural, x, 0, 0), HALF, 0)
}

/// The distance of the middle of a pixel to a circle in the middle of a square
/// field.
pub open spec fn circle_distance(f: Ops, size: u32, radius: u32, x: u32, y: u32) -> u32 {
    let center = f(FloatOp::Mul, f(FloatOp::OfNatural, size, 0, 0), HALF, 0);
    f(
        FloatOp::Sub,
        f(
            FloatOp::Hypot,
            f(FloatOp::Sub, pixel_middle(f, x), center, 0),
            f(FloatOp::Sub, pixel_middle(f, y), center, 0),
            0,
        ),
        radius,
        0,
    )
}

/// How far a coordinate lies beyond the straight part of a side.
pub open spec fn beyond(f: Ops, v: u32, center: u32, lo: u32, hi: u32, radius: u32) -> u32 {
    f(
        FloatOp::Sub,
        magnitude(f(FloatOp::Sub, v, center, 0)) as u32,
        f(FloatOp::MulAdd, f(FloatOp::Sub, hi, lo, 0), HALF, negated(radius)),
        0,
    )
}

/// The distance of the middle of a pixel to a rectangle with round corners.
pub open spec fn rounded_distance(
    f: Ops,
    rect: Rect,
    center: Point,
    radius: u32,
    x: u32,
    y: u32,
) -> u32 {
    let dx = beyond(f, pixel_middle(f, x), center.x, rect.left, rect.right, radius);
    let dy = beyond(f, pixel_middle(f, y), center.y, rect.top, rect.bottom, radius);
    f(
        FloatOp::Sub,
        f(
            FloatOp::Add,
            f(FloatOp::Hypot, float_max(dx, 0), float_max(dy, 0), 0),
            float_min(float_max(dx, dy), 0),
            0,
        ),
        radius,
        0,
    )
}

/// The middle of a pixel on an axis.
fn middle_of<A: Fn(FloatOp, u32, u32, u32) -> u32>(f: &FloatUnit<A>, x: u32) -> (r: u32)
    requires
        f.steady(),
    ensures
        r == pixel_middle(f.ops(), x),
{
    let n: u32 = f.op(FloatOp::OfNatural, x, 0, 0);
    f.op(FloatOp::Add, n, HALF, 0)
}

/// How far a coordinate lies beyond the straight part of a side.
fn reach_beyond<A: Fn(FloatOp, u32, u32, u32) -> u32>(
    f: &FloatUnit<A>,
    v: u32,
    center: u32,
    lo: u32,
    hi: u32,
    radius: u32,
) -> (r: u32)
    requires
        f.steady(),
    ensures
        r == beyond(f.ops(), v, center, lo, hi, radius),
{
    let d: u32 = f.op(FloatOp::Sub, v, center, 0);
    let side: u32 = f.op(FloatOp::Sub, hi, lo, 0);
    let half: u32 = f.op(FloatOp::MulAdd, side, HALF, bits_neg(radius));
    f.op(FloatOp::Sub, d % 0x8000_0000, half, 0)
}

/// The distance of the middle of a pixel to a circle.
fn measure_circle<A: Fn(FloatOp, u32, u32, u32) -> u32>(
    f: &FloatUnit<A>,
    size: u32,
    radius: u32,
    x: u32,
    y: u32,
) -> (r: u32)
    requires
        f.steady(),
    ensures
        r == circle_distance(f.ops(), size, radius, x, y),
{
    let n: u32 = f.op(FloatOp::OfNatural, size, 0, 0);
    let center: u32 = f.op(FloatOp::Mul, n, HALF, 0);
    let dx: u32 = f.op(FloatOp::Sub, middle_of(f, x), center, 0);
    let dy: u32 = f.op(FloatOp::Sub, middle_of(f, y), center, 0);
    let h: u32 = f.op(FloatOp::Hypot, dx, dy, 0);
    f.op(FloatOp::Sub, h, radius, 0)
}

/// The distance of the middle of a pixel to a rectangle with round corners.
fn measure_rounded<A: Fn(FloatOp, u32, u32, u32) -> u32>(
    f: &FloatUnit<A>,
    rect: Rect,
    center: Point,
    radius: u32,
    x: u32,
    y: u32,
) -> (r: u32)
    requires
        f.steady(),
    ensures
        r == rounded_distance(f.ops(), rect, center, radius, x, y),
{
    let dx: u32 = reach_beyond(f, middle_of(f, x), center.x, rect.left, rect.right, radius);
    let dy: u32 = reach_beyond(f, middle_of(f, y), center.y, rect.top, rect.bottom, radius);
    let outside: u32 = f.op(FloatOp::Hypot, bits_max(dx, 0), bits_max(dy, 0), 0);
    let inside: u32 = bits_min(bits_max(dx, dy), 0);
    let sum: u32 = f.op(FloatOp::Add, outside, inside, 0);
    f.op(FloatOp::Sub, sum, radius, 0)
}

/// The distances of a square field, row by row.
pub open spec fn square_field(size: u32, at: spec_fn(u32, u32) -> u32) -> Seq<u32> {
    Seq::new(
        (size * size) as nat,
        |i: int| at((i % size as int) as u32, (i / size as int) as u32),
    )
}

proof fn lemma_square_index(size: u32, n: int, i: int)
    requires
        n == size * size,
        0 <= i < n,
    ensures
        0 < size,
        0 <= i / size as int,
        i / (size as int) < size,
{
    let s = size as int;
    assert(0 < s) by (nonlinear_arith)
        requires
            0 < s * s,
            0 <= s,
    ;
    vstd::arithmetic::div_mod::lemma_fundamental_div_mod(i, s);
    assert(0 <= i / s < s) by (nonlinear_arith)
        requires
            0 <= i < s * s,
            0 < s,
            i == s * (i / s) + i % s,
            0 <= i % s < s,
    ;
}

/// The distance field of a circle in the middle of a square.
pub fn generate_circle_sdf<A: Fn(FloatOp, u32, u32, u32) -> u32>(
    f: &FloatUnit<A>,
    size: u32,
    radius: u32,
) -> (r: Vec<u32>)
    requires
        f.steady(),
        size * size <= u32::MAX,
    ensures
        r@ == square_field(
            size,
            |x: u32, y: u32| circle_distance(f.ops(), size, radius, x, y),
        ),
{
    let ghost at = |x: u32, y: u32| circle_distance(f.ops(), size, radius, x, y);
    assert(0 <= size * size) by (nonlinear_arith)
        requires
            0 <= size,
    ;
    let n: u32 = size * size;
    let mut r: Vec<u32> = Vec::new();
    let mut i: u32 = 0;
    while i < n
        invariant
            f.steady(),
            n == size * size,
            i <= n,
            at == (|x: u32, y: u32| circle_distance(f.ops(), size, radius, x, y)),
            r@.len() == i,
            forall|k: int| 0 <= k < i ==> #[trigger] r@[k] == square_field(size, at)[k],
        decreases n - i,
    {
        proof {
            lemma_square_index(size, n as int, i as int);
        }
        r.push(measure_circle(f, size, radius, i % size, i / size));
        i = i + 1;
    }
    assert(r@ =~= square_field(size, at));
    r
}

/// The distance field of a rectangle with round corners. `center` is the middle
/// of the rectangle.
pub fn generate_rounded_rect_sdf<A: Fn(FloatOp, u32, u32, u32) -> u32>(
    f: &FloatUnit<A>,
    size: u32,
    rect: Rect,
    center: Point,
    radius: u32,
) -> (r: Vec<u32>)
    requires
        f.steady(),
        size * size <= u32::MAX,
    ensures
        r@ == square_field(
            size,
            |x: u32, y: u32| rounded_distance(f.ops(), rect, center, radius, x, y),
        ),
{
    let ghost at = |x: u32, y: u32| rounded_distance(f.ops(), rect, center, radius, x, y);
    assert(0 <= size * size) by (nonlinear_arith)
        requires
            0 <= size,
    ;
    let n: u32 = size * size;
    let mut r: Vec<u32> = Vec::new();
    let mut i: u32 = 0;
    while i < n
        invariant
            f.steady(),
            n == size * size,
            i <= n,
            at == (|x: u32, y: u32| rounded_distance(f.ops(), rect, center, radius, x, y)),
            r@.len() == i,
            forall|k: int| 0 <= k < i ==> #[trigger] r@[k] == square_field(size, at)[k],
        decreases n - i,
    {
        proof {
            lemma_square_index(size, n as int, i as int);
        }
        r.push(measure_rounded(f, rect, center, radius, i % size, i / size));
        i = i + 1;
    }
    assert(r@ =~= square_field(size, at));
    r
}

// ---------------------------------------------------------------------------
// Textures
// ---------------------------------------------------------------------------

/// A distance as a byte: the edge is at 128, and inside is above it.
pub open spec fn packed_distance(f: Ops, d: u32, spread: u32) -> u8 {
    let mag = float_max(spread, 0x3586_37bd);
    let top = f(FloatOp::Div, f(FloatOp::Mul, mag, 0x42fe_0000, 0), 0x4300_0000, 0);
    let shifted = f(FloatOp::Add, kept(negated(d), negated(mag), top), mag, 0);
    near_byte(
        f(
            FloatOp::Mul,
            f(FloatOp::Div, shifted, f(FloatOp::Mul, 0x4000_0000, mag, 0), 0),
            0x4380_0000,
            0,
        ),
    )
}

/// A distance as a byte.
fn pack_distance<A: Fn(FloatOp, u32, u32, u32) -> u32>(f: &FloatUnit<A>, d: u32, spread: u32) -> (r:
    u8)
    requires
        f.steady(),
    ensures
        r == packed_distance(f.ops(), d, spread),
{
    let mag: u32 = bits_max(spread, 0x3586_37bd);
    let m: u32 = f.op(FloatOp::Mul, mag, 0x42fe_0000, 0);
    let top: u32 = f.op(FloatOp::Div, m, 0x4300_0000, 0);
    let shifted: u32 = f.op(FloatOp::Add, keep(bits_neg(d), bits_neg(mag), top), mag, 0);
    let width: u32 = f.op(FloatOp::Mul, 0x4000_0000, mag, 0);
    let part: u32 = f.op(FloatOp::Div, shifted, width, 0);
    nearest_byte(f.op(FloatOp::Mul, part, 0x4380_0000, 0))
}

/// A distance field as a texture of one byte for each place.
pub fn sdf_to_texture<A: Fn(FloatOp, u32, u32, u32) -> u32>(
    f: &FloatUnit<A>,
    sdf: &[u32],
    spread: u32,
) -> (r: Vec<u8>)
    requires
        f.steady(),
    ensures
        r@ == Seq::new(sdf@.len(), |i: int| packed_distance(f.ops(), sdf@[i], spread)),
{
    let mut r: Vec<u8> = Vec::new();
    let mut i: usize = 0;
    while i < sdf.len()
        invariant
            f.steady(),
            i <= sdf@.len(),
            r@.len() == i,
            forall|k: int|
                0 <= k < i ==> #[trigger] r@[k] == packed_distance(f.ops(), sdf@[k], spread),
        decreases sdf@.len() - i,
    {
        r.push(pack_distance(f, sdf[i], spread));
        i = i + 1;
    }
    assert(r@ =~= Seq::new(sdf@.len(), |i: int| packed_distance(f.ops(), sdf@[i], spread)));
    r
}

// ---------------------------------------------------------------------------
// Samples
// ---------------------------------------------------------------------------

/// A field between its samples, by bilinear interpolation.
pub open spec fn sampled(f: Ops, sdf: Seq<u32>, width: int, height: int, x: u32, y: u32) -> u32 {
    let floor_x = f(FloatOp::Floor, x, 0, 0);
    let floor_y = f(FloatOp::Floor, y, 0, 0);
    let c = corners(width, height, int_of_float(floor_x), int_of_float(floor_y));
    let fx = f(FloatOp::Sub, x, floor_x, 0);
    let fy = f(FloatOp::Sub, y, floor_y, 0);
    let gx = f(FloatOp::Sub, ONE, fx, 0);
    let d0 = f(FloatOp::MulAdd, sdf[c[0]], gx, f(FloatOp::Mul, sdf[c[1]], fx, 0));
    let d1 = f(FloatOp::MulAdd, sdf[c[2]], gx, f(FloatOp::Mul, sdf[c[3]], fx, 0));
    f(
        FloatOp::Add,
        f(FloatOp::Mul, d0, f(FloatOp::Sub, ONE, fy, 0), 0),
        f(FloatOp::Mul, d1, fy, 0),
        0,
    )
}

/// A field between its samples, by bilinear interpolation.
pub fn sample_sdf_bilinear<A: Fn(FloatOp, u32, u32, u32) -> u32>(
    f: &FloatUnit<A>,
    sdf: &[u32],
    width: u32,
    height: u32,
    x: u32,
    y: u32,
) -> (r: u32)
    requires
        f.steady(),
        0 < width <= i32::MAX,
        0 < height <= i32::MAX,
        width * height <= sdf@.len(),
    ensures
        r == sampled(f.ops(), sdf@, width as int, height as int, x, y),
{
    let n: usize = sdf.len();
    let floor_x: u32 = f.op(FloatOp::Floor, x, 0, 0);
    let floor_y: u32 = f.op(FloatOp::Floor, y, 0, 0);
    let ix: i32 = bits_to_int(floor_x);
    let iy: i32 = bits_to_int(floor_y);
    let c = bilinear_corners(width, height, ix, iy);
    let ghost cs = corners(width as int, height as int, ix as int, iy as int);
    assert(cs[0] == c@[0] && cs[1] == c@[1] && cs[2] == c@[2] && cs[3] == c@[3]);
    assert(c@[0] < width * height && c@[1] < width * height && c@[2] < width * height && c@[3]
        < width * height);
    let fx: u32 = f.op(FloatOp::Sub, x, floor_x, 0);
    let fy: u32 = f.op(FloatOp::Sub, y, floor_y, 0);
    let gx: u32 = f.op(FloatOp::Sub, ONE, fx, 0);
    let gy: u32 = f.op(FloatOp::Sub, ONE, fy, 0);
    let m0: u32 = f.op(FloatOp::Mul, sdf[c[1]], fx, 0);
    let d0: u32 = f.op(FloatOp::MulAdd, sdf[c[0]], gx, m0);
    let m1: u32 = f.op(FloatOp::Mul, sdf[c[3]], fx, 0);
    let d1: u32 = f.op(FloatOp::MulAdd, sdf[c[2]], gx, m1);
    let top: u32 = f.op(FloatOp::Mul, d0, gy, 0);
    let bottom: u32 = f.op(FloatOp::Mul, d1, fy, 0);
    f.op(FloatOp::Add, top, bottom, 0)
}

// ---------------------------------------------------------------------------
// Fields with several channels
// ---------------------------------------------------------------------------

/// A distance field with three channels.
#[derive(Debug)]
pub struct MsdfData {
    /// Red channel.
    pub r: Vec<u32>,
    /// Green channel.
    pub g: Vec<u32>,
    /// Blue channel.
    pub b: Vec<u32>,
    /// Width.
    pub width: u32,
    /// Height.
    pub height: u32,
}

/// A distance of one of several channels as a byte.
pub open spec fn channel_byte(f: Ops, d: u32, spread: u32) -> u8 {
    let m = f(FloatOp::Midpoint, f(FloatOp::Div, d, spread, 0), ONE, 0);
    near_byte(f(FloatOp::Mul, kept(m, 0, ONE), BYTE_MAX, 0))
}

/// A distance of one of several channels as a byte.
fn pack_channel<A: Fn(FloatOp, u32, u32, u32) -> u32>(f: &FloatUnit<A>, d: u32, spread: u32) -> (r:
    u8)
    requires
        f.steady(),
    ensures
        r == channel_byte(f.ops(), d, spread),
{
    let q: u32 = f.op(FloatOp::Div, d, spread, 0);
    let m: u32 = f.op(FloatOp::Midpoint, q, ONE, 0);
    nearest_byte(f.op(FloatOp::Mul, keep(m, 0, ONE), BYTE_MAX, 0))
}

/// Zeros.
fn zeros(n: u32) -> (r: Vec<u32>)
    ensures
        r@ == Seq::new(n as nat, |i: int| 0u32),
{
    let mut r: Vec<u32> = Vec::new();
    let mut i: u32 = 0;
    while i < n
        invariant
            i <= n,
            r@ == Seq::new(i as nat, |i: int| 0u32),
        decreases n - i,
    {
        r.push(0);
        assert(r@ =~= Seq::new((i + 1) as nat, |i: int| 0u32));
        i = i + 1;
    }
    r
}

impl MsdfData {
    /// Whether every channel has a distance for every place.
    pub open spec fn complete(self) -> bool {
        &&& self.width * self.height <= u32::MAX
        &&& self.r@.len() == self.width * self.height
        &&& self.g@.len() == self.width * self.height
        &&& self.b@.len() == self.width * self.height
    }

    /// A field of zeros.
    pub fn new(width: u32, height: u32) -> (r: MsdfData)
        requires
            width * height <= u32::MAX,
        ensures
            r.complete(),
            r.width == width,
            r.height == height,
            r.r@ == Seq::new((width * height) as nat, |i: int| 0u32),
            r.g@ == r.r@,
            r.b@ == r.r@,
    {
        assert(0 <= width * height) by (nonlinear_arith)
            requires
                0 <= width,
                0 <= height,
        ;
        let n: u32 = width * height;
        MsdfData { r: zeros(n), g: zeros(n), b: zeros(n), width, height }
    }

    /// The field as a texture of three bytes for each place.
    pub fn to_texture<A: Fn(FloatOp, u32, u32, u32) -> u32>(&self, f: &FloatUnit<A>, spread: u32) -> (r:
        Vec<u8>)
        requires
            f.steady(),
            self.complete(),
            self.width * self.height * 3 <= usize::MAX,
        ensures
            r@ == Seq::new(
                3 * self.r@.len(),
                |i: int|
                    if i % 3 == 0 {
                        channel_byte(f.ops(), self.r@[i / 3], spread)
                    } else if i % 3 == 1 {
                        channel_byte(f.ops(), self.g@[i / 3], spread)
                    } else {
                        channel_byte(f.ops(), self.b@[i / 3], spread)
                    },
            ),
    {
        let n: usize = self.r.len();
        let mut data: Vec<u8> = Vec::new();
        let mut i: usize = 0;
        while i < n
            invariant
                f.steady(),
                n == self.r@.len(),
                n == self.g@.len(),
                n == self.b@.len(),
                i <= n,
                data@.len() == 3 * i,
                forall|k: int|
                    0 <= k < 3 * i ==> #[trigger] data@[k] == if k % 3 == 0 {
                        channel_byte(f.ops(), self.r@[k / 3], spread)
                    } else if k % 3 == 1 {
                        channel_byte(f.ops(), self.g@[k / 3], spread)
                    } else {
                        channel_byte(f.ops(), self.b@[k / 3], spread)
                    },
            decreases n - i,
        {
            data.push(pack_channel(f, self.r[i], spread));
            data.push(pack_channel(f, self.g[i], spread));
            data.push(pack_channel(f, self.b[i], spread));
            i = i + 1;
        }
        assert(data@ =~= Seq::new(
            3 * self.r@.len(),
            |i: int|
                if i % 3 == 0 {
                    channel_byte(f.ops(), self.r@[i / 3], spread)
                } else if i % 3 == 1 {
                    channel_byte(f.ops(), self.g@[i / 3], spread)
                } else {
                    channel_byte(f.ops(), self.b@[i / 3], spread)
                },
        ));
        data
    }

    /// The median of the three channels at a position.
    pub fn sample_median<A: Fn(FloatOp, u32, u32, u32) -> u32>(
        &self,
        f: &FloatUnit<A>,
        x: u32,
        y: u32,
    ) -> (m: u32)
        requires
            f.steady(),
            self.complete(),
            0 < self.width <= i32::MAX,
            0 < self.height <= i32::MAX,
        ensures
            m == median(
                sampled(f.ops(), self.r@, self.width as int, self.height as int, x, y),
                sampled(f.ops(), self.g@, self.width as int, self.height as int, x, y),
                sampled(f.ops(), self.b@, self.width as int, self.height as int, x, y),
            ),
    {
        let r: u32 = sample_sdf_bilinear(f, self.r.as_slice(), self.width, self.height, x, y);
        let g: u32 = sample_sdf_bilinear(f, self.g.as_slice(), self.width, self.height, x, y);
        let b: u32 = sample_sdf_bilinear(f, self.b.as_slice(), self.width, self.height, x, y);
        median_of_three(r, g, b)
    }
}

} // verus!
