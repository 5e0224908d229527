//! What gradients, images and color matrices show.

use vstd::prelude::*;

use crate::arith::{FloatOp, Ops};
use crate::color_filter::{
    BYTE_MAX, contrast_matrix, matrix_color, matrix_row, saturation_matrix,
};
use crate::exact::{
    amount, constants_stand_for_numbers, exact, lemma_add, lemma_blend, lemma_div, lemma_floor,
    lemma_hypot, lemma_mul, lemma_mul_add, lemma_one, lemma_rem, lemma_sub, negation_is_opposite, one,
    patterns_order_as_numbers, stands_for, whole_numbers_are_floats,
    whole_numbers_truncate_to_themselves,
};
use crate::filter::brightness_matrix;
use crate::filter_laws::lemma_byte_max;
use crate::float_bits::{ONE, float_lt, float_of_int, is_finite, negated};
use crate::geometry::{Color4f, Point};
use crate::sampling::{
    Spot, dot2, even_spot, fraction, gap_from, image_color, image_tile, linear_color, mixed,
    pinned, pixel_color, pixel_index, premultiplied, radial_color, ramp_color, spot, squares, texel,
    tiled_color,
};
use crate::shader::{ImageInfo, ImageShader, RampModel, TileMode};
use crate::value_laws::is_single_one;

verus! {

// ---------------------------------------------------------------------------
// Colors
// ---------------------------------------------------------------------------

/// The channels of a color: red, green, blue and alpha.
pub open spec fn channels_of(c: Color4f) -> Seq<u32> {
    seq![c.r, c.g, c.b, c.a]
}

/// Whether a color stands for the same numbers as another.
pub open spec fn same_color(c: Color4f, d: Color4f) -> bool {
    &&& stands_for(c.r, amount(d.r))
    &&& stands_for(c.g, amount(d.g))
    &&& stands_for(c.b, amount(d.b))
    &&& stands_for(c.a, amount(d.a))
}

/// Whether the channels of a color are numbers.
pub open spec fn is_color(c: Color4f) -> bool {
    is_finite(c.r) && is_finite(c.g) && is_finite(c.b) && is_finite(c.a)
}

/// Whether a color covers what is behind it.
pub open spec fn is_opaque(c: Color4f) -> bool {
    is_color(c) && amount(c.a) == one()
}

/// The channels of a color are multiplied by its alpha, which stays.
pub proof fn colors_are_multiplied_by_alpha(f: Ops, c: Color4f, d: Color4f)
    requires
        exact(f),
        is_color(c),
        is_color(d),
        amount(d.r) * one() == amount(c.r) * amount(c.a),
        amount(d.g) * one() == amount(c.g) * amount(c.a),
        amount(d.b) * one() == amount(c.b) * amount(c.a),
        amount(d.a) == amount(c.a),
    ensures
        same_color(premultiplied(f, c), d),
{
    lemma_mul(f, c.r, c.a, d.r);
    lemma_mul(f, c.g, c.a, d.g);
    lemma_mul(f, c.b, c.a, d.b);
}

proof fn lemma_opaque(f: Ops, c: Color4f)
    requires
        exact(f),
        is_opaque(c),
    ensures
        same_color(premultiplied(f, c), c),
{
    colors_are_multiplied_by_alpha(f, c, c);
}

/// A mixture of two colors is the first one at zero and the second one at one.
pub proof fn mixtures_end_in_their_colors(f: Ops, a: Color4f, b: Color4f, d: Color4f, t: u32)
    requires
        exact(f),
        is_color(a),
        is_color(b),
        is_color(d),
        amount(d.r) == amount(b.r) - amount(a.r),
        amount(d.g) == amount(b.g) - amount(a.g),
        amount(d.b) == amount(b.b) - amount(a.b),
        amount(d.a) == amount(b.a) - amount(a.a),
        is_finite(t),
    ensures
        amount(t) == 0 ==> same_color(mixed(f, a, b, t), a),
        amount(t) == one() ==> same_color(mixed(f, a, b, t), b),
{
    if amount(t) == 0 {
        lemma_blend_start(f, a.r, b.r, t, d.r);
        lemma_blend_start(f, a.g, b.g, t, d.g);
        lemma_blend_start(f, a.b, b.b, t, d.b);
        lemma_blend_start(f, a.a, b.a, t, d.a);
    }
    if amount(t) == one() {
        lemma_blend_end(f, a.r, b.r, t, d.r);
        lemma_blend_end(f, a.g, b.g, t, d.g);
        lemma_blend_end(f, a.b, b.b, t, d.b);
        lemma_blend_end(f, a.a, b.a, t, d.a);
    }
}

proof fn lemma_blend_start(f: Ops, a: u32, b: u32, t: u32, d: u32)
    requires
        exact(f),
        is_finite(a),
        is_finite(b),
        stands_for(t, 0),
        stands_for(d, amount(b) - amount(a)),
    ensures
        stands_for(f(FloatOp::Blend, a, b, t), amount(a)),
{
    assert(amount(a) * one() == amount(d) * amount(t) + amount(a) * one()) by (nonlinear_arith)
        requires
            amount(t) == 0,
    ;
    lemma_blend(f, a, b, t, d, a);
}

proof fn lemma_blend_end(f: Ops, a: u32, b: u32, t: u32, d: u32)
    requires
        exact(f),
        is_finite(a),
        is_finite(b),
        stands_for(t, one()),
        stands_for(d, amount(b) - amount(a)),
    ensures
        stands_for(f(FloatOp::Blend, a, b, t), amount(b)),
{
    assert(amount(b) * one() == amount(d) * amount(t) + amount(a) * one()) by (nonlinear_arith)
        requires
            amount(t) == one(),
            amount(d) == amount(b) - amount(a),
    ;
    lemma_blend(f, a, b, t, d, b);
}

/// A channel between two others lies between them in the given ratio.
pub proof fn mixtures_follow_the_ratio(f: Ops, a: Color4f, b: Color4f, d: Color4f, t: u32, v: Color4f)
    requires
        exact(f),
        is_color(a),
        is_color(b),
        is_color(d),
        is_color(v),
        is_finite(t),
        amount(d.r) == amount(b.r) - amount(a.r),
        amount(d.g) == amount(b.g) - amount(a.g),
        amount(d.b) == amount(b.b) - amount(a.b),
        amount(d.a) == amount(b.a) - amount(a.a),
        amount(v.r) * one() == amount(a.r) * (one() - amount(t)) + amount(b.r) * amount(t),
        amount(v.g) * one() == amount(a.g) * (one() - amount(t)) + amount(b.g) * amount(t),
        amount(v.b) * one() == amount(a.b) * (one() - amount(t)) + amount(b.b) * amount(t),
        amount(v.a) * one() == amount(a.a) * (one() - amount(t)) + amount(b.a) * amount(t),
    ensures
        same_color(mixed(f, a, b, t), v),
{
    lemma_blend_ratio(f, a.r, b.r, t, d.r, v.r);
    lemma_blend_ratio(f, a.g, b.g, t, d.g, v.g);
    lemma_blend_ratio(f, a.b, b.b, t, d.b, v.b);
    lemma_blend_ratio(f, a.a, b.a, t, d.a, v.a);
}

proof fn lemma_blend_ratio(f: Ops, a: u32, b: u32, t: u32, d: u32, v: u32)
    requires
        exact(f),
        is_finite(a),
        is_finite(b),
        is_finite(t),
        is_finite(v),
        stands_for(d, amount(b) - amount(a)),
        amount(v) * one() == amount(a) * (one() - amount(t)) + amount(b) * amount(t),
    ensures
        stands_for(f(FloatOp::Blend, a, b, t), amount(v)),
{
    assert(amount(v) * one() == amount(d) * amount(t) + amount(a) * one()) by (nonlinear_arith)
        requires
            amount(v) * one() == amount(a) * (one() - amount(t)) + amount(b) * amount(t),
            amount(d) == amount(b) - amount(a),
    ;
    lemma_blend(f, a, b, t, d, v);
}

// ---------------------------------------------------------------------------
// Gradients
// ---------------------------------------------------------------------------

/// Whether the differences of the colors of a gradient are floats.
pub open spec fn is_smooth(r: RampModel, d: Seq<Color4f>) -> bool {
    &&& d.len() == r.colors.len()
    &&& forall|i: int|
        0 <= i < r.colors.len() ==> is_opaque(#[trigger] r.colors[i])
    &&& forall|i: int|
        0 <= i < r.colors.len() - 1 ==> is_difference(
            #[trigger] d[i],
            r.colors[i],
            r.colors[i + 1],
        )
}

/// Whether a color holds the differences of the channels of two others.
pub open spec fn is_difference(d: Color4f, a: Color4f, b: Color4f) -> bool {
    &&& is_color(d)
    &&& amount(d.r) == amount(b.r) - amount(a.r)
    &&& amount(d.g) == amount(b.g) - amount(a.g)
    &&& amount(d.b) == amount(b.b) - amount(a.b)
    &&& amount(d.a) == amount(b.a) - amount(a.a)
}

/// A gradient of `n` opaque colors without positions shows the color `k` at
/// `k / (n - 1)`, whichever way its colors are multiplied.
pub proof fn even_gradients_show_their_colors(
    f: Ops,
    r: RampModel,
    d: Seq<Color4f>,
    k: int,
    t: u32,
)
    requires
        exact(f),
        r.positions is None,
        2 <= r.colors.len() < 0x100_0000,
        is_smooth(r, d),
        0 <= k < r.colors.len(),
        is_finite(t),
        amount(t) * (r.colors.len() - 1) == k * one(),
    ensures
        same_color(ramp_color(f, r, t), r.colors[k]),
{
    let n = r.colors.len() as int;
    let m = n - 1;
    lemma_one();
    constants_stand_for_numbers();
    whole_numbers_are_floats(m);
    whole_numbers_are_floats(k);
    let s = float_of_int(m);
    let w = float_of_int(k);
    let x = f(FloatOp::Mul, t, s, 0);
    let v = amount(t);
    assert(0 <= v <= one()) by (nonlinear_arith)
        requires
            v * m == k * one(),
            0 <= k <= m,
            m >= 1,
            one() > 0,
    ;
    patterns_order_as_numbers(0, t);
    patterns_order_as_numbers(t, ONE);
    assert(amount(w) * one() == v * amount(s)) by (nonlinear_arith)
        requires
            amount(w) == k * one(),
            amount(s) == m * one(),
            v * m == k * one(),
    ;
    lemma_mul(f, t, s, w);
    assert((k * one()) % one() == 0) by (nonlinear_arith)
        requires
            one() > 0,
    ;
    lemma_floor(f, x, w);
    let y = f(FloatOp::Floor, x, 0, 0);
    whole_numbers_truncate_to_themselves(y, k);
    let p = spot(f, n, r.positions, t);
    assert(p == even_spot(f, n, t));
    let c = Seq::new(r.colors.len(), |i: int| premultiplied(f, r.colors[i]));
    assert(is_opaque(r.colors[k]));
    lemma_opaque(f, r.colors[k]);
    if k >= n - 1 {
        assert(p == Spot::At((n - 1) as usize));
    } else {
        let q = f(FloatOp::Sub, x, w, 0);
        lemma_sub(f, x, w, 0);
        assert(p == Spot::Between(k as usize, q));
        let (a, b) = (r.colors[k], r.colors[k + 1]);
        assert(is_opaque(a) && is_opaque(b));
        assert(is_difference(d[k], a, b));
        lemma_opaque(f, b);
        mixtures_end_in_their_colors(f, a, b, d[k], q);
        mixtures_end_in_their_colors(f, c[k], c[k + 1], d[k], q);
        lemma_opaque(f, mixed(f, a, b, q));
    }
}

/// Whether positions rise between zero and one.
pub open spec fn is_rising(ps: Seq<u32>) -> bool {
    &&& forall|i: int| 0 <= i < ps.len() ==> is_finite(#[trigger] ps[i])
    &&& forall|i: int| 0 <= i < ps.len() ==> 0 <= #[trigger] amount(ps[i]) <= one()
    &&& forall|i: int, j: int|
        0 <= i < j < ps.len() ==> #[trigger] amount(ps[i]) < #[trigger] amount(ps[j])
}

/// Positions that rise are left alone.
proof fn lemma_pinned(ps: Seq<u32>, n: nat)
    requires
        is_rising(ps),
        n <= ps.len(),
    ensures
        pinned(ps, n) == ps.take(n as int),
    decreases n,
{
    constants_stand_for_numbers();
    if n == 0 {
        assert(pinned(ps, n) =~= ps.take(0));
    } else {
        lemma_pinned(ps, (n - 1) as nat);
        let p = ps[n - 1];
        assert(is_finite(p) && 0 <= amount(p) <= one());
        patterns_order_as_numbers(ONE, p);
        patterns_order_as_numbers(p, 0);
        if n > 1 {
            let q = ps[n - 2];
            assert(is_finite(q) && amount(q) < amount(p));
            patterns_order_as_numbers(p, q);
        }
        assert(pinned(ps, n) =~= ps.take(n as int));
    }
}

/// A parameter between two positions falls between their colors.
proof fn lemma_gap(f: Ops, ps: Seq<u32>, t: u32, k: nat, i: nat)
    requires
        is_rising(ps),
        i + 1 < ps.len(),
        k <= i,
        is_finite(t),
        amount(ps[i as int]) < amount(t) <= amount(ps[i as int + 1]),
    ensures
        gap_from(f, ps, t, k) == gap_from(f, ps, t, i),
    decreases i - k,
{
    if k < i {
        let q = ps[k as int + 1];
        assert(is_finite(q));
        if k + 1 < i {
            assert(amount(ps[k as int + 1]) < amount(ps[i as int]));
        }
        patterns_order_as_numbers(t, q);
        lemma_gap(f, ps, t, k + 1, i);
    }
}

/// A gradient with positions that rise blends the colors of the two positions
/// around a parameter, in the ratio in which the parameter divides their distance;
/// at a position it shows the color of that position, and up to the first one the
/// first color.
pub proof fn positioned_gradients_blend_neighbors(
    f: Ops,
    n: int,
    ps: Seq<u32>,
    t: u32,
    i: int,
    d: u32,
    e: u32,
    r: u32,
)
    requires
        exact(f),
        n == ps.len(),
        2 <= n <= usize::MAX,
        is_rising(ps),
        0 <= i < n - 1,
        is_finite(t),
        0 <= amount(t) <= one(),
        is_finite(d) && is_finite(e) && is_finite(r),
        amount(d) == amount(t) - amount(ps[i]),
        amount(e) == amount(ps[i + 1]) - amount(ps[i]),
        amount(r) * amount(e) == amount(d) * one(),
    ensures
        amount(t) <= amount(ps[0]) ==> spot(f, n, Some(ps), t) == Spot::At(0),
        amount(ps[i]) < amount(t) <= amount(ps[i + 1]) ==> (spot(f, n, Some(ps), t) matches
            Spot::Between(k, s) && k == i && stands_for(s, amount(r))),
        amount(ps[i]) < amount(t) == amount(ps[i + 1]) ==> amount(r) == one(),
{
    constants_stand_for_numbers();
    lemma_one();
    lemma_pinned(ps, ps.len());
    assert(ps.take(n) =~= ps);
    patterns_order_as_numbers(0, t);
    patterns_order_as_numbers(t, ONE);
    assert(is_finite(ps[0]) && is_finite(ps[i]) && is_finite(ps[i + 1]));
    patterns_order_as_numbers(t, ps[0]);
    assert(amount(ps[i]) < amount(ps[i + 1]));
    if amount(ps[i]) < amount(t) <= amount(ps[i + 1]) {
        if i > 0 {
            assert(amount(ps[0]) < amount(ps[i]));
        }
        lemma_gap(f, ps, t, 0, i as nat);
        patterns_order_as_numbers(t, ps[i + 1]);
        patterns_order_as_numbers(ps[i], ps[i + 1]);
        lemma_sub(f, t, ps[i], d);
        lemma_sub(f, ps[i + 1], ps[i], e);
        lemma_div(f, f(FloatOp::Sub, t, ps[i], 0), f(FloatOp::Sub, ps[i + 1], ps[i], 0), r);
        if amount(t) == amount(ps[i + 1]) {
            let (x, y) = (amount(r), amount(e));
            assert(x == one()) by (nonlinear_arith)
                requires
                    x * y == y * one(),
                    y > 0,
            ;
        }
    }
}

/// A gradient along a line is at its beginning at the start of the line, and at
/// its end at the end of it.
pub proof fn linear_gradients_follow_the_line(f: Ops, start: Point, end: Point, r: RampModel)
    requires
        exact(f),
        is_finite(start.x) && is_finite(start.y),
        ({
            let dx = f(FloatOp::Sub, end.x, start.x, 0);
            let dy = f(FloatOp::Sub, end.y, start.y, 0);
            &&& is_finite(dx) && is_finite(dy)
            &&& is_finite(squares(f, dx, dy))
            &&& !float_lt(squares(f, dx, dy), 0x2edb_e6ff)
        }),
    ensures
        exists|t: u32|
            stands_for(t, 0) && linear_color(f, start, end, r, start) == #[trigger] tiled_color(
                f,
                r,
                t,
            ),
        exists|t: u32|
            stands_for(t, one()) && linear_color(f, start, end, r, end) == #[trigger] tiled_color(
                f,
                r,
                t,
            ),
{
    lemma_one();
    constants_stand_for_numbers();
    let dx = f(FloatOp::Sub, end.x, start.x, 0);
    let dy = f(FloatOp::Sub, end.y, start.y, 0);
    let len = squares(f, dx, dy);
    patterns_order_as_numbers(len, 0x2edb_e6ff);
    patterns_order_as_numbers(0, 0x2edb_e6ff);
    assert(amount(len) > 0);
    let px = f(FloatOp::Sub, start.x, start.x, 0);
    let py = f(FloatOp::Sub, start.y, start.y, 0);
    lemma_sub(f, start.x, start.x, 0);
    lemma_sub(f, start.y, start.y, 0);
    assert(0 * one() == amount(py) * amount(dy)) by (nonlinear_arith)
        requires
            amount(py) == 0,
    ;
    lemma_mul(f, py, dy, 0);
    let m = f(FloatOp::Mul, py, dy, 0);
    assert(0 * one() == amount(px) * amount(dx) + amount(m) * one()) by (nonlinear_arith)
        requires
            amount(px) == 0,
            amount(m) == 0,
    ;
    lemma_mul_add(f, px, dx, m, 0);
    let q = dot2(f, px, py, dx, dy);
    assert(0 * amount(len) == amount(q) * one()) by (nonlinear_arith)
        requires
            amount(q) == 0,
    ;
    lemma_div(f, q, len, 0);
    let t0 = f(FloatOp::Div, q, len, 0);
    assert(linear_color(f, start, end, r, start) == tiled_color(f, r, t0));
    assert(amount(ONE) * amount(len) == amount(len) * one()) by (nonlinear_arith)
        requires
            amount(ONE) == one(),
    ;
    lemma_div(f, len, len, ONE);
    let t1 = f(FloatOp::Div, len, len, 0);
    assert(dot2(f, dx, dy, dx, dy) == len);
    assert(linear_color(f, start, end, r, end) == tiled_color(f, r, t1));
}

/// A gradient around a point is as far along as the distance from the point is of
/// the radius.
pub proof fn radial_gradients_follow_the_distance(
    f: Ops,
    center: Point,
    radius: u32,
    r: RampModel,
    p: Point,
    dx: u32,
    dy: u32,
    h: u32,
    t: u32,
)
    requires
        exact(f),
        is_finite(center.x) && is_finite(center.y) && is_finite(p.x) && is_finite(p.y),
        is_finite(radius) && amount(radius) > 0,
        stands_for(dx, amount(p.x) - amount(center.x)),
        stands_for(dy, amount(p.y) - amount(center.y)),
        is_finite(h) && amount(h) >= 0,
        amount(h) * amount(h) == amount(dx) * amount(dx) + amount(dy) * amount(dy),
        is_finite(t),
        amount(t) * amount(radius) == amount(h) * one(),
    ensures
        exists|x: u32|
            stands_for(x, amount(t)) && radial_color(f, center, radius, r, p)
                == #[trigger] tiled_color(f, r, x),
{
    constants_stand_for_numbers();
    patterns_order_as_numbers(radius, 0);
    lemma_sub(f, p.x, center.x, dx);
    lemma_sub(f, p.y, center.y, dy);
    let a = f(FloatOp::Sub, p.x, center.x, 0);
    let b = f(FloatOp::Sub, p.y, center.y, 0);
    lemma_hypot(f, a, b, h);
    let l = f(FloatOp::Hypot, a, b, 0);
    lemma_div(f, l, radius, t);
    let x = f(FloatOp::Div, l, radius, 0);
    assert(radial_color(f, center, radius, r, p) == tiled_color(f, r, x));
}

// ---------------------------------------------------------------------------
// Images
// ---------------------------------------------------------------------------

/// A coordinate that is a whole number within an image, or beyond it by whole
/// widths where the image repeats, falls into that pixel.
proof fn lemma_pixel(f: Ops, x: u32, i: int, k: int, size: int, mode: TileMode)
    requires
        exact(f),
        0 <= i < size < 0x100_0000,
        stands_for(x, (i + k * size) * one()),
        mode is Decal ==> k == 0,
        mode is Decal || mode is Repeat,
    ensures
        image_tile(f, x, size, mode) is Some,
        pixel_index(f, image_tile(f, x, size, mode)->0, size) == i,
{
    lemma_one();
    constants_stand_for_numbers();
    whole_numbers_are_floats(i);
    whole_numbers_are_floats(size);
    let w = float_of_int(i);
    let s = float_of_int(size);
    assert(0 <= i * one() < size * one()) by (nonlinear_arith)
        requires
            0 <= i < size,
            one() > 0,
    ;
    assert((i * one()) % one() == 0) by (nonlinear_arith)
        requires
            one() > 0,
    ;
    let v = if mode is Decal {
        x
    } else {
        f(FloatOp::Rem, x, s, 0)
    };
    if mode is Repeat {
        let d = amount(x) - amount(w);
        assert(d == k * amount(s)) by (nonlinear_arith)
            requires
                d == (i + k * size) * one() - i * one(),
                amount(s) == size * one(),
        ;
        assert((k * amount(s)) % amount(s) == 0) by (nonlinear_arith)
            requires
                amount(s) > 0,
        ;
        lemma_rem(f, x, s, w);
    } else {
        assert(amount(x) == i * one()) by (nonlinear_arith)
            requires
                amount(x) == (i + k * size) * one(),
                k == 0,
        ;
    }
    patterns_order_as_numbers(v, 0);
    patterns_order_as_numbers(s, v);
    patterns_order_as_numbers(x, 0);
    lemma_floor(f, v, w);
    let y = f(FloatOp::Floor, v, 0, 0);
    whole_numbers_truncate_to_themselves(y, i);
}

/// An image that is sampled at a pixel shows the bytes of that pixel, rows from
/// the top and pixels from the left. Where it repeats, it shows them again after
/// its width and its height.
#[verifier::spinoff_prover]
#[verifier::rlimit(60)]
pub proof fn images_show_their_pixels(
    f: Ops,
    s: ImageShader,
    p: Point,
    x: int,
    y: int,
    k: int,
    l: int,
)
    requires
        exact(f),
        s.pixels is Some,
        s.sampling.filter is Nearest,
        s.tile_mode_x is Decal || s.tile_mode_x is Repeat,
        s.tile_mode_y is Decal || s.tile_mode_y is Repeat,
        s.tile_mode_x is Decal ==> k == 0,
        s.tile_mode_y is Decal ==> l == 0,
        ({
            let px = s.pixels->0;
            &&& 0 <= x < px.info.width < 0x100_0000
            &&& 0 <= y < px.info.height < 0x100_0000
            &&& px.info.color_type is Rgba8888 || px.info.color_type is Bgra8888
            &&& px.bytes@.len() >= 4 * (px.info.width * px.info.height)
            &&& stands_for(p.x, (x + k * px.info.width) * one())
            &&& stands_for(p.y, (y + l * px.info.height) * one())
        }),
    ensures
        ({
            let px = s.pixels->0;
            let o = 4 * (y * px.info.width + x);
            let c = image_color(f, s, p);
            &&& px.info.color_type is Rgba8888 ==> c == (Color4f {
                r: fraction(f, px.bytes@[o]),
                g: fraction(f, px.bytes@[o + 1]),
                b: fraction(f, px.bytes@[o + 2]),
                a: fraction(f, px.bytes@[o + 3]),
            })
            &&& px.info.color_type is Bgra8888 ==> c == (Color4f {
                r: fraction(f, px.bytes@[o + 2]),
                g: fraction(f, px.bytes@[o + 1]),
                b: fraction(f, px.bytes@[o]),
                a: fraction(f, px.bytes@[o + 3]),
            })
        }),
{
    let px = s.pixels->0;
    let (w, h) = (px.info.width as int, px.info.height as int);
    lemma_pixel(f, p.x, x, k, w, s.tile_mode_x);
    lemma_pixel(f, p.y, y, l, h, s.tile_mode_y);
    let (ix, iy) = (
        image_tile(f, p.x, w, s.tile_mode_x),
        image_tile(f, p.y, h, s.tile_mode_y),
    );
    assert(texel(f, s, px.info, px.bytes@, p) == pixel_color(
        f,
        px.info,
        px.bytes@,
        pixel_index(f, ix->0, w),
        pixel_index(f, iy->0, h),
    ));
    lemma_bytes(f, px.info, px.bytes@, x, y);
}

/// The color of a pixel is that of its four bytes.
proof fn lemma_bytes(f: Ops, info: ImageInfo, bytes: Seq<u8>, x: int, y: int)
    requires
        0 <= x < info.width,
        0 <= y < info.height,
        info.color_type is Rgba8888 || info.color_type is Bgra8888,
        bytes.len() >= 4 * (info.width * info.height),
    ensures
        ({
            let o = 4 * (y * info.width + x);
            let c = pixel_color(f, info, bytes, x, y);
            &&& info.color_type is Rgba8888 ==> c == (Color4f {
                r: fraction(f, bytes[o]),
                g: fraction(f, bytes[o + 1]),
                b: fraction(f, bytes[o + 2]),
                a: fraction(f, bytes[o + 3]),
            })
            &&& info.color_type is Bgra8888 ==> c == (Color4f {
                r: fraction(f, bytes[o + 2]),
                g: fraction(f, bytes[o + 1]),
                b: fraction(f, bytes[o]),
                a: fraction(f, bytes[o + 3]),
            })
        }),
{
    let (w, h) = (info.width as int, info.height as int);
    assert((y * w + x) * 4 + 4 <= 4 * (w * h)) by (nonlinear_arith)
        requires
            0 <= x < w,
            0 <= y < h,
    ;
    let o = (y * w + x) * 4;
    assert(o == 4 * (y * w + x)) by (nonlinear_arith)
        requires
            o == (y * w + x) * 4,
    ;
}

/// A byte without light is zero, and one with all of it is one.
pub proof fn bytes_are_fractions(f: Ops)
    requires
        exact(f),
    ensures
        stands_for(fraction(f, 0), 0),
        stands_for(fraction(f, 255), one()),
{
    lemma_one();
    constants_stand_for_numbers();
    lemma_byte_max();
    whole_numbers_are_floats(0);
    whole_numbers_are_floats(255);
    let (z, m) = (float_of_int(0), float_of_int(255));
    assert(amount(0) * amount(BYTE_MAX) == amount(z) * one()) by (nonlinear_arith)
        requires
            amount(0) == 0,
            amount(z) == 0 * one(),
    ;
    lemma_div(f, z, BYTE_MAX, 0);
    assert(amount(ONE) * amount(BYTE_MAX) == amount(m) * one()) by (nonlinear_arith)
        requires
            amount(ONE) == one(),
            amount(BYTE_MAX) == 255 * one(),
            amount(m) == 255 * one(),
    ;
    lemma_div(f, m, BYTE_MAX, ONE);
}

// ---------------------------------------------------------------------------
// Color matrices
// ---------------------------------------------------------------------------

/// A row of a color matrix that holds a single one picks the channel at its
/// place, and behind the channels the number one.
pub proof fn matrix_rows_pick_channels(f: Ops, m: Seq<u32>, k: int, c: Color4f, j: int)
    requires
        exact(f),
        is_color(c),
        0 <= k,
        k + 5 <= m.len(),
        0 <= j < 5,
        is_single_one(m.subrange(k, k + 5), j, 5),
    ensures
        stands_for(
            matrix_row(f, m, k, c),
            if j < 4 {
                amount(channels_of(c)[j])
            } else {
                one()
            },
        ),
{
    lemma_one();
    constants_stand_for_numbers();
    let r = m.subrange(k, k + 5);
    let (a, b, d, e, g) = (r[0], r[1], r[2], r[3], r[4]);
    assert(a == m[k] && b == m[k + 1] && d == m[k + 2] && e == m[k + 3] && g == m[k + 4]);
    assert(is_finite(a) && is_finite(b) && is_finite(d) && is_finite(e) && is_finite(g));
    let x1: u32 = if j == 1 {
        c.g
    } else {
        0
    };
    lemma_term(b, c.g, 0, j == 1);
    lemma_mul(f, b, c.g, x1);
    let p1 = f(FloatOp::Mul, b, c.g, 0);
    let x2: u32 = if j == 0 {
        c.r
    } else {
        x1
    };
    lemma_term(a, c.r, amount(p1), j == 0);
    lemma_mul_add(f, a, c.r, p1, x2);
    let p2 = f(FloatOp::MulAdd, a, c.r, p1);
    let x3: u32 = if j == 2 {
        c.b
    } else {
        x2
    };
    lemma_term(d, c.b, amount(p2), j == 2);
    lemma_mul_add(f, d, c.b, p2, x3);
    let p3 = f(FloatOp::MulAdd, d, c.b, p2);
    let x4: u32 = if j == 3 {
        c.a
    } else {
        x3
    };
    lemma_term(e, c.a, amount(p3), j == 3);
    lemma_mul_add(f, e, c.a, p3, x4);
    let p4 = f(FloatOp::MulAdd, e, c.a, p3);
    let x5: u32 = if j == 4 {
        ONE
    } else {
        x4
    };
    lemma_add(f, p4, g, x5);
}

/// A product with zero or one, added to another number.
proof fn lemma_term(m: u32, x: u32, v: int, picked: bool)
    requires
        amount(m) == if picked {
            one()
        } else {
            0
        },
        picked ==> v == 0,
    ensures
        picked ==> amount(x) * one() == amount(m) * amount(x) + v * one(),
        !picked ==> v * one() == amount(m) * amount(x) + v * one(),
        picked ==> amount(x) * one() == amount(m) * amount(x),
        !picked ==> 0 * one() == amount(m) * amount(x),
{
    assert(picked ==> amount(x) * one() == amount(m) * amount(x)) by (nonlinear_arith)
        requires
            picked ==> amount(m) == one(),
    ;
    assert(!picked ==> amount(m) * amount(x) == 0) by (nonlinear_arith)
        requires
            !picked ==> amount(m) == 0,
    ;
    assert(0 * one() == 0) by (nonlinear_arith);
    assert(picked ==> v * one() == 0) by (nonlinear_arith)
        requires
            picked ==> v == 0,
    ;
}

/// A color matrix with ones on its diagonal changes no color.
pub proof fn diagonal_matrices_change_nothing(f: Ops, m: Seq<u32>, c: Color4f)
    requires
        exact(f),
        is_color(c),
        m.len() == 20,
        is_single_one(m.subrange(0, 5), 0, 5),
        is_single_one(m.subrange(5, 10), 1, 5),
        is_single_one(m.subrange(10, 15), 2, 5),
        is_single_one(m.subrange(15, 20), 3, 5),
    ensures
        same_color(matrix_color(f, m, c), c),
{
    matrix_rows_pick_channels(f, m, 0, c, 0);
    matrix_rows_pick_channels(f, m, 5, c, 1);
    matrix_rows_pick_channels(f, m, 10, c, 2);
    matrix_rows_pick_channels(f, m, 15, c, 3);
}

/// Full saturation changes no color, and no saturation gives all colors the same
/// light.
pub proof fn saturation_reaches_from_gray_to_all(f: Ops, sat: u32, c: Color4f)
    requires
        exact(f),
        is_color(c),
    ensures
        stands_for(sat, one()) ==> same_color(matrix_color(f, saturation_matrix(f, sat), c), c),
        stands_for(sat, 0) ==> forall|j: int|
            #![trigger saturation_matrix(f, sat)[j]]
            0 <= j < 5 ==> {
                let m = saturation_matrix(f, sat);
                amount(m[j]) == amount(m[5 + j]) && amount(m[j]) == amount(m[10 + j])
            },
{
    constants_stand_for_numbers();
    lemma_one();
    let m = saturation_matrix(f, sat);
    let (p, q, r): (u32, u32, u32) = (0x3e59_b3d0, 0x3f37_1759, 0x3d93_dd98);
    let ms = f(FloatOp::Sub, ONE, sat, 0);
    if stands_for(sat, one()) {
        lemma_sub(f, ONE, sat, 0);
        assert(0 * one() == amount(p) * amount(ms) && 0 * one() == amount(q) * amount(ms) && 0
            * one() == amount(r) * amount(ms)) by (nonlinear_arith)
            requires
                amount(ms) == 0,
        ;
        lemma_mul(f, p, ms, 0);
        lemma_mul(f, q, ms, 0);
        lemma_mul(f, r, ms, 0);
        lemma_add(f, f(FloatOp::Mul, p, ms, 0), sat, ONE);
        lemma_add(f, f(FloatOp::Mul, q, ms, 0), sat, ONE);
        lemma_add(f, f(FloatOp::Mul, r, ms, 0), sat, ONE);
        diagonal_matrices_change_nothing(f, m, c);
    }
    if stands_for(sat, 0) {
        lemma_sub(f, ONE, sat, ONE);
        lemma_mul(f, p, ms, p);
        lemma_mul(f, q, ms, q);
        lemma_mul(f, r, ms, r);
        lemma_add(f, f(FloatOp::Mul, p, ms, 0), sat, p);
        lemma_add(f, f(FloatOp::Mul, q, ms, 0), sat, q);
        lemma_add(f, f(FloatOp::Mul, r, ms, 0), sat, r);
    }
}

/// Middle gray is the same for every contrast, and a contrast of one changes no
/// color. The floats `h` and `e` stand for half of the contrast and for what is
/// left to a half.
pub proof fn contrast_turns_about_middle_gray(f: Ops, k: u32, c: Color4f, h: u32, e: u32)
    requires
        exact(f),
        is_color(c),
        is_finite(k),
        is_finite(h),
        is_finite(e),
        2 * amount(h) == amount(k),
        2 * amount(e) == one() - amount(k),
    ensures
        2 * amount(c.r) == one() ==> stands_for(
            matrix_color(f, contrast_matrix(f, k), c).r,
            amount(c.r),
        ),
        amount(k) == one() ==> same_color(matrix_color(f, contrast_matrix(f, k), c), c),
{
    constants_stand_for_numbers();
    lemma_one();
    negation_is_opposite(k);
    let m = contrast_matrix(f, k);
    let half: u32 = 0x3f00_0000;
    assert(amount(e) * one() == amount(half) * amount(negated(k)) + amount(half) * one())
        by (nonlinear_arith)
        requires
            2 * amount(half) == one(),
            amount(negated(k)) == -amount(k),
            2 * amount(e) == one() - amount(k),
    ;
    lemma_mul_add(f, half, negated(k), half, e);
    let bias = f(FloatOp::MulAdd, half, negated(k), half);
    if amount(k) == one() {
        diagonal_matrices_change_nothing(f, m, c);
    }
    if 2 * amount(c.r) == one() {
        lemma_term(0, c.g, 0, false);
        lemma_mul(f, 0, c.g, 0);
        let p1 = f(FloatOp::Mul, 0, c.g, 0);
        assert(amount(h) * one() == amount(k) * amount(c.r) + amount(p1) * one())
            by (nonlinear_arith)
            requires
                2 * amount(c.r) == one(),
                2 * amount(h) == amount(k),
                amount(p1) == 0,
        ;
        lemma_mul_add(f, k, c.r, p1, h);
        let p2 = f(FloatOp::MulAdd, k, c.r, p1);
        lemma_term(0, c.b, amount(p2), false);
        lemma_mul_add(f, 0, c.b, p2, p2);
        let p3 = f(FloatOp::MulAdd, 0, c.b, p2);
        lemma_term(0, c.a, amount(p3), false);
        lemma_mul_add(f, 0, c.a, p3, p3);
        let p4 = f(FloatOp::MulAdd, 0, c.a, p3);
        lemma_add(f, p4, bias, half);
    }
}

/// Brightness is added to each color; alpha stays as it is.
pub proof fn brightness_is_added(f: Ops, k: u32, c: Color4f, d: Color4f)
    requires
        exact(f),
        is_color(c),
        is_color(d),
        is_finite(k),
        amount(d.r) == amount(c.r) + amount(k),
        amount(d.g) == amount(c.g) + amount(k),
        amount(d.b) == amount(c.b) + amount(k),
        amount(d.a) == amount(c.a),
    ensures
        same_color(matrix_color(f, brightness_matrix(k), c), d),
{
    constants_stand_for_numbers();
    let m = brightness_matrix(k);
    lemma_shifted(f, m, 0, c, 0, d.r);
    lemma_shifted(f, m, 5, c, 1, d.g);
    lemma_shifted(f, m, 10, c, 2, d.b);
    lemma_shifted(f, m, 15, c, 3, d.a);
}

/// A row that picks a channel and adds a number to it.
proof fn lemma_shifted(f: Ops, m: Seq<u32>, k: int, c: Color4f, j: int, r: u32)
    requires
        exact(f),
        is_color(c),
        0 <= k,
        k + 5 <= m.len(),
        0 <= j < 4,
        is_single_one(m.subrange(k, k + 5), j, 4),
        is_finite(m[k + 4]),
        is_finite(r),
        amount(r) == amount(channels_of(c)[j]) + amount(m[k + 4]),
    ensures
        stands_for(matrix_row(f, m, k, c), amount(r)),
{
    lemma_one();
    constants_stand_for_numbers();
    let w = m.subrange(k, k + 5);
    let (a, b, d, e) = (w[0], w[1], w[2], w[3]);
    assert(a == m[k] && b == m[k + 1] && d == m[k + 2] && e == m[k + 3]);
    assert(is_finite(a) && is_finite(b) && is_finite(d) && is_finite(e));
    let x1: u32 = if j == 1 {
        c.g
    } else {
        0
    };
    lemma_term(b, c.g, 0, j == 1);
    lemma_mul(f, b, c.g, x1);
    let p1 = f(FloatOp::Mul, b, c.g, 0);
    let x2: u32 = if j == 0 {
        c.r
    } else {
        x1
    };
    lemma_term(a, c.r, amount(p1), j == 0);
    lemma_mul_add(f, a, c.r, p1, x2);
    let p2 = f(FloatOp::MulAdd, a, c.r, p1);
    let x3: u32 = if j == 2 {
        c.b
    } else {
        x2
    };
    lemma_term(d, c.b, amount(p2), j == 2);
    lemma_mul_add(f, d, c.b, p2, x3);
    let p3 = f(FloatOp::MulAdd, d, c.b, p2);
    let x4: u32 = if j == 3 {
        c.a
    } else {
        x3
    };
    lemma_term(e, c.a, amount(p3), j == 3);
    lemma_mul_add(f, e, c.a, p3, x4);
    let p4 = f(FloatOp::MulAdd, e, c.a, p3);
    lemma_add(f, p4, m[k + 4], r);
}

} // verus!
