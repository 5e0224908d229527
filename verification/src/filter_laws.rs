//! What image filters do to pixels.

use vstd::prelude::*;

use crate::arith::{FloatOp, Ops};
use crate::color_filter::{BYTE_MAX, Tints, byte_float, kept, whole_byte};
use crate::exact::{
    amount, constants_stand_for_numbers, exact, lemma_add, lemma_div, lemma_mul, lemma_mul_add,
    lemma_one, lemma_sub, negation_is_opposite, one, patterns_order_as_numbers, stands_for,
    truncation_drops_the_fraction, whole_numbers_are_floats, whole_numbers_round_to_themselves,
    whole_numbers_truncate_to_themselves,
};
use crate::filter::{
    DropShadowImageFilter, ImageFilter, LightingImageFilter, MatrixConvolutionImageFilter,
    OffsetImageFilter,
};
use crate::filter_run::{
    Pixel, after_input, applied, convolved, convolved_pixel, convolved_whole, displaced, lit, lit_byte, over,
    over_byte, painted, pixel_at, shadow_pixel, shadowed, surface_factor, weighted_sum,
};
use crate::float_bits::{ONE, float_of_int, is_finite, log2, magnitude, magnitude_of_nat, negated, power};
use crate::geometry::Color4f;
use crate::raster::{Region, remapped, shift_map, tile_map, tiled};
use crate::shader::TileMode;

verus! {

/// A byte as a float stands for the byte.
proof fn lemma_byte(b: u8)
    ensures
        stands_for(byte_float(b), b * one()),
{
    whole_numbers_are_floats(b as int);
}

pub(crate) proof fn lemma_byte_max()
    ensures
        BYTE_MAX == byte_float(255),
        stands_for(BYTE_MAX, 255 * one()),
        amount(BYTE_MAX) != 0,
{
    reveal_with_fuel(log2, 9);
    reveal_with_fuel(power, 18);
    assert(log2(255) == 7);
    assert(power(16) == 0x1_0000);
    assert(magnitude_of_nat(255) == 133 * 0x80_0000 + 255 * 0x1_0000);
    lemma_byte(255);
    lemma_one();
}

/// Full alpha is one, and no alpha is zero.
proof fn lemma_alpha(f: Ops)
    requires
        exact(f),
    ensures
        stands_for(f(FloatOp::Div, byte_float(255), BYTE_MAX, 0), one()),
        stands_for(f(FloatOp::Div, byte_float(0), BYTE_MAX, 0), 0),
{
    constants_stand_for_numbers();
    lemma_byte_max();
    lemma_byte(255);
    lemma_byte(0);
    assert(one() * amount(BYTE_MAX) == amount(byte_float(255)) * one()) by (nonlinear_arith)
        requires
            amount(BYTE_MAX) == amount(byte_float(255)),
    ;
    lemma_div(f, byte_float(255), BYTE_MAX, ONE);
    assert(0 * amount(BYTE_MAX) == amount(byte_float(0)) * one()) by (nonlinear_arith)
        requires
            amount(byte_float(0)) == 0 * one(),
    ;
    lemma_div(f, byte_float(0), BYTE_MAX, 0);
}

/// A byte with nothing added to it stays as it is.
proof fn lemma_over_byte(f: Ops, top: u8, bottom: u8, through: u32)
    requires
        exact(f),
        stands_for(through, 0) || (stands_for(through, one()) && top == 0),
    ensures
        amount(through) == 0 ==> over_byte(f, top, bottom, through) == top,
        amount(through) != 0 ==> over_byte(f, top, bottom, through) == bottom,
{
    constants_stand_for_numbers();
    lemma_one();
    lemma_byte(top);
    lemma_byte(bottom);
    let (t, b) = (byte_float(top), byte_float(bottom));
    if amount(through) == 0 {
        assert(0 * one() == amount(b) * amount(through)) by (nonlinear_arith)
            requires
                amount(through) == 0,
        ;
        lemma_mul(f, b, through, 0);
        let m = f(FloatOp::Mul, b, through, 0);
        lemma_add(f, t, m, t);
        whole_numbers_truncate_to_themselves(f(FloatOp::Add, t, m, 0), top as int);
    } else {
        assert(amount(b) * one() == amount(b) * amount(through));
        lemma_mul(f, b, through, b);
        let m = f(FloatOp::Mul, b, through, 0);
        assert(amount(t) == 0) by (nonlinear_arith)
            requires
                amount(t) == top * one(),
                top == 0,
        ;
        lemma_add(f, t, m, b);
        whole_numbers_truncate_to_themselves(f(FloatOp::Add, t, m, 0), bottom as int);
    }
}

/// An opaque pixel hides what is below it, and an empty one shows it.
pub proof fn pixels_over_others(f: Ops, top: Pixel, bottom: Pixel)
    requires
        exact(f),
    ensures
        top.a == 255 ==> over(f, top, bottom) == top,
        top.r == 0 && top.g == 0 && top.b == 0 && top.a == 0 ==> over(f, top, bottom) == bottom,
{
    constants_stand_for_numbers();
    lemma_alpha(f);
    lemma_one();
    let a = f(FloatOp::Div, byte_float(top.a), BYTE_MAX, 0);
    let through = f(FloatOp::Sub, ONE, a, 0);
    if top.a == 255 {
        lemma_sub(f, ONE, a, 0);
        lemma_over_byte(f, top.r, bottom.r, through);
        lemma_over_byte(f, top.g, bottom.g, through);
        lemma_over_byte(f, top.b, bottom.b, through);
        lemma_over_byte(f, top.a, bottom.a, through);
    } else if top.r == 0 && top.g == 0 && top.b == 0 && top.a == 0 {
        lemma_sub(f, ONE, a, ONE);
        lemma_over_byte(f, top.r, bottom.r, through);
        lemma_over_byte(f, top.g, bottom.g, through);
        lemma_over_byte(f, top.b, bottom.b, through);
        lemma_over_byte(f, top.a, bottom.a, through);
    }
}

/// The pixels of an image that was painted.
pub proof fn painted_pixels_are_read_back(img: Seq<u8>, px: Seq<Pixel>, p: int)
    requires
        0 <= p < px.len(),
        4 * px.len() <= img.len(),
    ensures
        pixel_at(painted(img, px), p) == px[p],
{
    assert((4 * p) / 4 == p && (4 * p) % 4 == 0);
    assert((4 * p + 1) / 4 == p && (4 * p + 1) % 4 == 1);
    assert((4 * p + 2) / 4 == p && (4 * p + 2) % 4 == 2);
    assert((4 * p + 3) / 4 == p && (4 * p + 3) % 4 == 3);
}

/// An image is drawn over its drop shadow: opaque pixels stay as they are, and
/// where the image is empty the shadow alone is seen.
pub proof fn images_lie_over_their_shadow(
    t: Tints,
    x: DropShadowImageFilter,
    y: DropShadowImageFilter,
    img: Seq<u8>,
    w: int,
    h: int,
    p: int,
)
    requires
        exact(t.ops),
        w > 0,
        h > 0,
        0 <= p < w * h,
        4 * (w * h) <= img.len(),
        !x.shadow_only,
        y == (DropShadowImageFilter { shadow_only: true, ..x }),
    ensures
        ({
            let before = pixel_at(img, p);
            let after = pixel_at(applied(t, ImageFilter::DropShadow(x), img, w, h), p);
            let shadow = pixel_at(applied(t, ImageFilter::DropShadow(y), img, w, h), p);
            &&& before.a == 255 ==> after == before
            &&& before.r == 0 && before.g == 0 && before.b == 0 && before.a == 0 ==> after == shadow
        }),
{
    let f = t.ops;
    let px = shadowed(f, x, img, w, h);
    let py = shadowed(f, y, img, w, h);
    painted_pixels_are_read_back(img, px, p);
    painted_pixels_are_read_back(img, py, p);
    pixels_over_others(f, pixel_at(img, p), py[p]);
}

/// The components of the shadow of an opaque color: nothing where there is no
/// alpha, and where there is full alpha the color in bytes.
pub proof fn shadows_have_their_color(f: Ops, c: Color4f, s: u8, v: u32, n: int)
    requires
        exact(f),
        s == 0 || s == 255,
        stands_for(c.a, one()),
        is_finite(c.r),
        is_finite(v),
        amount(v) * one() == amount(c.r) * amount(BYTE_MAX),
        0 <= n <= 255,
        n * one() <= amount(v) < (n + 1) * one(),
    ensures
        shadow_pixel(f, c, s).r == if s == 0 {
            0
        } else {
            n
        },
        shadow_pixel(f, c, s).a == s,
{
    constants_stand_for_numbers();
    lemma_alpha(f);
    lemma_one();
    lemma_byte_max();
    patterns_order_as_numbers(c.a, 0);
    patterns_order_as_numbers(ONE, c.a);
    let part = f(FloatOp::Div, byte_float(s), BYTE_MAX, 0);
    let alpha = f(FloatOp::Mul, part, kept(c.a, 0, ONE), 0);
    lemma_mul(f, part, kept(c.a, 0, ONE), part);
    lemma_mul(f, c.r, BYTE_MAX, v);
    let q = f(FloatOp::Mul, c.r, BYTE_MAX, 0);
    lemma_truncates(q, n);
    let b = byte_float(whole_byte(q));
    lemma_byte(n as u8);
    lemma_byte(0);
    if s == 255 {
        assert(amount(b) * one() == amount(b) * amount(alpha));
        lemma_mul(f, b, alpha, b);
        whole_numbers_truncate_to_themselves(f(FloatOp::Mul, b, alpha, 0), n);
        assert(amount(BYTE_MAX) * one() == amount(alpha) * amount(BYTE_MAX)) by (nonlinear_arith)
            requires
                amount(alpha) == one(),
        ;
        lemma_mul(f, alpha, BYTE_MAX, BYTE_MAX);
        whole_numbers_truncate_to_themselves(f(FloatOp::Mul, alpha, BYTE_MAX, 0), 255);
    } else {
        assert(0 * one() == amount(b) * amount(alpha) && 0 * one() == amount(alpha) * amount(
            BYTE_MAX,
        )) by (nonlinear_arith)
            requires
                amount(alpha) == 0,
        ;
        lemma_mul(f, b, alpha, 0);
        lemma_mul(f, alpha, BYTE_MAX, 0);
        whole_numbers_truncate_to_themselves(f(FloatOp::Mul, b, alpha, 0), 0);
        whole_numbers_truncate_to_themselves(f(FloatOp::Mul, alpha, BYTE_MAX, 0), 0);
    }
}

/// A number between two whole ones truncates to the lower one.
proof fn lemma_truncates(q: u32, n: int)
    requires
        is_finite(q),
        0 <= n <= 255,
        n * one() <= amount(q) < (n + 1) * one(),
    ensures
        whole_byte(q) == n,
{
    lemma_one();
    constants_stand_for_numbers();
    whole_numbers_are_floats(256);
    let m = float_of_int(256);
    patterns_order_as_numbers(q, m);
    assert((n + 1) * one() <= 256 * one()) by (nonlinear_arith)
        requires
            n <= 255,
            one() > 0,
    ;
    assert(n * one() >= 0) by (nonlinear_arith)
        requires
            n >= 0,
            one() > 0,
    ;
    assert(magnitude_of_nat(256) == 0x4380_0000) by {
        reveal_with_fuel(log2, 10);
        reveal_with_fuel(power, 16);
    }
    patterns_order_as_numbers(q, 0);
    assert(magnitude(q) < 0x4f00_0000);
    truncation_drops_the_fraction(q);
    let k = crate::float_bits::int_of_float(q);
    assert(k == n) by (nonlinear_arith)
        requires
            one() > 0,
            k * one() <= amount(q) < (k + 1) * one(),
            n * one() <= amount(q) < (n + 1) * one(),
    ;
}

/// Moving an image moves each of its pixels to where it belongs.
pub proof fn moved_pixels_arrive(
    img: Seq<u8>,
    w: int,
    h: int,
    dx: int,
    dy: int,
    x: int,
    y: int,
)
    requires
        0 < w <= i32::MAX,
        0 < h <= i32::MAX,
        4 * (w * h) <= img.len(),
        0 <= x < w,
        0 <= y < h,
        0 <= x + dx < w,
        0 <= y + dy < h,
    ensures
        pixel_at(remapped(img, shift_map(w, h, dx, dy)), (y + dy) * w + x + dx) == pixel_at(
            img,
            y * w + x,
        ),
{
    let p = (y + dy) * w + x + dx;
    lemma_at(w, h, x + dx, y + dy);
    lemma_at(w, h, x, y);
    let map = shift_map(w, h, dx, dy);
    assert(map.len() == w * h);
    assert(map[p] == y * w + x);
    assert((4 * p) / 4 == p && (4 * p) % 4 == 0);
    assert((4 * p + 1) / 4 == p && (4 * p + 1) % 4 == 1);
    assert((4 * p + 2) / 4 == p && (4 * p + 2) % 4 == 2);
    assert((4 * p + 3) / 4 == p && (4 * p + 3) % 4 == 3);
}

pub(crate) proof fn lemma_at(w: int, h: int, x: int, y: int)
    requires
        0 <= x < w,
        0 <= y < h,
    ensures
        0 <= y * w + x < w * h,
        (y * w + x) % w == x,
        (y * w + x) / w == y,
{
    assert(0 <= y * w + x < w * h) by (nonlinear_arith)
        requires
            0 <= x < w,
            0 <= y < h,
    ;
    vstd::arithmetic::div_mod::lemma_fundamental_div_mod_converse(y * w + x, w, y, x);
}

/// An offset of whole numbers moves each pixel by them, to the right and down.
pub proof fn offsets_move_pixels(
    t: Tints,
    o: OffsetImageFilter,
    img: Seq<u8>,
    w: int,
    h: int,
    dx: int,
    dy: int,
    x: int,
    y: int,
)
    requires
        o.input is None,
        stands_for(o.dx, dx * one()),
        stands_for(o.dy, dy * one()),
        -0x100_0000 < dx < 0x100_0000,
        -0x100_0000 < dy < 0x100_0000,
        0 < w <= i32::MAX,
        0 < h <= i32::MAX,
        4 * (w * h) <= img.len(),
        0 <= x < w,
        0 <= y < h,
        0 <= x + dx < w,
        0 <= y + dy < h,
    ensures
        pixel_at(applied(t, ImageFilter::Offset(o), img, w, h), (y + dy) * w + x + dx) == pixel_at(
            img,
            y * w + x,
        ),
{
    whole_numbers_round_to_themselves(o.dx, dx);
    whole_numbers_round_to_themselves(o.dy, dy);
    moved_pixels_arrive(img, w, h, dx, dy, x, y);
    assert(after_input(t, o.input, img, w, h) == img);
}

/// A region that is tiled begins with the pixels that are copied, and they come
/// again after their width and their height. Outside of the region nothing
/// changes.
pub proof fn tiles_repeat(
    img: Seq<u8>,
    w: int,
    h: int,
    src: Region,
    dst: Region,
    x: int,
    y: int,
    i: int,
    j: int,
)
    requires
        0 < w,
        0 < h,
        4 * (w * h) <= img.len(),
        src.fits(w, h),
        0 <= x < src.x1 - src.x0,
        0 <= y < src.y1 - src.y0,
        0 <= i,
        0 <= j,
        ({
            let px = dst.x0 + x + i * (src.x1 - src.x0);
            let py = dst.y0 + y + j * (src.y1 - src.y0);
            px < dst.x1 && py < dst.y1 && px < w && py < h
        }),
    ensures
        ({
            let px = dst.x0 + x + i * (src.x1 - src.x0);
            let py = dst.y0 + y + j * (src.y1 - src.y0);
            pixel_at(remapped(img, tile_map(w, h, src, dst)), py * w + px) == pixel_at(
                img,
                (src.y0 + y) * w + (src.x0 + x),
            )
        }),
{
    let (m, n) = (src.x1 - src.x0, src.y1 - src.y0);
    let px = dst.x0 + x + i * m;
    let py = dst.y0 + y + j * n;
    let p = py * w + px;
    assert(i * m >= 0 && j * n >= 0) by (nonlinear_arith)
        requires
            i >= 0,
            j >= 0,
            m >= 0,
            n >= 0,
    ;
    lemma_at(w, h, px, py);
    vstd::arithmetic::div_mod::lemma_fundamental_div_mod_converse(x + i * m, m, i, x);
    vstd::arithmetic::div_mod::lemma_fundamental_div_mod_converse(y + j * n, n, j, y);
    let map = tile_map(w, h, src, dst);
    assert(dst.holds(p % w, p / w));
    assert(p % w - dst.x0 == x + i * m);
    assert(p / w - dst.y0 == y + j * n);
    assert(map[p] == (src.y0 + y) * w + (src.x0 + x));
    assert((4 * p) / 4 == p && (4 * p) % 4 == 0);
    assert((4 * p + 1) / 4 == p && (4 * p + 1) % 4 == 1);
    assert((4 * p + 2) / 4 == p && (4 * p + 2) % 4 == 2);
    assert((4 * p + 3) / 4 == p && (4 * p + 3) % 4 == 3);
}

/// Beyond its edges a line of samples goes on as its tile mode says: with its last
/// sample, from its other end, backwards, or with nothing.
pub proof fn lines_go_on_beyond_their_edges(v: int, n: int, k: int)
    requires
        0 <= v < n,
    ensures
        tiled(v, n, TileMode::Clamp) == Some(v),
        k >= 0 ==> tiled(n + k, n, TileMode::Clamp) == Some(n - 1),
        k >= 0 ==> tiled(-1 - k, n, TileMode::Clamp) == Some(0int),
        tiled(v + k * n, n, TileMode::Repeat) == Some(v),
        tiled(v + 2 * (k * n), n, TileMode::Mirror) == Some(v),
        tiled(-1 - v + 2 * (k * n), n, TileMode::Mirror) == Some(v),
        tiled(v, n, TileMode::Decal) == Some(v),
        k >= 0 ==> tiled(n + k, n, TileMode::Decal) is None && tiled(-1 - k, n, TileMode::Decal)
            is None,
{
    let a = v + k * n;
    vstd::arithmetic::div_mod::lemma_fundamental_div_mod_converse(a, n, k, v);
    let b = v + 2 * (k * n);
    assert(b == k * (2 * n) + v) by (nonlinear_arith)
        requires
            b == v + 2 * (k * n),
    ;
    vstd::arithmetic::div_mod::lemma_fundamental_div_mod_converse(b, 2 * n, k, v);
    if 0 <= b < n {
        vstd::arithmetic::div_mod::lemma_small_mod(b as nat, (2 * n) as nat);
    }
    let c = -1 - v + 2 * (k * n);
    assert(c == (k - 1) * (2 * n) + (2 * n - 1 - v)) by (nonlinear_arith)
        requires
            c == -1 - v + 2 * (k * n),
    ;
    vstd::arithmetic::div_mod::lemma_fundamental_div_mod_converse(c, 2 * n, k - 1, 2 * n - 1 - v);
    if 0 <= c < n {
        vstd::arithmetic::div_mod::lemma_small_mod(c as nat, (2 * n) as nat);
    }
    if 0 <= a < n {
        vstd::arithmetic::div_mod::lemma_small_mod(a as nat, n as nat);
    }
}

/// A white light on a surface without relief changes nothing, and where there is
/// no light nothing is seen. Alpha stays as it is.
pub proof fn lights_show_surfaces(f: Ops, x: LightingImageFilter, p: Pixel)
    requires
        exact(f),
        stands_for(x.surface_scale, 0),
    ensures
        stands_for(x.light_color.r, one()) ==> lit(f, x, p).r == p.r,
        stands_for(x.light_color.g, one()) ==> lit(f, x, p).g == p.g,
        stands_for(x.light_color.b, one()) ==> lit(f, x, p).b == p.b,
        stands_for(x.light_color.r, 0) ==> lit(f, x, p).r == 0,
        stands_for(x.light_color.g, 0) ==> lit(f, x, p).g == 0,
        stands_for(x.light_color.b, 0) ==> lit(f, x, p).b == 0,
        lit(f, x, p).a == p.a,
{
    constants_stand_for_numbers();
    lemma_one();
    let s = crate::color_filter::kept(x.surface_scale, 0, 0x4120_0000);
    patterns_order_as_numbers(x.surface_scale, 0);
    patterns_order_as_numbers(0x4120_0000, x.surface_scale);
    patterns_order_as_numbers(0, 0x4120_0000);
    assert(0 * one() == amount(s) * amount(0x3dcc_cccd)) by (nonlinear_arith)
        requires
            amount(s) == 0,
    ;
    lemma_mul(f, s, 0x3dcc_cccd, 0);
    let m = f(FloatOp::Mul, s, 0x3dcc_cccd, 0);
    lemma_add(f, ONE, m, ONE);
    let k = f(FloatOp::Add, ONE, m, 0);
    patterns_order_as_numbers(0x4000_0000, k);
    assert(surface_factor(f, x.surface_scale) == k);
    lemma_lit(f, p.r, k, x.light_color.r);
    lemma_lit(f, p.g, k, x.light_color.g);
    lemma_lit(f, p.b, k, x.light_color.b);
}

proof fn lemma_lit(f: Ops, b: u8, k: u32, light: u32)
    requires
        exact(f),
        stands_for(k, one()),
    ensures
        stands_for(light, one()) ==> lit_byte(f, b, k, light) == b,
        stands_for(light, 0) ==> lit_byte(f, b, k, light) == 0,
{
    constants_stand_for_numbers();
    lemma_one();
    lemma_byte_max();
    lemma_byte(b);
    let v = byte_float(b);
    lemma_mul(f, v, k, v);
    let m = f(FloatOp::Mul, v, k, 0);
    if stands_for(light, one()) || stands_for(light, 0) {
        let z: u32 = if amount(light) == 0 {
            0
        } else {
            BYTE_MAX
        };
        assert(amount(z) * one() == amount(light) * amount(BYTE_MAX)) by (nonlinear_arith)
            requires
                amount(light) == 0 ==> amount(z) == 0,
                amount(light) != 0 ==> amount(z) == amount(BYTE_MAX) && amount(light) == one(),
        ;
        lemma_mul(f, light, BYTE_MAX, z);
        let q = f(FloatOp::Mul, light, BYTE_MAX, 0);
        patterns_order_as_numbers(q, 0);
        patterns_order_as_numbers(BYTE_MAX, q);
        let l = kept(q, 0, BYTE_MAX);
        assert(amount(l) == amount(z));
        if amount(light) == 0 {
            assert(0 * one() == amount(m) * amount(l)) by (nonlinear_arith)
                requires
                    amount(l) == 0,
            ;
            lemma_mul(f, m, l, 0);
            let n = f(FloatOp::Mul, m, l, 0);
            assert(0 * amount(BYTE_MAX) == amount(n) * one()) by (nonlinear_arith)
                requires
                    amount(n) == 0,
            ;
            lemma_div(f, n, BYTE_MAX, 0);
            whole_numbers_truncate_to_themselves(f(FloatOp::Div, n, BYTE_MAX, 0), 0);
        } else {
            whole_numbers_are_floats(255 * b);
            let w = float_of_int(255 * b);
            assert(amount(w) * one() == amount(m) * amount(l)) by (nonlinear_arith)
                requires
                    amount(w) == (255 * b) * one(),
                    amount(m) == b * one(),
                    amount(l) == 255 * one(),
            ;
            lemma_mul(f, m, l, w);
            let n = f(FloatOp::Mul, m, l, 0);
            assert(amount(v) * amount(BYTE_MAX) == amount(n) * one()) by (nonlinear_arith)
                requires
                    amount(n) == (255 * b) * one(),
                    amount(v) == b * one(),
                    amount(BYTE_MAX) == 255 * one(),
            ;
            lemma_div(f, n, BYTE_MAX, v);
            whole_numbers_truncate_to_themselves(f(FloatOp::Div, n, BYTE_MAX, 0), b as int);
        }
    }
}

/// A displacement reaches from the scale in one direction, for a byte without
/// light, to the scale in the other, for one with all of it.
pub proof fn displacements_reach_the_scale(f: Ops, v: int, scale: u32, n: int)
    requires
        exact(f),
        stands_for(scale, n * one()),
        -0x10_0000 < n < 0x10_0000,
        0 <= v < 0x10_0000,
    ensures
        displaced(f, v, 255, scale) == v + n,
        displaced(f, v, 0, scale) == v - n,
{
    constants_stand_for_numbers();
    lemma_one();
    lemma_middle();
    lemma_byte(255);
    lemma_byte(0);
    negation_is_opposite(ONE);
    negation_is_opposite(scale);
    let mid: u32 = 0x42ff_0000;
    let (a, b) = (byte_float(255), byte_float(0));
    assert(amount(0x4000_0000) * amount(mid) == amount(a) * one()) by (nonlinear_arith)
        requires
            amount(0x4000_0000) == 2 * one(),
            2 * amount(mid) == 255 * one(),
            amount(a) == 255 * one(),
    ;
    lemma_div(f, a, mid, 0x4000_0000);
    let q = f(FloatOp::Div, a, mid, 0);
    lemma_sub(f, q, ONE, ONE);
    lemma_moved(f, v, f(FloatOp::Sub, q, ONE, 0), scale, scale, n);
    assert(amount(0) * amount(mid) == amount(b) * one()) by (nonlinear_arith)
        requires
            amount(0) == 0,
            amount(b) == 0 * one(),
    ;
    lemma_div(f, b, mid, 0);
    let r = f(FloatOp::Div, b, mid, 0);
    lemma_sub(f, r, ONE, negated(ONE));
    assert((-n) * one() == -(n * one())) by (nonlinear_arith);
    let e = f(FloatOp::Sub, r, ONE, 0);
    assert(amount(negated(scale)) * one() == amount(e) * amount(scale)) by (nonlinear_arith)
        requires
            amount(negated(scale)) == -amount(scale),
            amount(e) == -one(),
    ;
    lemma_moved(f, v, e, scale, negated(scale), -n);
}

/// The middle of the bytes.
proof fn lemma_middle()
    ensures
        is_finite(0x42ff_0000),
        2 * amount(0x42ff_0000) == 255 * one(),
        amount(0x42ff_0000) != 0,
{
    lemma_byte_max();
    lemma_one();
    reveal(amount);
    assert(BYTE_MAX / 0x80_0000 == 134 && BYTE_MAX % 0x80_0000 == 0x7f_0000);
    assert(0x42ff_0000u32 / 0x80_0000 == 133 && 0x42ff_0000u32 % 0x80_0000 == 0x7f_0000);
    assert(power(133) == 2 * power(132));
    let (p, q) = (power(132), power(133));
    assert((0x80_0000 + 0x7f_0000) * q == 2 * ((0x80_0000 + 0x7f_0000) * p)) by (nonlinear_arith)
        requires
            q == 2 * p,
    ;
}

proof fn lemma_moved(f: Ops, v: int, d: u32, scale: u32, w: u32, n: int)
    requires
        exact(f),
        is_finite(d),
        is_finite(scale),
        stands_for(w, n * one()),
        amount(w) * one() == amount(d) * amount(scale),
        -0x10_0000 < n < 0x10_0000,
        0 <= v < 0x10_0000,
    ensures
        crate::float_bits::int_of_float(
            f(FloatOp::Add, float_of_int(v), f(FloatOp::Mul, d, scale, 0), 0),
        ) == v + n,
{
    lemma_mul(f, d, scale, w);
    let m = f(FloatOp::Mul, d, scale, 0);
    whole_numbers_are_floats(v);
    whole_numbers_are_floats(v + n);
    let (x, s) = (float_of_int(v), float_of_int(v + n));
    assert((v + n) * one() == v * one() + n * one()) by (nonlinear_arith);
    lemma_add(f, x, m, s);
    whole_numbers_truncate_to_themselves(f(FloatOp::Add, x, m, 0), v + n);
}

/// Whether the entries of a kernel are zero, but for a one at `k`.
pub open spec fn is_single_entry(kernel: Seq<u32>, k: int) -> bool {
    forall|i: int|
        0 <= i < kernel.len() ==> is_finite(#[trigger] kernel[i]) && amount(kernel[i]) == if i == k {
            one()
        } else {
            0
        }
}

/// A kernel with a single one at column `i` and row `j`, with no gain and no bias,
/// moves the image: every pixel becomes the one that lies under that entry.
pub proof fn single_kernels_move_pixels(
    f: Ops,
    x: MatrixConvolutionImageFilter,
    img: Seq<u8>,
    w: int,
    h: int,
    px: int,
    py: int,
    i: int,
    j: int,
)
    requires
        exact(f),
        0 <= i < x.kernel_size.0,
        0 <= j < x.kernel_size.1,
        x.kernel@.len() == x.kernel_size.0 * x.kernel_size.1,
        is_single_entry(x.kernel@, j * x.kernel_size.0 + i),
        stands_for(x.gain, one()),
        stands_for(x.bias, 0),
        x.convolve_alpha,
        0 < w <= i32::MAX,
        0 < h <= i32::MAX,
        4 * (w * h) <= img.len(),
        0 <= px < w,
        0 <= py < h,
        0 <= px + i - x.kernel_offset.0 < w,
        0 <= py + j - x.kernel_offset.1 < h,
    ensures
        pixel_at(convolved(f, x, img, w, h), py * w + px) == pixel_at(
            img,
            (py + j - x.kernel_offset.1) * w + (px + i - x.kernel_offset.0),
        ),
{
    let p = py * w + px;
    lemma_at(w, h, px, py);
    let all = Seq::new((w * h) as nat, |p: int| convolved_pixel(f, x, img, w, h, p));
    painted_pixels_are_read_back(img, all, p);
    let shape = x.kernel_shape();
    let (kw, kh) = (shape.width as int, shape.height as int);
    let k = j * kw + i;
    lemma_at(kw, kh, i, j);
    let n = (shape.width * shape.height) as nat;
    assert(n > 0 && n == x.kernel@.len());
    let taps = shape.taps(px, py, w, h, n);
    let q = (py + j - x.kernel_offset.1) * w + (px + i - x.kernel_offset.0);
    assert(shape.tap(px, py, w, h, k) == Some(q));
    lemma_taps(f, x, img, px, py, w, h, k, q, n, 0);
    lemma_taps(f, x, img, px, py, w, h, k, q, n, 1);
    lemma_taps(f, x, img, px, py, w, h, k, q, n, 2);
    lemma_taps(f, x, img, px, py, w, h, k, q, n, 3);
    lemma_finished(f, x, img, taps, 0, q);
    lemma_finished(f, x, img, taps, 1, q);
    lemma_finished(f, x, img, taps, 2, q);
    lemma_finished(f, x, img, taps, 3, q);
}

/// What a kernel with a single one at `k` sums up over its first entries.
proof fn lemma_taps(
    f: Ops,
    x: MatrixConvolutionImageFilter,
    img: Seq<u8>,
    px: int,
    py: int,
    w: int,
    h: int,
    k: int,
    q: int,
    n: nat,
    c: int,
)
    requires
        exact(f),
        n <= x.kernel@.len(),
        is_single_entry(x.kernel@, k),
        0 <= k,
        x.kernel_shape().tap(px, py, w, h, k) == Some(q),
    ensures
        ({
            let taps = x.kernel_shape().taps(px, py, w, h, n);
            stands_for(
                weighted_sum(f, x.kernel@, img, taps, c, false, taps.len()),
                if k < n {
                    pixel_at(img, q).component(c) * one()
                } else {
                    0
                },
            )
        }),
    decreases n,
{
    constants_stand_for_numbers();
    lemma_one();
    let shape = x.kernel_shape();
    let taps = shape.taps(px, py, w, h, n);
    if n > 0 {
        let m = (n - 1) as nat;
        let before = shape.taps(px, py, w, h, m);
        lemma_taps(f, x, img, px, py, w, h, k, q, m, c);
        let acc = weighted_sum(f, x.kernel@, img, before, c, false, before.len());
        match shape.tap(px, py, w, h, m as int) {
            Some(at) => {
                assert(taps == before.push((at, m as int)));
                lemma_sum_prefix(f, x.kernel@, img, before, taps, c, before.len());
                let b = pixel_at(img, at).component(c);
                lemma_byte(b);
                let v = byte_float(b);
                let e = x.kernel@[m as int];
                let r: u32 = if m == k {
                    v
                } else {
                    acc
                };
                let (vv, ee, aa, rr) = (amount(v), amount(e), amount(acc), amount(r));
                assert(rr * one() == vv * ee + aa * one()) by (nonlinear_arith)
                    requires
                        (ee == one() && aa == 0 && rr == vv) || (ee == 0 && rr == aa),
                ;
                lemma_mul_add(f, v, e, acc, r);
                assert(taps.len() == before.len() + 1);
                assert(taps[taps.len() - 1] == (at, m as int));
            },
            None => {
                assert(taps == before);
            },
        }
    }
}

/// A sum over the first taps does not depend on those behind them.
proof fn lemma_sum_prefix(
    f: Ops,
    kernel: Seq<u32>,
    img: Seq<u8>,
    a: Seq<(int, int)>,
    b: Seq<(int, int)>,
    c: int,
    n: nat,
)
    requires
        n <= a.len() <= b.len(),
        forall|i: int| 0 <= i < a.len() ==> #[trigger] a[i] == b[i],
    ensures
        weighted_sum(f, kernel, img, a, c, false, n) == weighted_sum(
            f,
            kernel,
            img,
            b,
            c,
            false,
            n,
        ),
    decreases n,
{
    if n > 0 {
        lemma_sum_prefix(f, kernel, img, a, b, c, (n - 1) as nat);
        assert(a[n - 1] == b[n - 1]);
    }
}

/// Without gain and bias a sum is what comes out.
proof fn lemma_finished(
    f: Ops,
    x: MatrixConvolutionImageFilter,
    img: Seq<u8>,
    taps: Seq<(int, int)>,
    c: int,
    q: int,
)
    requires
        exact(f),
        stands_for(x.gain, one()),
        stands_for(x.bias, 0),
        stands_for(
            weighted_sum(f, x.kernel@, img, taps, c, false, taps.len()),
            pixel_at(img, q).component(c) * one(),
        ),
    ensures
        convolved_whole(f, x, img, taps, c) == pixel_at(img, q).component(c),
{
    let b = pixel_at(img, q).component(c);
    let s = weighted_sum(f, x.kernel@, img, taps, c, false, taps.len());
    assert(amount(s) * one() == amount(s) * amount(x.gain) + amount(x.bias) * one())
        by (nonlinear_arith)
        requires
            amount(x.gain) == one(),
            amount(x.bias) == 0,
    ;
    lemma_mul_add(f, s, x.gain, x.bias, s);
    whole_numbers_round_to_themselves(f(FloatOp::MulAdd, s, x.gain, x.bias), b as int);
}

} // verus!
