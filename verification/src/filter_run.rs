//! Image and mask filters at work.

use vstd::prelude::*;

use crate::arith::{FloatOp, FloatUnit, Ops};
use crate::blur::{lemma_place_of, place, radius_fits, repeated_blur};
use crate::color_filter::{
    BYTE_MAX, Tinter, Tints, byte_float, filtered_color, float_of_byte, keep, kept, near_byte,
    nearest_byte, truncated_byte, whole_byte,
};
use crate::filter::{
    ColorChannel, ColorFilter, DisplacementMapImageFilter, DropShadowImageFilter, ImageFilter,
    ImageFilterRef, LightingImageFilter, MaskFilter, MatrixConvolutionImageFilter, MorphologyType,
    covered, reach, reach_of,
};
use crate::float_bits::{
    ONE, bits_lt, bits_min, bits_round, bits_to_int, float_lt, float_min, float_of_int,
    int_of_float, int_to_bits, nearest_int,
};
use crate::geometry::Color4f;
use crate::raster::{
    blur_image, blur_mask, blurred_mask, cap, capped, cast_shadow, displace_pixels,
    displacement_map, int_pairs, is_extreme, kernel_taps, morphed, remapped, shadow_alpha,
    shift_map, tile_map,
};
use crate::runtime_effect::RuntimeColorFilter;

verus! {

// ---------------------------------------------------------------------------
// Pixels
// ---------------------------------------------------------------------------

/// A pixel.
#[derive(Debug, Clone, Copy, PartialEq, Eq, Structural)]
pub struct Pixel {
    /// Red.
    pub r: u8,
    /// Green.
    pub g: u8,
    /// Blue.
    pub b: u8,
    /// Alpha.
    pub a: u8,
}

impl Pixel {
    /// A component by its number.
    pub open spec fn component(self, c: int) -> u8 {
        if c == 0 {
            self.r
        } else if c == 1 {
            self.g
        } else if c == 2 {
            self.b
        } else {
            self.a
        }
    }
}

/// Pixel `p` of an image.
pub open spec fn pixel_at(img: Seq<u8>, p: int) -> Pixel {
    Pixel { r: img[4 * p], g: img[4 * p + 1], b: img[4 * p + 2], a: img[4 * p + 3] }
}

/// An image whose first pixels are the given ones.
pub open spec fn painted(img: Seq<u8>, px: Seq<Pixel>) -> Seq<u8> {
    Seq::new(
        img.len(),
        |i: int|
            if i < 4 * px.len() {
                px[i / 4].component(i % 4)
            } else {
                img[i]
            },
    )
}

/// Pixel `p` of an image.
fn read_pixel(img: &[u8], p: usize) -> (r: Pixel)
    requires
        4 * p + 4 <= img@.len(),
    ensures
        r == pixel_at(img@, p as int),
{
    assert(img.len() <= usize::MAX);
    Pixel { r: img[4 * p], g: img[4 * p + 1], b: img[4 * p + 2], a: img[4 * p + 3] }
}

/// Writes the first pixels of an image.
fn paint(img: &mut [u8], px: &Vec<Pixel>)
    requires
        4 * px@.len() <= old(img)@.len(),
    ensures
        final(img)@ == painted(old(img)@, px@),
        final(img)@.len() == old(img)@.len(),
{
    let n: usize = px.len();
    let len: usize = img.len();
    let mut p: usize = 0;
    while p < n
        invariant
            p <= n == px@.len(),
            4 * n <= len,
            len == img@.len(),
            len == old(img)@.len(),
            forall|i: int|
                0 <= i < len ==> #[trigger] img@[i] == if i < 4 * p {
                    px@[i / 4].component(i % 4)
                } else {
                    old(img)@[i]
                },
        decreases n - p,
    {
        let v = px[p];
        img[4 * p] = v.r;
        img[4 * p + 1] = v.g;
        img[4 * p + 2] = v.b;
        img[4 * p + 3] = v.a;
        p = p + 1;
    }
    assert(img@ =~= painted(old(img)@, px@));
}

// ---------------------------------------------------------------------------
// Blurs
// ---------------------------------------------------------------------------

/// The box radius that comes close to a Gaussian of the given deviation.
pub open spec fn box_radius(f: Ops, sigma: u32) -> u32 {
    if float_lt(0x3f00_0000, sigma) {
        f(FloatOp::Div, f(FloatOp::Sub, sigma, 0x3f00_0000, 0), 0x3f13_cd36, 0)
    } else {
        0
    }
}

/// The box radius in whole pixels.
pub open spec fn pixel_radius(f: Ops, sigma: u32) -> int {
    reach(box_radius(f, sigma))
}

/// The box radius in whole pixels.
fn radius_of<A: Fn(FloatOp, u32, u32, u32) -> u32>(f: &FloatUnit<A>, sigma: u32) -> (r: usize)
    requires
        f.steady(),
    ensures
        r == pixel_radius(f.ops(), sigma),
{
    let radius: u32 = if bits_lt(0x3f00_0000, sigma) {
        let d: u32 = f.op(FloatOp::Sub, sigma, 0x3f00_0000, 0);
        f.op(FloatOp::Div, d, 0x3f13_cd36, 0)
    } else {
        0
    };
    reach_of(radius)
}

/// Whether a blur of the given deviation can be carried out: its window sums
/// fit in a word.
pub open spec fn sigma_fits(f: Ops, sigma: u32) -> bool {
    radius_fits(pixel_radius(f, sigma))
}

/// Whether a blur of the given deviation can be carried out.
fn sigma_is_fit<A: Fn(FloatOp, u32, u32, u32) -> u32>(f: &FloatUnit<A>, sigma: u32) -> (r: bool)
    requires
        f.steady(),
    ensures
        r == sigma_fits(f.ops(), sigma),
{
    let n: usize = radius_of(f, sigma);
    n <= 8_421_504
}

// ---------------------------------------------------------------------------
// Filters of single pixels
// ---------------------------------------------------------------------------

/// The color of a pixel with straight alpha.
pub open spec fn straight(f: Ops, p: Pixel) -> Color4f {
    let a = f(FloatOp::Div, byte_float(p.a), BYTE_MAX, 0);
    if float_lt(0, a) {
        Color4f {
            r: f(FloatOp::Div, f(FloatOp::Div, byte_float(p.r), BYTE_MAX, 0), a, 0),
            g: f(FloatOp::Div, f(FloatOp::Div, byte_float(p.g), BYTE_MAX, 0), a, 0),
            b: f(FloatOp::Div, f(FloatOp::Div, byte_float(p.b), BYTE_MAX, 0), a, 0),
            a,
        }
    } else {
        Color4f { r: 0, g: 0, b: 0, a: 0 }
    }
}

/// The byte of a color component that is multiplied by alpha.
pub open spec fn premultiplied_byte(f: Ops, v: u32, a: u32) -> u8 {
    near_byte(f(FloatOp::Mul, f(FloatOp::Mul, kept(v, 0, ONE), a, 0), BYTE_MAX, 0))
}

/// The pixel of a color with straight alpha, held between zero and one.
pub open spec fn premultiplied(f: Ops, c: Color4f) -> Pixel {
    let a = kept(c.a, 0, ONE);
    Pixel {
        r: premultiplied_byte(f, c.r, a),
        g: premultiplied_byte(f, c.g, a),
        b: premultiplied_byte(f, c.b, a),
        a: near_byte(f(FloatOp::Mul, a, BYTE_MAX, 0)),
    }
}

/// A pixel after a color filter, which sees straight alpha.
pub open spec fn tinted(t: Tints, filter: ColorFilter, p: Pixel) -> Pixel {
    premultiplied(t.ops, filtered_color(t, filter, straight(t.ops, p)))
}

/// The color of a pixel with straight alpha.
fn straighten<A: Fn(FloatOp, u32, u32, u32) -> u32>(f: &FloatUnit<A>, p: Pixel) -> (c: Color4f)
    requires
        f.steady(),
    ensures
        c == straight(f.ops(), p),
{
    let a: u32 = f.op(FloatOp::Div, float_of_byte(p.a), BYTE_MAX, 0);
    if bits_lt(0, a) {
        let r: u32 = f.op(FloatOp::Div, float_of_byte(p.r), BYTE_MAX, 0);
        let g: u32 = f.op(FloatOp::Div, float_of_byte(p.g), BYTE_MAX, 0);
        let b: u32 = f.op(FloatOp::Div, float_of_byte(p.b), BYTE_MAX, 0);
        Color4f {
            r: f.op(FloatOp::Div, r, a, 0),
            g: f.op(FloatOp::Div, g, a, 0),
            b: f.op(FloatOp::Div, b, a, 0),
            a,
        }
    } else {
        Color4f { r: 0, g: 0, b: 0, a: 0 }
    }
}

/// The byte of a color component that is multiplied by alpha.
fn premultiply_byte<A: Fn(FloatOp, u32, u32, u32) -> u32>(f: &FloatUnit<A>, v: u32, a: u32) -> (b:
    u8)
    requires
        f.steady(),
    ensures
        b == premultiplied_byte(f.ops(), v, a),
{
    let m: u32 = f.op(FloatOp::Mul, keep(v, 0, ONE), a, 0);
    let x: u32 = f.op(FloatOp::Mul, m, BYTE_MAX, 0);
    nearest_byte(x)
}

/// The pixel of a color with straight alpha.
fn premultiply<A: Fn(FloatOp, u32, u32, u32) -> u32>(f: &FloatUnit<A>, c: Color4f) -> (p: Pixel)
    requires
        f.steady(),
    ensures
        p == premultiplied(f.ops(), c),
{
    let a: u32 = keep(c.a, 0, ONE);
    let whole: u32 = f.op(FloatOp::Mul, a, BYTE_MAX, 0);
    Pixel {
        r: premultiply_byte(f, c.r, a),
        g: premultiply_byte(f, c.g, a),
        b: premultiply_byte(f, c.b, a),
        a: nearest_byte(whole),
    }
}

/// The factor by which a surface brightens what it shows.
pub open spec fn surface_factor(f: Ops, scale: u32) -> u32 {
    float_min(
        f(
            FloatOp::Add,
            ONE,
            f(FloatOp::Mul, kept(scale, 0, 0x4120_0000), 0x3dcc_cccd, 0),
            0,
        ),
        0x4000_0000,
    )
}

/// A byte under a light.
pub open spec fn lit_byte(f: Ops, b: u8, factor: u32, light: u32) -> u8 {
    let l = kept(f(FloatOp::Mul, light, BYTE_MAX, 0), 0, BYTE_MAX);
    whole_byte(
        f(
            FloatOp::Div,
            f(FloatOp::Mul, f(FloatOp::Mul, byte_float(b), factor, 0), l, 0),
            BYTE_MAX,
            0,
        ),
    )
}

/// A pixel under a light. Alpha stays as it is.
pub open spec fn lit(f: Ops, x: LightingImageFilter, p: Pixel) -> Pixel {
    let k = surface_factor(f, x.surface_scale);
    Pixel {
        r: lit_byte(f, p.r, k, x.light_color.r),
        g: lit_byte(f, p.g, k, x.light_color.g),
        b: lit_byte(f, p.b, k, x.light_color.b),
        a: p.a,
    }
}

/// A byte under a light.
fn light_byte<A: Fn(FloatOp, u32, u32, u32) -> u32>(
    f: &FloatUnit<A>,
    b: u8,
    factor: u32,
    light: u32,
) -> (r: u8)
    requires
        f.steady(),
    ensures
        r == lit_byte(f.ops(), b, factor, light),
{
    let whole: u32 = f.op(FloatOp::Mul, light, BYTE_MAX, 0);
    let l: u32 = keep(whole, 0, BYTE_MAX);
    let m: u32 = f.op(FloatOp::Mul, float_of_byte(b), factor, 0);
    let n: u32 = f.op(FloatOp::Mul, m, l, 0);
    let d: u32 = f.op(FloatOp::Div, n, BYTE_MAX, 0);
    truncated_byte(d)
}

impl LightingImageFilter {
    /// A pixel under the light.
    fn light<A: Fn(FloatOp, u32, u32, u32) -> u32>(&self, f: &FloatUnit<A>, p: Pixel) -> (r: Pixel)
        requires
            f.steady(),
        ensures
            r == lit(f.ops(), *self, p),
    {
        let scale: u32 = keep(self.surface_scale, 0, 0x4120_0000);
        let tenth: u32 = f.op(FloatOp::Mul, scale, 0x3dcc_cccd, 0);
        let sum: u32 = f.op(FloatOp::Add, ONE, tenth, 0);
        let k: u32 = bits_min(sum, 0x4000_0000);
        Pixel {
            r: light_byte(f, p.r, k, self.light_color.r),
            g: light_byte(f, p.g, k, self.light_color.g),
            b: light_byte(f, p.b, k, self.light_color.b),
            a: p.a,
        }
    }
}

// ---------------------------------------------------------------------------
// Shadows
// ---------------------------------------------------------------------------

/// The pixel of a shadow whose blurred alpha is `s`.
pub open spec fn shadow_pixel(f: Ops, c: Color4f, s: u8) -> Pixel {
    let alpha = f(
        FloatOp::Mul,
        f(FloatOp::Div, byte_float(s), BYTE_MAX, 0),
        kept(c.a, 0, ONE),
        0,
    );
    Pixel {
        r: whole_byte(
            f(
                FloatOp::Mul,
                byte_float(whole_byte(f(FloatOp::Mul, c.r, BYTE_MAX, 0))),
                alpha,
                0,
            ),
        ),
        g: whole_byte(
            f(
                FloatOp::Mul,
                byte_float(whole_byte(f(FloatOp::Mul, c.g, BYTE_MAX, 0))),
                alpha,
                0,
            ),
        ),
        b: whole_byte(
            f(
                FloatOp::Mul,
                byte_float(whole_byte(f(FloatOp::Mul, c.b, BYTE_MAX, 0))),
                alpha,
                0,
            ),
        ),
        a: whole_byte(f(FloatOp::Mul, alpha, BYTE_MAX, 0)),
    }
}

/// A byte over another, with the part of the other that shows through.
pub open spec fn over_byte(f: Ops, top: u8, bottom: u8, through: u32) -> u8 {
    whole_byte(
        f(FloatOp::Add, byte_float(top), f(FloatOp::Mul, byte_float(bottom), through, 0), 0),
    )
}

/// A pixel over another.
pub open spec fn over(f: Ops, top: Pixel, bottom: Pixel) -> Pixel {
    let through = f(FloatOp::Sub, ONE, f(FloatOp::Div, byte_float(top.a), BYTE_MAX, 0), 0);
    Pixel {
        r: over_byte(f, top.r, bottom.r, through),
        g: over_byte(f, top.g, bottom.g, through),
        b: over_byte(f, top.b, bottom.b, through),
        a: over_byte(f, top.a, bottom.a, through),
    }
}

/// The pixels of an image with its shadow, or of the shadow alone.
pub open spec fn shadowed(f: Ops, x: DropShadowImageFilter, img: Seq<u8>, w: int, h: int) -> Seq<
    Pixel,
> {
    let alpha = shadow_alpha(
        img,
        w,
        h,
        pixel_radius(f, x.sigma_x),
        pixel_radius(f, x.sigma_y),
        nearest_int(x.dx),
        nearest_int(x.dy),
    );
    Seq::new(
        (w * h) as nat,
        |p: int|
            if x.shadow_only {
                shadow_pixel(f, x.color, alpha[p])
            } else {
                over(f, pixel_at(img, p), shadow_pixel(f, x.color, alpha[p]))
            },
    )
}

/// A component of the pixel of a shadow.
fn shadow_byte<A: Fn(FloatOp, u32, u32, u32) -> u32>(f: &FloatUnit<A>, c: u32, alpha: u32) -> (r:
    u8)
    requires
        f.steady(),
    ensures
        r == whole_byte(
            f.ops()(
                FloatOp::Mul,
                byte_float(whole_byte(f.ops()(FloatOp::Mul, c, BYTE_MAX, 0))),
                alpha,
                0,
            ),
        ),
{
    let x: u32 = f.op(FloatOp::Mul, c, BYTE_MAX, 0);
    let y: u32 = f.op(FloatOp::Mul, float_of_byte(truncated_byte(x)), alpha, 0);
    truncated_byte(y)
}

/// The pixel of a shadow.
fn make_shadow<A: Fn(FloatOp, u32, u32, u32) -> u32>(f: &FloatUnit<A>, c: Color4f, s: u8) -> (r:
    Pixel)
    requires
        f.steady(),
    ensures
        r == shadow_pixel(f.ops(), c, s),
{
    let part: u32 = f.op(FloatOp::Div, float_of_byte(s), BYTE_MAX, 0);
    let alpha: u32 = f.op(FloatOp::Mul, part, keep(c.a, 0, ONE), 0);
    let whole: u32 = f.op(FloatOp::Mul, alpha, BYTE_MAX, 0);
    Pixel {
        r: shadow_byte(f, c.r, alpha),
        g: shadow_byte(f, c.g, alpha),
        b: shadow_byte(f, c.b, alpha),
        a: truncated_byte(whole),
    }
}

/// A byte over another.
fn put_over<A: Fn(FloatOp, u32, u32, u32) -> u32>(
    f: &FloatUnit<A>,
    top: u8,
    bottom: u8,
    through: u32,
) -> (r: u8)
    requires
        f.steady(),
    ensures
        r == over_byte(f.ops(), top, bottom, through),
{
    let m: u32 = f.op(FloatOp::Mul, float_of_byte(bottom), through, 0);
    let s: u32 = f.op(FloatOp::Add, float_of_byte(top), m, 0);
    truncated_byte(s)
}

/// A pixel over another.
fn composite<A: Fn(FloatOp, u32, u32, u32) -> u32>(
    f: &FloatUnit<A>,
    top: Pixel,
    bottom: Pixel,
) -> (r: Pixel)
    requires
        f.steady(),
    ensures
        r == over(f.ops(), top, bottom),
{
    let part: u32 = f.op(FloatOp::Div, float_of_byte(top.a), BYTE_MAX, 0);
    let through: u32 = f.op(FloatOp::Sub, ONE, part, 0);
    Pixel {
        r: put_over(f, top.r, bottom.r, through),
        g: put_over(f, top.g, bottom.g, through),
        b: put_over(f, top.b, bottom.b, through),
        a: put_over(f, top.a, bottom.a, through),
    }
}

/// The number of pixels of an image.
fn count_pixels(width: usize, height: usize, len: usize) -> (n: usize)
    requires
        width * height * 4 <= len,
    ensures
        n == width * height,
        4 * n <= len,
{
    assert(0 <= width * height) by (nonlinear_arith)
        requires
            width >= 0,
            height >= 0,
    ;
    width * height
}

impl DropShadowImageFilter {
    /// Applies the filter to an image.
    fn run<A: Fn(FloatOp, u32, u32, u32) -> u32>(
        &self,
        f: &FloatUnit<A>,
        pixels: &mut [u8],
        width: usize,
        height: usize,
    )
        requires
            f.steady(),
            width * height * 4 <= old(pixels)@.len(),
            sigma_fits(f.ops(), self.sigma_x),
            sigma_fits(f.ops(), self.sigma_y),
        ensures
            final(pixels)@ == painted(
                old(pixels)@,
                shadowed(f.ops(), *self, old(pixels)@, width as int, height as int),
            ),
            final(pixels)@.len() == old(pixels)@.len(),
    {
        let n: usize = count_pixels(width, height, pixels.len());
        let rx: usize = radius_of(f, self.sigma_x);
        let ry: usize = radius_of(f, self.sigma_y);
        let alpha = cast_shadow(
            pixels,
            width,
            height,
            rx,
            ry,
            bits_round(self.dx),
            bits_round(self.dy),
        );
        let ghost want = shadowed(f.ops(), *self, old(pixels)@, width as int, height as int);
        let mut px: Vec<Pixel> = Vec::new();
        let mut p: usize = 0;
        while p < n
            invariant
                f.steady(),
                p <= n == width * height,
                4 * n <= pixels@.len(),
                pixels@ == old(pixels)@,
                want == shadowed(f.ops(), *self, old(pixels)@, width as int, height as int),
                alpha@ == shadow_alpha(
                    pixels@,
                    width as int,
                    height as int,
                    pixel_radius(f.ops(), self.sigma_x),
                    pixel_radius(f.ops(), self.sigma_y),
                    nearest_int(self.dx),
                    nearest_int(self.dy),
                ),
                alpha@.len() == n,
                px@.len() == p,
                forall|k: int| 0 <= k < p ==> #[trigger] px@[k] == want[k],
            decreases n - p,
        {
            let s = make_shadow(f, self.color, alpha[p]);
            if self.shadow_only {
                px.push(s);
            } else {
                px.push(composite(f, read_pixel(pixels, p), s));
            }
            p = p + 1;
        }
        assert(px@ =~= want);
        paint(pixels, &px);
    }
}

// ---------------------------------------------------------------------------
// Displacement
// ---------------------------------------------------------------------------

/// The number of a component.
pub open spec fn channel_number(c: ColorChannel) -> int {
    match c {
        ColorChannel::R => 0,
        ColorChannel::G => 1,
        ColorChannel::B => 2,
        ColorChannel::A => 3,
    }
}

/// Where coordinate `v` is displaced to by a byte: the middle of the bytes
/// displaces by nothing, the ends by the scale.
pub open spec fn displaced(f: Ops, v: int, b: u8, scale: u32) -> int {
    int_of_float(
        f(
            FloatOp::Add,
            float_of_int(v),
            f(
                FloatOp::Mul,
                f(FloatOp::Sub, f(FloatOp::Div, byte_float(b), 0x42ff_0000, 0), ONE, 0),
                scale,
                0,
            ),
            0,
        ),
    )
}

/// Where coordinate `v` is displaced to by a byte.
fn displace<A: Fn(FloatOp, u32, u32, u32) -> u32>(
    f: &FloatUnit<A>,
    v: i32,
    b: u8,
    scale: u32,
) -> (r: i32)
    requires
        f.steady(),
    ensures
        r == displaced(f.ops(), v as int, b, scale),
{
    let q: u32 = f.op(FloatOp::Div, float_of_byte(b), 0x42ff_0000, 0);
    let d: u32 = f.op(FloatOp::Sub, q, ONE, 0);
    let m: u32 = f.op(FloatOp::Mul, d, scale, 0);
    let s: u32 = f.op(FloatOp::Add, int_to_bits(v), m, 0);
    bits_to_int(s)
}

/// The columns that the pixels of an image are displaced to.
pub open spec fn displaced_columns(
    f: Ops,
    x: DisplacementMapImageFilter,
    img: Seq<u8>,
    w: int,
    h: int,
) -> Seq<i32> {
    Seq::new(
        (w * h) as nat,
        |p: int|
            displaced(f, capped(p % w), img[4 * p + channel_number(x.x_channel)], x.scale) as i32,
    )
}

/// The rows that the pixels of an image are displaced to.
pub open spec fn displaced_rows(
    f: Ops,
    x: DisplacementMapImageFilter,
    img: Seq<u8>,
    w: int,
    h: int,
) -> Seq<i32> {
    Seq::new(
        (w * h) as nat,
        |p: int|
            displaced(f, capped(p / w), img[4 * p + channel_number(x.y_channel)], x.scale) as i32,
    )
}

/// The number of a component.
fn channel_index(c: ColorChannel) -> (r: usize)
    ensures
        r == channel_number(c),
        r < 4,
{
    match c {
        ColorChannel::R => 0,
        ColorChannel::G => 1,
        ColorChannel::B => 2,
        ColorChannel::A => 3,
    }
}

impl DisplacementMapImageFilter {
    /// Applies the filter to an image, which also tells the displacement.
    fn run<A: Fn(FloatOp, u32, u32, u32) -> u32>(
        &self,
        f: &FloatUnit<A>,
        pixels: &mut [u8],
        width: usize,
        height: usize,
    )
        requires
            f.steady(),
            width * height * 4 <= old(pixels)@.len(),
            0 < width,
        ensures
            final(pixels)@ == remapped(
                old(pixels)@,
                displacement_map(
                    width as int,
                    height as int,
                    displaced_columns(
                        f.ops(),
                        *self,
                        old(pixels)@,
                        width as int,
                        height as int,
                    ),
                    displaced_rows(f.ops(), *self, old(pixels)@, width as int, height as int),
                ),
            ),
            final(pixels)@.len() == old(pixels)@.len(),
    {
        let len: usize = pixels.len();
        let n: usize = count_pixels(width, height, len);
        let cx: usize = channel_index(self.x_channel);
        let cy: usize = channel_index(self.y_channel);
        let mut xs: Vec<i32> = Vec::new();
        let mut ys: Vec<i32> = Vec::new();
        let mut p: usize = 0;
        while p < n
            invariant
                f.steady(),
                p <= n == width * height,
                4 * n <= len == pixels@.len(),
                pixels@ == old(pixels)@,
                0 < width,
                cx == channel_number(self.x_channel),
                cy == channel_number(self.y_channel),
                cx < 4,
                cy < 4,
                xs@.len() == p,
                ys@.len() == p,
                forall|k: int|
                    0 <= k < p ==> #[trigger] xs@[k] == displaced_columns(
                        f.ops(),
                        *self,
                        pixels@,
                        width as int,
                        height as int,
                    )[k],
                forall|k: int|
                    0 <= k < p ==> #[trigger] ys@[k] == displaced_rows(
                        f.ops(),
                        *self,
                        pixels@,
                        width as int,
                        height as int,
                    )[k],
            decreases n - p,
        {
            proof {
                lemma_row_in_range(p as int, width as int, height as int);
            }
            let q: usize = 4 * p;
            xs.push(displace(f, cap(p % width) as i32, pixels[q + cx], self.scale));
            ys.push(displace(f, cap(p / width) as i32, pixels[q + cy], self.scale));
            p = p + 1;
        }
        assert(xs@ =~= displaced_columns(
            f.ops(),
            *self,
            pixels@,
            width as int,
            height as int,
        ));
        assert(ys@ =~= displaced_rows(f.ops(), *self, pixels@, width as int, height as int));
        displace_pixels(pixels, width, height, &xs, &ys);
    }
}

proof fn lemma_row_in_range(p: int, w: int, h: int)
    requires
        0 <= p < w * h,
        0 < w,
    ensures
        0 <= p / w < h,
        0 <= p % w < w,
{
    vstd::arithmetic::div_mod::lemma_fundamental_div_mod(p, w);
    assert(0 <= p / w < h) by (nonlinear_arith)
        requires
            0 <= p < w * h,
            0 < w,
            p == w * (p / w) + p % w,
            0 <= p % w < w,
    ;
}

// ---------------------------------------------------------------------------
// Convolutions
// ---------------------------------------------------------------------------

/// An entry of a kernel; zero where the kernel has none.
pub open spec fn kernel_entry(kernel: Seq<u32>, t: int) -> u32 {
    if t < kernel.len() {
        kernel[t]
    } else {
        0
    }
}

/// The sum of component `c` over the first `n` taps, each weighted by its
/// entry. With `straight`, components are taken without alpha, and pixels
/// without alpha are left out.
pub open spec fn weighted_sum(
    f: Ops,
    kernel: Seq<u32>,
    img: Seq<u8>,
    taps: Seq<(int, int)>,
    c: int,
    straight: bool,
    n: nat,
) -> u32
    decreases n,
{
    if n == 0 {
        0
    } else {
        let acc = weighted_sum(f, kernel, img, taps, c, straight, (n - 1) as nat);
        let px = pixel_at(img, taps[n - 1].0);
        let v = byte_float(px.component(c));
        let k = kernel_entry(kernel, taps[n - 1].1);
        if straight {
            let a = f(FloatOp::Div, byte_float(px.a), BYTE_MAX, 0);
            if float_lt(0, a) {
                f(FloatOp::MulAdd, f(FloatOp::Div, v, a, 0), k, acc)
            } else {
                acc
            }
        } else {
            f(FloatOp::MulAdd, v, k, acc)
        }
    }
}

/// Component `c` of pixel `p` after a convolution of all components.
pub open spec fn convolved_whole(
    f: Ops,
    x: MatrixConvolutionImageFilter,
    img: Seq<u8>,
    taps: Seq<(int, int)>,
    c: int,
) -> u8 {
    near_byte(
        f(
            FloatOp::MulAdd,
            weighted_sum(f, x.kernel@, img, taps, c, false, taps.len()),
            x.gain,
            x.bias,
        ),
    )
}

/// Component `c` of a pixel of alpha `a` after a convolution of the colors.
pub open spec fn convolved_color(
    f: Ops,
    x: MatrixConvolutionImageFilter,
    img: Seq<u8>,
    taps: Seq<(int, int)>,
    c: int,
    a: u8,
) -> u8 {
    near_byte(
        f(
            FloatOp::Mul,
            kept(
                f(
                    FloatOp::MulAdd,
                    weighted_sum(f, x.kernel@, img, taps, c, true, taps.len()),
                    x.gain,
                    x.bias,
                ),
                0,
                BYTE_MAX,
            ),
            f(FloatOp::Div, byte_float(a), BYTE_MAX, 0),
            0,
        ),
    )
}

/// Pixel `p` of an image after a convolution.
pub open spec fn convolved_pixel(
    f: Ops,
    x: MatrixConvolutionImageFilter,
    img: Seq<u8>,
    w: int,
    h: int,
    p: int,
) -> Pixel {
    let shape = x.kernel_shape();
    let taps = shape.taps(p % w, p / w, w, h, (shape.width * shape.height) as nat);
    if x.convolve_alpha {
        Pixel {
            r: convolved_whole(f, x, img, taps, 0),
            g: convolved_whole(f, x, img, taps, 1),
            b: convolved_whole(f, x, img, taps, 2),
            a: convolved_whole(f, x, img, taps, 3),
        }
    } else {
        let a = img[4 * p + 3];
        Pixel {
            r: convolved_color(f, x, img, taps, 0, a),
            g: convolved_color(f, x, img, taps, 1, a),
            b: convolved_color(f, x, img, taps, 2, a),
            a,
        }
    }
}

/// An image after a convolution. A kernel without entries leaves it alone.
pub open spec fn convolved(
    f: Ops,
    x: MatrixConvolutionImageFilter,
    img: Seq<u8>,
    w: int,
    h: int,
) -> Seq<u8> {
    if x.kernel_size.0 <= 0 || x.kernel_size.1 <= 0 || x.kernel@.len() == 0 {
        img
    } else {
        painted(img, Seq::new((w * h) as nat, |p: int| convolved_pixel(f, x, img, w, h, p)))
    }
}

/// A component of a pixel.
fn component_of(p: Pixel, c: usize) -> (r: u8)
    ensures
        r == p.component(c as int),
{
    if c == 0 {
        p.r
    } else if c == 1 {
        p.g
    } else if c == 2 {
        p.b
    } else {
        p.a
    }
}

impl MatrixConvolutionImageFilter {
    /// Whether the entries of the kernel can be counted.
    pub open spec fn countable(self) -> bool {
        self.kernel_size.0 > 0 && self.kernel_size.1 > 0 ==> self.kernel_size.0
            * self.kernel_size.1 <= usize::MAX
    }

    /// Whether the entries of the kernel can be counted.
    fn is_countable(&self) -> (r: bool)
        ensures
            r == self.countable(),
    {
        if self.kernel_size.0 > 0 && self.kernel_size.1 > 0 {
            let a: u128 = self.kernel_size.0 as u128;
            let b: u128 = self.kernel_size.1 as u128;
            assert(0 <= a * b <= 0x7fff_ffff * 0x7fff_ffff) by (nonlinear_arith)
                requires
                    0 <= a <= 0x7fff_ffff,
                    0 <= b <= 0x7fff_ffff,
            ;
            a * b <= usize::MAX as u128
        } else {
            true
        }
    }

    /// The weighted sum of a component over taps.
    fn sum<A: Fn(FloatOp, u32, u32, u32) -> u32>(
        &self,
        f: &FloatUnit<A>,
        pixels: &[u8],
        taps: &Vec<(usize, usize)>,
        c: usize,
        straight: bool,
    ) -> (acc: u32)
        requires
            f.steady(),
            forall|i: int|
                0 <= i < taps@.len() ==> 4 * (#[trigger] taps@[i]).0 + 4 <= pixels@.len(),
        ensures
            acc == weighted_sum(
                f.ops(),
                self.kernel@,
                pixels@,
                int_pairs(taps@),
                c as int,
                straight,
                taps@.len(),
            ),
    {
        let mut acc: u32 = 0;
        let mut i: usize = 0;
        while i < taps.len()
            invariant
                f.steady(),
                i <= taps@.len(),
                forall|i: int|
                    0 <= i < taps@.len() ==> 4 * (#[trigger] taps@[i]).0 + 4 <= pixels@.len(),
                acc == weighted_sum(
                    f.ops(),
                    self.kernel@,
                    pixels@,
                    int_pairs(taps@),
                    c as int,
                    straight,
                    i as nat,
                ),
            decreases taps@.len() - i,
        {
            let (q, t) = taps[i];
            assert(4 * taps@[i as int].0 + 4 <= pixels@.len());
            let px = read_pixel(pixels, q);
            let v: u32 = float_of_byte(component_of(px, c));
            let k: u32 = if t < self.kernel.len() {
                self.kernel[t]
            } else {
                0
            };
            if straight {
                let a: u32 = f.op(FloatOp::Div, float_of_byte(px.a), BYTE_MAX, 0);
                if bits_lt(0, a) {
                    let d: u32 = f.op(FloatOp::Div, v, a, 0);
                    acc = f.op(FloatOp::MulAdd, d, k, acc);
                }
            } else {
                acc = f.op(FloatOp::MulAdd, v, k, acc);
            }
            i = i + 1;
        }
        acc
    }

    /// A component after a convolution of all components.
    fn whole<A: Fn(FloatOp, u32, u32, u32) -> u32>(
        &self,
        f: &FloatUnit<A>,
        pixels: &[u8],
        taps: &Vec<(usize, usize)>,
        c: usize,
    ) -> (r: u8)
        requires
            f.steady(),
            forall|i: int|
                0 <= i < taps@.len() ==> 4 * (#[trigger] taps@[i]).0 + 4 <= pixels@.len(),
        ensures
            r == convolved_whole(f.ops(), *self, pixels@, int_pairs(taps@), c as int),
    {
        let acc: u32 = self.sum(f, pixels, taps, c, false);
        nearest_byte(f.op(FloatOp::MulAdd, acc, self.gain, self.bias))
    }

    /// A component after a convolution of the colors.
    fn colored<A: Fn(FloatOp, u32, u32, u32) -> u32>(
        &self,
        f: &FloatUnit<A>,
        pixels: &[u8],
        taps: &Vec<(usize, usize)>,
        c: usize,
        a: u8,
    ) -> (r: u8)
        requires
            f.steady(),
            forall|i: int|
                0 <= i < taps@.len() ==> 4 * (#[trigger] taps@[i]).0 + 4 <= pixels@.len(),
        ensures
            r == convolved_color(f.ops(), *self, pixels@, int_pairs(taps@), c as int, a),
    {
        let acc: u32 = self.sum(f, pixels, taps, c, true);
        let v: u32 = f.op(FloatOp::MulAdd, acc, self.gain, self.bias);
        let part: u32 = f.op(FloatOp::Div, float_of_byte(a), BYTE_MAX, 0);
        nearest_byte(f.op(FloatOp::Mul, keep(v, 0, BYTE_MAX), part, 0))
    }

    /// Applies the filter to an image. The input is not looked at.
    fn run<A: Fn(FloatOp, u32, u32, u32) -> u32>(
        &self,
        f: &FloatUnit<A>,
        pixels: &mut [u8],
        width: usize,
        height: usize,
    )
        requires
            f.steady(),
            self.countable(),
            width * height * 4 <= old(pixels)@.len(),
            0 < width,
        ensures
            final(pixels)@ == convolved(
                f.ops(),
                *self,
                old(pixels)@,
                width as int,
                height as int,
            ),
            final(pixels)@.len() == old(pixels)@.len(),
    {
        if self.kernel_size.0 <= 0 || self.kernel_size.1 <= 0 || self.kernel.len() == 0 {
            return;
        }
        let len: usize = pixels.len();
        let n: usize = count_pixels(width, height, len);
        let shape = self.shape();
        let ghost want = Seq::new(
            (width * height) as nat,
            |p: int|
                convolved_pixel(f.ops(), *self, pixels@, width as int, height as int, p),
        );
        let mut px: Vec<Pixel> = Vec::new();
        let mut p: usize = 0;
        while p < n
            invariant
                f.steady(),
                self.countable(),
                self.kernel_size.0 > 0,
                self.kernel_size.1 > 0,
                shape == self.kernel_shape(),
                p <= n == width * height,
                4 * n <= len == pixels@.len(),
                pixels@ == old(pixels)@,
                0 < width,
                px@.len() == p,
                want.len() == n,
                forall|k: int|
                    0 <= k < n ==> #[trigger] want[k] == convolved_pixel(
                        f.ops(),
                        *self,
                        pixels@,
                        width as int,
                        height as int,
                        k,
                    ),
                forall|k: int| 0 <= k < p ==> #[trigger] px@[k] == want[k],
            decreases n - p,
        {
            proof {
                lemma_row_in_range(p as int, width as int, height as int);
            }
            let taps = kernel_taps(shape, p % width, p / width, width, height);
            assert(forall|i: int|
                0 <= i < taps@.len() ==> 4 * (#[trigger] taps@[i]).0 + 4 <= pixels@.len());
            if self.convolve_alpha {
                px.push(
                    Pixel {
                        r: self.whole(f, pixels, &taps, 0),
                        g: self.whole(f, pixels, &taps, 1),
                        b: self.whole(f, pixels, &taps, 2),
                        a: self.whole(f, pixels, &taps, 3),
                    },
                );
            } else {
                let a: u8 = pixels[4 * p + 3];
                px.push(
                    Pixel {
                        r: self.colored(f, pixels, &taps, 0, a),
                        g: self.colored(f, pixels, &taps, 1, a),
                        b: self.colored(f, pixels, &taps, 2, a),
                        a,
                    },
                );
            }
            assert(px@[p as int] == want[p as int]);
            p = p + 1;
        }
        assert(px@ =~= want);
        paint(pixels, &px);
    }
}

// ---------------------------------------------------------------------------
// Dilations and erosions
// ---------------------------------------------------------------------------

/// An image after a dilation, if `largest`, or an erosion.
pub open spec fn morph_result(
    img: Seq<u8>,
    w: int,
    h: int,
    rx: int,
    ry: int,
    largest: bool,
) -> Seq<u8> {
    choose|after: Seq<u8>| morphed(img, after, w, h, rx, ry, largest)
}

/// There is only one image after a dilation or an erosion.
proof fn lemma_morph_is_one(
    img: Seq<u8>,
    a: Seq<u8>,
    w: int,
    h: int,
    rx: int,
    ry: int,
    largest: bool,
)
    requires
        morphed(img, a, w, h, rx, ry, largest),
        0 < w,
        0 < h,
        w * h * 4 <= img.len(),
    ensures
        a == morph_result(img, w, h, rx, ry, largest),
{
    let b = morph_result(img, w, h, rx, ry, largest);
    assert(morphed(img, b, w, h, rx, ry, largest));
    assert forall|i: int| 0 <= i < a.len() implies a[i] == b[i] by {
        if i < w * h * 4 {
            lemma_place_of(i, w, h, 4);
            let x = i / 4 % w;
            let y = i / 4 / w;
            let c = i % 4;
            assert(place(x, y, c, w, 4) == i);
            assert(is_extreme(img, w, h, x, y, c, rx, ry, largest, a[place(x, y, c, w, 4)]));
            assert(is_extreme(img, w, h, x, y, c, rx, ry, largest, b[place(x, y, c, w, 4)]));
        }
    }
    assert(a =~= b);
}

// ---------------------------------------------------------------------------
// All filters
// ---------------------------------------------------------------------------

/// Whether a filter can be carried out: its blurs and kernels have a size that
/// can be counted with.
pub open spec fn workable(f: Ops, filter: ImageFilter) -> bool
    decreases filter,
{
    match filter {
        ImageFilter::Blur(x) => sigma_fits(f, x.sigma_x) && sigma_fits(f, x.sigma_y),
        ImageFilter::DropShadow(x) => sigma_fits(f, x.sigma_x) && sigma_fits(f, x.sigma_y),
        ImageFilter::ColorFilter(x) => workable_input(f, x.input),
        ImageFilter::Offset(x) => workable_input(f, x.input),
        ImageFilter::Compose(x) => workable(f, *x.inner) && workable(f, *x.outer),
        ImageFilter::MatrixConvolution(x) => x.countable(),
        _ => true,
    }
}

/// Whether an input can be carried out.
pub open spec fn workable_input(f: Ops, input: Option<ImageFilterRef>) -> bool
    decreases input,
{
    match input {
        Some(x) => workable(f, *x),
        None => true,
    }
}

/// An image after the input of a filter.
pub open spec fn after_input(
    t: Tints,
    input: Option<ImageFilterRef>,
    img: Seq<u8>,
    w: int,
    h: int,
) -> Seq<u8>
    decreases input,
{
    match input {
        Some(x) => applied(t, *x, img, w, h),
        None => img,
    }
}

/// An image after a filter. Merges and blends leave it alone.
pub open spec fn applied(t: Tints, filter: ImageFilter, img: Seq<u8>, w: int, h: int) -> Seq<u8>
    decreases filter,
{
    if w == 0 || h == 0 {
        img
    } else {
        match filter {
            ImageFilter::Blur(x) => repeated_blur(
                img,
                w,
                h,
                4,
                pixel_radius(t.ops, x.sigma_x),
                pixel_radius(t.ops, x.sigma_y),
                3,
            ),
            ImageFilter::DropShadow(x) => painted(img, shadowed(t.ops, x, img, w, h)),
            ImageFilter::Morphology(x) => morph_result(
                img,
                w,
                h,
                reach(x.radius_x),
                reach(x.radius_y),
                x.morph_type == MorphologyType::Dilate,
            ),
            ImageFilter::ColorFilter(x) => {
                let before = after_input(t, x.input, img, w, h);
                painted(
                    before,
                    Seq::new(
                        (w * h) as nat,
                        |p: int| tinted(t, *x.color_filter, pixel_at(before, p)),
                    ),
                )
            },
            ImageFilter::DisplacementMap(x) => remapped(
                img,
                displacement_map(
                    w,
                    h,
                    displaced_columns(t.ops, x, img, w, h),
                    displaced_rows(t.ops, x, img, w, h),
                ),
            ),
            ImageFilter::Lighting(x) => painted(
                img,
                Seq::new((w * h) as nat, |p: int| lit(t.ops, x, pixel_at(img, p))),
            ),
            ImageFilter::Compose(x) => applied(
                t,
                *x.outer,
                applied(t, *x.inner, img, w, h),
                w,
                h,
            ),
            ImageFilter::Offset(x) => remapped(
                after_input(t, x.input, img, w, h),
                shift_map(w, h, nearest_int(x.dx), nearest_int(x.dy)),
            ),
            ImageFilter::MatrixConvolution(x) => convolved(t.ops, x, img, w, h),
            ImageFilter::Tile(x) => remapped(
                img,
                tile_map(w, h, covered(x.src_rect, w, h), covered(x.dst_rect, w, h)),
            ),
            ImageFilter::Merge(_) => img,
            ImageFilter::Blend(_) => img,
            ImageFilter::Arithmetic(_) => img,
        }
    }
}

impl LightingImageFilter {
    /// Applies the filter to an image. The input is not looked at.
    fn run<A: Fn(FloatOp, u32, u32, u32) -> u32>(
        &self,
        f: &FloatUnit<A>,
        pixels: &mut [u8],
        width: usize,
        height: usize,
    )
        requires
            f.steady(),
            width * height * 4 <= old(pixels)@.len(),
        ensures
            final(pixels)@ == painted(
                old(pixels)@,
                Seq::new(
                    (width * height) as nat,
                    |p: int| lit(f.ops(), *self, pixel_at(old(pixels)@, p)),
                ),
            ),
            final(pixels)@.len() == old(pixels)@.len(),
    {
        let n: usize = count_pixels(width, height, pixels.len());
        let mut px: Vec<Pixel> = Vec::new();
        let mut p: usize = 0;
        while p < n
            invariant
                f.steady(),
                p <= n == width * height,
                4 * n <= pixels@.len(),
                pixels@ == old(pixels)@,
                px@.len() == p,
                forall|k: int|
                    0 <= k < p ==> #[trigger] px@[k] == lit(
                        f.ops(),
                        *self,
                        pixel_at(old(pixels)@, k),
                    ),
            decreases n - p,
        {
            px.push(self.light(f, read_pixel(pixels, p)));
            p = p + 1;
        }
        assert(px@ =~= Seq::new(
            (width * height) as nat,
            |p: int| lit(f.ops(), *self, pixel_at(old(pixels)@, p)),
        ));
        paint(pixels, &px);
    }
}

impl<A: Fn(FloatOp, u32, u32, u32) -> u32, R: Fn(&RuntimeColorFilter, Color4f) -> Color4f> Tinter<
    A,
    R,
> {
    /// Applies a color filter to every pixel.
    fn tint(&self, filter: &ColorFilter, pixels: &mut [u8], width: usize, height: usize)
        requires
            self.steady(),
            width * height * 4 <= old(pixels)@.len(),
        ensures
            final(pixels)@ == painted(
                old(pixels)@,
                Seq::new(
                    (width * height) as nat,
                    |p: int| tinted(self.tints(), *filter, pixel_at(old(pixels)@, p)),
                ),
            ),
            final(pixels)@.len() == old(pixels)@.len(),
    {
        proof {
            self.lemma_floats();
        }
        let n: usize = count_pixels(width, height, pixels.len());
        let mut px: Vec<Pixel> = Vec::new();
        let mut p: usize = 0;
        while p < n
            invariant
                self.steady(),
                self.floats.steady(),
                self.floats.ops() == self.tints().ops,
                p <= n == width * height,
                4 * n <= pixels@.len(),
                pixels@ == old(pixels)@,
                px@.len() == p,
                forall|k: int|
                    0 <= k < p ==> #[trigger] px@[k] == tinted(
                        self.tints(),
                        *filter,
                        pixel_at(old(pixels)@, k),
                    ),
            decreases n - p,
        {
            let c = straighten(&self.floats, read_pixel(pixels, p));
            px.push(premultiply(&self.floats, self.filter_color(filter, c)));
            p = p + 1;
        }
        assert(px@ =~= Seq::new(
            (width * height) as nat,
            |p: int| tinted(self.tints(), *filter, pixel_at(old(pixels)@, p)),
        ));
        paint(pixels, &px);
    }

    /// Whether a filter can be carried out.
    fn can_run(&self, filter: &ImageFilter) -> (r: bool)
        requires
            self.steady(),
        ensures
            r == workable(self.tints().ops, *filter),
        decreases filter,
    {
        proof {
            self.lemma_floats();
        }
        let f = &self.floats;
        match filter {
            ImageFilter::Blur(x) => sigma_is_fit(f, x.sigma_x) && sigma_is_fit(f, x.sigma_y),
            ImageFilter::DropShadow(x) => sigma_is_fit(f, x.sigma_x) && sigma_is_fit(
                f,
                x.sigma_y,
            ),
            ImageFilter::ColorFilter(x) => self.can_run_input(&x.input),
            ImageFilter::Offset(x) => self.can_run_input(&x.input),
            ImageFilter::Compose(x) => self.can_run(&x.inner) && self.can_run(&x.outer),
            ImageFilter::MatrixConvolution(x) => x.is_countable(),
            _ => true,
        }
    }

    /// Whether an input can be carried out.
    fn can_run_input(&self, input: &Option<ImageFilterRef>) -> (r: bool)
        requires
            self.steady(),
        ensures
            r == workable_input(self.tints().ops, *input),
        decreases input,
    {
        match input {
            Some(x) => self.can_run(x),
            None => true,
        }
    }

    /// Applies the input of a filter.
    fn run_input(
        &self,
        input: &Option<ImageFilterRef>,
        pixels: &mut [u8],
        width: usize,
        height: usize,
    )
        requires
            self.steady(),
            workable_input(self.tints().ops, *input),
            width * height * 4 <= old(pixels)@.len(),
        ensures
            final(pixels)@ == after_input(
                self.tints(),
                *input,
                old(pixels)@,
                width as int,
                height as int,
            ),
            final(pixels)@.len() == old(pixels)@.len(),
        decreases input,
    {
        match input {
            Some(x) => {
                self.run_filter(x, pixels, width, height);
            },
            None => {},
        }
    }

    /// Applies a filter that can be carried out.
    fn run_filter(&self, filter: &ImageFilter, pixels: &mut [u8], width: usize, height: usize)
        requires
            self.steady(),
            workable(self.tints().ops, *filter),
            width * height * 4 <= old(pixels)@.len(),
        ensures
            final(pixels)@ == applied(
                self.tints(),
                *filter,
                old(pixels)@,
                width as int,
                height as int,
            ),
            final(pixels)@.len() == old(pixels)@.len(),
        decreases filter,
    {
        if width == 0 || height == 0 {
            return;
        }
        proof {
            self.lemma_floats();
        }
        let f = &self.floats;
        match filter {
            ImageFilter::Blur(x) => {
                let rx: usize = radius_of(f, x.sigma_x);
                let ry: usize = radius_of(f, x.sigma_y);
                blur_image(pixels, width, height, rx, ry);
                proof {
                    reveal_with_fuel(repeated_blur, 4);
                }
            },
            ImageFilter::DropShadow(x) => {
                x.run(f, pixels, width, height);
            },
            ImageFilter::Morphology(x) => {
                x.apply(pixels, width, height);
                proof {
                    lemma_morph_is_one(
                        old(pixels)@,
                        pixels@,
                        width as int,
                        height as int,
                        reach(x.radius_x),
                        reach(x.radius_y),
                        x.morph_type == MorphologyType::Dilate,
                    );
                }
            },
            ImageFilter::ColorFilter(x) => {
                self.run_input(&x.input, pixels, width, height);
                self.tint(&x.color_filter, pixels, width, height);
            },
            ImageFilter::DisplacementMap(x) => {
                x.run(f, pixels, width, height);
            },
            ImageFilter::Lighting(x) => {
                x.run(f, pixels, width, height);
            },
            ImageFilter::Compose(x) => {
                self.run_filter(&x.inner, pixels, width, height);
                self.run_filter(&x.outer, pixels, width, height);
            },
            ImageFilter::Offset(x) => {
                self.run_input(&x.input, pixels, width, height);
                x.apply_offset(pixels, width, height);
            },
            ImageFilter::MatrixConvolution(x) => {
                x.run(f, pixels, width, height);
            },
            ImageFilter::Tile(x) => {
                x.apply(pixels, width, height);
            },
            ImageFilter::Merge(_) => {},
            ImageFilter::Blend(_) => {},
            ImageFilter::Arithmetic(_) => {},
        }
    }

    /// Applies a filter to an image of four bytes for each pixel. The result
    /// tells whether the filter could be carried out; an image is left alone
    /// under one that cannot.
    pub fn apply(&self, filter: &ImageFilter, pixels: &mut [u8], width: usize, height: usize) -> (r:
        bool)
        requires
            self.steady(),
            width * height * 4 <= old(pixels)@.len(),
        ensures
            r == workable(self.tints().ops, *filter),
            final(pixels)@ == (if r {
                applied(self.tints(), *filter, old(pixels)@, width as int, height as int)
            } else {
                old(pixels)@
            }),
    {
        if self.can_run(filter) {
            self.run_filter(filter, pixels, width, height);
            true
        } else {
            false
        }
    }
}

impl MaskFilter {
    /// Applies the filter to a mask of one byte for each pixel. The result
    /// tells whether it could be carried out; a mask is left alone under one
    /// that cannot. Only a blur changes a mask.
    pub fn apply_mask<A: Fn(FloatOp, u32, u32, u32) -> u32>(
        &self,
        f: &FloatUnit<A>,
        mask: &mut [u8],
        width: usize,
        height: usize,
    ) -> (r: bool)
        requires
            f.steady(),
            width * height <= old(mask)@.len(),
        ensures
            match *self {
                MaskFilter::Blur(x) => r == sigma_fits(f.ops(), x.sigma) && final(mask)@ == (if r {
                    blurred_mask(
                        x.style,
                        old(mask)@,
                        width as int,
                        height as int,
                        pixel_radius(f.ops(), x.sigma),
                    )
                } else {
                    old(mask)@
                }),
                _ => r && final(mask)@ == old(mask)@,
            },
    {
        match self {
            MaskFilter::Blur(x) => {
                if sigma_is_fit(f, x.sigma) {
                    let radius: usize = radius_of(f, x.sigma);
                    blur_mask(x.style, mask, width, height, radius);
                    true
                } else {
                    false
                }
            },
            _ => true,
        }
    }
}

} // verus!
