//! The color of a shader at a point.
//!
//! Colors that come out are premultiplied.

use vstd::prelude::*;

use crate::arith::{FloatOp, FloatUnit, Ops};
use crate::blend_mode::BlendMode;
use crate::exact::{
    amount, constants_stand_for_numbers, exact, lemma_one, lemma_rem, lemma_sub, one,
    patterns_order_as_numbers, stands_for,
};
use crate::float_bits::{
    ONE, bits_finite, bits_le, bits_lt, bits_max, bits_min, bits_nan, bits_neg, bits_to_int, float_le,
    float_lt, float_max, float_min, float_of_int, int_of_float, int_to_bits, is_finite, is_nan,
    magnitude, natural_of_float, negated,
};
use crate::geometry::{Color4f, Matrix, Point};
use crate::noise::{between, held, noise_gray, noise_table};
use crate::runtime_effect::RuntimeShader;
use crate::shader::{
    ColorType, FilterMode, GradientRamp, ImageInfo, ImagePixels, ImageShader, LinearGradient,
    RadialGradient, RampModel, Shader, SweepGradient, TileMode, TwoPointConicalGradient,
};

verus! {

/// What sampling asks of its surroundings, as mathematical functions.
pub struct Paints {
    /// Float operations.
    pub ops: Ops,
    /// The blend of a source and a destination.
    pub blend: spec_fn(BlendMode, Color4f, Color4f) -> Color4f,
    /// The point that a matrix maps to the given one; the given one itself
    /// where the matrix has no inverse.
    pub unmap: spec_fn(Seq<u32>, Point) -> Point,
    /// The color of a shader that runs a program.
    pub run: spec_fn(RuntimeShader, Point) -> Color4f,
}

/// What sampling asks of its surroundings.
pub struct Painter<A, B, M, R> {
    /// Float operations.
    pub floats: FloatUnit<A>,
    /// The blend of a source and a destination.
    pub blend: B,
    /// The point that a matrix maps to the given one.
    pub unmap: M,
    /// The color of a shader that runs a program.
    pub run: R,
}

/// Whether a point may be what a matrix maps to another one.
pub open spec fn unmaps<M: Fn(&Matrix, Point) -> Point>(
    f: M,
    m: Seq<u32>,
    p: Point,
    q: Point,
) -> bool {
    exists|x: &Matrix| x@ == m && #[trigger] call_ensures(f, (x, p), q)
}

impl<
    A: Fn(FloatOp, u32, u32, u32) -> u32,
    B: Fn(BlendMode, Color4f, Color4f) -> Color4f,
    M: Fn(&Matrix, Point) -> Point,
    R: Fn(&RuntimeShader, Point) -> Color4f,
> Painter<A, B, M, R> {
    /// Whether the surroundings always answer, and always answer the same.
    #[verifier::opaque]
    pub open spec fn steady(self) -> bool {
        &&& self.floats.steady()
        &&& forall|m: BlendMode, a: Color4f, b: Color4f| #[trigger]
            call_requires(self.blend, (m, a, b))
        &&& forall|m: BlendMode, a: Color4f, b: Color4f, x: Color4f, y: Color4f| #[trigger]
            call_ensures(self.blend, (m, a, b), x) && #[trigger] call_ensures(
                self.blend,
                (m, a, b),
                y,
            ) ==> x == y
        &&& forall|m: &Matrix, p: Point| #[trigger] call_requires(self.unmap, (m, p))
        &&& forall|m: &Matrix, n: &Matrix, p: Point, x: Point, y: Point|
            m@ == n@ && #[trigger] call_ensures(self.unmap, (m, p), x) && #[trigger] call_ensures(
                self.unmap,
                (n, p),
                y,
            ) ==> x == y
        &&& forall|s: &RuntimeShader, p: Point| #[trigger] call_requires(self.run, (s, p))
        &&& forall|s: &RuntimeShader, p: Point, x: Color4f, y: Color4f| #[trigger]
            call_ensures(self.run, (s, p), x) && #[trigger] call_ensures(self.run, (s, p), y)
                ==> x == y
    }

    /// What the surroundings answer.
    #[verifier::opaque]
    pub open spec fn paints(self) -> Paints {
        Paints {
            ops: self.floats.ops(),
            blend: |m: BlendMode, a: Color4f, b: Color4f|
                choose|x: Color4f| call_ensures(self.blend, (m, a, b), x),
            unmap: |m: Seq<u32>, p: Point| choose|q: Point| unmaps(self.unmap, m, p, q),
            run: |s: RuntimeShader, p: Point| choose|x: Color4f| call_ensures(self.run, (&s, p), x),
        }
    }

    /// The steadiness and the answers of the float unit.
    proof fn lemma_floats(self)
        requires
            self.steady(),
        ensures
            self.floats.steady(),
            self.floats.ops() == self.paints().ops,
    {
        reveal(Painter::steady);
        reveal(Painter::paints);
    }

    /// Blends two colors.
    fn blended(&self, m: BlendMode, a: Color4f, b: Color4f) -> (r: Color4f)
        requires
            self.steady(),
        ensures
            r == (self.paints().blend)(m, a, b),
    {
        proof {
            reveal(Painter::steady);
            reveal(Painter::paints);
        }
        let f = &self.blend;
        f(m, a, b)
    }

    /// Maps a point back.
    fn mapped_back(&self, m: &Matrix, p: Point) -> (r: Point)
        requires
            self.steady(),
        ensures
            r == (self.paints().unmap)(m@, p),
    {
        proof {
            reveal(Painter::steady);
            reveal(Painter::paints);
        }
        let f = &self.unmap;
        let r = f(m, p);
        assert(unmaps(self.unmap, m@, p, r));
        r
    }

    /// Runs a program.
    fn ran(&self, s: &RuntimeShader, p: Point) -> (r: Color4f)
        requires
            self.steady(),
        ensures
            r == (self.paints().run)(*s, p),
    {
        proof {
            reveal(Painter::steady);
            reveal(Painter::paints);
        }
        let f = &self.run;
        f(s, p)
    }
}

/// Transparent black.
pub open spec fn clear() -> Color4f {
    Color4f { r: 0, g: 0, b: 0, a: 0 }
}

/// A color with its channels multiplied by its alpha.
pub open spec fn premultiplied(f: Ops, c: Color4f) -> Color4f {
    Color4f {
        r: f(FloatOp::Mul, c.r, c.a, 0),
        g: f(FloatOp::Mul, c.g, c.a, 0),
        b: f(FloatOp::Mul, c.b, c.a, 0),
        a: c.a,
    }
}

/// The color between two others.
pub open spec fn mixed(f: Ops, a: Color4f, b: Color4f, t: u32) -> Color4f {
    Color4f {
        r: f(FloatOp::Blend, a.r, b.r, t),
        g: f(FloatOp::Blend, a.g, b.g, t),
        b: f(FloatOp::Blend, a.b, b.b, t),
        a: f(FloatOp::Blend, a.a, b.a, t),
    }
}

/// A gradient parameter after tiling.
pub open spec fn tiled(f: Ops, t: u32, mode: TileMode) -> u32 {
    match mode {
        TileMode::Clamp => held(t),
        TileMode::Repeat => f(FloatOp::Rem, t, ONE, 0),
        TileMode::Mirror => {
            let r = f(FloatOp::Rem, t, 0x4000_0000, 0);
            if float_lt(ONE, r) {
                f(FloatOp::Sub, 0x4000_0000, r, 0)
            } else {
                r
            }
        },
        TileMode::Decal => t,
    }
}

/// The positions of a gradient, made to rise from zero to one: each is held
/// between the one before it and one, and a NaN takes the one before it.
pub open spec fn pinned(ps: Seq<u32>, n: nat) -> Seq<u32>
    decreases n,
{
    if n == 0 || n > ps.len() {
        Seq::empty()
    } else {
        let before = pinned(ps, (n - 1) as nat);
        let floor = if n == 1 {
            0
        } else {
            before[n - 2]
        };
        let p = ps[n - 1];
        before.push(
            if is_nan(p) || float_lt(p, floor) {
                floor
            } else if float_lt(ONE, p) {
                ONE
            } else {
                p
            },
        )
    }
}

/// Where a parameter falls in a gradient.
#[derive(Debug, Clone, Copy, PartialEq, Eq, Structural)]
pub enum Spot {
    /// Outside.
    Outside,
    /// At a color.
    At(usize),
    /// Between a color and the next one, with the fraction.
    Between(usize, u32),
}

/// Where a parameter falls among rising positions, looking from the position
/// `i` on: in the first gap whose upper end it does not pass.
pub open spec fn gap_from(f: Ops, ps: Seq<u32>, t: u32, i: nat) -> Spot
    decreases ps.len() - i,
{
    if i + 1 >= ps.len() {
        Spot::At((ps.len() - 1) as usize)
    } else if float_le(t, ps[(i + 1) as int]) {
        Spot::Between(
            i as usize,
            if float_lt(ps[i as int], ps[(i + 1) as int]) {
                f(
                    FloatOp::Div,
                    f(FloatOp::Sub, t, ps[i as int], 0),
                    f(FloatOp::Sub, ps[(i + 1) as int], ps[i as int], 0),
                    0,
                )
            } else {
                0
            },
        )
    } else {
        gap_from(f, ps, t, i + 1)
    }
}

/// Where a parameter falls among evenly spaced colors.
pub open spec fn even_spot(f: Ops, n: int, t: u32) -> Spot {
    let stops = if n - 1 > i32::MAX {
        i32::MAX as int
    } else {
        n - 1
    };
    let scaled = f(FloatOp::Mul, t, float_of_int(stops), 0);
    let k = int_of_float(f(FloatOp::Floor, scaled, 0, 0));
    let i = if k < 0 {
        0
    } else {
        k
    };
    if i >= n - 1 {
        Spot::At((n - 1) as usize)
    } else {
        Spot::Between(i as usize, f(FloatOp::Sub, scaled, float_of_int(k), 0))
    }
}

/// Where a parameter falls in a gradient of `n` colors. One color alone counts
/// everywhere. Positions count only where each color has one.
pub open spec fn spot(f: Ops, n: int, positions: Option<Seq<u32>>, t: u32) -> Spot {
    if n == 0 {
        Spot::Outside
    } else if n == 1 {
        Spot::At(0)
    } else if !(float_le(0, t) && float_le(t, ONE)) {
        Spot::Outside
    } else {
        match positions {
            Some(ps) => if ps.len() != n {
                even_spot(f, n, t)
            } else {
                let pins = pinned(ps, ps.len());
                if float_le(t, pins[0]) {
                    Spot::At(0)
                } else {
                    gap_from(f, pins, t, 0)
                }
            },
            None => even_spot(f, n, t),
        }
    }
}

/// The color at a spot.
pub open spec fn color_at_spot(f: Ops, colors: Seq<Color4f>, s: Spot) -> Color4f {
    match s {
        Spot::Outside => clear(),
        Spot::At(i) => colors[i as int],
        Spot::Between(i, t) => mixed(f, colors[i as int], colors[i + 1], t),
    }
}

/// The premultiplied color of a gradient at a parameter. The colors are
/// multiplied before they are mixed, or after, as the flags say.
pub open spec fn ramp_color(f: Ops, r: RampModel, t: u32) -> Color4f {
    let s = spot(f, r.colors.len() as int, r.positions, t);
    if r.flags.interpolate_premul {
        color_at_spot(
            f,
            Seq::new(r.colors.len(), |i: int| premultiplied(f, r.colors[i])),
            s,
        )
    } else {
        premultiplied(f, color_at_spot(f, r.colors, s))
    }
}

/// The color of a gradient without extent.
pub open spec fn first_color(f: Ops, r: RampModel) -> Color4f {
    premultiplied(
        f,
        if r.colors.len() == 0 {
            clear()
        } else {
            r.colors[0]
        },
    )
}

/// A tile mode applied, then the color.
pub open spec fn tiled_color(f: Ops, r: RampModel, t: u32) -> Color4f {
    ramp_color(f, r, tiled(f, t, r.tile_mode))
}

/// `a * a + b * b`
pub open spec fn squares(f: Ops, a: u32, b: u32) -> u32 {
    f(FloatOp::MulAdd, a, a, f(FloatOp::Mul, b, b, 0))
}

/// `a * c + b * d`
pub open spec fn dot2(f: Ops, a: u32, b: u32, c: u32, d: u32) -> u32 {
    f(FloatOp::MulAdd, a, c, f(FloatOp::Mul, b, d, 0))
}

/// The color of a gradient along a line: by the projection onto the line.
pub open spec fn linear_color(f: Ops, start: Point, end: Point, r: RampModel, p: Point) -> Color4f {
    let dx = f(FloatOp::Sub, end.x, start.x, 0);
    let dy = f(FloatOp::Sub, end.y, start.y, 0);
    let len = squares(f, dx, dy);
    if float_lt(len, 0x2edb_e6ff) {
        first_color(f, r)
    } else {
        let px = f(FloatOp::Sub, p.x, start.x, 0);
        let py = f(FloatOp::Sub, p.y, start.y, 0);
        tiled_color(f, r, f(FloatOp::Div, dot2(f, px, py, dx, dy), len, 0))
    }
}

/// The color of a gradient around a point: by the distance.
pub open spec fn radial_color(f: Ops, center: Point, radius: u32, r: RampModel, p: Point) -> Color4f {
    if float_le(radius, 0) {
        first_color(f, r)
    } else {
        let dx = f(FloatOp::Sub, p.x, center.x, 0);
        let dy = f(FloatOp::Sub, p.y, center.y, 0);
        tiled_color(f, r, f(FloatOp::Div, f(FloatOp::Hypot, dx, dy, 0), radius, 0))
    }
}

/// The color of a gradient by angle, in degrees from the positive x axis.
pub open spec fn sweep_color(
    f: Ops,
    center: Point,
    start: u32,
    end: u32,
    r: RampModel,
    p: Point,
) -> Color4f {
    let dx = f(FloatOp::Sub, p.x, center.x, 0);
    let dy = f(FloatOp::Sub, p.y, center.y, 0);
    let raw = f(FloatOp::Degrees, f(FloatOp::Atan2, dy, dx, 0), 0, 0);
    let angle = if float_lt(raw, 0) {
        f(FloatOp::Add, raw, 0x43b4_0000, 0)
    } else {
        raw
    };
    let sweep = f(FloatOp::Sub, end, start, 0);
    let t = if float_lt(magnitude(sweep) as u32, 0x2edb_e6ff) {
        0
    } else {
        f(FloatOp::Div, f(FloatOp::Sub, angle, start, 0), sweep, 0)
    };
    tiled_color(f, r, t)
}

/// The larger root of `a t^2 + b t + c` at which a radius that starts at `r0`
/// and grows by `dr` is not negative, or else the smaller one.
pub open spec fn root(f: Ops, a: u32, b: u32, c: u32, r0: u32, dr: u32) -> Option<u32> {
    if float_lt(magnitude(a) as u32, 0x33d6_bf95) {
        if float_lt(magnitude(b) as u32, 0x33d6_bf95) {
            None
        } else {
            Some(f(FloatOp::Div, negated(c), b, 0))
        }
    } else {
        let disc = f(
            FloatOp::MulAdd,
            f(FloatOp::Mul, 0x4080_0000, a, 0),
            negated(c),
            f(FloatOp::Mul, b, b, 0),
        );
        if float_lt(disc, 0) {
            None
        } else {
            let s = f(FloatOp::Sqrt, disc, 0, 0);
            let twice = f(FloatOp::Mul, 0x4000_0000, a, 0);
            let t0 = f(FloatOp::Div, f(FloatOp::Add, negated(b), s, 0), twice, 0);
            let t1 = f(FloatOp::Div, f(FloatOp::Sub, negated(b), s, 0), twice, 0);
            let larger = float_max(t0, t1);
            let smaller = float_min(t0, t1);
            if float_le(0, f(FloatOp::MulAdd, larger, dr, r0)) {
                Some(larger)
            } else if float_le(0, f(FloatOp::MulAdd, smaller, dr, r0)) {
                Some(smaller)
            } else {
                None
            }
        }
    }
}

/// The color of a gradient between two circles: by the circle between them
/// that passes through the point.
pub open spec fn conical_color(
    f: Ops,
    c0: Point,
    r0: u32,
    c1: Point,
    r1: u32,
    r: RampModel,
    p: Point,
) -> Color4f {
    let dx = f(FloatOp::Sub, c1.x, c0.x, 0);
    let dy = f(FloatOp::Sub, c1.y, c0.y, 0);
    let dr = f(FloatOp::Sub, r1, r0, 0);
    let ex = f(FloatOp::Sub, p.x, c0.x, 0);
    let ey = f(FloatOp::Sub, p.y, c0.y, 0);
    let a = f(FloatOp::MulAdd, dr, negated(dr), squares(f, dx, dy));
    let b = f(
        FloatOp::Mul,
        0xc000_0000,
        f(FloatOp::MulAdd, r0, dr, dot2(f, ex, ey, dx, dy)),
        0,
    );
    let c = f(FloatOp::MulAdd, r0, negated(r0), squares(f, ex, ey));
    match root(f, a, b, c, r0, dr) {
        Some(t) => tiled_color(f, r, t),
        None => clear(),
    }
}

/// A coordinate held between two others.
pub open spec fn clamped(x: u32, lo: u32, hi: u32) -> u32 {
    if float_lt(x, lo) {
        lo
    } else if float_lt(hi, x) {
        hi
    } else {
        x
    }
}

/// A coordinate brought into an image of the given size; none where there is
/// no pixel.
pub open spec fn image_tile(f: Ops, x: u32, size: int, mode: TileMode) -> Option<u32> {
    let s = float_of_int(size);
    let placed = match mode {
        TileMode::Clamp => Some(clamped(x, 0, f(FloatOp::Sub, s, 0x38d1_b717, 0))),
        TileMode::Repeat => {
            let m = f(FloatOp::Rem, x, s, 0);
            Some(
                if float_lt(m, 0) {
                    f(FloatOp::Add, m, s, 0)
                } else {
                    m
                },
            )
        },
        TileMode::Mirror => {
            let n = f(FloatOp::Rem, x, f(FloatOp::Mul, 0x4000_0000, s, 0), 0);
            Some(
                if float_lt(n, s) {
                    n
                } else {
                    f(
                        FloatOp::Sub,
                        f(FloatOp::MulAdd, 0x4000_0000, s, negated(n)),
                        0x38d1_b717,
                        0,
                    )
                },
            )
        },
        TileMode::Decal => if float_lt(x, 0) || float_le(s, x) {
            None
        } else {
            Some(x)
        },
    };
    match placed {
        Some(v) => if is_finite(v) && !float_lt(v, 0) {
            Some(v)
        } else {
            None
        },
        None => None,
    }
}

/// The pixel that a coordinate falls into.
pub open spec fn pixel_index(f: Ops, x: u32, size: int) -> int {
    let i = int_of_float(f(FloatOp::Floor, x, 0, 0));
    if i < 0 {
        0
    } else if i > size - 1 {
        size - 1
    } else {
        i
    }
}

/// The number of bytes of a pixel of the color types that can be read.
pub open spec fn pixel_bytes(t: ColorType) -> Option<int> {
    match t {
        ColorType::Rgba8888 | ColorType::Bgra8888 | ColorType::Rgb888x => Some(4),
        ColorType::Alpha8 | ColorType::Gray8 => Some(1),
        _ => None,
    }
}

/// The red, green, blue and alpha bytes of the pixel that starts at `o`.
pub open spec fn channels(t: ColorType, bytes: Seq<u8>, o: int) -> Seq<u8> {
    match t {
        ColorType::Rgba8888 => seq![bytes[o], bytes[o + 1], bytes[o + 2], bytes[o + 3]],
        ColorType::Bgra8888 => seq![bytes[o + 2], bytes[o + 1], bytes[o], bytes[o + 3]],
        ColorType::Rgb888x => seq![bytes[o], bytes[o + 1], bytes[o + 2], 255u8],
        ColorType::Alpha8 => seq![0u8, 0u8, 0u8, bytes[o]],
        _ => seq![bytes[o], bytes[o], bytes[o], 255u8],
    }
}

/// A byte as a fraction of 255.
pub open spec fn fraction(f: Ops, b: u8) -> u32 {
    f(FloatOp::Div, float_of_int(b as int), 0x437f_0000, 0)
}

/// The color of a pixel; transparent where the bytes end before it or cannot
/// be read.
pub open spec fn pixel_color(f: Ops, info: ImageInfo, bytes: Seq<u8>, x: int, y: int) -> Color4f {
    match pixel_bytes(info.color_type) {
        None => clear(),
        Some(n) => {
            let o = (y * info.width + x) * n;
            if o + n > bytes.len() {
                clear()
            } else {
                let c = channels(info.color_type, bytes, o);
                Color4f {
                    r: fraction(f, c[0]),
                    g: fraction(f, c[1]),
                    b: fraction(f, c[2]),
                    a: fraction(f, c[3]),
                }
            }
        },
    }
}

/// The color of the pixel that a point falls into, after tiling.
pub open spec fn texel(f: Ops, s: ImageShader, info: ImageInfo, bytes: Seq<u8>, p: Point) -> Color4f {
    match (
        image_tile(f, p.x, info.width as int, s.tile_mode_x),
        image_tile(f, p.y, info.height as int, s.tile_mode_y),
    ) {
        (Some(x), Some(y)) => pixel_color(
            f,
            info,
            bytes,
            pixel_index(f, x, info.width as int),
            pixel_index(f, y, info.height as int),
        ),
        _ => clear(),
    }
}

/// A channel of the bilinear mean of four colors.
pub open spec fn bilinear(f: Ops, a: u32, b: u32, c: u32, d: u32, wx: u32, wy: u32) -> u32 {
    between(f, between(f, a, b, wx), between(f, c, d, wx), wy)
}

/// The color of an image at a point.
pub open spec fn image_color(f: Ops, s: ImageShader, p: Point) -> Color4f {
    match s.pixels {
        None => clear(),
        Some(px) => if px.info.width <= 0 || px.info.height <= 0 {
            clear()
        } else {
            match s.sampling.filter {
                FilterMode::Nearest => texel(f, s, px.info, px.bytes@, p),
                FilterMode::Linear => {
                    let fx = f(FloatOp::Sub, p.x, 0x3f00_0000, 0);
                    let fy = f(FloatOp::Sub, p.y, 0x3f00_0000, 0);
                    let x0 = f(FloatOp::Floor, fx, 0, 0);
                    let y0 = f(FloatOp::Floor, fy, 0, 0);
                    let x1 = f(FloatOp::Add, x0, ONE, 0);
                    let y1 = f(FloatOp::Add, y0, ONE, 0);
                    let wx = f(FloatOp::Sub, fx, x0, 0);
                    let wy = f(FloatOp::Sub, fy, y0, 0);
                    let a = texel(f, s, px.info, px.bytes@, Point { x: x0, y: y0 });
                    let b = texel(f, s, px.info, px.bytes@, Point { x: x1, y: y0 });
                    let c = texel(f, s, px.info, px.bytes@, Point { x: x0, y: y1 });
                    let d = texel(f, s, px.info, px.bytes@, Point { x: x1, y: y1 });
                    Color4f {
                        r: bilinear(f, a.r, b.r, c.r, d.r, wx, wy),
                        g: bilinear(f, a.g, b.g, c.g, d.g, wx, wy),
                        b: bilinear(f, a.b, b.b, c.b, d.b, wx, wy),
                        a: bilinear(f, a.a, b.a, c.a, d.a, wx, wy),
                    }
                },
            }
        },
    }
}

/// The color of a shader at a point.
pub open spec fn color_of(q: Paints, s: Shader, p: Point) -> Color4f
    decreases s,
{
    let f = q.ops;
    match s {
        Shader::Color(x) => premultiplied(f, x.color),
        Shader::Linear(x) => linear_color(f, x.start, x.end, x.ramp@, p),
        Shader::Radial(x) => radial_color(f, x.center, x.radius, x.ramp@, p),
        Shader::Sweep(x) => sweep_color(f, x.center, x.start_angle, x.end_angle, x.ramp@, p),
        Shader::Conical(x) => conical_color(
            f,
            x.start_center,
            x.start_radius,
            x.end_center,
            x.end_radius,
            x.ramp@,
            p,
        ),
        Shader::Image(x) => image_color(f, x, p),
        Shader::Perlin(x) => {
            let v = noise_gray(f, x, noise_table(natural_of_float(x.seed) as u32), p.x, p.y);
            Color4f { r: v, g: v, b: v, a: ONE }
        },
        Shader::Blend(x) => (q.blend)(
            x.blend_mode,
            color_of(q, *x.src, p),
            color_of(q, *x.dst, p),
        ),
        Shader::Local(x) => color_of(q, *x.inner, (q.unmap)(x.matrix@, p)),
        Shader::Compose(x) => (q.blend)(
            x.blend_mode,
            color_of(q, *x.outer, p),
            color_of(q, *x.inner, p),
        ),
        Shader::Empty(_) => clear(),
        Shader::Runtime(x) => (q.run)(x, p),
    }
}

/// Multiplies the channels of a color by its alpha.
fn premul<A: Fn(FloatOp, u32, u32, u32) -> u32>(
    f: &FloatUnit<A>,
    c: Color4f,
) -> (r: Color4f)
    requires
        f.steady(),
    ensures
        r == premultiplied(f.ops(), c),
{
    Color4f {
        r: f.op(FloatOp::Mul, c.r, c.a, 0),
        g: f.op(FloatOp::Mul, c.g, c.a, 0),
        b: f.op(FloatOp::Mul, c.b, c.a, 0),
        a: c.a,
    }
}

/// The color between two others.
fn mix<A: Fn(FloatOp, u32, u32, u32) -> u32>(
    f: &FloatUnit<A>,
    a: Color4f,
    b: Color4f,
    t: u32,
) -> (r: Color4f)
    requires
        f.steady(),
    ensures
        r == mixed(f.ops(), a, b, t),
{
    Color4f {
        r: f.op(FloatOp::Blend, a.r, b.r, t),
        g: f.op(FloatOp::Blend, a.g, b.g, t),
        b: f.op(FloatOp::Blend, a.b, b.b, t),
        a: f.op(FloatOp::Blend, a.a, b.a, t),
    }
}

/// Tiles a gradient parameter.
pub fn apply_tile_mode<A: Fn(FloatOp, u32, u32, u32) -> u32>(
    f: &FloatUnit<A>,
    t: u32,
    mode: TileMode,
) -> (r: u32)
    requires
        f.steady(),
    ensures
        r == tiled(f.ops(), t, mode),
{
    match mode {
        TileMode::Clamp => if bits_lt(t, 0) {
            0
        } else if bits_lt(ONE, t) {
            ONE
        } else {
            t
        },
        TileMode::Repeat => f.op(FloatOp::Rem, t, ONE, 0),
        TileMode::Mirror => {
            let r: u32 = f.op(FloatOp::Rem, t, 0x4000_0000, 0);
            if bits_lt(ONE, r) {
                f.op(FloatOp::Sub, 0x4000_0000, r, 0)
            } else {
                r
            }
        },
        TileMode::Decal => t,
    }
}

/// Makes positions rise from zero to one.
fn pin(ps: &Vec<u32>) -> (r: Vec<u32>)
    ensures
        r@ == pinned(ps@, ps@.len()),
        r@.len() == ps@.len(),
{
    let mut out: Vec<u32> = Vec::new();
    let mut prev: u32 = 0;
    let mut i: usize = 0;
    while i < ps.len()
        invariant
            i <= ps@.len(),
            out@ == pinned(ps@, i as nat),
            out@.len() == i,
            prev == (if i == 0 {
                0
            } else {
                out@[i - 1]
            }),
        decreases ps@.len() - i,
    {
        let p: u32 = ps[i];
        let cur: u32 = if bits_nan(p) || bits_lt(p, prev) {
            prev
        } else if bits_lt(ONE, p) {
            ONE
        } else {
            p
        };
        out.push(cur);
        prev = cur;
        i = i + 1;
    }
    out
}

/// Finds where a parameter falls among rising positions.
fn find_gap<A: Fn(FloatOp, u32, u32, u32) -> u32>(
    f: &FloatUnit<A>,
    ps: &Vec<u32>,
    t: u32,
) -> (r: Spot)
    requires
        f.steady(),
        ps@.len() > 0,
    ensures
        r == gap_from(f.ops(), ps@, t, 0),
{
    let n: usize = ps.len();
    let mut i: usize = 0;
    while i + 1 < n
        invariant
            f.steady(),
            n == ps@.len(),
            i < n,
            gap_from(f.ops(), ps@, t, 0) == gap_from(f.ops(), ps@, t, i as nat),
        decreases n - i,
    {
        if bits_le(t, ps[i + 1]) {
            let part: u32 = if bits_lt(ps[i], ps[i + 1]) {
                let above: u32 = f.op(FloatOp::Sub, t, ps[i], 0);
                let gap: u32 = f.op(FloatOp::Sub, ps[i + 1], ps[i], 0);
                f.op(FloatOp::Div, above, gap, 0)
            } else {
                0
            };
            return Spot::Between(i, part);
        }
        i = i + 1;
    }
    Spot::At(n - 1)
}

/// Finds where a parameter falls among evenly spaced colors.
fn find_even<A: Fn(FloatOp, u32, u32, u32) -> u32>(
    f: &FloatUnit<A>,
    n: usize,
    t: u32,
) -> (r: Spot)
    requires
        f.steady(),
        n > 1,
    ensures
        r == even_spot(f.ops(), n as int, t),
{
    let stops: i32 = if n - 1 > 0x7fff_ffff {
        i32::MAX
    } else {
        (n - 1) as i32
    };
    let scaled: u32 = f.op(FloatOp::Mul, t, int_to_bits(stops), 0);
    let floor: u32 = f.op(FloatOp::Floor, scaled, 0, 0);
    let k: i32 = bits_to_int(floor);
    let i: usize = if k < 0 {
        0
    } else {
        k as usize
    };
    if i >= n - 1 {
        Spot::At(n - 1)
    } else {
        Spot::Between(i, f.op(FloatOp::Sub, scaled, int_to_bits(k), 0))
    }
}

/// The positions of a gradient.
pub open spec fn opt_positions(p: Option<Vec<u32>>) -> Option<Seq<u32>> {
    match p {
        None => None,
        Some(v) => Some(v@),
    }
}

/// Finds where a parameter falls in a gradient of `n` colors.
pub fn gradient_spot<A: Fn(FloatOp, u32, u32, u32) -> u32>(
    f: &FloatUnit<A>,
    n: usize,
    positions: &Option<Vec<u32>>,
    t: u32,
) -> (r: Spot)
    requires
        f.steady(),
    ensures
        r == spot(f.ops(), n as int, opt_positions(*positions), t),
        match r {
            Spot::Outside => true,
            Spot::At(i) => i < n,
            Spot::Between(i, _) => i + 1 < n,
        },
{
    if n == 0 {
        return Spot::Outside;
    }
    if n == 1 {
        return Spot::At(0);
    }
    if !(bits_le(0, t) && bits_le(t, ONE)) {
        return Spot::Outside;
    }
    match positions {
        Some(ps) => {
            if ps.len() == n {
                let pins: Vec<u32> = pin(ps);
                if bits_le(t, pins[0]) {
                    return Spot::At(0);
                }
                proof {
                    lemma_gap_in_range(f.ops(), pins@, t, 0);
                }
                return find_gap(f, &pins, t);
            }
        },
        None => {},
    }
    find_even(f, n, t)
}

/// A gap lies inside the positions.
proof fn lemma_gap_in_range(f: Ops, ps: Seq<u32>, t: u32, i: nat)
    requires
        i < ps.len() <= usize::MAX,
    ensures
        match gap_from(f, ps, t, i) {
            Spot::Outside => false,
            Spot::At(k) => k < ps.len(),
            Spot::Between(k, _) => k + 1 < ps.len(),
        },
    decreases ps.len() - i,
{
    if i + 1 < ps.len() {
        lemma_gap_in_range(f, ps, t, i + 1);
    }
}

/// The color at a spot.
fn interpolate_gradient_color<A: Fn(FloatOp, u32, u32, u32) -> u32>(
    f: &FloatUnit<A>,
    colors: &Vec<Color4f>,
    s: Spot,
) -> (c: Color4f)
    requires
        f.steady(),
        match s {
            Spot::Outside => true,
            Spot::At(i) => i < colors@.len(),
            Spot::Between(i, _) => i + 1 < colors@.len(),
        },
    ensures
        c == color_at_spot(f.ops(), colors@, s),
{
    match s {
        Spot::Outside => Color4f { r: 0, g: 0, b: 0, a: 0 },
        Spot::At(i) => colors[i],
        Spot::Between(i, t) => {
            let n: usize = colors.len();
            assert(i + 1 < n);
            mix(f, colors[i], colors[i + 1], t)
        },
    }
}

/// The premultiplied color of a gradient at a parameter.
pub fn interpolate_gradient_color_with_flags<A: Fn(FloatOp, u32, u32, u32) -> u32>(
    f: &FloatUnit<A>,
    r: &GradientRamp,
    t: u32,
) -> (c: Color4f)
    requires
        f.steady(),
    ensures
        c == ramp_color(f.ops(), r@, t),
{
    let s = gradient_spot(f, r.colors.len(), &r.positions, t);
    if r.flags.interpolate_premul {
        let n: usize = r.colors.len();
        let ghost want = Seq::new(n as nat, |i: int| premultiplied(f.ops(), r.colors@[i]));
        let mut colors: Vec<Color4f> = Vec::new();
        let mut i: usize = 0;
        while i < n
            invariant
                f.steady(),
                n == r.colors@.len(),
                want == Seq::new(n as nat, |i: int| premultiplied(f.ops(), r.colors@[i])),
                i <= n,
                colors@ == want.take(i as int),
            decreases n - i,
        {
            colors.push(premul(f, r.colors[i]));
            assert(colors@ =~= want.take(i + 1));
            i = i + 1;
        }
        assert(colors@ =~= want);
        interpolate_gradient_color(f, &colors, s)
    } else {
        premul(f, interpolate_gradient_color(f, &r.colors, s))
    }
}

/// The color of a gradient without extent.
fn first<A: Fn(FloatOp, u32, u32, u32) -> u32>(
    f: &FloatUnit<A>,
    r: &GradientRamp,
) -> (c: Color4f)
    requires
        f.steady(),
    ensures
        c == first_color(f.ops(), r@),
{
    if r.colors.len() == 0 {
        premul(f, Color4f { r: 0, g: 0, b: 0, a: 0 })
    } else {
        premul(f, r.colors[0])
    }
}

/// Tiles a parameter and gives its color.
fn tile_and_color<A: Fn(FloatOp, u32, u32, u32) -> u32>(
    f: &FloatUnit<A>,
    r: &GradientRamp,
    t: u32,
) -> (c: Color4f)
    requires
        f.steady(),
    ensures
        c == tiled_color(f.ops(), r@, t),
{
    let u: u32 = apply_tile_mode(f, t, r.tile_mode);
    interpolate_gradient_color_with_flags(f, r, u)
}

/// `a * a + b * b`
fn sum_of_squares<A: Fn(FloatOp, u32, u32, u32) -> u32>(
    f: &FloatUnit<A>,
    a: u32,
    b: u32,
) -> (r: u32)
    requires
        f.steady(),
    ensures
        r == squares(f.ops(), a, b),
{
    let x: u32 = f.op(FloatOp::Mul, b, b, 0);
    f.op(FloatOp::MulAdd, a, a, x)
}

/// `a * c + b * d`
fn inner2<A: Fn(FloatOp, u32, u32, u32) -> u32>(
    f: &FloatUnit<A>,
    a: u32,
    b: u32,
    c: u32,
    d: u32,
) -> (r: u32)
    requires
        f.steady(),
    ensures
        r == dot2(f.ops(), a, b, c, d),
{
    let x: u32 = f.op(FloatOp::Mul, b, d, 0);
    f.op(FloatOp::MulAdd, a, c, x)
}

impl LinearGradient {
    /// The color at a point.
    pub fn color_at<A: Fn(FloatOp, u32, u32, u32) -> u32>(&self, f: &FloatUnit<A>, p: Point) -> (c: Color4f)
        requires
            f.steady(),
        ensures
            c == linear_color(f.ops(), self.start, self.end, self.ramp@, p),
    {
        let dx: u32 = f.op(FloatOp::Sub, self.end.x, self.start.x, 0);
        let dy: u32 = f.op(FloatOp::Sub, self.end.y, self.start.y, 0);
        let len: u32 = sum_of_squares(f, dx, dy);
        if bits_lt(len, 0x2edb_e6ff) {
            return first(f, &self.ramp);
        }
        let px: u32 = f.op(FloatOp::Sub, p.x, self.start.x, 0);
        let py: u32 = f.op(FloatOp::Sub, p.y, self.start.y, 0);
        let along: u32 = inner2(f, px, py, dx, dy);
        let t: u32 = f.op(FloatOp::Div, along, len, 0);
        tile_and_color(f, &self.ramp, t)
    }
}

impl RadialGradient {
    /// The color at a point.
    pub fn color_at<A: Fn(FloatOp, u32, u32, u32) -> u32>(&self, f: &FloatUnit<A>, p: Point) -> (c: Color4f)
        requires
            f.steady(),
        ensures
            c == radial_color(f.ops(), self.center, self.radius, self.ramp@, p),
    {
        if bits_le(self.radius, 0) {
            return first(f, &self.ramp);
        }
        let dx: u32 = f.op(FloatOp::Sub, p.x, self.center.x, 0);
        let dy: u32 = f.op(FloatOp::Sub, p.y, self.center.y, 0);
        let dist: u32 = f.op(FloatOp::Hypot, dx, dy, 0);
        let t: u32 = f.op(FloatOp::Div, dist, self.radius, 0);
        tile_and_color(f, &self.ramp, t)
    }
}

impl SweepGradient {
    /// The color at a point.
    pub fn color_at<A: Fn(FloatOp, u32, u32, u32) -> u32>(&self, f: &FloatUnit<A>, p: Point) -> (c: Color4f)
        requires
            f.steady(),
        ensures
            c == sweep_color(
                f.ops(),
                self.center,
                self.start_angle,
                self.end_angle,
                self.ramp@,
                p,
            ),
    {
        let dx: u32 = f.op(FloatOp::Sub, p.x, self.center.x, 0);
        let dy: u32 = f.op(FloatOp::Sub, p.y, self.center.y, 0);
        let turn: u32 = f.op(FloatOp::Atan2, dy, dx, 0);
        let raw: u32 = f.op(FloatOp::Degrees, turn, 0, 0);
        let angle: u32 = if bits_lt(raw, 0) {
            f.op(FloatOp::Add, raw, 0x43b4_0000, 0)
        } else {
            raw
        };
        let sweep: u32 = f.op(FloatOp::Sub, self.end_angle, self.start_angle, 0);
        let t: u32 = if bits_lt(sweep % 0x8000_0000, 0x2edb_e6ff) {
            0
        } else {
            let d: u32 = f.op(FloatOp::Sub, angle, self.start_angle, 0);
            f.op(FloatOp::Div, d, sweep, 0)
        };
        tile_and_color(f, &self.ramp, t)
    }
}

/// Solves for the circle through a point.
fn solve<A: Fn(FloatOp, u32, u32, u32) -> u32>(
    f: &FloatUnit<A>,
    a: u32,
    b: u32,
    c: u32,
    r0: u32,
    dr: u32,
) -> (r: Option<u32>)
    requires
        f.steady(),
    ensures
        r == root(f.ops(), a, b, c, r0, dr),
{
    if bits_lt(a % 0x8000_0000, 0x33d6_bf95) {
        if bits_lt(b % 0x8000_0000, 0x33d6_bf95) {
            return None;
        }
        return Some(f.op(FloatOp::Div, bits_neg(c), b, 0));
    }
    let four: u32 = f.op(FloatOp::Mul, 0x4080_0000, a, 0);
    let square: u32 = f.op(FloatOp::Mul, b, b, 0);
    let disc: u32 = f.op(FloatOp::MulAdd, four, bits_neg(c), square);
    if bits_lt(disc, 0) {
        return None;
    }
    let s: u32 = f.op(FloatOp::Sqrt, disc, 0, 0);
    let twice: u32 = f.op(FloatOp::Mul, 0x4000_0000, a, 0);
    let plus: u32 = f.op(FloatOp::Add, bits_neg(b), s, 0);
    let minus: u32 = f.op(FloatOp::Sub, bits_neg(b), s, 0);
    let t0: u32 = f.op(FloatOp::Div, plus, twice, 0);
    let t1: u32 = f.op(FloatOp::Div, minus, twice, 0);
    let larger: u32 = bits_max(t0, t1);
    let smaller: u32 = bits_min(t0, t1);
    if bits_le(0, f.op(FloatOp::MulAdd, larger, dr, r0)) {
        Some(larger)
    } else if bits_le(0, f.op(FloatOp::MulAdd, smaller, dr, r0)) {
        Some(smaller)
    } else {
        None
    }
}

impl TwoPointConicalGradient {
    /// The color at a point.
    pub fn color_at<A: Fn(FloatOp, u32, u32, u32) -> u32>(&self, f: &FloatUnit<A>, p: Point) -> (c: Color4f)
        requires
            f.steady(),
        ensures
            c == conical_color(
                f.ops(),
                self.start_center,
                self.start_radius,
                self.end_center,
                self.end_radius,
                self.ramp@,
                p,
            ),
    {
        let c0 = self.start_center;
        let r0: u32 = self.start_radius;
        let dx: u32 = f.op(FloatOp::Sub, self.end_center.x, c0.x, 0);
        let dy: u32 = f.op(FloatOp::Sub, self.end_center.y, c0.y, 0);
        let dr: u32 = f.op(FloatOp::Sub, self.end_radius, r0, 0);
        let ex: u32 = f.op(FloatOp::Sub, p.x, c0.x, 0);
        let ey: u32 = f.op(FloatOp::Sub, p.y, c0.y, 0);
        let dd: u32 = sum_of_squares(f, dx, dy);
        let a: u32 = f.op(FloatOp::MulAdd, dr, bits_neg(dr), dd);
        let ed: u32 = inner2(f, ex, ey, dx, dy);
        let half: u32 = f.op(FloatOp::MulAdd, r0, dr, ed);
        let b: u32 = f.op(FloatOp::Mul, 0xc000_0000, half, 0);
        let ee: u32 = sum_of_squares(f, ex, ey);
        let c: u32 = f.op(FloatOp::MulAdd, r0, bits_neg(r0), ee);
        match solve(f, a, b, c, r0, dr) {
            Some(t) => tile_and_color(f, &self.ramp, t),
            None => Color4f { r: 0, g: 0, b: 0, a: 0 },
        }
    }
}

/// Brings a coordinate into an image of the given size.
pub fn apply_image_tile<A: Fn(FloatOp, u32, u32, u32) -> u32>(
    f: &FloatUnit<A>,
    x: u32,
    size: i32,
    mode: TileMode,
) -> (r: Option<u32>)
    requires
        f.steady(),
    ensures
        r == image_tile(f.ops(), x, size as int, mode),
{
    let s: u32 = int_to_bits(size);
    let placed: Option<u32> = match mode {
        TileMode::Clamp => {
            let hi: u32 = f.op(FloatOp::Sub, s, 0x38d1_b717, 0);
            if bits_lt(x, 0) {
                Some(0)
            } else if bits_lt(hi, x) {
                Some(hi)
            } else {
                Some(x)
            }
        },
        TileMode::Repeat => {
            let m: u32 = f.op(FloatOp::Rem, x, s, 0);
            if bits_lt(m, 0) {
                Some(f.op(FloatOp::Add, m, s, 0))
            } else {
                Some(m)
            }
        },
        TileMode::Mirror => {
            let twice: u32 = f.op(FloatOp::Mul, 0x4000_0000, s, 0);
            let n: u32 = f.op(FloatOp::Rem, x, twice, 0);
            if bits_lt(n, s) {
                Some(n)
            } else {
                let back: u32 = f.op(FloatOp::MulAdd, 0x4000_0000, s, bits_neg(n));
                Some(f.op(FloatOp::Sub, back, 0x38d1_b717, 0))
            }
        },
        TileMode::Decal => if bits_lt(x, 0) || bits_le(s, x) {
            None
        } else {
            Some(x)
        },
    };
    match placed {
        Some(v) => if bits_finite(v) && !bits_lt(v, 0) {
            Some(v)
        } else {
            None
        },
        None => None,
    }
}

/// The pixel that a coordinate falls into.
fn index_of_pixel<A: Fn(FloatOp, u32, u32, u32) -> u32>(
    f: &FloatUnit<A>,
    x: u32,
    size: i32,
) -> (r: usize)
    requires
        f.steady(),
        size > 0,
    ensures
        r == pixel_index(f.ops(), x, size as int),
        r < size,
{
    let floor: u32 = f.op(FloatOp::Floor, x, 0, 0);
    let i: i32 = bits_to_int(floor);
    if i < 0 {
        0
    } else if i > size - 1 {
        (size - 1) as usize
    } else {
        i as usize
    }
}

/// A byte as a fraction of 255.
fn byte_fraction<A: Fn(FloatOp, u32, u32, u32) -> u32>(
    f: &FloatUnit<A>,
    b: u8,
) -> (r: u32)
    requires
        f.steady(),
    ensures
        r == fraction(f.ops(), b),
{
    f.op(FloatOp::Div, int_to_bits(b as i32), 0x437f_0000, 0)
}

/// Reads a pixel.
fn read_pixel<A: Fn(FloatOp, u32, u32, u32) -> u32>(
    f: &FloatUnit<A>,
    px: &ImagePixels,
    x: usize,
    y: usize,
) -> (c: Color4f)
    requires
        f.steady(),
        px.info.width > 0,
        x <= 0x7fff_ffff,
        y <= 0x7fff_ffff,
    ensures
        c == pixel_color(f.ops(), px.info, px.bytes@, x as int, y as int),
{
    let n: u64 = match px.info.color_type {
        ColorType::Rgba8888 | ColorType::Bgra8888 | ColorType::Rgb888x => 4,
        ColorType::Alpha8 | ColorType::Gray8 => 1,
        _ => {
            return Color4f { r: 0, g: 0, b: 0, a: 0 };
        },
    };
    let w: u64 = px.info.width as u64;
    proof {
        assert(y * w + x <= 0x7fff_ffff * 0x7fff_ffff + 0x7fff_ffff) by (nonlinear_arith)
            requires
                y <= 0x7fff_ffff,
                x <= 0x7fff_ffff,
                w <= 0x7fff_ffff,
        ;
        assert((y * w + x) * n <= 4 * (y * w + x)) by (nonlinear_arith)
            requires
                n <= 4,
                y * w + x >= 0,
        ;
        assert(y * w >= 0 && (y * w + x) * n >= 0) by (nonlinear_arith)
            requires
                y >= 0,
                w >= 0,
                x >= 0,
                n >= 0,
        ;
    }
    let cells: u64 = y as u64 * w + x as u64;
    let o: u128 = cells as u128 * n as u128;
    if o + n as u128 > px.bytes.len() as u128 {
        return Color4f { r: 0, g: 0, b: 0, a: 0 };
    }
    let at: usize = o as usize;
    let b = &px.bytes;
    let (red, green, blue, alpha) = match px.info.color_type {
        ColorType::Rgba8888 => (b[at], b[at + 1], b[at + 2], b[at + 3]),
        ColorType::Bgra8888 => (b[at + 2], b[at + 1], b[at], b[at + 3]),
        ColorType::Rgb888x => (b[at], b[at + 1], b[at + 2], 255u8),
        ColorType::Alpha8 => (0u8, 0u8, 0u8, b[at]),
        _ => (b[at], b[at], b[at], 255u8),
    };
    Color4f {
        r: byte_fraction(f, red),
        g: byte_fraction(f, green),
        b: byte_fraction(f, blue),
        a: byte_fraction(f, alpha),
    }
}

/// The point between `a` and `b` at `t`.
fn lerp<A: Fn(FloatOp, u32, u32, u32) -> u32>(
    f: &FloatUnit<A>,
    a: u32,
    b: u32,
    t: u32,
) -> (r: u32)
    requires
        f.steady(),
    ensures
        r == between(f.ops(), a, b, t),
{
    let d: u32 = f.op(FloatOp::Sub, b, a, 0);
    f.op(FloatOp::MulAdd, d, t, a)
}

/// A channel of the bilinear mean of four colors.
fn bilerp<A: Fn(FloatOp, u32, u32, u32) -> u32>(
    f: &FloatUnit<A>,
    a: u32,
    b: u32,
    c: u32,
    d: u32,
    wx: u32,
    wy: u32,
) -> (r: u32)
    requires
        f.steady(),
    ensures
        r == bilinear(f.ops(), a, b, c, d, wx, wy),
{
    let above: u32 = lerp(f, a, b, wx);
    let below: u32 = lerp(f, c, d, wx);
    lerp(f, above, below, wy)
}

impl ImageShader {
    /// The color of the pixel that a point falls into, after tiling.
    fn texel_at<A: Fn(FloatOp, u32, u32, u32) -> u32>(
        &self,
        f: &FloatUnit<A>,
        px: &ImagePixels,
        x: u32,
        y: u32,
    ) -> (c: Color4f)
        requires
            f.steady(),
            px.info.width > 0,
            px.info.height > 0,
        ensures
            c == texel(f.ops(), *self, px.info, px.bytes@, (Point { x, y })),
    {
        let tx = apply_image_tile(f, x, px.info.width, self.tile_mode_x);
        let ty = apply_image_tile(f, y, px.info.height, self.tile_mode_y);
        match (tx, ty) {
            (Some(sx), Some(sy)) => {
                let ix: usize = index_of_pixel(f, sx, px.info.width);
                let iy: usize = index_of_pixel(f, sy, px.info.height);
                read_pixel(f, px, ix, iy)
            },
            _ => Color4f { r: 0, g: 0, b: 0, a: 0 },
        }
    }

    /// The color at a point.
    pub fn color_at<A: Fn(FloatOp, u32, u32, u32) -> u32>(&self, f: &FloatUnit<A>, p: Point) -> (c: Color4f)
        requires
            f.steady(),
        ensures
            c == image_color(f.ops(), *self, p),
    {
        let px = match &self.pixels {
            Some(px) => px,
            None => {
                return Color4f { r: 0, g: 0, b: 0, a: 0 };
            },
        };
        if px.info.width <= 0 || px.info.height <= 0 {
            return Color4f { r: 0, g: 0, b: 0, a: 0 };
        }
        match self.sampling.filter {
            FilterMode::Nearest => self.texel_at(f, px, p.x, p.y),
            FilterMode::Linear => {
                let fx: u32 = f.op(FloatOp::Sub, p.x, 0x3f00_0000, 0);
                let fy: u32 = f.op(FloatOp::Sub, p.y, 0x3f00_0000, 0);
                let x0: u32 = f.op(FloatOp::Floor, fx, 0, 0);
                let y0: u32 = f.op(FloatOp::Floor, fy, 0, 0);
                let x1: u32 = f.op(FloatOp::Add, x0, ONE, 0);
                let y1: u32 = f.op(FloatOp::Add, y0, ONE, 0);
                let wx: u32 = f.op(FloatOp::Sub, fx, x0, 0);
                let wy: u32 = f.op(FloatOp::Sub, fy, y0, 0);
                let a = self.texel_at(f, px, x0, y0);
                let b = self.texel_at(f, px, x1, y0);
                let c = self.texel_at(f, px, x0, y1);
                let d = self.texel_at(f, px, x1, y1);
                Color4f {
                    r: bilerp(f, a.r, b.r, c.r, d.r, wx, wy),
                    g: bilerp(f, a.g, b.g, c.g, d.g, wx, wy),
                    b: bilerp(f, a.b, b.b, c.b, d.b, wx, wy),
                    a: bilerp(f, a.a, b.a, c.a, d.a, wx, wy),
                }
            },
        }
    }
}

impl<
    A: Fn(FloatOp, u32, u32, u32) -> u32,
    B: Fn(BlendMode, Color4f, Color4f) -> Color4f,
    M: Fn(&Matrix, Point) -> Point,
    R: Fn(&RuntimeShader, Point) -> Color4f,
> Painter<A, B, M, R> {
    /// The color of a shader at a point.
    pub fn sample(&self, s: &Shader, p: Point) -> (c: Color4f)
        requires
            self.steady(),
        ensures
            c == color_of(self.paints(), *s, p),
        decreases s,
    {
        proof {
            self.lemma_floats();
        }
        let f = &self.floats;
        match s {
            Shader::Color(x) => premul(f, x.color),
            Shader::Linear(x) => x.color_at(f, p),
            Shader::Radial(x) => x.color_at(f, p),
            Shader::Sweep(x) => x.color_at(f, p),
            Shader::Conical(x) => x.color_at(f, p),
            Shader::Image(x) => x.color_at(f, p),
            Shader::Perlin(x) => x.color_at(f, p.x, p.y),
            Shader::Blend(x) => {
                let src = self.sample(&x.src, p);
                let dst = self.sample(&x.dst, p);
                self.blended(x.blend_mode, src, dst)
            },
            Shader::Local(x) => {
                let q = self.mapped_back(&x.matrix, p);
                self.sample(&x.inner, q)
            },
            Shader::Compose(x) => {
                let dst = self.sample(&x.inner, p);
                let src = self.sample(&x.outer, p);
                self.blended(x.blend_mode, src, dst)
            },
            Shader::Empty(_) => Color4f { r: 0, g: 0, b: 0, a: 0 },
            Shader::Runtime(x) => self.ran(x, p),
        }
    }
}

/// Pinned positions rise.
pub proof fn pinned_positions_rise(ps: Seq<u32>, n: nat)
    requires
        n <= ps.len(),
    ensures
        pinned(ps, n).len() == n,
        forall|i: int, j: int|
            0 <= i <= j < n ==> float_le(#[trigger] pinned(ps, n)[i], #[trigger] pinned(ps, n)[j]),
        forall|i: int|
            0 <= i < n ==> float_le(0, #[trigger] pinned(ps, n)[i]) && float_le(
                pinned(ps, n)[i],
                ONE,
            ),
    decreases n,
{
    if n > 0 {
        pinned_positions_rise(ps, (n - 1) as nat);
        let b = pinned(ps, (n - 1) as nat);
        let a = pinned(ps, n);
        assert(forall|i: int| 0 <= i < n - 1 ==> a[i] == b[i]);
        if n > 1 {
            assert(float_le(b[n - 2], b[n - 2]));
            assert(float_le(0, b[n - 2]));
        }
    }
}

// ---------------------------------------------------------------------------
// What tiling means
// ---------------------------------------------------------------------------

/// Clamping keeps a parameter between zero and one, and leaves it alone there.
pub proof fn clamped_tiles_stay_inside(f: Ops, t: u32)
    requires
        is_finite(t),
    ensures
        stands_for(
            tiled(f, t, TileMode::Clamp),
            if amount(t) < 0 {
                0
            } else if amount(t) > one() {
                one()
            } else {
                amount(t)
            },
        ),
{
    constants_stand_for_numbers();
    patterns_order_as_numbers(t, 0);
    patterns_order_as_numbers(ONE, t);
}

/// Repeating tiles give a parameter the place that it has in its tile: the
/// number from zero up to one that differs from it by whole tiles.
pub proof fn repeated_tiles_repeat(f: Ops, t: u32, x: u32)
    requires
        exact(f),
        is_finite(t),
        is_finite(x),
        0 <= amount(x) < one(),
        (amount(t) - amount(x)) % one() == 0,
    ensures
        stands_for(tiled(f, t, TileMode::Repeat), amount(x)),
{
    constants_stand_for_numbers();
    lemma_rem(f, t, ONE, x);
}

/// Mirrored tiles run forth and back: the parameter ends up at the number
/// between zero and one that it meets when the line is folded at every whole
/// number. So it differs from that number, or from its opposite, by an even
/// number of tiles.
pub proof fn mirrored_tiles_run_back(f: Ops, t: u32, x: u32, y: u32)
    requires
        exact(f),
        is_finite(t),
        is_finite(x),
        0 <= amount(x) <= one(),
        (amount(t) - amount(x)) % (2 * one()) == 0 || (stands_for(y, 2 * one() - amount(x))
            && amount(x) > 0 && (amount(t) + amount(x)) % (2 * one()) == 0),
    ensures
        stands_for(tiled(f, t, TileMode::Mirror), amount(x)),
{
    constants_stand_for_numbers();
    lemma_one();
    let two = 0x4000_0000u32;
    let r = f(FloatOp::Rem, t, two, 0);
    if (amount(t) - amount(x)) % (2 * one()) == 0 {
        lemma_rem(f, t, two, x);
        patterns_order_as_numbers(ONE, r);
    } else {
        let p = 2 * one();
        assert((amount(t) - (p - amount(x))) % p == 0) by {
            vstd::arithmetic::div_mod::lemma_mod_multiples_vanish(-1, amount(t) + amount(x), p);
            assert(p * -1 + (amount(t) + amount(x)) == amount(t) - (p - amount(x)));
        }
        lemma_rem(f, t, two, y);
        patterns_order_as_numbers(ONE, r);
        if amount(r) > one() {
            lemma_sub(f, two, r, x);
        }
    }
}

/// Mirrored tiling is symmetric about one: as far beyond one as before it, the
/// gradient is the same, and repeating differs from it but in the middle.
pub proof fn mirrored_tiles_are_symmetric(f: Ops, t: u32, s: u32, d: u32)
    requires
        exact(f),
        is_finite(d),
        0 <= amount(d) < one(),
        stands_for(t, one() + amount(d)),
        stands_for(s, one() - amount(d)),
    ensures
        stands_for(tiled(f, t, TileMode::Mirror), one() - amount(d)),
        stands_for(tiled(f, s, TileMode::Mirror), one() - amount(d)),
        stands_for(tiled(f, t, TileMode::Repeat), amount(d)),
{
    let p = 2 * one();
    lemma_one();
    assert(amount(t) + amount(s) == p);
    assert((amount(s) - amount(s)) % p == 0) by {
        vstd::arithmetic::div_mod::lemma_small_mod(0, p as nat);
    }
    assert((amount(t) + amount(s)) % p == 0) by {
        vstd::arithmetic::div_mod::lemma_mod_self_0(p);
    }
    mirrored_tiles_run_back(f, s, s, s);
    mirrored_tiles_run_back(f, t, s, t);
    assert((amount(t) - amount(d)) % one() == 0) by {
        vstd::arithmetic::div_mod::lemma_mod_self_0(one());
    }
    repeated_tiles_repeat(f, t, d);
}

/// Outside its range a gradient that is not tiled shows nothing.
pub proof fn decal_shows_nothing_outside(f: Ops, r: RampModel, t: u32)
    requires
        r.tile_mode == TileMode::Decal,
        r.colors.len() >= 2,
        is_finite(t),
        amount(t) < 0 || amount(t) > one(),
        exact(f),
    ensures
        stands_for(tiled_color(f, r, t).a, 0),
{
    constants_stand_for_numbers();
    patterns_order_as_numbers(0, t);
    patterns_order_as_numbers(t, ONE);
}

} // verus!
