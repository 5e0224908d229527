//! Image filters: how they are made, and the bounds of what they change.

use vstd::prelude::*;

use crate::arith::{FloatOp, FloatUnit, Ops};
use crate::blend_mode::BlendMode;
use crate::filter::{
    ArithmeticImageFilter, BlendImageFilter, BlurImageFilter, ColorChannel, ColorFilterImageFilter,
    ColorFilterRef, ComposeImageFilter, DisplacementMapImageFilter, DropShadowImageFilter,
    ImageFilter, ImageFilterRef, LightType, LightingImageFilter, MatrixConvolutionImageFilter,
    MergeImageFilter,
};
use crate::float_bits::{bits_max, bits_min, float_max, float_min, float_of_int, int_to_bits};
use crate::geometry::{Color4f, Rect};
use crate::shader::TileMode;

verus! {

impl BlurImageFilter {
    /// A blur.
    pub fn new(
        sigma_x: u32,
        sigma_y: u32,
        tile_mode: TileMode,
    ) -> (r: BlurImageFilter)
        ensures
            r == (BlurImageFilter { sigma_x, sigma_y, tile_mode }),
    {
        BlurImageFilter { sigma_x, sigma_y, tile_mode }
    }
}

impl DropShadowImageFilter {
    /// A shadow.
    pub fn new(
        dx: u32,
        dy: u32,
        sigma_x: u32,
        sigma_y: u32,
        color: Color4f,
        shadow_only: bool,
    ) -> (r: DropShadowImageFilter)
        ensures
            r == (DropShadowImageFilter { dx, dy, sigma_x, sigma_y, color, shadow_only }),
    {
        DropShadowImageFilter { dx, dy, sigma_x, sigma_y, color, shadow_only }
    }
}

impl ColorFilterImageFilter {
    /// A color filter for every pixel.
    pub fn new(
        color_filter: ColorFilterRef,
        input: Option<ImageFilterRef>,
    ) -> (r: ColorFilterImageFilter)
        ensures
            r == (ColorFilterImageFilter { color_filter, input }),
    {
        ColorFilterImageFilter { color_filter, input }
    }

    /// The color filter.
    pub fn color_filter(&self) -> (r: &ColorFilterRef)
        ensures
            *r == self.color_filter,
    {
        &self.color_filter
    }
}

impl DisplacementMapImageFilter {
    /// A displacement.
    pub fn new(
        x_channel: ColorChannel,
        y_channel: ColorChannel,
        scale: u32,
        displacement: ImageFilterRef,
        color: Option<ImageFilterRef>,
    ) -> (r: DisplacementMapImageFilter)
        ensures
            r == (DisplacementMapImageFilter { x_channel, y_channel, scale, displacement, color }),
    {
        DisplacementMapImageFilter { x_channel, y_channel, scale, displacement, color }
    }
}

impl LightingImageFilter {
    /// Light that a rough surface scatters.
    pub fn diffuse(
        light: LightType,
        surface_scale: u32,
        kd: u32,
        light_color: Color4f,
        input: Option<ImageFilterRef>,
    ) -> (r: LightingImageFilter)
        ensures
            r == (LightingImageFilter {
                light,
                surface_scale,
                light_color,
                input,
                diffuse_constant: Some(kd),
                specular_constant: None,
                specular_exponent: None,
            }),
    {
        LightingImageFilter {
            light,
            surface_scale,
            light_color,
            input,
            diffuse_constant: Some(kd),
            specular_constant: None,
            specular_exponent: None,
        }
    }

    /// Light that a shiny surface reflects.
    pub fn specular(
        light: LightType,
        surface_scale: u32,
        ks: u32,
        shininess: u32,
        light_color: Color4f,
        input: Option<ImageFilterRef>,
    ) -> (r: LightingImageFilter)
        ensures
            r == (LightingImageFilter {
                light,
                surface_scale,
                light_color,
                input,
                diffuse_constant: None,
                specular_constant: Some(ks),
                specular_exponent: Some(shininess),
            }),
    {
        LightingImageFilter {
            light,
            surface_scale,
            light_color,
            input,
            diffuse_constant: None,
            specular_constant: Some(ks),
            specular_exponent: Some(shininess),
        }
    }
}

impl ComposeImageFilter {
    /// A filter after another.
    pub fn new(
        outer: ImageFilterRef,
        inner: ImageFilterRef,
    ) -> (r: ComposeImageFilter)
        ensures
            r == (ComposeImageFilter { outer, inner }),
    {
        ComposeImageFilter { outer, inner }
    }
}

impl MergeImageFilter {
    /// Several filters at once.
    pub fn new(
        inputs: Vec<Option<ImageFilterRef>>,
    ) -> (r: MergeImageFilter)
        ensures
            r == (MergeImageFilter { inputs }),
    {
        MergeImageFilter { inputs }
    }
}

impl MatrixConvolutionImageFilter {
    /// A convolution.
    pub fn new(
        kernel_size: (i32, i32),
        kernel: Vec<u32>,
        gain: u32,
        bias: u32,
        kernel_offset: (i32, i32),
        tile_mode: TileMode,
        convolve_alpha: bool,
        input: Option<ImageFilterRef>,
    ) -> (r: MatrixConvolutionImageFilter)
        ensures
            r == (MatrixConvolutionImageFilter {
                kernel_size,
                kernel,
                gain,
                bias,
                kernel_offset,
                tile_mode,
                convolve_alpha,
                input,
            }),
    {
        MatrixConvolutionImageFilter {
            kernel_size,
            kernel,
            gain,
            bias,
            kernel_offset,
            tile_mode,
            convolve_alpha,
            input,
        }
    }
}

impl BlendImageFilter {
    /// A blend of two images.
    pub fn new(
        mode: BlendMode,
        background: Option<ImageFilterRef>,
        foreground: Option<ImageFilterRef>,
    ) -> (r: BlendImageFilter)
        ensures
            r == (BlendImageFilter { mode, background, foreground }),
    {
        BlendImageFilter { mode, background, foreground }
    }
}

impl ArithmeticImageFilter {
    /// An arithmetic blend of two images.
    pub fn new(
        k1: u32,
        k2: u32,
        k3: u32,
        k4: u32,
        enforce_pm_color: bool,
        background: Option<ImageFilterRef>,
        foreground: Option<ImageFilterRef>,
    ) -> (r: ArithmeticImageFilter)
        ensures
            r == (ArithmeticImageFilter { k1, k2, k3, k4, enforce_pm_color, background, foreground }),
    {
        ArithmeticImageFilter { k1, k2, k3, k4, enforce_pm_color, background, foreground }
    }
}

/// A rectangle with its edges moved outward.
pub open spec fn outset(f: Ops, r: Rect, dx: u32, dy: u32) -> Rect {
    Rect {
        left: f(FloatOp::Sub, r.left, dx, 0),
        top: f(FloatOp::Sub, r.top, dy, 0),
        right: f(FloatOp::Add, r.right, dx, 0),
        bottom: f(FloatOp::Add, r.bottom, dy, 0),
    }
}

/// A rectangle moved.
pub open spec fn moved(f: Ops, r: Rect, dx: u32, dy: u32) -> Rect {
    Rect {
        left: f(FloatOp::Add, r.left, dx, 0),
        top: f(FloatOp::Add, r.top, dy, 0),
        right: f(FloatOp::Add, r.right, dx, 0),
        bottom: f(FloatOp::Add, r.bottom, dy, 0),
    }
}

/// Moves the edges of a rectangle outward.
fn grow<A: Fn(FloatOp, u32, u32, u32) -> u32>(f: &FloatUnit<A>, r: Rect, dx: u32, dy: u32) -> (g:
    Rect)
    requires
        f.steady(),
    ensures
        g == outset(f.ops(), r, dx, dy),
{
    Rect {
        left: f.op(FloatOp::Sub, r.left, dx, 0),
        top: f.op(FloatOp::Sub, r.top, dy, 0),
        right: f.op(FloatOp::Add, r.right, dx, 0),
        bottom: f.op(FloatOp::Add, r.bottom, dy, 0),
    }
}

/// Moves a rectangle.
fn shift<A: Fn(FloatOp, u32, u32, u32) -> u32>(f: &FloatUnit<A>, r: Rect, dx: u32, dy: u32) -> (g:
    Rect)
    requires
        f.steady(),
    ensures
        g == moved(f.ops(), r, dx, dy),
{
    Rect {
        left: f.op(FloatOp::Add, r.left, dx, 0),
        top: f.op(FloatOp::Add, r.top, dy, 0),
        right: f.op(FloatOp::Add, r.right, dx, 0),
        bottom: f.op(FloatOp::Add, r.bottom, dy, 0),
    }
}

/// The bounds of a shadow, with or without what casts it.
pub open spec fn shadow_bounds(f: Ops, x: DropShadowImageFilter, r: Rect) -> Rect {
    let s = outset(
        f,
        moved(f, r, x.dx, x.dy),
        f(FloatOp::Mul, x.sigma_x, 0x4040_0000, 0),
        f(FloatOp::Mul, x.sigma_y, 0x4040_0000, 0),
    );
    if x.shadow_only {
        s
    } else {
        Rect {
            left: float_min(r.left, s.left),
            top: float_min(r.top, s.top),
            right: float_max(r.right, s.right),
            bottom: float_max(r.bottom, s.bottom),
        }
    }
}

/// The bounds of a convolution: they grow by what the kernel reaches beyond its
/// target on each side.
pub open spec fn convolution_bounds(f: Ops, x: MatrixConvolutionImageFilter, r: Rect) -> Rect {
    let back_x = x.kernel_size.0.wrapping_sub(x.kernel_offset.0).wrapping_sub(1);
    let back_y = x.kernel_size.1.wrapping_sub(x.kernel_offset.1).wrapping_sub(1);
    Rect {
        left: f(FloatOp::Sub, r.left, float_of_int(back_x as int), 0),
        top: f(FloatOp::Sub, r.top, float_of_int(back_y as int), 0),
        right: f(FloatOp::Add, r.right, float_of_int(x.kernel_offset.0 as int), 0),
        bottom: f(FloatOp::Add, r.bottom, float_of_int(x.kernel_offset.1 as int), 0),
    }
}

/// What bounds are computed with.
pub struct Bounding {
    /// Float operations.
    pub ops: Ops,
    /// The smallest rectangle that covers two others.
    pub join: spec_fn(Rect, Rect) -> Rect,
}

/// The bounds of what an input changes in `r`.
pub open spec fn bounds_of_input(b: Bounding, input: Option<ImageFilterRef>, r: Rect) -> Rect
    decreases input,
{
    match input {
        Some(x) => bounds_under(b, *x, r),
        None => r,
    }
}

/// The bounds of what the first `n` inputs change in `r`, together with `r`.
pub open spec fn bounds_of_inputs(
    b: Bounding,
    inputs: Seq<Option<ImageFilterRef>>,
    r: Rect,
    n: nat,
) -> Rect
    decreases inputs, n,
{
    if n == 0 || n > inputs.len() {
        r
    } else {
        let before = bounds_of_inputs(b, inputs, r, (n - 1) as nat);
        match inputs[n - 1] {
            Some(x) => (b.join)(before, bounds_under(b, *x, r)),
            None => before,
        }
    }
}

/// The bounds of what a filter changes in `r`.
pub open spec fn bounds_under(b: Bounding, filter: ImageFilter, r: Rect) -> Rect
    decreases filter,
{
    match filter {
        ImageFilter::Blur(x) => outset(
            b.ops,
            r,
            (b.ops)(FloatOp::Mul, x.sigma_x, 0x4040_0000, 0),
            (b.ops)(FloatOp::Mul, x.sigma_y, 0x4040_0000, 0),
        ),
        ImageFilter::DropShadow(x) => shadow_bounds(b.ops, x, r),
        ImageFilter::Morphology(x) => outset(b.ops, r, x.radius_x, x.radius_y),
        ImageFilter::ColorFilter(_) => r,
        ImageFilter::DisplacementMap(x) => {
            let d = (b.ops)(FloatOp::Div, x.scale, 0x4000_0000, 0);
            outset(b.ops, r, d, d)
        },
        ImageFilter::Lighting(_) => r,
        ImageFilter::Compose(x) => bounds_under(b, *x.outer, bounds_under(b, *x.inner, r)),
        ImageFilter::Merge(x) => bounds_of_inputs(b, x.inputs@, r, x.inputs@.len()),
        ImageFilter::Offset(x) => moved(b.ops, r, x.dx, x.dy),
        ImageFilter::MatrixConvolution(x) => convolution_bounds(b.ops, x, r),
        ImageFilter::Tile(x) => x.dst_rect,
        ImageFilter::Blend(x) => (b.join)(
            bounds_of_input(b, x.background, r),
            bounds_of_input(b, x.foreground, r),
        ),
        ImageFilter::Arithmetic(x) => (b.join)(
            bounds_of_input(b, x.background, r),
            bounds_of_input(b, x.foreground, r),
        ),
    }
}

/// What bounds are computed with.
pub struct Bounder<A, J> {
    /// Float operations.
    pub floats: FloatUnit<A>,
    /// The smallest rectangle that covers two others.
    pub join: J,
}

impl<A: Fn(FloatOp, u32, u32, u32) -> u32, J: Fn(Rect, Rect) -> Rect> Bounder<A, J> {
    /// Whether the surroundings always answer, and always answer the same.
    #[verifier::opaque]
    pub open spec fn steady(self) -> bool {
        &&& self.floats.steady()
        &&& forall|a: Rect, b: Rect| #[trigger] call_requires(self.join, (a, b))
        &&& forall|a: Rect, b: Rect, x: Rect, y: Rect| #[trigger]
            call_ensures(self.join, (a, b), x) && #[trigger] call_ensures(self.join, (a, b), y)
                ==> x == y
    }

    /// What the surroundings answer.
    #[verifier::opaque]
    pub open spec fn bounding(self) -> Bounding {
        Bounding {
            ops: self.floats.ops(),
            join: |a: Rect, b: Rect| choose|x: Rect| call_ensures(self.join, (a, b), x),
        }
    }

    /// The steadiness and the answers of the float unit.
    proof fn lemma_floats(self)
        requires
            self.steady(),
        ensures
            self.floats.steady(),
            self.floats.ops() == self.bounding().ops,
    {
        reveal(Bounder::steady);
        reveal(Bounder::bounding);
    }

    /// The smallest rectangle that covers two others.
    fn joined(&self, a: Rect, b: Rect) -> (r: Rect)
        requires
            self.steady(),
        ensures
            r == (self.bounding().join)(a, b),
    {
        proof {
            reveal(Bounder::steady);
            reveal(Bounder::bounding);
        }
        let f = &self.join;
        f(a, b)
    }

    /// The bounds of what an input changes.
    fn input_bounds(&self, input: &Option<ImageFilterRef>, src: Rect) -> (r: Rect)
        requires
            self.steady(),
        ensures
            r == bounds_of_input(self.bounding(), *input, src),
        decreases input,
    {
        match input {
            Some(x) => self.filter_bounds(x, src),
            None => src,
        }
    }

    /// The bounds of what inputs change.
    fn inputs_bounds(&self, inputs: &Vec<Option<ImageFilterRef>>, src: Rect) -> (r: Rect)
        requires
            self.steady(),
        ensures
            r == bounds_of_inputs(self.bounding(), inputs@, src, inputs@.len()),
        decreases inputs@,
    {
        let mut r = src;
        let mut i: usize = 0;
        while i < inputs.len()
            invariant
                self.steady(),
                i <= inputs@.len(),
                r == bounds_of_inputs(self.bounding(), inputs@, src, i as nat),
            decreases inputs@.len() - i,
        {
            match &inputs[i] {
                Some(x) => {
                    assert(decreases_to!(inputs@ => inputs@[i as int]));
                    let b = self.filter_bounds(x, src);
                    r = self.joined(r, b);
                },
                None => {},
            }
            i = i + 1;
        }
        r
    }

    /// The bounds of a shadow.
    fn bound_shadow(&self, x: &DropShadowImageFilter, src: Rect) -> (r: Rect)
        requires
            self.steady(),
        ensures
            r == shadow_bounds(self.bounding().ops, *x, src),
    {
        proof {
            self.lemma_floats();
        }
        let f = &self.floats;
        let dx: u32 = f.op(FloatOp::Mul, x.sigma_x, 0x4040_0000, 0);
        let dy: u32 = f.op(FloatOp::Mul, x.sigma_y, 0x4040_0000, 0);
        let s = grow(f, shift(f, src, x.dx, x.dy), dx, dy);
        if x.shadow_only {
            s
        } else {
            Rect {
                left: bits_min(src.left, s.left),
                top: bits_min(src.top, s.top),
                right: bits_max(src.right, s.right),
                bottom: bits_max(src.bottom, s.bottom),
            }
        }
    }

    /// The bounds of a convolution.
    fn bound_convolution(&self, x: &MatrixConvolutionImageFilter, src: Rect) -> (r: Rect)
        requires
            self.steady(),
        ensures
            r == convolution_bounds(self.bounding().ops, *x, src),
    {
        proof {
            self.lemma_floats();
        }
        let f = &self.floats;
        let back_x: i32 = x.kernel_size.0.wrapping_sub(x.kernel_offset.0).wrapping_sub(1);
        let back_y: i32 = x.kernel_size.1.wrapping_sub(x.kernel_offset.1).wrapping_sub(1);
        Rect {
            left: f.op(FloatOp::Sub, src.left, int_to_bits(back_x), 0),
            top: f.op(FloatOp::Sub, src.top, int_to_bits(back_y), 0),
            right: f.op(FloatOp::Add, src.right, int_to_bits(x.kernel_offset.0), 0),
            bottom: f.op(FloatOp::Add, src.bottom, int_to_bits(x.kernel_offset.1), 0),
        }
    }

    /// The bounds of what a filter changes in `src`.
    pub fn filter_bounds(&self, filter: &ImageFilter, src: Rect) -> (r: Rect)
        requires
            self.steady(),
        ensures
            r == bounds_under(self.bounding(), *filter, src),
        decreases filter,
    {
        proof {
            self.lemma_floats();
        }
        let f = &self.floats;
        match filter {
            ImageFilter::Blur(x) => {
                let dx: u32 = f.op(FloatOp::Mul, x.sigma_x, 0x4040_0000, 0);
                let dy: u32 = f.op(FloatOp::Mul, x.sigma_y, 0x4040_0000, 0);
                grow(f, src, dx, dy)
            },
            ImageFilter::DropShadow(x) => self.bound_shadow(x, src),
            ImageFilter::Morphology(x) => grow(f, src, x.radius_x, x.radius_y),
            ImageFilter::ColorFilter(_) => src,
            ImageFilter::DisplacementMap(x) => {
                let d: u32 = f.op(FloatOp::Div, x.scale, 0x4000_0000, 0);
                grow(f, src, d, d)
            },
            ImageFilter::Lighting(_) => src,
            ImageFilter::Compose(x) => {
                let inner = self.filter_bounds(&x.inner, src);
                self.filter_bounds(&x.outer, inner)
            },
            ImageFilter::Merge(x) => self.inputs_bounds(&x.inputs, src),
            ImageFilter::Offset(x) => shift(f, src, x.dx, x.dy),
            ImageFilter::MatrixConvolution(x) => self.bound_convolution(x, src),
            ImageFilter::Tile(x) => x.dst_rect,
            ImageFilter::Blend(x) => {
                let bg = self.input_bounds(&x.background, src);
                let fg = self.input_bounds(&x.foreground, src);
                self.joined(bg, fg)
            },
            ImageFilter::Arithmetic(x) => {
                let bg = self.input_bounds(&x.background, src);
                let fg = self.input_bounds(&x.foreground, src);
                self.joined(bg, fg)
            },
        }
    }
}

} // verus!
