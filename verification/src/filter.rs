//! Color, mask and image filters, as data.

use std::sync::Arc;
use vstd::prelude::*;

use crate::blend_mode::BlendMode;
use crate::float_bits::{
    ONE, bits_max, bits_round, bits_to_int, float_max, int_of_float, nearest_int,
};
use crate::geometry::{Color4f, Rect};
use crate::raster::{
    BlurStyle, KernelShape, Region, morph_pixels, morphed, remapped, shift_map, shift_pixels,
    tile_map, tile_pixels,
};
use crate::runtime_effect::RuntimeColorFilter;
use crate::shader::{ShaderRef, TileMode};

verus! {

// ---------------------------------------------------------------------------
// Color filters
// ---------------------------------------------------------------------------

/// A color filter that applies a matrix of four rows and five columns; the
/// last column is added.
#[derive(Debug)]
pub struct ColorMatrixFilter {
    /// The entries, row by row.
    pub matrix: [u32; 20],
}

/// A color filter.
#[derive(Debug)]
pub enum ColorFilter {
    /// A matrix.
    Matrix(ColorMatrixFilter),
    /// A program. It has no serialized form.
    Runtime(RuntimeColorFilter),
}

/// A shared color filter.
pub type ColorFilterRef = Arc<ColorFilter>;

/// The entries of the matrix that adds `amount` to the three colors.
pub open spec fn brightness_matrix(amount: u32) -> Seq<u32> {
    seq![
        ONE, 0, 0, 0, amount,
        0, ONE, 0, 0, amount,
        0, 0, ONE, 0, amount,
        0, 0, 0, ONE, 0,
    ]
}

impl ColorMatrixFilter {
    /// A filter with the given entries.
    pub fn new(matrix: [u32; 20]) -> (r: ColorMatrixFilter)
        ensures
            r.matrix == matrix,
    {
        ColorMatrixFilter { matrix }
    }

    /// The filter that changes nothing.
    pub fn identity() -> (r: ColorMatrixFilter)
        ensures
            r.matrix@ == seq![
                    ONE, 0, 0, 0, 0,
                    0, ONE, 0, 0, 0,
                    0, 0, ONE, 0, 0,
                    0, 0, 0, ONE, 0,
            ],
    {
        let r = ColorMatrixFilter {
            matrix: [
                    ONE, 0, 0, 0, 0,
                    0, ONE, 0, 0, 0,
                    0, 0, ONE, 0, 0,
                    0, 0, 0, ONE, 0,
            ],
        };
        assert(r.matrix@ =~= seq![ONE, 0, 0, 0, 0, 0, ONE, 0, 0, 0, 0, 0, ONE, 0, 0, 0, 0, 0, ONE, 0]);
        r
    }

    /// The filter that inverts the three colors.
    pub fn invert() -> (r: ColorMatrixFilter)
        ensures
            r.matrix@ == seq![
                    0xbf80_0000, 0, 0, 0, ONE,
                    0, 0xbf80_0000, 0, 0, ONE,
                    0, 0, 0xbf80_0000, 0, ONE,
                    0, 0, 0, ONE, 0,
            ],
    {
        let r = ColorMatrixFilter {
            matrix: [
                    0xbf80_0000, 0, 0, 0, ONE,
                    0, 0xbf80_0000, 0, 0, ONE,
                    0, 0, 0xbf80_0000, 0, ONE,
                    0, 0, 0, ONE, 0,
            ],
        };
        assert(r.matrix@ =~= seq![
            0xbf80_0000,
            0,
            0,
            0,
            ONE,
            0,
            0xbf80_0000,
            0,
            0,
            ONE,
            0,
            0,
            0xbf80_0000,
            0,
            ONE,
            0,
            0,
            0,
            ONE,
            0,
        ]);
        r
    }

    /// The filter that gives a sepia tone.
    pub fn sepia() -> (r: ColorMatrixFilter)
        ensures
            r.matrix@ == seq![
                    0x3ec9_374c, 0x3f44_dd2f, 0x3e41_8937, 0, 0,
                    0x3eb2_b021, 0x3f2f_9db2, 0x3e2c_0831, 0, 0,
                    0x3e8b_4396, 0x3f08_b439, 0x3e06_24dd, 0, 0,
                    0, 0, 0, ONE, 0,
            ],
    {
        let r = ColorMatrixFilter {
            matrix: [
                    0x3ec9_374c, 0x3f44_dd2f, 0x3e41_8937, 0, 0,
                    0x3eb2_b021, 0x3f2f_9db2, 0x3e2c_0831, 0, 0,
                    0x3e8b_4396, 0x3f08_b439, 0x3e06_24dd, 0, 0,
                    0, 0, 0, ONE, 0,
            ],
        };
        assert(r.matrix@ =~= seq![
            0x3ec9_374c,
            0x3f44_dd2f,
            0x3e41_8937,
            0,
            0,
            0x3eb2_b021,
            0x3f2f_9db2,
            0x3e2c_0831,
            0,
            0,
            0x3e8b_4396,
            0x3f08_b439,
            0x3e06_24dd,
            0,
            0,
            0,
            0,
            0,
            ONE,
            0,
        ]);
        r
    }

    /// The filter that turns colors into their luminance.
    pub fn grayscale() -> (r: ColorMatrixFilter)
        ensures
            r.matrix@ == seq![
                    0x3e99_1687, 0x3f16_45a2, 0x3de9_78d5, 0, 0,
                    0x3e99_1687, 0x3f16_45a2, 0x3de9_78d5, 0, 0,
                    0x3e99_1687, 0x3f16_45a2, 0x3de9_78d5, 0, 0,
                    0, 0, 0, ONE, 0,
            ],
    {
        let r = ColorMatrixFilter {
            matrix: [
                    0x3e99_1687, 0x3f16_45a2, 0x3de9_78d5, 0, 0,
                    0x3e99_1687, 0x3f16_45a2, 0x3de9_78d5, 0, 0,
                    0x3e99_1687, 0x3f16_45a2, 0x3de9_78d5, 0, 0,
                    0, 0, 0, ONE, 0,
            ],
        };
        assert(r.matrix@ =~= seq![
            0x3e99_1687,
            0x3f16_45a2,
            0x3de9_78d5,
            0,
            0,
            0x3e99_1687,
            0x3f16_45a2,
            0x3de9_78d5,
            0,
            0,
            0x3e99_1687,
            0x3f16_45a2,
            0x3de9_78d5,
            0,
            0,
            0,
            0,
            0,
            ONE,
            0,
        ]);
        r
    }

    /// The filter that adds `amount` to the three colors.
    pub fn brightness(amount: u32) -> (r: ColorMatrixFilter)
        ensures
            r.matrix@ == brightness_matrix(amount),
    {
        let r = ColorMatrixFilter {
            matrix: [
                ONE, 0, 0, 0, amount,
                0, ONE, 0, 0, amount,
                0, 0, ONE, 0, amount,
                0, 0, 0, ONE, 0,
            ],
        };
        assert(r.matrix@ =~= brightness_matrix(amount));
        r
    }
}

// ---------------------------------------------------------------------------
// Mask filters
// ---------------------------------------------------------------------------

/// A blur of a mask.
#[derive(Debug, Clone, Copy)]
pub struct BlurMaskFilter {
    /// Style.
    pub style: BlurStyle,
    /// Standard deviation.
    pub sigma: u32,
}

/// A mask taken from a shader.
#[derive(Debug)]
pub struct ShaderMaskFilter {
    /// The shader.
    pub shader: ShaderRef,
}

/// A table that maps the bytes of a mask.
#[derive(Debug)]
pub struct TableMaskFilter {
    /// What each byte becomes.
    pub table: [u8; 256],
}

/// A mask filter.
#[derive(Debug)]
pub enum MaskFilter {
    /// A blur.
    Blur(BlurMaskFilter),
    /// A shader.
    Shader(ShaderMaskFilter),
    /// A table.
    Table(TableMaskFilter),
}

/// A shared mask filter.
pub type MaskFilterRef = Arc<MaskFilter>;

impl BlurMaskFilter {
    /// A blur of the given style and standard deviation.
    pub fn new(style: BlurStyle, sigma: u32) -> (r: BlurMaskFilter)
        ensures
            r == (BlurMaskFilter { style, sigma }),
    {
        BlurMaskFilter { style, sigma }
    }

    /// The style.
    pub fn style(&self) -> (r: BlurStyle)
        ensures
            r == self.style,
    {
        self.style
    }

    /// The standard deviation.
    pub fn sigma(&self) -> (r: u32)
        ensures
            r == self.sigma,
    {
        self.sigma
    }
}

impl ShaderMaskFilter {
    /// A mask taken from a shader.
    pub fn new(shader: ShaderRef) -> (r: ShaderMaskFilter)
        ensures
            r.shader == shader,
    {
        ShaderMaskFilter { shader }
    }

    /// The shader.
    pub fn shader(&self) -> (r: &ShaderRef)
        ensures
            *r == self.shader,
    {
        &self.shader
    }
}

/// What a clipping table makes of a byte: zero below the range, 255 above it,
/// and in the range its place in it, stretched to 255 and rounded down.
pub open spec fn clipped(min: u8, max: u8, i: int) -> u8 {
    if i < min {
        0
    } else if i > max {
        255
    } else if max == min {
        0
    } else {
        ((i - min) * 255 / (max - min)) as u8
    }
}

impl TableMaskFilter {
    /// A filter with the given table.
    pub fn new(table: [u8; 256]) -> (r: TableMaskFilter)
        ensures
            r.table == table,
    {
        TableMaskFilter { table }
    }

    /// A table that stretches the bytes from `min` to `max` over all bytes.
    pub fn clip(min: u8, max: u8) -> (r: TableMaskFilter)
        ensures
            forall|i: int| 0 <= i < 256 ==> #[trigger] r.table@[i] == clipped(min, max, i),
    {
        let mut table: [u8; 256] = [0; 256];
        let mut i: usize = 0;
        while i < 256
            invariant
                i <= 256,
                forall|k: int| 0 <= k < i ==> #[trigger] table@[k] == clipped(min, max, k),
            decreases 256 - i,
        {
            let v: u8 = if i < min as usize {
                0
            } else if i > max as usize {
                255
            } else if max == min {
                0
            } else {
                proof {
                    let d = max - min;
                    let e = i - min;
                    assert(0 <= e * 255 / d <= 255) by (nonlinear_arith)
                        requires
                            0 <= e <= d,
                            0 < d,
                    ;
                }
                ((i as u32 - min as u32) * 255 / (max as u32 - min as u32)) as u8
            };
            table[i] = v;
            i = i + 1;
        }
        TableMaskFilter { table }
    }

    /// The table.
    pub fn table(&self) -> (r: &[u8; 256])
        ensures
            *r == self.table,
    {
        &self.table
    }
}

impl MaskFilter {
    /// The standard deviation of a blur; other filters have none.
    pub fn blur_radius(&self) -> (r: Option<u32>)
        ensures
            r == match *self {
                MaskFilter::Blur(x) => Some(x.sigma),
                _ => None,
            },
    {
        match self {
            MaskFilter::Blur(x) => Some(x.sigma),
            _ => None,
        }
    }
}

// ---------------------------------------------------------------------------
// Image filters
// ---------------------------------------------------------------------------

/// Whether bright regions grow or shrink.
#[derive(Debug, Clone, Copy, PartialEq, Eq, Structural)]
pub enum MorphologyType {
    /// They grow.
    Dilate,
    /// They shrink.
    Erode,
}

/// A component of a color.
#[derive(Debug, Clone, Copy, PartialEq, Eq, Structural)]
pub enum ColorChannel {
    /// Red.
    R,
    /// Green.
    G,
    /// Blue.
    B,
    /// Alpha.
    A,
}

/// A source of light.
#[derive(Debug, Clone, Copy)]
pub enum LightType {
    /// Parallel rays.
    Distant {
        /// Direction towards the source.
        direction: (u32, u32, u32),
    },
    /// A point.
    Point {
        /// Location of the source.
        location: (u32, u32, u32),
    },
    /// A cone from a point.
    Spot {
        /// Location of the source.
        location: (u32, u32, u32),
        /// Target.
        target: (u32, u32, u32),
        /// Specular exponent.
        specular_exponent: u32,
        /// Cutoff angle.
        cutoff_angle: u32,
    },
}

/// A blur.
#[derive(Debug, Clone, Copy)]
pub struct BlurImageFilter {
    /// Horizontal standard deviation.
    pub sigma_x: u32,
    /// Vertical standard deviation.
    pub sigma_y: u32,
    /// Tile mode.
    pub tile_mode: TileMode,
}

/// A shadow.
#[derive(Debug, Clone, Copy)]
pub struct DropShadowImageFilter {
    /// Horizontal offset.
    pub dx: u32,
    /// Vertical offset.
    pub dy: u32,
    /// Horizontal standard deviation.
    pub sigma_x: u32,
    /// Vertical standard deviation.
    pub sigma_y: u32,
    /// Color of the shadow.
    pub color: Color4f,
    /// Whether the image itself is left out.
    pub shadow_only: bool,
}

/// A dilation or an erosion.
#[derive(Debug)]
pub struct MorphologyImageFilter {
    /// Which of the two.
    pub morph_type: MorphologyType,
    /// Horizontal radius.
    pub radius_x: u32,
    /// Vertical radius.
    pub radius_y: u32,
    /// Input.
    pub input: Option<ImageFilterRef>,
}

/// A color filter for every pixel.
#[derive(Debug)]
pub struct ColorFilterImageFilter {
    /// The color filter.
    pub color_filter: ColorFilterRef,
    /// Input.
    pub input: Option<ImageFilterRef>,
}

/// A displacement of pixels by the components of an image.
#[derive(Debug)]
pub struct DisplacementMapImageFilter {
    /// Component that displaces horizontally.
    pub x_channel: ColorChannel,
    /// Component that displaces vertically.
    pub y_channel: ColorChannel,
    /// Scale.
    pub scale: u32,
    /// The displacement.
    pub displacement: ImageFilterRef,
    /// The image that is displaced.
    pub color: Option<ImageFilterRef>,
}

/// Lighting.
#[derive(Debug)]
pub struct LightingImageFilter {
    /// The source of light.
    pub light: LightType,
    /// Scale of the surface.
    pub surface_scale: u32,
    /// Diffuse constant.
    pub diffuse_constant: Option<u32>,
    /// Specular constant.
    pub specular_constant: Option<u32>,
    /// Specular exponent.
    pub specular_exponent: Option<u32>,
    /// Color of the light.
    pub light_color: Color4f,
    /// Input.
    pub input: Option<ImageFilterRef>,
}

/// A filter after another.
#[derive(Debug)]
pub struct ComposeImageFilter {
    /// The filter applied last.
    pub outer: ImageFilterRef,
    /// The filter applied first.
    pub inner: ImageFilterRef,
}

/// Several filters at once.
#[derive(Debug)]
pub struct MergeImageFilter {
    /// The inputs.
    pub inputs: Vec<Option<ImageFilterRef>>,
}

/// An offset.
#[derive(Debug)]
pub struct OffsetImageFilter {
    /// Horizontal offset.
    pub dx: u32,
    /// Vertical offset.
    pub dy: u32,
    /// Input.
    pub input: Option<ImageFilterRef>,
}

/// A convolution.
#[derive(Debug)]
pub struct MatrixConvolutionImageFilter {
    /// Columns and rows of the kernel.
    pub kernel_size: (i32, i32),
    /// Entries of the kernel, row by row.
    pub kernel: Vec<u32>,
    /// Gain.
    pub gain: u32,
    /// Bias.
    pub bias: u32,
    /// Column and row of the target in the kernel.
    pub kernel_offset: (i32, i32),
    /// Tile mode.
    pub tile_mode: TileMode,
    /// Whether alpha is convolved too.
    pub convolve_alpha: bool,
    /// Input.
    pub input: Option<ImageFilterRef>,
}

/// Copies of a part of an image.
#[derive(Debug)]
pub struct TileImageFilter {
    /// The part that is copied.
    pub src_rect: Rect,
    /// The part that is filled.
    pub dst_rect: Rect,
    /// Input.
    pub input: Option<ImageFilterRef>,
}

/// A blend of two images.
#[derive(Debug)]
pub struct BlendImageFilter {
    /// Blend mode.
    pub mode: BlendMode,
    /// Background.
    pub background: Option<ImageFilterRef>,
    /// Foreground.
    pub foreground: Option<ImageFilterRef>,
}

/// An arithmetic blend: `k1 * src * dst + k2 * src + k3 * dst + k4`.
#[derive(Debug)]
pub struct ArithmeticImageFilter {
    /// Factor of the product.
    pub k1: u32,
    /// Factor of the source.
    pub k2: u32,
    /// Factor of the destination.
    pub k3: u32,
    /// Constant.
    pub k4: u32,
    /// Whether colors are held below alpha.
    pub enforce_pm_color: bool,
    /// Background.
    pub background: Option<ImageFilterRef>,
    /// Foreground.
    pub foreground: Option<ImageFilterRef>,
}

/// An image filter.
#[derive(Debug)]
pub enum ImageFilter {
    /// A blur.
    Blur(BlurImageFilter),
    /// A shadow.
    DropShadow(DropShadowImageFilter),
    /// A dilation or an erosion.
    Morphology(MorphologyImageFilter),
    /// A color filter for every pixel.
    ColorFilter(ColorFilterImageFilter),
    /// A displacement.
    DisplacementMap(DisplacementMapImageFilter),
    /// Lighting.
    Lighting(LightingImageFilter),
    /// A filter after another.
    Compose(ComposeImageFilter),
    /// Several filters at once.
    Merge(MergeImageFilter),
    /// An offset.
    Offset(OffsetImageFilter),
    /// A convolution.
    MatrixConvolution(MatrixConvolutionImageFilter),
    /// Copies of a part.
    Tile(TileImageFilter),
    /// A blend.
    Blend(BlendImageFilter),
    /// An arithmetic blend.
    Arithmetic(ArithmeticImageFilter),
}

/// A shared image filter.
pub type ImageFilterRef = Arc<ImageFilter>;

/// The pixels that a radius reaches: the nearest integer, or zero if there is
/// none.
pub open spec fn reach(radius: u32) -> int {
    nearest_int(float_max(radius, 0))
}

/// The pixels that a radius reaches.
pub fn reach_of(radius: u32) -> (r: usize)
    ensures
        r == reach(radius),
{
    let m: u32 = bits_max(radius, 0);
    let n: i32 = bits_round(m);
    proof {
        lemma_reach(radius);
    }
    n as usize
}

proof fn lemma_reach(radius: u32)
    ensures
        0 <= reach(radius) <= i32::MAX,
{
    let m = float_max(radius, 0);
    crate::float_bits::lemma_nearest_sign(m);
}

impl MorphologyImageFilter {
    /// A filter that lets bright regions grow.
    pub fn dilate(radius_x: u32, radius_y: u32, input: Option<ImageFilterRef>) -> (r:
        MorphologyImageFilter)
        ensures
            r == (MorphologyImageFilter {
                morph_type: MorphologyType::Dilate,
                radius_x,
                radius_y,
                input,
            }),
    {
        MorphologyImageFilter { morph_type: MorphologyType::Dilate, radius_x, radius_y, input }
    }

    /// A filter that lets bright regions shrink.
    pub fn erode(radius_x: u32, radius_y: u32, input: Option<ImageFilterRef>) -> (r:
        MorphologyImageFilter)
        ensures
            r == (MorphologyImageFilter {
                morph_type: MorphologyType::Erode,
                radius_x,
                radius_y,
                input,
            }),
    {
        MorphologyImageFilter { morph_type: MorphologyType::Erode, radius_x, radius_y, input }
    }

    /// Whether bright regions grow or shrink.
    pub fn morph_type(&self) -> (r: MorphologyType)
        ensures
            r == self.morph_type,
    {
        self.morph_type
    }

    /// The horizontal radius.
    pub fn radius_x(&self) -> (r: u32)
        ensures
            r == self.radius_x,
    {
        self.radius_x
    }

    /// The vertical radius.
    pub fn radius_y(&self) -> (r: u32)
        ensures
            r == self.radius_y,
    {
        self.radius_y
    }

    /// Applies the filter to an image. The input is not looked at.
    pub fn apply(&self, pixels: &mut [u8], width: usize, height: usize)
        requires
            width * height * 4 <= old(pixels)@.len(),
        ensures
            morphed(
                old(pixels)@,
                final(pixels)@,
                width as int,
                height as int,
                reach(self.radius_x),
                reach(self.radius_y),
                self.morph_type == MorphologyType::Dilate,
            ),
    {
        let rx: usize = reach_of(self.radius_x);
        let ry: usize = reach_of(self.radius_y);
        let largest = match self.morph_type {
            MorphologyType::Dilate => true,
            MorphologyType::Erode => false,
        };
        morph_pixels(pixels, width, height, rx, ry, largest);
    }
}

impl OffsetImageFilter {
    /// An offset.
    pub fn new(dx: u32, dy: u32, input: Option<ImageFilterRef>) -> (r: OffsetImageFilter)
        ensures
            r == (OffsetImageFilter { dx, dy, input }),
    {
        OffsetImageFilter { dx, dy, input }
    }

    /// Moves an image by the offset, rounded to whole pixels; its edges are
    /// repeated. This is what is left to do once the input has been applied.
    pub fn apply_offset(&self, pixels: &mut [u8], width: usize, height: usize)
        requires
            width * height * 4 <= old(pixels)@.len(),
        ensures
            final(pixels)@ == remapped(
                old(pixels)@,
                shift_map(
                    width as int,
                    height as int,
                    nearest_int(self.dx),
                    nearest_int(self.dy),
                ),
            ),
    {
        shift_pixels(pixels, width, height, bits_round(self.dx), bits_round(self.dy));
    }
}

/// A coordinate as a number of pixels, at most `limit`; negative ones become
/// zero.
pub open spec fn pixel_edge(v: u32, limit: int) -> int {
    let n = int_of_float(float_max(v, 0));
    if n < limit {
        n
    } else {
        limit
    }
}

/// A coordinate as a number of pixels.
fn edge_of(v: u32, limit: usize) -> (r: usize)
    ensures
        r == pixel_edge(v, limit as int),
{
    let n: i32 = bits_to_int(bits_max(v, 0));
    proof {
        crate::float_bits::lemma_nearest_sign(float_max(v, 0));
    }
    if (n as usize) < limit {
        n as usize
    } else {
        limit
    }
}

/// The part of an image that a rectangle covers.
pub open spec fn covered(r: Rect, width: int, height: int) -> Region {
    Region {
        x0: pixel_edge(r.left, width) as usize,
        y0: pixel_edge(r.top, height) as usize,
        x1: pixel_edge(r.right, width) as usize,
        y1: pixel_edge(r.bottom, height) as usize,
    }
}

/// The part of an image that a rectangle covers.
fn region_of(r: Rect, width: usize, height: usize) -> (g: Region)
    ensures
        g == covered(r, width as int, height as int),
        g.fits(width as int, height as int),
{
    Region {
        x0: edge_of(r.left, width),
        y0: edge_of(r.top, height),
        x1: edge_of(r.right, width),
        y1: edge_of(r.bottom, height),
    }
}

impl TileImageFilter {
    /// A filter that fills `dst_rect` with copies of `src_rect`.
    pub fn new(src_rect: Rect, dst_rect: Rect, input: Option<ImageFilterRef>) -> (r:
        TileImageFilter)
        ensures
            r == (TileImageFilter { src_rect, dst_rect, input }),
    {
        TileImageFilter { src_rect, dst_rect, input }
    }

    /// Applies the filter to an image. The input is not looked at.
    pub fn apply(&self, pixels: &mut [u8], width: usize, height: usize)
        requires
            width * height * 4 <= old(pixels)@.len(),
        ensures
            final(pixels)@ == remapped(
                old(pixels)@,
                tile_map(
                    width as int,
                    height as int,
                    covered(self.src_rect, width as int, height as int),
                    covered(self.dst_rect, width as int, height as int),
                ),
            ),
    {
        let src = region_of(self.src_rect, width, height);
        let dst = region_of(self.dst_rect, width, height);
        tile_pixels(pixels, width, height, src, dst);
    }
}

impl MatrixConvolutionImageFilter {
    /// The shape of the convolution.
    pub open spec fn kernel_shape(self) -> KernelShape {
        KernelShape {
            width: self.kernel_size.0,
            height: self.kernel_size.1,
            offset_x: self.kernel_offset.0,
            offset_y: self.kernel_offset.1,
            tile_mode: self.tile_mode,
        }
    }

    /// The shape of the convolution.
    pub fn shape(&self) -> (r: KernelShape)
        ensures
            r == self.kernel_shape(),
    {
        KernelShape {
            width: self.kernel_size.0,
            height: self.kernel_size.1,
            offset_x: self.kernel_offset.0,
            offset_y: self.kernel_offset.1,
            tile_mode: self.tile_mode,
        }
    }
}

/// Adding nothing to the colors is the identity.
pub proof fn no_brightness_is_identity()
    ensures
        brightness_matrix(0) == seq![
            ONE, 0, 0, 0, 0u32,
            0, ONE, 0, 0, 0,
            0, 0, ONE, 0, 0,
            0, 0, 0, ONE, 0,
        ],
{
    assert(brightness_matrix(0) =~= seq![
            ONE, 0, 0, 0, 0u32,
            0, ONE, 0, 0, 0,
            0, 0, ONE, 0, 0,
            0, 0, 0, ONE, 0,
        ]);
}

} // verus!
