//! Shaders: sources of color for every coordinate, as data.

use std::sync::Arc;
use vstd::prelude::*;

use crate::blend_mode::BlendMode;
use crate::float_bits::{ONE, bits_le, float_le};
use crate::geometry::{Color4f, Matrix, Point, Rect, opt_matrix};
use crate::runtime_effect::RuntimeShader;

verus! {

/// How a shader treats coordinates outside its bounds.
#[derive(Debug, Clone, Copy, PartialEq, Eq, Structural)]
pub enum TileMode {
    /// Clamp to the edge color.
    Clamp,
    /// Repeat the pattern.
    Repeat,
    /// Mirror the pattern.
    Mirror,
    /// Transparent outside.
    Decal,
}

/// How pixels are looked up between their centers.
#[derive(Debug, Clone, Copy, PartialEq, Eq, Structural)]
pub enum FilterMode {
    /// The nearest pixel.
    Nearest,
    /// Bilinear interpolation.
    Linear,
}

/// How mipmap levels are looked up.
#[derive(Debug, Clone, Copy, PartialEq, Eq, Structural)]
pub enum MipmapMode {
    /// No mipmaps.
    Off,
    /// The nearest level.
    Nearest,
    /// Interpolation between levels.
    Linear,
}

/// How an image is sampled.
#[derive(Debug, Clone, Copy, PartialEq, Eq, Structural)]
pub struct SamplingOptions {
    /// Filter mode.
    pub filter: FilterMode,
    /// Mipmap mode.
    pub mipmap: MipmapMode,
}

/// The type of Perlin noise.
#[derive(Debug, Clone, Copy, PartialEq, Eq, Structural)]
pub enum NoiseType {
    /// Smooth noise.
    FractalNoise,
    /// Chaotic noise.
    Turbulence,
}

/// The kind of a shader.
#[derive(Debug, Clone, Copy, PartialEq, Eq, Structural)]
pub enum ShaderKind {
    /// Solid color.
    Color,
    /// Linear gradient.
    LinearGradient,
    /// Radial gradient.
    RadialGradient,
    /// Sweep gradient.
    SweepGradient,
    /// Two-point conical gradient.
    TwoPointConicalGradient,
    /// Image.
    Image,
    /// Blend of two shaders.
    Blend,
    /// Perlin noise.
    PerlinNoise,
    /// Shader with a local matrix.
    LocalMatrix,
    /// Composition of two shaders.
    Compose,
    /// Nothing.
    Empty,
}

/// Flags of a gradient. Bit zero asks for interpolation of premultiplied
/// colors; no other bit is in use.
#[derive(Debug, Clone, Copy, PartialEq, Eq, Structural)]
pub struct GradientFlags {
    /// The bits in use.
    pub interpolate_premul: bool,
}

impl GradientFlags {
    /// The flags as a number.
    pub open spec fn number(self) -> u32 {
        if self.interpolate_premul {
            1
        } else {
            0
        }
    }

    /// The flags that a number holds; unknown bits are dropped.
    pub open spec fn of_number(n: u32) -> GradientFlags {
        GradientFlags { interpolate_premul: n % 2 == 1 }
    }

    /// No flags.
    pub fn empty() -> (r: GradientFlags)
        ensures
            r == GradientFlags::of_number(0),
    {
        GradientFlags { interpolate_premul: false }
    }

    /// The flags as a number.
    pub fn bits(&self) -> (n: u32)
        ensures
            n == self.number(),
    {
        if self.interpolate_premul {
            1
        } else {
            0
        }
    }

    /// The flags that a number holds.
    pub fn from_bits_truncate(n: u32) -> (r: GradientFlags)
        ensures
            r == GradientFlags::of_number(n),
    {
        GradientFlags { interpolate_premul: n % 2 == 1 }
    }
}

/// The colors of a gradient and how they are laid out.
#[derive(Debug)]
pub struct GradientRamp {
    /// The colors.
    pub colors: Vec<Color4f>,
    /// The position of each color, if they are not evenly spaced.
    pub positions: Option<Vec<u32>>,
    /// Tile mode.
    pub tile_mode: TileMode,
    /// Flags.
    pub flags: GradientFlags,
    /// Local matrix.
    pub local_matrix: Option<Matrix>,
}

/// The colors of a gradient as a mathematical value.
pub struct RampModel {
    /// The colors.
    pub colors: Seq<Color4f>,
    /// The position of each color.
    pub positions: Option<Seq<u32>>,
    /// Tile mode.
    pub tile_mode: TileMode,
    /// Flags.
    pub flags: GradientFlags,
    /// Local matrix.
    pub local_matrix: Option<Seq<u32>>,
}

impl View for GradientRamp {
    type V = RampModel;

    open spec fn view(&self) -> RampModel {
        RampModel {
            colors: self.colors@,
            positions: match self.positions {
                None => None,
                Some(p) => Some(p@),
            },
            tile_mode: self.tile_mode,
            flags: self.flags,
            local_matrix: opt_matrix(self.local_matrix),
        }
    }
}

/// How the pixels of an image store colors.
#[derive(Debug, Clone, Copy, PartialEq, Eq, Structural)]
pub enum ColorType {
    /// Unknown.
    Unknown,
    /// 8-bit alpha.
    Alpha8,
    /// 5-6-5 RGB.
    Rgb565,
    /// 4-bit ARGB.
    Argb4444,
    /// 8-bit RGBA.
    Rgba8888,
    /// 8-bit RGB with padding.
    Rgb888x,
    /// 8-bit BGRA.
    Bgra8888,
    /// 10-bit RGB, 2-bit alpha.
    Rgba1010102,
    /// 10-bit BGR, 2-bit alpha.
    Bgra1010102,
    /// 10-bit RGB with padding.
    Rgb101010x,
    /// 10-bit BGR with padding.
    Bgr101010x,
    /// 8-bit gray.
    Gray8,
    /// 16-bit float RGBA.
    RgbaF16,
    /// 16-bit float RGBA between zero and one.
    RgbaF16Norm,
    /// 32-bit float RGBA.
    RgbaF32,
    /// 8-bit red.
    R8Unorm,
    /// 16-bit float alpha.
    A16Float,
    /// 16-bit float red and green.
    R16G16Float,
    /// 16-bit alpha.
    A16Unorm,
    /// 16-bit red and green.
    R16G16Unorm,
    /// 16-bit RGBA.
    R16G16B16A16Unorm,
    /// 8-bit sRGB with alpha.
    Srgba8888,
    /// 8-bit red, second form.
    R8Unorm2,
}

/// How the pixels of an image store alpha.
#[derive(Debug, Clone, Copy, PartialEq, Eq, Structural)]
pub enum AlphaType {
    /// Unknown.
    Unknown,
    /// All pixels are opaque.
    Opaque,
    /// Colors are multiplied by alpha.
    Premul,
    /// Colors are not multiplied by alpha.
    Unpremul,
}

/// The layout of an image.
#[derive(Debug, Clone, Copy, PartialEq, Eq, Structural)]
pub struct ImageInfo {
    /// Width in pixels.
    pub width: i32,
    /// Height in pixels.
    pub height: i32,
    /// Color type.
    pub color_type: ColorType,
    /// Alpha type.
    pub alpha_type: AlphaType,
}

/// The pixels of an image.
#[derive(Debug)]
pub struct ImagePixels {
    /// Layout of the pixels.
    pub info: ImageInfo,
    /// The bytes, row by row.
    pub bytes: Vec<u8>,
}

/// A solid color.
#[derive(Debug)]
pub struct ColorShader {
    /// The color.
    pub color: Color4f,
}

/// A gradient along a line.
#[derive(Debug)]
pub struct LinearGradient {
    /// Start of the line.
    pub start: Point,
    /// End of the line.
    pub end: Point,
    /// The colors.
    pub ramp: GradientRamp,
}

/// A gradient around a point.
#[derive(Debug)]
pub struct RadialGradient {
    /// Center.
    pub center: Point,
    /// Radius.
    pub radius: u32,
    /// The colors.
    pub ramp: GradientRamp,
}

/// A gradient by angle.
#[derive(Debug)]
pub struct SweepGradient {
    /// Center.
    pub center: Point,
    /// Start angle.
    pub start_angle: u32,
    /// End angle.
    pub end_angle: u32,
    /// The colors.
    pub ramp: GradientRamp,
}

/// A gradient between two circles.
#[derive(Debug)]
pub struct TwoPointConicalGradient {
    /// Center of the first circle.
    pub start_center: Point,
    /// Radius of the first circle.
    pub start_radius: u32,
    /// Center of the second circle.
    pub end_center: Point,
    /// Radius of the second circle.
    pub end_radius: u32,
    /// The colors.
    pub ramp: GradientRamp,
}

/// A tiled image.
#[derive(Debug)]
pub struct ImageShader {
    /// Bounds of the image.
    pub bounds: Rect,
    /// Horizontal tile mode.
    pub tile_mode_x: TileMode,
    /// Vertical tile mode.
    pub tile_mode_y: TileMode,
    /// Sampling options.
    pub sampling: SamplingOptions,
    /// Local matrix.
    pub local_matrix: Option<Matrix>,
    /// The pixels, unless only their bounds are known.
    pub pixels: Option<ImagePixels>,
}

/// Perlin noise.
#[derive(Debug, Clone, Copy)]
pub struct PerlinNoiseShader {
    /// Type of noise.
    pub noise_type: NoiseType,
    /// Horizontal base frequency.
    pub base_frequency_x: u32,
    /// Vertical base frequency.
    pub base_frequency_y: u32,
    /// Number of octaves.
    pub num_octaves: i32,
    /// Seed.
    pub seed: u32,
    /// Size of a seamless tile.
    pub tile_size: Option<(i32, i32)>,
}

/// The shader that is transparent everywhere.
#[derive(Debug, Clone, Copy, PartialEq, Eq, Structural)]
pub struct EmptyShader;

/// A shader.
#[derive(Debug)]
pub enum Shader {
    /// A solid color.
    Color(ColorShader),
    /// A gradient along a line.
    Linear(LinearGradient),
    /// A gradient around a point.
    Radial(RadialGradient),
    /// A gradient by angle.
    Sweep(SweepGradient),
    /// A gradient between two circles.
    Conical(TwoPointConicalGradient),
    /// A tiled image.
    Image(ImageShader),
    /// Perlin noise.
    Perlin(PerlinNoiseShader),
    /// A blend of two shaders.
    Blend(BlendShader),
    /// A shader with a local matrix.
    Local(LocalMatrixShader),
    /// A composition of two shaders.
    Compose(ComposeShader),
    /// Nothing.
    Empty(EmptyShader),
    /// A shader that runs a program. It has no serialized form.
    Runtime(RuntimeShader),
}

/// A shared shader.
pub type ShaderRef = Arc<Shader>;

/// A blend of two shaders.
#[derive(Debug)]
pub struct BlendShader {
    /// Blend mode.
    pub blend_mode: BlendMode,
    /// Destination.
    pub dst: ShaderRef,
    /// Source.
    pub src: ShaderRef,
}

/// A shader with a local matrix.
#[derive(Debug)]
pub struct LocalMatrixShader {
    /// The shader.
    pub inner: ShaderRef,
    /// The matrix.
    pub matrix: Matrix,
}

/// A composition of two shaders.
#[derive(Debug)]
pub struct ComposeShader {
    /// The shader applied last.
    pub outer: ShaderRef,
    /// The shader applied first.
    pub inner: ShaderRef,
    /// Blend mode.
    pub blend_mode: BlendMode,
}

/// A shader as a mathematical value.
pub enum ShaderModel {
    /// A solid color.
    Color(Color4f),
    /// A gradient along a line.
    Linear(Point, Point, RampModel),
    /// A gradient around a point.
    Radial(Point, u32, RampModel),
    /// A gradient by angle.
    Sweep(Point, u32, u32, RampModel),
    /// A gradient between two circles.
    Conical(Point, u32, Point, u32, RampModel),
    /// A tiled image.
    Image(ImageModel),
    /// Perlin noise.
    Perlin(PerlinNoiseShader),
    /// A blend: mode, destination and source.
    Blend(BlendMode, Box<ShaderModel>, Box<ShaderModel>),
    /// A shader with a local matrix.
    Local(Box<ShaderModel>, Seq<u32>),
    /// A composition: outer, inner and mode.
    Compose(Box<ShaderModel>, Box<ShaderModel>, BlendMode),
    /// Nothing.
    Empty,
    /// A shader without a serialized form.
    Runtime,
}

/// A tiled image as a mathematical value.
pub struct ImageModel {
    /// Bounds of the image.
    pub bounds: Rect,
    /// Horizontal tile mode.
    pub tile_mode_x: TileMode,
    /// Vertical tile mode.
    pub tile_mode_y: TileMode,
    /// Sampling options.
    pub sampling: SamplingOptions,
    /// Local matrix.
    pub local_matrix: Option<Seq<u32>>,
    /// Layout and bytes of the pixels.
    pub pixels: Option<(ImageInfo, Seq<u8>)>,
}

/// The model of an image.
pub open spec fn image_model(s: ImageShader) -> ImageModel {
    ImageModel {
        bounds: s.bounds,
        tile_mode_x: s.tile_mode_x,
        tile_mode_y: s.tile_mode_y,
        sampling: s.sampling,
        local_matrix: opt_matrix(s.local_matrix),
        pixels: match s.pixels {
            None => None,
            Some(p) => Some((p.info, p.bytes@)),
        },
    }
}

/// The model of a shader.
pub open spec fn shader_model(s: Shader) -> ShaderModel
    decreases s,
{
    match s {
        Shader::Color(x) => ShaderModel::Color(x.color),
        Shader::Linear(x) => ShaderModel::Linear(x.start, x.end, x.ramp@),
        Shader::Radial(x) => ShaderModel::Radial(x.center, x.radius, x.ramp@),
        Shader::Sweep(x) => ShaderModel::Sweep(x.center, x.start_angle, x.end_angle, x.ramp@),
        Shader::Conical(x) => ShaderModel::Conical(
            x.start_center,
            x.start_radius,
            x.end_center,
            x.end_radius,
            x.ramp@,
        ),
        Shader::Image(x) => ShaderModel::Image(image_model(x)),
        Shader::Perlin(x) => ShaderModel::Perlin(x),
        Shader::Blend(x) => ShaderModel::Blend(
            x.blend_mode,
            Box::new(shader_model(*x.dst)),
            Box::new(shader_model(*x.src)),
        ),
        Shader::Local(x) => ShaderModel::Local(Box::new(shader_model(*x.inner)), x.matrix@),
        Shader::Compose(x) => ShaderModel::Compose(
            Box::new(shader_model(*x.outer)),
            Box::new(shader_model(*x.inner)),
            x.blend_mode,
        ),
        Shader::Empty(_) => ShaderModel::Empty,
        Shader::Runtime(_) => ShaderModel::Runtime,
    }
}

/// Whether every color is fully opaque.
pub open spec fn all_opaque(colors: Seq<Color4f>) -> bool {
    forall|i: int| 0 <= i < colors.len() ==> float_le(ONE, (#[trigger] colors[i]).a)
}

/// Whether a shader is opaque everywhere.
pub open spec fn opaque(m: ShaderModel) -> bool
    decreases m,
{
    match m {
        ShaderModel::Color(c) => float_le(ONE, c.a),
        ShaderModel::Linear(_, _, r) => all_opaque(r.colors),
        ShaderModel::Radial(_, _, r) => all_opaque(r.colors),
        ShaderModel::Sweep(_, _, _, r) => all_opaque(r.colors),
        ShaderModel::Conical(_, _, _, _, r) => all_opaque(r.colors),
        ShaderModel::Perlin(_) => true,
        ShaderModel::Local(inner, _) => opaque(*inner),
        ShaderModel::Compose(outer, inner, _) => opaque(*outer) && opaque(*inner),
        _ => false,
    }
}

/// The kind of a shader. One that runs a program counts as a color.
pub open spec fn kind_of(m: ShaderModel) -> ShaderKind {
    match m {
        ShaderModel::Color(_) => ShaderKind::Color,
        ShaderModel::Linear(..) => ShaderKind::LinearGradient,
        ShaderModel::Radial(..) => ShaderKind::RadialGradient,
        ShaderModel::Sweep(..) => ShaderKind::SweepGradient,
        ShaderModel::Conical(..) => ShaderKind::TwoPointConicalGradient,
        ShaderModel::Image(_) => ShaderKind::Image,
        ShaderModel::Perlin(_) => ShaderKind::PerlinNoise,
        ShaderModel::Blend(..) => ShaderKind::Blend,
        ShaderModel::Local(..) => ShaderKind::LocalMatrix,
        ShaderModel::Compose(..) => ShaderKind::Compose,
        ShaderModel::Empty => ShaderKind::Empty,
        ShaderModel::Runtime => ShaderKind::Color,
    }
}

/// The local matrix of a shader.
pub open spec fn matrix_of(m: ShaderModel) -> Option<Seq<u32>> {
    match m {
        ShaderModel::Linear(_, _, r) => r.local_matrix,
        ShaderModel::Radial(_, _, r) => r.local_matrix,
        ShaderModel::Sweep(_, _, _, r) => r.local_matrix,
        ShaderModel::Conical(_, _, _, _, r) => r.local_matrix,
        ShaderModel::Image(i) => i.local_matrix,
        ShaderModel::Local(_, matrix) => Some(matrix),
        _ => None,
    }
}

/// Whether every color is fully opaque.
fn colors_opaque(colors: &Vec<Color4f>) -> (r: bool)
    ensures
        r == all_opaque(colors@),
{
    let mut i: usize = 0;
    while i < colors.len()
        invariant
            i <= colors@.len(),
            forall|j: int| 0 <= j < i ==> float_le(ONE, (#[trigger] colors@[j]).a),
        decreases colors@.len() - i,
    {
        if !bits_le(ONE, colors[i].a) {
            assert(!float_le(ONE, colors@[i as int].a));
            return false;
        }
        i = i + 1;
    }
    true
}

impl Shader {
    /// Whether the shader is opaque everywhere.
    pub fn is_opaque(&self) -> (r: bool)
        ensures
            r == opaque(shader_model(*self)),
        decreases self,
    {
        match self {
            Shader::Color(x) => bits_le(ONE, x.color.a),
            Shader::Linear(x) => colors_opaque(&x.ramp.colors),
            Shader::Radial(x) => colors_opaque(&x.ramp.colors),
            Shader::Sweep(x) => colors_opaque(&x.ramp.colors),
            Shader::Conical(x) => colors_opaque(&x.ramp.colors),
            Shader::Perlin(_) => true,
            Shader::Local(x) => x.inner.is_opaque(),
            Shader::Compose(x) => x.outer.is_opaque() && x.inner.is_opaque(),
            _ => false,
        }
    }

    /// The kind of the shader.
    pub fn shader_kind(&self) -> (k: ShaderKind)
        ensures
            k == kind_of(shader_model(*self)),
    {
        match self {
            Shader::Color(_) => ShaderKind::Color,
            Shader::Linear(_) => ShaderKind::LinearGradient,
            Shader::Radial(_) => ShaderKind::RadialGradient,
            Shader::Sweep(_) => ShaderKind::SweepGradient,
            Shader::Conical(_) => ShaderKind::TwoPointConicalGradient,
            Shader::Image(_) => ShaderKind::Image,
            Shader::Perlin(_) => ShaderKind::PerlinNoise,
            Shader::Blend(_) => ShaderKind::Blend,
            Shader::Local(_) => ShaderKind::LocalMatrix,
            Shader::Compose(_) => ShaderKind::Compose,
            Shader::Empty(_) => ShaderKind::Empty,
            Shader::Runtime(_) => ShaderKind::Color,
        }
    }

    /// The local matrix of the shader.
    pub fn local_matrix(&self) -> (r: Option<Matrix>)
        ensures
            opt_matrix(r) == matrix_of(shader_model(*self)),
    {
        match self {
            Shader::Linear(x) => x.ramp.local_matrix,
            Shader::Radial(x) => x.ramp.local_matrix,
            Shader::Sweep(x) => x.ramp.local_matrix,
            Shader::Conical(x) => x.ramp.local_matrix,
            Shader::Image(x) => x.local_matrix,
            Shader::Local(x) => Some(x.matrix),
            _ => None,
        }
    }
}

impl EmptyShader {
    /// The empty shader.
    pub fn new() -> (s: EmptyShader)
        ensures
            s == EmptyShader,
            shader_model(Shader::Empty(s)) == ShaderModel::Empty,
    {
        EmptyShader
    }
}

} // verus!
