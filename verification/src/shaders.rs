//! Constructors and properties of shaders.

use std::sync::Arc;
use vstd::prelude::*;

use crate::blend_mode::BlendMode;
use crate::float_bits::{float_of_int, int_to_bits};
use crate::geometry::{Color4f, Matrix, Point, Rect};
use crate::sampling::opt_positions;
use crate::shader::{
    BlendShader, ColorShader, ComposeShader, EmptyShader, FilterMode, GradientFlags, GradientRamp,
    ImageInfo, ImagePixels, ImageShader, LinearGradient, LocalMatrixShader, MipmapMode, NoiseType,
    PerlinNoiseShader, RadialGradient, RampModel, SamplingOptions, Shader, ShaderModel, ShaderRef,
    SweepGradient, TileMode, TwoPointConicalGradient, image_model, shader_model,
};

verus! {

/// A ramp without flags and without a local matrix.
pub open spec fn plain_ramp(
    colors: Seq<Color4f>,
    positions: Option<Seq<u32>>,
    tile_mode: TileMode,
) -> RampModel {
    RampModel {
        colors,
        positions,
        tile_mode,
        flags: GradientFlags::of_number(0),
        local_matrix: None,
    }
}

impl GradientRamp {
    /// A ramp without flags and without a local matrix.
    fn plain(colors: Vec<Color4f>, positions: Option<Vec<u32>>, tile_mode: TileMode) -> (r:
        GradientRamp)
        ensures
            r@ == plain_ramp(colors@, opt_positions(positions), tile_mode),
    {
        GradientRamp {
            colors,
            positions,
            tile_mode,
            flags: GradientFlags::empty(),
            local_matrix: None,
        }
    }
}

impl SamplingOptions {
    /// The nearest pixel, without mipmaps.
    pub fn nearest() -> (r: SamplingOptions)
        ensures
            r == (SamplingOptions { filter: FilterMode::Nearest, mipmap: MipmapMode::Off }),
    {
        SamplingOptions { filter: FilterMode::Nearest, mipmap: MipmapMode::Off }
    }

    /// Bilinear interpolation, without mipmaps.
    pub fn linear() -> (r: SamplingOptions)
        ensures
            r == (SamplingOptions { filter: FilterMode::Linear, mipmap: MipmapMode::Off }),
    {
        SamplingOptions { filter: FilterMode::Linear, mipmap: MipmapMode::Off }
    }

    /// Bilinear interpolation, also between mipmap levels.
    pub fn trilinear() -> (r: SamplingOptions)
        ensures
            r == (SamplingOptions { filter: FilterMode::Linear, mipmap: MipmapMode::Linear }),
    {
        SamplingOptions { filter: FilterMode::Linear, mipmap: MipmapMode::Linear }
    }
}

impl Default for SamplingOptions {
    /// The nearest pixel, without mipmaps.
    fn default() -> (r: SamplingOptions)
        ensures
            r == (SamplingOptions { filter: FilterMode::Nearest, mipmap: MipmapMode::Off }),
    {
        SamplingOptions { filter: FilterMode::Nearest, mipmap: MipmapMode::Off }
    }
}

impl LinearGradient {
    /// A gradient along a line, without flags and without a local matrix.
    pub fn new(
        start: Point,
        end: Point,
        colors: Vec<Color4f>,
        positions: Option<Vec<u32>>,
        tile_mode: TileMode,
    ) -> (r: LinearGradient)
        ensures
            shader_model(Shader::Linear(r)) == ShaderModel::Linear(
                start,
                end,
                plain_ramp(colors@, opt_positions(positions), tile_mode),
            ),
    {
        LinearGradient { start, end, ramp: GradientRamp::plain(colors, positions, tile_mode) }
    }

    /// The gradient with a local matrix.
    pub fn with_local_matrix(self, matrix: Matrix) -> (r: LinearGradient)
        ensures
            r.start == self.start,
            r.end == self.end,
            r.ramp@ == (RampModel { local_matrix: Some(matrix@), ..self.ramp@ }),
    {
        let mut r = self;
        r.ramp.local_matrix = Some(matrix);
        r
    }

    /// The gradient with flags.
    pub fn with_flags(self, flags: GradientFlags) -> (r: LinearGradient)
        ensures
            r.start == self.start,
            r.end == self.end,
            r.ramp@ == (RampModel { flags, ..self.ramp@ }),
    {
        let mut r = self;
        r.ramp.flags = flags;
        r
    }

    /// Where the line starts.
    pub fn start(&self) -> (r: Point)
        ensures
            r == self.start,
    {
        self.start
    }

    /// Where the line ends.
    pub fn end(&self) -> (r: Point)
        ensures
            r == self.end,
    {
        self.end
    }

    /// The colors.
    pub fn colors(&self) -> (r: &Vec<Color4f>)
        ensures
            *r == self.ramp.colors,
    {
        &self.ramp.colors
    }

    /// The position of each color, if they are not evenly spaced.
    pub fn positions(&self) -> (r: &Option<Vec<u32>>)
        ensures
            *r == self.ramp.positions,
    {
        &self.ramp.positions
    }

    /// The tile mode.
    pub fn tile_mode(&self) -> (r: TileMode)
        ensures
            r == self.ramp.tile_mode,
    {
        self.ramp.tile_mode
    }
}

impl RadialGradient {
    /// A gradient around a point, without flags and without a local matrix.
    pub fn new(
        center: Point,
        radius: u32,
        colors: Vec<Color4f>,
        positions: Option<Vec<u32>>,
        tile_mode: TileMode,
    ) -> (r: RadialGradient)
        ensures
            shader_model(Shader::Radial(r)) == ShaderModel::Radial(
                center,
                radius,
                plain_ramp(colors@, opt_positions(positions), tile_mode),
            ),
    {
        RadialGradient { center, radius, ramp: GradientRamp::plain(colors, positions, tile_mode) }
    }

    /// The gradient with a local matrix.
    pub fn with_local_matrix(self, matrix: Matrix) -> (r: RadialGradient)
        ensures
            r.center == self.center,
            r.radius == self.radius,
            r.ramp@ == (RampModel { local_matrix: Some(matrix@), ..self.ramp@ }),
    {
        let mut r = self;
        r.ramp.local_matrix = Some(matrix);
        r
    }

    /// The gradient with flags.
    pub fn with_flags(self, flags: GradientFlags) -> (r: RadialGradient)
        ensures
            r.center == self.center,
            r.radius == self.radius,
            r.ramp@ == (RampModel { flags, ..self.ramp@ }),
    {
        let mut r = self;
        r.ramp.flags = flags;
        r
    }

    /// The center.
    pub fn center(&self) -> (r: Point)
        ensures
            r == self.center,
    {
        self.center
    }

    /// The radius.
    pub fn radius(&self) -> (r: u32)
        ensures
            r == self.radius,
    {
        self.radius
    }

    /// The colors.
    pub fn colors(&self) -> (r: &Vec<Color4f>)
        ensures
            *r == self.ramp.colors,
    {
        &self.ramp.colors
    }

    /// The position of each color, if they are not evenly spaced.
    pub fn positions(&self) -> (r: &Option<Vec<u32>>)
        ensures
            *r == self.ramp.positions,
    {
        &self.ramp.positions
    }

    /// The tile mode.
    pub fn tile_mode(&self) -> (r: TileMode)
        ensures
            r == self.ramp.tile_mode,
    {
        self.ramp.tile_mode
    }
}

impl SweepGradient {
    /// A gradient by angle, without flags and without a local matrix.
    pub fn new(
        center: Point,
        start_angle: u32,
        end_angle: u32,
        colors: Vec<Color4f>,
        positions: Option<Vec<u32>>,
        tile_mode: TileMode,
    ) -> (r: SweepGradient)
        ensures
            shader_model(Shader::Sweep(r)) == ShaderModel::Sweep(
                center,
                start_angle,
                end_angle,
                plain_ramp(colors@, opt_positions(positions), tile_mode),
            ),
    {
        SweepGradient {
            center,
            start_angle,
            end_angle,
            ramp: GradientRamp::plain(colors, positions, tile_mode),
        }
    }

    /// A gradient over a full turn.
    pub fn new_full(center: Point, colors: Vec<Color4f>, positions: Option<Vec<u32>>) -> (r:
        SweepGradient)
        ensures
            shader_model(Shader::Sweep(r)) == ShaderModel::Sweep(
                center,
                0,
                0x43b4_0000,
                plain_ramp(colors@, opt_positions(positions), TileMode::Clamp),
            ),
    {
        SweepGradient::new(center, 0, 0x43b4_0000, colors, positions, TileMode::Clamp)
    }

    /// The gradient with a local matrix.
    pub fn with_local_matrix(self, matrix: Matrix) -> (r: SweepGradient)
        ensures
            r.center == self.center,
            r.start_angle == self.start_angle,
            r.end_angle == self.end_angle,
            r.ramp@ == (RampModel { local_matrix: Some(matrix@), ..self.ramp@ }),
    {
        let mut r = self;
        r.ramp.local_matrix = Some(matrix);
        r
    }

    /// The gradient with flags.
    pub fn with_flags(self, flags: GradientFlags) -> (r: SweepGradient)
        ensures
            r.center == self.center,
            r.start_angle == self.start_angle,
            r.end_angle == self.end_angle,
            r.ramp@ == (RampModel { flags, ..self.ramp@ }),
    {
        let mut r = self;
        r.ramp.flags = flags;
        r
    }

    /// The center.
    pub fn center(&self) -> (r: Point)
        ensures
            r == self.center,
    {
        self.center
    }

    /// Where the gradient starts, in degrees.
    pub fn start_angle(&self) -> (r: u32)
        ensures
            r == self.start_angle,
    {
        self.start_angle
    }

    /// Where the gradient ends, in degrees.
    pub fn end_angle(&self) -> (r: u32)
        ensures
            r == self.end_angle,
    {
        self.end_angle
    }

    /// The colors.
    pub fn colors(&self) -> (r: &Vec<Color4f>)
        ensures
            *r == self.ramp.colors,
    {
        &self.ramp.colors
    }

    /// The position of each color, if they are not evenly spaced.
    pub fn positions(&self) -> (r: &Option<Vec<u32>>)
        ensures
            *r == self.ramp.positions,
    {
        &self.ramp.positions
    }
}

impl TwoPointConicalGradient {
    /// A gradient between two circles, without flags and without a local matrix.
    pub fn new(
        start_center: Point,
        start_radius: u32,
        end_center: Point,
        end_radius: u32,
        colors: Vec<Color4f>,
        positions: Option<Vec<u32>>,
        tile_mode: TileMode,
    ) -> (r: TwoPointConicalGradient)
        ensures
            shader_model(Shader::Conical(r)) == ShaderModel::Conical(
                start_center,
                start_radius,
                end_center,
                end_radius,
                plain_ramp(colors@, opt_positions(positions), tile_mode),
            ),
    {
        TwoPointConicalGradient {
            start_center,
            start_radius,
            end_center,
            end_radius,
            ramp: GradientRamp::plain(colors, positions, tile_mode),
        }
    }

    /// The gradient with a local matrix.
    pub fn with_local_matrix(self, matrix: Matrix) -> (r: TwoPointConicalGradient)
        ensures
            r.start_center == self.start_center,
            r.start_radius == self.start_radius,
            r.end_center == self.end_center,
            r.end_radius == self.end_radius,
            r.ramp@ == (RampModel { local_matrix: Some(matrix@), ..self.ramp@ }),
    {
        let mut r = self;
        r.ramp.local_matrix = Some(matrix);
        r
    }

    /// The gradient with flags.
    pub fn with_flags(self, flags: GradientFlags) -> (r: TwoPointConicalGradient)
        ensures
            r.start_center == self.start_center,
            r.start_radius == self.start_radius,
            r.end_center == self.end_center,
            r.end_radius == self.end_radius,
            r.ramp@ == (RampModel { flags, ..self.ramp@ }),
    {
        let mut r = self;
        r.ramp.flags = flags;
        r
    }

    /// The center of the first circle.
    pub fn start_center(&self) -> (r: Point)
        ensures
            r == self.start_center,
    {
        self.start_center
    }

    /// The radius of the first circle.
    pub fn start_radius(&self) -> (r: u32)
        ensures
            r == self.start_radius,
    {
        self.start_radius
    }

    /// The center of the second circle.
    pub fn end_center(&self) -> (r: Point)
        ensures
            r == self.end_center,
    {
        self.end_center
    }

    /// The radius of the second circle.
    pub fn end_radius(&self) -> (r: u32)
        ensures
            r == self.end_radius,
    {
        self.end_radius
    }

    /// The colors.
    pub fn colors(&self) -> (r: &Vec<Color4f>)
        ensures
            *r == self.ramp.colors,
    {
        &self.ramp.colors
    }

    /// The position of each color, if they are not evenly spaced.
    pub fn positions(&self) -> (r: &Option<Vec<u32>>)
        ensures
            *r == self.ramp.positions,
    {
        &self.ramp.positions
    }

    /// The tile mode.
    pub fn tile_mode(&self) -> (r: TileMode)
        ensures
            r == self.ramp.tile_mode,
    {
        self.ramp.tile_mode
    }
}

impl ColorShader {
    /// A solid color.
    pub fn new(color: Color4f) -> (r: ColorShader)
        ensures
            shader_model(Shader::Color(r)) == ShaderModel::Color(color),
    {
        ColorShader { color }
    }

    /// The color.
    pub fn color(&self) -> (r: Color4f)
        ensures
            r == self.color,
    {
        self.color
    }
}

/// The rectangle that an image covers.
pub open spec fn image_rect(info: ImageInfo) -> Rect {
    Rect {
        left: 0,
        top: 0,
        right: float_of_int(info.width as int),
        bottom: float_of_int(info.height as int),
    }
}

impl ImageShader {
    /// An image of which only the bounds are known.
    pub fn new(
        bounds: Rect,
        tile_mode_x: TileMode,
        tile_mode_y: TileMode,
        sampling: SamplingOptions,
    ) -> (r: ImageShader)
        ensures
            r.bounds == bounds,
            r.tile_mode_x == tile_mode_x,
            r.tile_mode_y == tile_mode_y,
            r.sampling == sampling,
            r.local_matrix is None,
            r.pixels is None,
    {
        ImageShader {
            bounds,
            tile_mode_x,
            tile_mode_y,
            sampling,
            local_matrix: None,
            pixels: None,
        }
    }

    /// An image of which only the bounds are known, tiled alike on both axes.
    pub fn with_tile_mode(bounds: Rect, tile_mode: TileMode, sampling: SamplingOptions) -> (r:
        ImageShader)
        ensures
            r.bounds == bounds,
            r.tile_mode_x == tile_mode,
            r.tile_mode_y == tile_mode,
            r.sampling == sampling,
            r.local_matrix is None,
            r.pixels is None,
    {
        ImageShader::new(bounds, tile_mode, tile_mode, sampling)
    }

    /// An image with its pixels. Its bounds start at the origin and have the
    /// size of the image.
    pub fn with_pixels(
        pixels: Vec<u8>,
        image_info: ImageInfo,
        tile_mode_x: TileMode,
        tile_mode_y: TileMode,
        sampling: SamplingOptions,
    ) -> (r: ImageShader)
        ensures
            r.bounds == image_rect(image_info),
            r.tile_mode_x == tile_mode_x,
            r.tile_mode_y == tile_mode_y,
            r.sampling == sampling,
            r.local_matrix is None,
            image_model(r).pixels == Some((image_info, pixels@)),
    {
        let bounds = Rect {
            left: 0,
            top: 0,
            right: int_to_bits(image_info.width),
            bottom: int_to_bits(image_info.height),
        };
        ImageShader {
            bounds,
            tile_mode_x,
            tile_mode_y,
            sampling,
            local_matrix: None,
            pixels: Some(ImagePixels { info: image_info, bytes: pixels }),
        }
    }

    /// The image with a local matrix.
    pub fn with_local_matrix(self, matrix: Matrix) -> (r: ImageShader)
        ensures
            r == (ImageShader { local_matrix: Some(matrix), ..self }),
    {
        let mut r = self;
        r.local_matrix = Some(matrix);
        r
    }

    /// The bounds of the image.
    pub fn bounds(&self) -> (r: Rect)
        ensures
            r == self.bounds,
    {
        self.bounds
    }

    /// The horizontal tile mode.
    pub fn tile_mode_x(&self) -> (r: TileMode)
        ensures
            r == self.tile_mode_x,
    {
        self.tile_mode_x
    }

    /// The vertical tile mode.
    pub fn tile_mode_y(&self) -> (r: TileMode)
        ensures
            r == self.tile_mode_y,
    {
        self.tile_mode_y
    }

    /// The sampling options.
    pub fn sampling(&self) -> (r: SamplingOptions)
        ensures
            r == self.sampling,
    {
        self.sampling
    }
}

impl BlendShader {
    /// A blend of two shaders.
    pub fn new(blend_mode: BlendMode, dst: ShaderRef, src: ShaderRef) -> (r: BlendShader)
        ensures
            r == (BlendShader { blend_mode, dst, src }),
    {
        BlendShader { blend_mode, dst, src }
    }

    /// The blend mode.
    pub fn blend_mode(&self) -> (r: BlendMode)
        ensures
            r == self.blend_mode,
    {
        self.blend_mode
    }

    /// The destination.
    pub fn dst(&self) -> (r: &ShaderRef)
        ensures
            *r == self.dst,
    {
        &self.dst
    }

    /// The source.
    pub fn src(&self) -> (r: &ShaderRef)
        ensures
            *r == self.src,
    {
        &self.src
    }
}

impl LocalMatrixShader {
    /// A shader with a local matrix.
    pub fn new(inner: ShaderRef, matrix: Matrix) -> (r: LocalMatrixShader)
        ensures
            r == (LocalMatrixShader { inner, matrix }),
    {
        LocalMatrixShader { inner, matrix }
    }

    /// The shader.
    pub fn inner(&self) -> (r: &ShaderRef)
        ensures
            *r == self.inner,
    {
        &self.inner
    }

    /// The matrix.
    pub fn matrix(&self) -> (r: &Matrix)
        ensures
            *r == self.matrix,
    {
        &self.matrix
    }
}

impl ComposeShader {
    /// A composition of two shaders.
    pub fn new(outer: ShaderRef, inner: ShaderRef, blend_mode: BlendMode) -> (r: ComposeShader)
        ensures
            r == (ComposeShader { outer, inner, blend_mode }),
    {
        ComposeShader { outer, inner, blend_mode }
    }

    /// The shader applied last.
    pub fn outer(&self) -> (r: &ShaderRef)
        ensures
            *r == self.outer,
    {
        &self.outer
    }

    /// The shader applied first.
    pub fn inner(&self) -> (r: &ShaderRef)
        ensures
            *r == self.inner,
    {
        &self.inner
    }

    /// The blend mode.
    pub fn blend_mode(&self) -> (r: BlendMode)
        ensures
            r == self.blend_mode,
    {
        self.blend_mode
    }
}

/// Perlin noise without a tile size.
pub open spec fn plain_noise(
    noise_type: NoiseType,
    base_frequency_x: u32,
    base_frequency_y: u32,
    num_octaves: i32,
    seed: u32,
) -> PerlinNoiseShader {
    PerlinNoiseShader {
        noise_type,
        base_frequency_x,
        base_frequency_y,
        num_octaves,
        seed,
        tile_size: None,
    }
}

impl PerlinNoiseShader {
    /// Smooth noise.
    pub fn fractal_noise(
        base_frequency_x: u32,
        base_frequency_y: u32,
        num_octaves: i32,
        seed: u32,
    ) -> (r: PerlinNoiseShader)
        ensures
            r == plain_noise(
                NoiseType::FractalNoise,
                base_frequency_x,
                base_frequency_y,
                num_octaves,
                seed,
            ),
    {
        PerlinNoiseShader {
            noise_type: NoiseType::FractalNoise,
            base_frequency_x,
            base_frequency_y,
            num_octaves,
            seed,
            tile_size: None,
        }
    }

    /// Chaotic noise.
    pub fn turbulence(
        base_frequency_x: u32,
        base_frequency_y: u32,
        num_octaves: i32,
        seed: u32,
    ) -> (r: PerlinNoiseShader)
        ensures
            r == plain_noise(
                NoiseType::Turbulence,
                base_frequency_x,
                base_frequency_y,
                num_octaves,
                seed,
            ),
    {
        PerlinNoiseShader {
            noise_type: NoiseType::Turbulence,
            base_frequency_x,
            base_frequency_y,
            num_octaves,
            seed,
            tile_size: None,
        }
    }

    /// The noise with the size of a seamless tile.
    pub fn with_tile_size(self, width: i32, height: i32) -> (r: PerlinNoiseShader)
        ensures
            r == (PerlinNoiseShader { tile_size: Some((width, height)), ..self }),
    {
        let mut r = self;
        r.tile_size = Some((width, height));
        r
    }

    /// The type of noise.
    pub fn noise_type(&self) -> (r: NoiseType)
        ensures
            r == self.noise_type,
    {
        self.noise_type
    }

    /// The horizontal base frequency.
    pub fn base_frequency_x(&self) -> (r: u32)
        ensures
            r == self.base_frequency_x,
    {
        self.base_frequency_x
    }

    /// The vertical base frequency.
    pub fn base_frequency_y(&self) -> (r: u32)
        ensures
            r == self.base_frequency_y,
    {
        self.base_frequency_y
    }

    /// The number of octaves.
    pub fn num_octaves(&self) -> (r: i32)
        ensures
            r == self.num_octaves,
    {
        self.num_octaves
    }

    /// The seed.
    pub fn seed(&self) -> (r: u32)
        ensures
            r == self.seed,
    {
        self.seed
    }
}

/// A solid color.
pub fn color(value: Color4f) -> (r: ShaderRef)
    ensures
        shader_model(*r) == ShaderModel::Color(value),
{
    Arc::new(Shader::Color(ColorShader::new(value)))
}

/// A gradient along a line.
pub fn linear_gradient(
    start: Point,
    end: Point,
    colors: Vec<Color4f>,
    positions: Option<Vec<u32>>,
    tile_mode: TileMode,
) -> (r: ShaderRef)
    ensures
        shader_model(*r) == ShaderModel::Linear(
            start,
            end,
            plain_ramp(colors@, opt_positions(positions), tile_mode),
        ),
{
    Arc::new(Shader::Linear(LinearGradient::new(start, end, colors, positions, tile_mode)))
}

/// A gradient around a point.
pub fn radial_gradient(
    center: Point,
    radius: u32,
    colors: Vec<Color4f>,
    positions: Option<Vec<u32>>,
    tile_mode: TileMode,
) -> (r: ShaderRef)
    ensures
        shader_model(*r) == ShaderModel::Radial(
            center,
            radius,
            plain_ramp(colors@, opt_positions(positions), tile_mode),
        ),
{
    Arc::new(Shader::Radial(RadialGradient::new(center, radius, colors, positions, tile_mode)))
}

/// A gradient by angle.
pub fn sweep_gradient(
    center: Point,
    start_angle: u32,
    end_angle: u32,
    colors: Vec<Color4f>,
    positions: Option<Vec<u32>>,
    tile_mode: TileMode,
) -> (r: ShaderRef)
    ensures
        shader_model(*r) == ShaderModel::Sweep(
            center,
            start_angle,
            end_angle,
            plain_ramp(colors@, opt_positions(positions), tile_mode),
        ),
{
    Arc::new(Shader::Sweep(SweepGradient::new(center, start_angle, end_angle, colors, positions, tile_mode)))
}

/// A gradient between two circles.
pub fn two_point_conical_gradient(
    start_center: Point,
    start_radius: u32,
    end_center: Point,
    end_radius: u32,
    colors: Vec<Color4f>,
    positions: Option<Vec<u32>>,
    tile_mode: TileMode,
) -> (r: ShaderRef)
    ensures
        shader_model(*r) == ShaderModel::Conical(
            start_center,
            start_radius,
            end_center,
            end_radius,
            plain_ramp(colors@, opt_positions(positions), tile_mode),
        ),
{
    Arc::new(Shader::Conical(TwoPointConicalGradient::new(
        start_center,
        start_radius,
        end_center,
        end_radius,
        colors,
        positions,
        tile_mode,
    )))
}

/// A blend of two shaders.
pub fn blend(blend_mode: BlendMode, dst: ShaderRef, src: ShaderRef) -> (r: ShaderRef)
    ensures
        shader_model(*r) == ShaderModel::Blend(
            blend_mode,
            Box::new(shader_model(*dst)),
            Box::new(shader_model(*src)),
        ),
{
    Arc::new(Shader::Blend(BlendShader::new(blend_mode, dst, src)))
}

/// Smooth noise.
pub fn fractal_noise(base_frequency_x: u32, base_frequency_y: u32, num_octaves: i32, seed: u32) -> (r:
    ShaderRef)
    ensures
        shader_model(*r) == ShaderModel::Perlin(
            plain_noise(
                NoiseType::FractalNoise,
                base_frequency_x,
                base_frequency_y,
                num_octaves,
                seed,
            ),
        ),
{
    Arc::new(
        Shader::Perlin(
            PerlinNoiseShader::fractal_noise(base_frequency_x, base_frequency_y, num_octaves, seed),
        ),
    )
}

/// Chaotic noise.
pub fn turbulence(base_frequency_x: u32, base_frequency_y: u32, num_octaves: i32, seed: u32) -> (r:
    ShaderRef)
    ensures
        shader_model(*r) == ShaderModel::Perlin(
            plain_noise(
                NoiseType::Turbulence,
                base_frequency_x,
                base_frequency_y,
                num_octaves,
                seed,
            ),
        ),
{
    Arc::new(
        Shader::Perlin(
            PerlinNoiseShader::turbulence(base_frequency_x, base_frequency_y, num_octaves, seed),
        ),
    )
}

/// A shader with a local matrix.
pub fn with_local_matrix(shader: ShaderRef, matrix: Matrix) -> (r: ShaderRef)
    ensures
        shader_model(*r) == ShaderModel::Local(Box::new(shader_model(*shader)), matrix@),
{
    Arc::new(Shader::Local(LocalMatrixShader::new(shader, matrix)))
}

/// A composition of two shaders.
pub fn compose(outer: ShaderRef, inner: ShaderRef, blend_mode: BlendMode) -> (r: ShaderRef)
    ensures
        shader_model(*r) == ShaderModel::Compose(
            Box::new(shader_model(*outer)),
            Box::new(shader_model(*inner)),
            blend_mode,
        ),
{
    Arc::new(Shader::Compose(ComposeShader::new(outer, inner, blend_mode)))
}

/// The shader that is transparent everywhere.
pub fn empty() -> (r: ShaderRef)
    ensures
        shader_model(*r) == ShaderModel::Empty,
{
    Arc::new(Shader::Empty(EmptyShader::new()))
}

} // verus!
