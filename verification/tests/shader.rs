use std::sync::Arc;

use skia_rs::arith::{FloatOp, FloatUnit, Machine};
use skia_rs::blend_mode::BlendMode;
use skia_rs::geometry::{Color4f, Matrix, Point, Rect};
use skia_rs::noise::PerlinNoiseGenerator;
use skia_rs::runtime_effect::{RuntimeEffect, RuntimeShader};
use skia_rs::sampling::Painter;
use skia_rs::shader::{
    AlphaType, BlendShader, ColorShader, ColorType, ComposeShader, GradientFlags, ImageInfo,
    ImageShader, LinearGradient, LocalMatrixShader, NoiseType, PerlinNoiseShader, RadialGradient,
    SamplingOptions, Shader, ShaderKind, ShaderRef, SweepGradient, TileMode,
    TwoPointConicalGradient,
};
use skia_rs::shader_codec::deserialize_shader;
use skia_rs::shaders;
use skia_rs::uniforms::UniformData;

fn fl(x: f32) -> u32 {
    x.to_bits()
}

fn compute(op: FloatOp, a: u32, b: u32, c: u32) -> u32 {
    let x = f32::from_bits(a);
    let y = f32::from_bits(b);
    let z = f32::from_bits(c);
    let r = match op {
        FloatOp::Add => x + y,
        FloatOp::Sub => x - y,
        FloatOp::Mul => x * y,
        FloatOp::Div => x / y,
        FloatOp::MulAdd => x.mul_add(y, z),
        FloatOp::Floor => x.floor(),
        FloatOp::Ceil => x.ceil(),
        FloatOp::Sin => x.sin(),
        FloatOp::Cos => x.cos(),
        FloatOp::Tan => x.tan(),
        FloatOp::Asin => x.asin(),
        FloatOp::Acos => x.acos(),
        FloatOp::Atan => x.atan(),
        FloatOp::Atan2 => x.atan2(y),
        FloatOp::Exp => x.exp(),
        FloatOp::Exp2 => x.exp2(),
        FloatOp::Ln => x.ln(),
        FloatOp::Log2 => x.log2(),
        FloatOp::Sqrt => x.sqrt(),
        FloatOp::Pow => x.powf(y),
        FloatOp::Radians => x.to_radians(),
        FloatOp::Degrees => x.to_degrees(),
        FloatOp::Rem => x.rem_euclid(y),
        FloatOp::Hypot => x.hypot(y),
        FloatOp::Blend => (y - x).mul_add(z, x),
        FloatOp::Round => x.round(),
        FloatOp::OfNatural => a as f32,
        FloatOp::Midpoint => ((f64::from(x) + f64::from(y)) / 2.0) as f32,
        FloatOp::Fract => x.fract(),
    };
    r.to_bits()
}

type Arith = fn(FloatOp, u32, u32, u32) -> u32;

fn unit() -> FloatUnit<Arith> {
    FloatUnit { arith: compute }
}

/// A color as numbers.
#[derive(Debug)]
struct Rgba {
    r: f32,
    g: f32,
    b: f32,
    a: f32,
}

fn val(x: u32) -> f32 {
    f32::from_bits(x)
}

fn color(r: f32, g: f32, b: f32, a: f32) -> Color4f {
    Color4f { r: fl(r), g: fl(g), b: fl(b), a: fl(a) }
}

fn point(x: f32, y: f32) -> Point {
    Point { x: fl(x), y: fl(y) }
}

fn translate(x: f32, y: f32) -> Matrix {
    Matrix { values: [fl(1.0), 0, fl(x), 0, fl(1.0), fl(y), 0, 0, fl(1.0)] }
}

fn blend(mode: BlendMode, src: Color4f, dst: Color4f) -> Color4f {
    let over = |s: u32, d: u32| fl(val(s) + val(d) * (1.0 - val(src.a)));
    match mode {
        BlendMode::Src => src,
        _ => Color4f {
            r: over(src.r, dst.r),
            g: over(src.g, dst.g),
            b: over(src.b, dst.b),
            a: over(src.a, dst.a),
        },
    }
}

fn unmap(m: &Matrix, p: Point) -> Point {
    let v = m.values.map(f32::from_bits);
    let (x, y) = (val(p.x) - v[2], val(p.y) - v[5]);
    let det = v[0] * v[4] - v[1] * v[3];
    point((v[4] * x - v[1] * y) / det, (v[0] * y - v[3] * x) / det)
}

fn literal(s: &str) -> u32 {
    s.parse::<f32>().unwrap_or(0.0).to_bits()
}

fn ran(s: &RuntimeShader, p: Point) -> Color4f {
    let child = |i: usize, x: u32, y: u32| -> [u32; 4] {
        let c = painter().sample(&s.children()[i], Point { x, y });
        [c.r, c.g, c.b, c.a]
    };
    let machine = Machine { floats: unit(), literal, sample: child };
    let [r, g, b, a] = s.color_at(p.x, p.y, machine, 64).unwrap();
    Color4f { r, g, b, a }
}

fn painter() -> Painter<
    Arith,
    fn(BlendMode, Color4f, Color4f) -> Color4f,
    fn(&Matrix, Point) -> Point,
    fn(&RuntimeShader, Point) -> Color4f,
> {
    Painter { floats: unit(), blend, unmap, run: ran }
}

fn sample(s: &Shader, x: f32, y: f32) -> Rgba {
    let c = painter().sample(s, point(x, y));
    Rgba { r: val(c.r), g: val(c.g), b: val(c.b), a: val(c.a) }
}

fn rgba8(width: i32, height: i32) -> ImageInfo {
    ImageInfo { width, height, color_type: ColorType::Rgba8888, alpha_type: AlphaType::Premul }
}

#[test]
fn test_color_shader() {
    let shader = Shader::Color(ColorShader::new(color(1.0, 0.0, 0.0, 1.0)));
    assert!(shader.is_opaque());
    assert_eq!(shader.shader_kind(), ShaderKind::Color);
}

#[test]
fn test_linear_gradient() {
    let colors = vec![
        color(1.0, 0.0, 0.0, 1.0),
        color(0.0, 0.0, 1.0, 1.0),
    ];
    let shader = Shader::Linear(LinearGradient::new(
        point(0.0, 0.0),
        point(100.0, 0.0),
        colors,
        None,
        TileMode::Clamp,
    ));
    assert!(shader.is_opaque());
    assert_eq!(shader.shader_kind(), ShaderKind::LinearGradient);
}

#[test]
fn test_gradient_with_transparency() {
    let colors = vec![
        color(1.0, 0.0, 0.0, 0.5),
        color(0.0, 0.0, 1.0, 1.0),
    ];
    let shader = Shader::Linear(LinearGradient::new(
        point(0.0, 0.0),
        point(100.0, 0.0),
        colors,
        None,
        TileMode::Clamp,
    ));
    assert!(!shader.is_opaque());
}

#[test]
fn test_shader_convenience_functions() {
    let solid = shaders::color(color(1.0, 0.0, 0.0, 1.0));
    assert_eq!(solid.shader_kind(), ShaderKind::Color);

    let linear = shaders::linear_gradient(
        point(0.0, 0.0),
        point(100.0, 0.0),
        vec![color(1.0, 0.0, 0.0, 1.0)],
        None,
        TileMode::Clamp,
    );
    assert_eq!(linear.shader_kind(), ShaderKind::LinearGradient);
}

#[test]
fn test_local_matrix_shader_translates() {
    let base: ShaderRef = shaders::color(color(1.0, 0.0, 0.0, 1.0));
    // LocalMatrixShader with translate(50, 0) should still return red
    // regardless of query point (ColorShader ignores coords).
    let matrix = translate(50.0, 0.0);
    let wrapped = Shader::Local(LocalMatrixShader::new(base, matrix));
    let c = sample(&wrapped, 0.0, 0.0);
    assert!((c.r - 1.0).abs() < 1e-5);
    assert!((c.g - 0.0).abs() < 1e-5);
}

#[test]
fn test_blend_shader_uses_blend_mode() {
    let red: ShaderRef = shaders::color(color(1.0, 0.0, 0.0, 1.0));
    let green: ShaderRef = shaders::color(color(0.0, 1.0, 0.0, 1.0));
    let blend = Shader::Blend(BlendShader::new(BlendMode::Src, red.clone(), green.clone()));
    let c = sample(&blend, 0.0, 0.0);
    // Src mode returns src; with BlendShader(mode, dst, src), src is green
    assert!((c.g - 1.0).abs() < 1e-5, "Expected green component = 1.0");
    assert!((c.r - 0.0).abs() < 1e-5, "Expected red component = 0.0");
}

#[test]
fn test_compose_shader_blends_children() {
    let solid: ShaderRef = shaders::color(color(1.0, 1.0, 1.0, 1.0));
    let half: ShaderRef = shaders::color(color(0.5, 0.5, 0.5, 1.0));
    // ComposeShader(outer, inner, mode) blends them
    let compose = Shader::Compose(ComposeShader::new(solid.clone(), half.clone(), BlendMode::SrcOver));
    let c = sample(&compose, 0.0, 0.0);
    assert!(
        c.a > 0.5,
        "ComposeShader should not produce transparent output"
    );
}

#[test]
fn test_two_point_conical_gradient_interpolates() {
    // Two circles: inner at origin (r=10), outer at (100, 0) (r=30).
    // Interpolate red -> blue.
    let gradient = Shader::Conical(TwoPointConicalGradient::new(
        point(0.0, 0.0),
        fl(10.0),
        point(100.0, 0.0),
        fl(30.0),
        vec![
            color(1.0, 0.0, 0.0, 1.0), // red at t=0 (inner circle)
            color(0.0, 0.0, 1.0, 1.0), // blue at t=1 (outer circle)
        ],
        None, // positions default
        TileMode::Clamp,
    ));

    // The point (10, 0) lies on two interpolated circles: t=0 (the inner
    // circle) and t=0.25 (center (25,0), radius 15). The larger one
    // counts: lerp(red, blue, 0.25).
    let c_inner = sample(&gradient, 10.0, 0.0);
    assert!(
        (c_inner.r - 0.75).abs() < 1e-3,
        "point on both cones takes the larger t (0.25), got r={}",
        c_inner.r
    );

    // A point on the outer circle (at end_center + end_radius in x direction)
    // should be blue (t=1).
    let c_outer = sample(&gradient, 130.0, 0.0);
    assert!(
        c_outer.b > 0.9,
        "outer circle point should be blue, got b={}",
        c_outer.b
    );

    // Midpoint should show a mix (purple-ish)
    let c_mid = sample(&gradient, 50.0, 0.0);
    assert!(
        c_mid.r > 0.1 && c_mid.b > 0.1,
        "midpoint should mix red and blue, got r={} b={}",
        c_mid.r,
        c_mid.b
    );
}

#[test]
fn test_two_point_conical_gradient_outside_returns_clamped() {
    // Outside both circles with TileMode::Clamp should clamp to edge color
    let gradient = Shader::Conical(TwoPointConicalGradient::new(
        point(0.0, 0.0),
        fl(10.0),
        point(50.0, 0.0),
        fl(20.0),
        vec![
            color(1.0, 0.0, 0.0, 1.0),
            color(0.0, 1.0, 0.0, 1.0),
        ],
        None,
        TileMode::Clamp,
    ));

    // Far off-axis
    let c = sample(&gradient, 200.0, 200.0);
    // Should be bounded, not NaN
    assert!(c.r.is_finite() && c.g.is_finite() && c.b.is_finite() && c.a.is_finite());
}

#[test]
fn test_perlin_fractal_noise_in_range() {
    let shader = Shader::Perlin(PerlinNoiseShader::fractal_noise(fl(0.1), fl(0.1), 4, fl(42.0)));
    for x in 0..10 {
        for y in 0..10 {
            let c = sample(&shader, x as f32, y as f32);
            assert!(c.r >= 0.0 && c.r <= 1.0, "r out of range: {}", c.r);
            assert!(c.a >= 0.99, "alpha should be 1: {}", c.a);
        }
    }
}

#[test]
fn test_perlin_turbulence_in_range() {
    let shader = Shader::Perlin(PerlinNoiseShader::turbulence(fl(0.1), fl(0.1), 4, fl(42.0)));
    for x in 0..10 {
        for y in 0..10 {
            let c = sample(&shader, x as f32, y as f32);
            assert!(c.r >= 0.0 && c.r <= 1.0);
        }
    }
}

#[test]
fn test_perlin_different_seeds_produce_different_noise() {
    let a = Shader::Perlin(PerlinNoiseShader::fractal_noise(fl(0.5), fl(0.5), 2, fl(1.0)));
    let b = Shader::Perlin(PerlinNoiseShader::fractal_noise(fl(0.5), fl(0.5), 2, fl(999.0)));
    // At least one of a few sample points should differ
    let mut differ = false;
    for k in 0..10 {
        let ra = sample(&a, k as f32, k as f32).r;
        let rb = sample(&b, k as f32, k as f32).r;
        if (ra - rb).abs() > 1e-4 {
            differ = true;
            break;
        }
    }
    assert!(differ, "Different seeds should produce different output");
}

#[test]
fn test_perlin_deterministic_per_seed() {
    let shader = Shader::Perlin(PerlinNoiseShader::fractal_noise(fl(0.3), fl(0.3), 3, fl(12345.0)));
    let c1 = sample(&shader, 10.0, 10.0);
    let c2 = sample(&shader, 10.0, 10.0);
    assert!((c1.r - c2.r).abs() < 1e-5);
}

#[test]
fn test_image_shader_samples_rgba8_pixel() {
    // 2x2 image: red, green, blue, white
    let pixels = vec![
        255, 0, 0, 255, // (0,0) red
        0, 255, 0, 255, // (1,0) green
        0, 0, 255, 255, // (0,1) blue
        255, 255, 255, 255, // (1,1) white
    ];
    let info = rgba8(2, 2);
    let shader = Shader::Image(ImageShader::with_pixels(
        pixels,
        info,
        TileMode::Clamp,
        TileMode::Clamp,
        SamplingOptions::default(),
    ));

    // Sample exact pixel positions
    let c_00 = sample(&shader, 0.5, 0.5);
    assert!(
        (c_00.r - 1.0).abs() < 1e-3,
        "expected red at (0.5, 0.5), got {c_00:?}"
    );

    let c_11 = sample(&shader, 1.5, 1.5);
    assert!(
        (c_11.r - 1.0).abs() < 1e-3 && (c_11.g - 1.0).abs() < 1e-3,
        "expected white at (1.5, 1.5), got {c_11:?}"
    );
}

#[test]
fn test_image_shader_without_pixels_returns_transparent() {
    // Using the existing constructor (no pixels), sample should return transparent
    let shader = Shader::Image(ImageShader::new(
        Rect { left: 0, top: 0, right: fl(100.0), bottom: fl(100.0) },
        TileMode::Clamp,
        TileMode::Clamp,
        SamplingOptions::default(),
    ));
    let c = sample(&shader, 50.0, 50.0);
    assert_eq!(c.a, 0.0, "expected transparent for shader without pixels");
}

#[test]
fn test_image_shader_clamp_tile_mode() {
    let pixels = vec![0, 0, 0, 255, 255, 255, 255, 255];
    let info = rgba8(2, 1);
    let shader = Shader::Image(ImageShader::with_pixels(
        pixels,
        info,
        TileMode::Clamp,
        TileMode::Clamp,
        SamplingOptions::default(),
    ));

    // Sampling far outside should clamp to nearest edge pixel
    let c_right = sample(&shader, 100.0, 0.5);
    assert!(
        (c_right.r - 1.0).abs() < 1e-3,
        "clamp should return white from right edge, got {c_right:?}"
    );
}

#[test]
fn test_image_shader_repeat_tile_mode() {
    let pixels = vec![
        255, 0, 0, 255, // red
        0, 255, 0, 255, // green
    ];
    let info = rgba8(2, 1);
    let shader = Shader::Image(ImageShader::with_pixels(
        pixels,
        info,
        TileMode::Repeat,
        TileMode::Repeat,
        SamplingOptions::default(),
    ));

    // Sampling beyond width should wrap
    let c = sample(&shader, 2.5, 0.5); // Should wrap to 0.5
    assert!(
        (c.r - 1.0).abs() < 1e-3,
        "repeat should wrap to red pixel, got {c:?}"
    );
}

#[test]
fn test_image_shader_decal_tile_mode() {
    let pixels = vec![255, 0, 0, 255];
    let info = rgba8(1, 1);
    let shader = Shader::Image(ImageShader::with_pixels(
        pixels,
        info,
        TileMode::Decal,
        TileMode::Decal,
        SamplingOptions::default(),
    ));

    // Inside bounds should return color
    let c_in = sample(&shader, 0.5, 0.5);
    assert!((c_in.r - 1.0).abs() < 1e-3, "inside should return red");

    // Outside bounds should return transparent
    let c_out = sample(&shader, 2.0, 0.5);
    assert_eq!(c_out.a, 0.0, "decal outside bounds should be transparent");
}

#[test]
fn test_gradient_flags_interpolate_premul() {
    // Create a gradient from opaque red to transparent
    let colors = vec![
        color(1.0, 0.0, 0.0, 1.0),
        color(0.0, 0.0, 0.0, 0.0),
    ];

    // Without premul flag
    let grad_normal = Shader::Linear(LinearGradient::new(
        point(0.0, 0.0),
        point(10.0, 0.0),
        colors.clone(),
        None,
        TileMode::Clamp,
    ));

    // With premul flag
    let grad_premul = Shader::Linear(LinearGradient::new(
        point(0.0, 0.0),
        point(10.0, 0.0),
        colors,
        None,
        TileMode::Clamp,
    )
    .with_flags(GradientFlags::from_bits_truncate(1)));

    // Sample at midpoint (t=0.5). sample() returns premultiplied color.
    let c_normal = sample(&grad_normal, 5.0, 0.0);
    let c_premul = sample(&grad_premul, 5.0, 0.0);

    // Without the flag, interpolation happens in unpremul space:
    // straight (0.5, 0, 0, 0.5), premultiplied on output -> r = 0.25.
    assert!(
        (c_normal.r - 0.25).abs() < 1e-4,
        "unpremul interpolation midpoint premul r, got {}",
        c_normal.r
    );
    assert!((c_normal.a - 0.5).abs() < 1e-4);

    // With the flag, stops are premultiplied before interpolation:
    // lerp((1,0,0,1), (0,0,0,0)) = (0.5, 0, 0, 0.5), already premul.
    assert!(
        (c_premul.r - 0.5).abs() < 1e-4,
        "premul interpolation midpoint r, got {}",
        c_premul.r
    );
    assert!((c_premul.a - 0.5).abs() < 1e-4);
}

#[test]
fn test_gradient_t_below_first_stop_returns_first_color() {
    // carrying the first color (fFirstStopIsImplicit).
    let colors = vec![
        color(1.0, 0.0, 0.0, 1.0),
        color(0.0, 0.0, 1.0, 1.0),
    ];
    let grad = Shader::Linear(LinearGradient::new(
        point(0.0, 0.0),
        point(100.0, 0.0),
        colors,
        Some(vec![fl(0.5), fl(1.0)]),
        TileMode::Clamp,
    ));
    let c = sample(&grad, 25.0, 0.0); // t = 0.25 < first stop 0.5
    assert!(
        (c.r - 1.0).abs() < 1e-4 && c.b.abs() < 1e-4,
        "t below first explicit stop must return the first color, got {c:?}"
    );
}

#[test]
fn test_gradient_positions_pinned_monotonic() {
    // [0.0, 0.8, 0.5] becomes [0.0, 0.8, 0.8].
    let colors = vec![
        color(1.0, 0.0, 0.0, 1.0),
        color(0.0, 1.0, 0.0, 1.0),
        color(0.0, 0.0, 1.0, 1.0),
    ];
    let grad = Shader::Linear(LinearGradient::new(
        point(0.0, 0.0),
        point(100.0, 0.0),
        colors,
        Some(vec![fl(0.0), fl(0.8), fl(0.5)]),
        TileMode::Clamp,
    ));
    // t = 0.9 is past the pinned last stop (0.8) -> last color.
    let c = sample(&grad, 90.0, 0.0);
    assert!(
        (c.b - 1.0).abs() < 1e-4,
        "t past pinned last stop must return last color, got {c:?}"
    );
    // t = 0.4 lies mid-segment [0.0, 0.8] -> lerp(red, green, 0.5).
    let c = sample(&grad, 40.0, 0.0);
    assert!(
        (c.r - 0.5).abs() < 1e-4 && (c.g - 0.5).abs() < 1e-4,
        "pinned positions should keep first segment intact, got {c:?}"
    );
}

#[test]
fn test_gradient_position_above_one_pinned() {
    // Position 2.0 pins to 1.0.
    let colors = vec![
        color(1.0, 0.0, 0.0, 1.0),
        color(0.0, 0.0, 1.0, 1.0),
    ];
    let grad = Shader::Linear(LinearGradient::new(
        point(0.0, 0.0),
        point(100.0, 0.0),
        colors,
        Some(vec![fl(0.0), fl(2.0)]),
        TileMode::Clamp,
    ));
    let c = sample(&grad, 50.0, 0.0); // t = 0.5 -> halfway
    assert!(
        (c.r - 0.5).abs() < 1e-4 && (c.b - 0.5).abs() < 1e-4,
        "position above 1 must be pinned to 1, got {c:?}"
    );
}

#[test]
fn test_two_point_conical_picks_larger_root() {
    // C0 = (0,0) r0 = 0.1, C1 = (1,0) r1 = 0.2, P = (0.5, 0).
    // Quadratic roots: t = 2/3 and t = 4/11; both have r(t) >= 0.
    let grad = Shader::Conical(TwoPointConicalGradient::new(
        point(0.0, 0.0),
        fl(0.1),
        point(1.0, 0.0),
        fl(0.2),
        vec![
            color(0.0, 0.0, 0.0, 1.0),
            color(1.0, 1.0, 1.0, 1.0),
        ],
        None,
        TileMode::Clamp,
    ));
    let c = sample(&grad, 0.5, 0.0);
    assert!(
        (c.r - 2.0 / 3.0).abs() < 1e-3,
        "conical must pick the larger valid root (t = 2/3), got r = {}",
        c.r
    );
}

#[test]
fn test_two_point_conical_honors_premul_flag() {
    let grad = Shader::Conical(TwoPointConicalGradient::new(
        point(0.0, 0.0),
        fl(0.0),
        point(10.0, 0.0),
        fl(10.0),
        vec![
            color(1.0, 0.0, 0.0, 1.0),
            color(0.0, 0.0, 1.0, 0.0),
        ],
        None,
        TileMode::Clamp,
    )
    .with_flags(GradientFlags::from_bits_truncate(1)));
    // Point (5, 0) -> t = 0.25 (focal gradient: |5 - 10t| = 10t).
    // Premul stops: (1,0,0,1) and (0,0,0,0); lerp at 0.25 gives
    // (0.75, 0, 0, 0.75). Blue must not leak in premul interpolation
    // (without the flag the straight-space lerp would leak b = 0.1875).
    let c = sample(&grad, 5.0, 0.0);
    assert!(
        (c.r - 0.75).abs() < 1e-3 && c.b.abs() < 1e-3 && (c.a - 0.75).abs() < 1e-3,
        "conical must interpolate premultiplied stops with the flag, got {c:?}"
    );
}

#[test]
fn test_color_shader_sample_is_premultiplied() {
    let shader = Shader::Color(ColorShader::new(color(1.0, 0.5, 0.0, 0.5)));
    let c = sample(&shader, 0.0, 0.0);
    assert!((c.r - 0.5).abs() < 1e-5, "premul r, got {}", c.r);
    assert!((c.g - 0.25).abs() < 1e-5, "premul g, got {}", c.g);
    assert!((c.a - 0.5).abs() < 1e-5);
}

#[test]
fn test_blend_shader_children_are_premul_for_blend() {
    // src: red at 50% alpha; dst: opaque green. SrcOver on premul values:
    // r = 0.5, g = 1*(1-0.5) = 0.5, a = 1.
    let src: ShaderRef = shaders::color(color(1.0, 0.0, 0.0, 0.5));
    let dst: ShaderRef = shaders::color(color(0.0, 1.0, 0.0, 1.0));
    let blend = Shader::Blend(BlendShader::new(BlendMode::SrcOver, dst, src));
    let c = sample(&blend, 0.0, 0.0);
    assert!((c.r - 0.5).abs() < 1e-4, "premul srcover r, got {}", c.r);
    assert!((c.g - 0.5).abs() < 1e-4, "premul srcover g, got {}", c.g);
    assert!((c.a - 1.0).abs() < 1e-4);
}

#[test]
fn test_compose_shader_children_are_premul_for_blend() {
    let outer: ShaderRef = shaders::color(color(1.0, 0.0, 0.0, 0.5));
    let inner: ShaderRef = shaders::color(color(0.0, 1.0, 0.0, 1.0));
    let compose = Shader::Compose(ComposeShader::new(outer, inner, BlendMode::SrcOver));
    let c = sample(&compose, 0.0, 0.0);
    assert!((c.r - 0.5).abs() < 1e-4, "premul srcover r, got {}", c.r);
    assert!((c.g - 0.5).abs() < 1e-4, "premul srcover g, got {}", c.g);
}

#[test]
fn test_alpha8_samples_as_black_with_alpha() {
    // Alpha-only sources decode as (0,0,0,a) — black, not white.

    let info = ImageInfo { color_type: ColorType::Alpha8, ..rgba8(1, 1) };
    let pixels = vec![128u8];
    let shader = Shader::Image(ImageShader::with_pixels(
        pixels,
        info,
        TileMode::Clamp,
        TileMode::Clamp,
        SamplingOptions::nearest(),
    ));
    let c = sample(&shader, 0.5, 0.5);
    assert!(c.r.abs() < 1e-4, "alpha8 r must be 0, got {}", c.r);
    assert!(c.g.abs() < 1e-4, "alpha8 g must be 0, got {}", c.g);
    assert!(c.b.abs() < 1e-4, "alpha8 b must be 0, got {}", c.b);
    assert!((c.a - 128.0 / 255.0).abs() < 1e-4, "alpha8 a, got {}", c.a);
}

#[test]
fn test_image_shader_bilinear_filtering() {

    // 2x1 image: black texel then white texel.
    let info = rgba8(2, 1);
    let pixels = vec![
        0u8, 0, 0, 255, // black
        255, 255, 255, 255, // white
    ];
    let shader = Shader::Image(ImageShader::with_pixels(
        pixels,
        info,
        TileMode::Clamp,
        TileMode::Clamp,
        SamplingOptions::linear(),
    ));
    // x = 1.0 is exactly between the two texel centers (0.5 and 1.5):
    // bilinear result is 50% gray.
    let c = sample(&shader, 1.0, 0.5);
    assert!(
        (c.r - 0.5).abs() < 2.0 / 255.0,
        "bilinear midpoint should be 0.5 gray, got {}",
        c.r
    );
    // At a texel center filtering must return the texel itself.
    let c0 = sample(&shader, 0.5, 0.5);
    assert!(c0.r < 1e-3, "texel center must be exact, got {}", c0.r);
}

#[test]
fn a_local_matrix_moves_what_is_seen() {
    let grad = shaders::linear_gradient(
        point(0.0, 0.0),
        point(100.0, 0.0),
        vec![color(0.0, 0.0, 0.0, 1.0), color(1.0, 1.0, 1.0, 1.0)],
        None,
        TileMode::Clamp,
    );
    let moved = shaders::with_local_matrix(grad, translate(50.0, 0.0));
    assert_eq!(moved.shader_kind(), ShaderKind::LocalMatrix);
    assert!((sample(&moved, 75.0, 0.0).r - 0.25).abs() < 1e-4);
    assert!(moved.is_opaque());
    assert!(moved.local_matrix().is_some());
}

#[test]
fn a_radial_gradient_goes_by_distance() {
    let grad = Shader::Radial(RadialGradient::new(
        point(0.0, 0.0),
        fl(10.0),
        vec![color(0.0, 0.0, 0.0, 1.0), color(1.0, 1.0, 1.0, 1.0)],
        None,
        TileMode::Clamp,
    ));
    assert!((sample(&grad, 3.0, 4.0).r - 0.5).abs() < 1e-4);
    assert!((sample(&grad, 30.0, 40.0).r - 1.0).abs() < 1e-4);
}

#[test]
fn a_sweep_gradient_goes_by_angle() {
    let sweep = SweepGradient::new_full(
        point(0.0, 0.0),
        vec![color(0.0, 0.0, 0.0, 1.0), color(1.0, 1.0, 1.0, 1.0)],
        None,
    );
    assert_eq!(sweep.start_angle(), fl(0.0));
    assert_eq!(sweep.end_angle(), fl(360.0));
    let grad = Shader::Sweep(sweep);
    assert!((sample(&grad, 0.0, 5.0).r - 0.25).abs() < 1e-3);
    assert!((sample(&grad, -5.0, 0.0).r - 0.5).abs() < 1e-3);
}

#[test]
fn gradients_tell_what_they_are_made_of() {
    let grad = TwoPointConicalGradient::new(
        point(1.0, 2.0),
        fl(3.0),
        point(4.0, 5.0),
        fl(6.0),
        vec![color(1.0, 0.0, 0.0, 1.0)],
        Some(vec![fl(0.5)]),
        TileMode::Mirror,
    )
    .with_local_matrix(translate(7.0, 8.0))
    .with_flags(GradientFlags::from_bits_truncate(3));
    assert_eq!(grad.start_center(), point(1.0, 2.0));
    assert_eq!(grad.end_radius(), fl(6.0));
    assert_eq!(grad.colors().len(), 1);
    assert_eq!(grad.positions(), &Some(vec![fl(0.5)]));
    assert_eq!(grad.tile_mode(), TileMode::Mirror);
    assert_eq!(grad.ramp.flags.bits(), 1);
    let noise = PerlinNoiseShader::turbulence(fl(0.1), fl(0.2), 3, fl(4.0)).with_tile_size(5, 6);
    assert_eq!(noise.noise_type(), NoiseType::Turbulence);
    assert_eq!(noise.tile_size, Some((5, 6)));
    assert_eq!(noise.num_octaves(), 3);
}

#[test]
fn noise_depends_on_the_seed_alone() {
    let at = |seed: u32| {
        PerlinNoiseGenerator::new(seed).noise_2d(&unit(), fl(0.3), fl(0.7))
    };
    assert_eq!(at(5), at(5));
    assert_ne!(at(5), at(6));
    let whole = PerlinNoiseGenerator::new(1).noise_2d(&unit(), fl(3.0), fl(4.0));
    assert_eq!(val(whole).abs(), 0.0);
}

#[test]
fn a_program_samples_its_child() {
    let source = "uniform shader c; half4 main(float2 p) { return c.eval(p); }";
    let effect = Arc::new(RuntimeEffect::make_for_shader(source).unwrap());
    let child = shaders::color(color(0.0, 1.0, 0.0, 1.0));
    let data = UniformData::from_effect(&effect);
    let shader = Shader::Runtime(effect.make_shader(&data, &[child]).unwrap());
    assert_eq!(sample(&shader, 1.0, 2.0).g, 1.0);
    assert_eq!(shader.shader_kind(), ShaderKind::Color);
    assert!(shader.serialize().is_none());
}

#[test]
fn serialized_shaders_are_read_back() {
    let image = ImageShader::with_pixels(
        vec![1, 2, 3, 4],
        rgba8(1, 1),
        TileMode::Repeat,
        TileMode::Decal,
        SamplingOptions::trilinear(),
    )
    .with_local_matrix(translate(1.0, 2.0));
    let shader = shaders::compose(
        Arc::new(Shader::Image(image)),
        shaders::blend(
            BlendMode::Multiply,
            shaders::fractal_noise(fl(0.1), fl(0.2), 3, fl(4.0)),
            shaders::empty(),
        ),
        BlendMode::Xor,
    );
    let bytes = shader.serialize().unwrap();
    let (read, end) = deserialize_shader(&unit(), &bytes, 0).unwrap();
    assert_eq!(end, bytes.len());
    assert_eq!(read.shader_kind(), ShaderKind::Compose);
    assert_eq!(read.serialize().unwrap(), bytes);
    assert!(deserialize_shader(&unit(), &bytes[..bytes.len() - 1], 0).is_none());
    assert!(deserialize_shader(&unit(), &[], 0).is_none());
    assert!(deserialize_shader(&unit(), &[250], 0).is_none());
}

#[test]
fn image_bounds_are_read_as_a_corner_and_a_size() {
    let image = |left: f32, right: f32| {
        let pixels = vec![1, 2, 3, 4];
        let s = SamplingOptions::trilinear();
        let mut x = ImageShader::with_pixels(pixels, rgba8(1, 1), TileMode::Clamp, TileMode::Clamp, s);
        x.bounds.left = fl(left);
        x.bounds.right = fl(right);
        let bytes = Shader::Image(x).serialize().unwrap();
        match deserialize_shader(&unit(), &bytes, 0) {
            Some((Shader::Image(y), _)) => y.bounds.right,
            _ => panic!(),
        }
    };
    assert_eq!(image(2.0, 7.5), fl(7.5));
    assert_eq!(image(1e8, 1.0), fl(0.0));
}

#[test]
fn an_image_knows_its_bounds() {
    let image = ImageShader::with_pixels(
        vec![0; 24],
        rgba8(3, 2),
        TileMode::Clamp,
        TileMode::Mirror,
        SamplingOptions::default(),
    );
    assert_eq!(image.bounds().right, fl(3.0));
    assert_eq!(image.bounds().bottom, fl(2.0));
    assert_eq!(image.tile_mode_y(), TileMode::Mirror);
    let bounds = Rect { left: 0, top: 0, right: fl(1.0), bottom: fl(1.0) };
    let bare = ImageShader::with_tile_mode(bounds, TileMode::Repeat, SamplingOptions::linear());
    assert_eq!(bare.tile_mode_x(), TileMode::Repeat);
    assert_eq!(bare.sampling(), SamplingOptions::linear());
}

#[test]
fn gradient_functions_make_their_kind() {
    let colors = || vec![color(1.0, 0.0, 0.0, 1.0), color(0.0, 0.0, 1.0, 1.0)];
    let o = point(0.0, 0.0);
    let radial = shaders::radial_gradient(o, fl(10.0), colors(), None, TileMode::Clamp);
    assert_eq!(radial.shader_kind(), ShaderKind::RadialGradient);
    let sweep =
        shaders::sweep_gradient(o, fl(0.0), fl(360.0), colors(), None, TileMode::Clamp);
    assert_eq!(sweep.shader_kind(), ShaderKind::SweepGradient);
    let conical = shaders::two_point_conical_gradient(
        o,
        fl(1.0),
        point(5.0, 0.0),
        fl(10.0),
        colors(),
        None,
        TileMode::Clamp,
    );
    assert_eq!(conical.shader_kind(), ShaderKind::TwoPointConicalGradient);
    assert_eq!(sample(&radial, 10.0, 0.0).b, 1.0);
}
