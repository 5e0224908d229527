use std::sync::Arc;

use skia_rs::arith::{FloatOp, FloatUnit};
use skia_rs::blend_mode::BlendMode;
use skia_rs::color_filter::Tinter;
use skia_rs::filter::{
    ArithmeticImageFilter, BlendImageFilter, BlurImageFilter, BlurMaskFilter, ColorChannel,
    ColorFilter, ColorFilterImageFilter, ColorMatrixFilter, ComposeImageFilter,
    DisplacementMapImageFilter, DropShadowImageFilter, ImageFilter, LightType,
    LightingImageFilter, MaskFilter, MatrixConvolutionImageFilter, MergeImageFilter,
    MorphologyImageFilter, OffsetImageFilter, ShaderMaskFilter, TableMaskFilter, TileImageFilter,
};
use skia_rs::filter_codec::{deserialize_color_filter, deserialize_mask_filter};
use skia_rs::geometry::{Color4f, Rect};
use skia_rs::image_filter_codec::deserialize_image_filter;
use skia_rs::image_filters::Bounder;
use skia_rs::raster::BlurStyle;
use skia_rs::runtime_effect::{RuntimeColorFilter, RuntimeEffect};
use skia_rs::shader::TileMode;
use skia_rs::shaders;
use skia_rs::uniforms::UniformData;

fn fl(x: f32) -> u32 {
    x.to_bits()
}

fn compute(op: FloatOp, a: u32, b: u32, c: u32) -> u32 {
    let x = f32::from_bits(a);
    let y = f32::from_bits(b);
    let z = f32::from_bits(c);
    let r = match op {
        FloatOp::Add => x + y,
        FloatOp::Sub => x - y,
        FloatOp::Mul => x * y,
        FloatOp::Div => x / y,
        FloatOp::MulAdd => x.mul_add(y, z),
        FloatOp::Floor => x.floor(),
        FloatOp::Ceil => x.ceil(),
        FloatOp::Sin => x.sin(),
        FloatOp::Cos => x.cos(),
        FloatOp::Tan => x.tan(),
        FloatOp::Asin => x.asin(),
        FloatOp::Acos => x.acos(),
        FloatOp::Atan => x.atan(),
        FloatOp::Atan2 => x.atan2(y),
        FloatOp::Exp => x.exp(),
        FloatOp::Exp2 => x.exp2(),
        FloatOp::Ln => x.ln(),
        FloatOp::Log2 => x.log2(),
        FloatOp::Sqrt => x.sqrt(),
        FloatOp::Pow => x.powf(y),
        FloatOp::Radians => x.to_radians(),
        FloatOp::Degrees => x.to_degrees(),
        FloatOp::Rem => x.rem_euclid(y),
        FloatOp::Hypot => x.hypot(y),
        FloatOp::Blend => (y - x).mul_add(z, x),
        FloatOp::Round => x.round(),
        FloatOp::OfNatural => a as f32,
        FloatOp::Midpoint => ((f64::from(x) + f64::from(y)) / 2.0) as f32,
        FloatOp::Fract => x.fract(),
    };
    r.to_bits()
}

type Arith = fn(FloatOp, u32, u32, u32) -> u32;

fn unit() -> FloatUnit<Arith> {
    FloatUnit { arith: compute }
}

fn val(x: u32) -> f32 {
    f32::from_bits(x)
}

fn color(r: f32, g: f32, b: f32, a: f32) -> Color4f {
    Color4f { r: fl(r), g: fl(g), b: fl(b), a: fl(a) }
}

fn rect(l: f32, t: f32, r: f32, b: f32) -> Rect {
    Rect { left: fl(l), top: fl(t), right: fl(r), bottom: fl(b) }
}

fn green(_: &RuntimeColorFilter, c: Color4f) -> Color4f {
    Color4f { r: 0, g: fl(1.0), b: 0, a: c.a }
}

fn tinter() -> Tinter<Arith, fn(&RuntimeColorFilter, Color4f) -> Color4f> {
    Tinter { floats: unit(), run: green }
}

fn apply(filter: &ImageFilter, pixels: &mut [u8], w: usize, h: usize) {
    assert!(tinter().apply(filter, pixels, w, h));
}

fn mask(style: BlurStyle, sigma: f32, bytes: &mut [u8], w: usize, h: usize) {
    let filter = MaskFilter::Blur(BlurMaskFilter::new(style, fl(sigma)));
    assert!(filter.apply_mask(&unit(), bytes, w, h));
}

fn blur(sigma: f32) -> ImageFilter {
    ImageFilter::Blur(BlurImageFilter::new(fl(sigma), fl(sigma), TileMode::Clamp))
}

fn colored(m: ColorMatrixFilter) -> ImageFilter {
    ImageFilter::ColorFilter(ColorFilterImageFilter::new(Arc::new(ColorFilter::Matrix(m)), None))
}

fn convolution(
    size: (i32, i32),
    kernel: Vec<f32>,
    offset: (i32, i32),
    mode: TileMode,
    alpha: bool,
) -> ImageFilter {
    ImageFilter::MatrixConvolution(MatrixConvolutionImageFilter::new(
        size,
        kernel.iter().map(|x| x.to_bits()).collect(),
        fl(1.0),
        fl(0.0),
        offset,
        mode,
        alpha,
        None,
    ))
}

#[test]
fn test_blur_mask_filter_blurs() {
    // 5x5 mask with a single bright pixel in the center
    let mut m = vec![0u8; 25];
    m[12] = 255;
    mask(BlurStyle::Normal, 3.0, &mut m, 5, 5);
    // Center should be less than 255 (blurred)
    assert!(m[12] < 255, "center should be blurred lower, got {}", m[12]);
    // Should have spread to neighbors
    let has_spread = m.iter().any(|&v| v > 0 && v < 255);
    assert!(has_spread, "blur should produce intermediate values");
}

#[test]
fn test_blur_image_filter_blurs_rgba() {
    // 5x5 RGBA image, white pixel in center, rest black
    let mut pixels = vec![0u8; 25 * 4];
    for c in 0..4 {
        pixels[12 * 4 + c] = 255;
    }
    apply(&blur(3.0), &mut pixels, 5, 5);
    // Center should dim
    assert!(pixels[12 * 4] < 255);
    // Neighbor should brighten
    assert!(pixels[11 * 4] > 0);
}

#[test]
fn test_blur_mask_filter_small_sigma_blurs() {
    // sigma = 0.9 gives radius ~0.69, which must blur.
    let mut m = vec![0u8; 25];
    m[12] = 255;
    mask(BlurStyle::Normal, 0.9, &mut m, 5, 5);
    assert!(m[12] < 255, "sigma 0.9 must blur, center still {}", m[12]);
    assert!(m[11] > 0, "sigma 0.9 must spread to neighbors");
}

#[test]
fn test_blur_image_filter_small_sigma_blurs() {
    let mut pixels = vec![0u8; 25 * 4];
    for c in 0..4 {
        pixels[12 * 4 + c] = 255;
    }
    apply(&blur(0.9), &mut pixels, 5, 5);
    assert!(pixels[12 * 4] < 255, "sigma 0.9 must blur the image");
    assert!(pixels[11 * 4] > 0, "sigma 0.9 must spread to neighbors");
}

#[test]
fn no_radius_leaves_a_mask_alone() {
    let mut m = vec![0u8, 255, 0];
    mask(BlurStyle::Normal, 0.5, &mut m, 3, 1);
    assert_eq!(m, vec![0, 255, 0]);
    mask(BlurStyle::Outer, 0.5, &mut m, 3, 1);
    assert_eq!(m, vec![0, 0, 0]);
}

#[test]
fn a_blur_too_wide_to_count_is_refused() {
    let mut pixels = vec![7u8; 4];
    assert!(!tinter().apply(&blur(1.0e30), &mut pixels, 1, 1));
    assert_eq!(pixels, vec![7; 4]);
    let filter = MaskFilter::Blur(BlurMaskFilter::new(BlurStyle::Normal, fl(1.0e30)));
    assert!(!filter.apply_mask(&unit(), &mut pixels, 2, 2));
    assert_eq!(filter.blur_radius(), Some(fl(1.0e30)));
}

#[test]
fn test_blur_mask_filter_solid_style() {
    let mut m = vec![0u8; 49];
    m[24] = 255; // center of 7x7
    mask(BlurStyle::Solid, 2.0, &mut m, 7, 7);
    assert_eq!(m[24], 255, "solid keeps the source opaque");
    assert!(m[23] > 0, "solid still has a blur halo");
}

#[test]
fn test_blur_mask_filter_outer_style() {
    let mut m = vec![0u8; 49];
    m[24] = 255;
    mask(BlurStyle::Outer, 2.0, &mut m, 7, 7);
    assert_eq!(m[24], 0, "outer clears the source region");
    assert!(m[23] > 0, "outer keeps the halo outside the source");
}

#[test]
fn test_blur_mask_filter_inner_style() {
    let mut m = vec![0u8; 49];
    m[24] = 255;
    mask(BlurStyle::Inner, 2.0, &mut m, 7, 7);
    assert!(m[24] > 0, "inner keeps blur inside the source");
    assert!(m[24] < 255, "inner is the blurred value, not the source");
    assert_eq!(m[23], 0, "inner is empty outside the source");
}

#[test]
fn blur_styles_keep_to_the_mask() {
    let bytes: Vec<u8> = (0..63u32).map(|i| [0, 255, 0, 90, 255, 7, 200][(i * i % 7) as usize]).collect();
    for sigma in [0.8, 2.0, 5.0, 1000.0] {
        let styled = |style| {
            let mut m = bytes.clone();
            mask(style, sigma, &mut m, 9, 7);
            m
        };
        let d = styled(BlurStyle::Normal);
        let solid = styled(BlurStyle::Solid);
        let outer = styled(BlurStyle::Outer);
        let inner = styled(BlurStyle::Inner);
        for i in 0..bytes.len() {
            let s = bytes[i];
            assert!(solid[i] >= s.max(d[i]) && outer[i] <= d[i] && inner[i] <= s.min(d[i]));
            if s == 255 {
                assert_eq!((solid[i], outer[i], inner[i]), (255, 0, d[i]));
            }
            if s == 0 {
                assert_eq!((outer[i], inner[i]), (d[i], 0));
            }
        }
    }
}

#[test]
fn test_color_filter_image_filter_unpremul_roundtrip() {
    // Premul pixel: 50%-alpha red = (128, 0, 0, 128). Unpremul (1,0,0),
    // invert -> (0,1,1), clamp, re-premul with a=0.5 -> (0,128,128,128).
    let mut pixels = vec![128u8, 0, 0, 128];
    apply(&colored(ColorMatrixFilter::invert()), &mut pixels, 1, 1);
    assert_eq!(pixels[3], 128, "alpha untouched by invert");
    assert!(pixels[0] <= 1, "r must be ~0, got {}", pixels[0]);
    assert!((i32::from(pixels[1]) - 128).abs() <= 1, "g must be ~128, got {}", pixels[1]);
    assert!((i32::from(pixels[2]) - 128).abs() <= 1, "b must be ~128, got {}", pixels[2]);
}

#[test]
fn a_program_filters_pixels_too() {
    let src = "vec4 main(vec4 c) { return c; }";
    let effect = Arc::new(RuntimeEffect::make_for_color_filter(src).unwrap());
    let program = effect.make_color_filter(&UniformData::default()).unwrap();
    let filter = ImageFilter::ColorFilter(ColorFilterImageFilter::new(
        Arc::new(ColorFilter::Runtime(program)),
        None,
    ));
    let mut pixels = vec![200u8, 0, 0, 255];
    apply(&filter, &mut pixels, 1, 1);
    assert_eq!(pixels, vec![0, 255, 0, 255]);
    assert!(filter.serialize().is_none());
}

#[test]
fn test_matrix_convolution_unpremul_when_not_convolving_alpha() {
    let filter = convolution((2, 1), vec![0.5, 0.5], (0, 0), TileMode::Clamp, false);
    let mut pixels = vec![
        128u8, 0, 0, 128, // premul 50% red
        0, 0, 255, 255, // opaque blue
    ];
    apply(&filter, &mut pixels, 2, 1);
    assert_eq!(pixels[3], 128, "alpha unchanged");
    assert!((i32::from(pixels[0]) - 64).abs() <= 1, "got {}", pixels[0]);
    assert!((i32::from(pixels[2]) - 64).abs() <= 1, "got {}", pixels[2]);
}

#[test]
fn test_matrix_convolution_honors_decal_tile_mode() {
    // 1x1 white image with a 3x1 averaging kernel centered on the pixel.
    // Decal: out-of-bounds taps contribute transparent -> ~255/3.
    let filter = convolution((3, 1), vec![1.0 / 3.0; 3], (1, 0), TileMode::Decal, true);
    let mut pixels = vec![255u8, 255, 255, 255];
    apply(&filter, &mut pixels, 1, 1);
    assert!(pixels[0] < 100, "decal must not clamp-extend the edge, got {}", pixels[0]);
    // Clamp, by contrast, keeps the pixel at ~255.
    let filter = convolution((3, 1), vec![1.0 / 3.0; 3], (1, 0), TileMode::Clamp, true);
    let mut pixels = vec![255u8, 255, 255, 255];
    apply(&filter, &mut pixels, 1, 1);
    assert!(pixels[0] > 250, "clamp extends the edge pixel");
}

#[test]
fn a_kernel_without_entries_changes_nothing() {
    let mut pixels = vec![9u8, 8, 7, 6];
    apply(&convolution((0, 1), vec![1.0], (0, 0), TileMode::Clamp, true), &mut pixels, 1, 1);
    apply(&convolution((1, 1), vec![], (0, 0), TileMode::Clamp, true), &mut pixels, 1, 1);
    assert_eq!(pixels, vec![9, 8, 7, 6]);
}

#[test]
fn test_tile_image_filter_fills_only_dst_rect() {
    let filter = ImageFilter::Tile(TileImageFilter::new(
        rect(0.0, 0.0, 1.0, 1.0),
        rect(0.0, 0.0, 2.0, 2.0),
        None,
    ));
    let mut pixels = Vec::new();
    for i in 0..16 {
        if i == 0 {
            pixels.extend_from_slice(&[255u8, 0, 0, 255]); // red
        } else {
            pixels.extend_from_slice(&[0u8, 0, 255, 255]); // blue
        }
    }
    apply(&filter, &mut pixels, 4, 4);
    // Inside dst_rect: tiled red.
    for (x, y) in [(0usize, 0usize), (1, 0), (0, 1), (1, 1)] {
        let idx = (y * 4 + x) * 4;
        assert_eq!(pixels[idx], 255, "({x}, {y}) inside dst_rect is red");
    }
    // Outside dst_rect: untouched blue.
    for (x, y) in [(2usize, 0usize), (3, 3), (0, 2), (2, 2)] {
        let idx = (y * 4 + x) * 4;
        assert_eq!(pixels[idx + 2], 255, "({x}, {y}) outside dst_rect stays blue");
    }
}

#[test]
fn test_color_filter_image_filter() {
    let filter = colored(ColorMatrixFilter::saturation(&unit(), fl(0.0)));
    // 2x2 RGBA image with various colors
    let mut pixels = vec![
        255, 0, 0, 255, // red
        0, 255, 0, 255, // green
        0, 0, 255, 255, // blue
        128, 128, 128, 255, // gray
    ];
    apply(&filter, &mut pixels, 2, 2);
    // Saturation 0.0 should produce grayscale
    let (r, g, b) = (pixels[0], pixels[1], pixels[2]);
    assert!((i32::from(r) - i32::from(g)).abs() < 5, "red pixel should be grayscale");
    assert!((i32::from(g) - i32::from(b)).abs() < 5, "red pixel should be grayscale");
}

#[test]
fn test_compose_image_filter() {
    let outer = colored(ColorMatrixFilter::saturation(&unit(), fl(0.0)));
    let compose =
        ImageFilter::Compose(ComposeImageFilter::new(Arc::new(outer), Arc::new(blur(2.0))));

    let mut pixels = vec![0u8; 25 * 4];
    pixels[12 * 4] = 255; // red center
    pixels[12 * 4 + 3] = 255;
    apply(&compose, &mut pixels, 5, 5);
    // Should be blurred and grayscale
    assert!(pixels[12 * 4] < 255, "should be blurred");
    // Check a neighbor got some color
    assert!(pixels[11 * 4] > 0, "should have spread");
}

#[test]
fn test_offset_image_filter() {
    let filter = ImageFilter::Offset(OffsetImageFilter::new(fl(1.0), fl(1.0), None));
    let mut pixels = vec![0u8; 16 * 4]; // 4x4
    pixels[0] = 255; // red at top-left
    pixels[3] = 255; // alpha
    apply(&filter, &mut pixels, 4, 4);
    assert_eq!(pixels[0], 255, "clamp-to-edge should preserve top-left");
    assert_eq!(pixels[5 * 4], 255, "the pixel moved right and down");
}

#[test]
fn the_input_of_an_offset_comes_first() {
    let input = Arc::new(colored(ColorMatrixFilter::invert()));
    let filter = ImageFilter::Offset(OffsetImageFilter::new(fl(1.0), fl(0.0), Some(input)));
    let mut pixels = vec![255u8, 0, 0, 255, 0, 0, 0, 255];
    apply(&filter, &mut pixels, 2, 1);
    assert_eq!(pixels, vec![0, 255, 255, 255, 0, 255, 255, 255]);
}

#[test]
fn test_drop_shadow_image_filter_applies_shadow() {
    let filter = ImageFilter::DropShadow(DropShadowImageFilter::new(
        fl(2.0),
        fl(2.0),
        fl(1.0),
        fl(1.0),
        color(0.0, 0.0, 0.0, 1.0),
        false,
    ));
    // 5x5 image with single white pixel at center
    let mut pixels = vec![0u8; 25 * 4];
    for c in 0..4 {
        pixels[12 * 4 + c] = 255;
    }
    apply(&filter, &mut pixels, 5, 5);
    // The original white pixel should still be bright
    assert!(pixels[12 * 4 + 3] > 200, "source should remain bright");
    // Check that some shadow spread occurred (non-zero alpha in neighbors)
    let has_shadow = (0..25).any(|i| i != 12 && pixels[i * 4 + 3] > 0);
    assert!(has_shadow, "shadow should spread to other pixels");
}

#[test]
fn a_lone_shadow_hides_its_source() {
    let filter = ImageFilter::DropShadow(DropShadowImageFilter::new(
        fl(1.0),
        fl(0.0),
        fl(0.0),
        fl(0.0),
        color(1.0, 0.0, 0.0, 0.5),
        true,
    ));
    let mut pixels = vec![0u8, 255, 0, 255, 0, 0, 0, 0, 0, 0, 0, 0];
    apply(&filter, &mut pixels, 3, 1);
    assert_eq!(pixels, vec![127, 0, 0, 127, 127, 0, 0, 127, 0, 0, 0, 0]);
}

#[test]
fn test_morphology_dilate_expands_bright_pixel() {
    let filter = ImageFilter::Morphology(MorphologyImageFilter::dilate(fl(1.0), fl(1.0), None));
    // Single bright white pixel in center
    let mut pixels = vec![0u8; 25 * 4];
    for c in 0..4 {
        pixels[12 * 4 + c] = 255;
    }
    apply(&filter, &mut pixels, 5, 5);
    // Neighbors should now be bright (dilated)
    assert_eq!(pixels[7 * 4], 255, "neighbor above (7) should be dilated to 255");
    assert_eq!(pixels[11 * 4], 255, "neighbor left (11) should be dilated to 255");
    assert_eq!(pixels[13 * 4], 255, "neighbor right (13) should be dilated to 255");
    assert_eq!(pixels[17 * 4], 255, "neighbor below (17) should be dilated to 255");
}

#[test]
fn test_morphology_erode_shrinks_bright_region() {
    let filter = ImageFilter::Morphology(MorphologyImageFilter::erode(fl(1.0), fl(1.0), None));
    // 3x3 bright region in center of 5x5
    let mut pixels = vec![0u8; 25 * 4];
    for y in 1..4 {
        for x in 1..4 {
            for c in 0..4 {
                pixels[(y * 5 + x) * 4 + c] = 255;
            }
        }
    }
    apply(&filter, &mut pixels, 5, 5);
    // Center should still be bright
    assert_eq!(pixels[12 * 4], 255, "center should remain bright");
    // Edges should erode (neighbor of black = become black)
    assert_eq!(pixels[6 * 4], 0, "top-left of bright region (6) should erode to 0");
}

#[test]
fn test_displacement_map_displaces_pixels() {
    let filter = ImageFilter::DisplacementMap(DisplacementMapImageFilter::new(
        ColorChannel::R,
        ColorChannel::G,
        fl(10.0),
        Arc::new(blur(0.0)),
        None,
    ));
    // Create a gradient image for displacement
    let mut pixels = vec![0u8; 25 * 4];
    for y in 0..5 {
        for x in 0..5 {
            let idx = (y * 5 + x) * 4;
            pixels[idx] = u8::try_from(x * 50).unwrap_or(u8::MAX); // R gradient horizontal
            pixels[idx + 1] = u8::try_from(y * 50).unwrap_or(u8::MAX); // G gradient vertical
            pixels[idx + 2] = 128;
            pixels[idx + 3] = 255;
        }
    }
    let original = pixels.clone();
    apply(&filter, &mut pixels, 5, 5);
    // Pixels should have moved based on R and G channels
    let changed = (0..25).any(|i| (0..3).any(|c| pixels[i * 4 + c] != original[i * 4 + c]));
    assert!(changed, "displacement should change pixel positions");
}

#[test]
fn test_lighting_image_filter() {
    let light = LightType::Distant { direction: (fl(0.0), fl(0.0), fl(1.0)) };
    let filter = ImageFilter::Lighting(LightingImageFilter::diffuse(
        light,
        fl(1.0),
        fl(1.0),
        color(1.0, 1.0, 1.0, 1.0),
        None,
    ));
    let mut pixels = vec![128u8; 25 * 4]; // gray image
    apply(&filter, &mut pixels, 5, 5);
    // A factor of 1.1; alpha stays.
    assert_eq!(pixels[0], 140);
    assert_eq!(pixels[3], 128);
}

#[test]
fn test_matrix_convolution_identity() {
    // Identity kernel: center=1, rest=0
    let kernel = vec![0.0, 0.0, 0.0, 0.0, 1.0, 0.0, 0.0, 0.0, 0.0];
    let filter = convolution((3, 3), kernel, (1, 1), TileMode::Clamp, true);
    let mut pixels = vec![
        255, 0, 0, 255, // red
        0, 255, 0, 255, // green
        0, 0, 255, 255, // blue
        128, 128, 128, 255, // gray
    ];
    let original = pixels.clone();
    apply(&filter, &mut pixels, 2, 2);
    // Identity kernel should preserve pixels (within rounding)
    for i in 0..16 {
        assert!(
            (i32::from(pixels[i]) - i32::from(original[i])).abs() <= 1,
            "identity kernel should preserve pixel values"
        );
    }
}

#[test]
fn test_tile_image_filter() {
    let filter = ImageFilter::Tile(TileImageFilter::new(
        rect(0.0, 0.0, 2.0, 2.0),
        rect(0.0, 0.0, 4.0, 4.0),
        None,
    ));
    let mut pixels = vec![0u8; 16 * 4]; // 4x4
    pixels[0] = 255; // (0,0) red
    pixels[4] = 0;
    pixels[4 + 1] = 255; // (1,0) green
    pixels[8] = 0;
    pixels[8 + 2] = 255; // (0,1) blue
    pixels[12] = 255;
    pixels[12 + 1] = 255; // (1,1) yellow
    apply(&filter, &mut pixels, 4, 4);
    // (2,0) should match (0,0) = red
    assert_eq!(pixels[2 * 4], 255, "tile should repeat horizontally");
    // (0,2) should match (0,0) = red
    assert_eq!(pixels[8 * 4], 255, "tile should repeat vertically");
}

#[test]
fn test_color_matrix_invert() {
    let result = ColorMatrixFilter::invert().filter_color(&unit(), color(0.2, 0.4, 0.8, 1.0));
    assert!((val(result.r) - 0.8).abs() < 1e-3);
    assert!((val(result.g) - 0.6).abs() < 1e-3);
    assert!((val(result.b) - 0.2).abs() < 1e-3);
    assert!((val(result.a) - 1.0).abs() < 1e-3);
}

#[test]
fn test_color_matrix_grayscale() {
    let result = ColorMatrixFilter::grayscale().filter_color(&unit(), color(1.0, 0.0, 0.0, 1.0));
    // R -> 0.299, G -> 0.299, B -> 0.299 (all channels become luminance)
    assert!((val(result.r) - 0.299).abs() < 1e-3);
    assert!((val(result.g) - 0.299).abs() < 1e-3);
    assert!((val(result.b) - 0.299).abs() < 1e-3);
    assert!((val(result.a) - 1.0).abs() < 1e-3);
}

#[test]
fn test_color_matrix_brightness_zero_is_identity() {
    let filter = ColorMatrixFilter::brightness(fl(0.0));
    let result = filter.filter_color(&unit(), color(0.3, 0.4, 0.5, 0.7));
    assert!((val(result.r) - 0.3).abs() < 1e-3);
    assert!((val(result.g) - 0.4).abs() < 1e-3);
    assert!((val(result.b) - 0.5).abs() < 1e-3);
    assert!((val(result.a) - 0.7).abs() < 1e-3);
    assert_eq!(filter.matrix, ColorMatrixFilter::identity().matrix);
}

#[test]
fn test_color_matrix_sepia() {
    let result = ColorMatrixFilter::sepia().filter_color(&unit(), color(1.0, 0.0, 0.0, 1.0));
    // Red through sepia matrix
    assert!(val(result.r) > 0.3);
    assert!(val(result.g) > 0.3);
    assert!(val(result.b) > 0.1);
    assert!((val(result.a) - 1.0).abs() < 1e-3);
}

#[test]
fn test_color_matrix_contrast() {
    let filter = ColorMatrixFilter::contrast(&unit(), fl(2.0));
    let result = filter.filter_color(&unit(), color(0.75, 0.25, 0.5, 1.0));
    // (0.75 - 0.5) * 2.0 + 0.5 = 1.0
    assert!((val(result.r) - 1.0).abs() < 1e-3);
    // (0.25 - 0.5) * 2.0 + 0.5 = 0.0
    assert!((val(result.g) - 0.0).abs() < 1e-3);
    // (0.5 - 0.5) * 2.0 + 0.5 = 0.5
    assert!((val(result.b) - 0.5).abs() < 1e-3);
}

#[test]
fn test_color_matrix_hue_rotate() {
    let filter = ColorMatrixFilter::hue_rotate(&unit(), fl(180.0));
    let result = filter.filter_color(&unit(), color(1.0, 0.0, 0.0, 1.0));
    // Red rotated 180 degrees should be cyan-ish (low R, high G/B)
    assert!(val(result.r) < 0.5);
    assert!((val(result.a) - 1.0).abs() < 1e-3);
}

#[test]
fn tables_map_bytes() {
    let gamma = TableMaskFilter::gamma(&unit(), fl(1.0));
    assert_eq!(gamma.table()[0], 0);
    assert_eq!(gamma.table()[200], 200);
    assert_eq!(gamma.table()[255], 255);
    assert_eq!(TableMaskFilter::gamma(&unit(), fl(2.0)).table()[128], 64);
    let clip = TableMaskFilter::clip(10, 20);
    assert_eq!(clip.table()[9], 0);
    assert_eq!(clip.table()[10], 0);
    assert_eq!(clip.table()[15], 127);
    assert_eq!(clip.table()[20], 255);
    assert_eq!(clip.table()[21], 255);
}

#[test]
fn merges_and_blends_change_nothing() {
    let mut pixels = vec![1u8, 2, 3, 4];
    apply(&ImageFilter::Merge(MergeImageFilter::new(vec![None])), &mut pixels, 1, 1);
    apply(
        &ImageFilter::Blend(BlendImageFilter::new(BlendMode::SrcOver, None, None)),
        &mut pixels,
        1,
        1,
    );
    let arithmetic = ArithmeticImageFilter::new(0, 0, 0, fl(1.0), true, None, None);
    apply(&ImageFilter::Arithmetic(arithmetic), &mut pixels, 1, 1);
    assert_eq!(pixels, vec![1, 2, 3, 4]);
}

fn join(a: Rect, b: Rect) -> Rect {
    let f = |x: u32, y: u32| fl(val(x).min(val(y)));
    let g = |x: u32, y: u32| fl(val(x).max(val(y)));
    Rect {
        left: f(a.left, b.left),
        top: f(a.top, b.top),
        right: g(a.right, b.right),
        bottom: g(a.bottom, b.bottom),
    }
}

fn bounds(filter: &ImageFilter) -> Rect {
    let b: Bounder<Arith, fn(Rect, Rect) -> Rect> = Bounder { floats: unit(), join };
    b.filter_bounds(filter, rect(0.0, 0.0, 10.0, 10.0))
}

#[test]
fn bounds_grow_with_filters() {
    assert_eq!(bounds(&blur(2.0)), rect(-6.0, -6.0, 16.0, 16.0));
    let offset = ImageFilter::Offset(OffsetImageFilter::new(fl(3.0), fl(4.0), None));
    assert_eq!(bounds(&offset), rect(3.0, 4.0, 13.0, 14.0));
    let shadow = ImageFilter::DropShadow(DropShadowImageFilter::new(
        fl(5.0),
        fl(5.0),
        fl(1.0),
        fl(1.0),
        color(0.0, 0.0, 0.0, 1.0),
        false,
    ));
    assert_eq!(bounds(&shadow), rect(0.0, 0.0, 18.0, 18.0));
    let kernel = convolution((3, 5), vec![1.0; 15], (1, 2), TileMode::Clamp, true);
    assert_eq!(bounds(&kernel), rect(-1.0, -2.0, 11.0, 12.0));
    let merged =
        ImageFilter::Merge(MergeImageFilter::new(vec![Some(Arc::new(offset)), None]));
    assert_eq!(bounds(&merged), rect(0.0, 0.0, 13.0, 14.0));
    let tile = TileImageFilter::new(rect(0.0, 0.0, 1.0, 1.0), rect(2.0, 2.0, 5.0, 5.0), None);
    assert_eq!(bounds(&ImageFilter::Tile(tile)), rect(2.0, 2.0, 5.0, 5.0));
    let composed =
        ImageFilter::Compose(ComposeImageFilter::new(Arc::new(blur(1.0)), Arc::new(blur(2.0))));
    assert_eq!(bounds(&composed), rect(-9.0, -9.0, 19.0, 19.0));
}

#[test]
fn serialized_filters_are_read_back() {
    let input = Arc::new(ImageFilter::Morphology(MorphologyImageFilter::erode(
        fl(1.0),
        fl(2.0),
        Some(Arc::new(blur(2.0))),
    )));
    let filter = ImageFilter::Compose(ComposeImageFilter::new(
        input.clone(),
        Arc::new(ImageFilter::Offset(OffsetImageFilter::new(fl(3.0), fl(-4.0), None))),
    ));
    let bytes = filter.serialize().unwrap();
    let (read, end) = deserialize_image_filter(&bytes, 0).unwrap();
    assert_eq!(end, bytes.len());
    assert_eq!(read.serialize().unwrap(), bytes);
    assert!(deserialize_image_filter(&bytes[..bytes.len() - 1], 0).is_none());
    assert!(deserialize_image_filter(&[200], 0).is_none());
    // Some kinds are only written.
    let written = convolution((1, 2), vec![0.5, 1.5], (0, 1), TileMode::Mirror, false);
    assert!(deserialize_image_filter(&written.serialize().unwrap(), 0).is_none());

    let matrix = ColorFilter::Matrix(ColorMatrixFilter::sepia());
    let bytes = matrix.serialize().unwrap();
    assert_eq!(bytes.len(), 81);
    let (read, _) = deserialize_color_filter(&bytes, 0).unwrap();
    assert_eq!(read.serialize().unwrap(), bytes);
    assert!(deserialize_color_filter(&bytes[..80], 0).is_none());

    let shader = shaders::color(color(1.0, 0.0, 0.0, 1.0));
    let m = MaskFilter::Shader(ShaderMaskFilter::new(shader));
    let bytes = m.serialize().unwrap();
    let (read, end) = deserialize_mask_filter(&unit(), &bytes, 0).unwrap();
    assert_eq!(end, bytes.len());
    assert_eq!(read.serialize().unwrap(), bytes);
    assert_eq!(m.blur_radius(), None);
}

#[test]
fn specular_light_keeps_its_constants() {
    let light = LightType::Distant { direction: (fl(0.0), fl(0.0), fl(1.0)) };
    let white = color(1.0, 1.0, 1.0, 1.0);
    let f = LightingImageFilter::specular(light, fl(1.0), fl(0.5), fl(8.0), white, None);
    assert_eq!(f.specular_constant, Some(fl(0.5)));
    assert_eq!(f.specular_exponent, Some(fl(8.0)));
    assert_eq!(f.diffuse_constant, None);
}
