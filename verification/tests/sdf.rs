use skia_rs::arith::{FloatOp, FloatUnit};
use skia_rs::distance::{distance_transform_1d, edge_distances};
use skia_rs::geometry::{Point, Rect};
use skia_rs::sdf::{
    SdfConfig, SdfGlyphMetrics, SdfRenderParams, SdfTextBatch, bilinear_corners, median_of_three,
};
use skia_rs::sdf_field::{
    MsdfData, generate_circle_sdf, generate_rounded_rect_sdf, generate_sdf_from_mask,
    sample_sdf_bilinear, sdf_to_texture,
};

fn fl(x: f32) -> u32 {
    x.to_bits()
}

fn compute(op: FloatOp, a: u32, b: u32, c: u32) -> u32 {
    let x = f32::from_bits(a);
    let y = f32::from_bits(b);
    let z = f32::from_bits(c);
    let r = match op {
        FloatOp::Add => x + y,
        FloatOp::Sub => x - y,
        FloatOp::Mul => x * y,
        FloatOp::Div => x / y,
        FloatOp::MulAdd => x.mul_add(y, z),
        FloatOp::Floor => x.floor(),
        FloatOp::Ceil => x.ceil(),
        FloatOp::Sin => x.sin(),
        FloatOp::Cos => x.cos(),
        FloatOp::Tan => x.tan(),
        FloatOp::Asin => x.asin(),
        FloatOp::Acos => x.acos(),
        FloatOp::Atan => x.atan(),
        FloatOp::Atan2 => x.atan2(y),
        FloatOp::Exp => x.exp(),
        FloatOp::Exp2 => x.exp2(),
        FloatOp::Ln => x.ln(),
        FloatOp::Log2 => x.log2(),
        FloatOp::Sqrt => x.sqrt(),
        FloatOp::Pow => x.powf(y),
        FloatOp::Radians => x.to_radians(),
        FloatOp::Degrees => x.to_degrees(),
        FloatOp::Rem => x.rem_euclid(y),
        FloatOp::Hypot => x.hypot(y),
        FloatOp::Blend => (y - x).mul_add(z, x),
        FloatOp::Round => x.round(),
        FloatOp::OfNatural => a as f32,
        FloatOp::Midpoint => ((f64::from(x) + f64::from(y)) / 2.0) as f32,
        FloatOp::Fract => x.fract(),
    };
    r.to_bits()
}

type Arith = fn(FloatOp, u32, u32, u32) -> u32;

fn unit() -> FloatUnit<Arith> {
    FloatUnit { arith: compute }
}

fn val(x: u32) -> f32 {
    f32::from_bits(x)
}

fn bits(v: &[f32]) -> Vec<u32> {
    v.iter().map(|x| x.to_bits()).collect()
}

#[test]
fn test_sdf_config() {
    let config = SdfConfig::default();
    assert_eq!(config.size, 64);
    assert_eq!(val(config.spread), 8.0);

    let high = SdfConfig::high_res();
    assert!(high.size > config.size);
}

#[test]
fn test_sdf_render_params() {
    let params = SdfRenderParams::default();
    assert!(val(params.smoothing) > 0.0);
    assert_eq!(val(params.outline_width), 0.0);

    let outline = SdfRenderParams::with_outline(&unit(), fl(8.0), fl(2.0));
    assert_eq!(val(outline.outline_width), 2.0);
}

#[test]
fn render_params_scale_with_spread() {
    assert_eq!(val(SdfRenderParams::crisp(&unit(), fl(4.0)).smoothing), 0.1 / 4.0);
    let soft = SdfRenderParams::soft(&unit(), fl(4.0));
    assert_eq!(val(soft.smoothing), 0.125);
    assert_eq!(val(soft.soft_edge), 0.2);
    assert_eq!(val(SdfRenderParams::default().smoothing), 0.25 / 8.0);
}

#[test]
fn test_generate_circle_sdf() {
    let sdf = generate_circle_sdf(&unit(), 32, fl(10.0));
    assert_eq!(sdf.len(), 32 * 32);

    // Center should be inside (negative)
    let center_idx = 16 * 32 + 16;
    assert!(val(sdf[center_idx]) < 0.0);

    // Corner should be outside (positive)
    assert!(val(sdf[0]) > 0.0);
}

#[test]
fn test_generate_rounded_rect_sdf() {
    let rect = Rect { left: fl(4.0), top: fl(4.0), right: fl(28.0), bottom: fl(28.0) };
    let center = Point { x: fl(16.0), y: fl(16.0) };
    let sdf = generate_rounded_rect_sdf(&unit(), 32, rect, center, fl(4.0));
    assert_eq!(sdf.len(), 32 * 32);

    // Center should be inside
    let center_idx = 16 * 32 + 16;
    assert!(val(sdf[center_idx]) < 0.0);
}

#[test]
fn test_sdf_to_texture_inside_is_high() {
    let sdf = bits(&[-8.0, 0.0, 8.0]);
    let texture = sdf_to_texture(&unit(), &sdf, fl(8.0));

    assert_eq!(texture.len(), 3);
    assert_eq!(texture[0], 255, "fully inside -> high");
    assert_eq!(texture[1], 128, "edge -> 128");
    assert_eq!(texture[2], 0, "fully outside -> low");
    // Monotonic: inside strictly greater than outside.
    assert!(texture[0] > texture[1] && texture[1] > texture[2]);
}

#[test]
fn test_sample_sdf_bilinear() {
    let sdf = bits(&[0.0, 1.0, 2.0, 3.0]);
    let v = val(sample_sdf_bilinear(&unit(), &sdf, 2, 2, fl(0.5), fl(0.5)));
    // Should be average of all four corners
    assert!((v - 1.5).abs() < 0.001);
}

#[test]
fn samples_outside_are_held_at_the_edge() {
    let sdf = bits(&[0.0, 1.0, 2.0, 3.0]);
    assert_eq!(val(sample_sdf_bilinear(&unit(), &sdf, 2, 2, fl(5.0), fl(9.0))), 3.0);
    assert_eq!(bilinear_corners(2, 2, -3, 0), [0, 1, 2, 3]);
    assert_eq!(bilinear_corners(2, 2, 1, 1), [3, 3, 3, 3]);
}

#[test]
fn test_msdf_data() {
    let mut msdf = MsdfData::new(32, 32);
    assert_eq!(msdf.r.len(), 32 * 32);

    // Set some values
    msdf.r[0] = fl(1.0);
    msdf.g[0] = fl(2.0);
    msdf.b[0] = fl(3.0);

    let median = val(msdf.sample_median(&unit(), fl(0.0), fl(0.0)));
    assert!((median - 2.0).abs() < 0.001);
}

#[test]
fn msdf_texture_has_three_bytes_each() {
    let mut msdf = MsdfData::new(2, 1);
    msdf.r[1] = fl(8.0);
    msdf.g[1] = fl(-8.0);
    assert_eq!(msdf.to_texture(&unit(), fl(8.0)), vec![128, 128, 128, 255, 0, 128]);
}

#[test]
fn median_lies_between() {
    assert_eq!(median_of_three(fl(3.0), fl(-1.0), fl(2.0)), fl(2.0));
    assert_eq!(median_of_three(fl(1.0), fl(1.0), fl(5.0)), fl(1.0));
}

#[test]
fn test_generate_sdf_from_mask_basic() {
    // 8x8 mask with a 4x4 filled square in the centre.
    let w = 8;
    let h = 8;
    let mut mask = vec![0u8; w * h];
    for y in 2..6 {
        for x in 2..6 {
            mask[y * w + x] = 255;
        }
    }

    let sdf = generate_sdf_from_mask(&unit(), &mask, w as u32, h as u32, fl(10.0));
    assert_eq!(sdf.len(), 64);

    // Centre of the square should be interior (negative).
    let centre = val(sdf[3 * w + 3]);
    assert!(centre < 0.0, "centre should be inside (negative)");

    // Corner of the canvas should be exterior (positive).
    let corner = val(sdf[0]);
    assert!(corner > 0.0, "canvas corner should be outside");

    let just_outside = val(sdf[w + 2]);
    assert!(just_outside > 0.0 && just_outside < 2.0);
}

#[test]
fn test_distance_transform_1d_exact() {
    // A 1D array with a single source at index 3 should produce squared
    // distance equal to (i - 3)^2 for each i.
    let mut f: Vec<Option<i128>> = vec![None; 7];
    f[3] = Some(0);
    let out = distance_transform_1d(&f);
    for (i, &value) in out.iter().enumerate() {
        let signed_i = i as i128 - 3;
        assert_eq!(value, Some(signed_i * signed_i), "idx {i}");
    }
}

#[test]
fn test_distance_transform_1d_multiple_sources() {
    // Two sources at ends: each pixel's distance is to the nearest one.
    let mut f: Vec<Option<i128>> = vec![None; 7];
    f[0] = Some(0);
    f[6] = Some(0);
    let out = distance_transform_1d(&f);
    // pixel 3 is equidistant (3 each way) → 9.
    assert_eq!(out[3], Some(9));
    // pixel 2 is 2 from 0 → 4.
    assert_eq!(out[2], Some(4));
}

#[test]
fn a_line_without_sources_has_no_distances() {
    assert_eq!(distance_transform_1d(&vec![None, None]), vec![None, None]);
    assert!(distance_transform_1d(&Vec::new()).is_empty());
}

#[test]
fn a_full_mask_has_no_edge() {
    let es = edge_distances(&[255, 255], 2, 1);
    assert!(es.iter().all(|e| e.inside && e.squared.is_none()));
    let sdf = generate_sdf_from_mask(&unit(), &[255, 255], 2, 1, fl(4.0));
    assert_eq!(sdf, vec![fl(-4.0), fl(-4.0)]);
}

#[test]
fn test_sdf_generation_scales_linearly() {
    let w = 32;
    let h = 32;
    let mut mask = vec![0u8; w * h];
    mask[16 * w + 16] = 255; // single interior pixel

    let sdf = generate_sdf_from_mask(&unit(), &mask, w as u32, h as u32, fl(100.0));
    // The inside pixel has nearest outside at distance 1; with the
    // half-texel edge correction the signed distance is -(1 - 0.5) = -0.5.
    let inside = val(sdf[16 * w + 16]);
    assert!((inside + 0.5).abs() < 1e-4, "expected -0.5, got {inside}");
    // A pixel three away (outside): distance-to-inside 3 -> 3 - 0.5 = 2.5.
    let three_away = val(sdf[16 * w + 19]);
    assert!(
        (three_away - 2.5).abs() < 1e-4,
        "expected ~2.5, got {three_away}"
    );
}

#[test]
fn test_sdf_edge_offset_straddles_zero() {
    let w = 8;
    let h = 8;
    let mut mask = vec![0u8; w * h];
    for y in 0..h {
        for x in 4..w {
            mask[y * w + x] = 255; // right half filled
        }
    }
    let sdf = generate_sdf_from_mask(&unit(), &mask, w as u32, h as u32, fl(10.0));
    // Column 4 is the first inside column; column 3 is the last outside.
    let inside_edge = val(sdf[3 * w + 4]);
    let outside_edge = val(sdf[3 * w + 3]);
    assert!(
        (inside_edge + 0.5).abs() < 1e-4,
        "inside edge ~ -0.5, got {inside_edge}"
    );
    assert!(
        (outside_edge - 0.5).abs() < 1e-4,
        "outside edge ~ +0.5, got {outside_edge}"
    );
}

#[test]
fn test_generate_sdf_from_mask_packs_inside_high() {
    // End-to-end: a filled region must pack to HIGH texels, background low.
    let w = 8;
    let h = 8;
    let mut mask = vec![0u8; w * h];
    for y in 2..6 {
        for x in 2..6 {
            mask[y * w + x] = 255;
        }
    }
    let sdf = generate_sdf_from_mask(&unit(), &mask, w as u32, h as u32, fl(8.0));
    let tex = sdf_to_texture(&unit(), &sdf, fl(8.0));
    assert!(tex[3 * w + 3] > 128, "inside texel must be high");
    assert!(tex[0] < 128, "outside texel must be low");
}

#[test]
fn test_sdf_text_batch() {
    let params = SdfRenderParams::default();
    let mut batch = SdfTextBatch::new(params);

    assert!(batch.is_empty());

    let metrics = SdfGlyphMetrics {
        uv: [fl(0.0), fl(0.0), fl(0.1), fl(0.1)],
        offset: Point { x: fl(0.0), y: fl(-10.0) },
        size: [fl(16.0), fl(20.0)],
        advance: fl(10.0),
        spread: fl(8.0),
    };

    batch.add_glyph(
        &unit(),
        &metrics,
        Point { x: fl(100.0), y: fl(100.0) },
        fl(2.0),
        [fl(1.0); 4],
    );

    assert_eq!(batch.len(), 1);
    assert_eq!(batch.instances[0].size, [fl(32.0), fl(40.0)]); // Scaled by 2
    assert_eq!(batch.instances[0].position, Point { x: fl(100.0), y: fl(80.0) });
    batch.clear();
    assert!(batch.is_empty());
}

#[test]
fn bytes_behind_the_mask_do_not_count() {
    let short = generate_sdf_from_mask(&unit(), &[255, 0], 2, 1, fl(4.0));
    let long = generate_sdf_from_mask(&unit(), &[255, 0, 255, 255], 2, 1, fl(4.0));
    assert_eq!(short, long);
    assert_eq!(long.len(), 2);
}
