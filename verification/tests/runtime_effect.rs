use std::sync::Arc;

use skia_rs::arith::{FloatOp, FloatUnit, Machine};
use skia_rs::effect_text::rewrite_f16_to_f32;
use skia_rs::geometry::{Color4f, Point};
use skia_rs::runtime_effect::{
    RuntimeEffect, RuntimeEffectError, RuntimeShader, ShaderTarget, spirv_result,
};
use skia_rs::shader::{LinearGradient, Shader, ShaderRef, TileMode};
use skia_rs::shaders;
use skia_rs::spirv::SpirvStage;
use skia_rs::uniforms::UniformData;

fn fl(x: f32) -> u32 {
    x.to_bits()
}

fn compute(op: FloatOp, a: u32, b: u32, c: u32) -> u32 {
    let x = f32::from_bits(a);
    let y = f32::from_bits(b);
    let z = f32::from_bits(c);
    let r = match op {
        FloatOp::Add => x + y,
        FloatOp::Sub => x - y,
        FloatOp::Mul => x * y,
        FloatOp::Div => x / y,
        FloatOp::MulAdd => x.mul_add(y, z),
        FloatOp::Floor => x.floor(),
        FloatOp::Ceil => x.ceil(),
        FloatOp::Sin => x.sin(),
        FloatOp::Cos => x.cos(),
        FloatOp::Tan => x.tan(),
        FloatOp::Asin => x.asin(),
        FloatOp::Acos => x.acos(),
        FloatOp::Atan => x.atan(),
        FloatOp::Atan2 => x.atan2(y),
        FloatOp::Exp => x.exp(),
        FloatOp::Exp2 => x.exp2(),
        FloatOp::Ln => x.ln(),
        FloatOp::Log2 => x.log2(),
        FloatOp::Sqrt => x.sqrt(),
        FloatOp::Pow => x.powf(y),
        FloatOp::Radians => x.to_radians(),
        FloatOp::Degrees => x.to_degrees(),
        FloatOp::Rem => x.rem_euclid(y),
        FloatOp::Hypot => x.hypot(y),
        FloatOp::Blend => (y - x).mul_add(z, x),
        FloatOp::Round => x.round(),
        FloatOp::OfNatural => a as f32,
        FloatOp::Midpoint => ((f64::from(x) + f64::from(y)) / 2.0) as f32,
        FloatOp::Fract => x.fract(),
    };
    r.to_bits()
}

type Arith = fn(FloatOp, u32, u32, u32) -> u32;

fn unit() -> FloatUnit<Arith> {
    FloatUnit { arith: compute }
}

fn literal(s: &str) -> u32 {
    s.parse::<f32>().unwrap_or(0.0).to_bits()
}

/// The color of one of the children that the tests bind.
fn child_color(s: &Shader, p: Point) -> Color4f {
    match s {
        Shader::Color(c) => c.color(),
        Shader::Linear(g) => g.color_at(&unit(), p),
        _ => Color4f { r: 0, g: 0, b: 0, a: 0 },
    }
}

fn sample(s: &RuntimeShader, x: f32, y: f32) -> [f32; 4] {
    let child = |i: usize, x: u32, y: u32| -> [u32; 4] {
        let c = child_color(&s.children()[i], Point { x, y });
        [c.r, c.g, c.b, c.a]
    };
    let machine = Machine { floats: unit(), literal, sample: child };
    s.color_at(fl(x), fl(y), machine, 64).unwrap().map(f32::from_bits)
}

fn color(r: f32, g: f32, b: f32, a: f32) -> Color4f {
    Color4f { r: fl(r), g: fl(g), b: fl(b), a: fl(a) }
}

const SIMPLE_SHADER: &str = r"
        uniform float time;
        uniform vec2 resolution;

        vec4 main(vec2 fragCoord) {
            vec2 uv = fragCoord / resolution;
            return vec4(uv.x, uv.y, sin(time), 1.0);
        }
    ";

#[test]
fn test_make_effect() {
    let effect = RuntimeEffect::make_for_shader(SIMPLE_SHADER).unwrap();

    assert_eq!(effect.uniforms().len(), 2);
    assert!(effect.find_uniform("time").is_some());
    assert!(effect.find_uniform("resolution").is_some());
}

#[test]
fn test_uniforms_pack_tightly_no_16_byte_alignment() {
    // Uniforms are packed back to back.
    // A float followed by a vec4 sits at offsets 0 and 4 (not 16),
    // total size 20.
    let src = r"
        uniform float a;
        uniform vec4 b;
        vec4 main(vec2 coord) { return b * a; }
    ";
    let effect = RuntimeEffect::make_for_shader(src).unwrap();
    let a = effect.find_uniform("a").unwrap();
    let b = effect.find_uniform("b").unwrap();
    assert_eq!(a.offset, 0);
    assert_eq!(b.offset, 4, "vec4 must pack tightly after float");
    assert_eq!(effect.uniform_size(), 20);
}

#[test]
fn test_uniform_mat3_packs_tightly() {
    // mat3 is 36 bytes; a following float sits at offset 40 (4 + 36).
    let src = r"
        uniform float a;
        uniform mat3 m;
        uniform float c;
        vec4 main(vec2 coord) { return vec4(a + c); }
    ";
    let effect = RuntimeEffect::make_for_shader(src).unwrap();
    assert_eq!(effect.find_uniform("m").unwrap().offset, 4);
    assert_eq!(effect.find_uniform("c").unwrap().offset, 40);
    assert_eq!(effect.uniform_size(), 44);
}

#[test]
fn test_child_shaders_are_not_uniforms() {
    // `uniform shader s;` declares a child, not a data uniform: it must
    // not appear in uniforms() nor contribute to uniform_size().
    let src = r"
        uniform shader child;
        uniform float x;
        vec4 main(vec2 coord) { return vec4(x); }
    ";
    let effect = RuntimeEffect::make_for_shader(src).unwrap();
    assert_eq!(effect.uniforms().len(), 1, "only x is a data uniform");
    assert!(effect.find_uniform("child").is_none());
    assert_eq!(effect.find_uniform("x").unwrap().offset, 0);
    assert_eq!(effect.uniform_size(), 4);
    assert_eq!(effect.children().len(), 1);
    assert_eq!(effect.children()[0].name, "child");
}

#[test]
fn test_uniform_data() {
    let effect = RuntimeEffect::make_for_shader(SIMPLE_SHADER).unwrap();
    let mut data = UniformData::from_effect(&effect);

    let time_uniform = effect.find_uniform("time").unwrap();
    data.set_float(time_uniform.offset, 1.5f32.to_bits());
    assert!((f32::from_bits(data.get_float(time_uniform.offset)) - 1.5).abs() < 0.001);
}

#[test]
fn test_compile_glsl() {
    let mut effect = RuntimeEffect::make_for_shader(SIMPLE_SHADER).unwrap();
    let glsl = effect.compile_to(ShaderTarget::GlslEs300).unwrap();

    assert!(glsl.contains("#version 300 es"));
    assert!(glsl.contains("uniform float time"));
    assert!(glsl.contains("uniform vec2 resolution"));
}

#[test]
fn test_compile_wgsl() {
    let mut effect = RuntimeEffect::make_for_shader(SIMPLE_SHADER).unwrap();
    let wgsl = effect.compile_to(ShaderTarget::Wgsl).unwrap();

    assert!(wgsl.contains("struct Uniforms"));
    assert!(wgsl.contains("time: f32"));
}

#[test]
fn test_compile_msl() {
    let mut effect = RuntimeEffect::make_for_shader(SIMPLE_SHADER).unwrap();
    let msl = effect.compile_to(ShaderTarget::Msl).unwrap();

    assert!(msl.contains("#include <metal_stdlib>"));
    assert!(msl.contains("struct Uniforms"));
}

#[test]
fn test_wgsl_if_statement() {
    let src = r"
        vec4 main(vec2 fragCoord) {
            float result = 0.0;
            if (fragCoord.x > 0.5) {
                result = 1.0;
            } else {
                result = 0.5;
            }
            return vec4(result, 0.0, 0.0, 1.0);
        }
    ";
    let mut effect = RuntimeEffect::make_for_shader(src).unwrap();
    let wgsl = effect.compile_to(ShaderTarget::Wgsl).unwrap();

    assert!(wgsl.contains("if ("), "WGSL should contain if statement");
    assert!(wgsl.contains("else"), "WGSL should contain else branch");
    assert!(
        !wgsl.contains("Unsupported"),
        "WGSL should not contain unsupported stubs: {wgsl}"
    );
}

#[test]
fn test_wgsl_for_loop() {
    let src = r"
        vec4 main(vec2 fragCoord) {
            float sum = 0.0;
            for (int i = 0; i < 4; i = i + 1) {
                sum = sum + 1.0;
            }
            return vec4(sum, 0.0, 0.0, 1.0);
        }
    ";
    let mut effect = RuntimeEffect::make_for_shader(src).unwrap();
    let wgsl = effect.compile_to(ShaderTarget::Wgsl).unwrap();

    assert!(wgsl.contains("for ("), "WGSL should contain for loop");
    assert!(
        !wgsl.contains("Unsupported"),
        "WGSL for loop should compile: {wgsl}"
    );
}

#[test]
fn test_wgsl_while_loop() {
    let src = r"
        vec4 main(vec2 fragCoord) {
            int i = 0;
            while (i < 3) {
                i = i + 1;
            }
            return vec4(0.0, 0.0, 0.0, 1.0);
        }
    ";
    let mut effect = RuntimeEffect::make_for_shader(src).unwrap();
    let wgsl = effect.compile_to(ShaderTarget::Wgsl).unwrap();

    assert!(
        wgsl.contains("loop {"),
        "WGSL should translate while to loop"
    );
    assert!(wgsl.contains("break;"), "WGSL loop should contain break");
    assert!(
        !wgsl.contains("Unsupported"),
        "WGSL while should compile: {wgsl}"
    );
}

#[test]
fn test_wgsl_ternary() {
    let src = r"
        vec4 main(vec2 fragCoord) {
            float x = fragCoord.x > 0.5 ? 1.0 : 0.0;
            return vec4(x, 0.0, 0.0, 1.0);
        }
    ";
    let mut effect = RuntimeEffect::make_for_shader(src).unwrap();
    let wgsl = effect.compile_to(ShaderTarget::Wgsl).unwrap();

    assert!(
        wgsl.contains("select("),
        "WGSL should translate ternary to select()"
    );
    assert!(!wgsl.contains('?'), "WGSL should not use ternary operator");
    assert!(
        !wgsl.contains("unsupported"),
        "WGSL ternary should compile: {wgsl}"
    );
}

#[test]
fn test_msl_uses_float4() {
    let src = r"
        vec4 main(vec2 fragCoord) {
            return vec4(1.0, 0.0, 0.0, 1.0);
        }
    ";
    let mut effect = RuntimeEffect::make_for_shader(src).unwrap();
    let msl = effect.compile_to(ShaderTarget::Msl).unwrap();

    assert!(
        msl.contains("float4"),
        "MSL should use float4 instead of vec4: {msl}"
    );
    assert!(!msl.contains("vec4"), "MSL should not contain vec4: {msl}");
}

#[test]
fn test_msl_if_statement() {
    let src = r"
        vec4 main(vec2 fragCoord) {
            if (fragCoord.x > 0.5) {
                return vec4(1.0, 0.0, 0.0, 1.0);
            }
            return vec4(0.0, 0.0, 0.0, 1.0);
        }
    ";
    let mut effect = RuntimeEffect::make_for_shader(src).unwrap();
    let msl = effect.compile_to(ShaderTarget::Msl).unwrap();

    assert!(msl.contains("if ("), "MSL should contain if statement");
    assert!(
        msl.contains("return"),
        "MSL should contain return statements"
    );
}

#[test]
fn test_msl_for_loop() {
    let src = r"
        vec4 main(vec2 fragCoord) {
            float sum = 0.0;
            for (int i = 0; i < 3; i = i + 1) {
                sum = sum + 1.0;
            }
            return vec4(sum, 0.0, 0.0, 1.0);
        }
    ";
    let mut effect = RuntimeEffect::make_for_shader(src).unwrap();
    let msl = effect.compile_to(ShaderTarget::Msl).unwrap();

    assert!(msl.contains("for ("), "MSL should contain for loop");
    assert!(msl.contains("float4"), "MSL should use float4");
}

#[test]
fn test_msl_discard() {
    let src = r"
        vec4 main(vec2 fragCoord) {
            if (fragCoord.x < 0.0) {
                discard;
            }
            return vec4(1.0, 0.0, 0.0, 1.0);
        }
    ";
    let mut effect = RuntimeEffect::make_for_shader(src).unwrap();
    let msl = effect.compile_to(ShaderTarget::Msl).unwrap();

    assert!(
        msl.contains("discard_fragment()"),
        "MSL should translate discard to discard_fragment(): {msl}"
    );
    assert!(
        !msl.contains("discard;"),
        "MSL should not use GLSL discard syntax"
    );
}

#[test]
fn test_runtime_effect_caches_glsl() {
    let src = "half4 main(float2 p) { return half4(1.0, 0.0, 0.0, 1.0); }";
    let mut effect = RuntimeEffect::make_for_shader(src).unwrap();
    let a = effect.compile_to(ShaderTarget::GlslEs300).unwrap();
    let b = effect.compile_to(ShaderTarget::GlslEs300).unwrap();
    assert_eq!(a, b, "Cached GLSL should be identical");
}

#[test]
fn test_runtime_effect_caches_wgsl() {
    let src = "half4 main(float2 p) { return half4(1.0, 0.0, 0.0, 1.0); }";
    let mut effect = RuntimeEffect::make_for_shader(src).unwrap();
    let a = effect.compile_to(ShaderTarget::Wgsl).unwrap();
    let b = effect.compile_to(ShaderTarget::Wgsl).unwrap();
    assert_eq!(a, b, "Cached WGSL should be identical");
}

#[test]
fn test_runtime_effect_caches_msl() {
    let src = "half4 main(float2 p) { return half4(1.0, 0.0, 0.0, 1.0); }";
    let mut effect = RuntimeEffect::make_for_shader(src).unwrap();
    let a = effect.compile_to(ShaderTarget::Msl).unwrap();
    let b = effect.compile_to(ShaderTarget::Msl).unwrap();
    assert_eq!(a, b, "Cached MSL should be identical");
}

#[test]
fn test_compile_to_spirv_produces_words() {
    let src = "vec4 main(vec2 p) { return vec4(1.0, 0.0, 0.0, 1.0); }";
    let mut effect = RuntimeEffect::make_for_shader(src).unwrap();
    let words = effect.compile_to_spirv().unwrap_or_else(|e| {
        panic!("SPIR-V compile failed: {}", e.message());
    });
    assert!(!words.is_empty(), "SPIR-V output should not be empty");
    // SPIR-V magic number is 0x0723_0203 at index 0.
    assert_eq!(
        words[0], 0x0723_0203,
        "SPIR-V magic word missing (got {:#010x})",
        words[0]
    );
}

#[test]
fn test_compile_to_spirv_via_target() {
    let src = "vec4 main(vec2 p) { return vec4(0.5, 0.5, 0.5, 1.0); }";
    let mut effect = RuntimeEffect::make_for_shader(src).unwrap();
    let hex = effect
        .compile_to(ShaderTarget::SpirV)
        .unwrap_or_else(|e| panic!("SpirV target compile failed: {}", e.message()));
    // First word should be the SPIR-V magic number encoded as
    // little-endian hex.
    assert!(
        hex.starts_with("07230203"),
        "expected SPIR-V magic in hex output, got: {}",
        &hex[..32.min(hex.len())]
    );
}

#[test]
fn test_runtime_effect_caches_spirv() {
    let src = "vec4 main(vec2 p) { return vec4(1.0, 0.0, 0.0, 1.0); }";
    let mut effect = RuntimeEffect::make_for_shader(src).unwrap();
    let a = effect.compile_to_spirv().unwrap();
    let b = effect.compile_to_spirv().unwrap();
    assert_eq!(a, b, "Cached SPIR-V should be identical");
}

#[test]
fn test_compile_to_spirv_with_uniforms() {
    let src = r"
        uniform float scale;
        uniform vec2 offset;
        vec4 main(vec2 p) {
            return vec4((p + offset) * scale, 0.0, 1.0);
        }
    ";
    let mut effect = RuntimeEffect::make_for_shader(src).unwrap();
    let words = effect.compile_to_spirv().unwrap_or_else(|e| {
        panic!("SPIR-V compile with uniforms failed: {}", e.message());
    });
    assert_eq!(words[0], 0x0723_0203);
}

#[test]
fn test_runtime_effect_rejects_wrong_main_for_color_filter() {
    // main(vec2) but declared as ColorFilter (should want main(vec4))
    let src = "half4 main(float2 p) { return half4(0.0); }";
    let result = RuntimeEffect::make_for_color_filter(src);
    assert!(
        result.is_err(),
        "ColorFilter main with vec2 param should be rejected"
    );
}

#[test]
fn test_runtime_effect_rejects_wrong_main_for_blender() {
    // main(vec2) but declared as Blender (should want main(vec4, vec4))
    let src = "half4 main(float2 p) { return half4(0.0); }";
    let result = RuntimeEffect::make_for_blender(src);
    assert!(
        result.is_err(),
        "Blender main with vec2 param should be rejected"
    );
}

#[test]
fn test_runtime_effect_accepts_valid_shader() {
    let src = "half4 main(float2 p) { return half4(1.0, 0.0, 0.0, 1.0); }";
    let result = RuntimeEffect::make_for_shader(src);
    assert!(result.is_ok(), "Valid shader main should be accepted");
}

#[test]
fn test_runtime_effect_accepts_valid_color_filter() {
    let src = "half4 main(half4 color) { return color * 0.5; }";
    let result = RuntimeEffect::make_for_color_filter(src);
    assert!(result.is_ok(), "Valid color filter main should be accepted");
}

#[test]
fn test_runtime_effect_accepts_valid_blender() {
    let src = "half4 main(half4 src, half4 dst) { return src + dst; }";
    let result = RuntimeEffect::make_for_blender(src);
    assert!(result.is_ok(), "Valid blender main should be accepted");
}

#[test]
fn test_validation_rejects_undeclared_variable() {
    let src = r"
        vec4 main(vec2 coord) {
            return vec4(undeclared, 0.0, 0.0, 1.0);
        }
    ";
    let result = RuntimeEffect::make_for_shader(src);
    assert!(
        matches!(result, Err(RuntimeEffectError::ValidationFailed(_))),
        "undeclared variable should surface as ValidationFailed, got {result:?}"
    );
}

#[test]
fn test_validation_rejects_arity_mismatch() {
    let src = r"
        float square(float x) { return x * x; }
        vec4 main(vec2 coord) {
            return vec4(square(1.0, 2.0), 0.0, 0.0, 1.0);
        }
    ";
    let result = RuntimeEffect::make_for_shader(src);
    assert!(
        matches!(result, Err(RuntimeEffectError::ValidationFailed(_))),
        "arity mismatch should surface as ValidationFailed, got {result:?}"
    );
}

#[test]
fn test_validation_rejects_type_mismatch_in_initializer() {
    let src = r"
        vec4 main(vec2 coord) {
            float x = vec2(1.0, 2.0);
            return vec4(x, 0.0, 0.0, 1.0);
        }
    ";
    let result = RuntimeEffect::make_for_shader(src);
    assert!(
        matches!(result, Err(RuntimeEffectError::ValidationFailed(_))),
        "type mismatch should surface as ValidationFailed, got {result:?}"
    );
}

#[test]
fn test_parse_accepts_layout_qualifier() {
    let src = "layout(color) uniform half4 tint;\nhalf4 main(float2 p) { return tint; }";
    let result = RuntimeEffect::make_for_shader(src);
    assert!(
        result.is_ok(),
        "layout(color) should parse, got {:?}",
        result.err()
    );
}

#[test]
fn test_glsl_output_syntactically_plausible() {
    let src = "half4 main(float2 p) { return half4(1.0, 0.0, 0.0, 1.0); }";
    let mut effect = RuntimeEffect::make_for_shader(src).unwrap();
    let glsl = effect.compile_to(ShaderTarget::GlslEs300).unwrap();
    // Basic syntax checks
    assert!(
        glsl.contains("void main") || glsl.contains("vec4 main"),
        "GLSL should contain a main function"
    );
    assert_eq!(
        glsl.matches('{').count(),
        glsl.matches('}').count(),
        "braces should balance"
    );
    assert_eq!(
        glsl.matches('(').count(),
        glsl.matches(')').count(),
        "parens should balance"
    );
}

#[test]
fn test_wgsl_output_parses_via_naga() {
    // If naga is available, use it to validate the WGSL output
    let src = "half4 main(float2 p) { return half4(p.x, p.y, 0.0, 1.0); }";
    let mut effect = RuntimeEffect::make_for_shader(src).unwrap();
    let wgsl = effect.compile_to(ShaderTarget::Wgsl).unwrap();
    // naga is a dep thanks to SPIR-V task
    let parsed = naga::front::wgsl::parse_str(&wgsl);
    // May reject due to missing entry attributes — accept either outcome
    // but log if it fails
    if parsed.is_err() {
        println!(
            "Note: WGSL output not directly naga-parseable (may need entry attributes). Output:\n{wgsl}"
        );
    }
}

#[test]
fn test_msl_uses_float4_not_vec4() {
    let src = "half4 main(float2 p) { return half4(1.0, 0.0, 0.0, 1.0); }";
    let mut effect = RuntimeEffect::make_for_shader(src).unwrap();
    let msl = effect.compile_to(ShaderTarget::Msl).unwrap();
    // MSL should use float4 (if half4 is in source, at least internal vec types should be float/half4)
    assert!(
        msl.contains("float4") || msl.contains("half4"),
        "MSL should use float4 or half4 syntax:\n{msl}"
    );
}

#[test]
fn test_child_shader_eval_samples_child() {
    let src = r"
        uniform shader child;
        half4 main(float2 coord) {
            half4 c = child.eval(coord);
            return c * 0.5;
        }
    ";
    let effect = Arc::new(RuntimeEffect::make_for_shader(src).unwrap());
    let uniforms = UniformData::from_effect(&effect);
    let child = shaders::color(color(1.0, 0.5, 0.0, 1.0));
    let shader = effect.make_shader(&uniforms, &[child]).unwrap();
    let c = sample(&shader, 3.0, 4.0);
    assert!((c[0] - 0.5).abs() < 1e-4, "child red halved, got {}", c[0]);
    assert!((c[1] - 0.25).abs() < 1e-4, "child green halved, got {}", c[1]);
    assert!((c[3] - 0.5).abs() < 1e-4, "child alpha halved, got {}", c[3]);
}

#[test]
fn test_child_shader_eval_uses_coords() {
    // The child must be sampled at the coordinates passed to eval().
    let src = r"
        uniform shader child;
        half4 main(float2 coord) {
            return child.eval(coord * 2.0);
        }
    ";
    let effect = Arc::new(RuntimeEffect::make_for_shader(src).unwrap());
    let uniforms = UniformData::from_effect(&effect);
    // Opaque linear gradient black -> white over x in [0, 10].
    let child: ShaderRef = Arc::new(Shader::Linear(LinearGradient::new(
        Point { x: fl(0.0), y: fl(0.0) },
        Point { x: fl(10.0), y: fl(0.0) },
        vec![color(0.0, 0.0, 0.0, 1.0), color(1.0, 1.0, 1.0, 1.0)],
        None,
        TileMode::Clamp,
    )));
    let shader = effect.make_shader(&uniforms, &[child]).unwrap();
    // sample at x=2.5 -> child sampled at x=5 -> t=0.5.
    let c = sample(&shader, 2.5, 0.0);
    assert!((c[0] - 0.5).abs() < 1e-3, "child sampled at doubled coord, got {}", c[0]);
}

#[test]
fn test_make_shader() {
    let effect = Arc::new(RuntimeEffect::make_for_shader(SIMPLE_SHADER).unwrap());
    let mut data = UniformData::from_effect(&effect);

    data.set_float(0, fl(1.0));
    data.set_float2(4, fl(800.0), fl(600.0));

    let shader = effect.make_shader(&data, &[]).unwrap();
    assert_eq!(shader.effect().uniforms().len(), 2);
}

#[test]
fn children_must_match_their_number() {
    let effect = Arc::new(RuntimeEffect::make_for_shader(SIMPLE_SHADER).unwrap());
    let data = UniformData::from_effect(&effect);
    let child = shaders::color(color(1.0, 0.0, 0.0, 1.0));
    assert!(effect.make_shader(&data, &[child]).is_err());
}

#[test]
fn test_runtime_shader_returns_red() {
    let src = r"
        vec4 main(vec2 coord) {
            return vec4(1.0, 0.0, 0.0, 1.0);
        }
    ";
    let effect = Arc::new(RuntimeEffect::make_for_shader(src).unwrap());
    let data = UniformData::from_effect(&effect);
    let shader = effect.make_shader(&data, &[]).unwrap();
    let c = sample(&shader, 10.0, 20.0);
    assert!((c[0] - 1.0).abs() < 1e-3, "r should be 1.0, got {}", c[0]);
    assert!((c[1] - 0.0).abs() < 1e-3, "g should be 0.0, got {}", c[1]);
    assert!((c[2] - 0.0).abs() < 1e-3, "b should be 0.0, got {}", c[2]);
    assert!((c[3] - 1.0).abs() < 1e-3, "a should be 1.0, got {}", c[3]);
}

#[test]
fn test_runtime_shader_uses_coord() {
    // The returned color should depend on the sampled coordinate.
    let src = r"
        vec4 main(vec2 coord) {
            return vec4(coord.x, coord.y, 0.0, 1.0);
        }
    ";
    let effect = Arc::new(RuntimeEffect::make_for_shader(src).unwrap());
    let data = UniformData::from_effect(&effect);
    let shader = effect.make_shader(&data, &[]).unwrap();
    let c = sample(&shader, 0.25, 0.75);
    assert!((c[0] - 0.25).abs() < 1e-3);
    assert!((c[1] - 0.75).abs() < 1e-3);
}

#[test]
fn test_runtime_shader_uses_uniform() {
    // Uniform values should feed into the shader through the interpreter.
    let src = r"
        uniform float scale;
        vec4 main(vec2 coord) {
            return vec4(coord.x * scale, 0.0, 0.0, 1.0);
        }
    ";
    let effect = Arc::new(RuntimeEffect::make_for_shader(src).unwrap());
    let mut data = UniformData::from_effect(&effect);
    let u = effect.find_uniform("scale").unwrap();
    data.set_float(u.offset, fl(2.0));
    let shader = effect.make_shader(&data, &[]).unwrap();
    let c = sample(&shader, 0.5, 0.0);
    assert!((c[0] - 1.0).abs() < 1e-3, "expected scale * x = 1.0, got {}", c[0]);
}

#[test]
fn test_runtime_color_filter_inverts() {
    let src = r"
        vec4 main(vec4 color) {
            return vec4(1.0 - color.x, 1.0 - color.y, 1.0 - color.z, color.w);
        }
    ";
    let effect = Arc::new(RuntimeEffect::make_for_color_filter(src).unwrap());
    let data = UniformData::from_effect(&effect);
    let filter = effect.make_color_filter(&data).unwrap();
    let none = |_: usize, _: u32, _: u32| -> [u32; 4] { [0; 4] };
    let machine = Machine { floats: unit(), literal, sample: none };
    let input = [fl(0.2), fl(0.3), fl(0.4), fl(1.0)];
    let out = filter.filter_color(input, machine, 64).unwrap().map(f32::from_bits);
    assert!((out[0] - 0.8).abs() < 1e-3);
    assert!((out[1] - 0.7).abs() < 1e-3);
    assert!((out[2] - 0.6).abs() < 1e-3);
    assert!((out[3] - 1.0).abs() < 1e-3);
}

#[test]
fn uniforms_are_written_word_by_word() {
    let effect = RuntimeEffect::make_for_shader(
        "uniform float3 a; uniform int n; uniform half4 c; \
         half4 main(float2 p) { return half4(c.r, c.g, c.b, c.a); }",
    )
    .unwrap();
    let mut data = UniformData::from_effect(&effect);
    let at = |i: usize| effect.uniforms()[i].offset;
    data.set_float3(at(0), fl(1.0), fl(2.0), fl(3.0));
    data.set_int(at(1), -2);
    data.set_color(at(2), [fl(0.25), fl(0.5), fl(0.75), fl(1.0)]);
    let word = |o: usize| {
        let b = data.data();
        u32::from_le_bytes([b[o], b[o + 1], b[o + 2], b[o + 3]])
    };
    assert_eq!(word(at(0) + 8), fl(3.0));
    assert_eq!(word(at(1)), 0xffff_fffe);
    assert_eq!(word(at(2)), fl(0.25));
    assert_eq!(word(at(2) + 12), fl(1.0));
    assert!(effect.uniforms()[0].ty.is_float());
    assert!(!effect.uniforms()[1].ty.is_float());
}

#[test]
fn f16_is_rewritten_only_as_a_token() {
    assert_eq!(rewrite_f16_to_f32("é f16"), "é f32");
    assert_eq!(rewrite_f16_to_f32("vec2<f16>(x)"), "vec2<f32>(x)");
    assert_eq!(rewrite_f16_to_f32("f16foo xf16 _f16 f16_ f161"), "f16foo xf16 _f16 f16_ f161");
    assert_eq!(rewrite_f16_to_f32("f16"), "f32");
    assert_eq!(rewrite_f16_to_f32("f16 f16,f16"), "f32 f32,f32");
    assert_eq!(rewrite_f16_to_f32(""), "");
}

#[test]
fn spirv_words_are_made_once() {
    let mut effect = RuntimeEffect::make_for_shader(SIMPLE_SHADER).unwrap();
    let words = effect.compile_to_spirv().unwrap();
    assert_eq!(words[0], 0x0723_0203);
    assert!(words.len() >= 5);
    assert_eq!(effect.compile_to_spirv().unwrap(), words);
    let text = effect.compile_to(ShaderTarget::SpirV).unwrap();
    assert!(text.starts_with("07230203"));
    assert_eq!(effect.compile_to(ShaderTarget::SpirV).unwrap(), text);
}

const TOO_LARGE: &str = "the program is too large, nests too deep or has too intricate constants";

fn body(e: &str) -> RuntimeEffect {
    let source = format!("vec4 main(vec2 p) {{ {e} }}");
    RuntimeEffect::make_for_shader(&source).unwrap()
}

#[test]
fn intricate_constants_are_not_made_spirv() {
    for e in [
        "return true ? vec4(vec2(1.0, 2.0), vec2(3.0, 4.0)) : vec4(vec2(0.0, 0.0), vec2(1.0, 1.0));",
        "return mat4(1.0) * vec4(1.0, 2.0, 3.0, 4.0);",
        "mat2 m = mat2(1.0, 0.0, 0.0, 1.0) * mat2(1.0, 2.0, 3.0, 4.0); return vec4(1.0);",
    ] {
        let mut effect = body(e);
        let message = effect.compile_to_spirv().unwrap_err().message();
        assert!(message.contains(TOO_LARGE), "{e}: {message}");
        assert!(effect.compile_to(ShaderTarget::SpirV).is_err());
        assert!(effect.compile_to(ShaderTarget::Wgsl).is_ok());
    }
    for e in [
        "return true ? vec4(1.0, 2.0, 3.0, 4.0) : vec4(0.0, 0.0, 1.0, 1.0);",
        "return p.x > 0.5 ? vec4(vec2(1.0, 2.0), vec2(3.0, 4.0)) : vec4(vec2(0.0, 0.0), p);",
        "return vec4(vec2(1.0, 2.0), vec2(3.0, 4.0)) * p.x;",
    ] {
        let words = body(e).compile_to_spirv().unwrap();
        assert_eq!(words[0], 0x0723_0203);
    }
}

#[test]
fn refused_effects_are_refused_again() {
    let mut effect = body("return vec4(p, 0.0);");
    let first = effect.compile_to_spirv().unwrap_err().message();
    assert!(first.contains("naga"), "{first}");
    assert!(!first.contains(TOO_LARGE));
    assert_eq!(effect.compile_to_spirv().unwrap_err().message(), first);
    assert!(effect.compile_to(ShaderTarget::SpirV).is_err());
}

#[test]
fn deep_programs_are_not_made_spirv() {
    let sum = |n: usize| {
        let mut e = String::from("p.x");
        for _ in 0..n {
            e = format!("({e} + 1.0)");
        }
        let source = format!("half4 main(float2 p) {{ return half4({e}, 0.0, 0.0, 1.0); }}");
        RuntimeEffect::make_for_shader(&source).unwrap()
    };
    assert!(sum(90).compile_to_spirv().is_ok());
    let message = sum(120).compile_to_spirv().unwrap_err().message();
    assert!(message.contains(TOO_LARGE), "{message}");
    assert!(sum(120).compile_to(ShaderTarget::SpirV).is_err());
    assert!(sum(120).compile_to(ShaderTarget::Wgsl).is_ok());
}

#[test]
fn each_spirv_stage_has_its_error() {
    let fail = |stage| {
        spirv_result(Err((stage, String::from("why"))), "text").unwrap_err().message()
    };
    assert!(fail(SpirvStage::Parse).ends_with("naga WGSL parse failed: why\n---\ntext"));
    assert!(fail(SpirvStage::Validate).ends_with("naga validation failed: why"));
    assert!(fail(SpirvStage::Emit).ends_with("naga SPIR-V emit: why"));
    assert_eq!(spirv_result(Ok(vec![1, 2]), "text").unwrap(), vec![1, 2]);
}
