use skia_rs::arith::{FloatOp, FloatUnit, Machine};
use skia_rs::eval::Interp;
use skia_rs::interp::Value;
use skia_rs::sksl::lex::lex;
use skia_rs::sksl::parse::parse_program;

fn fl(x: f32) -> u32 {
    x.to_bits()
}

fn compute(op: FloatOp, a: u32, b: u32, c: u32) -> u32 {
    let x = f32::from_bits(a);
    let y = f32::from_bits(b);
    let z = f32::from_bits(c);
    let r = match op {
        FloatOp::Add => x + y,
        FloatOp::Sub => x - y,
        FloatOp::Mul => x * y,
        FloatOp::Div => x / y,
        FloatOp::MulAdd => x.mul_add(y, z),
        FloatOp::Floor => x.floor(),
        FloatOp::Ceil => x.ceil(),
        FloatOp::Sin => x.sin(),
        FloatOp::Cos => x.cos(),
        FloatOp::Tan => x.tan(),
        FloatOp::Asin => x.asin(),
        FloatOp::Acos => x.acos(),
        FloatOp::Atan => x.atan(),
        FloatOp::Atan2 => x.atan2(y),
        FloatOp::Exp => x.exp(),
        FloatOp::Exp2 => x.exp2(),
        FloatOp::Ln => x.ln(),
        FloatOp::Log2 => x.log2(),
        FloatOp::Sqrt => x.sqrt(),
        FloatOp::Pow => x.powf(y),
        FloatOp::Radians => x.to_radians(),
        FloatOp::Degrees => x.to_degrees(),
        FloatOp::Rem => x.rem_euclid(y),
        FloatOp::Hypot => x.hypot(y),
        FloatOp::Blend => (y - x).mul_add(z, x),
        FloatOp::Round => x.round(),
        FloatOp::OfNatural => a as f32,
        FloatOp::Midpoint => ((f64::from(x) + f64::from(y)) / 2.0) as f32,
        FloatOp::Fract => x.fract(),
    };
    r.to_bits()
}

type Arith = fn(FloatOp, u32, u32, u32) -> u32;

fn unit() -> FloatUnit<Arith> {
    FloatUnit { arith: compute }
}

fn literal(s: &str) -> u32 {
    s.parse::<f32>().unwrap_or(0.0).to_bits()
}

fn no_child(_: usize, _: u32, _: u32) -> [u32; 4] {
    [0; 4]
}

type Literal = fn(&str) -> u32;
type Child = fn(usize, u32, u32) -> [u32; 4];

fn machine() -> Machine<Arith, Literal, Child> {
    Machine { floats: unit(), literal, sample: no_child }
}

fn run(source: &str, arg: Value, depth: usize) -> Option<Value> {
    let chars: Vec<char> = source.chars().collect();
    let program = parse_program(&lex(&chars).unwrap()).unwrap();
    let mut interp = Interp::new(&program.functions, machine());
    interp.run_function("main", &vec![arg], depth)
}

fn run_main(source: &str, arg: Value) -> [f32; 4] {
    run(source, arg, 64).unwrap().as_vec4().map(f32::from_bits)
}

fn vec2(x: f32, y: f32) -> Value {
    Value::Vec2([fl(x), fl(y)])
}

#[test]
fn multi_component_swizzle_assignment() {
    // `c.rgb *= 0.5` must work for any swizzle lvalue.
    let v = run_main(
        r"
        vec4 main(vec2 coord) {
            vec4 c = vec4(1.0, 0.8, 0.6, 1.0);
            c.rgb *= 0.5;
            return c;
        }
        ",
        vec2(0.0, 0.0),
    );
    let out = v;
    assert!((out[0] - 0.5).abs() < 1e-5, "r halved, got {}", out[0]);
    assert!((out[1] - 0.4).abs() < 1e-5, "g halved, got {}", out[1]);
    assert!((out[2] - 0.3).abs() < 1e-5, "b halved, got {}", out[2]);
    assert!((out[3] - 1.0).abs() < 1e-5, "a untouched, got {}", out[3]);
}

#[test]
fn multi_component_swizzle_assignment_shuffled() {
    // Swizzle writes must land in the right slots even out of order.
    let v = run_main(
        r"
        vec4 main(vec2 coord) {
            vec4 c = vec4(0.0);
            c.ba = vec2(0.25, 0.75);
            return c;
        }
        ",
        vec2(0.0, 0.0),
    );
    let out = v;
    assert!((out[2] - 0.25).abs() < 1e-5, "b, got {}", out[2]);
    assert!((out[3] - 0.75).abs() < 1e-5, "a, got {}", out[3]);
    assert_eq!(out[0], 0.0);
    assert_eq!(out[1], 0.0);
}

#[test]
fn matrix_plus_matrix() {
    let v = run_main(
        r"
        vec4 main(vec2 coord) {
            mat2 a = mat2(1.0, 2.0, 3.0, 4.0);
            mat2 b = mat2(0.5, 0.5, 0.5, 0.5);
            mat2 c = a + b;
            return vec4(c[0].x, c[0].y, c[1].x, c[1].y);
        }
        ",
        vec2(0.0, 0.0),
    );
    assert_eq!(v, [1.5, 2.5, 3.5, 4.5]);
}

#[test]
fn matrix_minus_matrix() {
    let v = run_main(
        r"
        vec4 main(vec2 coord) {
            mat2 a = mat2(1.0, 2.0, 3.0, 4.0);
            mat2 c = a - mat2(1.0, 1.0, 1.0, 1.0);
            return vec4(c[0].x, c[0].y, c[1].x, c[1].y);
        }
        ",
        vec2(0.0, 0.0),
    );
    assert_eq!(v, [0.0, 1.0, 2.0, 3.0]);
}

#[test]
fn matrix_times_scalar_both_orders() {
    let v = run_main(
        r"
        vec4 main(vec2 coord) {
            mat2 a = mat2(1.0, 2.0, 3.0, 4.0);
            mat2 b = a * 2.0;
            mat2 c = 0.5 * a;
            return vec4(b[0].x, b[1].y, c[0].x, c[1].y);
        }
        ",
        vec2(0.0, 0.0),
    );
    assert_eq!(v, [2.0, 8.0, 0.5, 2.0]);
}

#[test]
fn vector_times_matrix() {
    // Row-vector times matrix: (v * M)[i] = dot(v, M[i]) (column i).
    let v = run_main(
        r"
        vec4 main(vec2 coord) {
            mat2 m = mat2(1.0, 2.0, 3.0, 4.0);
            vec2 v = vec2(1.0, 1.0) * m;
            return vec4(v.x, v.y, 0.0, 1.0);
        }
        ",
        vec2(0.0, 0.0),
    );
    let out = v;
    // columns are (1,2) and (3,4): dot((1,1),(1,2)) = 3, dot((1,1),(3,4)) = 7
    assert_eq!(out[0], 3.0);
    assert_eq!(out[1], 7.0);
}

#[test]
fn matrix_times_vector() {
    let v = run_main(
        r"
        vec4 main(vec2 coord) {
            mat2 m = mat2(1.0, 2.0, 3.0, 4.0);
            vec2 v = m * vec2(1.0, 1.0);
            return vec4(v.x, v.y, 0.0, 1.0);
        }
        ",
        vec2(0.0, 0.0),
    );
    let out = v;
    // M*v: rows dotted with v: (1*1 + 3*1, 2*1 + 4*1) = (4, 6)
    assert_eq!(out[0], 4.0);
    assert_eq!(out[1], 6.0);
}

#[test]
fn float_division_by_zero_is_ieee() {
    let v = run_main(
        r"
        vec4 main(vec2 coord) {
            float pos = 1.0 / 0.0;
            float neg = -1.0 / 0.0;
            float nan = 0.0 / 0.0;
            return vec4(pos, neg, nan, 1.0);
        }
        ",
        vec2(0.0, 0.0),
    );
    let out = v;
    assert!(
        out[0].is_infinite() && out[0] > 0.0,
        "1/0 = +inf, got {}",
        out[0]
    );
    assert!(
        out[1].is_infinite() && out[1] < 0.0,
        "-1/0 = -inf, got {}",
        out[1]
    );
    assert!(out[2].is_nan(), "0/0 = NaN, got {}", out[2]);
}

#[test]
fn float_mod_by_zero_is_nan() {
    let v = run_main(
        "vec4 main(vec2 c) { float m = mod(1.0, 0.0); float n = 1.0 % 0.0; return vec4(m, n, 0.0, 1.0); }",
        vec2(0.0, 0.0),
    );
    let out = v;
    assert!(out[1].is_nan(), "1.0 % 0.0 must be NaN, got {}", out[1]);
}

#[test]
fn bitwise_ops_parse_with_glsl_precedence() {
    let v = run_main(
        r"
        vec4 main(vec2 coord) {
            int a = 6 & 3;        // 2
            int b = 6 ^ 3;        // 5
            int c = 1 << 2 | 1;   // shifts bind tighter than |: 5
            int d = 4 >> 1 + 1;   // shifts below additive: 4 >> 2 = 1
            return vec4(float(a), float(b), float(c), float(d));
        }
        ",
        vec2(0.0, 0.0),
    );
    assert_eq!(v, [2.0, 5.0, 5.0, 1.0]);
}

#[test]
fn bitwise_chain_precedence() {
    // & above ^ above |: 6 & 3 ^ 5 | 8 == ((6 & 3) ^ 5) | 8 == 15
    let v = run_main(
        "vec4 main(vec2 c) { int x = 6 & 3 ^ 5 | 8; return vec4(float(x), 0.0, 0.0, 1.0); }",
        vec2(0.0, 0.0),
    );
    assert_eq!(v[0], 15.0);
}

#[test]
fn half_scalar_constructor() {
    let v = run_main(
        "vec4 main(vec2 c) { return vec4(half(0.5), 0.0, 0.0, 1.0); }",
        vec2(0.0, 0.0),
    );
    assert!((v[0] - 0.5).abs() < 1e-5);
}

#[test]
fn constant_return() {
    let v = run_main(
        "vec4 main(vec2 c) { return vec4(1.0, 0.5, 0.25, 1.0); }",
        vec2(0.0, 0.0),
    );
    assert_eq!(v, [1.0, 0.5, 0.25, 1.0]);
}

#[test]
fn arithmetic_and_swizzle() {
    let v = run_main(
        "vec4 main(vec2 c) { vec2 uv = c * 2.0 + vec2(0.1, 0.2); return vec4(uv.x, uv.y, 0.0, 1.0); }",
        vec2(0.5, 0.25),
    );
    let out = v;
    assert!((out[0] - 1.1).abs() < 1e-5);
    assert!((out[1] - 0.7).abs() < 1e-5);
}

#[test]
fn if_statement() {
    let v = run_main(
        "vec4 main(vec2 c) { if (c.x > 0.5) { return vec4(1.0, 0.0, 0.0, 1.0); } return vec4(0.0, 1.0, 0.0, 1.0); }",
        vec2(0.8, 0.0),
    );
    assert_eq!(v, [1.0, 0.0, 0.0, 1.0]);
}

#[test]
fn for_loop_sum() {
    let v = run_main(
        r"
        vec4 main(vec2 c) {
            float sum = 0.0;
            for (int i = 0; i < 4; i = i + 1) {
                sum = sum + 0.25;
            }
            return vec4(sum, 0.0, 0.0, 1.0);
        }
        ",
        vec2(0.0, 0.0),
    );
    let out = v;
    assert!((out[0] - 1.0).abs() < 1e-5);
}

#[test]
fn builtin_mix() {
    let v = run_main(
        "vec4 main(vec2 c) { return mix(vec4(0.0), vec4(1.0), 0.25); }",
        vec2(0.0, 0.0),
    );
    let out = v;
    assert!((out[0] - 0.25).abs() < 1e-5);
    assert!((out[3] - 0.25).abs() < 1e-5);
}

#[test]
fn builtin_length() {
    let v = run_main(
        "vec4 main(vec2 c) { float l = length(vec2(3.0, 4.0)); return vec4(l, 0.0, 0.0, 1.0); }",
        vec2(0.0, 0.0),
    );
    assert!((v[0] - 5.0).abs() < 1e-5);
}

#[test]
fn filter_color_inverts() {
    let v = run_main(
        "vec4 main(vec4 color) { return vec4(1.0 - color.x, 1.0 - color.y, 1.0 - color.z, color.w); }",
        Value::Vec4([fl(0.2), fl(0.3), fl(0.4), fl(1.0)]),
    );
    let out = v;
    assert!((out[0] - 0.8).abs() < 1e-5);
    assert!((out[1] - 0.7).abs() < 1e-5);
    assert!((out[2] - 0.6).abs() < 1e-5);
    assert!((out[3] - 1.0).abs() < 1e-5);
}

#[test]
fn compound_assign_and_swizzle_write() {
    let v = run_main(
        r"
        vec4 main(vec2 c) {
            vec4 col = vec4(0.0, 0.0, 0.0, 1.0);
            col.x = 0.5;
            col.y += 0.25;
            col.z = col.x * 2.0;
            return col;
        }
        ",
        vec2(0.0, 0.0),
    );
    let out = v;
    assert!((out[0] - 0.5).abs() < 1e-5);
    assert!((out[1] - 0.25).abs() < 1e-5);
    assert!((out[2] - 1.0).abs() < 1e-5);
    assert!((out[3] - 1.0).abs() < 1e-5);
}

#[test]
fn ternary_and_clamp() {
    let v = run_main(
        r"
        vec4 main(vec2 c) {
            float x = c.x > 0.5 ? 1.0 : 0.0;
            float y = clamp(c.y, 0.2, 0.8);
            return vec4(x, y, 0.0, 1.0);
        }
        ",
        vec2(0.7, 0.1),
    );
    let out = v;
    assert!((out[0] - 1.0).abs() < 1e-5);
    assert!((out[1] - 0.2).abs() < 1e-5);
}

#[test]
fn mat2_times_vec2() {
    let v = run_main(
        r"
        vec4 main(vec2 c) {
            mat2 m = mat2(1.0, 0.0, 0.0, 1.0);
            vec2 r = m * vec2(2.0, 3.0);
            return vec4(r.x, r.y, 0.0, 1.0);
        }
        ",
        vec2(0.0, 0.0),
    );
    let out = v;
    assert!((out[0] - 2.0).abs() < 1e-5);
    assert!((out[1] - 3.0).abs() < 1e-5);
}

#[test]
fn user_function_call() {
    let v = run_main(
        r"
        float square(float x) { return x * x; }
        vec4 main(vec2 c) {
            float s = square(c.x);
            return vec4(s, 0.0, 0.0, 1.0);
        }
        ",
        vec2(0.5, 0.0),
    );
    assert!((v[0] - 0.25).abs() < 1e-5);
}

#[test]
fn calls_nested_too_deep_have_no_value() {
    let source = "float f(float x) { return f(x); } vec4 main(vec2 c) { return vec4(f(1.0)); }";
    assert!(run(source, vec2(0.0, 0.0), 8).is_none());
}

#[test]
fn a_larger_depth_changes_nothing() {
    let source = "float f(float x) { return x * 2.0; } vec4 main(vec2 c) { return vec4(f(c.x)); }";
    let a = run(source, vec2(3.0, 0.0), 4).unwrap().as_vec4();
    let b = run(source, vec2(3.0, 0.0), 400).unwrap().as_vec4();
    assert_eq!(a, b);
    assert_eq!(f32::from_bits(a[0]), 6.0);
}

#[test]
fn a_loop_without_end_is_cut_off() {
    let source = "vec4 main(vec2 c) { float n = 0.0; while (true) { n += 1.0; } return vec4(n); }";
    assert_eq!(run_main(source, vec2(0.0, 0.0))[0], 10000.0);
}

#[test]
fn a_variable_of_a_block_ends_with_it() {
    let source = "vec4 main(vec2 c) { float x = 1.0; { float x = 2.0; x += 1.0; } return vec4(x); }";
    assert_eq!(run_main(source, vec2(0.0, 0.0))[0], 1.0);
}

#[test]
fn builtins_compute() {
    let source = "vec4 main(vec2 c) { return vec4(dot(vec2(1.0, 2.0), vec2(3.0, 4.0)), \
        step(0.5, 0.25), smoothstep(0.0, 2.0, 1.0), fract(1.75)); }";
    assert_eq!(run_main(source, vec2(0.0, 0.0)), [11.0, 0.0, 0.5, 0.75]);
    let source = "vec4 main(vec2 c) { return vec4(cross(vec3(1.0, 0.0, 0.0), \
        vec3(0.0, 1.0, 0.0)), max(-1.0, sign(-3.0))); }";
    assert_eq!(run_main(source, vec2(0.0, 0.0)), [0.0, 0.0, 1.0, -1.0]);
}

#[test]
fn breaks_and_continues_count() {
    let source = "vec4 main(vec2 c) { float n = 0.0; for (int i = 0; i < 10; i++) { \
        if (i == 2) { continue; } if (i == 5) { break; } n += 1.0; } return vec4(n); }";
    assert_eq!(run_main(source, vec2(0.0, 0.0))[0], 4.0);
}
