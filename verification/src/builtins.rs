//! Built-in functions of SkSL.

use vstd::prelude::*;

use crate::arith::{
    FloatOp, Machine, Unit, binary_value, dot_sum, remainder, wider,
};
use crate::float_bits::{
    ONE, bits_eq, bits_lt, bits_max, bits_min, bits_neg, float_eq, float_lt, float_max, float_min,
    magnitude, negated,
};
use crate::interp::{Value, broadcast, make_vector, spread, vec_width, vector, width_of};
use crate::sksl::ast::BinaryOp;
use crate::text::same_text;

verus! {

/// A built-in function.
#[derive(Debug, Clone, Copy, PartialEq, Eq, Structural)]
pub enum Builtin {
    /// `abs`
    Abs,
    /// `sign`
    Sign,
    /// `floor`
    Floor,
    /// `ceil`
    Ceil,
    /// `fract`
    Fract,
    /// `sin`
    Sin,
    /// `cos`
    Cos,
    /// `tan`
    Tan,
    /// `asin`
    Asin,
    /// `acos`
    Acos,
    /// `atan`
    Atan,
    /// `atan2`
    Atan2,
    /// `exp`
    Exp,
    /// `exp2`
    Exp2,
    /// `log`
    Log,
    /// `log2`
    Log2,
    /// `sqrt`
    Sqrt,
    /// `inversesqrt`
    InverseSqrt,
    /// `pow`
    Pow,
    /// `mod`
    Mod,
    /// `min`
    Min,
    /// `max`
    Max,
    /// `clamp`
    Clamp,
    /// `mix`
    Mix,
    /// `step`
    Step,
    /// `smoothstep`
    Smoothstep,
    /// `length`
    Length,
    /// `distance`
    Distance,
    /// `dot`
    Dot,
    /// `cross`
    Cross,
    /// `normalize`
    Normalize,
    /// `reflect`
    Reflect,
    /// `refract`
    Refract,
    /// `radians`
    Radians,
    /// `degrees`
    Degrees,
    /// `float`
    ToFloat,
    /// `int`
    ToInt,
    /// `bool`
    ToBool,
}

/// The built-in function of a name.
pub open spec fn builtin_named(name: Seq<char>) -> Option<Builtin> {
    if name == "abs"@ {
        Some(Builtin::Abs)
    } else if name == "sign"@ {
        Some(Builtin::Sign)
    } else if name == "floor"@ {
        Some(Builtin::Floor)
    } else if name == "ceil"@ {
        Some(Builtin::Ceil)
    } else if name == "fract"@ {
        Some(Builtin::Fract)
    } else if name == "sin"@ {
        Some(Builtin::Sin)
    } else if name == "cos"@ {
        Some(Builtin::Cos)
    } else if name == "tan"@ {
        Some(Builtin::Tan)
    } else if name == "asin"@ {
        Some(Builtin::Asin)
    } else if name == "acos"@ {
        Some(Builtin::Acos)
    } else if name == "atan"@ {
        Some(Builtin::Atan)
    } else if name == "atan2"@ {
        Some(Builtin::Atan2)
    } else if name == "exp"@ {
        Some(Builtin::Exp)
    } else if name == "exp2"@ {
        Some(Builtin::Exp2)
    } else if name == "log"@ {
        Some(Builtin::Log)
    } else if name == "log2"@ {
        Some(Builtin::Log2)
    } else if name == "sqrt"@ {
        Some(Builtin::Sqrt)
    } else if name == "inversesqrt"@ {
        Some(Builtin::InverseSqrt)
    } else if name == "pow"@ {
        Some(Builtin::Pow)
    } else if name == "mod"@ {
        Some(Builtin::Mod)
    } else if name == "min"@ {
        Some(Builtin::Min)
    } else if name == "max"@ {
        Some(Builtin::Max)
    } else if name == "clamp"@ {
        Some(Builtin::Clamp)
    } else if name == "mix"@ {
        Some(Builtin::Mix)
    } else if name == "step"@ {
        Some(Builtin::Step)
    } else if name == "smoothstep"@ {
        Some(Builtin::Smoothstep)
    } else if name == "length"@ {
        Some(Builtin::Length)
    } else if name == "distance"@ {
        Some(Builtin::Distance)
    } else if name == "dot"@ {
        Some(Builtin::Dot)
    } else if name == "cross"@ {
        Some(Builtin::Cross)
    } else if name == "normalize"@ {
        Some(Builtin::Normalize)
    } else if name == "reflect"@ {
        Some(Builtin::Reflect)
    } else if name == "refract"@ {
        Some(Builtin::Refract)
    } else if name == "radians"@ {
        Some(Builtin::Radians)
    } else if name == "degrees"@ {
        Some(Builtin::Degrees)
    } else if name == "float"@ {
        Some(Builtin::ToFloat)
    } else if name == "int"@ {
        Some(Builtin::ToInt)
    } else if name == "bool"@ {
        Some(Builtin::ToBool)
    } else {
        None
    }
}

/// The built-in function of a name.
pub fn find_builtin(name: &str) -> (r: Option<Builtin>)
    ensures
        r == builtin_named(name@),
{
    if same_text(name, "abs") {
        Some(Builtin::Abs)
    } else if same_text(name, "sign") {
        Some(Builtin::Sign)
    } else if same_text(name, "floor") {
        Some(Builtin::Floor)
    } else if same_text(name, "ceil") {
        Some(Builtin::Ceil)
    } else if same_text(name, "fract") {
        Some(Builtin::Fract)
    } else if same_text(name, "sin") {
        Some(Builtin::Sin)
    } else if same_text(name, "cos") {
        Some(Builtin::Cos)
    } else if same_text(name, "tan") {
        Some(Builtin::Tan)
    } else if same_text(name, "asin") {
        Some(Builtin::Asin)
    } else if same_text(name, "acos") {
        Some(Builtin::Acos)
    } else if same_text(name, "atan") {
        Some(Builtin::Atan)
    } else if same_text(name, "atan2") {
        Some(Builtin::Atan2)
    } else if same_text(name, "exp") {
        Some(Builtin::Exp)
    } else if same_text(name, "exp2") {
        Some(Builtin::Exp2)
    } else if same_text(name, "log") {
        Some(Builtin::Log)
    } else if same_text(name, "log2") {
        Some(Builtin::Log2)
    } else if same_text(name, "sqrt") {
        Some(Builtin::Sqrt)
    } else if same_text(name, "inversesqrt") {
        Some(Builtin::InverseSqrt)
    } else if same_text(name, "pow") {
        Some(Builtin::Pow)
    } else if same_text(name, "mod") {
        Some(Builtin::Mod)
    } else if same_text(name, "min") {
        Some(Builtin::Min)
    } else if same_text(name, "max") {
        Some(Builtin::Max)
    } else if same_text(name, "clamp") {
        Some(Builtin::Clamp)
    } else if same_text(name, "mix") {
        Some(Builtin::Mix)
    } else if same_text(name, "step") {
        Some(Builtin::Step)
    } else if same_text(name, "smoothstep") {
        Some(Builtin::Smoothstep)
    } else if same_text(name, "length") {
        Some(Builtin::Length)
    } else if same_text(name, "distance") {
        Some(Builtin::Distance)
    } else if same_text(name, "dot") {
        Some(Builtin::Dot)
    } else if same_text(name, "cross") {
        Some(Builtin::Cross)
    } else if same_text(name, "normalize") {
        Some(Builtin::Normalize)
    } else if same_text(name, "reflect") {
        Some(Builtin::Reflect)
    } else if same_text(name, "refract") {
        Some(Builtin::Refract)
    } else if same_text(name, "radians") {
        Some(Builtin::Radians)
    } else if same_text(name, "degrees") {
        Some(Builtin::Degrees)
    } else if same_text(name, "float") {
        Some(Builtin::ToFloat)
    } else if same_text(name, "int") {
        Some(Builtin::ToInt)
    } else if same_text(name, "bool") {
        Some(Builtin::ToBool)
    } else {
        None
    }
}

/// The pattern of -1.0.
pub const MINUS_ONE: u32 = 0xbf80_0000;

/// The pattern of 2.0.
pub const TWO: u32 = 0x4000_0000;

/// The pattern of 3.0.
pub const THREE: u32 = 0x4040_0000;

/// What a function of one number makes of it.
pub open spec fn of_one(u: Unit, b: Builtin, x: u32) -> u32 {
    match b {
        Builtin::Abs => magnitude(x) as u32,
        Builtin::Sign => sign_of(x),
        Builtin::Floor => (u.arith)(FloatOp::Floor, x, 0, 0),
        Builtin::Ceil => (u.arith)(FloatOp::Ceil, x, 0, 0),
        Builtin::Fract => (u.arith)(FloatOp::Sub, x, (u.arith)(FloatOp::Floor, x, 0, 0), 0),
        Builtin::Sin => (u.arith)(FloatOp::Sin, x, 0, 0),
        Builtin::Cos => (u.arith)(FloatOp::Cos, x, 0, 0),
        Builtin::Tan => (u.arith)(FloatOp::Tan, x, 0, 0),
        Builtin::Asin => (u.arith)(FloatOp::Asin, x, 0, 0),
        Builtin::Acos => (u.arith)(FloatOp::Acos, x, 0, 0),
        Builtin::Atan => (u.arith)(FloatOp::Atan, x, 0, 0),
        Builtin::Exp => (u.arith)(FloatOp::Exp, x, 0, 0),
        Builtin::Exp2 => (u.arith)(FloatOp::Exp2, x, 0, 0),
        Builtin::Log => (u.arith)(FloatOp::Ln, x, 0, 0),
        Builtin::Log2 => (u.arith)(FloatOp::Log2, x, 0, 0),
        Builtin::Sqrt => (u.arith)(FloatOp::Sqrt, x, 0, 0),
        Builtin::InverseSqrt => (u.arith)(
            FloatOp::Div,
            ONE,
            (u.arith)(FloatOp::Sqrt, x, 0, 0),
            0,
        ),
        Builtin::Radians => (u.arith)(FloatOp::Radians, x, 0, 0),
        Builtin::Degrees => (u.arith)(FloatOp::Degrees, x, 0, 0),
        _ => x,
    }
}

/// One, minus one or zero, by the sign of a number.
pub open spec fn sign_of(x: u32) -> u32 {
    if float_lt(0, x) {
        ONE
    } else if float_lt(x, 0) {
        MINUS_ONE
    } else {
        0
    }
}

/// A function of one number, component by component. A value that is neither a
/// number nor a vector stays as it is.
pub open spec fn mapped_one(u: Unit, b: Builtin, v: Value) -> Value {
    match v {
        Value::Float(_) | Value::Int(_) => Value::Float(of_one(u, b, v.scalar())),
        Value::Vec2(_) | Value::Vec3(_) | Value::Vec4(_) => vector(
            Seq::new(v.comps().len(), |i: int| of_one(u, b, v.comps()[i])),
        ),
        _ => v,
    }
}

/// What a function of two numbers makes of them.
pub open spec fn of_two(u: Unit, b: Builtin, x: u32, y: u32) -> u32 {
    match b {
        Builtin::Atan | Builtin::Atan2 => (u.arith)(FloatOp::Atan2, x, y, 0),
        Builtin::Pow => (u.arith)(FloatOp::Pow, x, y, 0),
        Builtin::Mod => if float_eq(y, 0) {
            0
        } else {
            remainder(u, x, y)
        },
        Builtin::Min => float_min(x, y),
        Builtin::Max => float_max(x, y),
        Builtin::Step => if float_lt(y, x) {
            0
        } else {
            ONE
        },
        _ => 0,
    }
}

/// A function of two numbers, component by component; a number counts for
/// every component.
pub open spec fn mapped_two(u: Unit, b: Builtin, p: Value, q: Value) -> Value {
    let w = wider(width_of(p), width_of(q));
    if w == 0 {
        Value::Float(of_two(u, b, p.scalar(), q.scalar()))
    } else {
        vector(Seq::new(w as nat, |i: int| of_two(u, b, spread(p, w)[i], spread(q, w)[i])))
    }
}

/// A number held between zero and one.
pub open spec fn held(x: u32) -> u32 {
    if float_lt(x, 0) {
        0
    } else if float_lt(ONE, x) {
        ONE
    } else {
        x
    }
}

/// What a function of three numbers makes of them.
pub open spec fn of_three(u: Unit, b: Builtin, x: u32, y: u32, z: u32) -> u32 {
    match b {
        Builtin::Clamp => float_min(float_max(x, y), z),
        Builtin::Mix => (u.arith)(FloatOp::MulAdd, z, (u.arith)(FloatOp::Sub, y, x, 0), x),
        Builtin::Smoothstep => {
            let t = held(
                (u.arith)(
                    FloatOp::Div,
                    (u.arith)(FloatOp::Sub, z, x, 0),
                    (u.arith)(FloatOp::Sub, y, x, 0),
                    0,
                ),
            );
            (u.arith)(
                FloatOp::Mul,
                (u.arith)(FloatOp::Mul, t, t, 0),
                (u.arith)(FloatOp::MulAdd, TWO, negated(t), THREE),
                0,
            )
        },
        _ => 0,
    }
}

/// A function of three numbers, component by component; a number counts for
/// every component.
pub open spec fn mapped_three(u: Unit, b: Builtin, p: Value, q: Value, r: Value) -> Value {
    let w = wider(wider(width_of(p), width_of(q)), width_of(r));
    if w == 0 {
        Value::Float(of_three(u, b, p.scalar(), q.scalar(), r.scalar()))
    } else {
        vector(
            Seq::new(
                w as nat,
                |i: int| of_three(u, b, spread(p, w)[i], spread(q, w)[i], spread(r, w)[i]),
            ),
        )
    }
}

/// The sum of the squares of the first `n` numbers.
pub open spec fn square_sum(u: Unit, c: Seq<u32>, n: nat) -> u32
    decreases n,
{
    if n == 0 {
        0
    } else {
        (u.arith)(
            FloatOp::Add,
            square_sum(u, c, (n - 1) as nat),
            (u.arith)(FloatOp::Mul, c[n - 1], c[n - 1], 0),
            0,
        )
    }
}

/// The length of a vector.
pub open spec fn vector_length(u: Unit, v: Value) -> u32 {
    let w = width_of(v);
    (u.arith)(FloatOp::Sqrt, square_sum(u, spread(v, w), w as nat), 0, 0)
}

/// The length of a vector, or the magnitude of a number.
pub open spec fn length_of(u: Unit, v: Value) -> Value {
    if width_of(v) == 0 {
        Value::Float(magnitude(v.scalar()) as u32)
    } else {
        Value::Float(vector_length(u, v))
    }
}

/// The inner product of two values.
pub open spec fn dot_of(u: Unit, p: Value, q: Value) -> u32 {
    let w = wider(width_of(p), width_of(q));
    if w == 0 {
        (u.arith)(FloatOp::Mul, p.scalar(), q.scalar(), 0)
    } else {
        dot_sum(u, spread(p, w), spread(q, w), w as nat)
    }
}

/// `a * b - c * d`, the first product not rounded.
pub open spec fn minor(u: Unit, a: u32, b: u32, c: u32, d: u32) -> u32 {
    (u.arith)(FloatOp::MulAdd, a, b, negated((u.arith)(FloatOp::Mul, c, d, 0)))
}

/// The cross product of two vectors.
pub open spec fn cross_of(u: Unit, p: Value, q: Value) -> Value {
    let a = p.as_vector(3);
    let b = q.as_vector(3);
    vector(
        seq![
            minor(u, a[1], b[2], a[2], b[1]),
            minor(u, a[2], b[0], a[0], b[2]),
            minor(u, a[0], b[1], a[1], b[0]),
        ],
    )
}

/// The vector of length one in the same direction; zeros where there is no
/// length. A number becomes its sign.
pub open spec fn normalized(u: Unit, v: Value) -> Value {
    let w = width_of(v);
    if w == 0 {
        Value::Float(
            if float_eq(v.scalar(), 0) {
                0
            } else if float_lt(0, v.scalar()) {
                ONE
            } else {
                MINUS_ONE
            },
        )
    } else {
        let len = vector_length(u, v);
        vector(
            Seq::new(
                w as nat,
                |i: int|
                    if float_lt(0, len) {
                        (u.arith)(FloatOp::Div, spread(v, w)[i], len, 0)
                    } else {
                        0
                    },
            ),
        )
    }
}

/// The result of an operator that cannot fail.
pub open spec fn combined(u: Unit, op: BinaryOp, l: Value, r: Value) -> Value {
    binary_value(u, op, l, r)->0
}

/// The reflection of `i` at the surface with normal `n`.
pub open spec fn reflected(u: Unit, i: Value, n: Value) -> Value {
    let k = combined(u, BinaryOp::Mul, Value::Float(TWO), Value::Float(dot_of(u, n, i)));
    combined(u, BinaryOp::Sub, i, combined(u, BinaryOp::Mul, k, n))
}

/// The direction of `i` behind a surface with normal `n` and the given ratio
/// of refraction; zero where it is reflected wholly.
pub open spec fn refracted(u: Unit, i: Value, n: Value, eta: u32) -> Value {
    let d = dot_of(u, n, i);
    let k = (u.arith)(
        FloatOp::MulAdd,
        (u.arith)(FloatOp::Mul, eta, eta, 0),
        negated((u.arith)(FloatOp::MulAdd, d, negated(d), ONE)),
        ONE,
    );
    if float_lt(k, 0) {
        if width_of(i) == 0 {
            Value::Float(0)
        } else {
            vector(Seq::new(width_of(i) as nat, |j: int| 0u32))
        }
    } else {
        let scale = (u.arith)(FloatOp::MulAdd, eta, d, (u.arith)(FloatOp::Sqrt, k, 0, 0));
        combined(
            u,
            BinaryOp::Sub,
            combined(u, BinaryOp::Mul, Value::Float(eta), i),
            combined(u, BinaryOp::Mul, Value::Float(scale), n),
        )
    }
}

/// The result of a built-in function; none where the number of arguments does
/// not fit. A function of one argument ignores further ones.
pub open spec fn builtin_value(u: Unit, b: Builtin, args: Seq<Value>) -> Option<Value> {
    match b {
        Builtin::Atan => if args.len() == 2 {
            Some(mapped_two(u, b, args[0], args[1]))
        } else if args.len() > 0 {
            Some(mapped_one(u, b, args[0]))
        } else {
            None
        },
        Builtin::Atan2
        | Builtin::Pow
        | Builtin::Mod
        | Builtin::Min
        | Builtin::Max
        | Builtin::Step => if args.len() == 2 {
            Some(mapped_two(u, b, args[0], args[1]))
        } else {
            None
        },
        Builtin::Clamp | Builtin::Mix | Builtin::Smoothstep => if args.len() == 3 {
            Some(mapped_three(u, b, args[0], args[1], args[2]))
        } else {
            None
        },
        Builtin::Distance => if args.len() == 2 {
            Some(length_of(u, combined(u, BinaryOp::Sub, args[0], args[1])))
        } else {
            None
        },
        Builtin::Dot => if args.len() == 2 {
            Some(Value::Float(dot_of(u, args[0], args[1])))
        } else {
            None
        },
        Builtin::Cross => if args.len() == 2 {
            Some(cross_of(u, args[0], args[1]))
        } else {
            None
        },
        Builtin::Reflect => if args.len() == 2 {
            Some(reflected(u, args[0], args[1]))
        } else {
            None
        },
        Builtin::Refract => if args.len() == 3 {
            Some(refracted(u, args[0], args[1], args[2].scalar()))
        } else {
            None
        },
        _ => if args.len() == 0 {
            None
        } else if b is Length {
            Some(length_of(u, args[0]))
        } else if b is Normalize {
            Some(normalized(u, args[0]))
        } else if b is ToFloat {
            Some(Value::Float(args[0].scalar()))
        } else if b is ToInt {
            Some(Value::Int(args[0].whole() as i32))
        } else if b is ToBool {
            Some(Value::Bool(args[0].truth()))
        } else {
            Some(mapped_one(u, b, args[0]))
        },
    }
}

/// What a call of a built-in function by name gives; none where there is no
/// such function or it does not take that many arguments.
pub open spec fn called_builtin(u: Unit, name: Seq<char>, args: Seq<Value>) -> Option<Value> {
    match builtin_named(name) {
        Some(b) => builtin_value(u, b, args),
        None => None,
    }
}

/// A value spread over four places.
fn spread_out(v: &Value, width: usize) -> (c: Vec<u32>)
    ensures
        c@ == spread(*v, width as int),
        c@.len() == 4,
{
    let a: [u32; 4] = broadcast(v, width);
    let mut c: Vec<u32> = Vec::new();
    c.push(a[0]);
    c.push(a[1]);
    c.push(a[2]);
    c.push(a[3]);
    assert(c@ =~= spread(*v, width as int));
    c
}

/// The larger of two widths.
fn widest(a: usize, b: usize) -> (r: usize)
    ensures
        r == wider(a as int, b as int),
{
    if a >= b {
        a
    } else {
        b
    }
}

impl<
    A: Fn(FloatOp, u32, u32, u32) -> u32,
    L: Fn(&str) -> u32,
    S: Fn(usize, u32, u32) -> [u32; 4],
> Machine<A, L, S> {
    /// What a function of one number makes of it.
    fn one(&self, b: Builtin, x: u32) -> (r: u32)
        requires
            self.steady(),
        ensures
            r == of_one(self.unit(), b, x),
    {
        match b {
            Builtin::Abs => x % 0x8000_0000,
            Builtin::Sign => if bits_lt(0, x) {
                ONE
            } else if bits_lt(x, 0) {
                MINUS_ONE
            } else {
                0
            },
            Builtin::Floor => self.op(FloatOp::Floor, x, 0, 0),
            Builtin::Ceil => self.op(FloatOp::Ceil, x, 0, 0),
            Builtin::Fract => {
                let f: u32 = self.op(FloatOp::Floor, x, 0, 0);
                self.op(FloatOp::Sub, x, f, 0)
            },
            Builtin::Sin => self.op(FloatOp::Sin, x, 0, 0),
            Builtin::Cos => self.op(FloatOp::Cos, x, 0, 0),
            Builtin::Tan => self.op(FloatOp::Tan, x, 0, 0),
            Builtin::Asin => self.op(FloatOp::Asin, x, 0, 0),
            Builtin::Acos => self.op(FloatOp::Acos, x, 0, 0),
            Builtin::Atan => self.op(FloatOp::Atan, x, 0, 0),
            Builtin::Exp => self.op(FloatOp::Exp, x, 0, 0),
            Builtin::Exp2 => self.op(FloatOp::Exp2, x, 0, 0),
            Builtin::Log => self.op(FloatOp::Ln, x, 0, 0),
            Builtin::Log2 => self.op(FloatOp::Log2, x, 0, 0),
            Builtin::Sqrt => self.op(FloatOp::Sqrt, x, 0, 0),
            Builtin::InverseSqrt => {
                let s: u32 = self.op(FloatOp::Sqrt, x, 0, 0);
                self.op(FloatOp::Div, ONE, s, 0)
            },
            Builtin::Radians => self.op(FloatOp::Radians, x, 0, 0),
            Builtin::Degrees => self.op(FloatOp::Degrees, x, 0, 0),
            _ => x,
        }
    }

    /// What a function of two numbers makes of them.
    fn two(&self, b: Builtin, x: u32, y: u32) -> (r: u32)
        requires
            self.steady(),
        ensures
            r == of_two(self.unit(), b, x, y),
    {
        match b {
            Builtin::Atan | Builtin::Atan2 => self.op(FloatOp::Atan2, x, y, 0),
            Builtin::Pow => self.op(FloatOp::Pow, x, y, 0),
            Builtin::Mod => if bits_eq(y, 0) {
                0
            } else {
                self.modulo(x, y)
            },
            Builtin::Min => bits_min(x, y),
            Builtin::Max => bits_max(x, y),
            Builtin::Step => if bits_lt(y, x) {
                0
            } else {
                ONE
            },
            _ => 0,
        }
    }

    /// What a function of three numbers makes of them.
    fn three(&self, b: Builtin, x: u32, y: u32, z: u32) -> (r: u32)
        requires
            self.steady(),
        ensures
            r == of_three(self.unit(), b, x, y, z),
    {
        match b {
            Builtin::Clamp => bits_min(bits_max(x, y), z),
            Builtin::Mix => {
                let d: u32 = self.op(FloatOp::Sub, y, x, 0);
                self.op(FloatOp::MulAdd, z, d, x)
            },
            Builtin::Smoothstep => {
                let above: u32 = self.op(FloatOp::Sub, z, x, 0);
                let below: u32 = self.op(FloatOp::Sub, y, x, 0);
                let q: u32 = self.op(FloatOp::Div, above, below, 0);
                let t: u32 = if bits_lt(q, 0) {
                    0
                } else if bits_lt(ONE, q) {
                    ONE
                } else {
                    q
                };
                let square: u32 = self.op(FloatOp::Mul, t, t, 0);
                let rest: u32 = self.op(FloatOp::MulAdd, TWO, bits_neg(t), THREE);
                self.op(FloatOp::Mul, square, rest, 0)
            },
            _ => 0,
        }
    }

    /// Applies a function of one number component by component.
    fn map1(&self, b: Builtin, v: &Value) -> (r: Value)
        requires
            self.steady(),
        ensures
            r == mapped_one(self.unit(), b, *v),
    {
        match v {
            Value::Float(_) | Value::Int(_) => Value::Float(self.one(b, v.as_f32())),
            Value::Vec2(_) | Value::Vec3(_) | Value::Vec4(_) => {
                let n: usize = v.component_count();
                let ghost want = Seq::new(
                    n as nat,
                    |i: int| of_one(self.unit(), b, v.comps()[i]),
                );
                let mut out: Vec<u32> = Vec::new();
                let mut i: usize = 0;
                while i < n
                    invariant
                        self.steady(),
                        n == v.comps().len(),
                        want == Seq::new(
                            n as nat,
                            |i: int| of_one(self.unit(), b, v.comps()[i]),
                        ),
                        i <= n,
                        out@ == want.take(i as int),
                    decreases n - i,
                {
                    out.push(self.one(b, v.component(i)));
                    assert(out@ =~= want.take(i + 1));
                    i = i + 1;
                }
                assert(out@ =~= Seq::new(
                    v.comps().len(),
                    |i: int| of_one(self.unit(), b, v.comps()[i]),
                ));
                make_vector(&out)
            },
            _ => *v,
        }
    }

    /// Applies a function of two numbers component by component.
    fn map2(&self, b: Builtin, p: &Value, q: &Value) -> (r: Value)
        requires
            self.steady(),
        ensures
            r == mapped_two(self.unit(), b, *p, *q),
    {
        let w: usize = widest(vec_width(p), vec_width(q));
        if w == 0 {
            return Value::Float(self.two(b, p.as_f32(), q.as_f32()));
        }
        let pc: Vec<u32> = spread_out(p, w);
        let qc: Vec<u32> = spread_out(q, w);
        let ghost want = Seq::new(
            w as nat,
            |i: int| of_two(self.unit(), b, pc@[i], qc@[i]),
        );
        let mut out: Vec<u32> = Vec::new();
        let mut i: usize = 0;
        while i < w
            invariant
                self.steady(),
                w <= 4,
                pc@.len() == 4,
                qc@.len() == 4,
                want == Seq::new(w as nat, |i: int| of_two(self.unit(), b, pc@[i], qc@[i])),
                i <= w,
                out@ == want.take(i as int),
            decreases w - i,
        {
            out.push(self.two(b, pc[i], qc[i]));
            assert(out@ =~= want.take(i + 1));
            i = i + 1;
        }
        assert(out@ =~= Seq::new(
            w as nat,
            |i: int|
                of_two(self.unit(), b, spread(*p, w as int)[i], spread(*q, w as int)[i]),
        ));
        make_vector(&out)
    }

    /// Applies a function of three numbers component by component.
    fn map3(&self, b: Builtin, p: &Value, q: &Value, r: &Value) -> (s: Value)
        requires
            self.steady(),
        ensures
            s == mapped_three(self.unit(), b, *p, *q, *r),
    {
        let w: usize = widest(widest(vec_width(p), vec_width(q)), vec_width(r));
        if w == 0 {
            return Value::Float(self.three(b, p.as_f32(), q.as_f32(), r.as_f32()));
        }
        let pc: Vec<u32> = spread_out(p, w);
        let qc: Vec<u32> = spread_out(q, w);
        let rc: Vec<u32> = spread_out(r, w);
        let ghost want = Seq::new(
            w as nat,
            |i: int| of_three(self.unit(), b, pc@[i], qc@[i], rc@[i]),
        );
        let mut out: Vec<u32> = Vec::new();
        let mut i: usize = 0;
        while i < w
            invariant
                self.steady(),
                w <= 4,
                pc@.len() == 4,
                qc@.len() == 4,
                rc@.len() == 4,
                want == Seq::new(
                    w as nat,
                    |i: int| of_three(self.unit(), b, pc@[i], qc@[i], rc@[i]),
                ),
                i <= w,
                out@ == want.take(i as int),
            decreases w - i,
        {
            out.push(self.three(b, pc[i], qc[i], rc[i]));
            assert(out@ =~= want.take(i + 1));
            i = i + 1;
        }
        assert(out@ =~= Seq::new(
            w as nat,
            |i: int|
                of_three(
                    self.unit(),
                    b,
                    spread(*p, w as int)[i],
                    spread(*q, w as int)[i],
                    spread(*r, w as int)[i],
                ),
        ));
        make_vector(&out)
    }

    /// The length of a vector.
    fn measure(&self, v: &Value) -> (r: u32)
        requires
            self.steady(),
        ensures
            r == vector_length(self.unit(), *v),
    {
        let w: usize = vec_width(v);
        let c: Vec<u32> = spread_out(v, w);
        let mut s: u32 = 0;
        let mut i: usize = 0;
        while i < w
            invariant
                self.steady(),
                w <= 4,
                c@.len() == 4,
                i <= w,
                s == square_sum(self.unit(), c@, i as nat),
            decreases w - i,
        {
            let x: u32 = self.op(FloatOp::Mul, c[i], c[i], 0);
            s = self.op(FloatOp::Add, s, x, 0);
            i = i + 1;
        }
        self.op(FloatOp::Sqrt, s, 0, 0)
    }

    /// The length of a vector, or the magnitude of a number.
    fn length(&self, v: &Value) -> (r: Value)
        requires
            self.steady(),
        ensures
            r == length_of(self.unit(), *v),
    {
        if vec_width(v) == 0 {
            Value::Float(v.as_f32() % 0x8000_0000)
        } else {
            Value::Float(self.measure(v))
        }
    }

    /// The inner product of two values.
    fn dot(&self, p: &Value, q: &Value) -> (r: u32)
        requires
            self.steady(),
        ensures
            r == dot_of(self.unit(), *p, *q),
    {
        let w: usize = widest(vec_width(p), vec_width(q));
        if w == 0 {
            self.op(FloatOp::Mul, p.as_f32(), q.as_f32(), 0)
        } else {
            let pc: Vec<u32> = spread_out(p, w);
            let qc: Vec<u32> = spread_out(q, w);
            self.dot_from_zero(&pc, &qc, w)
        }
    }

    /// `a * b - c * d`, the first product not rounded.
    fn minor_of(&self, a: u32, b: u32, c: u32, d: u32) -> (r: u32)
        requires
            self.steady(),
        ensures
            r == minor(self.unit(), a, b, c, d),
    {
        let x: u32 = self.op(FloatOp::Mul, c, d, 0);
        self.op(FloatOp::MulAdd, a, b, bits_neg(x))
    }

    /// The cross product of two vectors.
    fn cross(&self, p: &Value, q: &Value) -> (r: Value)
        requires
            self.steady(),
        ensures
            r == cross_of(self.unit(), *p, *q),
    {
        let a: [u32; 3] = p.as_vec3();
        let b: [u32; 3] = q.as_vec3();
        let mut out: Vec<u32> = Vec::new();
        out.push(self.minor_of(a[1], b[2], a[2], b[1]));
        out.push(self.minor_of(a[2], b[0], a[0], b[2]));
        out.push(self.minor_of(a[0], b[1], a[1], b[0]));
        assert(out@ =~= seq![
            minor(self.unit(), a@[1], b@[2], a@[2], b@[1]),
            minor(self.unit(), a@[2], b@[0], a@[0], b@[2]),
            minor(self.unit(), a@[0], b@[1], a@[1], b@[0]),
        ]);
        make_vector(&out)
    }

    /// The vector of length one in the same direction.
    fn normalize(&self, v: &Value) -> (r: Value)
        requires
            self.steady(),
        ensures
            r == normalized(self.unit(), *v),
    {
        let w: usize = vec_width(v);
        if w == 0 {
            let x: u32 = v.as_f32();
            return Value::Float(
                if bits_eq(x, 0) {
                    0
                } else if bits_lt(0, x) {
                    ONE
                } else {
                    MINUS_ONE
                },
            );
        }
        let c: Vec<u32> = spread_out(v, w);
        let len: u32 = self.measure(v);
        let some = bits_lt(0, len);
        let ghost want = Seq::new(
            w as nat,
            |i: int|
                if float_lt(0, len) {
                    (self.unit().arith)(FloatOp::Div, spread(*v, w as int)[i], len, 0)
                } else {
                    0
                },
        );
        let mut out: Vec<u32> = Vec::new();
        let mut i: usize = 0;
        while i < w
            invariant
                self.steady(),
                w <= 4,
                c@ == spread(*v, w as int),
                c@.len() == 4,
                some == float_lt(0, len),
                want == Seq::new(
                    w as nat,
                    |i: int|
                        if float_lt(0, len) {
                            (self.unit().arith)(FloatOp::Div, spread(*v, w as int)[i], len, 0)
                        } else {
                            0
                        },
                ),
                i <= w,
                out@ == want.take(i as int),
            decreases w - i,
        {
            if some {
                out.push(self.op(FloatOp::Div, c[i], len, 0));
            } else {
                out.push(0);
            }
            assert(out@ =~= want.take(i + 1));
            i = i + 1;
        }
        assert(out@ =~= want);
        make_vector(&out)
    }

    /// Applies an operator that cannot fail.
    fn plain(&self, op: BinaryOp, l: &Value, r: &Value) -> (v: Value)
        requires
            self.steady(),
            !(op is Div || op is Mod),
        ensures
            v == combined(self.unit(), op, *l, *r),
    {
        match self.apply_binary(op, l, r) {
            Some(v) => v,
            None => Value::Void,
        }
    }

    /// The reflection of a direction at a surface.
    fn reflect(&self, i: &Value, n: &Value) -> (r: Value)
        requires
            self.steady(),
        ensures
            r == reflected(self.unit(), *i, *n),
    {
        let d: Value = Value::Float(self.dot(n, i));
        let k: Value = self.plain(BinaryOp::Mul, &Value::Float(TWO), &d);
        let kn: Value = self.plain(BinaryOp::Mul, &k, n);
        self.plain(BinaryOp::Sub, i, &kn)
    }

    /// The direction behind a refracting surface.
    fn refract(&self, i: &Value, n: &Value, eta: u32) -> (r: Value)
        requires
            self.steady(),
        ensures
            r == refracted(self.unit(), *i, *n, eta),
    {
        let d: u32 = self.dot(n, i);
        let square: u32 = self.op(FloatOp::Mul, eta, eta, 0);
        let cos: u32 = self.op(FloatOp::MulAdd, d, bits_neg(d), ONE);
        let k: u32 = self.op(FloatOp::MulAdd, square, bits_neg(cos), ONE);
        if bits_lt(k, 0) {
            let w: usize = vec_width(i);
            if w == 0 {
                Value::Float(0)
            } else {
                let mut out: Vec<u32> = Vec::new();
                let mut j: usize = 0;
                while j < w
                    invariant
                        j <= w,
                        out@ == Seq::new(j as nat, |j: int| 0u32),
                    decreases w - j,
                {
                    out.push(0);
                    assert(out@ =~= Seq::new((j + 1) as nat, |j: int| 0u32));
                    j = j + 1;
                }
                make_vector(&out)
            }
        } else {
            let eta_i: Value = self.plain(BinaryOp::Mul, &Value::Float(eta), i);
            let root: u32 = self.op(FloatOp::Sqrt, k, 0, 0);
            let scale: u32 = self.op(FloatOp::MulAdd, eta, d, root);
            let scaled: Value = self.plain(BinaryOp::Mul, &Value::Float(scale), n);
            self.plain(BinaryOp::Sub, &eta_i, &scaled)
        }
    }

    /// Calls a built-in function.
    fn run_builtin(&self, b: Builtin, args: &Vec<Value>) -> (r: Option<Value>)
        requires
            self.steady(),
        ensures
            r == builtin_value(self.unit(), b, args@),
    {
        let n: usize = args.len();
        match b {
            Builtin::Atan => if n == 2 {
                Some(self.map2(b, &args[0], &args[1]))
            } else if n > 0 {
                Some(self.map1(b, &args[0]))
            } else {
                None
            },
            Builtin::Atan2
            | Builtin::Pow
            | Builtin::Mod
            | Builtin::Min
            | Builtin::Max
            | Builtin::Step => if n == 2 {
                Some(self.map2(b, &args[0], &args[1]))
            } else {
                None
            },
            Builtin::Clamp | Builtin::Mix | Builtin::Smoothstep => if n == 3 {
                Some(self.map3(b, &args[0], &args[1], &args[2]))
            } else {
                None
            },
            Builtin::Distance => if n == 2 {
                let d: Value = self.plain(BinaryOp::Sub, &args[0], &args[1]);
                Some(self.length(&d))
            } else {
                None
            },
            Builtin::Dot => if n == 2 {
                Some(Value::Float(self.dot(&args[0], &args[1])))
            } else {
                None
            },
            Builtin::Cross => if n == 2 {
                Some(self.cross(&args[0], &args[1]))
            } else {
                None
            },
            Builtin::Reflect => if n == 2 {
                Some(self.reflect(&args[0], &args[1]))
            } else {
                None
            },
            Builtin::Refract => if n == 3 {
                Some(self.refract(&args[0], &args[1], args[2].as_f32()))
            } else {
                None
            },
            _ => if n == 0 {
                None
            } else {
                Some(
                    match b {
                        Builtin::Length => self.length(&args[0]),
                        Builtin::Normalize => self.normalize(&args[0]),
                        Builtin::ToFloat => Value::Float(args[0].as_f32()),
                        Builtin::ToInt => Value::Int(args[0].as_i32()),
                        Builtin::ToBool => Value::Bool(args[0].as_bool()),
                        _ => self.map1(b, &args[0]),
                    },
                )
            },
        }
    }

    /// Calls a built-in function by name.
    pub fn call_builtin(&self, name: &str, args: &Vec<Value>) -> (r: Option<Value>)
        requires
            self.steady(),
        ensures
            r == called_builtin(self.unit(), name@, args@),
    {
        match find_builtin(name) {
            Some(b) => self.run_builtin(b, args),
            None => None,
        }
    }
}

} // verus!
