//! Arithmetic of the SkSL interpreter.
//!
//! What the language does with floats is written down here in terms of a float
//! unit: single-precision operations on bit patterns, the value of a literal,
//! and the color of a child at a point. Anything that can be told from the
//! patterns alone (comparison, sign, smaller and larger) needs no unit.

use vstd::prelude::*;

use crate::float_bits::{
    bits_eq, bits_le, bits_lt, bits_neg, float_eq, float_le, float_lt, magnitude, negated,
};
use crate::interp::{
    Value, broadcast, int_binary, int_result, make_vector, mat_from_elems, matrix, spread, vec_width,
    vector, width_of,
};
use crate::sksl::ast::BinaryOp;

verus! {

/// An operation of the float unit.
#[derive(Debug, Clone, Copy, PartialEq, Eq, Structural)]
pub enum FloatOp {
    /// `a + b`
    Add,
    /// `a - b`
    Sub,
    /// `a * b`
    Mul,
    /// `a / b`
    Div,
    /// `a * b + c`, rounded once.
    MulAdd,
    /// The largest whole number up to `a`.
    Floor,
    /// The smallest whole number from `a`.
    Ceil,
    /// Sine.
    Sin,
    /// Cosine.
    Cos,
    /// Tangent.
    Tan,
    /// Arc sine.
    Asin,
    /// Arc cosine.
    Acos,
    /// Arc tangent.
    Atan,
    /// Angle of the point with ordinate `a` and abscissa `b`.
    Atan2,
    /// Exponential.
    Exp,
    /// Power of two.
    Exp2,
    /// Natural logarithm.
    Ln,
    /// Logarithm to base two.
    Log2,
    /// Square root.
    Sqrt,
    /// `a` to the power of `b`.
    Pow,
    /// Degrees to radians.
    Radians,
    /// Radians to degrees.
    Degrees,
    /// The remainder of `a` by `b` that is not negative.
    Rem,
    /// The length of the vector `(a, b)`.
    Hypot,
    /// The color channel between `a` and `b` at `c`.
    Blend,
    /// The whole number nearest to `a`, halves away from zero.
    Round,
    /// The float nearest to the natural number `a`.
    OfNatural,
    /// The number halfway between two others.
    Midpoint,
    /// The part of a number behind the point, with its sign.
    Fract,
}

/// The answers of a float unit; operands that an operation does not use are
/// zero.
pub type Ops = spec_fn(FloatOp, u32, u32, u32) -> u32;

/// A float unit: single-precision operations on bit patterns.
pub struct FloatUnit<A> {
    /// The operations.
    pub arith: A,
}

impl<A: Fn(FloatOp, u32, u32, u32) -> u32> FloatUnit<A> {
    /// Whether the unit always answers, and always answers the same.
    #[verifier::opaque]
    pub open spec fn steady(self) -> bool {
        &&& forall|op: FloatOp, a: u32, b: u32, c: u32| #[trigger]
            call_requires(self.arith, (op, a, b, c))
        &&& forall|op: FloatOp, a: u32, b: u32, c: u32, x: u32, y: u32| #[trigger]
            call_ensures(self.arith, (op, a, b, c), x) && #[trigger] call_ensures(
                self.arith,
                (op, a, b, c),
                y,
            ) ==> x == y
    }

    /// What the unit answers.
    #[verifier::opaque]
    pub open spec fn ops(self) -> Ops {
        |op: FloatOp, a: u32, b: u32, c: u32|
            choose|x: u32| call_ensures(self.arith, (op, a, b, c), x)
    }

    /// Asks for an operation.
    pub fn op(&self, op: FloatOp, a: u32, b: u32, c: u32) -> (r: u32)
        requires
            self.steady(),
        ensures
            r == (self.ops())(op, a, b, c),
    {
        proof {
            reveal(FloatUnit::steady);
            reveal(FloatUnit::ops);
        }
        let f = &self.arith;
        f(op, a, b, c)
    }
}

/// A float unit and the world around a program, as mathematical functions.
pub struct Unit {
    /// Float operations.
    pub arith: Ops,
    /// The float that a literal denotes.
    pub literal: spec_fn(Seq<char>) -> u32,
    /// The color of a child at a point.
    pub sample: spec_fn(usize, u32, u32) -> [u32; 4],
}

/// A float unit and the world around a program.
pub struct Machine<A, L, S> {
    /// Float operations.
    pub floats: FloatUnit<A>,
    /// The float that a literal denotes.
    pub literal: L,
    /// The color of a child at a point.
    pub sample: S,
}

/// Whether a literal may be read as `x`.
pub open spec fn reads_as<L: Fn(&str) -> u32>(l: L, t: Seq<char>, x: u32) -> bool {
    exists|s: &str| s@ == t && #[trigger] call_ensures(l, (s,), x)
}

impl<
    A: Fn(FloatOp, u32, u32, u32) -> u32,
    L: Fn(&str) -> u32,
    S: Fn(usize, u32, u32) -> [u32; 4],
> Machine<A, L, S> {
    /// Whether the machine always answers, and always answers the same.
    #[verifier::opaque]
    pub open spec fn steady(self) -> bool {
        &&& self.floats.steady()
        &&& forall|s: &str| #[trigger] call_requires(self.literal, (s,))
        &&& forall|s: &str, t: &str, x: u32, y: u32|
            s@ == t@ && #[trigger] call_ensures(self.literal, (s,), x) && #[trigger] call_ensures(
                self.literal,
                (t,),
                y,
            ) ==> x == y
        &&& forall|i: usize, a: u32, b: u32| #[trigger] call_requires(self.sample, (i, a, b))
        &&& forall|i: usize, a: u32, b: u32, x: [u32; 4], y: [u32; 4]| #[trigger]
            call_ensures(self.sample, (i, a, b), x) && #[trigger] call_ensures(
                self.sample,
                (i, a, b),
                y,
            ) ==> x == y
    }

    /// What the machine answers.
    #[verifier::opaque]
    pub open spec fn unit(self) -> Unit {
        Unit {
            arith: self.floats.ops(),
            literal: |t: Seq<char>| choose|x: u32| reads_as(self.literal, t, x),
            sample: |i: usize, a: u32, b: u32|
                choose|x: [u32; 4]| call_ensures(self.sample, (i, a, b), x),
        }
    }

    /// Asks for a float operation.
    pub fn op(&self, op: FloatOp, a: u32, b: u32, c: u32) -> (r: u32)
        requires
            self.steady(),
        ensures
            r == (self.unit().arith)(op, a, b, c),
    {
        proof {
            reveal(Machine::steady);
            reveal(Machine::unit);
        }
        self.floats.op(op, a, b, c)
    }

    /// Asks for the float that a literal denotes.
    pub fn read(&self, text: &str) -> (r: u32)
        requires
            self.steady(),
        ensures
            r == (self.unit().literal)(text@),
    {
        proof {
            reveal(Machine::steady);
            reveal(Machine::unit);
        }
        let f = &self.literal;
        let r = f(text);
        assert(reads_as(self.literal, text@, r));
        r
    }

    /// Asks for the color of a child.
    pub fn color(&self, child: usize, x: u32, y: u32) -> (r: [u32; 4])
        requires
            self.steady(),
        ensures
            r == (self.unit().sample)(child, x, y),
    {
        proof {
            reveal(Machine::steady);
            reveal(Machine::unit);
        }
        let f = &self.sample;
        f(child, x, y)
    }
}

/// The dimension of a matrix; zero for anything else.
pub open spec fn dimension(v: Value) -> nat {
    match v {
        Value::Mat2(_) => 2,
        Value::Mat3(_) => 3,
        Value::Mat4(_) => 4,
        _ => 0,
    }
}

/// The elements and the dimension of a matrix.
pub fn mat_slice(v: &Value) -> (r: Option<(Vec<u32>, usize)>)
    ensures
        match r {
            Some((c, n)) => dimension(*v) == n && 2 <= n <= 4 && c@ == v.comps() && c@.len() == n
                * n,
            None => dimension(*v) == 0,
        },
{
    let n: usize = match v {
        Value::Mat2(_) => 2,
        Value::Mat3(_) => 3,
        Value::Mat4(_) => 4,
        _ => {
            return None;
        },
    };
    let total: usize = v.component_count();
    assert(n == 2 ==> total == 4);
    assert(n == 3 ==> total == 9);
    assert(n == 4 ==> total == 16);
    let mut c: Vec<u32> = Vec::new();
    let mut i: usize = 0;
    while i < total
        invariant
            total == v.comps().len(),
            i <= total,
            c@ == v.comps().take(i as int),
        decreases total - i,
    {
        c.push(v.component(i));
        assert(c@ =~= v.comps().take(i + 1));
        i = i + 1;
    }
    assert(c@ =~= v.comps());
    Some((c, n))
}

/// The result of an operator on two floats. Division by zero follows the float
/// unit; an operator without a meaning on floats gives zero.
pub open spec fn float_result(u: Unit, op: BinaryOp, a: u32, b: u32) -> u32 {
    match op {
        BinaryOp::Add => (u.arith)(FloatOp::Add, a, b, 0),
        BinaryOp::Sub => (u.arith)(FloatOp::Sub, a, b, 0),
        BinaryOp::Mul => (u.arith)(FloatOp::Mul, a, b, 0),
        BinaryOp::Div => (u.arith)(FloatOp::Div, a, b, 0),
        BinaryOp::Mod => remainder(u, a, b),
        _ => 0,
    }
}

/// `a` less the largest whole multiple of `b` up to `a`.
pub open spec fn remainder(u: Unit, a: u32, b: u32) -> u32 {
    let q = (u.arith)(FloatOp::Floor, (u.arith)(FloatOp::Div, a, b, 0), 0, 0);
    (u.arith)(FloatOp::MulAdd, q, negated(b), a)
}

/// Whether two values are equal: truth values and integers exactly, vectors of
/// one width component by component, anything else as floats that differ by
/// less than the float epsilon.
pub open spec fn same_value(u: Unit, l: Value, r: Value) -> bool {
    match (l, r) {
        (Value::Bool(a), Value::Bool(b)) => a == b,
        (Value::Int(a), Value::Int(b)) => a == b,
        (Value::Vec2(_), Value::Vec2(_)) => all_eq(l.comps(), r.comps()),
        (Value::Vec3(_), Value::Vec3(_)) => all_eq(l.comps(), r.comps()),
        (Value::Vec4(_), Value::Vec4(_)) => all_eq(l.comps(), r.comps()),
        _ => float_lt(
            magnitude((u.arith)(FloatOp::Sub, l.scalar(), r.scalar(), 0)) as u32,
            0x3400_0000,
        ),
    }
}

/// Whether floats are equal one by one.
pub open spec fn all_eq(a: Seq<u32>, b: Seq<u32>) -> bool {
    forall|i: int| 0 <= i < a.len() && i < b.len() ==> #[trigger] float_eq(a[i], b[i])
}

/// Whether an operator compares.
pub open spec fn compares(op: BinaryOp) -> bool {
    op is Eq || op is NotEq || op is Lt || op is LtEq || op is Gt || op is GtEq
}

/// The outcome of a comparison.
pub open spec fn comparison(u: Unit, op: BinaryOp, l: Value, r: Value) -> bool {
    let a = l.scalar();
    let b = r.scalar();
    match op {
        BinaryOp::Eq => same_value(u, l, r),
        BinaryOp::NotEq => !same_value(u, l, r),
        BinaryOp::Lt => float_lt(a, b),
        BinaryOp::LtEq => float_le(a, b),
        BinaryOp::Gt => float_lt(b, a),
        BinaryOp::GtEq => float_le(b, a),
        _ => false,
    }
}

/// The sum of the products of two rows of at least two numbers, in the order
/// in which the float unit is asked.
pub open spec fn inner(u: Unit, a: Seq<u32>, b: Seq<u32>, n: nat) -> u32
    decreases n,
{
    if n <= 2 {
        (u.arith)(FloatOp::MulAdd, a[0], b[0], (u.arith)(FloatOp::Mul, a[1], b[1], 0))
    } else {
        (u.arith)(FloatOp::MulAdd, a[n - 1], b[n - 1], inner(u, a, b, (n - 1) as nat))
    }
}

/// The sum of the first `n` products, starting from zero.
pub open spec fn dot_sum(u: Unit, a: Seq<u32>, b: Seq<u32>, n: nat) -> u32
    decreases n,
{
    if n == 0 {
        0
    } else {
        (u.arith)(FloatOp::MulAdd, a[n - 1], b[n - 1], dot_sum(u, a, b, (n - 1) as nat))
    }
}

/// The column `j` of a matrix of dimension `n`.
pub open spec fn mat_column(m: Seq<u32>, n: nat, j: int) -> Seq<u32> {
    Seq::new(n, |k: int| m[j * n + k])
}

/// The row `i` of a matrix of dimension `n`.
pub open spec fn mat_row(m: Seq<u32>, n: nat, i: int) -> Seq<u32> {
    Seq::new(n, |k: int| m[k * n + i])
}

/// The product of two values in the sense of linear algebra, where they have
/// one: of a row vector and a matrix, of a matrix and a vector, or of two
/// matrices, all of one dimension.
pub open spec fn product(u: Unit, l: Value, r: Value) -> Option<Value> {
    let n = dimension(l);
    let m = dimension(r);
    if n == 0 && m > 0 && width_of(l) == m {
        Some(vector(Seq::new(m, |j: int| inner(u, l.comps(), mat_column(r.comps(), m, j), m))))
    } else if n > 0 && m == 0 && width_of(r) == n {
        Some(vector(Seq::new(n, |i: int| inner(u, mat_row(l.comps(), n, i), r.comps(), n))))
    } else if n > 0 && m == n {
        Some(
            matrix(
                n,
                Seq::new(
                    n * n,
                    |k: int|
                        dot_sum(
                            u,
                            mat_row(l.comps(), n, k % (n as int)),
                            mat_column(r.comps(), n, k / (n as int)),
                            n,
                        ),
                ),
            ),
        )
    } else {
        None
    }
}

/// The number in a value that holds an integer or a float.
pub open spec fn is_number(v: Value) -> bool {
    v is Float || v is Int
}

/// The result of an operator that works on a matrix element by element: on two
/// matrices of one dimension, unless it multiplies, or on a matrix and a
/// number.
pub open spec fn elementwise(u: Unit, op: BinaryOp, l: Value, r: Value) -> Option<Value> {
    let n = dimension(l);
    let m = dimension(r);
    if !(op is Add || op is Sub || op is Mul || op is Div) {
        None
    } else if n > 0 && m == n {
        if op is Mul {
            None
        } else {
            Some(
                matrix(
                    n,
                    Seq::new(n * n, |k: int| float_result(u, op, l.comps()[k], r.comps()[k])),
                ),
            )
        }
    } else if n > 0 && m == 0 && is_number(r) {
        Some(matrix(n, Seq::new(n * n, |k: int| float_result(u, op, l.comps()[k], r.scalar()))))
    } else if n == 0 && m > 0 && is_number(l) {
        Some(matrix(m, Seq::new(m * m, |k: int| float_result(u, op, l.scalar(), r.comps()[k]))))
    } else {
        None
    }
}

/// The larger of two widths.
pub open spec fn wider(a: int, b: int) -> int {
    if a >= b {
        a
    } else {
        b
    }
}

/// Whether an operator fails on two integers: a quotient that does not fit.
pub open spec fn int_overflows(op: BinaryOp, a: i32, b: i32) -> bool {
    (op is Div || op is Mod) && a == i32::MIN && b == -1
}

/// The result of a binary operator, broadcasting numbers over vectors and
/// matrices; none where an integer division overflows.
pub open spec fn binary_value(u: Unit, op: BinaryOp, l: Value, r: Value) -> Option<Value> {
    let width = wider(width_of(l), width_of(r));
    if compares(op) {
        Some(Value::Bool(comparison(u, op, l, r)))
    } else if l is Int && r is Int {
        if int_overflows(op, l->Int_0, r->Int_0) {
            None
        } else {
            Some(Value::Int(int_result(op, l->Int_0, r->Int_0)))
        }
    } else if op is Mul && product(u, l, r) is Some {
        product(u, l, r)
    } else if elementwise(u, op, l, r) is Some {
        elementwise(u, op, l, r)
    } else if width == 0 {
        Some(Value::Float(float_result(u, op, l.scalar(), r.scalar())))
    } else {
        Some(
            vector(
                Seq::new(
                    width as nat,
                    |i: int| float_result(u, op, spread(l, width)[i], spread(r, width)[i]),
                ),
            ),
        )
    }
}

impl<
    A: Fn(FloatOp, u32, u32, u32) -> u32,
    L: Fn(&str) -> u32,
    S: Fn(usize, u32, u32) -> [u32; 4],
> Machine<A, L, S> {
    /// The result of an operator on two floats.
    pub fn scalar_op(&self, op: BinaryOp, a: u32, b: u32) -> (r: u32)
        requires
            self.steady(),
        ensures
            r == float_result(self.unit(), op, a, b),
    {
        match op {
            BinaryOp::Add => self.op(FloatOp::Add, a, b, 0),
            BinaryOp::Sub => self.op(FloatOp::Sub, a, b, 0),
            BinaryOp::Mul => self.op(FloatOp::Mul, a, b, 0),
            BinaryOp::Div => self.op(FloatOp::Div, a, b, 0),
            BinaryOp::Mod => self.modulo(a, b),
            _ => 0,
        }
    }

    /// `a` less the largest whole multiple of `b` up to `a`.
    pub fn modulo(&self, a: u32, b: u32) -> (r: u32)
        requires
            self.steady(),
        ensures
            r == remainder(self.unit(), a, b),
    {
        let d: u32 = self.op(FloatOp::Div, a, b, 0);
        let q: u32 = self.op(FloatOp::Floor, d, 0, 0);
        self.op(FloatOp::MulAdd, q, bits_neg(b), a)
    }

    /// Whether two values are equal.
    pub fn values_equal(&self, l: &Value, r: &Value) -> (e: bool)
        requires
            self.steady(),
        ensures
            e == same_value(self.unit(), *l, *r),
    {
        match (l, r) {
            (Value::Bool(a), Value::Bool(b)) => *a == *b,
            (Value::Int(a), Value::Int(b)) => *a == *b,
            (Value::Vec2(a), Value::Vec2(b)) => {
                let e = bits_eq(a[0], b[0]) && bits_eq(a[1], b[1]);
                assert(!e ==> !float_eq(a@[0], b@[0]) || !float_eq(a@[1], b@[1]));
                e
            },
            (Value::Vec3(a), Value::Vec3(b)) => {
                let e = bits_eq(a[0], b[0]) && bits_eq(a[1], b[1]) && bits_eq(a[2], b[2]);
                assert(!e ==> !float_eq(a@[0], b@[0]) || !float_eq(a@[1], b@[1]) || !float_eq(
                    a@[2],
                    b@[2],
                ));
                e
            },
            (Value::Vec4(a), Value::Vec4(b)) => {
                let e = bits_eq(a[0], b[0]) && bits_eq(a[1], b[1]) && bits_eq(a[2], b[2])
                    && bits_eq(a[3], b[3]);
                assert(!e ==> !float_eq(a@[0], b@[0]) || !float_eq(a@[1], b@[1]) || !float_eq(
                    a@[2],
                    b@[2],
                ) || !float_eq(a@[3], b@[3]));
                e
            },
            _ => {
                let d: u32 = self.op(FloatOp::Sub, l.as_f32(), r.as_f32(), 0);
                bits_lt(d % 0x8000_0000, 0x3400_0000)
            },
        }
    }

    /// Compares two values.
    pub fn apply_comparison(&self, op: BinaryOp, l: &Value, r: &Value) -> (e: bool)
        requires
            self.steady(),
        ensures
            e == comparison(self.unit(), op, *l, *r),
    {
        match op {
            BinaryOp::Eq => self.values_equal(l, r),
            BinaryOp::NotEq => !self.values_equal(l, r),
            BinaryOp::Lt => bits_lt(l.as_f32(), r.as_f32()),
            BinaryOp::LtEq => bits_le(l.as_f32(), r.as_f32()),
            BinaryOp::Gt => bits_lt(r.as_f32(), l.as_f32()),
            BinaryOp::GtEq => bits_le(r.as_f32(), l.as_f32()),
            _ => false,
        }
    }

    /// The sum of the products of two rows.
    fn inner_product(&self, a: &Vec<u32>, b: &Vec<u32>) -> (r: u32)
        requires
            self.steady(),
            2 <= a@.len() <= 4,
            a@.len() == b@.len(),
        ensures
            r == inner(self.unit(), a@, b@, a@.len()),
    {
        let n: usize = a.len();
        let last: u32 = self.op(FloatOp::Mul, a[1], b[1], 0);
        let mut s: u32 = self.op(FloatOp::MulAdd, a[0], b[0], last);
        let mut k: usize = 2;
        while k < n
            invariant
                self.steady(),
                n == a@.len() == b@.len(),
                2 <= k <= n,
                s == inner(self.unit(), a@, b@, k as nat),
            decreases n - k,
        {
            s = self.op(FloatOp::MulAdd, a[k], b[k], s);
            k = k + 1;
        }
        s
    }

    /// The sum of the products of two rows, starting from zero.
    pub fn dot_from_zero(&self, a: &Vec<u32>, b: &Vec<u32>, n: usize) -> (r: u32)
        requires
            self.steady(),
            n <= a@.len(),
            n <= b@.len(),
        ensures
            r == dot_sum(self.unit(), a@, b@, n as nat),
    {
        let mut s: u32 = 0;
        let mut k: usize = 0;
        while k < n
            invariant
                self.steady(),
                n <= a@.len(),
                n <= b@.len(),
                k <= n,
                s == dot_sum(self.unit(), a@, b@, k as nat),
            decreases n - k,
        {
            s = self.op(FloatOp::MulAdd, a[k], b[k], s);
            k = k + 1;
        }
        s
    }

    /// The product of two values in the sense of linear algebra.
    pub fn mat_mul(&self, l: &Value, r: &Value) -> (p: Option<Value>)
        requires
            self.steady(),
        ensures
            p == product(self.unit(), *l, *r),
    {
        let u: Ghost<Unit> = Ghost(self.unit());
        match (mat_slice(l), mat_slice(r)) {
            (None, Some((b, m))) => {
                if vec_width(l) != m {
                    return None;
                }
                let a: Vec<u32> = components(l);
                let mut out: Vec<u32> = Vec::new();
                let ghost want = Seq::new(
                    m as nat,
                    |j: int| inner(u@, l.comps(), mat_column(r.comps(), m as nat, j), m as nat),
                );
                let mut j: usize = 0;
                while j < m
                    invariant
                        self.steady(),
                        u@ == self.unit(),
                        2 <= m <= 4,
                        a@ == l.comps(),
                        a@.len() == m,
                        b@ == r.comps(),
                        b@.len() == m * m,
                        want == Seq::new(
                            m as nat,
                            |j: int|
                                inner(u@, l.comps(), mat_column(r.comps(), m as nat, j), m as nat),
                        ),
                        j <= m,
                        out@ == want.take(j as int),
                    decreases m - j,
                {
                    let col: Vec<u32> = take_column(&b, m, j);
                    out.push(self.inner_product(&a, &col));
                    assert(out@ =~= want.take(j + 1));
                    j = j + 1;
                }
                assert(out@ =~= want);
                Some(make_vector(&out))
            },
            (Some((a, n)), None) => {
                if vec_width(r) != n {
                    return None;
                }
                let b: Vec<u32> = components(r);
                let mut out: Vec<u32> = Vec::new();
                let ghost want = Seq::new(
                    n as nat,
                    |i: int| inner(u@, mat_row(l.comps(), n as nat, i), r.comps(), n as nat),
                );
                let mut i: usize = 0;
                while i < n
                    invariant
                        self.steady(),
                        u@ == self.unit(),
                        2 <= n <= 4,
                        b@ == r.comps(),
                        b@.len() == n,
                        a@ == l.comps(),
                        a@.len() == n * n,
                        want == Seq::new(
                            n as nat,
                            |i: int|
                                inner(u@, mat_row(l.comps(), n as nat, i), r.comps(), n as nat),
                        ),
                        i <= n,
                        out@ == want.take(i as int),
                    decreases n - i,
                {
                    let row: Vec<u32> = take_row(&a, n, i);
                    out.push(self.inner_product(&row, &b));
                    assert(out@ =~= want.take(i + 1));
                    i = i + 1;
                }
                assert(out@ =~= want);
                Some(make_vector(&out))
            },
            (Some((a, n)), Some((b, m))) => {
                if n != m {
                    return None;
                }
                let out = self.mat_times_mat(&a, &b, n);
                Some(mat_from_elems(n, &out))
            },
            (None, None) => None,
        }
    }

    /// The elements of the product of two matrices.
    fn mat_times_mat(&self, a: &Vec<u32>, b: &Vec<u32>, n: usize) -> (out: Vec<u32>)
        requires
            self.steady(),
            2 <= n <= 4,
            a@.len() == n * n,
            b@.len() == n * n,
        ensures
            out@ == Seq::new(
                (n * n) as nat,
                |k: int|
                    dot_sum(
                        self.unit(),
                        mat_row(a@, n as nat, k % (n as int)),
                        mat_column(b@, n as nat, k / (n as int)),
                        n as nat,
                    ),
            ),
    {
        let ghost want = Seq::new(
            (n * n) as nat,
            |k: int|
                dot_sum(
                    self.unit(),
                    mat_row(a@, n as nat, k % (n as int)),
                    mat_column(b@, n as nat, k / (n as int)),
                    n as nat,
                ),
        );
        let mut out: Vec<u32> = Vec::new();
        let total: usize = a.len();
        let mut k: usize = 0;
        while k < total
            invariant
                self.steady(),
                2 <= n <= 4,
                total == a@.len() == b@.len() == n * n,
                want == Seq::new(
                    (n * n) as nat,
                    |k: int|
                        dot_sum(
                            self.unit(),
                            mat_row(a@, n as nat, k % (n as int)),
                            mat_column(b@, n as nat, k / (n as int)),
                            n as nat,
                        ),
                ),
                k <= total,
                out@ == want.take(k as int),
            decreases total - k,
        {
            proof {
                assert(k / n < n && k % n < n) by (nonlinear_arith)
                    requires
                        k < n * n,
                        n > 0,
                ;
            }
            let row: Vec<u32> = take_row(a, n, k % n);
            let col: Vec<u32> = take_column(b, n, k / n);
            out.push(self.dot_from_zero(&row, &col, n));
            assert(out@ =~= want.take(k + 1));
            k = k + 1;
        }
        assert(out@ =~= want);
        out
    }

    /// Applies an operator to a matrix element by element.
    pub fn matrix_elementwise_op(&self, op: BinaryOp, l: &Value, r: &Value) -> (p: Option<Value>)
        requires
            self.steady(),
        ensures
            p == elementwise(self.unit(), op, *l, *r),
    {
        let applies = match op {
            BinaryOp::Add | BinaryOp::Sub | BinaryOp::Mul | BinaryOp::Div => true,
            _ => false,
        };
        if !applies {
            return None;
        }
        let multiplies = match op {
            BinaryOp::Mul => true,
            _ => false,
        };
        match (mat_slice(l), mat_slice(r)) {
            (Some((a, n)), Some((b, m))) => {
                if n != m || multiplies {
                    return None;
                }
                let out = self.combine(op, &a, &b);
                assert(out@ =~= Seq::new(
                    (n * n) as nat,
                    |k: int| float_result(self.unit(), op, l.comps()[k], r.comps()[k]),
                ));
                Some(mat_from_elems(n, &out))
            },
            (Some((a, n)), None) => {
                let is_num = match r {
                    Value::Float(_) | Value::Int(_) => true,
                    _ => false,
                };
                if !is_num {
                    return None;
                }
                let b = repeated(r.as_f32(), a.len());
                let out = self.combine(op, &a, &b);
                assert(out@ =~= Seq::new(
                    (n * n) as nat,
                    |k: int| float_result(self.unit(), op, l.comps()[k], r.scalar()),
                ));
                Some(mat_from_elems(n, &out))
            },
            (None, Some((b, m))) => {
                let is_num = match l {
                    Value::Float(_) | Value::Int(_) => true,
                    _ => false,
                };
                if !is_num {
                    return None;
                }
                let a = repeated(l.as_f32(), b.len());
                let out = self.combine(op, &a, &b);
                assert(out@ =~= Seq::new(
                    (m * m) as nat,
                    |k: int| float_result(self.unit(), op, l.scalar(), r.comps()[k]),
                ));
                Some(mat_from_elems(m, &out))
            },
            (None, None) => None,
        }
    }

    /// Applies an operator to floats one by one.
    fn combine(&self, op: BinaryOp, a: &Vec<u32>, b: &Vec<u32>) -> (out: Vec<u32>)
        requires
            self.steady(),
            a@.len() == b@.len(),
        ensures
            out@ == Seq::new(a@.len(), |k: int| float_result(self.unit(), op, a@[k], b@[k])),
    {
        let ghost want = Seq::new(
            a@.len(),
            |k: int| float_result(self.unit(), op, a@[k], b@[k]),
        );
        let mut out: Vec<u32> = Vec::new();
        let mut k: usize = 0;
        while k < a.len()
            invariant
                self.steady(),
                a@.len() == b@.len(),
                want == Seq::new(
                    a@.len(),
                    |k: int| float_result(self.unit(), op, a@[k], b@[k]),
                ),
                k <= a@.len(),
                out@ == want.take(k as int),
            decreases a@.len() - k,
        {
            out.push(self.scalar_op(op, a[k], b[k]));
            assert(out@ =~= want.take(k + 1));
            k = k + 1;
        }
        assert(out@ =~= want);
        out
    }

    /// Applies a binary operator.
    pub fn apply_binary(&self, op: BinaryOp, l: &Value, r: &Value) -> (p: Option<Value>)
        requires
            self.steady(),
        ensures
            p == binary_value(self.unit(), op, *l, *r),
    {
        let is_comparison = match op {
            BinaryOp::Eq
            | BinaryOp::NotEq
            | BinaryOp::Lt
            | BinaryOp::LtEq
            | BinaryOp::Gt
            | BinaryOp::GtEq => true,
            _ => false,
        };
        if is_comparison {
            return Some(Value::Bool(self.apply_comparison(op, l, r)));
        }
        match (l, r) {
            (Value::Int(a), Value::Int(b)) => {
                let divides = match op {
                    BinaryOp::Div | BinaryOp::Mod => true,
                    _ => false,
                };
                if divides && *a == i32::MIN && *b == -1 {
                    return None;
                }
                return Some(Value::Int(int_binary(op, *a, *b)));
            },
            _ => {},
        }
        let multiplies = match op {
            BinaryOp::Mul => true,
            _ => false,
        };
        if multiplies {
            match self.mat_mul(l, r) {
                Some(v) => {
                    return Some(v);
                },
                None => {},
            }
        }
        match self.matrix_elementwise_op(op, l, r) {
            Some(v) => {
                return Some(v);
            },
            None => {},
        }
        let lw: usize = vec_width(l);
        let rw: usize = vec_width(r);
        let width: usize = if lw >= rw {
            lw
        } else {
            rw
        };
        if width == 0 {
            return Some(Value::Float(self.scalar_op(op, l.as_f32(), r.as_f32())));
        }
        let lc: [u32; 4] = broadcast(l, width);
        let rc: [u32; 4] = broadcast(r, width);
        let mut out: Vec<u32> = Vec::new();
        let ghost want = Seq::new(
            width as nat,
            |i: int| float_result(self.unit(), op, lc@[i], rc@[i]),
        );
        let mut i: usize = 0;
        while i < width
            invariant
                self.steady(),
                width <= 4,
                want == Seq::new(
                    width as nat,
                    |i: int| float_result(self.unit(), op, lc@[i], rc@[i]),
                ),
                i <= width,
                out@ == want.take(i as int),
            decreases width - i,
        {
            out.push(self.scalar_op(op, lc[i], rc[i]));
            assert(out@ =~= want.take(i + 1));
            i = i + 1;
        }
        assert(out@ =~= Seq::new(
            width as nat,
            |i: int|
                float_result(
                    self.unit(),
                    op,
                    spread(*l, width as int)[i],
                    spread(*r, width as int)[i],
                ),
        ));
        Some(make_vector(&out))
    }
}

/// The components of a value.
pub fn components(v: &Value) -> (c: Vec<u32>)
    ensures
        c@ == v.comps(),
{
    let total: usize = v.component_count();
    let mut c: Vec<u32> = Vec::new();
    let mut i: usize = 0;
    while i < total
        invariant
            total == v.comps().len(),
            i <= total,
            c@ == v.comps().take(i as int),
        decreases total - i,
    {
        c.push(v.component(i));
        assert(c@ =~= v.comps().take(i + 1));
        i = i + 1;
    }
    assert(c@ =~= v.comps());
    c
}

/// A column of a matrix.
fn take_column(m: &Vec<u32>, n: usize, j: usize) -> (c: Vec<u32>)
    requires
        2 <= n <= 4,
        m@.len() == n * n,
        j < n,
    ensures
        c@ == mat_column(m@, n as nat, j as int),
{
    let mut c: Vec<u32> = Vec::new();
    let mut k: usize = 0;
    while k < n
        invariant
            2 <= n <= 4,
            m@.len() == n * n,
            j < n,
            k <= n,
            c@ == mat_column(m@, n as nat, j as int).take(k as int),
        decreases n - k,
    {
        proof {
            assert(0 <= j * n && j * n + k < n * n && n * n <= 16) by (nonlinear_arith)
                requires
                    j < n,
                    k < n,
                    n <= 4,
            ;
        }
        c.push(m[j * n + k]);
        assert(c@ =~= mat_column(m@, n as nat, j as int).take(k + 1));
        k = k + 1;
    }
    assert(c@ =~= mat_column(m@, n as nat, j as int));
    c
}

/// A row of a matrix.
fn take_row(m: &Vec<u32>, n: usize, i: usize) -> (c: Vec<u32>)
    requires
        2 <= n <= 4,
        m@.len() == n * n,
        i < n,
    ensures
        c@ == mat_row(m@, n as nat, i as int),
{
    let mut c: Vec<u32> = Vec::new();
    let mut k: usize = 0;
    while k < n
        invariant
            2 <= n <= 4,
            m@.len() == n * n,
            i < n,
            k <= n,
            c@ == mat_row(m@, n as nat, i as int).take(k as int),
        decreases n - k,
    {
        proof {
            assert(0 <= k * n && k * n + i < n * n && n * n <= 16) by (nonlinear_arith)
                requires
                    i < n,
                    k < n,
                    n <= 4,
            ;
        }
        c.push(m[k * n + i]);
        assert(c@ =~= mat_row(m@, n as nat, i as int).take(k + 1));
        k = k + 1;
    }
    assert(c@ =~= mat_row(m@, n as nat, i as int));
    c
}

/// A number repeated.
fn repeated(x: u32, n: usize) -> (c: Vec<u32>)
    ensures
        c@ == Seq::new(n as nat, |k: int| x),
{
    let mut c: Vec<u32> = Vec::new();
    let mut k: usize = 0;
    while k < n
        invariant
            k <= n,
            c@ == Seq::new(k as nat, |k: int| x),
        decreases n - k,
    {
        c.push(x);
        assert(c@ =~= Seq::new((k + 1) as nat, |k: int| x));
        k = k + 1;
    }
    c
}

} // verus!
