//! Values and scopes of the SkSL interpreter.
//!
//! Everything about a value that is not arithmetic on floats: its components,
//! coercions, swizzles, construction, indexing, and integer operations.

use vstd::prelude::*;

use crate::float_bits::{
    ONE, bits_neg, bits_to_int, float_of_int, int_of_float, int_to_bits, negated,
};
use crate::sksl::ast::{BinaryOp, SkslType, UnaryOp};
use crate::text::{chars_of, same_text};

verus! {

/// A value during evaluation. Floats are bit patterns; matrices are stored by
/// columns.
#[derive(Debug, Clone, Copy)]
pub enum Value {
    /// No value.
    Void,
    /// Boolean.
    Bool(bool),
    /// Integer.
    Int(i32),
    /// Float.
    Float(u32),
    /// Two floats.
    Vec2([u32; 2]),
    /// Three floats.
    Vec3([u32; 3]),
    /// Four floats.
    Vec4([u32; 4]),
    /// 2x2 matrix.
    Mat2([u32; 4]),
    /// 3x3 matrix.
    Mat3([u32; 9]),
    /// 4x4 matrix.
    Mat4([u32; 16]),
}

/// The float of a truth value.
pub open spec fn float_of_bool(b: bool) -> u32 {
    if b {
        ONE
    } else {
        0
    }
}

impl Value {
    /// The scalar components, in storage order.
    pub open spec fn comps(self) -> Seq<u32> {
        match self {
            Value::Void => Seq::empty(),
            Value::Bool(b) => seq![float_of_bool(b)],
            Value::Int(i) => seq![float_of_int(i as int)],
            Value::Float(x) => seq![x],
            Value::Vec2(a) => a@,
            Value::Vec3(a) => a@,
            Value::Vec4(a) => a@,
            Value::Mat2(a) => a@,
            Value::Mat3(a) => a@,
            Value::Mat4(a) => a@,
        }
    }

    /// The component at `i`; zero where there is none.
    pub open spec fn comp(self, i: int) -> u32 {
        if 0 <= i < self.comps().len() {
            self.comps()[i]
        } else {
            0
        }
    }

    /// Whether the value is a single number or truth value.
    pub open spec fn is_single(self) -> bool {
        self is Bool || self is Int || self is Float
    }

    /// The value as one float; whatever has no single component collapses to
    /// zero.
    pub open spec fn scalar(self) -> u32 {
        if self.is_single() {
            self.comps()[0]
        } else {
            0
        }
    }

    /// Coerces to a float.
    pub fn as_f32(&self) -> (r: u32)
        ensures
            r == self.scalar(),
    {
        match self {
            Value::Float(x) => *x,
            Value::Int(i) => int_to_bits(*i),
            Value::Bool(b) => if *b {
                ONE
            } else {
                0
            },
            _ => 0,
        }
    }

    /// The value as an integer: a float is truncated.
    pub open spec fn whole(self) -> int {
        match self {
            Value::Int(i) => i as int,
            Value::Float(x) => int_of_float(x),
            Value::Bool(b) => if b {
                1
            } else {
                0
            },
            _ => 0,
        }
    }

    /// Coerces to an integer.
    pub fn as_i32(&self) -> (r: i32)
        ensures
            r == self.whole(),
    {
        match self {
            Value::Int(i) => *i,
            Value::Float(x) => bits_to_int(*x),
            Value::Bool(b) => if *b {
                1
            } else {
                0
            },
            _ => 0,
        }
    }

    /// The value as a truth value: a number holds unless it is zero.
    pub open spec fn truth(self) -> bool {
        match self {
            Value::Bool(b) => b,
            Value::Int(i) => i != 0,
            Value::Float(x) => x % 0x8000_0000 != 0,
            _ => false,
        }
    }

    /// Coerces to a truth value.
    pub fn as_bool(&self) -> (r: bool)
        ensures
            r == self.truth(),
    {
        match self {
            Value::Bool(b) => *b,
            Value::Int(i) => *i != 0,
            Value::Float(x) => *x % 0x8000_0000 != 0,
            _ => false,
        }
    }

    /// The value as a vector of `n` floats: a number fills every component, a
    /// longer vector is cut, and a shorter one is filled up with zeros, except
    /// that the fourth component becomes one.
    pub open spec fn as_vector(self, n: int) -> Seq<u32> {
        match self {
            Value::Int(_) | Value::Float(_) => Seq::new(n as nat, |i: int| self.comps()[0]),
            Value::Vec2(_) | Value::Vec3(_) | Value::Vec4(_) => Seq::new(
                n as nat,
                |i: int|
                    if i < self.comps().len() {
                        self.comps()[i]
                    } else if i == 3 {
                        ONE
                    } else {
                        0
                    },
            ),
            _ => Seq::new(n as nat, |i: int| 0),
        }
    }

    /// Coerces to two floats.
    pub fn as_vec2(&self) -> (r: [u32; 2])
        ensures
            r@ == self.as_vector(2),
    {
        let r: [u32; 2] = match self {
            Value::Vec2(v) => *v,
            Value::Vec3(v) => [v[0], v[1]],
            Value::Vec4(v) => [v[0], v[1]],
            Value::Float(x) => [*x, *x],
            Value::Int(i) => {
                let x: u32 = int_to_bits(*i);
                [x, x]
            },
            _ => [0, 0],
        };
        assert(r@ =~= self.as_vector(2));
        r
    }

    /// Coerces to three floats.
    pub fn as_vec3(&self) -> (r: [u32; 3])
        ensures
            r@ == self.as_vector(3),
    {
        let r: [u32; 3] = match self {
            Value::Vec3(v) => *v,
            Value::Vec4(v) => [v[0], v[1], v[2]],
            Value::Vec2(v) => [v[0], v[1], 0],
            Value::Float(x) => [*x, *x, *x],
            Value::Int(i) => {
                let x: u32 = int_to_bits(*i);
                [x, x, x]
            },
            _ => [0, 0, 0],
        };
        assert(r@ =~= self.as_vector(3));
        r
    }

    /// Coerces to four floats.
    pub fn as_vec4(&self) -> (r: [u32; 4])
        ensures
            r@ == self.as_vector(4),
    {
        let r: [u32; 4] = match self {
            Value::Vec4(v) => *v,
            Value::Vec3(v) => [v[0], v[1], v[2], ONE],
            Value::Vec2(v) => [v[0], v[1], 0, ONE],
            Value::Float(x) => [*x, *x, *x, *x],
            Value::Int(i) => {
                let x: u32 = int_to_bits(*i);
                [x, x, x, x]
            },
            _ => [0, 0, 0, 0],
        };
        assert(r@ =~= self.as_vector(4));
        r
    }

    /// The number of scalar components.
    pub fn component_count(&self) -> (n: usize)
        ensures
            n == self.comps().len(),
            n <= 16,
    {
        match self {
            Value::Float(_) | Value::Int(_) | Value::Bool(_) => 1,
            Value::Vec2(_) => 2,
            Value::Vec3(_) => 3,
            Value::Vec4(_) | Value::Mat2(_) => 4,
            Value::Mat3(_) => 9,
            Value::Mat4(_) => 16,
            Value::Void => 0,
        }
    }

    /// The component at `i`; zero where there is none.
    pub fn component(&self, i: usize) -> (r: u32)
        ensures
            r == self.comp(i as int),
    {
        match self {
            Value::Void => 0,
            Value::Vec2(v) => if i < 2 {
                v[i]
            } else {
                0
            },
            Value::Vec3(v) => if i < 3 {
                v[i]
            } else {
                0
            },
            Value::Vec4(v) => if i < 4 {
                v[i]
            } else {
                0
            },
            Value::Mat2(m) => if i < 4 {
                m[i]
            } else {
                0
            },
            Value::Mat3(m) => if i < 9 {
                m[i]
            } else {
                0
            },
            Value::Mat4(m) => if i < 16 {
                m[i]
            } else {
                0
            },
            _ => if i == 0 {
                self.as_f32()
            } else {
                0
            },
        }
    }

    /// Builds a value from components.
    pub fn from_components(c: &[u32]) -> (r: Value)
        ensures
            r == made_of(c@),
    {
        let n: usize = c.len();
        let r: Value = if n == 0 {
            Value::Void
        } else if n == 2 {
            Value::Vec2([c[0], c[1]])
        } else if n == 3 {
            Value::Vec3([c[0], c[1], c[2]])
        } else if n == 4 {
            Value::Vec4([c[0], c[1], c[2], c[3]])
        } else {
            Value::Float(c[0])
        };
        proof {
            if 2 <= n <= 4 {
                assert(r.comps() =~= c@);
                lemma_vector(c@);
                lemma_same(r, made_of(c@));
            }
        }
        r
    }
}

/// The value made of the given components: nothing, a vector of two to four
/// of them, or else the first one alone.
pub open spec fn made_of(c: Seq<u32>) -> Value {
    if c.len() == 0 {
        Value::Void
    } else {
        vector(c)
    }
}


/// The vector of two, three or four components; otherwise the first of them.
pub open spec fn vector(c: Seq<u32>) -> Value {
    if c.len() == 2 {
        Value::Vec2([c[0], c[1]])
    } else if c.len() == 3 {
        Value::Vec3([c[0], c[1], c[2]])
    } else if c.len() == 4 {
        Value::Vec4([c[0], c[1], c[2], c[3]])
    } else {
        Value::Float(c[0])
    }
}

/// The vector of two, three or four components.
pub fn make_vector(c: &Vec<u32>) -> (r: Value)
    requires
        2 <= c@.len() <= 4,
    ensures
        r == vector(c@),
{
    let n: usize = c.len();
    if n == 2 {
        let a: [u32; 2] = [c[0], c[1]];
        assert(a =~= vector(c@)->Vec2_0);
        Value::Vec2(a)
    } else if n == 3 {
        let a: [u32; 3] = [c[0], c[1], c[2]];
        assert(a =~= vector(c@)->Vec3_0);
        Value::Vec3(a)
    } else {
        let a: [u32; 4] = [c[0], c[1], c[2], c[3]];
        assert(a =~= vector(c@)->Vec4_0);
        Value::Vec4(a)
    }
}

/// The square matrix of dimension `n` with the given elements, by columns.
pub open spec fn matrix(n: nat, c: Seq<u32>) -> Value {
    if n == 2 {
        Value::Mat2([c[0], c[1], c[2], c[3]])
    } else if n == 3 {
        Value::Mat3([c[0], c[1], c[2], c[3], c[4], c[5], c[6], c[7], c[8]])
    } else {
        Value::Mat4(
            [
                c[0],
                c[1],
                c[2],
                c[3],
                c[4],
                c[5],
                c[6],
                c[7],
                c[8],
                c[9],
                c[10],
                c[11],
                c[12],
                c[13],
                c[14],
                c[15],
            ],
        )
    }
}

/// The square matrix with the given elements.
pub fn mat_from_elems(n: usize, c: &Vec<u32>) -> (r: Value)
    requires
        2 <= n <= 4,
        c@.len() == n * n,
    ensures
        r == matrix(n as nat, c@),
{
    if n == 2 {
        assert(c@.len() == 4);
        let a: [u32; 4] = [c[0], c[1], c[2], c[3]];
        assert(a =~= matrix(2, c@)->Mat2_0);
        Value::Mat2(a)
    } else if n == 3 {
        assert(c@.len() == 9);
        let a: [u32; 9] = [c[0], c[1], c[2], c[3], c[4], c[5], c[6], c[7], c[8]];
        assert(a =~= matrix(3, c@)->Mat3_0);
        Value::Mat3(a)
    } else {
        assert(c@.len() == 16);
        let a: [u32; 16] = [
            c[0],
            c[1],
            c[2],
            c[3],
            c[4],
            c[5],
            c[6],
            c[7],
            c[8],
            c[9],
            c[10],
            c[11],
            c[12],
            c[13],
            c[14],
            c[15],
        ];
        assert(a =~= matrix(4, c@)->Mat4_0);
        Value::Mat4(a)
    }
}

/// Values of one kind with the same components are the same.
proof fn lemma_same(a: Value, b: Value)
    requires
        a.comps() == b.comps(),
        a is Float <==> b is Float,
        a is Vec2 <==> b is Vec2,
        a is Vec3 <==> b is Vec3,
        a is Vec4 <==> b is Vec4,
        a is Mat2 <==> b is Mat2,
        a is Mat3 <==> b is Mat3,
        a is Mat4 <==> b is Mat4,
        a is Void <==> b is Void,
        !(a is Int || a is Bool || b is Int || b is Bool),
    ensures
        a == b,
{
    match a {
        Value::Vec2(x) => {
            assert(x =~= b->Vec2_0);
        },
        Value::Vec3(x) => {
            assert(x =~= b->Vec3_0);
        },
        Value::Vec4(x) => {
            assert(x =~= b->Vec4_0);
        },
        Value::Mat2(x) => {
            assert(x =~= b->Mat2_0);
        },
        Value::Mat3(x) => {
            assert(x =~= b->Mat3_0);
        },
        Value::Mat4(x) => {
            assert(x =~= b->Mat4_0);
        },
        Value::Float(x) => {
            assert(a.comps()[0] == x);
            assert(b.comps()[0] == b->Float_0);
        },
        _ => {},
    }
}

/// A vector has the components it is made of.
pub proof fn lemma_vector(c: Seq<u32>)
    requires
        2 <= c.len() <= 4,
    ensures
        vector(c).comps() == c,
{
    assert(vector(c).comps() =~= c);
}

/// A matrix has the elements it is made of.
pub proof fn lemma_matrix(n: nat, c: Seq<u32>)
    requires
        2 <= n <= 4,
        c.len() == n * n,
    ensures
        matrix(n, c).comps() == c,
{
    assert(n == 2 ==> c.len() == 4);
    assert(n == 3 ==> c.len() == 9);
    assert(n == 4 ==> c.len() == 16);
    assert(matrix(n, c).comps() =~= c);
}

/// The component that a swizzle letter names.
pub open spec fn swizzle_slot(c: char) -> Option<int> {
    if c == 'x' || c == 'r' || c == 's' {
        Some(0)
    } else if c == 'y' || c == 'g' || c == 't' {
        Some(1)
    } else if c == 'z' || c == 'b' || c == 'p' {
        Some(2)
    } else if c == 'w' || c == 'a' || c == 'q' {
        Some(3)
    } else {
        None
    }
}

/// The component that a swizzle letter names.
pub fn swizzle_index(c: char) -> (r: Option<usize>)
    ensures
        match r {
            Some(i) => swizzle_slot(c) == Some(i as int) && i < 4,
            None => swizzle_slot(c) is None,
        },
{
    match c {
        'x' | 'r' | 's' => Some(0),
        'y' | 'g' | 't' => Some(1),
        'z' | 'b' | 'p' => Some(2),
        'w' | 'a' | 'q' => Some(3),
        _ => None,
    }
}

/// Whether every letter of a field names a component.
pub open spec fn is_swizzle(field: Seq<char>) -> bool {
    forall|i: int| 0 <= i < field.len() ==> (#[trigger] swizzle_slot(field[i])) is Some
}

/// The components that a swizzle picks.
pub open spec fn picked(base: Value, field: Seq<char>) -> Seq<u32> {
    Seq::new(field.len(), |i: int| base.comp(swizzle_slot(field[i])->0))
}

/// The value of a swizzle; a field that is not one gives no value.
pub open spec fn swizzled(base: Value, field: Seq<char>) -> Value {
    if is_swizzle(field) {
        made_of(picked(base, field))
    } else {
        Value::Void
    }
}

/// Reads a swizzle.
pub fn swizzle(base: &Value, field: &str) -> (r: Value)
    ensures
        r == swizzled(*base, field@),
{
    let letters: Vec<char> = chars_of(field);
    let mut out: Vec<u32> = Vec::new();
    let mut i: usize = 0;
    while i < letters.len()
        invariant
            letters@ == field@,
            i <= letters@.len(),
            out@.len() == i,
            forall|j: int| 0 <= j < i ==> (#[trigger] swizzle_slot(field@[j])) is Some,
            forall|j: int| 0 <= j < i ==> #[trigger] out@[j] == base.comp(swizzle_slot(field@[j])->0),
        decreases letters@.len() - i,
    {
        match swizzle_index(letters[i]) {
            Some(k) => {
                out.push(base.component(k));
            },
            None => {
                assert(swizzle_slot(field@[i as int]) is None);
                return Value::Void;
            },
        }
        i = i + 1;
    }
    assert(out@ =~= picked(*base, field@));
    Value::from_components(out.as_slice())
}

/// The components of `base` after the first `n` letters of a swizzle have been
/// assigned from `value`. A letter beyond the base's components assigns nothing.
pub open spec fn scattered(base: Value, field: Seq<char>, value: Value, n: nat) -> Seq<u32>
    decreases n,
{
    if n == 0 || n > field.len() {
        base.comps()
    } else {
        let before = scattered(base, field, value, (n - 1) as nat);
        let slot = swizzle_slot(field[n - 1])->0;
        if slot < before.len() {
            before.update(slot, value.comp(n - 1))
        } else {
            before
        }
    }
}

/// What an assignment to a swizzle of `base` leaves there: a vector of the
/// base's width, or the assigned number where the base has no two to four
/// components. Nothing is assigned where the field is not a swizzle.
pub open spec fn swizzle_written(base: Value, field: Seq<char>, value: Value) -> Option<Value> {
    if !is_swizzle(field) {
        None
    } else if 2 <= base.comps().len() <= 4 {
        Some(vector(scattered(base, field, value, field.len())))
    } else {
        Some(Value::Float(value.scalar()))
    }
}

/// What an assignment to a swizzle of `base` leaves there.
pub fn write_swizzle(base: &Value, field: &str, value: &Value) -> (r: Option<Value>)
    ensures
        r == swizzle_written(*base, field@, *value),
{
    let letters: Vec<char> = chars_of(field);
    let n: usize = base.component_count();
    let mut c: Vec<u32> = Vec::new();
    let mut k: usize = 0;
    while k < n
        invariant
            n == base.comps().len(),
            k <= n,
            c@ == base.comps().take(k as int),
        decreases n - k,
    {
        c.push(base.component(k));
        assert(c@ =~= base.comps().take(k + 1));
        k = k + 1;
    }
    assert(c@ =~= base.comps());
    let mut i: usize = 0;
    while i < letters.len()
        invariant
            letters@ == field@,
            i <= letters@.len(),
            c@.len() == base.comps().len(),
            c@ == scattered(*base, field@, *value, i as nat),
            forall|j: int| 0 <= j < i ==> (#[trigger] swizzle_slot(field@[j])) is Some,
        decreases letters@.len() - i,
    {
        match swizzle_index(letters[i]) {
            Some(slot) => {
                if slot < c.len() {
                    c.set(slot, value.component(i));
                }
            },
            None => {
                assert(swizzle_slot(field@[i as int]) is None);
                return None;
            },
        }
        i = i + 1;
    }
    if 2 <= n && n <= 4 {
        Some(make_vector(&c))
    } else {
        Some(Value::Float(value.as_f32()))
    }
}

/// An element of a vector, or a column of a matrix; zeros where there is none.
pub open spec fn element_of(base: Value, i: int) -> Value {
    match base {
        Value::Vec2(_) | Value::Vec3(_) | Value::Vec4(_) => Value::Float(base.comp(i)),
        Value::Mat2(m) => vector(column(m@, 2, i)),
        Value::Mat3(m) => vector(column(m@, 3, i)),
        Value::Mat4(m) => vector(column(m@, 4, i)),
        _ => Value::Void,
    }
}

/// The column `i` of a matrix of dimension `n`; zeros where there is none.
pub open spec fn column(m: Seq<u32>, n: nat, i: int) -> Seq<u32> {
    if 0 <= i < n {
        m.subrange(i * n, i * n + n)
    } else {
        Seq::new(n, |k: int| 0)
    }
}

/// Reads an element.
pub fn index_value(v: &Value, i: i32) -> (r: Value)
    ensures
        r == element_of(*v, i as int),
{
    match v {
        Value::Vec2(_) | Value::Vec3(_) | Value::Vec4(_) => {
            if i < 0 {
                Value::Float(0)
            } else {
                Value::Float(v.component(i as usize))
            }
        },
        Value::Mat2(m) => {
            let r: Value = if i == 0 {
                Value::Vec2([m[0], m[1]])
            } else if i == 1 {
                Value::Vec2([m[2], m[3]])
            } else {
                Value::Vec2([0, 0])
            };
            proof {
                assert(r.comps() =~= column(m@, 2, i as int));
                lemma_vector(column(m@, 2, i as int));
                lemma_same(r, vector(column(m@, 2, i as int)));
            }
            r
        },
        Value::Mat3(m) => {
            let r: Value = if i == 0 {
                Value::Vec3([m[0], m[1], m[2]])
            } else if i == 1 {
                Value::Vec3([m[3], m[4], m[5]])
            } else if i == 2 {
                Value::Vec3([m[6], m[7], m[8]])
            } else {
                Value::Vec3([0, 0, 0])
            };
            proof {
                assert(r.comps() =~= column(m@, 3, i as int));
                lemma_vector(column(m@, 3, i as int));
                lemma_same(r, vector(column(m@, 3, i as int)));
            }
            r
        },
        Value::Mat4(m) => {
            let r: Value = if i == 0 {
                Value::Vec4([m[0], m[1], m[2], m[3]])
            } else if i == 1 {
                Value::Vec4([m[4], m[5], m[6], m[7]])
            } else if i == 2 {
                Value::Vec4([m[8], m[9], m[10], m[11]])
            } else if i == 3 {
                Value::Vec4([m[12], m[13], m[14], m[15]])
            } else {
                Value::Vec4([0, 0, 0, 0])
            };
            proof {
                assert(r.comps() =~= column(m@, 4, i as int));
                lemma_vector(column(m@, 4, i as int));
                lemma_same(r, vector(column(m@, 4, i as int)));
            }
            r
        },
        _ => Value::Void,
    }
}

/// What an assignment to the element `i` of `base` leaves there: the vector
/// with that component replaced, or the assigned value where the base is no
/// vector.
pub open spec fn index_written(base: Value, i: int, value: Value) -> Value {
    if width_of(base) == 0 {
        value
    } else if 0 <= i < base.comps().len() {
        vector(base.comps().update(i, value.scalar()))
    } else {
        base
    }
}

/// What an assignment to an element of `base` leaves there.
pub fn write_index(base: &Value, i: i32, value: &Value) -> (r: Value)
    ensures
        r == index_written(*base, i as int, *value),
{
    let x: u32 = value.as_f32();
    match base {
        Value::Vec2(v) => {
            let mut c: [u32; 2] = *v;
            if 0 <= i && i < 2 {
                c[i as usize] = x;
                proof {
                    let want = base.comps().update(i as int, x);
                    assert(c@ =~= want);
                    lemma_vector(want);
                    lemma_same(Value::Vec2(c), vector(want));
                }
            }
            Value::Vec2(c)
        },
        Value::Vec3(v) => {
            let mut c: [u32; 3] = *v;
            if 0 <= i && i < 3 {
                c[i as usize] = x;
                proof {
                    let want = base.comps().update(i as int, x);
                    assert(c@ =~= want);
                    lemma_vector(want);
                    lemma_same(Value::Vec3(c), vector(want));
                }
            }
            Value::Vec3(c)
        },
        Value::Vec4(v) => {
            let mut c: [u32; 4] = *v;
            if 0 <= i && i < 4 {
                c[i as usize] = x;
                proof {
                    let want = base.comps().update(i as int, x);
                    assert(c@ =~= want);
                    lemma_vector(want);
                    lemma_same(Value::Vec4(c), vector(want));
                }
            }
            Value::Vec4(c)
        },
        _ => *value,
    }
}

/// The components of the first `n` values, one after the other.
pub open spec fn flattened(vals: Seq<Value>, n: nat) -> Seq<u32>
    decreases n,
{
    if n == 0 || n > vals.len() {
        Seq::empty()
    } else {
        flattened(vals, (n - 1) as nat) + vals[n - 1].comps()
    }
}

/// The components of values, one after the other.
pub fn flatten_components(vals: &[Value]) -> (c: Vec<u32>)
    ensures
        c@ == flattened(vals@, vals@.len()),
{
    let mut c: Vec<u32> = Vec::new();
    let mut i: usize = 0;
    while i < vals.len()
        invariant
            i <= vals@.len(),
            c@ == flattened(vals@, i as nat),
        decreases vals@.len() - i,
    {
        let ghost before = c@;
        let n: usize = vals[i].component_count();
        let mut k: usize = 0;
        assert(c@ =~= before + vals@[i as int].comps().take(0));
        while k < n
            invariant
                i < vals@.len(),
                n == vals@[i as int].comps().len(),
                k <= n,
                c@ == before + vals@[i as int].comps().take(k as int),
            decreases n - k,
        {
            c.push(vals[i].component(k));
            assert(c@ =~= before + vals@[i as int].comps().take(k + 1));
            k = k + 1;
        }
        assert(vals@[i as int].comps().take(n as int) =~= vals@[i as int].comps());
        i = i + 1;
    }
    c
}

/// The number of components of a type that is built from components.
pub open spec fn component_total(ty: SkslType) -> Option<nat> {
    match ty {
        SkslType::Float | SkslType::Half => Some(1),
        SkslType::Vec2 | SkslType::Half2 => Some(2),
        SkslType::Vec3 | SkslType::Half3 => Some(3),
        SkslType::Vec4 | SkslType::Half4 | SkslType::Mat2 => Some(4),
        SkslType::Mat3 => Some(9),
        SkslType::Mat4 => Some(16),
        _ => None,
    }
}

/// The value of type `ty` with the components `c`.
pub open spec fn shaped(ty: SkslType, c: Seq<u32>) -> Value {
    match ty {
        SkslType::Mat2 => matrix(2, c),
        SkslType::Mat3 => matrix(3, c),
        SkslType::Mat4 => matrix(4, c),
        _ => vector(c),
    }
}

/// The components of a type built from a single number: a vector of copies, or
/// a matrix with copies on its diagonal.
pub open spec fn splat(ty: SkslType, x: u32) -> Seq<u32> {
    match ty {
        SkslType::Mat2 => Seq::new(
            4,
            |i: int|
                if i % 3 == 0 {
                    x
                } else {
                    0
                },
        ),
        SkslType::Mat3 => Seq::new(
            9,
            |i: int|
                if i % 4 == 0 {
                    x
                } else {
                    0
                },
        ),
        SkslType::Mat4 => Seq::new(
            16,
            |i: int|
                if i % 5 == 0 {
                    x
                } else {
                    0
                },
        ),
        _ => Seq::new(component_total(ty)->0, |i: int| x),
    }
}

/// The first `want` of the given components, filled up with zeros. Three
/// components for four get one as the fourth.
pub open spec fn padded(c: Seq<u32>, want: nat) -> Seq<u32> {
    Seq::new(
        want,
        |i: int|
            if i < c.len() {
                c[i]
            } else if want == 4 && c.len() == 3 {
                ONE
            } else {
                0
            },
    )
}

/// What a constructor of the given type makes of its arguments. A type that is
/// not built from components gives its first argument back.
pub open spec fn constructed(ty: SkslType, args: Seq<Value>) -> Value {
    if ty is Int {
        Value::Int(
            if args.len() > 0 {
                args[0].whole() as i32
            } else {
                0
            },
        )
    } else if ty is Bool {
        Value::Bool(args.len() > 0 && args[0].truth())
    } else {
        match component_total(ty) {
            None => if args.len() > 0 {
                args[0]
            } else {
                Value::Void
            },
            Some(want) => if args.len() == 1 && args[0].is_single() && want >= 2 {
                shaped(ty, splat(ty, args[0].scalar()))
            } else {
                shaped(ty, padded(flattened(args, args.len()), want))
            },
        }
    }
}

/// Builds the value of a type from its components.
fn shape(ty: &SkslType, c: &Vec<u32>) -> (r: Value)
    requires
        component_total(*ty) == Some(c@.len()),
    ensures
        r == shaped(*ty, c@),
{
    match ty {
        SkslType::Float | SkslType::Half => Value::Float(c[0]),
        SkslType::Mat2 => mat_from_elems(2, c),
        SkslType::Mat3 => mat_from_elems(3, c),
        SkslType::Mat4 => mat_from_elems(4, c),
        _ => make_vector(c),
    }
}

/// Evaluates a constructor.
pub fn construct(ty: &SkslType, args: &[Value]) -> (r: Value)
    ensures
        r == constructed(*ty, args@),
{
    let want: usize = match ty {
        SkslType::Float | SkslType::Half => 1,
        SkslType::Int => {
            return if args.len() > 0 {
                Value::Int(args[0].as_i32())
            } else {
                Value::Int(0)
            };
        },
        SkslType::Bool => {
            return if args.len() > 0 {
                Value::Bool(args[0].as_bool())
            } else {
                Value::Bool(false)
            };
        },
        SkslType::Vec2 | SkslType::Half2 => 2,
        SkslType::Vec3 | SkslType::Half3 => 3,
        SkslType::Vec4 | SkslType::Half4 | SkslType::Mat2 => 4,
        SkslType::Mat3 => 9,
        SkslType::Mat4 => 16,
        _ => {
            return if args.len() > 0 {
                args[0]
            } else {
                Value::Void
            };
        },
    };
    let mut c: Vec<u32> = Vec::new();
    if args.len() == 1 && args[0].component_count() == 1 && want >= 2 {
        let x: u32 = args[0].as_f32();
        let diagonal: usize = match ty {
            SkslType::Mat2 => 3,
            SkslType::Mat3 => 4,
            SkslType::Mat4 => 5,
            _ => 1,
        };
        let mut k: usize = 0;
        while k < want
            invariant
                component_total(*ty) == Some(want as nat),
                splat(*ty, x).len() == want,
                diagonal == (match *ty {
                    SkslType::Mat2 => 3int,
                    SkslType::Mat3 => 4int,
                    SkslType::Mat4 => 5int,
                    _ => 1int,
                }),
                k <= want,
                c@ == splat(*ty, x).take(k as int),
            decreases want - k,
        {
            c.push(
                if k % diagonal == 0 {
                    x
                } else {
                    0
                },
            );
            assert(c@ =~= splat(*ty, x).take(k + 1));
            k = k + 1;
        }
        assert(c@ =~= splat(*ty, x));
    } else {
        let all: Vec<u32> = flatten_components(args);
        let mut k: usize = 0;
        while k < want
            invariant
                k <= want,
                c@ == padded(all@, want as nat).take(k as int),
            decreases want - k,
        {
            let x: u32 = if k < all.len() {
                all[k]
            } else if want == 4 && all.len() == 3 {
                ONE
            } else {
                0
            };
            c.push(x);
            assert(c@ =~= padded(all@, want as nat).take(k + 1));
            k = k + 1;
        }
        assert(c@ =~= padded(all@, want as nat));
    }
    shape(ty, &c)
}

/// The components with their signs flipped.
pub open spec fn all_negated(c: Seq<u32>) -> Seq<u32> {
    Seq::new(c.len(), |i: int| negated(c[i]))
}

/// What a unary operator makes of a value. Negation keeps the shape of the
/// value; an operator that does not apply leaves it unchanged.
pub open spec fn unary_value(op: UnaryOp, v: Value) -> Value {
    match op {
        UnaryOp::Not => Value::Bool(!v.truth()),
        UnaryOp::BitNot => match v {
            Value::Int(i) => Value::Int(!i),
            _ => v,
        },
        UnaryOp::Neg => match v {
            Value::Int(i) => Value::Int((-i) as i32),
            Value::Float(_) | Value::Vec2(_) | Value::Vec3(_) | Value::Vec4(_) => vector(
                all_negated(v.comps()),
            ),
            Value::Mat2(_) => matrix(2, all_negated(v.comps())),
            Value::Mat3(_) => matrix(3, all_negated(v.comps())),
            Value::Mat4(_) => matrix(4, all_negated(v.comps())),
            _ => v,
        },
    }
}

/// Applies a unary operator.
pub fn apply_unary(op: UnaryOp, v: &Value) -> (r: Value)
    requires
        !(op is Neg && *v == Value::Int(i32::MIN)),
    ensures
        r == unary_value(op, *v),
{
    match op {
        UnaryOp::Not => Value::Bool(!v.as_bool()),
        UnaryOp::BitNot => match v {
            Value::Int(i) => Value::Int(!*i),
            _ => *v,
        },
        UnaryOp::Neg => {
            let r: Value = match v {
                Value::Int(i) => Value::Int(-*i),
                Value::Float(x) => Value::Float(bits_neg(*x)),
                Value::Vec2(a) => Value::Vec2([bits_neg(a[0]), bits_neg(a[1])]),
                Value::Vec3(a) => Value::Vec3([bits_neg(a[0]), bits_neg(a[1]), bits_neg(a[2])]),
                Value::Vec4(a) => Value::Vec4(
                    [bits_neg(a[0]), bits_neg(a[1]), bits_neg(a[2]), bits_neg(a[3])],
                ),
                Value::Mat2(a) => Value::Mat2(
                    [bits_neg(a[0]), bits_neg(a[1]), bits_neg(a[2]), bits_neg(a[3])],
                ),
                Value::Mat3(a) => {
                    let mut out: [u32; 9] = *a;
                    let mut i: usize = 0;
                    while i < 9
                        invariant
                            i <= 9,
                            forall|k: int| 0 <= k < i ==> #[trigger] out@[k] == negated(a@[k]),
                        decreases 9 - i,
                    {
                        out[i] = bits_neg(a[i]);
                        i = i + 1;
                    }
                    Value::Mat3(out)
                },
                Value::Mat4(a) => {
                    let mut out: [u32; 16] = *a;
                    let mut i: usize = 0;
                    while i < 16
                        invariant
                            i <= 16,
                            forall|k: int| 0 <= k < i ==> #[trigger] out@[k] == negated(a@[k]),
                        decreases 16 - i,
                    {
                        out[i] = bits_neg(a[i]);
                        i = i + 1;
                    }
                    Value::Mat4(out)
                },
                _ => *v,
            };
            proof {
                if !(v is Int || v is Bool || v is Void || v is Float) {
                    assert(r.comps() =~= all_negated(v.comps()));
                    if v is Mat2 || v is Mat3 || v is Mat4 {
                        let n: nat = if v is Mat2 {
                            2
                        } else if v is Mat3 {
                            3
                        } else {
                            4
                        };
                        assert(all_negated(v.comps()).len() == n * n);
                        lemma_matrix(n, all_negated(v.comps()));
                    } else {
                        lemma_vector(all_negated(v.comps()));
                    }
                    lemma_same(r, unary_value(op, *v));
                }
            }
            r
        },
    }
}

/// The remainder of a division that truncates toward zero.
pub open spec fn truncated_rem(a: int, b: int) -> int {
    if a < 0 {
        -((-a) % (if b < 0 {
            -b
        } else {
            b
        }))
    } else {
        a % (if b < 0 {
            -b
        } else {
            b
        })
    }
}

/// The quotient of a division that truncates toward zero.
pub open spec fn truncated_div(a: int, b: int) -> int {
    (a - truncated_rem(a, b)) / b
}

/// The result of an operator on integers. Sums and products wrap around,
/// division by zero gives zero, and a shift counts modulo the width.
pub open spec fn int_result(op: BinaryOp, a: i32, b: i32) -> i32 {
    match op {
        BinaryOp::Add => a.wrapping_add(b),
        BinaryOp::Sub => a.wrapping_sub(b),
        BinaryOp::Mul => a.wrapping_mul(b),
        BinaryOp::Div => if b == 0 {
            0
        } else {
            truncated_div(a as int, b as int) as i32
        },
        BinaryOp::Mod => if b == 0 {
            0
        } else {
            truncated_rem(a as int, b as int) as i32
        },
        BinaryOp::BitAnd => a & b,
        BinaryOp::BitOr => a | b,
        BinaryOp::BitXor => a ^ b,
        BinaryOp::Shl => a.wrapping_shl(b as u32),
        BinaryOp::Shr => a.wrapping_shr(b as u32),
        _ => 0,
    }
}

/// Applies an operator to integers.
pub fn int_binary(op: BinaryOp, a: i32, b: i32) -> (r: i32)
    requires
        !((op is Div || op is Mod) && a == i32::MIN && b == -1),
    ensures
        r == int_result(op, a, b),
{
    match op {
        BinaryOp::Add => a.wrapping_add(b),
        BinaryOp::Sub => a.wrapping_sub(b),
        BinaryOp::Mul => a.wrapping_mul(b),
        BinaryOp::Div => if b == 0 {
            0
        } else {
            divide(a, b).0
        },
        BinaryOp::Mod => if b == 0 {
            0
        } else {
            divide(a, b).1
        },
        BinaryOp::BitAnd => a & b,
        BinaryOp::BitOr => a | b,
        BinaryOp::BitXor => a ^ b,
        BinaryOp::Shl => a.wrapping_shl(b as u32),
        BinaryOp::Shr => a.wrapping_shr(b as u32),
        _ => 0,
    }
}

/// The quotient and remainder of a division that truncates toward zero.
fn divide(a: i32, b: i32) -> (r: (i32, i32))
    requires
        b != 0,
        !(a == i32::MIN && b == -1),
    ensures
        r.0 == truncated_div(a as int, b as int),
        r.1 == truncated_rem(a as int, b as int),
{
    let x: u64 = if a < 0 {
        (-(a as i64)) as u64
    } else {
        a as u64
    };
    let y: u64 = if b < 0 {
        (-(b as i64)) as u64
    } else {
        b as u64
    };
    let q: u64 = x / y;
    let m: u64 = x % y;
    proof {
        assert(x == y * q + m && m < y) by (nonlinear_arith)
            requires
                q == x / y,
                m == x % y,
                y > 0,
        ;
        assert(q <= x) by (nonlinear_arith)
            requires
                q == x / y,
                y > 0,
        ;
        if y >= 2 {
            assert(2 * q <= x) by (nonlinear_arith)
                requires
                    x == y * q + m,
                    y >= 2,
                    q >= 0,
                    m >= 0,
            ;
        }
    }
    let rem: i64 = if a < 0 {
        -(m as i64)
    } else {
        m as i64
    };
    let quo: i64 = if (a < 0) != (b < 0) {
        -(q as i64)
    } else {
        q as i64
    };
    proof {
        let bi = b as int;
        let qi = quo as int;
        assert(a - rem == bi * qi) by (nonlinear_arith)
            requires
                x == y * q + m,
                x == (if a < 0 {
                    -(a as int)
                } else {
                    a as int
                }),
                y == (if b < 0 {
                    -(b as int)
                } else {
                    b as int
                }),
                rem == (if a < 0 {
                    -(m as int)
                } else {
                    m as int
                }),
                qi == (if (a < 0) != (b < 0) {
                    -(q as int)
                } else {
                    q as int
                }),
                bi == b,
        ;
        assert((bi * qi) / bi == qi) by (nonlinear_arith)
            requires
                bi != 0,
        ;
    }
    (quo as i32, rem as i32)
}

/// The number of components of a vector; zero for anything else.
pub open spec fn width_of(v: Value) -> int {
    match v {
        Value::Vec2(_) => 2,
        Value::Vec3(_) => 3,
        Value::Vec4(_) => 4,
        _ => 0,
    }
}

/// The number of components of a vector.
pub fn vec_width(v: &Value) -> (n: usize)
    ensures
        n == width_of(*v),
        n <= 4,
{
    match v {
        Value::Vec2(_) => 2,
        Value::Vec3(_) => 3,
        Value::Vec4(_) => 4,
        _ => 0,
    }
}

/// A value spread over four places: the components of a vector, or the first
/// `width` places filled with a number; zero elsewhere.
pub open spec fn spread(v: Value, width: int) -> Seq<u32> {
    Seq::new(
        4,
        |i: int|
            if width_of(v) > 0 {
                v.comp(i)
            } else if i < width {
                v.scalar()
            } else {
                0
            },
    )
}

/// Spreads a value over four places.
pub fn broadcast(v: &Value, width: usize) -> (r: [u32; 4])
    ensures
        r@ == spread(*v, width as int),
{
    let r: [u32; 4] = match v {
        Value::Vec2(a) => [a[0], a[1], 0, 0],
        Value::Vec3(a) => [a[0], a[1], a[2], 0],
        Value::Vec4(a) => *a,
        _ => {
            let x: u32 = v.as_f32();
            [
                if width > 0 {
                    x
                } else {
                    0
                },
                if width > 1 {
                    x
                } else {
                    0
                },
                if width > 2 {
                    x
                } else {
                    0
                },
                if width > 3 {
                    x
                } else {
                    0
                },
            ]
        },
    };
    assert(r@ =~= spread(*v, width as int));
    r
}

/// Reading back a swizzle that was just written gives the written components.
pub proof fn swizzle_reads_what_was_written(base: Value, field: Seq<char>, value: Value, i: int)
    requires
        2 <= base.comps().len() <= 4,
        is_swizzle(field),
        forall|a: int, b: int|
            0 <= a < b < field.len() ==> #[trigger] swizzle_slot(field[a])
                != #[trigger] swizzle_slot(field[b]),
        0 <= i < field.len(),
        swizzle_slot(field[i])->0 < base.comps().len(),
    ensures
        scattered(base, field, value, field.len())[swizzle_slot(field[i])->0] == value.comp(i),
{
    lemma_scattered_at(base, field, value, field.len(), i);
}

/// A component assigned once keeps its value through later letters.
proof fn lemma_scattered_at(base: Value, field: Seq<char>, value: Value, n: nat, i: int)
    requires
        is_swizzle(field),
        forall|a: int, b: int|
            0 <= a < b < field.len() ==> #[trigger] swizzle_slot(field[a])
                != #[trigger] swizzle_slot(field[b]),
        0 <= i < n <= field.len(),
        swizzle_slot(field[i])->0 < base.comps().len(),
    ensures
        scattered(base, field, value, n).len() == base.comps().len(),
        scattered(base, field, value, n)[swizzle_slot(field[i])->0] == value.comp(i),
    decreases n,
{
    lemma_scattered_len(base, field, value, (n - 1) as nat);
    assert(swizzle_slot(field[n - 1]) is Some);
    if i < n - 1 {
        lemma_scattered_at(base, field, value, (n - 1) as nat, i);
        assert(swizzle_slot(field[i]) != swizzle_slot(field[n - 1]));
    }
}

/// Assigning components keeps their number.
proof fn lemma_scattered_len(base: Value, field: Seq<char>, value: Value, n: nat)
    requires
        is_swizzle(field),
        n <= field.len(),
    ensures
        scattered(base, field, value, n).len() == base.comps().len(),
    decreases n,
{
    if n > 0 {
        assert(swizzle_slot(field[n - 1]) is Some);
        lemma_scattered_len(base, field, value, (n - 1) as nat);
    }
}

/// A variable and its value.
struct Slot {
    name: String,
    value: Value,
}

/// The variables of one scope. A later entry of a name replaces earlier ones.
spec fn scope_map(s: Seq<Slot>) -> Map<Seq<char>, Value>
    decreases s.len(),
{
    if s.len() == 0 {
        Map::empty()
    } else {
        scope_map(s.drop_last()).insert(s.last().name@, s.last().value)
    }
}

/// The value of a variable in the first `n` scopes: the innermost one counts.
pub open spec fn found(scopes: Seq<Map<Seq<char>, Value>>, n: nat, name: Seq<char>) -> Option<Value>
    decreases n,
{
    if n == 0 || n > scopes.len() {
        None
    } else if scopes[n - 1].dom().contains(name) {
        Some(scopes[n - 1][name])
    } else {
        found(scopes, (n - 1) as nat, name)
    }
}

/// The innermost of the first `n` scopes that has a variable.
pub open spec fn holder(scopes: Seq<Map<Seq<char>, Value>>, n: nat, name: Seq<char>) -> Option<int>
    decreases n,
{
    if n == 0 || n > scopes.len() {
        None
    } else if scopes[n - 1].dom().contains(name) {
        Some(n - 1)
    } else {
        holder(scopes, (n - 1) as nat, name)
    }
}

/// The scopes after a declaration in the innermost one.
pub open spec fn declared(
    scopes: Seq<Map<Seq<char>, Value>>,
    name: Seq<char>,
    value: Value,
) -> Seq<Map<Seq<char>, Value>> {
    if scopes.len() == 0 {
        scopes
    } else {
        scopes.update(scopes.len() - 1, scopes.last().insert(name, value))
    }
}

/// The scopes after an assignment: the innermost scope that has the variable
/// changes, or the variable appears in the innermost scope of all.
pub open spec fn assigned(
    scopes: Seq<Map<Seq<char>, Value>>,
    name: Seq<char>,
    value: Value,
) -> Seq<Map<Seq<char>, Value>> {
    match holder(scopes, scopes.len(), name) {
        Some(i) => scopes.update(i, scopes[i].insert(name, value)),
        None => declared(scopes, name, value),
    }
}

/// The nested scopes of a running program.
pub struct Scopes {
    frames: Vec<Vec<Slot>>,
}

impl View for Scopes {
    type V = Seq<Map<Seq<char>, Value>>;

    closed spec fn view(&self) -> Seq<Map<Seq<char>, Value>> {
        Seq::new(self.frames@.len(), |i: int| scope_map(self.frames@[i]@))
    }
}

/// The last entry of a name in a scope.
fn find_slot(frame: &Vec<Slot>, name: &str) -> (r: Option<usize>)
    ensures
        match r {
            Some(i) => i < frame@.len() && frame@[i as int].name@ == name@ && scope_map(
                frame@,
            ).dom().contains(name@) && scope_map(frame@)[name@] == frame@[i as int].value && (
            forall|j: int| i < j < frame@.len() ==> (#[trigger] frame@[j]).name@ != name@),
            None => !scope_map(frame@).dom().contains(name@),
        },
{
    let mut i: usize = frame.len();
    assert(frame@.take(i as int) =~= frame@);
    proof {
        lemma_scope_tail(frame@, frame@.len() as int, name@);
    }
    while i > 0
        invariant
            i <= frame@.len(),
            forall|j: int| i <= j < frame@.len() ==> (#[trigger] frame@[j]).name@ != name@,
        decreases i,
    {
        if same_text(frame[i - 1].name.as_str(), name) {
            proof {
                lemma_scope_tail(frame@, i as int, name@);
                let t = frame@.take(i as int);
                assert(t.last() == frame@[i - 1]);
            }
            return Some(i - 1);
        }
        i = i - 1;
    }
    proof {
        lemma_scope_tail(frame@, 0, name@);
        assert(frame@.take(0) =~= Seq::empty());
    }
    None
}

/// Entries of other names do not matter for a name.
proof fn lemma_scope_tail(s: Seq<Slot>, k: int, name: Seq<char>)
    requires
        0 <= k <= s.len(),
        forall|j: int| k <= j < s.len() ==> (#[trigger] s[j]).name@ != name,
    ensures
        scope_map(s).dom().contains(name) == scope_map(s.take(k)).dom().contains(name),
        scope_map(s).dom().contains(name) ==> scope_map(s)[name] == scope_map(s.take(k))[name],
    decreases s.len(),
{
    if k == s.len() {
        assert(s.take(k) =~= s);
    } else {
        let t = s.drop_last();
        assert(s[s.len() - 1].name@ != name);
        assert forall|j: int| k <= j < t.len() implies (#[trigger] t[j]).name@ != name by {
            assert(t[j] == s[j]);
        }
        lemma_scope_tail(t, k, name);
        assert(t.take(k) =~= s.take(k));
    }
}

/// Changing the last entry of a name changes the variable.
proof fn lemma_scope_update(s: Seq<Slot>, i: int, x: Slot)
    requires
        0 <= i < s.len(),
        x.name@ == s[i].name@,
        forall|j: int| i < j < s.len() ==> (#[trigger] s[j]).name@ != x.name@,
    ensures
        scope_map(s.update(i, x)) == scope_map(s).insert(x.name@, x.value),
    decreases s.len(),
{
    let u = s.update(i, x);
    if i == s.len() - 1 {
        assert(u.drop_last() =~= s.drop_last());
        assert(scope_map(u) =~= scope_map(s).insert(x.name@, x.value));
    } else {
        let t = s.drop_last();
        assert forall|j: int| i < j < t.len() implies (#[trigger] t[j]).name@ != x.name@ by {
            assert(t[j] == s[j]);
        }
        lemma_scope_update(t, i, x);
        assert(u.drop_last() =~= t.update(i, x));
        assert(u.last() == s.last());
        assert(s[s.len() - 1].name@ != x.name@);
        assert(scope_map(u) =~= scope_map(s).insert(x.name@, x.value));
    }
}

impl Scopes {
    /// One empty scope.
    pub fn new() -> (s: Scopes)
        ensures
            s@ == seq![Map::<Seq<char>, Value>::empty()],
    {
        let mut frames: Vec<Vec<Slot>> = Vec::new();
        frames.push(Vec::new());
        let s: Scopes = Scopes { frames };
        assert(s@ =~= seq![Map::<Seq<char>, Value>::empty()]);
        s
    }

    /// Opens a scope.
    pub fn push_scope(&mut self)
        ensures
            final(self)@ == old(self)@.push(Map::empty()),
    {
        self.frames.push(Vec::new());
        assert(self@ =~= old(self)@.push(Map::empty()));
    }

    /// Closes the innermost scope.
    pub fn pop_scope(&mut self)
        ensures
            final(self)@ == (if old(self)@.len() == 0 {
                old(self)@
            } else {
                old(self)@.drop_last()
            }),
    {
        let _ = self.frames.pop();
        assert(self@ =~= if old(self)@.len() == 0 {
            old(self)@
        } else {
            old(self)@.drop_last()
        });
    }

    /// The value of a variable.
    pub fn lookup(&self, name: &str) -> (r: Option<Value>)
        ensures
            r == found(self@, self@.len(), name@),
    {
        let mut n: usize = self.frames.len();
        while n > 0
            invariant
                n <= self@.len() == self.frames@.len(),
                found(self@, self@.len(), name@) == found(self@, n as nat, name@),
            decreases n,
        {
            assert(self@[n - 1] == scope_map(self.frames@[n - 1]@));
            match find_slot(&self.frames[n - 1], name) {
                Some(i) => {
                    return Some(self.frames[n - 1][i].value);
                },
                None => {},
            }
            n = n - 1;
        }
        None
    }

    /// Declares a variable in the innermost scope.
    pub fn declare(&mut self, name: &str, value: Value)
        ensures
            final(self)@ == declared(old(self)@, name@, value),
    {
        let n: usize = self.frames.len();
        if n == 0 {
            return;
        }
        match self.frames.pop() {
            Some(frame) => {
                let mut frame: Vec<Slot> = frame;
                let ghost before = frame@;
                frame.push(Slot { name: String::from_str(name), value });
                assert(frame@.drop_last() =~= before);
                self.frames.push(frame);
                assert(self@ =~= declared(old(self)@, name@, value));
            },
            None => {},
        }
    }

    /// Assigns a variable.
    pub fn assign(&mut self, name: &str, value: Value)
        ensures
            final(self)@ == assigned(old(self)@, name@, value),
    {
        let ghost all = self@;
        let mut n: usize = self.frames.len();
        while n > 0
            invariant
                n <= all.len() == self.frames@.len(),
                self@ == all,
                all == old(self)@,
                holder(all, all.len(), name@) == holder(all, n as nat, name@),
            decreases n,
        {
            assert(self@[n - 1] == scope_map(self.frames@[n - 1]@));
            match find_slot(&self.frames[n - 1], name) {
                Some(i) => {
                    let ghost frame = self.frames@[n - 1]@;
                    let x: Slot = Slot { name: String::from_str(name), value };
                    proof {
                        lemma_scope_update(frame, i as int, x);
                    }
                    self.frames[n - 1].set(i, x);
                    assert(self@ =~= assigned(all, name@, value));
                    return;
                },
                None => {},
            }
            n = n - 1;
        }
        self.declare(name, value);
    }
}

/// A variable just assigned is what a lookup finds, and no other variable
/// changes.
pub proof fn assignment_is_found(
    scopes: Seq<Map<Seq<char>, Value>>,
    name: Seq<char>,
    value: Value,
    other: Seq<char>,
)
    requires
        scopes.len() > 0,
    ensures
        found(assigned(scopes, name, value), scopes.len(), name) == Some(value),
        other != name ==> found(assigned(scopes, name, value), scopes.len(), other) == found(
            scopes,
            scopes.len(),
            other,
        ),
{
    let after = assigned(scopes, name, value);
    lemma_holder(scopes, scopes.len(), name);
    let k = match holder(scopes, scopes.len(), name) {
        Some(i) => i,
        None => scopes.len() - 1,
    };
    assert(after == scopes.update(k, scopes[k].insert(name, value)));
    lemma_found_in(after, scopes.len(), k, name);
    if other != name {
        lemma_found_same(scopes, after, scopes.len(), other);
    }
}

/// An assignment leaves the number of scopes as it was.
pub proof fn lemma_assigned_len(scopes: Seq<Map<Seq<char>, Value>>, name: Seq<char>, value: Value)
    ensures
        assigned(scopes, name, value).len() == scopes.len(),
{
    lemma_holder(scopes, scopes.len(), name);
}

/// The holder of a variable is the innermost scope that has it.
proof fn lemma_holder(scopes: Seq<Map<Seq<char>, Value>>, n: nat, name: Seq<char>)
    requires
        n <= scopes.len(),
    ensures
        match holder(scopes, n, name) {
            Some(i) => 0 <= i < n && scopes[i].dom().contains(name) && forall|j: int|
                i < j < n ==> !(#[trigger] scopes[j]).dom().contains(name),
            None => forall|j: int| 0 <= j < n ==> !(#[trigger] scopes[j]).dom().contains(name),
        },
    decreases n,
{
    if n > 0 {
        lemma_holder(scopes, (n - 1) as nat, name);
    }
}

/// A variable is found in the innermost scope that has it.
proof fn lemma_found_in(scopes: Seq<Map<Seq<char>, Value>>, n: nat, k: int, name: Seq<char>)
    requires
        0 <= k < n <= scopes.len(),
        scopes[k].dom().contains(name),
        forall|j: int| k < j < n ==> !(#[trigger] scopes[j]).dom().contains(name),
    ensures
        found(scopes, n, name) == Some(scopes[k][name]),
    decreases n,
{
    if k < n - 1 {
        assert(!scopes[n - 1].dom().contains(name));
        lemma_found_in(scopes, (n - 1) as nat, k, name);
    }
}

/// Scopes that agree on a variable agree on what is found.
proof fn lemma_found_same(
    a: Seq<Map<Seq<char>, Value>>,
    b: Seq<Map<Seq<char>, Value>>,
    n: nat,
    name: Seq<char>,
)
    requires
        a.len() == b.len(),
        n <= a.len(),
        forall|j: int|
            0 <= j < n ==> (#[trigger] a[j]).dom().contains(name) == b[j].dom().contains(name) && (
            a[j].dom().contains(name) ==> a[j][name] == b[j][name]),
    ensures
        found(a, n, name) == found(b, n, name),
    decreases n,
{
    if n > 0 {
        assert(a[n - 1].dom().contains(name) == b[n - 1].dom().contains(name));
        lemma_found_same(a, b, (n - 1) as nat, name);
    }
}

} // verus!
