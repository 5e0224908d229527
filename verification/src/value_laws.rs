//! What operators do to the values of a program.

use vstd::prelude::*;

use crate::arith::{
    FloatOp, Unit, binary_value, comparison, dimension, dot_sum, inner, mat_column, mat_row,
    product,
};
use crate::exact::{
    amount, constants_stand_for_numbers, exact, lemma_add, lemma_div, lemma_floor, lemma_mul,
    lemma_mul_add, lemma_one, lemma_sub, magnitude_is_absolute, negation_is_opposite, one,
    patterns_order_as_numbers, stands_for, whole_numbers_are_floats,
};
use crate::float_bits::{float_eq, is_finite, is_nan, magnitude, negated};
use crate::interp::{Value, lemma_vector, unary_value, vector, width_of};
use crate::sksl::ast::{BinaryOp, UnaryOp};

verus! {

/// Comparisons of numbers follow their order.
pub proof fn comparisons_follow_the_numbers(u: Unit, l: Value, r: Value)
    requires
        is_finite(l.scalar()),
        is_finite(r.scalar()),
    ensures
        comparison(u, BinaryOp::Lt, l, r) <==> amount(l.scalar()) < amount(r.scalar()),
        comparison(u, BinaryOp::LtEq, l, r) <==> amount(l.scalar()) <= amount(r.scalar()),
        comparison(u, BinaryOp::Gt, l, r) <==> amount(l.scalar()) > amount(r.scalar()),
        comparison(u, BinaryOp::GtEq, l, r) <==> amount(l.scalar()) >= amount(r.scalar()),
{
    patterns_order_as_numbers(l.scalar(), r.scalar());
    patterns_order_as_numbers(r.scalar(), l.scalar());
}

/// Of two numbers, infinite ones among them, the first is at least the second
/// exactly if it is not smaller, and exactly if it is larger or equal. Nothing
/// compares with a NaN.
pub proof fn comparisons_exclude_each_other(u: Unit, l: Value, r: Value)
    ensures
        !is_nan(l.scalar()) && !is_nan(r.scalar()) ==> {
            &&& comparison(u, BinaryOp::GtEq, l, r) != comparison(u, BinaryOp::Lt, l, r)
            &&& comparison(u, BinaryOp::LtEq, l, r) != comparison(u, BinaryOp::Gt, l, r)
            &&& comparison(u, BinaryOp::GtEq, l, r) == (comparison(u, BinaryOp::Gt, l, r)
                || float_eq(l.scalar(), r.scalar()))
            &&& comparison(u, BinaryOp::Gt, l, r) == comparison(u, BinaryOp::Lt, r, l)
            &&& comparison(u, BinaryOp::GtEq, l, r) == comparison(u, BinaryOp::LtEq, r, l)
        },
        is_nan(l.scalar()) || is_nan(r.scalar()) ==> {
            &&& !comparison(u, BinaryOp::Lt, l, r)
            &&& !comparison(u, BinaryOp::LtEq, l, r)
            &&& !comparison(u, BinaryOp::Gt, l, r)
            &&& !comparison(u, BinaryOp::GtEq, l, r)
        },
        comparison(u, BinaryOp::NotEq, l, r) != comparison(u, BinaryOp::Eq, l, r),
{
}

/// Comparisons of integers follow their order; equality of integers is exact.
pub proof fn comparisons_of_integers(u: Unit, a: i32, b: i32)
    ensures
        comparison(u, BinaryOp::Eq, Value::Int(a), Value::Int(b)) <==> a == b,
        -0x100_0000 < a < 0x100_0000 && -0x100_0000 < b < 0x100_0000 ==> {
            &&& comparison(u, BinaryOp::Lt, Value::Int(a), Value::Int(b)) <==> a < b
            &&& comparison(u, BinaryOp::LtEq, Value::Int(a), Value::Int(b)) <==> a <= b
            &&& comparison(u, BinaryOp::Gt, Value::Int(a), Value::Int(b)) <==> a > b
            &&& comparison(u, BinaryOp::GtEq, Value::Int(a), Value::Int(b)) <==> a >= b
        },
{
    if -0x100_0000 < a < 0x100_0000 && -0x100_0000 < b < 0x100_0000 {
        whole_numbers_are_floats(a as int);
        whole_numbers_are_floats(b as int);
        lemma_one();
        let (x, y) = (Value::Int(a), Value::Int(b));
        comparisons_follow_the_numbers(u, x, y);
        assert(a < b ==> a * one() < b * one()) by (nonlinear_arith)
            requires
                one() > 0,
        ;
        assert(b < a ==> b * one() < a * one()) by (nonlinear_arith)
            requires
                one() > 0,
        ;
    }
}

/// Equal numbers are equal; numbers that differ by the float epsilon or more
/// are not.
pub proof fn equality_of_numbers(u: Unit, a: u32, b: u32, d: u32)
    requires
        exact(u.arith),
        is_finite(a),
        is_finite(b),
        stands_for(d, amount(a) - amount(b)),
    ensures
        comparison(u, BinaryOp::Eq, Value::Float(a), Value::Float(b)) <==> -amount(0x3400_0000)
            < amount(a) - amount(b) < amount(0x3400_0000),
        amount(a) == amount(b) ==> comparison(u, BinaryOp::Eq, Value::Float(a), Value::Float(b)),
{
    let x = (u.arith)(FloatOp::Sub, a, b, 0);
    lemma_sub(u.arith, a, b, d);
    magnitude_is_absolute(x);
    patterns_order_as_numbers(magnitude(x) as u32, 0x3400_0000);
    patterns_order_as_numbers(0, 0x3400_0000);
    constants_stand_for_numbers();
    assert(Value::Float(a).scalar() == a && Value::Float(b).scalar() == b);
}

/// The number that an operator gives, where it gives one.
pub open spec fn given(u: Unit, op: BinaryOp, l: Value, r: Value) -> u32 {
    binary_value(u, op, l, r)->0.scalar()
}

/// Sums and differences of floats are those of the numbers, wherever there is a
/// float for them.
pub proof fn sums_of_numbers(u: Unit, a: u32, b: u32, r: u32)
    requires
        exact(u.arith),
        is_finite(a),
        is_finite(b),
        is_finite(r),
    ensures
        binary_value(u, BinaryOp::Add, Value::Float(a), Value::Float(b)) is Some,
        binary_value(u, BinaryOp::Sub, Value::Float(a), Value::Float(b)) is Some,
        amount(r) == amount(a) + amount(b) ==> stands_for(
            given(u, BinaryOp::Add, Value::Float(a), Value::Float(b)),
            amount(r),
        ),
        amount(r) == amount(a) - amount(b) ==> stands_for(
            given(u, BinaryOp::Sub, Value::Float(a), Value::Float(b)),
            amount(r),
        ),
{
    if amount(r) == amount(a) + amount(b) {
        lemma_add(u.arith, a, b, r);
    }
    if amount(r) == amount(a) - amount(b) {
        lemma_sub(u.arith, a, b, r);
    }
}

/// Products and quotients of floats are those of the numbers, wherever there is a
/// float for them.
pub proof fn products_of_numbers(u: Unit, a: u32, b: u32, r: u32)
    requires
        exact(u.arith),
        is_finite(a),
        is_finite(b),
        is_finite(r),
    ensures
        amount(r) * one() == amount(a) * amount(b) ==> stands_for(
            given(u, BinaryOp::Mul, Value::Float(a), Value::Float(b)),
            amount(r),
        ),
        amount(b) != 0 && amount(r) * amount(b) == amount(a) * one() ==> stands_for(
            given(u, BinaryOp::Div, Value::Float(a), Value::Float(b)),
            amount(r),
        ),
{
    if amount(r) * one() == amount(a) * amount(b) {
        lemma_mul(u.arith, a, b, r);
    }
    if amount(b) != 0 && amount(r) * amount(b) == amount(a) * one() {
        lemma_div(u.arith, a, b, r);
    }
}

/// The remainder of two floats lies between zero and the divisor, and leaves a
/// whole multiple of it; so it is stated for quotients that are floats.
pub proof fn remainders_of_numbers(u: Unit, a: u32, b: u32, q: u32, n: u32, r: u32)
    requires
        exact(u.arith),
        is_finite(a),
        is_finite(b),
        is_finite(q),
        is_finite(n),
        is_finite(r),
        amount(b) > 0,
        amount(q) * amount(b) == amount(a) * one(),
        amount(n) % one() == 0,
        amount(n) <= amount(q) < amount(n) + one(),
        0 <= amount(r) < amount(b),
        amount(n) * amount(b) + amount(r) * one() == amount(a) * one(),
    ensures
        stands_for(given(u, BinaryOp::Mod, Value::Float(a), Value::Float(b)), amount(r)),
{
    let d = (u.arith)(FloatOp::Div, a, b, 0);
    lemma_div(u.arith, a, b, q);
    lemma_floor(u.arith, d, n);
    let f = (u.arith)(FloatOp::Floor, d, 0, 0);
    negation_is_opposite(b);
    assert(amount(r) * one() == amount(f) * amount(negated(b)) + amount(a) * one())
        by (nonlinear_arith)
        requires
            amount(f) == amount(n),
            amount(negated(b)) == -amount(b),
            amount(n) * amount(b) + amount(r) * one() == amount(a) * one(),
    ;
    lemma_mul_add(u.arith, f, negated(b), a, r);
}

/// Integers are added, subtracted and multiplied as such, as far as they fit; a
/// division by zero gives zero, and any other one truncates toward zero.
pub proof fn operators_on_integers(u: Unit, a: i32, b: i32)
    ensures
        i32::MIN <= a + b <= i32::MAX ==> binary_value(
            u,
            BinaryOp::Add,
            Value::Int(a),
            Value::Int(b),
        ) == Some(Value::Int((a + b) as i32)),
        i32::MIN <= a - b <= i32::MAX ==> binary_value(
            u,
            BinaryOp::Sub,
            Value::Int(a),
            Value::Int(b),
        ) == Some(Value::Int((a - b) as i32)),
        i32::MIN <= a * b <= i32::MAX ==> binary_value(
            u,
            BinaryOp::Mul,
            Value::Int(a),
            Value::Int(b),
        ) == Some(Value::Int((a * b) as i32)),
        b == 0 ==> binary_value(u, BinaryOp::Div, Value::Int(a), Value::Int(b)) == Some(
            Value::Int(0),
        ) && binary_value(u, BinaryOp::Mod, Value::Int(a), Value::Int(b)) == Some(Value::Int(0)),
        a >= 0 && b > 0 ==> binary_value(u, BinaryOp::Div, Value::Int(a), Value::Int(b)) == Some(
            Value::Int((a as int / b as int) as i32),
        ) && binary_value(u, BinaryOp::Mod, Value::Int(a), Value::Int(b)) == Some(
            Value::Int((a as int % b as int) as i32),
        ),
        b != 0 && !(a == i32::MIN && b == -1) ==> exists|q: i32, m: i32|
            {
                &&& #[trigger] divides_into(a, b, q, m)
                &&& binary_value(u, BinaryOp::Div, Value::Int(a), Value::Int(b)) == Some(
                    Value::Int(q),
                )
                &&& binary_value(u, BinaryOp::Mod, Value::Int(a), Value::Int(b)) == Some(
                    Value::Int(m),
                )
            },
{
    if b != 0 && !(a == i32::MIN && b == -1) {
        lemma_division(a, b);
        let q = crate::interp::truncated_div(a as int, b as int) as i32;
        let m = crate::interp::truncated_rem(a as int, b as int) as i32;
        assert(divides_into(a, b, q, m));
        if a >= 0 && b > 0 {
            assert(m == a as int % b as int);
            assert(q == a as int / b as int) by (nonlinear_arith)
                requires
                    q * b + m == a,
                    m == a as int % b as int,
                    b > 0,
            ;
        }
    }
}

/// Whether `q` and `m` are the quotient and the remainder of a division that
/// truncates toward zero.
pub open spec fn divides_into(a: i32, b: i32, q: i32, m: i32) -> bool {
    &&& q * b + m == a
    &&& -magnitude_of(b as int) < m < magnitude_of(b as int)
    &&& a >= 0 ==> m >= 0
    &&& a <= 0 ==> m <= 0
}

/// The absolute value of a number.
pub open spec fn magnitude_of(n: int) -> int {
    if n < 0 {
        -n
    } else {
        n
    }
}

proof fn lemma_division(a: i32, b: i32)
    requires
        b != 0,
        !(a == i32::MIN && b == -1),
    ensures
        ({
            let q = crate::interp::truncated_div(a as int, b as int);
            let m = crate::interp::truncated_rem(a as int, b as int);
            &&& i32::MIN <= q <= i32::MAX
            &&& i32::MIN <= m <= i32::MAX
            &&& q * b + m == a
            &&& -magnitude_of(b as int) < m < magnitude_of(b as int)
            &&& a >= 0 ==> m >= 0
            &&& a <= 0 ==> m <= 0
        }),
{
    let (x, y) = (a as int, b as int);
    let k = magnitude_of(y);
    let m = crate::interp::truncated_rem(x, y);
    let p = magnitude_of(x);
    vstd::arithmetic::div_mod::lemma_fundamental_div_mod(p, k);
    let t = p / k;
    assert(0 <= p % k < k);
    assert(0 <= t <= p) by (nonlinear_arith)
        requires
            p == k * t + p % k,
            0 <= p % k < k,
            p >= 0,
    ;
    let q = if (x < 0) == (y < 0) {
        t
    } else {
        -t
    };
    assert(x - m == q * y) by (nonlinear_arith)
        requires
            p == k * t + p % k,
            x < 0 ==> p == -x && m == -(p % k),
            x >= 0 ==> p == x && m == p % k,
            y < 0 ==> k == -y,
            y >= 0 ==> k == y,
            (x < 0) == (y < 0) ==> q == t,
            (x < 0) != (y < 0) ==> q == -t,
    ;
    assert((q * y) / y == q) by (nonlinear_arith)
        requires
            y != 0,
    ;
    if t == 0x8000_0000 {
        assert(k == 1) by (nonlinear_arith)
            requires
                t == 0x8000_0000,
                p == k * t + p % k,
                0 <= p % k < k,
                0 <= p <= 0x8000_0000,
                k >= 1,
        ;
    }
}

/// Vectors are combined component by component, and a number with a vector as if
/// it stood in every component.
pub proof fn operators_work_component_by_component(u: Unit, op: BinaryOp, l: Value, r: Value, i: int)
    requires
        op is Add || op is Sub || op is Mul || op is Div || op is Mod,
        dimension(l) == 0,
        dimension(r) == 0,
        width_of(l) > 0 || width_of(r) > 0,
        width_of(l) == width_of(r) || l is Float || r is Float,
        0 <= i < width_of(l) || 0 <= i < width_of(r),
    ensures
        binary_value(u, op, l, r) is Some,
        binary_value(u, op, l, r)->0.comp(i) == given(
            u,
            op,
            Value::Float(
                if width_of(l) > 0 {
                    l.comp(i)
                } else {
                    l.scalar()
                },
            ),
            Value::Float(
                if width_of(r) > 0 {
                    r.comp(i)
                } else {
                    r.scalar()
                },
            ),
        ),
        width_of(binary_value(u, op, l, r)->0) == if width_of(l) > 0 {
            width_of(l)
        } else {
            width_of(r)
        },
{
    let width = crate::arith::wider(width_of(l), width_of(r));
    let c = Seq::new(
        width as nat,
        |i: int|
            crate::arith::float_result(
                u,
                op,
                crate::interp::spread(l, width)[i],
                crate::interp::spread(r, width)[i],
            ),
    );
    lemma_vector(c);
    assert(binary_value(u, op, l, r) == Some(vector(c)));
}

/// A product with a vector whose only component is a one, at `j`, gives the
/// column `j` of a matrix on its left and the row `j` of a matrix on its right.
pub proof fn products_pick_columns_and_rows(u: Unit, m: Value, e: Value, j: int, i: int)
    requires
        exact(u.arith),
        2 <= dimension(m) <= 4,
        width_of(e) == dimension(m),
        0 <= j < dimension(m),
        0 <= i < dimension(m),
        forall|k: int|
            0 <= k < m.comps().len() ==> #[trigger] is_finite(m.comps()[k]),
        is_single_one(e.comps(), j, e.comps().len()),
    ensures
        binary_value(u, BinaryOp::Mul, m, e) is Some,
        binary_value(u, BinaryOp::Mul, e, m) is Some,
        stands_for(
            binary_value(u, BinaryOp::Mul, m, e)->0.comp(i),
            amount(m.comps()[j * dimension(m) + i]),
        ),
        stands_for(
            binary_value(u, BinaryOp::Mul, e, m)->0.comp(i),
            amount(m.comps()[i * dimension(m) + j]),
        ),
{
    let n = dimension(m);
    let c = m.comps();
    assert(c.len() == n * n) by {
        assert(n == 2 ==> c.len() == 4);
        assert(n == 3 ==> c.len() == 9);
        assert(n == 4 ==> c.len() == 16);
    }
    assert(e.comps().len() == n);
    let x = Seq::new(n, |i: int| inner(u, mat_row(c, n, i), e.comps(), n));
    let y = Seq::new(n, |j: int| inner(u, e.comps(), mat_column(c, n, j), n));
    lemma_vector(x);
    lemma_vector(y);
    assert(product(u, m, e) == Some(vector(x)));
    assert(product(u, e, m) == Some(vector(y)));
    let row = mat_row(c, n, i);
    let col = mat_column(c, n, i);
    assert forall|k: int| 0 <= k < n implies is_finite(#[trigger] row[k]) by {
        assert(0 <= k * n + i < n * n) by (nonlinear_arith)
            requires
                0 <= k < n,
                0 <= i < n,
        ;
        assert(is_finite(c[k * n + i]));
    }
    assert forall|k: int| 0 <= k < n implies is_finite(#[trigger] col[k]) by {
        assert(0 <= i * n + k < n * n) by (nonlinear_arith)
            requires
                0 <= k < n,
                0 <= i < n,
        ;
        assert(is_finite(c[i * n + k]));
    }
    lemma_picked(u, row, e.comps(), j, n);
    lemma_picked(u, e.comps(), col, j, n);
}

/// Whether the first `n` floats are zero, but for a one at `j`.
pub open spec fn is_single_one(c: Seq<u32>, j: int, n: nat) -> bool {
    forall|k: int|
        0 <= k < n ==> is_finite(#[trigger] c[k]) && amount(c[k]) == if k == j {
            one()
        } else {
            0
        }
}

/// The inner product of a row with one that holds a single one.
proof fn lemma_picked(u: Unit, a: Seq<u32>, b: Seq<u32>, j: int, n: nat)
    requires
        exact(u.arith),
        2 <= n,
        n <= a.len(),
        n <= b.len(),
        0 <= j,
        forall|k: int| 0 <= k < n ==> is_finite(#[trigger] a[k]),
        forall|k: int| 0 <= k < n ==> is_finite(#[trigger] b[k]),
        is_single_one(a, j, n) || is_single_one(b, j, n),
    ensures
        is_single_one(a, j, n) ==> stands_for(
            inner(u, a, b, n),
            if j >= n {
                0
            } else {
                amount(b[j])
            },
        ),
        is_single_one(b, j, n) ==> stands_for(
            inner(u, a, b, n),
            if j >= n {
                0
            } else {
                amount(a[j])
            },
        ),
    decreases n,
{
    constants_stand_for_numbers();
    lemma_one();
    let f = u.arith;
    if n == 2 {
        let (x, y) = (a[0], b[0]);
        let (z, w) = (a[1], b[1]);
        lemma_product(u, z, w);
        let t = f(FloatOp::Mul, z, w, 0);
        lemma_step(u, x, y, t);
        assert(inner(u, a, b, 2) == f(FloatOp::MulAdd, x, y, t));
    } else {
        lemma_picked(u, a, b, j, (n - 1) as nat);
        let (x, y) = (a[n - 1], b[n - 1]);
        lemma_step(u, x, y, inner(u, a, b, (n - 1) as nat));
    }
}

/// A product with zero or one.
proof fn lemma_product(u: Unit, x: u32, y: u32)
    requires
        exact(u.arith),
        is_finite(x),
        is_finite(y),
        amount(x) == 0 || amount(x) == one() || amount(y) == 0 || amount(y) == one(),
    ensures
        amount(x) == 0 || amount(y) == 0 ==> stands_for((u.arith)(FloatOp::Mul, x, y, 0), 0),
        amount(x) == one() ==> stands_for((u.arith)(FloatOp::Mul, x, y, 0), amount(y)),
        amount(y) == one() ==> stands_for((u.arith)(FloatOp::Mul, x, y, 0), amount(x)),
{
    constants_stand_for_numbers();
    lemma_one();
    let (p, q) = (amount(x), amount(y));
    if p == 0 || q == 0 {
        assert(0 * one() == p * q) by (nonlinear_arith)
            requires
                p == 0 || q == 0,
        ;
        lemma_mul(u.arith, x, y, 0);
    }
    if p == one() {
        assert(q * one() == p * q) by (nonlinear_arith)
            requires
                p == one(),
        ;
        lemma_mul(u.arith, x, y, y);
    }
    if q == one() {
        lemma_mul(u.arith, x, y, x);
    }
}

/// A product with zero or one, added to something where one of them is zero.
proof fn lemma_step(u: Unit, x: u32, y: u32, z: u32)
    requires
        exact(u.arith),
        is_finite(x),
        is_finite(y),
        is_finite(z),
        amount(x) == 0 || amount(y) == 0 || (amount(z) == 0 && (amount(x) == one() || amount(y)
            == one())),
    ensures
        amount(x) == 0 || amount(y) == 0 ==> stands_for(
            (u.arith)(FloatOp::MulAdd, x, y, z),
            amount(z),
        ),
        amount(z) == 0 && amount(x) == one() ==> stands_for(
            (u.arith)(FloatOp::MulAdd, x, y, z),
            amount(y),
        ),
        amount(z) == 0 && amount(y) == one() ==> stands_for(
            (u.arith)(FloatOp::MulAdd, x, y, z),
            amount(x),
        ),
{
    let (p, q, r) = (amount(x), amount(y), amount(z));
    if p == 0 || q == 0 {
        assert(r * one() == p * q + r * one()) by (nonlinear_arith)
            requires
                p == 0 || q == 0,
        ;
        lemma_mul_add(u.arith, x, y, z, z);
    }
    if r == 0 && p == one() {
        assert(q * one() == p * q + r * one()) by (nonlinear_arith)
            requires
                p == one(),
                r == 0,
        ;
        lemma_mul_add(u.arith, x, y, z, y);
    }
    if r == 0 && q == one() {
        assert(p * one() == p * q + r * one()) by (nonlinear_arith)
            requires
                q == one(),
                r == 0,
        ;
        lemma_mul_add(u.arith, x, y, z, x);
    }
}

/// A minus sign gives the opposite number, in every component; the negation of a
/// truth value is its opposite.
pub proof fn prefixes_give_opposites(v: Value, i: int)
    requires
        0 <= i < v.comps().len(),
    ensures
        v is Float || width_of(v) > 0 || dimension(v) > 0 ==> amount(
            unary_value(UnaryOp::Neg, v).comp(i),
        ) == -amount(v.comp(i)),
        v matches Value::Int(n) ==> n != i32::MIN ==> unary_value(UnaryOp::Neg, v) == Value::Int(
            (-n) as i32,
        ),
        unary_value(UnaryOp::Not, v).truth() == !v.truth(),
        v matches Value::Int(n) ==> unary_value(UnaryOp::BitNot, v) == Value::Int((-n - 1) as i32),
{
    let c = crate::interp::all_negated(v.comps());
    if width_of(v) > 0 {
        lemma_vector(c);
    }
    if dimension(v) > 0 {
        assert(dimension(v) == 2 ==> c.len() == 4);
        assert(dimension(v) == 3 ==> c.len() == 9);
        assert(dimension(v) == 4 ==> c.len() == 16);
        crate::interp::lemma_matrix(dimension(v), c);
    }
    negation_is_opposite(v.comp(i));
    if let Value::Int(n) = v {
        assert(!n == -n - 1) by (bit_vector);
    }
}

/// Whether a matrix has ones on its diagonal and zeros elsewhere.
pub open spec fn is_identity(m: Value) -> bool {
    forall|i: int, j: int|
        #![trigger m.comps()[j * dimension(m) + i]]
        0 <= i < dimension(m) && 0 <= j < dimension(m) ==> stands_for(
            m.comps()[j * dimension(m) + i],
            if i == j {
                one()
            } else {
                0
            },
        )
}

/// A product with the identity gives the other matrix.
pub proof fn products_with_the_identity(u: Unit, m: Value, e: Value, i: int, j: int)
    requires
        exact(u.arith),
        2 <= dimension(m) <= 4,
        dimension(e) == dimension(m),
        is_identity(e),
        forall|k: int| 0 <= k < m.comps().len() ==> #[trigger] is_finite(m.comps()[k]),
        0 <= i < dimension(m),
        0 <= j < dimension(m),
    ensures
        binary_value(u, BinaryOp::Mul, m, e) is Some,
        binary_value(u, BinaryOp::Mul, e, m) is Some,
        stands_for(
            binary_value(u, BinaryOp::Mul, m, e)->0.comps()[j * dimension(m) + i],
            amount(m.comps()[j * dimension(m) + i]),
        ),
        stands_for(
            binary_value(u, BinaryOp::Mul, e, m)->0.comps()[j * dimension(m) + i],
            amount(m.comps()[j * dimension(m) + i]),
        ),
{
    let n = dimension(m);
    let (a, b) = (m.comps(), e.comps());
    assert(a.len() == n * n && b.len() == n * n) by {
        assert(n == 2 ==> a.len() == 4 && b.len() == 4);
        assert(n == 3 ==> a.len() == 9 && b.len() == 9);
        assert(n == 4 ==> a.len() == 16 && b.len() == 16);
    }
    lemma_product_entry(u, m, e, i, j);
    lemma_product_entry(u, e, m, i, j);
    let (row, col) = (mat_row(a, n, i), mat_column(b, n, j));
    let (row2, col2) = (mat_row(b, n, i), mat_column(a, n, j));
    assert forall|k: int| 0 <= k < n implies is_finite(#[trigger] row[k]) && is_finite(col2[k]) by {
        assert(0 <= k * n + i < n * n && 0 <= j * n + k < n * n) by (nonlinear_arith)
            requires
                0 <= k < n,
                0 <= i < n,
                0 <= j < n,
        ;
        assert(is_finite(a[k * n + i]) && is_finite(a[j * n + k]));
    }
    assert(is_single_one(col, j, n)) by {
        assert forall|k: int| 0 <= k < n implies is_finite(#[trigger] col[k]) && amount(col[k])
            == if k == j {
            one()
        } else {
            0
        } by {
            assert(stands_for(
                b[j * n + k],
                if k == j {
                    one()
                } else {
                    0
                },
            ));
        }
    }
    assert(is_single_one(row2, i, n)) by {
        assert forall|k: int| 0 <= k < n implies is_finite(#[trigger] row2[k]) && amount(row2[k])
            == if k == i {
            one()
        } else {
            0
        } by {
            assert(stands_for(
                b[k * n + i],
                if i == k {
                    one()
                } else {
                    0
                },
            ));
        }
    }
    assert forall|k: int| 0 <= k < n implies is_finite(#[trigger] col2[k]) by {
        assert(is_finite(row[k]) && is_finite(col2[k]));
    }
    lemma_dot_picked(u, row, col, j, n);
    lemma_dot_picked(u, row2, col2, i, n);
}

proof fn lemma_product_entry(u: Unit, l: Value, r: Value, i: int, j: int)
    requires
        2 <= dimension(l) <= 4,
        dimension(r) == dimension(l),
        0 <= i < dimension(l),
        0 <= j < dimension(l),
    ensures
        binary_value(u, BinaryOp::Mul, l, r) is Some,
        binary_value(u, BinaryOp::Mul, l, r)->0.comps()[j * dimension(l) + i] == dot_sum(
            u,
            mat_row(l.comps(), dimension(l), i),
            mat_column(r.comps(), dimension(l), j),
            dimension(l),
        ),
{
    let n = dimension(l);
    let c = Seq::new(
        n * n,
        |k: int|
            dot_sum(
                u,
                mat_row(l.comps(), n, k % (n as int)),
                mat_column(r.comps(), n, k / (n as int)),
                n,
            ),
    );
    assert(n * n > 0) by (nonlinear_arith)
        requires
            n >= 2,
    ;
    crate::interp::lemma_matrix(n, c);
    assert(product(u, l, r) == Some(crate::interp::matrix(n, c)));
    crate::filter_laws::lemma_at(n as int, n as int, i, j);
}

/// The sum of the products of a row with one that holds a single one.
proof fn lemma_dot_picked(u: Unit, a: Seq<u32>, b: Seq<u32>, j: int, n: nat)
    requires
        exact(u.arith),
        n <= a.len(),
        n <= b.len(),
        0 <= j,
        forall|k: int| 0 <= k < n ==> is_finite(#[trigger] a[k]),
        forall|k: int| 0 <= k < n ==> is_finite(#[trigger] b[k]),
        is_single_one(a, j, n) || is_single_one(b, j, n),
    ensures
        is_single_one(a, j, n) ==> stands_for(
            dot_sum(u, a, b, n),
            if j >= n {
                0
            } else {
                amount(b[j])
            },
        ),
        is_single_one(b, j, n) ==> stands_for(
            dot_sum(u, a, b, n),
            if j >= n {
                0
            } else {
                amount(a[j])
            },
        ),
    decreases n,
{
    constants_stand_for_numbers();
    lemma_one();
    if n > 0 {
        lemma_dot_picked(u, a, b, j, (n - 1) as nat);
        let (x, y) = (a[n - 1], b[n - 1]);
        lemma_step(u, x, y, dot_sum(u, a, b, (n - 1) as nat));
    }
}

} // verus!
