//! Single-precision floats as bit patterns: what a pattern is, how patterns
//! compare, and what stands for an integer.

use vstd::prelude::*;

verus! {

/// The pattern of 1.0.
pub const ONE: u32 = 0x3f80_0000;

/// The pattern without its sign bit.
pub open spec fn magnitude(b: u32) -> int {
    b as int % 0x8000_0000
}

/// Whether the sign bit is set.
pub open spec fn is_negative(b: u32) -> bool {
    b >= 0x8000_0000
}

/// Whether the pattern is not a number.
pub open spec fn is_nan(b: u32) -> bool {
    magnitude(b) > 0x7f80_0000
}

/// Whether the pattern is neither infinite nor a NaN.
pub open spec fn is_finite(b: u32) -> bool {
    magnitude(b) < 0x7f80_0000
}

/// A number that orders as the pattern does: the two zeros share one key, and
/// of patterns of one sign the larger magnitude lies further from zero.
pub open spec fn key(b: u32) -> int {
    if is_negative(b) {
        -magnitude(b)
    } else {
        magnitude(b)
    }
}

/// `a < b`
pub open spec fn float_lt(a: u32, b: u32) -> bool {
    !is_nan(a) && !is_nan(b) && key(a) < key(b)
}

/// `a <= b`
pub open spec fn float_le(a: u32, b: u32) -> bool {
    !is_nan(a) && !is_nan(b) && key(a) <= key(b)
}

/// `a == b`
pub open spec fn float_eq(a: u32, b: u32) -> bool {
    !is_nan(a) && !is_nan(b) && key(a) == key(b)
}

/// Whether the difference of two numbers is zero. The difference of two
/// infinities is not a number, and that of unequal finite numbers never
/// vanishes.
pub open spec fn same_finite(a: u32, b: u32) -> bool {
    is_finite(a) && is_finite(b) && key(a) == key(b)
}

/// The smaller of two patterns; a NaN yields to a number.
pub open spec fn float_min(a: u32, b: u32) -> u32 {
    if is_nan(a) || float_lt(b, a) {
        b
    } else {
        a
    }
}

/// The larger of two patterns; a NaN yields to a number.
pub open spec fn float_max(a: u32, b: u32) -> u32 {
    if is_nan(a) || float_lt(a, b) {
        b
    } else {
        a
    }
}

/// The pattern with its sign flipped.
pub open spec fn negated(b: u32) -> u32 {
    if is_negative(b) {
        (b - 0x8000_0000) as u32
    } else {
        (b + 0x8000_0000) as u32
    }
}

/// The pattern without its sign bit.
fn drop_sign(b: u32) -> (m: u32)
    ensures
        m == magnitude(b),
{
    b % 0x8000_0000
}

/// Whether the pattern is not a number.
pub fn bits_nan(b: u32) -> (r: bool)
    ensures
        r == is_nan(b),
{
    drop_sign(b) > 0x7f80_0000
}

/// Whether the pattern is neither infinite nor a NaN.
pub fn bits_finite(b: u32) -> (r: bool)
    ensures
        r == is_finite(b),
{
    drop_sign(b) < 0x7f80_0000
}

/// The ordering number of a pattern.
fn bits_key(b: u32) -> (k: i64)
    ensures
        k == key(b),
{
    if b >= 0x8000_0000 {
        -(drop_sign(b) as i64)
    } else {
        drop_sign(b) as i64
    }
}

/// `a < b`
pub fn bits_lt(a: u32, b: u32) -> (r: bool)
    ensures
        r == float_lt(a, b),
{
    !bits_nan(a) && !bits_nan(b) && bits_key(a) < bits_key(b)
}

/// `a <= b`
pub fn bits_le(a: u32, b: u32) -> (r: bool)
    ensures
        r == float_le(a, b),
{
    !bits_nan(a) && !bits_nan(b) && bits_key(a) <= bits_key(b)
}

/// `a == b`
pub fn bits_eq(a: u32, b: u32) -> (r: bool)
    ensures
        r == float_eq(a, b),
{
    !bits_nan(a) && !bits_nan(b) && bits_key(a) == bits_key(b)
}

/// Whether the difference of two numbers is zero.
pub fn bits_same(a: u32, b: u32) -> (r: bool)
    ensures
        r == same_finite(a, b),
{
    bits_finite(a) && bits_finite(b) && bits_key(a) == bits_key(b)
}

/// The smaller of two patterns.
pub fn bits_min(a: u32, b: u32) -> (r: u32)
    ensures
        r == float_min(a, b),
{
    if bits_nan(a) || bits_lt(b, a) {
        b
    } else {
        a
    }
}

/// The larger of two patterns.
pub fn bits_max(a: u32, b: u32) -> (r: u32)
    ensures
        r == float_max(a, b),
{
    if bits_nan(a) || bits_lt(a, b) {
        b
    } else {
        a
    }
}

/// The pattern with its sign flipped.
pub fn bits_neg(b: u32) -> (r: u32)
    ensures
        r == negated(b),
{
    if b >= 0x8000_0000 {
        b - 0x8000_0000
    } else {
        b + 0x8000_0000
    }
}

/// Two to the power `e`.
pub open spec fn power(e: nat) -> int
    decreases e,
{
    if e == 0 {
        1
    } else {
        2 * power((e - 1) as nat)
    }
}

/// The number of doublings of 1 that stay at or below `n`.
pub open spec fn log2(n: int) -> nat
    decreases n,
{
    if n < 2 {
        0
    } else {
        1 + log2(n / 2)
    }
}

/// The magnitude of the float nearest to the positive number `n`; of two
/// equally near ones the one with the even significand.
pub open spec fn magnitude_of_nat(n: int) -> int {
    if n <= 0 {
        0
    } else {
        let e = log2(n);
        if e <= 23 {
            (e + 126) * 0x80_0000 + n * power((23 - e) as nat)
        } else {
            let unit = power((e - 23) as nat);
            let q = n / unit;
            let r = n % unit;
            if 2 * r > unit || (2 * r == unit && q % 2 == 1) {
                (e + 126) * 0x80_0000 + q + 1
            } else {
                (e + 126) * 0x80_0000 + q
            }
        }
    }
}

/// The pattern of the float nearest to an integer.
pub open spec fn float_of_int(n: int) -> u32 {
    if n < 0 {
        (0x8000_0000 + magnitude_of_nat(-n)) as u32
    } else {
        magnitude_of_nat(n) as u32
    }
}

/// The integer part of a float's magnitude.
pub open spec fn whole_part(m: int) -> int {
    let e = m / 0x80_0000;
    let s = m % 0x80_0000 + 0x80_0000;
    if e < 127 {
        0
    } else if e >= 150 {
        s * power((e - 150) as nat)
    } else {
        s / power((150 - e) as nat)
    }
}

/// The integer that a float truncates to, held within an `i32`; a NaN gives
/// zero.
pub open spec fn int_of_float(b: u32) -> int {
    if is_nan(b) {
        0
    } else if magnitude(b) >= 0x4f00_0000 {
        if is_negative(b) {
            i32::MIN as int
        } else {
            i32::MAX as int
        }
    } else if is_negative(b) {
        -whole_part(magnitude(b))
    } else {
        whole_part(magnitude(b))
    }
}

pub(crate) proof fn lemma_power_pos(e: nat)
    ensures
        power(e) >= 1,
    decreases e,
{
    if e > 0 {
        lemma_power_pos((e - 1) as nat);
    }
}

/// `log2` is the exponent of the largest power of two at or below a number.
pub(crate) proof fn lemma_log2(n: int)
    requires
        n >= 1,
    ensures
        power(log2(n)) <= n < 2 * power(log2(n)),
    decreases n,
{
    if n >= 2 {
        lemma_log2(n / 2);
    }
}

/// The exponent of the largest power of two at or below a number is unique.
proof fn lemma_log2_unique(n: int, e: nat)
    requires
        power(e) <= n < 2 * power(e),
    ensures
        log2(n) == e,
    decreases n,
{
    lemma_power_pos(e);
    if e == 0 {
    } else {
        assert(power(e) == 2 * power((e - 1) as nat));
        lemma_power_pos((e - 1) as nat);
        lemma_log2_unique(n / 2, (e - 1) as nat);
    }
}

/// Two to the power `e`, for small exponents.
fn power_of(e: u32) -> (p: u64)
    requires
        e <= 40,
    ensures
        p == power(e as nat),
        1 <= p <= 0x100_0000_0000,
{
    let mut p: u64 = 1;
    let mut i: u32 = 0;
    assert(power(0) == 1);
    proof {
        lemma_power_bound(e as nat);
        lemma_power_mono(0, e as nat);
    }
    while i < e
        invariant
            i <= e <= 40,
            p == power(i as nat),
            p >= 1,
            p <= power(e as nat),
            power(e as nat) <= 0x100_0000_0000,
        decreases e - i,
    {
        proof {
            lemma_power_mono((i + 1) as nat, e as nat);
        }
        p = p * 2;
        i = i + 1;
    }
    p
}

pub(crate) proof fn lemma_power_mono(a: nat, b: nat)
    requires
        a <= b,
    ensures
        power(a) <= power(b),
    decreases b,
{
    if a < b {
        lemma_power_mono(a, (b - 1) as nat);
        lemma_power_pos((b - 1) as nat);
    }
}

proof fn lemma_power_bound(e: nat)
    requires
        e <= 40,
    ensures
        power(e) <= 0x100_0000_0000,
        power(23) == 0x80_0000,
        power(31) == 0x8000_0000,
{
    lemma_power_mono(e, 40);
    reveal_with_fuel(power, 41);
}

/// The pattern of the float nearest to an integer.
pub fn int_to_bits(n: i32) -> (b: u32)
    ensures
        b == float_of_int(n as int),
{
    if n == 0 {
        return 0;
    }
    let m: u64 = if n < 0 {
        (-(n as i64)) as u64
    } else {
        n as u64
    };
    let mut e: u32 = 0;
    let mut p: u64 = 1;
    assert(power(0) == 1);
    proof {
        lemma_power_bound(31);
    }
    while 2 * p <= m
        invariant
            1 <= p <= m <= 0x8000_0000,
            p == power(e as nat),
            e <= 31,
            power(31) == 0x8000_0000,
        decreases m - p,
    {
        proof {
            if e == 31 {
                assert(false);
            }
        }
        p = 2 * p;
        e = e + 1;
    }
    proof {
        lemma_log2_unique(m as int, e as nat);
    }
    let mag: u64;
    if e <= 23 {
        let scale: u64 = power_of(23 - e);
        proof {
            lemma_power_split(e as nat, (23 - e) as nat);
            assert(p * scale == power(23));
            assert(m * scale < 2 * (p * scale)) by (nonlinear_arith)
                requires
                    m < 2 * p,
                    scale >= 1,
            ;
            assert(m * scale >= 0) by (nonlinear_arith)
                requires
                    m >= 0,
                    scale >= 0,
            ;
        }
        mag = (e as u64 + 126) * 0x80_0000 + m * scale;
    } else {
        let unit: u64 = power_of(e - 23);
        let q: u64 = m / unit;
        let r: u64 = m % unit;
        proof {
            lemma_power_split(23, (e - 23) as nat);
            assert(p == 0x80_0000 * unit);
            assert(q <= 0x100_0000) by (nonlinear_arith)
                requires
                    q == m / unit,
                    m < 2 * (0x80_0000 * unit),
                    unit >= 1,
            ;
        }
        if 2 * r > unit || (2 * r == unit && q % 2 == 1) {
            mag = (e as u64 + 126) * 0x80_0000 + q + 1;
        } else {
            mag = (e as u64 + 126) * 0x80_0000 + q;
        }
    }
    assert(mag == magnitude_of_nat(m as int));
    if n < 0 {
        0x8000_0000 + mag as u32
    } else {
        mag as u32
    }
}

/// Powers of two multiply by adding exponents.
pub(crate) proof fn lemma_power_split(a: nat, b: nat)
    ensures
        power(a) * power(b) == power(a + b),
    decreases b,
{
    if b == 0 {
        assert(power(b) == 1);
        assert(power(a) * 1 == power(a));
    } else {
        lemma_power_split(a, (b - 1) as nat);
        assert(power(a) * (2 * power((b - 1) as nat)) == 2 * (power(a) * power((b - 1) as nat)))
            by (nonlinear_arith);
    }
}

/// The integer that a float truncates to.
pub fn bits_to_int(b: u32) -> (n: i32)
    ensures
        n == int_of_float(b),
{
    if bits_nan(b) {
        return 0;
    }
    let m: u32 = drop_sign(b);
    let negative: bool = b >= 0x8000_0000;
    if m >= 0x4f00_0000 {
        return if negative {
            i32::MIN
        } else {
            i32::MAX
        };
    }
    let e: u32 = m / 0x80_0000;
    let s: u64 = (m % 0x80_0000 + 0x80_0000) as u64;
    let w: u64 = if e < 127 {
        0
    } else if e >= 150 {
        let scale: u64 = power_of(e - 150);
        proof {
            lemma_power_mono((e - 150) as nat, 7);
            assert(power(7) == 128) by {
                reveal_with_fuel(power, 8);
            }
            assert(s * scale <= 0x7fff_ff80) by (nonlinear_arith)
                requires
                    s <= 0xff_ffff,
                    0 <= scale <= 128,
            ;
        }
        s * scale
    } else {
        s / power_of(150 - e)
    };
    assert(w == whole_part(m as int));
    assert(w <= 0x7fff_ffff) by {
        if 127 <= e < 150 {
            lemma_power_pos((150 - e) as nat);
            let d = power((150 - e) as nat);
            assert(s as int / d <= s) by (nonlinear_arith)
                requires
                    d >= 1,
                    s >= 0,
            ;
        }
    }
    if negative {
        -(w as i32)
    } else {
        w as i32
    }
}

/// The natural number that a float truncates to, held within a `u32`; a
/// negative number or a NaN gives zero.
pub open spec fn natural_of_float(b: u32) -> int {
    if is_nan(b) || is_negative(b) {
        0
    } else if magnitude(b) >= 0x4f80_0000 {
        u32::MAX as int
    } else {
        whole_part(magnitude(b))
    }
}

/// The natural number that a float truncates to.
pub fn bits_to_natural(b: u32) -> (n: u32)
    ensures
        n == natural_of_float(b),
{
    if bits_nan(b) || b >= 0x8000_0000 {
        return 0;
    }
    if b >= 0x4f80_0000 {
        return u32::MAX;
    }
    if b >= 0x4f00_0000 {
        let s: u32 = b % 0x80_0000 + 0x80_0000;
        proof {
            assert(power(8) == 256) by {
                reveal_with_fuel(power, 9);
            }
            assert(b as int / 0x80_0000 == 158);
        }
        return s * 256;
    }
    let n: i32 = bits_to_int(b);
    assert(n == whole_part(b as int));
    assert(n >= 0) by {
        lemma_whole_part(b as int);
    }
    n as u32
}

/// A whole part is not negative.
proof fn lemma_whole_part(m: int)
    requires
        m >= 0,
    ensures
        whole_part(m) >= 0,
{
    let e = m / 0x80_0000;
    let s = m % 0x80_0000 + 0x80_0000;
    if e >= 150 {
        lemma_power_pos((e - 150) as nat);
        let d = power((e - 150) as nat);
        assert(s * d >= 0) by (nonlinear_arith)
            requires
                s >= 0,
                d >= 0,
        ;
    } else if e >= 127 {
        lemma_power_pos((150 - e) as nat);
        let d = power((150 - e) as nat);
        assert(s / d >= 0) by (nonlinear_arith)
            requires
                s >= 0,
                d >= 1,
        ;
    }
}

/// The integer nearest to a float's magnitude, where it is below 2^31; halves
/// go up.
pub open spec fn rounded_part(m: int) -> int {
    let e = m / 0x80_0000;
    let s = m % 0x80_0000 + 0x80_0000;
    if e < 126 {
        0
    } else if e >= 150 {
        s * power((e - 150) as nat)
    } else {
        (2 * s + power((150 - e) as nat)) / (2 * power((150 - e) as nat))
    }
}

/// The integer nearest to a float, held within an `i32`; halves go away from
/// zero, and a NaN gives zero.
pub open spec fn nearest_int(b: u32) -> int {
    if is_nan(b) {
        0
    } else if magnitude(b) >= 0x4f00_0000 {
        if is_negative(b) {
            i32::MIN as int
        } else {
            i32::MAX as int
        }
    } else if is_negative(b) {
        -rounded_part(magnitude(b))
    } else {
        rounded_part(magnitude(b))
    }
}

/// The integer nearest to a float.
pub fn bits_round(b: u32) -> (n: i32)
    ensures
        n == nearest_int(b),
{
    if bits_nan(b) {
        return 0;
    }
    let m: u32 = drop_sign(b);
    let negative: bool = b >= 0x8000_0000;
    if m >= 0x4f00_0000 {
        return if negative {
            i32::MIN
        } else {
            i32::MAX
        };
    }
    let e: u32 = m / 0x80_0000;
    let s: u64 = (m % 0x80_0000 + 0x80_0000) as u64;
    let w: u64 = if e < 126 {
        0
    } else if e >= 150 {
        let scale: u64 = power_of(e - 150);
        proof {
            lemma_power_mono((e - 150) as nat, 7);
            assert(power(7) == 128) by {
                reveal_with_fuel(power, 8);
            }
            assert(s * scale <= 0x7fff_ff80) by (nonlinear_arith)
                requires
                    s <= 0xff_ffff,
                    0 <= scale <= 128,
            ;
        }
        s * scale
    } else {
        let unit: u64 = power_of(150 - e);
        (2 * s + unit) / (2 * unit)
    };
    assert(w == rounded_part(m as int));
    assert(w <= 0x7fff_ffff) by {
        if 126 <= e < 150 {
            lemma_power_pos((150 - e) as nat);
            let d = power((150 - e) as nat);
            assert((2 * s + d) / (2 * d) <= s + 1) by (nonlinear_arith)
                requires
                    d >= 1,
                    s >= 0,
            ;
        }
    }
    if negative {
        -(w as i32)
    } else {
        w as i32
    }
}

/// A number that is not negative truncates and rounds to one that is not.
pub proof fn lemma_nearest_sign(b: u32)
    requires
        !is_negative(b) || magnitude(b) == 0,
    ensures
        0 <= nearest_int(b) <= i32::MAX,
        0 <= int_of_float(b) <= i32::MAX,
{
    let m = magnitude(b);
    let e = m / 0x80_0000;
    let s = m % 0x80_0000 + 0x80_0000;
    if m < 0x4f00_0000 {
        if e >= 150 {
            let p = power((e - 150) as nat);
            lemma_power_pos((e - 150) as nat);
            lemma_power_mono((e - 150) as nat, 7);
            assert(power(7) == 128) by {
                reveal_with_fuel(power, 8);
            }
            assert(0 <= s * p <= 0x7fff_ff80) by (nonlinear_arith)
                requires
                    0 <= s <= 0xff_ffff,
                    0 <= p <= 128,
            ;
        } else if e >= 126 {
            let d = power((150 - e) as nat);
            lemma_power_pos((150 - e) as nat);
            assert(0 <= s / d <= s && 0 <= (2 * s + d) / (2 * d) <= s + 1) by (nonlinear_arith)
                requires
                    d >= 1,
                    s >= 0,
            ;
        }
    }
}

/// Negating a pattern twice gives it back.
pub proof fn negation_is_an_involution(b: u32)
    ensures
        negated(negated(b)) == b,
{
}

/// Exactly one of `a < b`, `a == b` and `b < a` holds of two numbers, and none
/// of them of a NaN.
pub proof fn order_is_total_on_numbers(a: u32, b: u32)
    ensures
        !is_nan(a) && !is_nan(b) ==> (float_lt(a, b) || float_eq(a, b) || float_lt(b, a)),
        !(float_lt(a, b) && float_lt(b, a)),
        float_eq(a, b) ==> !float_lt(a, b) && !float_lt(b, a),
        is_nan(a) || is_nan(b) ==> !float_lt(a, b) && !float_eq(a, b) && !float_le(a, b),
{
}

} // verus!
