//! Color filters at work: matrices that depend on a number, and the color that
//! a filter gives.

use vstd::prelude::*;

use crate::arith::{FloatOp, FloatUnit, Ops};
use crate::filter::{ColorFilter, ColorMatrixFilter, TableMaskFilter};
use crate::float_bits::{
    ONE, bits_lt, bits_neg, bits_round, bits_to_int, float_lt, float_of_int, int_of_float,
    int_to_bits, nearest_int, negated,
};
use crate::geometry::Color4f;
use crate::runtime_effect::RuntimeColorFilter;

verus! {

/// The bit pattern of 255.0.
pub const BYTE_MAX: u32 = 0x437f_0000;

/// An integer held within a byte.
pub open spec fn held_byte(n: int) -> u8 {
    if n < 0 {
        0
    } else if n > 255 {
        255
    } else {
        n as u8
    }
}

/// The byte nearest to a number.
pub open spec fn near_byte(x: u32) -> u8 {
    held_byte(nearest_int(x))
}

/// The byte that a number truncates to.
pub open spec fn whole_byte(x: u32) -> u8 {
    held_byte(int_of_float(x))
}

/// A number held between two others.
pub open spec fn kept(x: u32, lo: u32, hi: u32) -> u32 {
    if float_lt(x, lo) {
        lo
    } else if float_lt(hi, x) {
        hi
    } else {
        x
    }
}

/// The byte nearest to a number.
pub fn nearest_byte(x: u32) -> (b: u8)
    ensures
        b == near_byte(x),
{
    let n: i32 = bits_round(x);
    if n < 0 {
        0
    } else if n > 255 {
        255
    } else {
        n as u8
    }
}

/// The byte that a number truncates to.
pub fn truncated_byte(x: u32) -> (b: u8)
    ensures
        b == whole_byte(x),
{
    let n: i32 = bits_to_int(x);
    if n < 0 {
        0
    } else if n > 255 {
        255
    } else {
        n as u8
    }
}

/// Holds a number between two others.
pub fn keep(x: u32, lo: u32, hi: u32) -> (r: u32)
    ensures
        r == kept(x, lo, hi),
{
    if bits_lt(x, lo) {
        lo
    } else if bits_lt(hi, x) {
        hi
    } else {
        x
    }
}

/// A byte as a float.
pub open spec fn byte_float(b: u8) -> u32 {
    float_of_int(b as int)
}

/// A byte as a float.
pub fn float_of_byte(b: u8) -> (x: u32)
    ensures
        x == byte_float(b),
{
    int_to_bits(b as i32)
}

/// The entries of the matrix that scales the distance of each color from its
/// luminance.
pub open spec fn saturation_matrix(f: Ops, sat: u32) -> Seq<u32> {
    let ms = f(FloatOp::Sub, ONE, sat, 0);
    let r = f(FloatOp::Mul, 0x3e59_b3d0, ms, 0);
    let g = f(FloatOp::Mul, 0x3f37_1759, ms, 0);
    let b = f(FloatOp::Mul, 0x3d93_dd98, ms, 0);
    seq![
        f(FloatOp::Add, r, sat, 0), g, b, 0, 0,
        r, f(FloatOp::Add, g, sat, 0), b, 0, 0,
        r, g, f(FloatOp::Add, b, sat, 0), 0, 0,
        0, 0, 0, ONE, 0,
    ]
}

/// The entries of the matrix that scales the distance of each color from middle
/// gray.
pub open spec fn contrast_matrix(f: Ops, amount: u32) -> Seq<u32> {
    let bias = f(FloatOp::MulAdd, 0x3f00_0000, negated(amount), 0x3f00_0000);
    seq![
        amount, 0, 0, 0, bias,
        0, amount, 0, 0, bias,
        0, 0, amount, 0, bias,
        0, 0, 0, ONE, 0,
    ]
}

/// The entries of the matrix that turns the hue.
pub open spec fn hue_rotate_matrix(f: Ops, degrees: u32) -> Seq<u32> {
    let angle = f(FloatOp::Radians, degrees, 0, 0);
    let cos = f(FloatOp::Cos, angle, 0, 0);
    let sin = f(FloatOp::Sin, angle, 0, 0);
    seq![
        f(FloatOp::MulAdd, sin, 0xbe5a_1cac, f(FloatOp::MulAdd, cos, 0x3f49_78d5, 0x3e5a_1cac)),
        f(FloatOp::MulAdd, sin, 0xbf37_0a3d, f(FloatOp::MulAdd, cos, 0xbf37_0a3d, 0x3f37_0a3d)),
        f(FloatOp::MulAdd, sin, 0x3f6d_9168, f(FloatOp::MulAdd, cos, 0xbd93_74bc, 0x3d93_74bc)),
        0,
        0,
        f(FloatOp::MulAdd, sin, 0x3e12_6e98, f(FloatOp::MulAdd, cos, 0xbe5a_1cac, 0x3e5a_1cac)),
        f(FloatOp::MulAdd, sin, 0x3e0f_5c29, f(FloatOp::MulAdd, cos, 0x3e91_eb85, 0x3f37_0a3d)),
        f(FloatOp::MulAdd, sin, 0xbe90_e560, f(FloatOp::MulAdd, cos, 0xbd93_74bc, 0x3d93_74bc)),
        0,
        0,
        f(FloatOp::MulAdd, sin, 0xbf49_78d5, f(FloatOp::MulAdd, cos, 0xbe5a_1cac, 0x3e5a_1cac)),
        f(FloatOp::MulAdd, sin, 0x3f37_0a3d, f(FloatOp::MulAdd, cos, 0xbf37_0a3d, 0x3f37_0a3d)),
        f(FloatOp::MulAdd, sin, 0x3d93_74bc, f(FloatOp::MulAdd, cos, 0x3f6d_9168, 0x3d93_74bc)),
        0,
        0,
        0, 0, 0, ONE, 0,
    ]
}

/// The color that row `k / 5` of a matrix gives.
pub open spec fn matrix_row(f: Ops, m: Seq<u32>, k: int, c: Color4f) -> u32 {
    f(
        FloatOp::Add,
        f(
            FloatOp::MulAdd,
            m[k + 3],
            c.a,
            f(
                FloatOp::MulAdd,
                m[k + 2],
                c.b,
                f(FloatOp::MulAdd, m[k], c.r, f(FloatOp::Mul, m[k + 1], c.g, 0)),
            ),
        ),
        m[k + 4],
        0,
    )
}

/// The color that a matrix gives.
pub open spec fn matrix_color(f: Ops, m: Seq<u32>, c: Color4f) -> Color4f {
    Color4f {
        r: matrix_row(f, m, 0, c),
        g: matrix_row(f, m, 5, c),
        b: matrix_row(f, m, 10, c),
        a: matrix_row(f, m, 15, c),
    }
}

impl ColorMatrixFilter {
    /// The filter that scales the distance of each color from its luminance.
    pub fn saturation<A: Fn(FloatOp, u32, u32, u32) -> u32>(
        f: &FloatUnit<A>,
        sat: u32,
    ) -> (r: ColorMatrixFilter)
        requires
            f.steady(),
        ensures
            r.matrix@ == saturation_matrix(f.ops(), sat),
    {
        let v1: u32 = f.op(FloatOp::Sub, ONE, sat, 0);
        let ms: u32 = v1;
        let v2: u32 = f.op(FloatOp::Mul, 0x3e59_b3d0, ms, 0);
        let r: u32 = v2;
        let v3: u32 = f.op(FloatOp::Mul, 0x3f37_1759, ms, 0);
        let g: u32 = v3;
        let v4: u32 = f.op(FloatOp::Mul, 0x3d93_dd98, ms, 0);
        let b: u32 = v4;
        let v5: u32 = f.op(FloatOp::Add, r, sat, 0);
        let v6: u32 = f.op(FloatOp::Add, g, sat, 0);
        let v7: u32 = f.op(FloatOp::Add, b, sat, 0);
        let r = ColorMatrixFilter {
            matrix: [
                v5, g, b, 0, 0,
                r, v6, b, 0, 0,
                r, g, v7, 0, 0,
                0, 0, 0, ONE, 0,
            ],
        };
        assert(r.matrix@ =~= saturation_matrix(f.ops(), sat));
        r
    }

    /// The filter that scales the distance of each color from middle gray.
    pub fn contrast<A: Fn(FloatOp, u32, u32, u32) -> u32>(
        f: &FloatUnit<A>,
        amount: u32,
    ) -> (r: ColorMatrixFilter)
        requires
            f.steady(),
        ensures
            r.matrix@ == contrast_matrix(f.ops(), amount),
    {
        let v1: u32 = f.op(FloatOp::MulAdd, 0x3f00_0000, bits_neg(amount), 0x3f00_0000);
        let bias: u32 = v1;
        let r = ColorMatrixFilter {
            matrix: [
                amount, 0, 0, 0, bias,
                0, amount, 0, 0, bias,
                0, 0, amount, 0, bias,
                0, 0, 0, ONE, 0,
            ],
        };
        assert(r.matrix@ =~= contrast_matrix(f.ops(), amount));
        r
    }

    /// The filter that turns the hue.
    pub fn hue_rotate<A: Fn(FloatOp, u32, u32, u32) -> u32>(
        f: &FloatUnit<A>,
        degrees: u32,
    ) -> (r: ColorMatrixFilter)
        requires
            f.steady(),
        ensures
            r.matrix@ == hue_rotate_matrix(f.ops(), degrees),
    {
        let v1: u32 = f.op(FloatOp::Radians, degrees, 0, 0);
        let angle: u32 = v1;
        let v2: u32 = f.op(FloatOp::Cos, angle, 0, 0);
        let cos: u32 = v2;
        let v3: u32 = f.op(FloatOp::Sin, angle, 0, 0);
        let sin: u32 = v3;
        let v4: u32 = f.op(FloatOp::MulAdd, cos, 0x3f49_78d5, 0x3e5a_1cac);
        let v5: u32 = f.op(FloatOp::MulAdd, sin, 0xbe5a_1cac, v4);
        let v6: u32 = f.op(FloatOp::MulAdd, cos, 0xbf37_0a3d, 0x3f37_0a3d);
        let v7: u32 = f.op(FloatOp::MulAdd, sin, 0xbf37_0a3d, v6);
        let v8: u32 = f.op(FloatOp::MulAdd, cos, 0xbd93_74bc, 0x3d93_74bc);
        let v9: u32 = f.op(FloatOp::MulAdd, sin, 0x3f6d_9168, v8);
        let v10: u32 = f.op(FloatOp::MulAdd, cos, 0xbe5a_1cac, 0x3e5a_1cac);
        let v11: u32 = f.op(FloatOp::MulAdd, sin, 0x3e12_6e98, v10);
        let v12: u32 = f.op(FloatOp::MulAdd, cos, 0x3e91_eb85, 0x3f37_0a3d);
        let v13: u32 = f.op(FloatOp::MulAdd, sin, 0x3e0f_5c29, v12);
        let v14: u32 = f.op(FloatOp::MulAdd, cos, 0xbd93_74bc, 0x3d93_74bc);
        let v15: u32 = f.op(FloatOp::MulAdd, sin, 0xbe90_e560, v14);
        let v16: u32 = f.op(FloatOp::MulAdd, cos, 0xbe5a_1cac, 0x3e5a_1cac);
        let v17: u32 = f.op(FloatOp::MulAdd, sin, 0xbf49_78d5, v16);
        let v18: u32 = f.op(FloatOp::MulAdd, cos, 0xbf37_0a3d, 0x3f37_0a3d);
        let v19: u32 = f.op(FloatOp::MulAdd, sin, 0x3f37_0a3d, v18);
        let v20: u32 = f.op(FloatOp::MulAdd, cos, 0x3f6d_9168, 0x3d93_74bc);
        let v21: u32 = f.op(FloatOp::MulAdd, sin, 0x3d93_74bc, v20);
        let r = ColorMatrixFilter {
            matrix: [
                v5, v7, v9, 0, 0,
                v11, v13, v15, 0, 0,
                v17, v19, v21, 0, 0,
                0, 0, 0, ONE, 0,
            ],
        };
        assert(r.matrix@ =~= hue_rotate_matrix(f.ops(), degrees));
        r
    }

    /// The color that a row of the matrix gives.
    fn row_color<A: Fn(FloatOp, u32, u32, u32) -> u32>(
        &self,
        f: &FloatUnit<A>,
        k: usize,
        c: Color4f,
    ) -> (r: u32)
        requires
            f.steady(),
            k + 5 <= 20,
        ensures
            r == matrix_row(f.ops(), self.matrix@, k as int, c),
    {
        let v1: u32 = f.op(FloatOp::Mul, self.matrix[k + 1], c.g, 0);
        let v2: u32 = f.op(FloatOp::MulAdd, self.matrix[k], c.r, v1);
        let v3: u32 = f.op(FloatOp::MulAdd, self.matrix[k + 2], c.b, v2);
        let v4: u32 = f.op(FloatOp::MulAdd, self.matrix[k + 3], c.a, v3);
        let v5: u32 = f.op(FloatOp::Add, v4, self.matrix[k + 4], 0);
        v5
    }

    /// The color that the matrix gives.
    pub fn filter_color<A: Fn(FloatOp, u32, u32, u32) -> u32>(
        &self,
        f: &FloatUnit<A>,
        color: Color4f,
    ) -> (r: Color4f)
        requires
            f.steady(),
        ensures
            r == matrix_color(f.ops(), self.matrix@, color),
    {
        Color4f {
            r: self.row_color(f, 0, color),
            g: self.row_color(f, 5, color),
            b: self.row_color(f, 10, color),
            a: self.row_color(f, 15, color),
        }
    }
}

/// The entry of a gamma table for byte `i`.
pub open spec fn gamma_entry(f: Ops, gamma: u32, i: int) -> u8 {
    near_byte(
        f(
            FloatOp::Mul,
            f(FloatOp::Pow, f(FloatOp::Div, float_of_int(i), BYTE_MAX, 0), gamma, 0),
            BYTE_MAX,
            0,
        ),
    )
}

impl TableMaskFilter {
    /// The table that raises each fraction of 255 to a power.
    pub fn gamma<A: Fn(FloatOp, u32, u32, u32) -> u32>(f: &FloatUnit<A>, gamma: u32) -> (r: TableMaskFilter)
        requires
            f.steady(),
        ensures
            forall|i: int| 0 <= i < 256 ==> #[trigger] r.table@[i] == gamma_entry(f.ops(), gamma, i),
    {
        let mut table: [u8; 256] = [0;256];
        let mut i: usize = 0;
        while i < 256
            invariant
                f.steady(),
                i <= 256,
                forall|k: int|
                    0 <= k < i ==> #[trigger] table@[k] == gamma_entry(f.ops(), gamma, k),
            decreases 256 - i,
        {
            let x: u32 = f.op(FloatOp::Div, int_to_bits(i as i32), BYTE_MAX, 0);
            let p: u32 = f.op(FloatOp::Pow, x, gamma, 0);
            let v: u32 = f.op(FloatOp::Mul, p, BYTE_MAX, 0);
            table[i] = nearest_byte(v);
            i = i + 1;
        }
        TableMaskFilter { table }
    }
}

/// What filtering asks of its surroundings, as functions.
pub struct Tints {
    /// Float operations.
    pub ops: Ops,
    /// The color that a program gives.
    pub run: spec_fn(RuntimeColorFilter, Color4f) -> Color4f,
}

/// What filtering asks of its surroundings.
pub struct Tinter<A, R> {
    /// Float operations.
    pub floats: FloatUnit<A>,
    /// The color that a program gives.
    pub run: R,
}

impl<A: Fn(FloatOp, u32, u32, u32) -> u32, R: Fn(&RuntimeColorFilter, Color4f) -> Color4f> Tinter<
    A,
    R,
> {
    /// Whether the surroundings always answer, and always answer the same.
    #[verifier::opaque]
    pub open spec fn steady(self) -> bool {
        &&& self.floats.steady()
        &&& forall|s: &RuntimeColorFilter, c: Color4f| #[trigger] call_requires(self.run, (s, c))
        &&& forall|s: &RuntimeColorFilter, c: Color4f, x: Color4f, y: Color4f| #[trigger]
            call_ensures(self.run, (s, c), x) && #[trigger] call_ensures(self.run, (s, c), y)
                ==> x == y
    }

    /// What the surroundings answer.
    #[verifier::opaque]
    pub open spec fn tints(self) -> Tints {
        Tints {
            ops: self.floats.ops(),
            run: |s: RuntimeColorFilter, c: Color4f|
                choose|x: Color4f| call_ensures(self.run, (&s, c), x),
        }
    }

    /// The steadiness and the answers of the float unit.
    pub proof fn lemma_floats(self)
        requires
            self.steady(),
        ensures
            self.floats.steady(),
            self.floats.ops() == self.tints().ops,
    {
        reveal(Tinter::steady);
        reveal(Tinter::tints);
    }

    /// Runs a program.
    fn ran(&self, s: &RuntimeColorFilter, c: Color4f) -> (r: Color4f)
        requires
            self.steady(),
        ensures
            r == (self.tints().run)(*s, c),
    {
        proof {
            reveal(Tinter::steady);
            reveal(Tinter::tints);
        }
        let f = &self.run;
        f(s, c)
    }

    /// The color that a filter gives.
    pub fn filter_color(&self, filter: &ColorFilter, color: Color4f) -> (r: Color4f)
        requires
            self.steady(),
        ensures
            r == filtered_color(self.tints(), *filter, color),
    {
        proof {
            self.lemma_floats();
        }
        match filter {
            ColorFilter::Matrix(m) => m.filter_color(&self.floats, color),
            ColorFilter::Runtime(s) => self.ran(s, color),
        }
    }
}

/// The color that a filter gives.
pub open spec fn filtered_color(t: Tints, filter: ColorFilter, c: Color4f) -> Color4f {
    match filter {
        ColorFilter::Matrix(m) => matrix_color(t.ops, m.matrix@, c),
        ColorFilter::Runtime(s) => (t.run)(s, c),
    }
}

} // verus!
