//! Perlin noise.

use vstd::prelude::*;

use crate::arith::{FloatOp, FloatUnit, Ops};
use crate::float_bits::{
    ONE, bits_lt, bits_to_int, bits_to_natural, float_lt, float_of_int, int_of_float, int_to_bits,
    magnitude, natural_of_float,
};
use crate::geometry::Color4f;
use crate::shader::{NoiseType, PerlinNoiseShader};

verus! {

/// The next state of the random number generator.
pub open spec fn next_state(s: u32) -> u32 {
    s.wrapping_mul(1_103_515_245).wrapping_add(12_345)
}

/// The byte that a state of the generator gives.
pub open spec fn drawn(s: u32) -> int {
    (s as int / 65536) % 256
}

/// The state of the generator after `k` steps. A seed of zero is replaced.
pub open spec fn state_after(seed: u32, k: nat) -> u32
    decreases k,
{
    if k == 0 {
        if seed == 0 {
            0xdead_beef
        } else {
            seed
        }
    } else {
        next_state(state_after(seed, (k - 1) as nat))
    }
}

/// A sequence with two elements exchanged.
pub open spec fn exchanged(s: Seq<u8>, i: int, j: int) -> Seq<u8> {
    s.update(i, s[j]).update(j, s[i])
}

/// The table after `k` exchanges: counting down from the last place, each is
/// exchanged with a random place up to it.
pub open spec fn table_after(seed: u32, k: nat) -> Seq<u8>
    decreases k,
{
    if k == 0 {
        Seq::new(256, |i: int| i as u8)
    } else {
        let i = 256 - k;
        exchanged(
            table_after(seed, (k - 1) as nat),
            i,
            drawn(state_after(seed, k)) % (i + 1),
        )
    }
}

/// The shuffled table of a seed.
pub open spec fn noise_table(seed: u32) -> Seq<u8> {
    table_after(seed, 255)
}

/// Whether no value occurs twice.
pub open spec fn distinct(s: Seq<u8>) -> bool {
    forall|i: int, j: int| 0 <= i < j < s.len() ==> #[trigger] s[i] != #[trigger] s[j]
}

/// Every table is a permutation: it has 256 entries and no value twice.
pub proof fn table_is_a_permutation(seed: u32)
    ensures
        noise_table(seed).len() == 256,
        distinct(noise_table(seed)),
{
    lemma_table(seed, 255);
}

proof fn lemma_table(seed: u32, k: nat)
    requires
        k <= 255,
    ensures
        table_after(seed, k).len() == 256,
        distinct(table_after(seed, k)),
    decreases k,
{
    if k > 0 {
        lemma_table(seed, (k - 1) as nat);
        let t = table_after(seed, (k - 1) as nat);
        let i = 256 - k;
        let d = drawn(state_after(seed, k));
        assert(0 <= d % (i + 1) < i + 1) by (nonlinear_arith)
            requires
                i + 1 > 0,
        ;
        let j = d % (i + 1);
        let u = exchanged(t, i, j);
        assert forall|a: int, b: int| 0 <= a < b < u.len() implies #[trigger] u[a]
            != #[trigger] u[b] by {
            let x = if a == i {
                j
            } else if a == j {
                i
            } else {
                a
            };
            let y = if b == i {
                j
            } else if b == j {
                i
            } else {
                b
            };
            assert(u[a] == t[x] && u[b] == t[y] && x != y);
            if x < y {
                assert(t[x] != t[y]);
            } else {
                assert(t[y] != t[x]);
            }
        }
    }
}

/// The gradient number of a lattice point.
pub open spec fn lattice(t: Seq<u8>, x: int, y: int) -> int {
    t[(t[x % 256] + y % 256) % 256] as int
}

/// The direction of a gradient number, as an angle.
pub open spec fn direction(f: Ops, g: int) -> u32 {
    f(FloatOp::Div, f(FloatOp::Mul, float_of_int(g), 0x40c9_0fdb, 0), 0x4380_0000, 0)
}

/// The slope of a gradient toward an offset.
pub open spec fn slope(f: Ops, g: int, dx: u32, dy: u32) -> u32 {
    let angle = direction(f, g);
    f(
        FloatOp::MulAdd,
        f(FloatOp::Cos, angle, 0, 0),
        dx,
        f(FloatOp::Mul, f(FloatOp::Sin, angle, 0, 0), dy, 0),
    )
}

/// The smooth step `6t^5 - 15t^4 + 10t^3`.
pub open spec fn eased(f: Ops, t: u32) -> u32 {
    let cube = f(FloatOp::Mul, f(FloatOp::Mul, t, t, 0), t, 0);
    let rest = f(
        FloatOp::MulAdd,
        t,
        f(FloatOp::MulAdd, t, 0x40c0_0000, 0xc170_0000),
        0x4120_0000,
    );
    f(FloatOp::Mul, cube, rest, 0)
}

/// The point between `a` and `b` at `t`.
pub open spec fn between(f: Ops, a: u32, b: u32, t: u32) -> u32 {
    f(FloatOp::MulAdd, f(FloatOp::Sub, b, a, 0), t, a)
}

/// The whole part of a coordinate.
pub open spec fn cell(f: Ops, x: u32) -> int {
    int_of_float(f(FloatOp::Floor, x, 0, 0))
}

/// The offset of a coordinate in its cell.
pub open spec fn offset_in_cell(f: Ops, x: u32) -> u32 {
    f(FloatOp::Sub, x, float_of_int(cell(f, x)), 0)
}

/// The noise at a point: the slopes toward the four corners of its cell,
/// interpolated smoothly.
pub open spec fn noise_at(f: Ops, t: Seq<u8>, x: u32, y: u32) -> u32 {
    let xi = cell(f, x);
    let yi = cell(f, y);
    let xf = offset_in_cell(f, x);
    let yf = offset_in_cell(f, y);
    let xb = f(FloatOp::Sub, xf, ONE, 0);
    let yb = f(FloatOp::Sub, yf, ONE, 0);
    let u = eased(f, xf);
    let v = eased(f, yf);
    let above = between(
        f,
        slope(f, lattice(t, xi, yi), xf, yf),
        slope(f, lattice(t, xi + 1, yi), xb, yf),
        u,
    );
    let below = between(
        f,
        slope(f, lattice(t, xi, yi + 1), xf, yb),
        slope(f, lattice(t, xi + 1, yi + 1), xb, yb),
        u,
    );
    between(f, above, below, v)
}

/// Octaves of noise summed up.
pub struct Octaves {
    /// The sum.
    pub total: u32,
    /// The frequency of the next octave.
    pub freq: u32,
    /// The weight of the next octave.
    pub amp: u32,
    /// The sum of the weights.
    pub max: u32,
}

/// The sum of the first `n` octaves, each of twice the frequency and half the
/// weight of the one before it. Turbulence sums magnitudes.
pub open spec fn octaves(f: Ops, t: Seq<u8>, kind: NoiseType, x: u32, y: u32, n: nat) -> Octaves
    decreases n,
{
    if n == 0 {
        Octaves { total: 0, freq: ONE, amp: ONE, max: 0 }
    } else {
        let o = octaves(f, t, kind, x, y, (n - 1) as nat);
        let v = noise_at(f, t, f(FloatOp::Mul, x, o.freq, 0), f(FloatOp::Mul, y, o.freq, 0));
        let w = if kind is Turbulence {
            magnitude(v) as u32
        } else {
            v
        };
        Octaves {
            total: f(FloatOp::MulAdd, w, o.amp, o.total),
            freq: f(FloatOp::Mul, o.freq, 0x4000_0000, 0),
            amp: f(FloatOp::Mul, o.amp, 0x3f00_0000, 0),
            max: f(FloatOp::Add, o.max, o.amp, 0),
        }
    }
}

/// The weighted mean of octaves.
pub open spec fn mean(f: Ops, o: Octaves) -> u32 {
    if float_lt(0, o.max) {
        f(FloatOp::Div, o.total, o.max, 0)
    } else {
        0
    }
}

/// A number held between zero and one.
pub open spec fn held(x: u32) -> u32 {
    if float_lt(x, 0) {
        0
    } else if float_lt(ONE, x) {
        ONE
    } else {
        x
    }
}

/// The gray of a noise shader at a point.
pub open spec fn noise_gray(f: Ops, s: PerlinNoiseShader, t: Seq<u8>, x: u32, y: u32) -> u32 {
    let n: nat = if s.num_octaves < 1 {
        1
    } else {
        s.num_octaves as nat
    };
    let m = mean(
        f,
        octaves(
            f,
            t,
            s.noise_type,
            f(FloatOp::Mul, x, s.base_frequency_x, 0),
            f(FloatOp::Mul, y, s.base_frequency_y, 0),
            n,
        ),
    );
    match s.noise_type {
        NoiseType::FractalNoise => held(f(FloatOp::MulAdd, m, 0x3f00_0000, 0x3f00_0000)),
        NoiseType::Turbulence => held(m),
    }
}

/// A generator of noise.
#[derive(Debug)]
pub struct PerlinNoiseGenerator {
    table: Vec<u8>,
}

impl View for PerlinNoiseGenerator {
    type V = Seq<u8>;

    closed spec fn view(&self) -> Seq<u8> {
        self.table@
    }
}

/// Holds a number between zero and one.
fn hold(x: u32) -> (r: u32)
    ensures
        r == held(x),
{
    if bits_lt(x, 0) {
        0
    } else if bits_lt(ONE, x) {
        ONE
    } else {
        x
    }
}

/// A coordinate modulo the size of the table.
fn wrapped(n: i64) -> (r: usize)
    requires
        i32::MIN <= n <= i32::MAX + 1,
    ensures
        r == n % 256,
        r < 256,
{
    let m: i64 = if n >= 0 {
        n % 256
    } else {
        (n + 0x8000_0000) % 256
    };
    m as usize
}

impl PerlinNoiseGenerator {
    #[verifier::type_invariant]
    spec fn wf(self) -> bool {
        self.table@.len() == 256
    }

    /// The generator of a seed.
    pub fn new(seed: u32) -> (g: PerlinNoiseGenerator)
        ensures
            g@ == noise_table(seed),
    {
        let mut table: Vec<u8> = Vec::new();
        let mut n: usize = 0;
        while n < 256
            invariant
                n <= 256,
                table@ == Seq::new(n as nat, |i: int| i as u8),
            decreases 256 - n,
        {
            table.push(n as u8);
            assert(table@ =~= Seq::new((n + 1) as nat, |i: int| i as u8));
            n = n + 1;
        }
        let mut state: u32 = if seed == 0 {
            0xdead_beef
        } else {
            seed
        };
        let mut i: usize = 255;
        let ghost mut k: nat = 0;
        while i > 0
            invariant
                i + k == 255,
                table@ == table_after(seed, k),
                table@.len() == 256,
                state == state_after(seed, k),
            decreases i,
        {
            state = state.wrapping_mul(1_103_515_245).wrapping_add(12_345);
            let j: usize = ((state / 65536) % 256) as usize % (i + 1);
            let a: u8 = table[i];
            let b: u8 = table[j];
            table.set(i, b);
            table.set(j, a);
            proof {
                k = k + 1;
                assert(table@ == table_after(seed, k));
            }
            i = i - 1;
        }
        PerlinNoiseGenerator { table }
    }

    /// The gradient number of a lattice point.
    fn lattice_at(&self, x: usize, y: usize) -> (g: i32)
        requires
            x < 256,
            y < 256,
        ensures
            g == self@[(self@[x as int] + y) % 256],
            0 <= g < 256,
    {
        proof {
            use_type_invariant(self);
        }
        let at: usize = (self.table[x] as usize + y) % 256;
        self.table[at] as i32
    }

    /// The noise at a point.
    pub fn noise_2d<A: Fn(FloatOp, u32, u32, u32) -> u32>(
        &self,
        f: &FloatUnit<A>,
        x: u32,
        y: u32,
    ) -> (r: u32)
        requires
            f.steady(),
        ensures
            r == noise_at(f.ops(), self@, x, y),
    {
        let fx: u32 = f.op(FloatOp::Floor, x, 0, 0);
        let fy: u32 = f.op(FloatOp::Floor, y, 0, 0);
        let xi: i32 = bits_to_int(fx);
        let yi: i32 = bits_to_int(fy);
        let xf: u32 = f.op(FloatOp::Sub, x, int_to_bits(xi), 0);
        let yf: u32 = f.op(FloatOp::Sub, y, int_to_bits(yi), 0);
        let xb: u32 = f.op(FloatOp::Sub, xf, ONE, 0);
        let yb: u32 = f.op(FloatOp::Sub, yf, ONE, 0);
        let u: u32 = fade(f, xf);
        let v: u32 = fade(f, yf);
        let x0: usize = wrapped(xi as i64);
        let y0: usize = wrapped(yi as i64);
        let x1: usize = wrapped(xi as i64 + 1);
        let y1: usize = wrapped(yi as i64 + 1);
        let d00: u32 = gradient(f, self.lattice_at(x0, y0), xf, yf);
        let d10: u32 = gradient(f, self.lattice_at(x1, y0), xb, yf);
        let d01: u32 = gradient(f, self.lattice_at(x0, y1), xf, yb);
        let d11: u32 = gradient(f, self.lattice_at(x1, y1), xb, yb);
        let above: u32 = lerp(f, d00, d10, u);
        let below: u32 = lerp(f, d01, d11, u);
        lerp(f, above, below, v)
    }

    /// The mean of octaves of noise.
    fn octave_mean<A: Fn(FloatOp, u32, u32, u32) -> u32>(
        &self,
        f: &FloatUnit<A>,
        kind: NoiseType,
        x: u32,
        y: u32,
        n: u32,
    ) -> (r: u32)
        requires
            f.steady(),
        ensures
            r == mean(f.ops(), octaves(f.ops(), self@, kind, x, y, n as nat)),
    {
        let mut total: u32 = 0;
        let mut freq: u32 = ONE;
        let mut amp: u32 = ONE;
        let mut max: u32 = 0;
        let mut k: u32 = 0;
        while k < n
            invariant
                f.steady(),
                k <= n,
                octaves(f.ops(), self@, kind, x, y, k as nat) == (Octaves {
                    total,
                    freq,
                    amp,
                    max,
                }),
            decreases n - k,
        {
            let xs: u32 = f.op(FloatOp::Mul, x, freq, 0);
            let ys: u32 = f.op(FloatOp::Mul, y, freq, 0);
            let v: u32 = self.noise_2d(f, xs, ys);
            let w: u32 = match kind {
                NoiseType::Turbulence => v % 0x8000_0000,
                NoiseType::FractalNoise => v,
            };
            total = f.op(FloatOp::MulAdd, w, amp, total);
            max = f.op(FloatOp::Add, max, amp, 0);
            freq = f.op(FloatOp::Mul, freq, 0x4000_0000, 0);
            amp = f.op(FloatOp::Mul, amp, 0x3f00_0000, 0);
            k = k + 1;
        }
        if bits_lt(0, max) {
            f.op(FloatOp::Div, total, max, 0)
        } else {
            0
        }
    }

    /// Octaves of smooth noise.
    pub fn fractal_2d<A: Fn(FloatOp, u32, u32, u32) -> u32>(
        &self,
        f: &FloatUnit<A>,
        x: u32,
        y: u32,
        n: u32,
    ) -> (r: u32)
        requires
            f.steady(),
        ensures
            r == mean(
                f.ops(),
                octaves(f.ops(), self@, NoiseType::FractalNoise, x, y, n as nat),
            ),
    {
        self.octave_mean(f, NoiseType::FractalNoise, x, y, n)
    }

    /// Octaves of the magnitude of noise, between zero and one.
    pub fn turbulence_2d<A: Fn(FloatOp, u32, u32, u32) -> u32>(
        &self,
        f: &FloatUnit<A>,
        x: u32,
        y: u32,
        n: u32,
    ) -> (r: u32)
        requires
            f.steady(),
        ensures
            r == held(
                mean(f.ops(), octaves(f.ops(), self@, NoiseType::Turbulence, x, y, n as nat)),
            ),
    {
        hold(self.octave_mean(f, NoiseType::Turbulence, x, y, n))
    }
}

/// The smooth step.
fn fade<A: Fn(FloatOp, u32, u32, u32) -> u32>(f: &FloatUnit<A>, t: u32) -> (r: u32)
    requires
        f.steady(),
    ensures
        r == eased(f.ops(), t),
{
    let square: u32 = f.op(FloatOp::Mul, t, t, 0);
    let cube: u32 = f.op(FloatOp::Mul, square, t, 0);
    let first: u32 = f.op(FloatOp::MulAdd, t, 0x40c0_0000, 0xc170_0000);
    let rest: u32 = f.op(FloatOp::MulAdd, t, first, 0x4120_0000);
    f.op(FloatOp::Mul, cube, rest, 0)
}

/// The point between `a` and `b` at `t`.
fn lerp<A: Fn(FloatOp, u32, u32, u32) -> u32>(f: &FloatUnit<A>, a: u32, b: u32, t: u32) -> (r: u32)
    requires
        f.steady(),
    ensures
        r == between(f.ops(), a, b, t),
{
    let d: u32 = f.op(FloatOp::Sub, b, a, 0);
    f.op(FloatOp::MulAdd, d, t, a)
}

/// The slope of a gradient toward an offset.
fn gradient<A: Fn(FloatOp, u32, u32, u32) -> u32>(
    f: &FloatUnit<A>,
    g: i32,
    dx: u32,
    dy: u32,
) -> (r: u32)
    requires
        f.steady(),
    ensures
        r == slope(f.ops(), g as int, dx, dy),
{
    let turns: u32 = f.op(FloatOp::Mul, int_to_bits(g), 0x40c9_0fdb, 0);
    let angle: u32 = f.op(FloatOp::Div, turns, 0x4380_0000, 0);
    let cos: u32 = f.op(FloatOp::Cos, angle, 0, 0);
    let sin: u32 = f.op(FloatOp::Sin, angle, 0, 0);
    let y: u32 = f.op(FloatOp::Mul, sin, dy, 0);
    f.op(FloatOp::MulAdd, cos, dx, y)
}

impl PerlinNoiseShader {
    /// The color at a point: gray and opaque.
    pub fn color_at<A: Fn(FloatOp, u32, u32, u32) -> u32>(
        &self,
        f: &FloatUnit<A>,
        x: u32,
        y: u32,
    ) -> (c: Color4f)
        requires
            f.steady(),
        ensures
            ({
                let v = noise_gray(f.ops(), *self, noise_table(natural_of_float(self.seed) as u32), x, y);
                c == (Color4f { r: v, g: v, b: v, a: ONE })
            }),
    {
        let g = PerlinNoiseGenerator::new(bits_to_natural(self.seed));
        let fx: u32 = f.op(FloatOp::Mul, x, self.base_frequency_x, 0);
        let fy: u32 = f.op(FloatOp::Mul, y, self.base_frequency_y, 0);
        let octaves: u32 = if self.num_octaves < 1 {
            1
        } else {
            self.num_octaves as u32
        };
        let v: u32 = match self.noise_type {
            NoiseType::FractalNoise => {
                let m: u32 = g.fractal_2d(f, fx, fy, octaves);
                hold(f.op(FloatOp::MulAdd, m, 0x3f00_0000, 0x3f00_0000))
            },
            NoiseType::Turbulence => g.turbulence_2d(f, fx, fy, octaves),
        };
        Color4f { r: v, g: v, b: v, a: ONE }
    }
}

} // verus!
