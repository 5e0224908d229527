//! Signed distance fields, as data.

use vstd::prelude::*;

use crate::arith::{FloatOp, FloatUnit, Ops};
use crate::float_bits::{ONE, bits_max, bits_min, float_max, float_min};
use crate::geometry::Point;

verus! {

/// How a distance field is made.
#[derive(Debug, Clone, Copy, PartialEq, Eq, Structural)]
pub struct SdfConfig {
    /// Size of the texture.
    pub size: u32,
    /// Padding around the shape.
    pub padding: u32,
    /// Largest distance, in pixels.
    pub spread: u32,
    /// Scale.
    pub scale: u32,
}

impl Default for SdfConfig {
    fn default() -> (r: SdfConfig)
        ensures
            r == (SdfConfig { size: 64, padding: 4, spread: 0x4100_0000, scale: ONE }),
    {
        SdfConfig { size: 64, padding: 4, spread: 0x4100_0000, scale: ONE }
    }
}

impl SdfConfig {
    /// For high resolution.
    pub fn high_res() -> (r: SdfConfig)
        ensures
            r == (SdfConfig { size: 128, padding: 8, spread: 0x4180_0000, scale: ONE }),
    {
        SdfConfig { size: 128, padding: 8, spread: 0x4180_0000, scale: ONE }
    }

    /// For small textures.
    pub fn compact() -> (r: SdfConfig)
        ensures
            r == (SdfConfig { size: 32, padding: 2, spread: 0x4080_0000, scale: ONE }),
    {
        SdfConfig { size: 32, padding: 2, spread: 0x4080_0000, scale: ONE }
    }
}

/// How a distance field is drawn.
#[derive(Debug, Clone, Copy, PartialEq, Eq, Structural)]
pub struct SdfRenderParams {
    /// Smoothing.
    pub smoothing: u32,
    /// Width of the outline; zero for none.
    pub outline_width: u32,
    /// Softness of the edge.
    pub soft_edge: u32,
    /// Distance that counts as the edge.
    pub threshold: u32,
}

impl Default for SdfRenderParams {
    fn default() -> (r: SdfRenderParams)
        ensures
            r == (SdfRenderParams {
                smoothing: 0x3d00_0000,
                outline_width: 0,
                soft_edge: 0,
                threshold: 0x3f00_0000,
            }),
    {
        SdfRenderParams {
            smoothing: 0x3d00_0000,
            outline_width: 0,
            soft_edge: 0,
            threshold: 0x3f00_0000,
        }
    }
}

/// Parameters whose smoothing is a part of the spread.
pub open spec fn smoothed(
    f: Ops,
    part: u32,
    spread: u32,
    outline_width: u32,
    soft_edge: u32,
) -> SdfRenderParams {
    SdfRenderParams {
        smoothing: f(FloatOp::Div, part, spread, 0),
        outline_width,
        soft_edge,
        threshold: 0x3f00_0000,
    }
}

impl SdfRenderParams {
    /// For sharp edges.
    pub fn crisp<A: Fn(FloatOp, u32, u32, u32) -> u32>(f: &FloatUnit<A>, spread: u32) -> (r:
        SdfRenderParams)
        requires
            f.steady(),
        ensures
            r == smoothed(f.ops(), 0x3dcc_cccd, spread, 0, 0),
    {
        SdfRenderParams {
            smoothing: f.op(FloatOp::Div, 0x3dcc_cccd, spread, 0),
            outline_width: 0,
            soft_edge: 0,
            threshold: 0x3f00_0000,
        }
    }

    /// For soft edges.
    pub fn soft<A: Fn(FloatOp, u32, u32, u32) -> u32>(f: &FloatUnit<A>, spread: u32) -> (r:
        SdfRenderParams)
        requires
            f.steady(),
        ensures
            r == smoothed(f.ops(), 0x3f00_0000, spread, 0, 0x3e4c_cccd),
    {
        SdfRenderParams {
            smoothing: f.op(FloatOp::Div, 0x3f00_0000, spread, 0),
            outline_width: 0,
            soft_edge: 0x3e4c_cccd,
            threshold: 0x3f00_0000,
        }
    }

    /// With an outline.
    pub fn with_outline<A: Fn(FloatOp, u32, u32, u32) -> u32>(
        f: &FloatUnit<A>,
        spread: u32,
        outline_width: u32,
    ) -> (r: SdfRenderParams)
        requires
            f.steady(),
        ensures
            r == smoothed(f.ops(), 0x3e80_0000, spread, outline_width, 0),
    {
        SdfRenderParams {
            smoothing: f.op(FloatOp::Div, 0x3e80_0000, spread, 0),
            outline_width,
            soft_edge: 0,
            threshold: 0x3f00_0000,
        }
    }
}

/// The four samples around a position: at the top left, top right, bottom left
/// and bottom right, held within the field.
pub open spec fn corners(width: int, height: int, x: int, y: int) -> Seq<int> {
    let x0 = if x < 0 {
        0
    } else if x >= width {
        width - 1
    } else {
        x
    };
    let y0 = if y < 0 {
        0
    } else if y >= height {
        height - 1
    } else {
        y
    };
    let x1 = if x0 + 1 < width {
        x0 + 1
    } else {
        width - 1
    };
    let y1 = if y0 + 1 < height {
        y0 + 1
    } else {
        height - 1
    };
    seq![y0 * width + x0, y0 * width + x1, y1 * width + x0, y1 * width + x1]
}

/// A coordinate held below `n`, and the next one, also held below `n`.
fn hold_pair(v: i32, n: u32) -> (r: (u32, u32))
    requires
        0 < n <= i32::MAX,
    ensures
        r.0 < n,
        r.1 < n,
        r.0 == if v < 0 {
            0
        } else if v >= n {
            n - 1
        } else {
            v as int
        },
        r.1 == if r.0 + 1 < n {
            r.0 + 1
        } else {
            n - 1
        },
{
    let a: u32 = if v < 0 {
        0
    } else if v as u32 >= n {
        n - 1
    } else {
        v as u32
    };
    let b: u32 = if a + 1 < n {
        a + 1
    } else {
        n - 1
    };
    (a, b)
}

/// Where the four samples around a position stand, given the position rounded
/// down.
pub fn bilinear_corners(width: u32, height: u32, x: i32, y: i32) -> (r: [usize; 4])
    requires
        0 < width <= i32::MAX,
        0 < height <= i32::MAX,
        width * height <= usize::MAX,
    ensures
        corners(width as int, height as int, x as int, y as int) == seq![
            r@[0] as int,
            r@[1] as int,
            r@[2] as int,
            r@[3] as int,
        ],
        forall|i: int| 0 <= i < 4 ==> (#[trigger] r@[i]) < width * height,
{
    let (x0, x1) = hold_pair(x, width);
    let (y0, y1) = hold_pair(y, height);
    let w: usize = width as usize;
    proof {
        let wi = width as int;
        let h = height as int;
        assert(0 <= y0 * wi && 0 <= y1 * wi && y0 * wi + wi <= wi * h && y1 * wi + wi <= wi * h)
            by (nonlinear_arith)
            requires
                0 <= y0 <= h - 1,
                0 <= y1 <= h - 1,
                0 < wi,
        ;
    }
    let top: usize = y0 as usize * w;
    let bottom: usize = y1 as usize * w;
    let r: [usize; 4] = [
        top + x0 as usize,
        top + x1 as usize,
        bottom + x0 as usize,
        bottom + x1 as usize,
    ];
    assert(corners(width as int, height as int, x as int, y as int) =~= seq![
        r@[0] as int,
        r@[1] as int,
        r@[2] as int,
        r@[3] as int,
    ]);
    r
}

/// The middle one of three values.
pub open spec fn median(r: u32, g: u32, b: u32) -> u32 {
    float_min(float_max(r, float_min(g, b)), float_max(g, b))
}

/// The middle one of three values.
pub fn median_of_three(r: u32, g: u32, b: u32) -> (m: u32)
    ensures
        m == median(r, g, b),
{
    bits_min(bits_max(r, bits_min(g, b)), bits_max(g, b))
}

/// The median of three numbers lies between two of them.
pub proof fn median_is_between(r: u32, g: u32, b: u32)
    requires
        !crate::float_bits::is_nan(r),
        !crate::float_bits::is_nan(g),
        !crate::float_bits::is_nan(b),
    ensures
        median(r, g, b) == r || median(r, g, b) == g || median(r, g, b) == b,
        ({
            let m = crate::float_bits::key(median(r, g, b));
            let x = crate::float_bits::key(r);
            let y = crate::float_bits::key(g);
            let z = crate::float_bits::key(b);
            (x <= m <= y || y <= m <= x || x <= m <= z || z <= m <= x || y <= m <= z || z <= m
                <= y) && (m <= x || m <= y) && (m <= y || m <= z) && (m <= x || m <= z)
        }),
{
}

/// A glyph of a distance field.
#[derive(Debug, Clone, Copy)]
pub struct SdfGlyphMetrics {
    /// Corners in the atlas.
    pub uv: [u32; 4],
    /// Offset from the baseline.
    pub offset: Point,
    /// Size in pixels.
    pub size: [u32; 2],
    /// Advance width.
    pub advance: u32,
    /// Largest distance.
    pub spread: u32,
}

/// A glyph on the screen.
#[derive(Debug, Clone, Copy)]
pub struct SdfTextInstance {
    /// Position.
    pub position: Point,
    /// Corners in the atlas.
    pub uv: [u32; 4],
    /// Size.
    pub size: [u32; 2],
    /// Color.
    pub color: [u32; 4],
    /// Scale.
    pub scale: u32,
}

/// Glyphs to draw.
#[derive(Debug)]
pub struct SdfTextBatch {
    /// The glyphs.
    pub instances: Vec<SdfTextInstance>,
    /// How to draw them.
    pub params: SdfRenderParams,
}

impl SdfTextBatch {
    /// An empty batch.
    pub fn new(params: SdfRenderParams) -> (r: SdfTextBatch)
        ensures
            r.instances@ == Seq::<SdfTextInstance>::empty(),
            r.params == params,
    {
        SdfTextBatch { instances: Vec::new(), params }
    }

    /// Adds a glyph at a position, scaled.
    pub fn add_glyph<A: Fn(FloatOp, u32, u32, u32) -> u32>(
        &mut self,
        f: &FloatUnit<A>,
        metrics: &SdfGlyphMetrics,
        position: Point,
        scale: u32,
        color: [u32; 4],
    )
        requires
            f.steady(),
        ensures
            final(self).params == old(self).params,
            final(self).instances@ == old(self).instances@.push(
                (SdfTextInstance {
                    position: Point {
                        x: f.ops()(FloatOp::MulAdd, metrics.offset.x, scale, position.x),
                        y: f.ops()(FloatOp::MulAdd, metrics.offset.y, scale, position.y),
                    },
                    uv: metrics.uv,
                    size: [
                        f.ops()(FloatOp::Mul, metrics.size[0], scale, 0),
                        f.ops()(FloatOp::Mul, metrics.size[1], scale, 0),
                    ],
                    color,
                    scale,
                }),
            ),
    {
        let x: u32 = f.op(FloatOp::MulAdd, metrics.offset.x, scale, position.x);
        let y: u32 = f.op(FloatOp::MulAdd, metrics.offset.y, scale, position.y);
        let w: u32 = f.op(FloatOp::Mul, metrics.size[0], scale, 0);
        let h: u32 = f.op(FloatOp::Mul, metrics.size[1], scale, 0);
        self.instances.push(
            SdfTextInstance {
                position: Point { x, y },
                uv: metrics.uv,
                size: [w, h],
                color,
                scale,
            },
        );
    }

    /// Whether there are no glyphs.
    pub fn is_empty(&self) -> (r: bool)
        ensures
            r == (self.instances@.len() == 0),
    {
        self.instances.len() == 0
    }

    /// The number of glyphs.
    pub fn len(&self) -> (n: usize)
        ensures
            n == self.instances@.len(),
    {
        self.instances.len()
    }

    /// Removes all glyphs.
    pub fn clear(&mut self)
        ensures
            final(self).instances@ == Seq::<SdfTextInstance>::empty(),
            final(self).params == old(self).params,
    {
        self.instances.clear();
    }
}

} // verus!
