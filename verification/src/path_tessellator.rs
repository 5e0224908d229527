//! Tessellation of paths and of simple shapes.

use vstd::prelude::*;

use crate::arith::{FloatOp, FloatUnit, Ops};
use crate::curves::{FOUR, HALF, MAX_POINTS_PER_CURVE, TWO};
use crate::float_bits::{
    ONE, bits_lt, bits_max, bits_min, bits_neg, bits_to_natural, float_lt, float_max, float_min,
    magnitude, natural_of_float, negated,
};
use crate::geometry::{Matrix, Point, Rect};
use crate::mesh::{TessMesh, TessVertex, fan_of, stand_at, tessellate_rect};
use crate::outline::{ContourModel, StrokeStyle, contour_models, contours_of, evenly};
use crate::path::{Path, PathModel};
use crate::stroke::{PI, Piece, TWO_PI, share, stroke_contour, stroke_pieces};
use crate::tessellation::{
    FillStrategy, convex, corner_turns, counting, ear_clip_triangulate, ear_turns, fill_strategy,
    offset_by, polygon_is_convex, runs_ccw, triangles,
};

verus! {

/// How finely curves are cut.
#[derive(Debug, Clone, Copy, PartialEq, Eq, Structural)]
pub struct TessQuality {
    /// The largest distance of a curve from the lines it is cut into.
    pub tolerance: u32,
    /// The largest number of halvings. Curves are cut by the tolerance alone.
    pub max_subdivisions: u32,
}

impl TessQuality {
    /// Low quality.
    pub fn low() -> (r: TessQuality)
        ensures
            r == (TessQuality { tolerance: ONE, max_subdivisions: 5 }),
    {
        TessQuality { tolerance: ONE, max_subdivisions: 5 }
    }

    /// Medium quality.
    pub fn medium() -> (r: TessQuality)
        ensures
            r == (TessQuality { tolerance: HALF, max_subdivisions: 8 }),
    {
        TessQuality { tolerance: HALF, max_subdivisions: 8 }
    }

    /// High quality.
    pub fn high() -> (r: TessQuality)
        ensures
            r == (TessQuality { tolerance: 0x3e80_0000, max_subdivisions: 10 }),
    {
        TessQuality { tolerance: 0x3e80_0000, max_subdivisions: 10 }
    }

    /// Very high quality.
    pub fn very_high() -> (r: TessQuality)
        ensures
            r == (TessQuality { tolerance: 0x3dcc_cccd, max_subdivisions: 15 }),
    {
        TessQuality { tolerance: 0x3dcc_cccd, max_subdivisions: 15 }
    }
}

impl Default for TessQuality {
    /// High quality.
    fn default() -> (r: TessQuality)
        ensures
            r == (TessQuality { tolerance: 0x3e80_0000, max_subdivisions: 10 }),
    {
        TessQuality::high()
    }
}

/// The largest factor by which a linear map stretches.
pub open spec fn scale_of(f: Ops, a: u32, b: u32, c: u32, d: u32) -> u32 {
    let aa = f(
        FloatOp::MulAdd,
        d,
        d,
        f(FloatOp::MulAdd, c, c, f(FloatOp::MulAdd, a, a, f(FloatOp::Mul, b, b, 0))),
    );
    let det = f(FloatOp::MulAdd, a, d, negated(f(FloatOp::Mul, b, c, 0)));
    let disc = f(
        FloatOp::Sqrt,
        float_max(
            f(
                FloatOp::MulAdd,
                aa,
                aa,
                negated(f(FloatOp::Mul, f(FloatOp::Mul, FOUR, det, 0), det, 0)),
            ),
            0,
        ),
        0,
        0,
    );
    f(FloatOp::Sqrt, float_max(f(FloatOp::Mul, HALF, f(FloatOp::Add, aa, disc, 0), 0), 0), 0, 0)
}

/// The largest factor by which a linear map stretches.
fn largest_scale<A: Fn(FloatOp, u32, u32, u32) -> u32>(
    f: &FloatUnit<A>,
    a: u32,
    b: u32,
    c: u32,
    d: u32,
) -> (r: u32)
    requires
        f.steady(),
    ensures
        r == scale_of(f.ops(), a, b, c, d),
{
    let v1: u32 = f.op(FloatOp::Mul, b, b, 0);
    let v2: u32 = f.op(FloatOp::MulAdd, a, a, v1);
    let v3: u32 = f.op(FloatOp::MulAdd, c, c, v2);
    let v4: u32 = f.op(FloatOp::MulAdd, d, d, v3);
    let aa: u32 = v4;
    let v5: u32 = f.op(FloatOp::Mul, b, c, 0);
    let v6: u32 = f.op(FloatOp::MulAdd, a, d, bits_neg(v5));
    let det: u32 = v6;
    let v7: u32 = f.op(FloatOp::Mul, FOUR, det, 0);
    let v8: u32 = f.op(FloatOp::Mul, v7, det, 0);
    let v9: u32 = f.op(FloatOp::MulAdd, aa, aa, bits_neg(v8));
    let v10: u32 = f.op(FloatOp::Sqrt, bits_max(v9, 0), 0, 0);
    let disc: u32 = v10;
    let v11: u32 = f.op(FloatOp::Add, aa, disc, 0);
    let v12: u32 = f.op(FloatOp::Mul, HALF, v11, 0);
    let v13: u32 = f.op(FloatOp::Sqrt, bits_max(v12, 0), 0, 0);
    v13
}

/// The largest factor by which a matrix stretches.
pub open spec fn max_scale(f: Ops, m: Seq<u32>) -> u32 {
    scale_of(f, m[0], m[3], m[1], m[4])
}

/// The largest factor by which a matrix stretches.
pub fn matrix_max_scale<A: Fn(FloatOp, u32, u32, u32) -> u32>(f: &FloatUnit<A>, m: &Matrix) -> (r: u32)
    requires
        f.steady(),
    ensures
        r == max_scale(f.ops(), m@),
{
    largest_scale(f, m.values[0], m.values[3], m.values[1], m.values[4])
}

/// A tessellator of paths.
#[derive(Debug, Clone, Copy, PartialEq, Eq, Structural)]
pub struct PathTessellator {
    /// How finely curves are cut.
    pub quality: TessQuality,
    /// The factor by which the view stretches.
    pub device_scale: u32,
}

/// A contour without a last point that repeats the first.
pub open spec fn trimmed(f: Ops, pts: Seq<Point>) -> Seq<Point> {
    if pts.len() > 3 && float_lt(
        magnitude(f(FloatOp::Sub, pts[0].x, pts.last().x, 0)) as u32,
        0x3586_37bd,
    ) && float_lt(magnitude(f(FloatOp::Sub, pts[0].y, pts.last().y, 0)) as u32, 0x3586_37bd) {
        pts.drop_last()
    } else {
        pts
    }
}

/// The positions of the vertices of the fill of the first `k` contours.
pub open spec fn fill_points(f: Ops, cs: Seq<ContourModel>, k: nat) -> Seq<Point>
    decreases k,
{
    if k == 0 || k > cs.len() {
        Seq::empty()
    } else if cs[k - 1].points.len() < 3 {
        fill_points(f, cs, (k - 1) as nat)
    } else {
        fill_points(f, cs, (k - 1) as nat) + trimmed(f, cs[k - 1].points)
    }
}

/// The corners of the triangles that fill the first `k` contours.
pub open spec fn fill_corners(f: Ops, cs: Seq<ContourModel>, k: nat) -> Seq<u32>
    decreases k,
{
    if k == 0 || k > cs.len() {
        Seq::empty()
    } else if cs[k - 1].points.len() < 3 {
        fill_corners(f, cs, (k - 1) as nat)
    } else {
        let c = trimmed(f, cs[k - 1].points);
        fill_corners(f, cs, (k - 1) as nat) + offset_by(
            triangles(ear_turns(f, c), runs_ccw(f, c), counting(c.len())),
            fill_points(f, cs, (k - 1) as nat).len() as int,
        )
    }
}

proof fn lemma_fill_grows(f: Ops, cs: Seq<ContourModel>, i: nat, k: nat)
    requires
        i <= k <= cs.len(),
    ensures
        fill_points(f, cs, i).len() <= fill_points(f, cs, k).len(),
    decreases k,
{
    if i < k {
        lemma_fill_grows(f, cs, i, (k - 1) as nat);
    }
}

/// The corners of a piece.
pub open spec fn piece_points(p: Piece) -> Seq<Point> {
    match p {
        Piece::Tri(a, b, c) => seq![a, b, c],
        Piece::Quad(a, b, c, d) => seq![a, b, c, d],
    }
}

/// The positions of the vertices of the first `k` pieces.
pub open spec fn pieces_points(ps: Seq<Piece>, k: nat) -> Seq<Point>
    decreases k,
{
    if k == 0 || k > ps.len() {
        Seq::empty()
    } else {
        pieces_points(ps, (k - 1) as nat) + piece_points(ps[k - 1])
    }
}

/// The corners of the triangles of the first `k` pieces.
pub open spec fn pieces_corners(ps: Seq<Piece>, k: nat) -> Seq<u32>
    decreases k,
{
    if k == 0 || k > ps.len() {
        Seq::empty()
    } else {
        let n = pieces_points(ps, (k - 1) as nat).len() as u32;
        pieces_corners(ps, (k - 1) as nat) + match ps[k - 1] {
            Piece::Tri(..) => seq![n, (n + 1) as u32, (n + 2) as u32],
            Piece::Quad(..) => seq![
                n,
                (n + 1) as u32,
                (n + 2) as u32,
                n,
                (n + 2) as u32,
                (n + 3) as u32,
            ],
        }
    }
}

proof fn lemma_pieces_grow(ps: Seq<Piece>, i: nat, k: nat)
    requires
        i <= k <= ps.len(),
    ensures
        pieces_points(ps, i).len() <= pieces_points(ps, k).len(),
    decreases k,
{
    if i < k {
        lemma_pieces_grow(ps, i, (k - 1) as nat);
    }
}

/// The pieces of the strokes along the first `k` contours.
pub open spec fn all_pieces(f: Ops, cs: Seq<ContourModel>, style: StrokeStyle, k: nat) -> Seq<Piece>
    decreases k,
{
    if k == 0 || k > cs.len() {
        Seq::empty()
    } else {
        all_pieces(f, cs, style, (k - 1) as nat) + stroke_pieces(
            f,
            cs[k - 1].points,
            style,
            cs[k - 1].closed,
        )
    }
}

/// The mesh of pieces; none if it has too many vertices to number.
pub fn pieces_mesh(ps: &Vec<Piece>) -> (r: Option<TessMesh>)
    ensures
        match r {
            Some(m) => stand_at(m.vertices@, pieces_points(ps@, ps@.len())) && m.indices@
                == pieces_corners(ps@, ps@.len()) && m.valid(),
            None => pieces_points(ps@, ps@.len()).len() > u32::MAX - 4,
        },
{
    let mut mesh = TessMesh::new();
    let mut k: usize = 0;
    while k < ps.len()
        invariant
            k <= ps@.len(),
            stand_at(mesh.vertices@, pieces_points(ps@, k as nat)),
            mesh.indices@ == pieces_corners(ps@, k as nat),
            mesh.valid(),
        decreases ps@.len() - k,
    {
        if mesh.vertices.len() > 0xffff_fffb {
            proof {
                lemma_pieces_grow(ps@, k as nat, ps@.len());
            }
            return None;
        }
        let ghost before = mesh.vertices@;
        match ps[k] {
            Piece::Tri(a, b, c) => {
                mesh.emit_tri(a, b, c);
            },
            Piece::Quad(a, b, c, d) => {
                mesh.emit_quad(a, b, c, d);
            },
        }
        proof {
            let old_points = pieces_points(ps@, k as nat);
            let added = piece_points(ps@[k as int]);
            let now = mesh.vertices@;
            assert forall|i: int| 0 <= i < now.len() implies (#[trigger] now[i]).position@ == seq![
                (old_points + added)[i].x,
                (old_points + added)[i].y,
            ] && now[i].uv@ == seq![0u32, 0] by {
                if i < before.len() {
                    assert(now.take(before.len() as int)[i] == before[i]);
                } else {
                    assert(now.skip(before.len() as int)[i - before.len()] == now[i]);
                }
            }
        }
        k = k + 1;
    }
    Some(mesh)
}

impl PathTessellator {
    /// A tessellator of high quality.
    pub fn new() -> (r: PathTessellator)
        ensures
            r.quality == (TessQuality { tolerance: 0x3e80_0000, max_subdivisions: 10 }),
            r.device_scale == ONE,
    {
        PathTessellator { quality: TessQuality::high(), device_scale: ONE }
    }

    /// A tessellator of a given quality.
    pub fn with_quality(quality: TessQuality) -> (r: PathTessellator)
        ensures
            r == (PathTessellator { quality, device_scale: ONE }),
    {
        PathTessellator { quality, device_scale: ONE }
    }

    /// Sets the view through which paths are seen. The tolerance is measured
    /// there.
    pub fn set_view_matrix<A: Fn(FloatOp, u32, u32, u32) -> u32>(&mut self, f: &FloatUnit<A>, matrix: &Matrix)
        requires
            f.steady(),
        ensures
            *final(self) == (PathTessellator {
                device_scale: float_max(max_scale(f.ops(), matrix@), 0x38d1_b717),
                ..*old(self)
            }),
    {
        self.device_scale = bits_max(matrix_max_scale(f, matrix), 0x38d1_b717);
    }

    /// The tolerance in the coordinates of a path.
    pub open spec fn tolerance(self, f: Ops) -> u32 {
        float_max(f(FloatOp::Div, self.quality.tolerance, self.device_scale, 0), 0x38d1_b717)
    }

    /// The tolerance in the coordinates of a path.
    fn src_tolerance<A: Fn(FloatOp, u32, u32, u32) -> u32>(&self, f: &FloatUnit<A>) -> (r: u32)
        requires
            f.steady(),
        ensures
            r == self.tolerance(f.ops()),
    {
        let t: u32 = f.op(FloatOp::Div, self.quality.tolerance, self.device_scale, 0);
        bits_max(t, 0x38d1_b717)
    }

    /// The contours of a path that a fill is made of.
    pub open spec fn fill_contours(self, f: Ops, m: PathModel) -> Seq<ContourModel> {
        contours_of(evenly(f, self.tolerance(f)), m, true)
    }

    /// Tessellates the fill of a path, each contour by itself; none if the mesh
    /// has too many vertices to number.
    pub fn tessellate_fill<A: Fn(FloatOp, u32, u32, u32) -> u32>(
        &self,
        f: &FloatUnit<A>,
        path: &Path,
    ) -> (r: Option<TessMesh>)
        requires
            f.steady(),
        ensures
            ({
                let cs = self.fill_contours(f.ops(), path@);
                match r {
                    Some(m) => stand_at(m.vertices@, fill_points(f.ops(), cs, cs.len()))
                        && m.indices@ == fill_corners(f.ops(), cs, cs.len()),
                    None => fill_points(f.ops(), cs, cs.len()).len() > u32::MAX,
                }
            }),
    {
        let tol: u32 = self.src_tolerance(f);
        let contours = path.flatten_contours(f, tol, true);
        let ghost cs = contour_models(contours@);
        let mut mesh = TessMesh::new();
        let mut k: usize = 0;
        while k < contours.len()
            invariant
                f.steady(),
                cs == contour_models(contours@),
                cs == self.fill_contours(f.ops(), path@),
                k <= contours@.len() == cs.len(),
                stand_at(mesh.vertices@, fill_points(f.ops(), cs, k as nat)),
                mesh.indices@ == fill_corners(f.ops(), cs, k as nat),
                mesh.vertices@.len() <= u32::MAX,
            decreases contours@.len() - k,
        {
            assert(cs[k as int] == contours@[k as int]@);
            if contours[k].points.len() >= 3 {
                let pts = trim(f, &contours[k].points);
                if pts.len() > 0xffff_ffff - mesh.vertices.len() {
                    proof {
                        lemma_fill_grows(f.ops(), cs, (k + 1) as nat, cs.len());
                    }
                    return None;
                }
                let ghost before = mesh.vertices@;
                let ghost old_points = fill_points(f.ops(), cs, k as nat);
                let base: u32 = mesh.vertices.len() as u32;
                let mut i: usize = 0;
                while i < pts.len()
                    invariant
                        i <= pts@.len(),
                        before.len() == old_points.len(),
                        stand_at(mesh.vertices@, old_points + pts@.take(i as int)),
                        mesh.indices@ == fill_corners(f.ops(), cs, k as nat),
                    decreases pts@.len() - i,
                {
                    let ghost vs = mesh.vertices@;
                    mesh.vertices.push(TessVertex::from_point(pts[i]));
                    proof {
                        let want = old_points + pts@.take(i + 1);
                        assert forall|j: int| 0 <= j < mesh.vertices@.len() implies (
                        #[trigger] mesh.vertices@[j]).position@ == seq![want[j].x, want[j].y]
                            && mesh.vertices@[j].uv@ == seq![0u32, 0] by {
                            if j < vs.len() {
                                assert(mesh.vertices@[j] == vs[j]);
                                assert((old_points + pts@.take(i as int))[j] == want[j]);
                            }
                        }
                    }
                    i = i + 1;
                }
                assert(pts@.take(i as int) =~= pts@);
                ear_clip_triangulate(f, &pts, base, &mut mesh);
            }
            k = k + 1;
        }
        Some(mesh)
    }

    /// How the fill of a path is drawn: directly only where it has one contour
    /// of at least three points, and that is convex.
    pub open spec fn strategy(self, f: Ops, m: PathModel) -> FillStrategy {
        let cs = wide(contours_of(evenly(f, self.tolerance(f)), m, false));
        if cs.len() == 1 && convex(corner_turns(f, cs[0].points), cs[0].points.len() as int) {
            FillStrategy::DirectConvex
        } else {
            FillStrategy::StencilCover
        }
    }

    /// How the fill of a path is drawn.
    pub fn classify_fill<A: Fn(FloatOp, u32, u32, u32) -> u32>(
        &self,
        f: &FloatUnit<A>,
        path: &Path,
    ) -> (r: FillStrategy)
        requires
            f.steady(),
        ensures
            r == self.strategy(f.ops(), path@),
    {
        let tol: u32 = self.src_tolerance(f);
        let contours = path.flatten_contours(f, tol, false);
        let ghost cs = contour_models(contours@);
        let mut count: usize = 0;
        let mut first: usize = 0;
        let mut k: usize = 0;
        while k < contours.len()
            invariant
                cs == contour_models(contours@),
                k <= contours@.len() == cs.len(),
                count == wide_of(cs, k as nat).len(),
                count <= k,
                count > 0 ==> first < contours@.len() && wide_of(cs, k as nat)[0]
                    == contours@[first as int]@,
            decreases contours@.len() - k,
        {
            assert(cs[k as int] == contours@[k as int]@);
            if contours[k].points.len() >= 3 {
                if count == 0 {
                    first = k;
                }
                count = count + 1;
            }
            k = k + 1;
        }
        let is_convex = if count == 1 {
            polygon_is_convex(f, &contours[first].points)
        } else {
            false
        };
        fill_strategy(count, is_convex)
    }

    /// Tessellates the fill of a path that is drawn directly; none where it is
    /// not, or where the mesh has too many vertices to number.
    pub fn tessellate_fill_convex<A: Fn(FloatOp, u32, u32, u32) -> u32>(
        &self,
        f: &FloatUnit<A>,
        path: &Path,
    ) -> (r: Option<
        TessMesh,
    >)
        requires
            f.steady(),
        ensures
            ({
                let cs = self.fill_contours(f.ops(), path@);
                match r {
                    Some(m) => self.strategy(f.ops(), path@) == FillStrategy::DirectConvex
                        && stand_at(m.vertices@, fill_points(f.ops(), cs, cs.len()))
                        && m.indices@ == fill_corners(f.ops(), cs, cs.len()),
                    None => self.strategy(f.ops(), path@) == FillStrategy::StencilCover
                        || fill_points(f.ops(), cs, cs.len()).len() > u32::MAX,
                }
            }),
    {
        match self.classify_fill(f, path) {
            FillStrategy::DirectConvex => self.tessellate_fill(f, path),
            FillStrategy::StencilCover => None,
        }
    }

    /// Tessellates the stroke of a path with mitered joins and without caps.
    pub fn tessellate_stroke<A: Fn(FloatOp, u32, u32, u32) -> u32>(
        &self,
        f: &FloatUnit<A>,
        path: &Path,
        width: u32,
    ) -> (r: Option<
        TessMesh,
    >)
        requires
            f.steady(),
        ensures
            ({
                let cs = self.fill_contours(f.ops(), path@);
                let style = StrokeStyle {
                    width,
                    join: crate::outline::StrokeJoin::Miter,
                    cap: crate::outline::StrokeCap::Butt,
                    miter_limit: FOUR,
                };
                let ps = all_pieces(f.ops(), cs, style, cs.len());
                match r {
                    Some(m) => stand_at(m.vertices@, pieces_points(ps, ps.len())) && m.indices@
                        == pieces_corners(ps, ps.len()) && m.valid(),
                    None => pieces_points(ps, ps.len()).len() > u32::MAX - 4,
                }
            }),
    {
        self.tessellate_stroke_styled(f, path, &StrokeStyle::new(width))
    }

    /// Tessellates the stroke of a path; none if the mesh has too many vertices
    /// to number.
    pub fn tessellate_stroke_styled<A: Fn(FloatOp, u32, u32, u32) -> u32>(
        &self,
        f: &FloatUnit<A>,
        path: &Path,
        style: &StrokeStyle,
    ) -> (r: Option<TessMesh>)
        requires
            f.steady(),
        ensures
            ({
                let cs = self.fill_contours(f.ops(), path@);
                let ps = all_pieces(f.ops(), cs, *style, cs.len());
                match r {
                    Some(m) => stand_at(m.vertices@, pieces_points(ps, ps.len())) && m.indices@
                        == pieces_corners(ps, ps.len()) && m.valid(),
                    None => pieces_points(ps, ps.len()).len() > u32::MAX - 4,
                }
            }),
    {
        let tol: u32 = self.src_tolerance(f);
        let contours = path.flatten_contours(f, tol, true);
        let ghost cs = contour_models(contours@);
        let mut ps: Vec<Piece> = Vec::new();
        assert(ps@ =~= Seq::empty());
        let mut k: usize = 0;
        while k < contours.len()
            invariant
                f.steady(),
                cs == contour_models(contours@),
                k <= contours@.len() == cs.len(),
                ps@ == all_pieces(f.ops(), cs, *style, k as nat),
            decreases contours@.len() - k,
        {
            assert(cs[k as int] == contours@[k as int]@);
            stroke_contour(f, &contours[k].points, style, contours[k].closed, &mut ps);
            k = k + 1;
        }
        pieces_mesh(&ps)
    }
}

impl Default for PathTessellator {
    /// A tessellator of high quality.
    fn default() -> (r: PathTessellator)
        ensures
            r.quality == (TessQuality { tolerance: 0x3e80_0000, max_subdivisions: 10 }),
            r.device_scale == ONE,
    {
        PathTessellator::new()
    }
}

/// The contours of at least three points among the first `k`.
pub open spec fn wide_of(cs: Seq<ContourModel>, k: nat) -> Seq<ContourModel>
    decreases k,
{
    if k == 0 || k > cs.len() {
        Seq::empty()
    } else if cs[k - 1].points.len() >= 3 {
        wide_of(cs, (k - 1) as nat).push(cs[k - 1])
    } else {
        wide_of(cs, (k - 1) as nat)
    }
}

/// The contours of at least three points.
pub open spec fn wide(cs: Seq<ContourModel>) -> Seq<ContourModel> {
    wide_of(cs, cs.len())
}

/// Drops a last point that repeats the first.
fn trim<A: Fn(FloatOp, u32, u32, u32) -> u32>(f: &FloatUnit<A>, raw: &Vec<Point>) -> (r: Vec<Point>)
    requires
        f.steady(),
    ensures
        r@ == trimmed(f.ops(), raw@),
{
    let mut pts: Vec<Point> = Vec::new();
    let mut i: usize = 0;
    while i < raw.len()
        invariant
            i <= raw@.len(),
            pts@ == raw@.take(i as int),
        decreases raw@.len() - i,
    {
        pts.push(raw[i]);
        assert(pts@ =~= raw@.take(i + 1));
        i = i + 1;
    }
    assert(pts@ =~= raw@);
    let n: usize = pts.len();
    if n > 3 {
        let dx: u32 = f.op(FloatOp::Sub, pts[0].x, pts[n - 1].x, 0);
        let dy: u32 = f.op(FloatOp::Sub, pts[0].y, pts[n - 1].y, 0);
        if bits_lt(dx % 0x8000_0000, 0x3586_37bd) && bits_lt(dy % 0x8000_0000, 0x3586_37bd) {
            pts.pop();
            assert(pts@ =~= raw@.drop_last());
        }
    }
    pts
}

// ---------------------------------------------------------------------------
// Shapes
// ---------------------------------------------------------------------------

/// A vertex as a mathematical value.
pub struct VertexModel {
    /// Horizontal position.
    pub x: u32,
    /// Vertical position.
    pub y: u32,
    /// Horizontal texture coordinate.
    pub u: u32,
    /// Vertical texture coordinate.
    pub v: u32,
}

/// Whether vertices are those given.
pub open spec fn match_models(vs: Seq<TessVertex>, ms: Seq<VertexModel>) -> bool {
    &&& vs.len() == ms.len()
    &&& forall|i: int|
        0 <= i < vs.len() ==> (#[trigger] vs[i]).position@ == seq![ms[i].x, ms[i].y] && vs[i].uv@
            == seq![ms[i].u, ms[i].v]
}

/// The number of pieces that the rim of a shape is cut into.
pub open spec fn rim_count(f: Ops, len: u32, tol: u32, least: int) -> int {
    let n = natural_of_float(f(FloatOp::Ceil, f(FloatOp::Div, len, tol, 0), 0, 0));
    if n < least {
        least
    } else if n > MAX_POINTS_PER_CURVE {
        MAX_POINTS_PER_CURVE as int
    } else {
        n
    }
}

/// The number of pieces that the rim of a shape is cut into.
fn count_rim<A: Fn(FloatOp, u32, u32, u32) -> u32>(
    f: &FloatUnit<A>,
    len: u32,
    tol: u32,
    least: u32,
) -> (r: u32)
    requires
        f.steady(),
        1 <= least <= 8,
    ensures
        r == rim_count(f.ops(), len, tol, least as int),
        1 <= r <= MAX_POINTS_PER_CURVE,
{
    let q: u32 = f.op(FloatOp::Div, len, tol, 0);
    let c: u32 = f.op(FloatOp::Ceil, q, 0, 0);
    let n: u32 = bits_to_natural(c);
    if n < least {
        least
    } else if n > MAX_POINTS_PER_CURVE {
        MAX_POINTS_PER_CURVE
    } else {
        n
    }
}

/// The vertices of a mesh of a center and a rim.
pub open spec fn with_center(center: VertexModel, rim: Seq<VertexModel>) -> Seq<VertexModel> {
    seq![center] + rim
}

/// The numbers from one up to `n`.
pub open spec fn rim_numbers(n: nat) -> Seq<u32> {
    Seq::new(n, |i: int| (i + 1) as u32)
}

/// The rim vertex `i` of a circle cut into `n` pieces.
pub open spec fn circle_vertex(f: Ops, center: Point, radius: u32, n: u32, i: u32) -> VertexModel {
    let angle = f(FloatOp::Mul, f(FloatOp::Mul, share(f, i, n), TWO, 0), PI, 0);
    let cos = f(FloatOp::Cos, angle, 0, 0);
    let sin = f(FloatOp::Sin, angle, 0, 0);
    VertexModel {
        x: f(FloatOp::MulAdd, radius, cos, center.x),
        y: f(FloatOp::MulAdd, radius, sin, center.y),
        u: f(FloatOp::MulAdd, HALF, cos, HALF),
        v: f(FloatOp::MulAdd, HALF, sin, HALF),
    }
}

/// The number of pieces of a circle.
pub open spec fn circle_count(f: Ops, radius: u32, tol: u32) -> int {
    rim_count(f, f(FloatOp::Mul, TWO_PI, radius, 0), tol, 8)
}

/// Tessellates a circle: a fan from its center.
pub fn tessellate_circle<A: Fn(FloatOp, u32, u32, u32) -> u32>(
    f: &FloatUnit<A>,
    center: Point,
    radius: u32,
    quality: TessQuality,
) -> (r: TessMesh)
    requires
        f.steady(),
    ensures
        ({
            let n = circle_count(f.ops(), radius, quality.tolerance);
            match_models(
                r.vertices@,
                with_center(
                    VertexModel { x: center.x, y: center.y, u: HALF, v: HALF },
                    Seq::new(
                        n as nat,
                        |i: int| circle_vertex(f.ops(), center, radius, n as u32, i as u32),
                    ),
                ),
            ) && r.indices@ == fan_of(0, rim_numbers(n as nat), n as nat)
        }),
{
    let around: u32 = f.op(FloatOp::Mul, TWO_PI, radius, 0);
    let n: u32 = count_rim(f, around, quality.tolerance, 8);
    let mut mesh = TessMesh::new();
    let c: u32 = mesh.add_vertex(TessVertex::new(center.x, center.y, HALF, HALF));
    let mut ring: Vec<u32> = Vec::new();
    let ghost hub = VertexModel { x: center.x, y: center.y, u: HALF, v: HALF };
    let ghost rim = Seq::new(
        n as nat,
        |i: int| circle_vertex(f.ops(), center, radius, n, i as u32),
    );
    let mut i: u32 = 0;
    while i < n
        invariant
            f.steady(),
            n <= MAX_POINTS_PER_CURVE,
            rim == Seq::new(
                n as nat,
                |i: int| circle_vertex(f.ops(), center, radius, n, i as u32),
            ),
            i <= n,
            ring@ == rim_numbers(i as nat),
            match_models(mesh.vertices@, with_center(hub, rim.take(i as int))),
            mesh.indices@ == Seq::<u32>::empty(),
        decreases n - i,
    {
        let q: u32 = fraction_of(f, i, n);
        let q2: u32 = f.op(FloatOp::Mul, q, TWO, 0);
        let angle: u32 = f.op(FloatOp::Mul, q2, PI, 0);
        let cos: u32 = f.op(FloatOp::Cos, angle, 0, 0);
        let sin: u32 = f.op(FloatOp::Sin, angle, 0, 0);
        let x: u32 = f.op(FloatOp::MulAdd, radius, cos, center.x);
        let y: u32 = f.op(FloatOp::MulAdd, radius, sin, center.y);
        let u: u32 = f.op(FloatOp::MulAdd, HALF, cos, HALF);
        let v: u32 = f.op(FloatOp::MulAdd, HALF, sin, HALF);
        add_rim(&mut mesh, &mut ring, x, y, u, v, Ghost(hub), Ghost(rim), i);
        i = i + 1;
    }
    assert(rim.take(i as int) =~= rim);
    mesh.add_fan(c, &ring);
    assert(mesh.indices@ =~= fan_of(0, rim_numbers(n as nat), n as nat));
    mesh
}

/// Adds a vertex of the rim.
fn add_rim(
    mesh: &mut TessMesh,
    ring: &mut Vec<u32>,
    x: u32,
    y: u32,
    u: u32,
    v: u32,
    Ghost(hub): Ghost<VertexModel>,
    Ghost(rim): Ghost<Seq<VertexModel>>,
    i: u32,
)
    requires
        i < rim.len(),
        rim.len() <= 8192,
        rim[i as int] == (VertexModel { x, y, u, v }),
        old(ring)@ == rim_numbers(i as nat),
        match_models(old(mesh).vertices@, with_center(hub, rim.take(i as int))),
    ensures
        final(ring)@ == rim_numbers((i + 1) as nat),
        match_models(final(mesh).vertices@, with_center(hub, rim.take(i + 1))),
        final(mesh).indices@ == old(mesh).indices@,
{
    let ghost before = mesh.vertices@;
    let at: u32 = mesh.add_vertex(TessVertex::new(x, y, u, v));
    ring.push(at);
    proof {
        assert(ring@ =~= rim_numbers((i + 1) as nat));
        let want = with_center(hub, rim.take(i + 1));
        let had = with_center(hub, rim.take(i as int));
        assert forall|j: int| 0 <= j < mesh.vertices@.len() implies (
        #[trigger] mesh.vertices@[j]).position@ == seq![want[j].x, want[j].y]
            && mesh.vertices@[j].uv@ == seq![want[j].u, want[j].v] by {
            if j < before.len() {
                assert(mesh.vertices@[j] == before[j]);
                assert(had[j] == want[j]);
            } else {
                assert(want[j] == rim[i as int]);
            }
        }
    }
}

/// The fraction of two natural numbers.
fn fraction_of<A: Fn(FloatOp, u32, u32, u32) -> u32>(f: &FloatUnit<A>, i: u32, n: u32) -> (r: u32)
    requires
        f.steady(),
    ensures
        r == share(f.ops(), i, n),
{
    let a: u32 = f.op(FloatOp::OfNatural, i, 0, 0);
    let b: u32 = f.op(FloatOp::OfNatural, n, 0, 0);
    f.op(FloatOp::Div, a, b, 0)
}

/// The radius of the corners of a rounded rectangle: at most half its width
/// and height.
pub open spec fn corner_radius(f: Ops, rect: Rect, radius: u32) -> u32 {
    let w = f(FloatOp::Sub, rect.right, rect.left, 0);
    let h = f(FloatOp::Sub, rect.bottom, rect.top, 0);
    float_min(
        float_min(radius, f(FloatOp::Mul, w, HALF, 0)),
        f(FloatOp::Mul, h, HALF, 0),
    )
}

/// The angle at place `i` of `n` along corner `k`: top left, top right, bottom
/// right, bottom left.
pub open spec fn corner_angle(f: Ops, k: int, i: u32, n: u32) -> u32 {
    let q = share(f, i, n);
    if k == 0 {
        f(FloatOp::MulAdd, q, 0x3fc9_0fdb, PI)
    } else if k == 1 {
        f(FloatOp::MulAdd, PI, 0x3fc0_0000, f(FloatOp::Mul, q, 0x3fc9_0fdb, 0))
    } else if k == 2 {
        f(FloatOp::Mul, q, 0x3fc9_0fdb, 0)
    } else {
        f(FloatOp::MulAdd, q, 0x3fc9_0fdb, 0x3fc9_0fdb)
    }
}

/// The vertex at place `i` of `n` along corner `k`.
pub open spec fn corner_vertex(f: Ops, rect: Rect, r: u32, k: int, i: u32, n: u32) -> VertexModel {
    let angle = corner_angle(f, k, i, n);
    let rx = f(FloatOp::Mul, r, f(FloatOp::Cos, angle, 0, 0), 0);
    let ry = f(FloatOp::Mul, r, f(FloatOp::Sin, angle, 0, 0), 0);
    let cx = if k == 1 || k == 2 {
        f(FloatOp::Sub, rect.right, r, 0)
    } else {
        f(FloatOp::Add, rect.left, r, 0)
    };
    let cy = if k >= 2 {
        f(FloatOp::Sub, rect.bottom, r, 0)
    } else {
        f(FloatOp::Add, rect.top, r, 0)
    };
    let x = f(FloatOp::Add, cx, rx, 0);
    let y = f(FloatOp::Add, cy, ry, 0);
    VertexModel {
        x,
        y,
        u: f(
            FloatOp::Div,
            f(FloatOp::Sub, x, rect.left, 0),
            f(FloatOp::Sub, rect.right, rect.left, 0),
            0,
        ),
        v: f(
            FloatOp::Div,
            f(FloatOp::Sub, y, rect.top, 0),
            f(FloatOp::Sub, rect.bottom, rect.top, 0),
            0,
        ),
    }
}

/// The rim of a rounded rectangle: four corners of `n + 1` vertices each.
pub open spec fn rounded_rim(f: Ops, rect: Rect, r: u32, n: u32) -> Seq<VertexModel> {
    Seq::new(
        (4 * (n + 1)) as nat,
        |j: int| corner_vertex(f, rect, r, j / (n + 1), (j % (n + 1)) as u32, n),
    )
}

/// The center of a rectangle.
pub open spec fn center_of(f: Ops, rect: Rect) -> Point {
    Point {
        x: f(FloatOp::Mul, f(FloatOp::Add, rect.left, rect.right, 0), HALF, 0),
        y: f(FloatOp::Mul, f(FloatOp::Add, rect.top, rect.bottom, 0), HALF, 0),
    }
}

/// Places the vertex at place `i` of `n` along corner `k`.
fn place_corner<A: Fn(FloatOp, u32, u32, u32) -> u32>(
    f: &FloatUnit<A>,
    rect: Rect,
    r: u32,
    k: u32,
    i: u32,
    n: u32,
) -> (m: (
    u32,
    u32,
    u32,
    u32,
))
    requires
        f.steady(),
        k < 4,
    ensures
        corner_vertex(f.ops(), rect, r, k as int, i, n) == (VertexModel {
            x: m.0,
            y: m.1,
            u: m.2,
            v: m.3,
        }),
{
    let q: u32 = fraction_of(f, i, n);
    let angle: u32 = if k == 0 {
        f.op(FloatOp::MulAdd, q, 0x3fc9_0fdb, PI)
    } else if k == 1 {
        let part: u32 = f.op(FloatOp::Mul, q, 0x3fc9_0fdb, 0);
        f.op(FloatOp::MulAdd, PI, 0x3fc0_0000, part)
    } else if k == 2 {
        f.op(FloatOp::Mul, q, 0x3fc9_0fdb, 0)
    } else {
        f.op(FloatOp::MulAdd, q, 0x3fc9_0fdb, 0x3fc9_0fdb)
    };
    let cos: u32 = f.op(FloatOp::Cos, angle, 0, 0);
    let sin: u32 = f.op(FloatOp::Sin, angle, 0, 0);
    let rx: u32 = f.op(FloatOp::Mul, r, cos, 0);
    let ry: u32 = f.op(FloatOp::Mul, r, sin, 0);
    let cx: u32 = if k == 1 || k == 2 {
        f.op(FloatOp::Sub, rect.right, r, 0)
    } else {
        f.op(FloatOp::Add, rect.left, r, 0)
    };
    let cy: u32 = if k >= 2 {
        f.op(FloatOp::Sub, rect.bottom, r, 0)
    } else {
        f.op(FloatOp::Add, rect.top, r, 0)
    };
    let x: u32 = f.op(FloatOp::Add, cx, rx, 0);
    let y: u32 = f.op(FloatOp::Add, cy, ry, 0);
    let dx: u32 = f.op(FloatOp::Sub, x, rect.left, 0);
    let dy: u32 = f.op(FloatOp::Sub, y, rect.top, 0);
    let w: u32 = f.op(FloatOp::Sub, rect.right, rect.left, 0);
    let h: u32 = f.op(FloatOp::Sub, rect.bottom, rect.top, 0);
    let u: u32 = f.op(FloatOp::Div, dx, w, 0);
    let v: u32 = f.op(FloatOp::Div, dy, h, 0);
    (x, y, u, v)
}

/// The number of pieces of a rounded corner.
pub open spec fn corner_count(f: Ops, r: u32, tol: u32) -> int {
    rim_count(f, f(FloatOp::Mul, PI, r, 0), tol, 4)
}

/// The vertices of a plain rectangle.
pub open spec fn rect_vertices(rect: Rect) -> Seq<VertexModel> {
    seq![
        VertexModel { x: rect.left, y: rect.top, u: 0, v: 0 },
        VertexModel { x: rect.right, y: rect.top, u: ONE, v: 0 },
        VertexModel { x: rect.right, y: rect.bottom, u: ONE, v: ONE },
        VertexModel { x: rect.left, y: rect.bottom, u: 0, v: ONE },
    ]
}

/// Tessellates a rounded rectangle: a fan from its center, or a plain rectangle
/// where the corners are too small.
pub fn tessellate_rounded_rect<A: Fn(FloatOp, u32, u32, u32) -> u32>(
    f: &FloatUnit<A>,
    rect: Rect,
    radius: u32,
    quality: TessQuality,
) -> (m: TessMesh)
    requires
        f.steady(),
    ensures
        ({
            let r = corner_radius(f.ops(), rect, radius);
            let n = corner_count(f.ops(), r, quality.tolerance);
            let c = center_of(f.ops(), rect);
            if float_lt(r, 0x3a83_126f) {
                match_models(m.vertices@, rect_vertices(rect)) && m.indices@ == seq![
                    0u32,
                    1,
                    2,
                    0,
                    2,
                    3,
                ]
            } else {
                match_models(
                    m.vertices@,
                    with_center(
                        VertexModel { x: c.x, y: c.y, u: HALF, v: HALF },
                        rounded_rim(f.ops(), rect, r, n as u32),
                    ),
                ) && m.indices@ == fan_of(
                    0,
                    rim_numbers((4 * (n + 1)) as nat),
                    (4 * (n + 1)) as nat,
                )
            }
        }),
{
    let w: u32 = f.op(FloatOp::Sub, rect.right, rect.left, 0);
    let h: u32 = f.op(FloatOp::Sub, rect.bottom, rect.top, 0);
    let hw: u32 = f.op(FloatOp::Mul, w, HALF, 0);
    let hh: u32 = f.op(FloatOp::Mul, h, HALF, 0);
    let r: u32 = bits_min(bits_min(radius, hw), hh);
    if bits_lt(r, 0x3a83_126f) {
        return tessellate_rect(rect);
    }
    let arc: u32 = f.op(FloatOp::Mul, PI, r, 0);
    let n: u32 = count_rim(f, arc, quality.tolerance, 4);
    let sx: u32 = f.op(FloatOp::Add, rect.left, rect.right, 0);
    let sy: u32 = f.op(FloatOp::Add, rect.top, rect.bottom, 0);
    let cx: u32 = f.op(FloatOp::Mul, sx, HALF, 0);
    let cy: u32 = f.op(FloatOp::Mul, sy, HALF, 0);
    let mut mesh = TessMesh::new();
    let c: u32 = mesh.add_vertex(TessVertex::new(cx, cy, HALF, HALF));
    let mut ring: Vec<u32> = Vec::new();
    let ghost hub = VertexModel { x: cx, y: cy, u: HALF, v: HALF };
    let ghost rim = rounded_rim(f.ops(), rect, r, n);
    let total: u32 = 4 * (n + 1);
    let mut j: u32 = 0;
    while j < total
        invariant
            f.steady(),
            1 <= n <= MAX_POINTS_PER_CURVE,
            total == 4 * (n + 1),
            rim == rounded_rim(f.ops(), rect, r, n),
            j <= total,
            ring@ == rim_numbers(j as nat),
            match_models(mesh.vertices@, with_center(hub, rim.take(j as int))),
            mesh.indices@ == Seq::<u32>::empty(),
        decreases total - j,
    {
        let d: u32 = n + 1;
        let k: u32 = j / d;
        let i: u32 = j % d;
        assert(k < 4) by (nonlinear_arith)
            requires
                k == j / d,
                j < 4 * d,
                d > 0,
        ;
        let (x, y, u, v) = place_corner(f, rect, r, k, i, n);
        add_rim(&mut mesh, &mut ring, x, y, u, v, Ghost(hub), Ghost(rim), j);
        j = j + 1;
    }
    assert(rim.take(j as int) =~= rim);
    mesh.add_fan(c, &ring);
    assert(mesh.indices@ =~= fan_of(0, rim_numbers(total as nat), total as nat));
    mesh
}

} // verus!
