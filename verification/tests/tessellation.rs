use skia_rs::arith::{FloatOp, FloatUnit};
use skia_rs::curves::cut_evenly;
use skia_rs::geometry::{Matrix, Point, Rect};
use skia_rs::lists::Verb;
use skia_rs::mesh::{TessMesh, TessVertex, tessellate_rect};
use skia_rs::outline::{StrokeCap, StrokeJoin, StrokeStyle, stroke_joins, stroke_segments};
use skia_rs::path::{FillType, Path};
use skia_rs::path_edges::Edge;
use skia_rs::path_tessellator::{
    PathTessellator, TessQuality, matrix_max_scale, tessellate_circle, tessellate_rounded_rect,
};
use skia_rs::tessellation::{
    FillStrategy, ear_clip_triangulate, fill_strategy, polygon_is_ccw, polygon_is_convex,
};

fn fl(x: f32) -> u32 {
    x.to_bits()
}

fn compute(op: FloatOp, a: u32, b: u32, c: u32) -> u32 {
    let x = f32::from_bits(a);
    let y = f32::from_bits(b);
    let z = f32::from_bits(c);
    let r = match op {
        FloatOp::Add => x + y,
        FloatOp::Sub => x - y,
        FloatOp::Mul => x * y,
        FloatOp::Div => x / y,
        FloatOp::MulAdd => x.mul_add(y, z),
        FloatOp::Floor => x.floor(),
        FloatOp::Ceil => x.ceil(),
        FloatOp::Sin => x.sin(),
        FloatOp::Cos => x.cos(),
        FloatOp::Tan => x.tan(),
        FloatOp::Asin => x.asin(),
        FloatOp::Acos => x.acos(),
        FloatOp::Atan => x.atan(),
        FloatOp::Atan2 => x.atan2(y),
        FloatOp::Exp => x.exp(),
        FloatOp::Exp2 => x.exp2(),
        FloatOp::Ln => x.ln(),
        FloatOp::Log2 => x.log2(),
        FloatOp::Sqrt => x.sqrt(),
        FloatOp::Pow => x.powf(y),
        FloatOp::Radians => x.to_radians(),
        FloatOp::Degrees => x.to_degrees(),
        FloatOp::Rem => x.rem_euclid(y),
        FloatOp::Hypot => x.hypot(y),
        FloatOp::Blend => (y - x).mul_add(z, x),
        FloatOp::Round => x.round(),
        FloatOp::OfNatural => a as f32,
        FloatOp::Midpoint => ((f64::from(x) + f64::from(y)) / 2.0) as f32,
        FloatOp::Fract => x.fract(),
    };
    r.to_bits()
}

type Arith = fn(FloatOp, u32, u32, u32) -> u32;

fn unit() -> FloatUnit<Arith> {
    FloatUnit { arith: compute }
}

fn pt(x: f32, y: f32) -> Point {
    Point { x: fl(x), y: fl(y) }
}

struct Pen {
    verbs: Vec<Verb>,
    points: Vec<Point>,
    weights: Vec<u32>,
}

fn pen() -> Pen {
    Pen { verbs: Vec::new(), points: Vec::new(), weights: Vec::new() }
}

impl Pen {
    fn move_to(mut self, x: f32, y: f32) -> Self {
        self.verbs.push(Verb::Move);
        self.points.push(pt(x, y));
        self
    }

    fn line_to(mut self, x: f32, y: f32) -> Self {
        self.verbs.push(Verb::Line);
        self.points.push(pt(x, y));
        self
    }

    fn conic_to(mut self, cx: f32, cy: f32, x: f32, y: f32, w: f32) -> Self {
        self.verbs.push(Verb::Conic);
        self.points.push(pt(cx, cy));
        self.points.push(pt(x, y));
        self.weights.push(fl(w));
        self
    }

    fn cubic_to(mut self, ax: f32, ay: f32, bx: f32, by: f32, x: f32, y: f32) -> Self {
        self.verbs.push(Verb::Cubic);
        self.points.push(pt(ax, ay));
        self.points.push(pt(bx, by));
        self.points.push(pt(x, y));
        self
    }

    fn close(mut self) -> Self {
        self.verbs.push(Verb::Close);
        self
    }

    fn build(self) -> Path {
        Path::from_parts(&self.verbs, &self.points, &self.weights, FillType::Winding).unwrap()
    }
}

fn val(x: u32) -> f32 {
    f32::from_bits(x)
}

fn rect(l: f32, t: f32, r: f32, b: f32) -> Rect {
    Rect { left: fl(l), top: fl(t), right: fl(r), bottom: fl(b) }
}

fn scale(sx: f32, sy: f32) -> Matrix {
    Matrix { values: [fl(sx), 0, 0, 0, fl(sy), 0, 0, 0, fl(1.0)] }
}

fn side(p: Point, a: Point, b: Point) -> f32 {
    let (px, py) = (val(p.x), val(p.y));
    (px - val(b.x)) * (val(a.y) - val(b.y)) - (val(a.x) - val(b.x)) * (py - val(b.y))
}

fn point_in_triangle(p: Point, a: Point, b: Point, c: Point) -> bool {
    let d = [side(p, a, b), side(p, b, c), side(p, c, a)];
    !(d.iter().any(|x| *x < 0.0) && d.iter().any(|x| *x > 0.0))
}

#[test]
fn test_tess_vertex() {
    let v = TessVertex::new(fl(1.0), fl(2.0), fl(0.5), fl(0.5));
    assert_eq!(v.position, [fl(1.0), fl(2.0)]);
    assert_eq!(v.uv, [fl(0.5), fl(0.5)]);
}

#[test]
fn test_tess_mesh() {
    let mut mesh = TessMesh::new();
    assert!(mesh.is_empty());

    let v0 = mesh.add_vertex(TessVertex::new(fl(0.0), fl(0.0), fl(0.0), fl(0.0)));
    let v1 = mesh.add_vertex(TessVertex::new(fl(1.0), fl(0.0), fl(1.0), fl(0.0)));
    let v2 = mesh.add_vertex(TessVertex::new(fl(0.5), fl(1.0), fl(0.5), fl(1.0)));
    mesh.add_triangle(v0, v1, v2);

    assert!(!mesh.is_empty());
    assert_eq!(mesh.triangle_count(), 1);
    assert_eq!(mesh.vertices.len(), 3);
    assert_eq!(mesh.indices.len(), 3);
}

#[test]
fn merged_meshes_keep_their_triangles() {
    let mut a = tessellate_rect(rect(0.0, 0.0, 1.0, 1.0));
    let b = tessellate_rect(rect(2.0, 2.0, 3.0, 3.0));
    a.merge(&b);
    assert_eq!(a.vertices.len(), 8);
    assert_eq!(a.triangle_count(), 4);
    assert!(a.indices[6..].iter().all(|i| *i >= 4));
}

#[test]
fn test_tessellate_rect() {
    let mesh = tessellate_rect(rect(0.0, 0.0, 100.0, 50.0));
    assert_eq!(mesh.vertices.len(), 4);
    assert_eq!(mesh.indices.len(), 6);
    assert_eq!(mesh.triangle_count(), 2);
}

#[test]
fn test_tessellate_circle() {
    let mesh = tessellate_circle(&unit(), pt(50.0, 50.0), fl(25.0), TessQuality::medium());
    assert!(mesh.vertices.len() > 8);
    assert!(mesh.triangle_count() >= 8);
}

#[test]
fn test_tessellate_rounded_rect() {
    let r = rect(0.0, 0.0, 100.0, 50.0);
    let mesh = tessellate_rounded_rect(&unit(), r, fl(10.0), TessQuality::medium());
    assert!(mesh.vertices.len() > 4);
    assert!(mesh.triangle_count() > 2);
}

#[test]
fn a_rounded_rect_without_corners_is_a_rect() {
    let r = rect(0.0, 0.0, 100.0, 50.0);
    let mesh = tessellate_rounded_rect(&unit(), r, fl(0.0), TessQuality::medium());
    assert_eq!(mesh.vertices.len(), 4);
}

#[test]
fn test_path_tessellator_fill() {
    let tessellator = PathTessellator::new();
    let path = pen()
        .move_to(0.0, 0.0)
        .line_to(100.0, 0.0)
        .line_to(100.0, 100.0)
        .line_to(0.0, 100.0)
        .close()
        .build();

    let mesh = tessellator.tessellate_fill(&unit(), &path).unwrap();
    assert!(!mesh.is_empty());
    // 5 vertices: 4 corners + 1 close point (returns to start)
    assert!(mesh.vertices.len() >= 4);
    assert!(mesh.triangle_count() >= 2);
}

#[test]
fn test_path_tessellator_stroke() {
    let tessellator = PathTessellator::new();
    let path = pen().move_to(0.0, 0.0).line_to(100.0, 0.0).line_to(100.0, 100.0).build();

    let mesh = tessellator.tessellate_stroke(&unit(), &path, fl(2.0)).unwrap();
    assert!(!mesh.is_empty());
    assert!(mesh.vertices.len() >= 6);
}

#[test]
fn test_quality_presets() {
    assert!(val(TessQuality::low().tolerance) > val(TessQuality::high().tolerance));
    assert!(TessQuality::low().max_subdivisions < TessQuality::high().max_subdivisions);
}

fn rect_path() -> Path {
    pen()
        .move_to(0.0, 0.0)
        .line_to(10.0, 0.0)
        .line_to(10.0, 10.0)
        .line_to(0.0, 10.0)
        .close()
        .build()
}

#[test]
fn test_classify_fill_single_convex_direct() {
    let t = PathTessellator::new();
    assert_eq!(t.classify_fill(&unit(), &rect_path()), FillStrategy::DirectConvex);
    assert!(t.tessellate_fill_convex(&unit(), &rect_path()).is_some());
}

#[test]
fn test_classify_fill_multi_contour_stencil() {
    // Two contours (outer + hole) must route to stencil-cover so the hole
    // stays a hole rather than being filled solid by per-contour ear-clip.
    let path = pen()
        .move_to(0.0, 0.0)
        .line_to(30.0, 0.0)
        .line_to(30.0, 30.0)
        .line_to(0.0, 30.0)
        .close()
        .move_to(10.0, 10.0)
        .line_to(20.0, 10.0)
        .line_to(20.0, 20.0)
        .line_to(10.0, 20.0)
        .close()
        .build();
    let t = PathTessellator::new();
    assert_eq!(t.classify_fill(&unit(), &path), FillStrategy::StencilCover);
    assert!(t.tessellate_fill_convex(&unit(), &path).is_none());
}

#[test]
fn test_classify_fill_concave_stencil() {
    // A single non-convex (L-shaped) contour must route to stencil-cover.
    let path = pen()
        .move_to(0.0, 0.0)
        .line_to(30.0, 0.0)
        .line_to(30.0, 10.0)
        .line_to(10.0, 10.0)
        .line_to(10.0, 30.0)
        .line_to(0.0, 30.0)
        .close()
        .build();
    let t = PathTessellator::new();
    assert_eq!(t.classify_fill(&unit(), &path), FillStrategy::StencilCover);
}

#[test]
fn strategies_follow_the_contours() {
    assert_eq!(fill_strategy(1, true), FillStrategy::DirectConvex);
    assert_eq!(fill_strategy(1, false), FillStrategy::StencilCover);
    assert_eq!(fill_strategy(2, true), FillStrategy::StencilCover);
    let square = vec![pt(0.0, 0.0), pt(1.0, 0.0), pt(1.0, 1.0), pt(0.0, 1.0)];
    assert!(polygon_is_convex(&unit(), &square));
}

#[test]
fn test_device_scale_increases_curve_subdivision() {
    // Magnifying the view matrix must yield finer curve flattening (more
    // vertices), not a fixed cap.
    let path =
        pen().move_to(0.0, 0.0).cubic_to(0.0, 100.0, 100.0, 100.0, 100.0, 0.0).build();

    let t1 = PathTessellator::new();
    let n1 = t1.tessellate_fill(&unit(), &path).unwrap().vertices.len();

    let mut t10 = PathTessellator::new();
    t10.set_view_matrix(&unit(), &scale(10.0, 10.0));
    let n10 = t10.tessellate_fill(&unit(), &path).unwrap().vertices.len();

    assert!(n10 > n1, "magnified path should subdivide finer: {n1} vs {n10}");
}

#[test]
fn the_larger_scale_counts() {
    assert!((val(matrix_max_scale(&unit(), &scale(2.0, 5.0))) - 5.0).abs() < 1e-4);
}

#[test]
fn test_line_after_close_starts_at_last_move() {
    // A Line following Close without a Move begins a new contour at the last
    // move point.
    let path = pen()
        .move_to(0.0, 0.0)
        .line_to(10.0, 0.0)
        .line_to(10.0, 10.0)
        .close()
        .line_to(0.0, 20.0)
        .line_to(20.0, 20.0)
        .build();

    let contours = path.flatten_contours(&unit(), fl(0.25), true);
    assert_eq!(contours.len(), 2, "expected two contours");
    // The second contour must begin at the last move point (0,0), not at
    // its first explicit line vertex.
    assert_eq!(contours[1].points[0], pt(0.0, 0.0));
}

#[test]
fn test_stroke_miter_vs_bevel_geometry() {
    // A sharp right-angle corner: the miter join extends the outer corner
    // beyond the bevel, so the miter mesh reaches farther from the vertex.
    let path = pen().move_to(0.0, 10.0).line_to(10.0, 10.0).line_to(10.0, 0.0).build();

    let t = PathTessellator::new();
    let style = StrokeStyle::new(fl(4.0));
    let miter =
        t.tessellate_stroke_styled(&unit(), &path, &style.with_join(StrokeJoin::Miter)).unwrap();
    let bevel =
        t.tessellate_stroke_styled(&unit(), &path, &style.with_join(StrokeJoin::Bevel)).unwrap();

    let bx = std::f32::consts::FRAC_1_SQRT_2;
    let reach = |m: &TessMesh| {
        m.vertices
            .iter()
            .map(|v| {
                (val(v.position[0]) - 10.0).mul_add(bx, (val(v.position[1]) - 10.0) * bx)
            })
            .fold(f32::MIN, f32::max)
    };
    assert!(
        reach(&miter) > reach(&bevel) + 1e-3,
        "miter must reach farther than bevel at a sharp corner: {} vs {}",
        reach(&miter),
        reach(&bevel)
    );
}

#[test]
fn test_stroke_square_cap_adds_geometry() {
    // A square cap extends the ends, producing more geometry than butt.
    let path = pen().move_to(0.0, 0.0).line_to(10.0, 0.0).build();

    let t = PathTessellator::new();
    let style = StrokeStyle::new(fl(4.0));
    let butt =
        t.tessellate_stroke_styled(&unit(), &path, &style.with_cap(StrokeCap::Butt)).unwrap();
    let square =
        t.tessellate_stroke_styled(&unit(), &path, &style.with_cap(StrokeCap::Square)).unwrap();
    assert!(square.triangle_count() > butt.triangle_count());

    // Square cap reaches at least half_width beyond the end (x = 12).
    let max_x =
        square.vertices.iter().map(|v| val(v.position[0])).fold(0.0f32, f32::max);
    assert!(max_x >= 11.9, "square cap should extend past endpoint, got {max_x}");
}

#[test]
fn a_closed_stroke_joins_at_every_point() {
    assert_eq!(stroke_segments(3, true).len(), 3);
    assert_eq!(stroke_joins(3, true).len(), 3);
    assert_eq!(stroke_segments(3, false).len(), 2);
    assert_eq!(stroke_joins(3, false).len(), 1);
}

#[test]
fn test_polygon_signed_area() {
    // CCW square
    let ccw = vec![pt(0.0, 0.0), pt(10.0, 0.0), pt(10.0, 10.0), pt(0.0, 10.0)];
    assert!(polygon_is_ccw(&unit(), &ccw));
    // CW square
    let cw = vec![pt(0.0, 0.0), pt(0.0, 10.0), pt(10.0, 10.0), pt(10.0, 0.0)];
    assert!(!polygon_is_ccw(&unit(), &cw));
}

fn clipped(pts: &Vec<Point>) -> TessMesh {
    let mut mesh = TessMesh::new();
    for p in pts {
        mesh.add_vertex(TessVertex::from_point(*p));
    }
    ear_clip_triangulate(&unit(), pts, 0, &mut mesh);
    mesh
}

#[test]
fn test_ear_clip_concave_l_shape() {
    let pts = vec![
        pt(0.0, 0.0),
        pt(20.0, 0.0),
        pt(20.0, 10.0),
        pt(10.0, 10.0),
        pt(10.0, 20.0),
        pt(0.0, 20.0),
    ];
    let mesh = clipped(&pts);
    assert_eq!(mesh.triangle_count(), 4, "L-shape must emit n-2 triangles");

    // The notch is at x in (10, 20), y in (10, 20) — the point (15, 15)
    // must NOT lie inside any triangle we emitted.
    let notch = pt(15.0, 15.0);
    for tri in mesh.indices.chunks(3) {
        let a = pts[tri[0] as usize];
        let b = pts[tri[1] as usize];
        let c = pts[tri[2] as usize];
        assert!(
            !point_in_triangle(notch, a, b, c),
            "triangle ({a:?},{b:?},{c:?}) covers the concave notch"
        );
    }
}

#[test]
fn test_ear_clip_u_shape_concave() {
    let pts = vec![
        pt(0.0, 0.0),
        pt(30.0, 0.0),
        pt(30.0, 30.0),
        pt(20.0, 30.0),
        pt(20.0, 10.0),
        pt(10.0, 10.0),
        pt(10.0, 30.0),
        pt(0.0, 30.0),
    ];
    let mesh = clipped(&pts);
    // 8 vertices → 6 triangles.
    assert_eq!(mesh.triangle_count(), 6);

    // Point in the middle of the opening must NOT be covered.
    let hole = pt(15.0, 20.0);
    for tri in mesh.indices.chunks(3) {
        let a = pts[tri[0] as usize];
        let b = pts[tri[1] as usize];
        let c = pts[tri[2] as usize];
        assert!(!point_in_triangle(hole, a, b, c));
    }
}

#[test]
fn test_ear_clip_clockwise_input() {
    // The L-shape in CW order.
    let pts = vec![
        pt(0.0, 0.0),
        pt(0.0, 20.0),
        pt(10.0, 20.0),
        pt(10.0, 10.0),
        pt(20.0, 10.0),
        pt(20.0, 0.0),
    ];
    assert_eq!(clipped(&pts).triangle_count(), 4);
}

#[test]
fn simple_polygons_are_cut_into_triangles() {
    let comb = [
        (0, 0), (40, 1), (41, 30), (33, 31), (31, 9), (25, 7), (24, 33), (17, 35), (16, 8), (9, 11),
        (7, 37), (-2, 29),
    ];
    let arrow = [(0, 0), (13, 5), (1, 12), (4, 6)];
    let spiral = [
        (0, 0), (50, 2), (49, 51), (3, 48), (5, 14), (36, 17), (34, 35), (19, 33), (20, 26), (28, 28),
        (29, 22), (11, 20), (10, 41), (42, 44), (43, 9), (1, 7),
    ];
    for corners in [&comb[..], &arrow[..], &spiral[..]] {
        let mut pts: Vec<Point> = corners.iter().map(|&(x, y)| pt(x as f32, y as f32)).collect();
        for _ in 0..2 {
            let n = pts.len();
            let cross = |a: Point, b: Point, c: Point| side(c, a, b);
            let whole: f32 = (1..n - 1).map(|i| cross(pts[0], pts[i], pts[i + 1])).sum();
            let mesh = clipped(&pts);
            assert_eq!(mesh.triangle_count(), n - 2);
            let mut sum = 0.0;
            for t in mesh.indices.chunks(3) {
                let area = cross(pts[t[0] as usize], pts[t[1] as usize], pts[t[2] as usize]);
                assert!(area * whole > 0.0);
                sum += area;
            }
            assert_eq!(sum, whole);
            pts.reverse();
        }
    }
}

#[test]
fn test_path_tessellator_concave_fill() {
    let tessellator = PathTessellator::new();
    let path = pen()
        .move_to(0.0, 0.0)
        .line_to(20.0, 0.0)
        .line_to(20.0, 10.0)
        .line_to(10.0, 10.0)
        .line_to(10.0, 20.0)
        .line_to(0.0, 20.0)
        .close()
        .build();

    let mesh = tessellator.tessellate_fill(&unit(), &path).unwrap();
    // Six polygon vertices → four triangles.
    assert_eq!(mesh.triangle_count(), 4);
}

#[test]
fn test_conic_adaptive_subdivision() {
    let conic = |c: Point| {
        cut_evenly(&unit(), fl(0.25), Edge::Conic(pt(0.0, 0.0), c, pt(10.0, 0.0), fl(3.0)))
    };
    let heavy = conic(pt(5.0, 5.0)).len();
    let gentle = conic(pt(5.0, 0.01)).len();
    assert!(
        heavy > gentle,
        "sharp conic ({heavy} steps) should emit more segments than a gentle one ({gentle} steps)"
    );
    let quarter = pen().move_to(1.0, 0.0).conic_to(1.0, 1.0, 0.0, 1.0, 0.70710677).build();
    assert!(quarter.flatten_contours(&unit(), fl(0.01), false)[0].points.len() > 2);
}

#[test]
fn settings_are_kept() {
    let style = StrokeStyle::new(fl(4.0)).with_miter_limit(fl(2.0));
    assert_eq!(style.miter_limit, fl(2.0));
    assert_eq!(style.cap, StrokeCap::Butt);
    let fine = PathTessellator::with_quality(TessQuality::very_high());
    assert_eq!(
        fine.classify_fill(&unit(), &rect_path()),
        FillStrategy::DirectConvex
    );
    assert_eq!(TessQuality::very_high().tolerance, fl(0.1));
    assert_eq!(TessQuality::very_high().max_subdivisions, 15);
}

#[test]
fn clockwise_triangles_stay_clockwise() {
    let shape = vec![
        pt(0.0, 0.0),
        pt(0.0, 20.0),
        pt(10.0, 20.0),
        pt(10.0, 10.0),
        pt(20.0, 10.0),
        pt(20.0, 0.0),
    ];
    let mut reversed = shape.clone();
    reversed.reverse();
    for (pts, sign) in [(shape, -1.0), (reversed, 1.0)] {
        let mesh = clipped(&pts);
        let mut area = 0.0;
        for tri in mesh.indices.chunks(3) {
            let (a, b, c) = (pts[tri[0] as usize], pts[tri[1] as usize], pts[tri[2] as usize]);
            let cross = (val(b.x) - val(a.x)) * (val(c.y) - val(a.y))
                - (val(b.y) - val(a.y)) * (val(c.x) - val(a.x));
            assert!(cross * sign > 0.0);
            area += cross * sign / 2.0;
        }
        assert_eq!(mesh.triangle_count(), 4);
        assert_eq!(area, 300.0);
    }
}
