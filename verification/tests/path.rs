use geo::BooleanOps;

use skia_rs::arith::{FloatOp, FloatUnit};
use skia_rs::curves::{
    cut_adaptively, flatten_conic_adaptive, flatten_cubic_adaptive, flatten_quad_adaptive,
};
use skia_rs::geometry::{Point, Rect};
use skia_rs::linearize::{flatten_edge, linearize_cubic, linearize_quad};
use skia_rs::lists::Verb;
use skia_rs::path::{FillType, Path, PathConvexity, PathDirection, PathElement};
use skia_rs::path_boolean::{Shape, op, simplify};
use skia_rs::path_class::{Product, Surveyor};
use skia_rs::path_edges::{Edge, is_filled};
use skia_rs::path_ops::{OpPlan, PathOp, group_polygons, plan_op, polygons_to_path};

fn fl(x: f32) -> u32 {
    x.to_bits()
}

fn compute(op: FloatOp, a: u32, b: u32, c: u32) -> u32 {
    let x = f32::from_bits(a);
    let y = f32::from_bits(b);
    let z = f32::from_bits(c);
    let r = match op {
        FloatOp::Add => x + y,
        FloatOp::Sub => x - y,
        FloatOp::Mul => x * y,
        FloatOp::Div => x / y,
        FloatOp::MulAdd => x.mul_add(y, z),
        FloatOp::Floor => x.floor(),
        FloatOp::Ceil => x.ceil(),
        FloatOp::Sin => x.sin(),
        FloatOp::Cos => x.cos(),
        FloatOp::Tan => x.tan(),
        FloatOp::Asin => x.asin(),
        FloatOp::Acos => x.acos(),
        FloatOp::Atan => x.atan(),
        FloatOp::Atan2 => x.atan2(y),
        FloatOp::Exp => x.exp(),
        FloatOp::Exp2 => x.exp2(),
        FloatOp::Ln => x.ln(),
        FloatOp::Log2 => x.log2(),
        FloatOp::Sqrt => x.sqrt(),
        FloatOp::Pow => x.powf(y),
        FloatOp::Radians => x.to_radians(),
        FloatOp::Degrees => x.to_degrees(),
        FloatOp::Rem => x.rem_euclid(y),
        FloatOp::Hypot => x.hypot(y),
        FloatOp::Blend => (y - x).mul_add(z, x),
        FloatOp::Round => x.round(),
        FloatOp::OfNatural => a as f32,
        FloatOp::Midpoint => ((f64::from(x) + f64::from(y)) / 2.0) as f32,
        FloatOp::Fract => x.fract(),
    };
    r.to_bits()
}

type Arith = fn(FloatOp, u32, u32, u32) -> u32;

fn unit() -> FloatUnit<Arith> {
    FloatUnit { arith: compute }
}

fn pt(x: f32, y: f32) -> Point {
    Point { x: fl(x), y: fl(y) }
}

struct Pen {
    verbs: Vec<Verb>,
    points: Vec<Point>,
    weights: Vec<u32>,
}

fn pen() -> Pen {
    Pen { verbs: Vec::new(), points: Vec::new(), weights: Vec::new() }
}

impl Pen {
    fn move_to(mut self, x: f32, y: f32) -> Self {
        self.verbs.push(Verb::Move);
        self.points.push(pt(x, y));
        self
    }

    fn line_to(mut self, x: f32, y: f32) -> Self {
        self.verbs.push(Verb::Line);
        self.points.push(pt(x, y));
        self
    }

    fn conic_to(mut self, cx: f32, cy: f32, x: f32, y: f32, w: f32) -> Self {
        self.verbs.push(Verb::Conic);
        self.points.push(pt(cx, cy));
        self.points.push(pt(x, y));
        self.weights.push(fl(w));
        self
    }

    fn cubic_to(mut self, ax: f32, ay: f32, bx: f32, by: f32, x: f32, y: f32) -> Self {
        self.verbs.push(Verb::Cubic);
        self.points.push(pt(ax, ay));
        self.points.push(pt(bx, by));
        self.points.push(pt(x, y));
        self
    }

    fn close(mut self) -> Self {
        self.verbs.push(Verb::Close);
        self
    }

    fn build(self) -> Path {
        Path::from_parts(&self.verbs, &self.points, &self.weights, FillType::Winding).unwrap()
    }
}

fn val(x: u32) -> f32 {
    f32::from_bits(x)
}

fn rect(l: f32, t: f32, r: f32, b: f32) -> Rect {
    Rect { left: fl(l), top: fl(t), right: fl(r), bottom: fl(b) }
}

impl Pen {
    fn rect(self, l: f32, t: f32, r: f32, b: f32) -> Self {
        self.move_to(l, t).line_to(r, t).line_to(r, b).line_to(l, b).close()
    }

    fn oval(self, l: f32, t: f32, r: f32, b: f32) -> Self {
        let w = std::f32::consts::FRAC_1_SQRT_2;
        let (cx, cy) = ((l + r) * 0.5, (t + b) * 0.5);
        self.move_to(r, cy)
            .conic_to(r, b, cx, b, w)
            .conic_to(l, b, l, cy, w)
            .conic_to(l, t, cx, t, w)
            .conic_to(r, t, r, cy, w)
            .close()
    }
}

fn product(k: Product, a: Point, b: Point) -> u32 {
    let (ax, ay, bx, by) = (val(a.x), val(a.y), val(b.x), val(b.y));
    fl(match k {
        Product::Cross => ax * by - ay * bx,
        Product::Dot => ax * bx + ay * by,
    })
}

fn corner(a: Point, b: Point, c: Point) -> u32 {
    let (x, y) = (val(a.x), val(a.y));
    let (bx, by, cx, cy) = (val(b.x) - x, val(b.y) - y, val(c.x) - x, val(c.y) - y);
    fl(bx.mul_add(cy, -(by * cx)))
}

fn surveyor() -> Surveyor<
    Arith,
    fn(Product, Point, Point) -> u32,
    fn(Point, Point, Point) -> u32,
> {
    Surveyor { floats: unit(), product, corner }
}

#[test]
fn test_is_oval_true_for_actual_oval() {
    let path = pen().oval(0.0, 0.0, 100.0, 50.0).build();
    assert!(path.is_oval(&unit()), "an oval should report is_oval=true");
}

#[test]
fn test_is_oval_false_for_random_cubics() {
    // 4 cubics with arbitrary control points — should NOT be detected.
    let path = pen()
        .move_to(0.0, 0.0)
        .cubic_to(10.0, 0.0, 20.0, 5.0, 30.0, 10.0)
        .cubic_to(40.0, 15.0, 50.0, 20.0, 60.0, 25.0)
        .cubic_to(70.0, 30.0, 80.0, 35.0, 90.0, 40.0)
        .cubic_to(95.0, 45.0, 100.0, 47.0, 0.0, 0.0)
        .close()
        .build();
    assert!(!path.is_oval(&unit()), "Random 4-cubic path should not be detected as oval");
}

#[test]
fn test_path_convexity_returns_consistent_result() {
    let mut path = pen().rect(0.0, 0.0, 10.0, 10.0).build();
    let c1 = surveyor().convexity(&mut path);
    let c2 = surveyor().convexity(&mut path);
    assert_eq!(c1, c2);
}

#[test]
fn test_tight_bounds_smaller_than_bounds_for_curves() {
    let path = pen().move_to(0.0, 0.0).cubic_to(50.0, 100.0, 50.0, -100.0, 100.0, 0.0).build();

    let loose = path.bounds();
    let tight = path.tight_bounds(&unit());

    // Loose bounds include y=±100 control points
    assert!(
        val(loose.top) <= -99.0 || val(loose.bottom) >= 99.0,
        "Loose bounds should include control points"
    );

    // Tight bounds should be strictly tighter on at least one of top/bottom
    assert!(
        val(tight.top) > val(loose.top) || val(tight.bottom) < val(loose.bottom),
        "Tight bounds should be tighter than loose for this off-axis cubic"
    );

    // For this symmetric S-cubic, actual extrema are approximately ±19.245
    assert!(
        val(tight.bottom) < 30.0 && val(tight.top) > -30.0,
        "Tight bounds should reflect actual curve range"
    );
    assert!((val(tight.bottom) - 28.867_5).abs() < 1e-3);
}

#[test]
fn test_tight_bounds_same_as_bounds_for_lines() {
    let path = pen().move_to(10.0, 20.0).line_to(30.0, 40.0).build();
    assert_eq!(path.bounds(), path.tight_bounds(&unit()));
    assert_eq!(path.bounds(), rect(10.0, 20.0, 30.0, 40.0));
}

#[test]
fn test_length_quarter_circle_close_to_pi_over_2() {
    let path = pen()
        .move_to(1.0, 0.0)
        .conic_to(1.0, 1.0, 0.0, 1.0, std::f32::consts::FRAC_1_SQRT_2)
        .build();
    let len = val(path.length(&unit()));
    let expected = std::f32::consts::FRAC_PI_2;
    assert!((len - expected).abs() < 0.05, "expected ~π/2 = {expected}, got {len}");
}

#[test]
fn test_length_tight_cubic_less_than_control_polygon() {
    let path = pen().move_to(0.0, 0.0).cubic_to(1.0, 0.0, 2.0, 0.0, 3.0, 0.0).build();
    let len = val(path.length(&unit()));
    assert!((len - 3.0).abs() < 0.1, "expected 3.0, got {len}");
}

#[test]
fn an_open_contour_has_no_closing_length() {
    let open = pen().move_to(0.0, 0.0).line_to(3.0, 0.0).line_to(3.0, 4.0);
    assert_eq!(val(open.build().length(&unit())), 7.0);
    let closed = pen().move_to(0.0, 0.0).line_to(3.0, 0.0).line_to(3.0, 4.0).close();
    assert_eq!(val(closed.build().length(&unit())), 12.0);
}

#[test]
fn test_direction_add_rect_is_cw() {
    let path = pen().rect(0.0, 0.0, 10.0, 10.0).build();
    assert_eq!(surveyor().direction(&path), Some(PathDirection::CW));
}

#[test]
fn a_reversed_path_runs_the_other_way() {
    let mut path = pen().rect(0.0, 0.0, 10.0, 10.0).build();
    path.reverse();
    assert_eq!(surveyor().direction(&path), Some(PathDirection::CCW));
    assert_eq!(surveyor().direction(&Path::new()), None);
}

#[test]
fn test_is_rect_accepts_add_rect_output() {
    let path = pen().rect(1.0, 2.0, 5.0, 8.0).build();
    let r = path.is_rect().expect("a rectangle must be recognized as a rect");
    assert!((val(r.left) - 1.0).abs() < 1e-4 && (val(r.top) - 2.0).abs() < 1e-4);
    assert!((val(r.right) - 5.0).abs() < 1e-4 && (val(r.bottom) - 8.0).abs() < 1e-4);
}

#[test]
fn test_is_rect_rejects_hv_staircase() {
    // A horizontal/vertical staircase has too many direction changes.
    let path = pen()
        .move_to(0.0, 0.0)
        .line_to(10.0, 0.0)
        .line_to(10.0, 10.0)
        .line_to(20.0, 10.0)
        .line_to(20.0, 20.0)
        .line_to(0.0, 20.0)
        .close()
        .build();
    assert_eq!(path.is_rect(), None, "staircase must not be a rect");
}

#[test]
fn test_convexity_two_contours_is_concave() {
    let mut path = pen().rect(0.0, 0.0, 10.0, 10.0).rect(20.0, 20.0, 30.0, 30.0).build();
    assert_eq!(surveyor().convexity(&mut path), PathConvexity::Concave);
}

#[test]
fn test_convexity_single_rect_is_convex() {
    let mut path = pen().rect(0.0, 0.0, 10.0, 10.0).build();
    assert_eq!(surveyor().convexity(&mut path), PathConvexity::Convex);
    assert!(surveyor().is_convex(&mut path));
}

#[test]
fn test_convexity_concave_l_shape() {
    let mut path = pen()
        .move_to(0.0, 0.0)
        .line_to(20.0, 0.0)
        .line_to(20.0, 10.0)
        .line_to(10.0, 10.0)
        .line_to(10.0, 20.0)
        .line_to(0.0, 20.0)
        .close()
        .build();
    assert_eq!(surveyor().convexity(&mut path), PathConvexity::Concave);
}

#[test]
fn test_reverse_produces_valid_verb_stream() {
    let mut path =
        pen().move_to(0.0, 0.0).line_to(10.0, 0.0).line_to(10.0, 10.0).close().build();
    path.reverse();
    let verbs = path.verbs();
    assert_eq!(verbs[0], Verb::Move, "reversed path must start with Move");
    // Move must never appear except as first verb of a contour, never trailing.
    assert_ne!(*verbs.last().unwrap(), Verb::Move, "must not end with Move");
    // Exactly one Close for the single closed contour.
    let closes = verbs.iter().filter(|v| **v == Verb::Close).count();
    assert_eq!(closes, 1, "exactly one Close preserved");
    // The reversed closed triangle still contains its centroid.
    assert!(path.contains(&unit(), pt(6.6, 3.3)));
}

#[test]
fn reversing_twice_gives_the_path_back() {
    let mut path =
        pen().move_to(0.0, 0.0).conic_to(1.0, 2.0, 3.0, 4.0, 0.5).line_to(9.0, 9.0).build();
    let points = path.points().to_vec();
    path.reverse();
    assert_eq!(path.points()[0], pt(9.0, 9.0));
    assert_eq!(path.verbs(), &[Verb::Move, Verb::Line, Verb::Conic]);
    path.reverse();
    assert_eq!(path.points(), &points[..]);
    assert_eq!(path.weights(), &[fl(0.5)]);
}

#[test]
fn test_bounds_non_finite_is_empty() {
    let path = pen().move_to(0.0, 0.0).line_to(f32::INFINITY, 10.0).build();
    assert_eq!(path.bounds(), rect(0.0, 0.0, 0.0, 0.0), "non-finite path has empty bounds");
}

#[test]
fn bounds_with_a_missing_number_are_empty() {
    let path = pen().move_to(1.0, 2.0).line_to(f32::NAN, 10.0).line_to(3.0, 4.0).build();
    assert_eq!(path.bounds(), rect(0.0, 0.0, 0.0, 0.0));
}

#[test]
fn an_emptied_path_forgets_its_shape() {
    let mut path = pen()
        .move_to(0.0, 0.0)
        .line_to(20.0, 0.0)
        .line_to(5.0, 5.0)
        .line_to(0.0, 20.0)
        .close()
        .build();
    assert_eq!(surveyor().convexity(&mut path), PathConvexity::Concave);
    path.reset();
    assert!(path.is_empty());
    assert_eq!(surveyor().convexity(&mut path), PathConvexity::Convex);
}

#[test]
fn test_contains_signed_winding_self_overlap() {
    let mut path = pen().rect(0.0, 0.0, 30.0, 30.0).rect(10.0, 10.0, 20.0, 20.0).build();
    path.set_fill_type(FillType::Winding);
    // both wound same way -> center has winding 2 -> filled
    assert!(path.contains(&unit(), pt(15.0, 15.0)));
    path.set_fill_type(FillType::EvenOdd);
    // even-odd -> center crosses two boundaries -> empty (hole)
    assert!(!path.contains(&unit(), pt(15.0, 15.0)));
}

#[test]
fn test_contains_inverse_fill_outside_bounds() {
    let mut path = pen().rect(0.0, 0.0, 10.0, 10.0).build();
    path.set_fill_type(FillType::InverseWinding);
    // Point outside bounds is contained for inverse fill.
    assert!(path.contains(&unit(), pt(100.0, 100.0)));
    // Point inside the rect is NOT contained for inverse fill.
    assert!(!path.contains(&unit(), pt(5.0, 5.0)));
}

#[test]
fn an_inverse_fill_is_the_complement() {
    for w in -2..3 {
        let filled = is_filled(FillType::EvenOdd, w, 0);
        assert_eq!(is_filled(FillType::InverseEvenOdd, w, 0), !filled);
    }
    assert_eq!(FillType::Winding.inverse().inverse(), FillType::Winding);
}

#[test]
fn test_contains_implicit_close_unclosed_triangle() {
    // Triangle without explicit Close must still hit-test as closed.
    let path = pen().move_to(0.0, 0.0).line_to(10.0, 0.0).line_to(5.0, 10.0).build();
    assert!(
        path.contains(&unit(), pt(5.0, 3.0)),
        "implicit closing edge fills the triangle"
    );
}

#[test]
fn test_contains_conic_honors_weight() {
    let path = pen()
        .move_to(1.0, 0.0)
        .conic_to(1.0, 1.0, 0.0, 1.0, std::f32::consts::FRAC_1_SQRT_2)
        .line_to(0.0, 0.0)
        .close()
        .build();
    assert!(
        path.contains(&unit(), pt(0.7, 0.3)),
        "point inside quarter-disk should be contained"
    );
    assert!(
        !path.contains(&unit(), pt(0.9, 0.9)),
        "point outside quarter-disk should not be contained"
    );
}

#[test]
fn parts_must_fit_together() {
    assert!(Path::from_parts(&[Verb::Line], &[pt(0.0, 0.0)], &[], FillType::Winding).is_none());
    assert!(Path::from_parts(&[Verb::Move], &[], &[], FillType::Winding).is_none());
    let path = pen().move_to(1.0, 2.0).conic_to(3.0, 4.0, 5.0, 6.0, 0.5).close().build();
    assert_eq!(path.verb_count(), 3);
    assert_eq!(path.point_count(), 3);
    assert_eq!(path.last_point(), Some(pt(5.0, 6.0)));
    assert_eq!(path.contour_count(), 1);
    assert!(path.is_closed());
    let mut it = path.iter();
    assert_eq!(it.next(), Some(PathElement::Move(pt(1.0, 2.0))));
    assert_eq!(it.next(), Some(PathElement::Conic(pt(3.0, 4.0), pt(5.0, 6.0), fl(0.5))));
    assert_eq!(it.next(), Some(PathElement::Close));
    assert_eq!(it.next(), None);
}

#[test]
fn moved_paths_keep_their_verbs() {
    let mut path = pen().rect(0.0, 0.0, 1.0, 1.0).build();
    path.offset(&unit(), fl(10.0), fl(20.0));
    assert_eq!(path.bounds(), rect(10.0, 20.0, 11.0, 21.0));
    let twice = path.transformed(|p: Point| Point { x: fl(val(p.x) * 2.0), y: p.y });
    assert_eq!(twice.bounds(), rect(20.0, 20.0, 22.0, 21.0));
    assert_eq!(twice.verbs(), path.verbs());
}

#[test]
fn test_flatten_quad_simple() {
    let mut output = Vec::new();
    flatten_quad_adaptive(
        &unit(),
        &mut output,
        pt(0.0, 0.0),
        pt(50.0, 50.0),
        pt(100.0, 0.0),
        fl(0.5),
    );
    assert!(!output.is_empty());
    assert_eq!(*output.last().unwrap(), pt(100.0, 0.0));
}

#[test]
fn test_flatten_quad_straight_line() {
    let mut output = Vec::new();
    flatten_quad_adaptive(
        &unit(),
        &mut output,
        pt(0.0, 0.0),
        pt(50.0, 0.0),
        pt(100.0, 0.0),
        fl(0.5),
    );
    assert_eq!(output.len(), 1, "Straight line should produce only endpoint");
}

#[test]
fn test_flatten_cubic_simple() {
    let mut output = Vec::new();
    flatten_cubic_adaptive(
        &unit(),
        &mut output,
        pt(0.0, 0.0),
        pt(33.0, 50.0),
        pt(66.0, 50.0),
        pt(100.0, 0.0),
        fl(0.5),
    );
    assert!(!output.is_empty());
    assert_eq!(*output.last().unwrap(), pt(100.0, 0.0));
}

#[test]
fn test_flatten_conic_quarter_circle() {
    let mut output = Vec::new();
    flatten_conic_adaptive(
        &unit(),
        &mut output,
        pt(1.0, 0.0),
        pt(1.0, 1.0),
        pt(0.0, 1.0),
        fl(std::f32::consts::FRAC_1_SQRT_2),
        fl(0.01),
    );
    for p in &output {
        let r = val(p.x).hypot(val(p.y));
        assert!((r - 1.0).abs() < 0.05, "Point not on unit circle: {r}");
    }
    assert!(output.len() >= 4, "Expected subdivision, got {} points", output.len());
}

// Boolean operations

fn flat(e: Edge) -> Vec<Point> {
    flatten_edge(&unit(), e, fl(0.5), 32).unwrap()
}

#[test]
fn halved_curves_end_where_they_end() {
    let a = pt(0.0, 0.0);
    let b = pt(100.0, 0.0);
    let quad = flat(Edge::Quad(a, pt(50.0, 80.0), b));
    assert!(quad.len() > 2);
    assert_eq!(quad[quad.len() - 1], b);
    let cubic = flat(Edge::Cubic(a, pt(0.0, 50.0), pt(100.0, 50.0), b));
    assert_eq!(cubic[cubic.len() - 1], b);
    assert_eq!(flat(Edge::Quad(a, pt(50.0, 0.0), b)), vec![b]);
    let mut out = Vec::new();
    assert!(!linearize_quad(&unit(), &mut out, a, pt(50.0, 80.0), b, fl(0.01), 1));
}

#[test]
fn edges_are_flattened_by_their_kind() {
    let a = pt(0.0, 0.0);
    let b = pt(100.0, 0.0);
    assert_eq!(flat(Edge::Line(a, b)), vec![b]);
    let mut quad = Vec::new();
    assert!(linearize_quad(&unit(), &mut quad, a, pt(50.0, 80.0), b, fl(0.5), 32));
    assert_eq!(flat(Edge::Quad(a, pt(50.0, 80.0), b)), quad);
    let mut cubic = Vec::new();
    assert!(linearize_cubic(&unit(), &mut cubic, a, pt(0.0, 50.0), pt(100.0, 50.0), b, fl(0.5), 32));
    assert_eq!(flat(Edge::Cubic(a, pt(0.0, 50.0), pt(100.0, 50.0), b)), cubic);
    let conic = Edge::Conic(a, pt(50.0, 80.0), b, fl(0.7));
    assert_eq!(flat(conic), cut_adaptively(&unit(), fl(0.5), conic));
    assert_eq!(flatten_edge(&unit(), Edge::Quad(a, pt(50.0, 80.0), b), fl(0.01), 1), None);
    let lost = Edge::Quad(a, pt(f32::NAN, 0.0), b);
    assert_eq!(flatten_edge(&unit(), lost, fl(0.5), 8), None);
}

fn ring(ps: &[Point]) -> geo::LineString<f64> {
    geo::LineString::new(
        ps.iter()
            .map(|p| geo::Coord { x: f64::from(val(p.x)), y: f64::from(val(p.y)) })
            .collect(),
    )
}

fn shapes(v: &[Shape]) -> geo::MultiPolygon<f64> {
    geo::MultiPolygon(
        v.iter()
            .map(|s| geo::Polygon::new(ring(&s.shell), s.holes.iter().map(|h| ring(h)).collect()))
            .collect(),
    )
}

fn combine(kind: PathOp, a: &Vec<Shape>, b: &Vec<Shape>) -> Vec<Vec<Point>> {
    let (a, b) = (shapes(a), shapes(b));
    let c = match kind {
        PathOp::Union => a.union(&b),
        PathOp::Intersect => a.intersection(&b),
        PathOp::Xor => a.xor(&b),
        PathOp::Difference | PathOp::ReverseDifference => a.difference(&b),
    };
    let mut out = Vec::new();
    for p in c.iter() {
        for l in std::iter::once(p.exterior()).chain(p.interiors()) {
            out.push(l.coords().map(|c| pt(c.x as f32, c.y as f32)).collect());
        }
    }
    out
}

fn run(a: &Path, b: &Path, kind: PathOp) -> Path {
    op(&unit(), a, b, kind, combine).unwrap()
}

fn holds(path: &Path, x: f32, y: f32) -> bool {
    path.contains(&unit(), pt(x, y))
}

fn square(x: f32, y: f32, side: f32) -> Path {
    pen().rect(x, y, x + side, y + side).build()
}

#[test]
fn test_empty_paths() {
    let empty = Path::new();
    let result = run(&empty, &empty, PathOp::Union);
    assert!(result.is_empty());
}

#[test]
fn an_empty_operand_is_neutral() {
    let a = square(0.0, 0.0, 10.0);
    assert_eq!(plan_op(&a, &Path::new(), PathOp::Union), OpPlan::First);
    assert_eq!(plan_op(&Path::new(), &a, PathOp::Xor), OpPlan::Second);
    assert_eq!(plan_op(&Path::new(), &a, PathOp::Difference), OpPlan::Nothing);
    assert_eq!(run(&a, &Path::new(), PathOp::Difference).points(), a.points());
}

#[test]
fn test_simplify_resolves_self_intersection() {
    // A bowtie/figure-eight self-intersects at (5,5).
    let bowtie = pen()
        .move_to(0.0, 0.0)
        .line_to(10.0, 10.0)
        .line_to(10.0, 0.0)
        .line_to(0.0, 10.0)
        .close()
        .build();

    let result = simplify(&unit(), &bowtie, combine).unwrap();
    assert!(!result.is_empty(), "simplified bowtie must not be empty");
    // The resolved geometry differs from the raw input.
    assert_ne!(result.points(), bowtie.points(), "simplify must resolve, not clone the input");
    // A point well inside the right lobe stays filled.
    assert!(
        holds(&result, 8.0, 5.0),
        "interior of a lobe should remain filled after simplify"
    );
}

#[test]
fn test_simplify_empty_is_empty() {
    let result = simplify(&unit(), &Path::new(), combine).unwrap();
    assert!(result.is_empty());
}

#[test]
fn test_union_non_overlapping() {
    let path1 = square(0.0, 0.0, 10.0);
    let path2 = square(20.0, 0.0, 10.0);
    let result = run(&path1, &path2, PathOp::Union);
    assert!(!result.is_empty());
    assert_eq!(result.contour_count(), 2);
}

#[test]
fn test_intersect_non_overlapping() {
    let path1 = square(0.0, 0.0, 10.0);
    let path2 = square(20.0, 0.0, 10.0);
    let result = run(&path1, &path2, PathOp::Intersect);
    assert!(result.is_empty());
}

#[test]
fn test_path_to_polygons_handles_conic_weight() {
    let path = pen()
        .move_to(1.0, 0.0)
        .conic_to(1.0, 1.0, 0.0, 1.0, std::f32::consts::FRAC_1_SQRT_2)
        .line_to(0.0, 0.0)
        .close()
        .build();

    // Use a tight tolerance so the arc gets subdivided finely.
    let polygons = path.polygons(&unit(), fl(0.01));
    assert!(!polygons.is_empty(), "Should produce at least one polygon");

    let polygon = &polygons[0];
    let mut arc_point_count = 0;
    for p in &polygon.points {
        let (x, y) = (val(p.x), val(p.y));
        let dist_sq = x.mul_add(x, y * y);
        if dist_sq < 0.5 {
            // Origin — skip
            continue;
        }
        arc_point_count += 1;
        assert!(
            (dist_sq - 1.0).abs() < 0.05,
            "Point ({x}, {y}) should be near unit circle (dist² = {dist_sq})"
        );
    }
    // Verify we actually got subdivided arc points, not just endpoints.
    assert!(
        arc_point_count >= 4,
        "Expected at least 4 arc points from subdivision, got {arc_point_count}"
    );
}

#[test]
fn holes_follow_their_shell() {
    let groups = group_polygons(&vec![false, true, false]);
    assert_eq!(groups.len(), 2);
    assert_eq!((groups[0].shell, groups[0].holes.clone()), (0, vec![1]));
    assert_eq!((groups[1].shell, groups[1].holes.clone()), (2, vec![]));
    assert_eq!(group_polygons(&vec![true, true]).len(), 2);
}

#[test]
fn short_polygons_draw_nothing() {
    assert!(polygons_to_path(&vec![vec![pt(0.0, 0.0), pt(1.0, 1.0)]]).is_empty());
}

#[test]
fn test_difference_partial_overlap() {
    let path_a = square(0.0, 0.0, 20.0);
    let path_b = square(10.0, 10.0, 20.0);
    let result = run(&path_a, &path_b, PathOp::Difference);
    assert!(!result.is_empty(), "A - B of partially overlapping rects must not be empty");
    assert!(holds(&result, 5.0, 5.0), "point in A only should be in result");
    assert!(!holds(&result, 15.0, 15.0), "point in both should NOT be in A - B");
    assert!(!holds(&result, 25.0, 25.0), "point only in B should not be in A - B");
}

#[test]
fn test_intersect_concave_polygons() {
    let path_l = pen()
        .move_to(0.0, 0.0)
        .line_to(20.0, 0.0)
        .line_to(20.0, 10.0)
        .line_to(10.0, 10.0)
        .line_to(10.0, 20.0)
        .line_to(0.0, 20.0)
        .close()
        .build();
    let path_r = square(5.0, 5.0, 20.0);
    let result = run(&path_l, &path_r, PathOp::Intersect);
    assert!(!result.is_empty(), "L with rect must not be empty");
    assert!(holds(&result, 15.0, 7.0), "point in horizontal arm and rect");
    assert!(holds(&result, 7.0, 15.0), "point in vertical arm and rect");
    assert!(!holds(&result, 15.0, 15.0), "point in the cut-out corner");
}

#[test]
fn test_xor_partial_overlap() {
    let path_a = square(0.0, 0.0, 20.0);
    let path_b = square(10.0, 10.0, 20.0);
    let result = run(&path_a, &path_b, PathOp::Xor);
    assert!(!result.is_empty(), "A XOR B must not be empty");
    assert!(!holds(&result, 15.0, 15.0), "overlap must not be in A XOR B");
    assert!(holds(&result, 5.0, 5.0), "A-only region must be in A XOR B");
    assert!(holds(&result, 25.0, 25.0), "B-only region must be in A XOR B");
}

#[test]
fn test_reverse_difference_partial_overlap() {
    let path_a = square(0.0, 0.0, 20.0);
    let path_b = square(10.0, 10.0, 20.0);
    let result = run(&path_a, &path_b, PathOp::ReverseDifference);
    assert!(holds(&result, 25.0, 25.0), "point in B only should be in B - A");
    assert!(!holds(&result, 15.0, 15.0), "overlap region should not appear in B - A");
    assert!(!holds(&result, 5.0, 5.0), "point only in A should not be in B - A");
}

#[test]
fn a_union_keeps_a_hole() {
    let ringed = pen()
        .rect(0.0, 0.0, 30.0, 30.0)
        .move_to(10.0, 10.0)
        .line_to(10.0, 20.0)
        .line_to(20.0, 20.0)
        .line_to(20.0, 10.0)
        .close()
        .build();
    let result = run(&ringed, &square(25.0, 25.0, 10.0), PathOp::Union);
    assert!(holds(&result, 33.0, 33.0));
    let mut odd = result.duplicate();
    odd.set_fill_type(FillType::EvenOdd);
    assert!(!odd.contains(&unit(), pt(15.0, 15.0)));
}

#[test]
fn lines_are_recognized() {
    assert!(pen().move_to(0.0, 0.0).line_to(1.0, 1.0).build().is_line());
    assert!(!pen().move_to(0.0, 0.0).line_to(1.0, 1.0).close().build().is_line());
    assert!(!pen().move_to(0.0, 0.0).build().is_line());
}

#[test]
fn equal_paths_have_equal_numbers() {
    let a = pen().move_to(0.0, 0.0).line_to(1.0, 1.0).build();
    let b = pen().move_to(-0.0, 0.0).line_to(1.0, 1.0).build();
    assert!(a == b);
    assert!(a == a.clone());
    let c = pen().move_to(0.0, 0.0).line_to(1.0, 2.0).build();
    assert!(a != c);
    let nan = pen().move_to(f32::NAN, 0.0).line_to(1.0, 1.0).build();
    assert!(nan != nan.clone());
    let mut inverse = a.clone();
    inverse.set_fill_type(FillType::InverseWinding);
    assert!(a != inverse);
}

#[test]
fn differences_are_exchanged() {
    let square = |x: f32| {
        pen()
            .move_to(x, 0.0)
            .line_to(x + 10.0, 0.0)
            .line_to(x + 10.0, 10.0)
            .line_to(x, 10.0)
            .close()
            .build()
    };
    let (a, b) = (square(0.0), square(5.0));
    let left = op(&unit(), &a, &b, PathOp::Difference, combine).unwrap();
    let right = op(&unit(), &b, &a, PathOp::ReverseDifference, combine).unwrap();
    assert!(!left.is_empty());
    assert!(left == right);
    let e = Path::new();
    assert!(op(&unit(), &a, &e, PathOp::Xor, combine).unwrap() == a);
    assert!(op(&unit(), &e, &a, PathOp::ReverseDifference, combine).unwrap() == a);
    assert!(op(&unit(), &a, &e, PathOp::Intersect, combine).unwrap().is_empty());
}
