use polyline_offset::math::Point;
use polyline_offset::offset::{assemble, offset_edges, offset_polyline, Edge};
use polyline_offset::polyline::Polyline;
use polyline_offset::scalar::Scalar;
use polyline_offset::sketch::Sketch;

/// IEEE 754 binary64 as a scalar.
#[derive(Debug, Clone, Copy, PartialEq)]
struct Real(f64);

impl Scalar for Real {
    fn zero() -> Self {
        Real(0.0)
    }

    fn one() -> Self {
        Real(1.0)
    }

    fn epsilon() -> Self {
        Real(f64::EPSILON)
    }

    fn add(self, rhs: Self) -> Self {
        Real(self.0 + rhs.0)
    }

    fn sub(self, rhs: Self) -> Self {
        Real(self.0 - rhs.0)
    }

    fn mul(self, rhs: Self) -> Self {
        Real(self.0 * rhs.0)
    }

    fn div(self, rhs: Self) -> Self {
        Real(self.0 / rhs.0)
    }

    fn neg(self) -> Self {
        Real(-self.0)
    }

    fn abs(self) -> Self {
        Real(self.0.abs())
    }

    fn sqrt(self) -> Self {
        Real(self.0.sqrt())
    }

    fn lt(self, rhs: Self) -> bool {
        self.0 < rhs.0
    }

    fn eq(self, rhs: Self) -> bool {
        self.0 == rhs.0
    }

    fn zero_spec() -> Self {
        Self::zero()
    }

    fn one_spec() -> Self {
        Self::one()
    }

    fn epsilon_spec() -> Self {
        Self::epsilon()
    }

    fn add_spec(self, rhs: Self) -> Self {
        self.add(rhs)
    }

    fn sub_spec(self, rhs: Self) -> Self {
        self.sub(rhs)
    }

    fn mul_spec(self, rhs: Self) -> Self {
        self.mul(rhs)
    }

    fn div_spec(self, rhs: Self) -> Self {
        self.div(rhs)
    }

    fn neg_spec(self) -> Self {
        self.neg()
    }

    fn abs_spec(self) -> Self {
        self.abs()
    }

    fn sqrt_spec(self) -> Self {
        self.sqrt()
    }

    fn lt_spec(self, rhs: Self) -> bool {
        self.lt(rhs)
    }

    fn eq_spec(self, rhs: Self) -> bool {
        Scalar::eq(self, rhs)
    }
}

fn point(x: f64, y: f64) -> Point<[Real; 2]> {
    Point([Real(x), Real(y)])
}

fn points(coordinates: &[(f64, f64)]) -> Vec<Point<[Real; 2]>> {
    coordinates.iter().map(|&(x, y)| point(x, y)).collect()
}

fn coordinates(points: &[Point<[Real; 2]>]) -> Vec<(f64, f64)> {
    points.iter().map(|p| (p[0].0, p[1].0)).collect()
}

fn edge(start: (f64, f64), end: (f64, f64)) -> Edge<Real> {
    Edge { start: point(start.0, start.1), end: point(end.0, end.1) }
}

fn ends(edge: &Edge<Real>) -> ((f64, f64), (f64, f64)) {
    ((edge.start[0].0, edge.start[1].0), (edge.end[0].0, edge.end[1].0))
}

fn polyline(coordinates: &[(f64, f64)]) -> Polyline<Real> {
    let mut polyline = Polyline::new();
    for &(x, y) in coordinates {
        assert!(polyline.append(point(x, y)));
    }
    polyline
}

#[test]
fn edge_is_shifted_along_its_normal() {
    let shifted = Edge::offset(point(0.0, 0.0), point(10.0, 0.0), Real(5.0));
    assert_eq!(ends(&shifted), ((0.0, 5.0), (10.0, 5.0)));
    let upward = Edge::offset(point(10.0, 0.0), point(10.0, 10.0), Real(5.0));
    assert_eq!(ends(&upward), ((5.0, 0.0), (5.0, 10.0)));
}

#[test]
fn negative_distance_shifts_to_the_other_side() {
    let shifted = Edge::offset(point(0.0, 0.0), point(10.0, 0.0), Real(-5.0));
    assert_eq!(ends(&shifted), ((0.0, -5.0), (10.0, -5.0)));
}

#[test]
fn one_offset_edge_for_each_source_edge() {
    let source = points(&[(0.0, 0.0), (4.0, 0.0), (4.0, 3.0)]);
    let edges = offset_edges(&source, Real(1.0));
    assert_eq!(edges.len(), 2);
    assert_eq!(ends(&edges[0]), ((0.0, 1.0), (4.0, 1.0)));
    assert_eq!(ends(&edges[1]), ((3.0, 0.0), (3.0, 3.0)));
}

#[test]
fn no_offset_edges_without_an_edge() {
    assert!(offset_edges::<Real>(&[], Real(1.0)).is_empty());
    assert!(offset_edges(&points(&[(2.0, 3.0)]), Real(1.0)).is_empty());
}

#[test]
fn joint_is_the_crossing_of_the_two_lines() {
    let joint = edge((0.0, 1.0), (4.0, 1.0)).joint(&edge((3.0, 0.0), (3.0, 3.0))).unwrap();
    assert_eq!((joint[0], joint[1]), (Real(3.0), Real(1.0)));
    let diagonal = edge((0.0, 0.0), (2.0, 2.0)).joint(&edge((0.0, 2.0), (2.0, 0.0))).unwrap();
    assert_eq!((diagonal[0], diagonal[1]), (Real(1.0), Real(1.0)));
}

#[test]
fn joint_may_lie_beyond_both_segments() {
    let joint = edge((0.0, 0.0), (1.0, 0.0)).joint(&edge((10.0, 5.0), (10.0, 6.0))).unwrap();
    assert_eq!((joint[0], joint[1]), (Real(10.0), Real(0.0)));
}

#[test]
fn parallel_edges_have_no_joint() {
    assert!(edge((0.0, 0.0), (1.0, 0.0)).joint(&edge((0.0, 1.0), (1.0, 1.0))).is_none());
    assert!(edge((0.0, 5.0), (10.0, 5.0)).joint(&edge((10.0, 5.0), (20.0, 5.0))).is_none());
    assert!(edge((0.0, 0.0), (3.0, 0.0)).joint(&edge((5.0, 2.0), (1.0, 2.0))).is_none());
}

#[test]
fn a_determinant_at_epsilon_is_not_parallel() {
    let almost = edge((0.0, 0.0), (1.0, 0.0)).joint(&edge((0.0, 1.0), (1.0, 1.0 + f64::EPSILON)));
    assert!(almost.is_some());
    let within = edge((0.0, 0.0), (0.5, 0.0)).joint(&edge((0.0, 1.0), (1.0, 1.0 + f64::EPSILON)));
    assert!(within.is_none());
}

#[test]
fn assembling_no_edges_gives_no_vertices() {
    assert!(assemble::<Real>(&[]).is_empty());
}

#[test]
fn assembling_one_edge_gives_its_two_ends() {
    let vertices = assemble(&[edge((0.0, 5.0), (10.0, 5.0))]);
    assert_eq!(coordinates(&vertices), vec![(0.0, 5.0), (10.0, 5.0)]);
}

#[test]
fn assembling_puts_the_joints_between_the_outer_ends() {
    let vertices = assemble(&[
        edge((0.0, 1.0), (4.0, 1.0)),
        edge((3.0, 0.0), (3.0, 3.0)),
        edge((4.0, 2.0), (0.0, 2.0)),
    ]);
    assert_eq!(coordinates(&vertices), vec![(0.0, 1.0), (3.0, 1.0), (3.0, 2.0), (0.0, 2.0)]);
}

#[test]
fn assembling_leaves_out_the_joint_of_a_parallel_pair() {
    let vertices = assemble(&[
        edge((0.0, 1.0), (4.0, 1.0)),
        edge((4.0, 1.0), (8.0, 1.0)),
        edge((7.0, 0.0), (7.0, 3.0)),
    ]);
    assert_eq!(coordinates(&vertices), vec![(0.0, 1.0), (7.0, 1.0), (7.0, 3.0)]);
}

#[test]
fn two_vertices_give_the_shifted_edge() {
    let normal = Point::normal(point(0.0, 0.0), point(10.0, 0.0));
    assert_eq!((normal[0], normal[1]), (Real(0.0), Real(1.0)));
    let source = points(&[(0.0, 0.0), (10.0, 0.0)]);
    let edges = offset_edges(&source, Real(5.0));
    assert_eq!(edges.len(), 1);
    assert_eq!(ends(&edges[0]), ((0.0, 5.0), (10.0, 5.0)));
    let offset = offset_polyline(&source, Real(5.0));
    assert_eq!(coordinates(&offset), vec![(0.0, 5.0), (10.0, 5.0)]);
}

#[test]
fn right_angle_gives_a_miter_joint() {
    let source = points(&[(0.0, 0.0), (10.0, 0.0), (10.0, 10.0)]);
    let first = Point::normal(source[0], source[1]);
    assert_eq!((first[0], first[1]), (Real(0.0), Real(1.0)));
    let second = Point::normal(source[1], source[2]);
    assert_eq!((second[0], second[1]), (Real(-1.0), Real(0.0)));
    let edges = offset_edges(&source, Real(5.0));
    assert_eq!(ends(&edges[0]), ((0.0, 5.0), (10.0, 5.0)));
    assert_eq!(ends(&edges[1]), ((5.0, 0.0), (5.0, 10.0)));
    let joint = edges[0].joint(&edges[1]).unwrap();
    assert_eq!((joint[0], joint[1]), (Real(5.0), Real(5.0)));
    let offset = offset_polyline(&source, Real(5.0));
    assert_eq!(coordinates(&offset), vec![(0.0, 5.0), (5.0, 5.0), (5.0, 10.0)]);
}

#[test]
fn right_angle_at_unit_distance() {
    let source = points(&[(0.0, 0.0), (10.0, 0.0), (10.0, 10.0)]);
    let edges = offset_edges(&source, Real(1.0));
    assert_eq!(ends(&edges[1]), ((9.0, 0.0), (9.0, 10.0)));
    let offset = offset_polyline(&source, Real(1.0));
    assert_eq!(coordinates(&offset), vec![(0.0, 1.0), (9.0, 1.0), (9.0, 10.0)]);
}

#[test]
fn right_turn_moves_the_joint_outward() {
    let source = points(&[(0.0, 0.0), (10.0, 0.0), (10.0, 10.0)]);
    let offset = offset_polyline(&source, Real(-5.0));
    assert_eq!(coordinates(&offset), vec![(0.0, -5.0), (15.0, -5.0), (15.0, 10.0)]);
}

#[test]
fn empty_and_single_vertex_give_an_empty_offset() {
    assert!(offset_polyline::<Real>(&[], Real(5.0)).is_empty());
    assert!(offset_polyline(&points(&[(3.0, 4.0)]), Real(5.0)).is_empty());
    assert!(offset_polyline(&points(&[(3.0, 4.0)]), Real(0.0)).is_empty());
    assert!(Polyline::<Real>::new().offset(Real(5.0)).is_empty());
    assert!(polyline(&[(3.0, 4.0)]).offset(Real(5.0)).is_empty());
}

#[test]
fn offset_has_as_many_vertices_as_the_source_without_parallel_edges() {
    let source = points(&[(0.0, 0.0), (10.0, 0.0), (10.0, 10.0), (0.0, 20.0), (-5.0, 3.0)]);
    let offset = offset_polyline(&source, Real(2.0));
    assert_eq!(offset.len(), source.len());
    let edges = offset_edges(&source, Real(2.0));
    for i in 1..source.len() - 1 {
        let joint = edges[i - 1].joint(&edges[i]).unwrap();
        assert_eq!((offset[i][0], offset[i][1]), (joint[0], joint[1]));
    }
    assert_eq!((offset[0][0], offset[0][1]), (edges[0].start[0], edges[0].start[1]));
    assert_eq!((offset[4][0], offset[4][1]), (edges[3].end[0], edges[3].end[1]));
}

#[test]
fn straight_polyline_keeps_only_its_outer_ends() {
    let along_x = points(&[(0.0, 0.0), (10.0, 0.0), (20.0, 0.0), (30.0, 0.0)]);
    assert_eq!(coordinates(&offset_polyline(&along_x, Real(5.0))), vec![(0.0, 5.0), (30.0, 5.0)]);
    let along_y = points(&[(0.0, 0.0), (0.0, 10.0), (0.0, 20.0)]);
    assert_eq!(coordinates(&offset_polyline(&along_y, Real(5.0))), vec![(-5.0, 0.0), (-5.0, 20.0)]);
    let edges = offset_edges(&along_x, Real(5.0));
    for pair in edges.windows(2) {
        assert!(pair[0].joint(&pair[1]).is_none());
        assert_eq!(ends(&pair[0]).1, ends(&pair[1]).0);
    }
}

#[test]
fn rounding_can_keep_a_joint_on_a_straight_polyline() {
    let source = points(&[(0.0, 0.0), (1.0, 1.0), (3.0, 3.0)]);
    let edges = offset_edges(&source, Real(5.0));
    assert!(edges[0].joint(&edges[1]).is_some());
    let offset = offset_polyline(&source, Real(5.0));
    assert_eq!(
        coordinates(&offset),
        vec![
            (-3.5355339059327373, 3.5355339059327373),
            (-2.5355339059327373, 4.535533905932738),
            (-0.5355339059327373, 6.535533905932738),
        ]
    );
}

#[test]
fn computing_twice_gives_the_same_offset() {
    let source = points(&[(0.0, 0.0), (10.0, 0.0), (10.0, 10.0), (3.0, 17.5), (-4.25, 0.5)]);
    let first = offset_polyline(&source, Real(50.0));
    let second = offset_polyline(&source, Real(50.0));
    assert_eq!(coordinates(&first), coordinates(&second));
    assert_eq!(first.len(), 5);
    assert_eq!(coordinates(&source).len(), 5);
    let drawn = polyline(&[(0.0, 0.0), (10.0, 0.0), (10.0, 10.0), (3.0, 17.5), (-4.25, 0.5)]);
    assert_eq!(coordinates(&drawn.offset(Real(50.0))), coordinates(&first));
    assert_eq!(coordinates(&drawn.offset(Real(50.0))), coordinates(&first));
}

#[test]
fn polyline_keeps_its_vertices_in_drawing_order() {
    let drawn = polyline(&[(1.0, 2.0), (3.0, 4.0), (5.0, 0.0)]);
    assert_eq!(drawn.len(), 3);
    assert_eq!(coordinates(drawn.vertices()), vec![(1.0, 2.0), (3.0, 4.0), (5.0, 0.0)]);
    assert_eq!(Polyline::<Real>::new().len(), 0);
    assert_eq!(Polyline::<Real>::default().len(), 0);
}

#[test]
fn polyline_turns_away_a_vertex_on_its_last_vertex() {
    let mut drawn = polyline(&[(1.0, 2.0), (3.0, 4.0)]);
    assert!(!drawn.append(point(3.0, 4.0)));
    assert_eq!(coordinates(drawn.vertices()), vec![(1.0, 2.0), (3.0, 4.0)]);
    assert!(drawn.append(point(1.0, 2.0)));
    assert!(drawn.append(point(3.0, 4.0)));
    assert_eq!(
        coordinates(drawn.vertices()),
        vec![(1.0, 2.0), (3.0, 4.0), (1.0, 2.0), (3.0, 4.0)]
    );
    for vertex in drawn.offset(Real(5.0)) {
        assert!(vertex[0].0.is_finite() && vertex[1].0.is_finite());
    }
}

#[test]
fn polyline_offset_is_the_offset_of_its_vertices() {
    let drawn = polyline(&[(0.0, 0.0), (10.0, 0.0), (10.0, 10.0)]);
    assert_eq!(coordinates(&drawn.offset(Real(5.0))), vec![(0.0, 5.0), (5.0, 5.0), (5.0, 10.0)]);
    assert_eq!(
        coordinates(&drawn.offset(Real(5.0))),
        coordinates(&offset_polyline(drawn.vertices(), Real(5.0)))
    );
}

#[test]
fn new_sketch_is_empty() {
    let sketch = Sketch::<Real>::new();
    assert!(sketch.pointer().is_none());
    assert!(sketch.polylines().is_empty());
    assert!(sketch.pending_segment().is_none());
    assert!(sketch.offset_polylines(Real(50.0)).is_empty());
    assert!(Sketch::<Real>::default().polylines().is_empty());
}

#[test]
fn releasing_the_pointer_draws_a_vertex() {
    let mut sketch = Sketch::new();
    sketch.pointer_released(point(0.0, 0.0));
    assert_eq!(sketch.polylines().len(), 1);
    assert_eq!(coordinates(sketch.polylines()[0].vertices()), vec![(0.0, 0.0)]);
    sketch.pointer_released(point(10.0, 0.0));
    sketch.pointer_released(point(10.0, 0.0));
    sketch.pointer_released(point(10.0, 10.0));
    assert_eq!(sketch.polylines().len(), 1);
    assert_eq!(
        coordinates(sketch.polylines()[0].vertices()),
        vec![(0.0, 0.0), (10.0, 0.0), (10.0, 10.0)]
    );
    assert!(sketch.pointer().is_none());
}

#[test]
fn pointer_is_followed_only_while_it_is_over_the_surface() {
    let mut sketch = Sketch::new();
    sketch.pointer_moved(point(1.0, 1.0));
    assert!(sketch.pointer().is_none());
    sketch.pointer_entered(point(2.0, 3.0));
    assert_eq!(sketch.pointer().map(|p| (p[0], p[1])), Some((Real(2.0), Real(3.0))));
    sketch.pointer_moved(point(4.0, 5.0));
    assert_eq!(sketch.pointer().map(|p| (p[0], p[1])), Some((Real(4.0), Real(5.0))));
    sketch.pointer_left();
    assert!(sketch.pointer().is_none());
    sketch.pointer_moved(point(6.0, 7.0));
    assert!(sketch.pointer().is_none());
    assert!(sketch.polylines().is_empty());
}

#[test]
fn pending_segment_runs_from_the_last_vertex_to_the_pointer() {
    let mut sketch = Sketch::new();
    sketch.pointer_entered(point(7.0, 7.0));
    assert!(sketch.pending_segment().is_none());
    sketch.pointer_released(point(0.0, 0.0));
    sketch.pointer_released(point(10.0, 0.0));
    let segment = sketch.pending_segment().unwrap();
    assert_eq!(ends(&segment), ((10.0, 0.0), (7.0, 7.0)));
    sketch.pointer_moved(point(8.0, 9.0));
    assert_eq!(ends(&sketch.pending_segment().unwrap()), ((10.0, 0.0), (8.0, 9.0)));
    sketch.pointer_left();
    assert!(sketch.pending_segment().is_none());
}

#[test]
fn sketch_offsets_every_polyline() {
    let mut sketch = Sketch::new();
    sketch.pointer_released(point(0.0, 0.0));
    let single = sketch.offset_polylines(Real(5.0));
    assert_eq!(single.len(), 1);
    assert!(single[0].is_empty());
    sketch.pointer_released(point(10.0, 0.0));
    sketch.pointer_released(point(10.0, 10.0));
    let offsets = sketch.offset_polylines(Real(5.0));
    assert_eq!(offsets.len(), 1);
    assert_eq!(coordinates(&offsets[0]), vec![(0.0, 5.0), (5.0, 5.0), (5.0, 10.0)]);
}
