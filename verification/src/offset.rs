//! The offset curve of a polyline: a second polyline that runs beside the
//! first at a fixed distance.
//!
//! Every edge of the source is shifted sideways along its unit normal. Two
//! consecutive shifted edges no longer meet, so the vertex between them is
//! found again as the point where their lines cross (a miter join). The
//! lines are not clamped to the segments: at a sharp corner the joint may
//! lie far from both edges.

use vstd::prelude::*;
use crate::math::{
    lemma_displacement_view, lemma_point_add_view, lemma_vector_scale_view, Point, Vector,
};
use crate::scalar::Scalar;
use vstd::std_specs::ops::{AddSpec, MulSpec, SubSpec};

verus! {

/// One straight segment of a polyline, from `start` to `end`.
#[derive(Debug, Copy, Clone)]
pub struct Edge<T> {
    pub start: Point<[T; 2]>,
    pub end: Point<[T; 2]>,
}

impl<T: Scalar> Edge<T> {
    /// The edge from `a` to `b`, shifted along its unit normal by
    /// `distance`: both ends move by `normal(a, b) * distance`.
    pub open spec fn offset_spec(a: Point<[T; 2]>, b: Point<[T; 2]>, distance: T) -> Edge<T> {
        let normal = Point::normal_spec(a, b);
        let x = normal[0].mul_spec(distance);
        let y = normal[1].mul_spec(distance);
        Edge {
            start: Point([a[0].add_spec(x), a[1].add_spec(y)]),
            end: Point([b[0].add_spec(x), b[1].add_spec(y)]),
        }
    }

    /// The displacement from `start` to `end`.
    pub open spec fn direction_spec(self) -> Vector<[T; 2]> {
        Vector([self.end[0].sub_spec(self.start[0]), self.end[1].sub_spec(self.start[1])])
    }

    /// The determinant of the two directions,
    /// `q.x * p.y - p.x * q.y` for the direction `p` of `self` and `q` of
    /// `next`: zero where the two lines are parallel.
    pub open spec fn determinant_spec(self, next: Edge<T>) -> T {
        let p = self.direction_spec();
        let q = next.direction_spec();
        q[0].mul_spec(p[1]).sub_spec(p[0].mul_spec(q[1]))
    }

    /// Whether the lines through `self` and `next` count as parallel: the
    /// magnitude of their determinant is below epsilon.
    pub open spec fn parallel_spec(self, next: Edge<T>) -> bool {
        self.determinant_spec(next).abs_spec().lt_spec(T::epsilon_spec())
    }

    /// The parameter, along `self`, of the point where the line through
    /// `next` crosses, `0` at `start` and `1` at `end`:
    /// `(w.x * q.y - q.x * w.y) / determinant`, for the direction `q` of
    /// `next` and `w` from the start of `next` to the start of `self`.
    pub open spec fn crossing_spec(self, next: Edge<T>) -> T {
        let q = next.direction_spec();
        let w = Vector([self.start[0].sub_spec(next.start[0]), self.start[1].sub_spec(next.start[1])]);
        w[0].mul_spec(q[1]).sub_spec(q[0].mul_spec(w[1])).div_spec(self.determinant_spec(next))
    }

    /// The point where the lines through `self` and `next` cross,
    /// `start + direction * crossing`, or `None` where they count as
    /// parallel.
    pub open spec fn joint_spec(self, next: Edge<T>) -> Option<Point<[T; 2]>> {
        if self.parallel_spec(next) {
            None
        } else {
            let p = self.direction_spec();
            let t = self.crossing_spec(next);
            Some(Point([self.start[0].add_spec(p[0].mul_spec(t)), self.start[1].add_spec(p[1].mul_spec(t))]))
        }
    }

    /// Shifts the edge from `a` to `b` sideways by `distance`: to the side
    /// that its unit normal points to for a positive `distance`, to the other
    /// side for a negative one.
    ///
    /// The edge must have a length: see [`Point::is_degenerate`].
    pub fn offset(a: Point<[T; 2]>, b: Point<[T; 2]>, distance: T) -> (e: Edge<T>)
        requires
            !Point::degenerate(a, b),
        ensures
            e == Self::offset_spec(a, b, distance),
    {
        let shift = Point::normal(a, b) * distance;
        let e = Edge { start: a + shift, end: b + shift };
        proof {
            assert(e.start.0 =~= Self::offset_spec(a, b, distance).start.0);
            assert(e.end.0 =~= Self::offset_spec(a, b, distance).end.0);
        }
        e
    }

    /// Solves for the joint between this edge and the one that follows it:
    /// the crossing of the two infinite lines, or `None` where they count
    /// as parallel.
    pub fn joint(&self, next: &Edge<T>) -> (r: Option<Point<[T; 2]>>)
        ensures
            r == self.joint_spec(*next),
    {
        let p0p1 = self.end - self.start;
        let q0q1 = next.end - next.start;
        let q0p0 = self.start - next.start;
        let d = q0q1[0].mul(p0p1[1]).sub(p0p1[0].mul(q0q1[1]));
        if d.abs().lt(T::epsilon()) {
            None
        } else {
            let t = q0p0[0].mul(q0q1[1]).sub(q0q1[0].mul(q0p0[1])).div(d);
            let joint = self.start + p0p1 * t;
            proof {
                assert(joint.0 =~= self.joint_spec(*next).unwrap().0);
            }
            Some(joint)
        }
    }
}

/// Whether every edge of the polyline through `vertices` has a length.
pub open spec fn no_degenerate_edge<T: Scalar>(vertices: Seq<Point<[T; 2]>>) -> bool {
    forall|i: int|
        0 <= i < vertices.len() - 1 ==> !Point::degenerate(#[trigger] vertices[i], vertices[i + 1])
}

/// The offset edges of a polyline: one for each two consecutive vertices, in
/// order; none for fewer than two vertices.
pub open spec fn offset_edges_spec<T: Scalar>(vertices: Seq<Point<[T; 2]>>, distance: T) -> Seq<
    Edge<T>,
> {
    Seq::new(
        if vertices.len() < 2 {
            0nat
        } else {
            (vertices.len() - 1) as nat
        },
        |i: int| Edge::offset_spec(vertices[i], vertices[i + 1], distance),
    )
}

/// The joints of consecutive edges, in order, without those of parallel
/// pairs.
pub open spec fn joints_spec<T: Scalar>(edges: Seq<Edge<T>>) -> Seq<Point<[T; 2]>>
    decreases edges.len(),
{
    if edges.len() < 2 {
        Seq::empty()
    } else {
        let before = joints_spec(edges.drop_last());
        match edges[edges.len() - 2].joint_spec(edges.last()) {
            Some(p) => before.push(p),
            None => before,
        }
    }
}

/// The polyline through a chain of edges: the start of the first edge, the
/// joints, the end of the last edge. Empty for no edges.
pub open spec fn assemble_spec<T: Scalar>(edges: Seq<Edge<T>>) -> Seq<Point<[T; 2]>> {
    if edges.len() == 0 {
        Seq::empty()
    } else {
        seq![edges.first().start] + joints_spec(edges) + seq![edges.last().end]
    }
}

/// The offset polyline of the polyline through `vertices`.
pub open spec fn offset_polyline_spec<T: Scalar>(
    vertices: Seq<Point<[T; 2]>>,
    distance: T,
) -> Seq<Point<[T; 2]>> {
    assemble_spec(offset_edges_spec(vertices, distance))
}

/// Shifts every edge of the polyline through `vertices` sideways by
/// `distance`.
pub fn offset_edges<T: Scalar>(vertices: &[Point<[T; 2]>], distance: T) -> (edges: Vec<Edge<T>>)
    requires
        no_degenerate_edge(vertices@),
    ensures
        edges@ == offset_edges_spec(vertices@, distance),
{
    let mut edges: Vec<Edge<T>> = Vec::new();
    let n = vertices.len();
    if n < 2 {
        return edges;
    }
    let mut i: usize = 0;
    while i < n - 1
        invariant
            n == vertices@.len(),
            2 <= n,
            i <= n - 1,
            no_degenerate_edge(vertices@),
            edges@.len() == i,
            forall|j: int|
                0 <= j < i ==> #[trigger] edges@[j] == Edge::offset_spec(
                    vertices@[j],
                    vertices@[j + 1],
                    distance,
                ),
        decreases n - i,
    {
        edges.push(Edge::offset(vertices[i], vertices[i + 1], distance));
        i += 1;
    }
    edges
}

/// Strings the joints of a chain of edges together, between the start of the
/// first edge and the end of the last.
pub fn assemble<T: Scalar>(edges: &[Edge<T>]) -> (vertices: Vec<Point<[T; 2]>>)
    ensures
        vertices@ == assemble_spec(edges@),
        edges@.len() == 0 ==> vertices@.len() == 0,
        edges@.len() > 0 ==> {
            &&& 2 <= vertices@.len() <= edges@.len() + 1
            &&& vertices@.first() == edges@.first().start
            &&& vertices@.last() == edges@.last().end
        },
{
    proof {
        lemma_joints_len(edges@);
    }
    let mut vertices: Vec<Point<[T; 2]>> = Vec::new();
    let m = edges.len();
    if m == 0 {
        return vertices;
    }
    vertices.push(edges[0].start);
    let mut i: usize = 1;
    while i < m
        invariant
            m == edges@.len(),
            1 <= i <= m,
            vertices@ == seq![edges@[0].start] + joints_spec(edges@.take(i as int)),
        decreases m - i,
    {
        proof {
            assert(edges@.take(i + 1).drop_last() =~= edges@.take(i as int));
        }
        match edges[i - 1].joint(&edges[i]) {
            Some(p) => {
                vertices.push(p);
            },
            None => {},
        }
        i += 1;
    }
    proof {
        assert(edges@.take(m as int) =~= edges@);
    }
    vertices.push(edges[m - 1].end);
    vertices
}

/// Computes the offset polyline: the polyline that runs beside the one
/// through `vertices` at `distance`, on the side that the unit normals of
/// its edges point to for a positive `distance`. Which side that is follows
/// from the order of the vertices alone.
///
/// Fewer than two vertices make no edge, and give an empty result.
pub fn offset_polyline<T: Scalar>(vertices: &[Point<[T; 2]>], distance: T) -> (offset: Vec<
    Point<[T; 2]>,
>)
    requires
        no_degenerate_edge(vertices@),
    ensures
        offset@ == offset_polyline_spec(vertices@, distance),
        vertices@.len() < 2 ==> offset@.len() == 0,
        vertices@.len() >= 2 ==> 2 <= offset@.len() <= vertices@.len(),
{
    let edges = offset_edges(vertices, distance);
    assemble(edges.as_slice())
}

/// Both ends of an offset edge are the ends of the source edge moved by one
/// vector: the unit normal of the source edge times the distance.
pub proof fn lemma_offset_edge_is_shifted<T: Scalar>(
    a: Point<[T; 2]>,
    b: Point<[T; 2]>,
    distance: T,
)
    ensures
        Edge::offset_spec(a, b, distance).start == a.add_spec(
            Point::normal_spec(a, b).mul_spec(distance),
        ),
        Edge::offset_spec(a, b, distance).end == b.add_spec(
            Point::normal_spec(a, b).mul_spec(distance),
        ),
{
    let shift = Point::normal_spec(a, b).mul_spec(distance);
    lemma_vector_scale_view(Point::normal_spec(a, b), distance);
    lemma_point_add_view(a, shift);
    lemma_point_add_view(b, shift);
    assert(Edge::offset_spec(a, b, distance).start.0 =~= a.add_spec(shift).0);
    assert(Edge::offset_spec(a, b, distance).end.0 =~= b.add_spec(shift).0);
}

/// Two offset edges that share a source vertex meet at one point wherever
/// their normals agree, as those of two edges along one straight line do in
/// exact arithmetic: the end of the first is the start of the second.
pub proof fn lemma_offset_edges_meet_where_normals_agree<T: Scalar>(
    a: Point<[T; 2]>,
    b: Point<[T; 2]>,
    c: Point<[T; 2]>,
    distance: T,
)
    requires
        Point::normal_spec(a, b) == Point::normal_spec(b, c),
    ensures
        Edge::offset_spec(a, b, distance).end == Edge::offset_spec(b, c, distance).start,
{
}

/// The direction of an edge is its end minus its start, and the joint of
/// two edges that do not count as parallel lies on the line through the
/// first: it is `start + direction * crossing`.
pub proof fn lemma_joint_on_the_first_line<T: Scalar>(edge: Edge<T>, next: Edge<T>)
    requires
        !edge.parallel_spec(next),
    ensures
        edge.direction_spec() == edge.end.sub_spec(edge.start),
        edge.joint_spec(next) == Some(
            edge.start.add_spec(edge.direction_spec().mul_spec(edge.crossing_spec(next))),
        ),
{
    let along = edge.direction_spec().mul_spec(edge.crossing_spec(next));
    lemma_displacement_view(edge.end, edge.start);
    assert(edge.direction_spec().0 =~= edge.end.sub_spec(edge.start).0);
    lemma_vector_scale_view(edge.direction_spec(), edge.crossing_spec(next));
    lemma_point_add_view(edge.start, along);
    assert(edge.joint_spec(next).unwrap().0 =~= edge.start.add_spec(along).0);
}

/// Whether every two consecutive edges count as parallel.
pub open spec fn all_pairs_parallel<T: Scalar>(edges: Seq<Edge<T>>) -> bool {
    forall|i: int| 0 <= i < edges.len() - 1 ==> (#[trigger] edges[i]).parallel_spec(edges[i + 1])
}

/// Whether no two consecutive edges count as parallel.
pub open spec fn no_pair_parallel<T: Scalar>(edges: Seq<Edge<T>>) -> bool {
    forall|i: int| 0 <= i < edges.len() - 1 ==> !(#[trigger] edges[i]).parallel_spec(edges[i + 1])
}

/// A chain of edges has at most one joint between each two consecutive
/// edges.
pub proof fn lemma_joints_len<T: Scalar>(edges: Seq<Edge<T>>)
    ensures
        edges.len() < 2 ==> joints_spec(edges).len() == 0,
        edges.len() >= 2 ==> joints_spec(edges).len() <= edges.len() - 1,
    decreases edges.len(),
{
    if edges.len() >= 2 {
        lemma_joints_len(edges.drop_last());
    }
}

/// Where no two consecutive edges count as parallel, every pair
/// contributes its joint: joint `i` is the crossing of edge `i` and edge
/// `i + 1`.
pub proof fn lemma_joints_without_parallel_pair<T: Scalar>(edges: Seq<Edge<T>>)
    requires
        no_pair_parallel(edges),
    ensures
        joints_spec(edges).len() == if edges.len() < 2 {
            0
        } else {
            edges.len() - 1
        },
        forall|i: int|
            0 <= i < edges.len() - 1 ==> Some(#[trigger] joints_spec(edges)[i]) == edges[i].joint_spec(
                edges[i + 1],
            ),
    decreases edges.len(),
{
    if edges.len() >= 2 {
        let before = edges.drop_last();
        assert forall|i: int| 0 <= i < before.len() - 1 implies !(#[trigger] before[i]).parallel_spec(
            before[i + 1],
        ) by {
            assert(before[i] == edges[i]);
            assert(before[i + 1] == edges[i + 1]);
        }
        lemma_joints_without_parallel_pair(before);
        let k = edges.len() - 2;
        assert(!edges[k].parallel_spec(edges[k + 1]));
        assert forall|i: int| 0 <= i < edges.len() - 1 implies Some(#[trigger] joints_spec(edges)[i])
            == edges[i].joint_spec(edges[i + 1]) by {
            if i < k {
                assert(before[i] == edges[i]);
                assert(before[i + 1] == edges[i + 1]);
                assert(joints_spec(edges)[i] == joints_spec(before)[i]);
            }
        }
    }
}

/// Where every two consecutive edges count as parallel, no joint is made.
pub proof fn lemma_joints_of_parallel_pairs<T: Scalar>(edges: Seq<Edge<T>>)
    requires
        all_pairs_parallel(edges),
    ensures
        joints_spec(edges) == Seq::<Point<[T; 2]>>::empty(),
    decreases edges.len(),
{
    if edges.len() >= 2 {
        let before = edges.drop_last();
        assert forall|i: int| 0 <= i < before.len() - 1 implies (#[trigger] before[i]).parallel_spec(
            before[i + 1],
        ) by {
            assert(before[i] == edges[i]);
            assert(before[i + 1] == edges[i + 1]);
        }
        lemma_joints_of_parallel_pairs(before);
        let k = edges.len() - 2;
        assert(edges[k].parallel_spec(edges[k + 1]));
    }
}

/// A polyline of fewer than two vertices has an empty offset polyline. Any
/// other has one that starts where its first offset edge starts, ends where
/// its last offset edge ends, and has at least two and at most as many
/// vertices as the source.
pub proof fn lemma_offset_polyline_shape<T: Scalar>(vertices: Seq<Point<[T; 2]>>, distance: T)
    ensures
        vertices.len() < 2 ==> offset_polyline_spec(vertices, distance).len() == 0,
        vertices.len() >= 2 ==> {
            let offset = offset_polyline_spec(vertices, distance);
            &&& 2 <= offset.len() <= vertices.len()
            &&& offset.first() == Edge::offset_spec(vertices[0], vertices[1], distance).start
            &&& offset.last() == Edge::offset_spec(
                vertices[vertices.len() - 2],
                vertices[vertices.len() - 1],
                distance,
            ).end
        },
{
    lemma_joints_len(offset_edges_spec(vertices, distance));
}

/// Where no two consecutive offset edges count as parallel, the offset
/// polyline has as many vertices as the source, and each inner vertex is the
/// joint of the two offset edges that meet at the source vertex of the same
/// index.
pub proof fn lemma_offset_polyline_without_parallel_pair<T: Scalar>(
    vertices: Seq<Point<[T; 2]>>,
    distance: T,
)
    requires
        vertices.len() >= 2,
        no_pair_parallel(offset_edges_spec(vertices, distance)),
    ensures
        offset_polyline_spec(vertices, distance).len() == vertices.len(),
        forall|i: int|
            0 < i < vertices.len() - 1 ==> Some(#[trigger] offset_polyline_spec(vertices, distance)[i])
                == Edge::offset_spec(vertices[i - 1], vertices[i], distance).joint_spec(
                Edge::offset_spec(vertices[i], vertices[i + 1], distance),
            ),
{
    let edges = offset_edges_spec(vertices, distance);
    lemma_joints_without_parallel_pair(edges);
    assert forall|i: int| 0 < i < vertices.len() - 1 implies Some(
        #[trigger] offset_polyline_spec(vertices, distance)[i],
    ) == Edge::offset_spec(vertices[i - 1], vertices[i], distance).joint_spec(
        Edge::offset_spec(vertices[i], vertices[i + 1], distance),
    ) by {
        assert(offset_polyline_spec(vertices, distance)[i] == joints_spec(edges)[i - 1]);
        assert(Some(joints_spec(edges)[i - 1]) == edges[i - 1].joint_spec(edges[i - 1 + 1]));
    }
}

/// Where every two consecutive offset edges count as parallel, as those of
/// a polyline along one straight line do in exact arithmetic, no joint is
/// made at any inner vertex: the offset polyline is the start of the first
/// offset edge and the end of the last.
pub proof fn lemma_offset_polyline_of_parallel_edges<T: Scalar>(
    vertices: Seq<Point<[T; 2]>>,
    distance: T,
)
    requires
        vertices.len() >= 2,
        all_pairs_parallel(offset_edges_spec(vertices, distance)),
    ensures
        offset_polyline_spec(vertices, distance) == seq![
            Edge::offset_spec(vertices[0], vertices[1], distance).start,
            Edge::offset_spec(
                vertices[vertices.len() - 2],
                vertices[vertices.len() - 1],
                distance,
            ).end,
        ],
{
    lemma_joints_of_parallel_pairs(offset_edges_spec(vertices, distance));
}

/// The offset polyline is a function of the vertices and the distance: two
/// computations on the same input give the same output.
pub proof fn lemma_offset_polyline_repeatable<T: Scalar>(
    vertices: Seq<Point<[T; 2]>>,
    distance: T,
    first: Seq<Point<[T; 2]>>,
    second: Seq<Point<[T; 2]>>,
)
    requires
        first == offset_polyline_spec(vertices, distance),
        second == offset_polyline_spec(vertices, distance),
    ensures
        first == second,
{
}

} // verus!
