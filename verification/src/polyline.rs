//! A polyline as it is drawn: an ordered run of vertices that grows at its
//! end, one vertex at a time.

use vstd::prelude::*;
use crate::math::Point;
use crate::offset::{no_degenerate_edge, offset_polyline, offset_polyline_spec};
use crate::scalar::Scalar;

verus! {

/// The vertices of one polyline, in drawing order.
///
/// A polyline never holds an edge without a length: [`Polyline::append`]
/// turns away a vertex that would make one. So every polyline has an offset
/// curve.
pub struct Polyline<T: Scalar> {
    vertices: Vec<Point<[T; 2]>>,
}

impl<T: Scalar> View for Polyline<T> {
    type V = Seq<Point<[T; 2]>>;

    closed spec fn view(&self) -> Seq<Point<[T; 2]>> {
        self.vertices@
    }
}

impl<T: Scalar> Polyline<T> {
    #[verifier::type_invariant]
    spec fn every_edge_has_length(self) -> bool {
        no_degenerate_edge(self.vertices@)
    }

    /// What [`Polyline::append`] makes of the vertices `before` and a new
    /// `vertex`: the vertex joins at the end, unless the edge to it from the
    /// last vertex would have no length.
    pub open spec fn append_spec(before: Seq<Point<[T; 2]>>, vertex: Point<[T; 2]>) -> Seq<
        Point<[T; 2]>,
    > {
        if before.len() > 0 && Point::degenerate(before.last(), vertex) {
            before
        } else {
            before.push(vertex)
        }
    }

    /// A polyline without vertices.
    pub fn new() -> (polyline: Self)
        ensures
            polyline@ == Seq::<Point<[T; 2]>>::empty(),
    {
        Polyline { vertices: Vec::new() }
    }

    /// The number of vertices.
    pub fn len(&self) -> (n: usize)
        ensures
            n == self@.len(),
    {
        self.vertices.len()
    }

    /// The vertices, in drawing order.
    pub fn vertices(&self) -> (vertices: &[Point<[T; 2]>])
        ensures
            vertices@ == self@,
            no_degenerate_edge(vertices@),
    {
        proof {
            use_type_invariant(self);
        }
        self.vertices.as_slice()
    }

    /// Appends `vertex` as the new last vertex, and tells whether it did.
    ///
    /// A vertex that would close an edge without a length is not recorded:
    /// the polyline stays as it was and the answer is `false`.
    pub fn append(&mut self, vertex: Point<[T; 2]>) -> (accepted: bool)
        ensures
            accepted == !(old(self)@.len() > 0 && Point::degenerate(old(self)@.last(), vertex)),
            final(self)@ == Self::append_spec(old(self)@, vertex),
    {
        proof {
            use_type_invariant(&*self);
        }
        let n = self.vertices.len();
        if n > 0 && Point::is_degenerate(self.vertices[n - 1], vertex) {
            false
        } else {
            let mut vertices: Vec<Point<[T; 2]>> = Vec::new();
            core::mem::swap(&mut vertices, &mut self.vertices);
            vertices.push(vertex);
            self.vertices = vertices;
            true
        }
    }

    /// The offset polyline at `distance`: see [`offset_polyline`].
    pub fn offset(&self, distance: T) -> (offset: Vec<Point<[T; 2]>>)
        ensures
            offset@ == offset_polyline_spec(self@, distance),
            self@.len() < 2 ==> offset@.len() == 0,
            self@.len() >= 2 ==> 2 <= offset@.len() <= self@.len(),
    {
        proof {
            use_type_invariant(self);
        }
        offset_polyline(self.vertices.as_slice(), distance)
    }
}

impl<T: Scalar> Default for Polyline<T> {
    fn default() -> (polyline: Self)
        ensures
            polyline@ == Seq::<Point<[T; 2]>>::empty(),
    {
        Polyline::new()
    }
}

} // verus!
