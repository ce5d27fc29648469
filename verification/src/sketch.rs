//! The drawing as a whole: the polylines drawn so far and the place of the
//! pointer, as they change with each pointer event.
//!
//! A sketch is the only owner of its polylines. Whoever listens for pointer
//! events tells the sketch of each one; whoever draws asks it, once per
//! frame, for what to draw.

use vstd::prelude::*;
use crate::math::Point;
use crate::offset::{offset_polyline_spec, Edge};
use crate::polyline::Polyline;
use crate::scalar::Scalar;

verus! {

/// What a sketch holds, as plain values.
pub struct SketchView<T> {
    /// Where the pointer is, while it is over the drawing surface.
    pub pointer: Option<Point<[T; 2]>>,
    /// The vertices of each polyline, in drawing order.
    pub polylines: Seq<Seq<Point<[T; 2]>>>,
}

/// The polylines drawn so far, and the pointer.
pub struct Sketch<T: Scalar> {
    pointer: Option<Point<[T; 2]>>,
    polylines: Vec<Polyline<T>>,
}

impl<T: Scalar> View for Sketch<T> {
    type V = SketchView<T>;

    closed spec fn view(&self) -> SketchView<T> {
        SketchView {
            pointer: self.pointer,
            polylines: Seq::new(self.polylines@.len(), |i: int| self.polylines@[i]@),
        }
    }
}

impl<T: Scalar> Sketch<T> {
    /// The polylines after the pointer was released at `at`, given those
    /// `before`: the first polyline gains `at` as its last vertex, unless
    /// that would make an edge without a length. Where nothing was drawn
    /// yet, the first polyline begins.
    pub open spec fn released_spec(before: Seq<Seq<Point<[T; 2]>>>, at: Point<[T; 2]>) -> Seq<
        Seq<Point<[T; 2]>>,
    > {
        if before.len() == 0 {
            seq![seq![at]]
        } else {
            before.update(0, Polyline::append_spec(before[0], at))
        }
    }

    /// The segment still being drawn: from the last vertex of the first
    /// polyline to the pointer. There is none while nothing is drawn or the
    /// pointer is away.
    pub open spec fn pending_segment_spec(sketch: SketchView<T>) -> Option<Edge<T>> {
        if sketch.polylines.len() > 0 && sketch.polylines[0].len() > 0 && sketch.pointer.is_some() {
            Some(Edge { start: sketch.polylines[0].last(), end: sketch.pointer.unwrap() })
        } else {
            None
        }
    }

    /// An empty sketch: nothing drawn, the pointer away.
    pub fn new() -> (sketch: Self)
        ensures
            sketch@.pointer.is_none(),
            sketch@.polylines.len() == 0,
    {
        Sketch { pointer: None, polylines: Vec::new() }
    }

    /// The pointer was released at `at`: a vertex is drawn there.
    pub fn pointer_released(&mut self, at: Point<[T; 2]>)
        ensures
            final(self)@.polylines == Self::released_spec(old(self)@.polylines, at),
            final(self)@.pointer == old(self)@.pointer,
    {
        if self.polylines.len() == 0 {
            self.polylines.push(Polyline::new());
        }
        let ghost started = self.polylines@;
        self.polylines[0].append(at);
        proof {
            assert(forall|i: int| 1 <= i < started.len() ==> self.polylines@[i] == started[i]);
            assert(self@.polylines =~= Self::released_spec(old(self)@.polylines, at));
        }
    }

    /// The pointer came onto the drawing surface at `at`.
    pub fn pointer_entered(&mut self, at: Point<[T; 2]>)
        ensures
            final(self)@.pointer == Some(at),
            final(self)@.polylines == old(self)@.polylines,
    {
        self.pointer = Some(at);
    }

    /// The pointer moved to `at`. A move that no entry came before is not
    /// followed: the pointer stays away.
    pub fn pointer_moved(&mut self, at: Point<[T; 2]>)
        ensures
            final(self)@.pointer == if old(self)@.pointer.is_some() {
                Some(at)
            } else {
                None
            },
            final(self)@.polylines == old(self)@.polylines,
    {
        if self.pointer.is_some() {
            self.pointer = Some(at);
        }
    }

    /// The pointer left the drawing surface.
    pub fn pointer_left(&mut self)
        ensures
            final(self)@.pointer.is_none(),
            final(self)@.polylines == old(self)@.polylines,
    {
        self.pointer = None;
    }

    /// Where the pointer is, while it is over the drawing surface.
    pub fn pointer(&self) -> (pointer: Option<Point<[T; 2]>>)
        ensures
            pointer == self@.pointer,
    {
        self.pointer
    }

    /// The polylines drawn so far, in drawing order.
    pub fn polylines(&self) -> (polylines: &[Polyline<T>])
        ensures
            polylines@.len() == self@.polylines.len(),
            forall|i: int| 0 <= i < polylines@.len() ==> (#[trigger] polylines@[i])@ == self@.polylines[i],
    {
        self.polylines.as_slice()
    }

    /// The segment still being drawn, from the last vertex drawn to the
    /// pointer.
    pub fn pending_segment(&self) -> (segment: Option<Edge<T>>)
        ensures
            segment == Self::pending_segment_spec(self@),
    {
        if self.polylines.len() == 0 {
            return None;
        }
        let first = self.polylines[0].vertices();
        if first.len() == 0 {
            return None;
        }
        match self.pointer {
            Some(pointer) => Some(Edge { start: first[first.len() - 1], end: pointer }),
            None => None,
        }
    }

    /// The offset polyline of every polyline, in drawing order.
    pub fn offset_polylines(&self, distance: T) -> (offsets: Vec<Vec<Point<[T; 2]>>>)
        ensures
            offsets@.len() == self@.polylines.len(),
            forall|i: int|
                0 <= i < offsets@.len() ==> (#[trigger] offsets@[i])@ == offset_polyline_spec(
                    self@.polylines[i],
                    distance,
                ),
    {
        let mut offsets: Vec<Vec<Point<[T; 2]>>> = Vec::new();
        let mut i: usize = 0;
        while i < self.polylines.len()
            invariant
                i <= self.polylines@.len(),
                offsets@.len() == i,
                forall|j: int|
                    0 <= j < i ==> (#[trigger] offsets@[j])@ == offset_polyline_spec(
                        self.polylines@[j]@,
                        distance,
                    ),
            decreases self.polylines@.len() - i,
        {
            offsets.push(self.polylines[i].offset(distance));
            i += 1;
        }
        offsets
    }
}

impl<T: Scalar> Default for Sketch<T> {
    fn default() -> (sketch: Self)
        ensures
            sketch@.pointer.is_none(),
            sketch@.polylines.len() == 0,
    {
        Sketch::new()
    }
}

} // verus!
