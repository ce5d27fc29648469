//! Offset curves for hand-drawn polylines.
//!
//! A polyline is drawn vertex by vertex; beside it runs its offset curve, a
//! second polyline at a fixed distance to one side. The curve is built edge
//! by edge: every edge is shifted along its unit normal, and consecutive
//! shifted edges are joined again where their lines cross.
//!
//! - [`scalar`]: what the library asks of a number.
//! - [`fixed`]: a fixed-point number that meets it.
//! - [`math`]: points and vectors, their arithmetic, magnitude and normals.
//! - [`offset`]: offset edges, joints, and the offset polyline.
//! - [`polyline`]: a polyline that grows by one vertex at a time.
//! - [`sketch`]: the polylines drawn so far and the pointer that draws them.
//! - [`rounding`]: how close to exact normals and offsets are in fixed point.

pub mod scalar;
pub mod fixed;
pub mod math;
pub mod offset;
pub mod polyline;
pub mod sketch;
pub mod rounding;
