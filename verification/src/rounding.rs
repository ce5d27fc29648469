//! What rounding does to normalized vectors, to normals and to straight
//! polylines, in fixed point.
//!
//! In exact arithmetic a normalized vector has magnitude one, and the unit
//! normal of an edge is perpendicular to the edge: their dot product is
//! zero. [`Fixed`] rounds every product and quotient toward zero and every
//! root down, so what it computes is only close to one and to zero. This
//! module says how close. It also shows what rounding does not disturb: the
//! offset edges of a polyline along one straight line count as parallel,
//! every one of them.
//!
//! The bounds are stated for coordinates within [`LIMIT`], where no
//! operation saturates.

use vstd::prelude::*;
use crate::fixed::{
    absolute, floor_sqrt, lemma_floor_sqrt_exists, lemma_toward_zero, toward_zero, Fixed, ONE,
};
use crate::math::{
    lemma_normal_is_normalized_perpendicular, lemma_vector_scale_view, sum_of_squares, Point,
    Vector,
};
use crate::offset::{
    all_pairs_parallel, lemma_offset_polyline_of_parallel_edges, no_degenerate_edge,
    offset_edges_spec, offset_polyline_spec, Edge,
};
use crate::scalar::Scalar;
use vstd::std_specs::ops::MulSpec;

verus! {

/// The largest magnitude of a raw coordinate that the bounds below are
/// stated for: `2^45`, the number 8192.
pub const LIMIT: i64 = 0x2000_0000_0000;

/// Whether both coordinates of `p` are within [`LIMIT`] of zero.
pub open spec fn within_limit(p: Point<[Fixed; 2]>) -> bool {
    &&& -LIMIT <= p[0].raw <= LIMIT
    &&& -LIMIT <= p[1].raw <= LIMIT
}

/// Whether both components of `v` are within twice [`LIMIT`] of zero, as
/// those of the difference of two points within the limit are.
pub open spec fn within_twice_the_limit(v: Vector<[Fixed; 2]>) -> bool {
    &&& -2 * LIMIT <= v[0].raw <= 2 * LIMIT
    &&& -2 * LIMIT <= v[1].raw <= 2 * LIMIT
}

/// The magnitude of a product is at most the product of bounds on the
/// magnitudes of the factors.
proof fn lemma_product_bound(x: int, y: int, bx: int, by: int)
    requires
        -bx <= x <= bx,
        -by <= y <= by,
    ensures
        -(bx * by) <= x * y <= bx * by,
{
    assert(-(bx * by) <= x * y <= bx * by) by (nonlinear_arith)
        requires
            -bx <= x <= bx,
            -by <= y <= by,
    ;
}

/// A number whose square is below `(m + 1)^2 + 2^32`, for an `m` of at
/// least `2^16`, is at most `2 * m` in magnitude.
proof fn lemma_component_below_twice_the_root(t: int, m: int)
    requires
        m >= 0x1_0000,
        t * t < (m + 1) * (m + 1) + 0x1_0000_0000,
    ensures
        -2 * m <= t <= 2 * m,
{
    assert(m * m >= 0x1_0000_0000) by (nonlinear_arith)
        requires
            m >= 0x1_0000,
    ;
    assert((2 * m + 1) * (2 * m + 1) >= (m + 1) * (m + 1) + m * m) by (nonlinear_arith)
        requires
            m >= 0,
    ;
    if t > 2 * m {
        assert(t * t >= (2 * m + 1) * (2 * m + 1)) by (nonlinear_arith)
            requires
                t >= 2 * m + 1,
                m >= 0,
        ;
    }
    if t < -2 * m {
        assert(t * t >= (2 * m + 1) * (2 * m + 1)) by (nonlinear_arith)
            requires
                t <= -(2 * m + 1),
                m >= 0,
        ;
    }
}

/// The square of a product rounded toward zero: with `a = |n| * one` for
/// the rounded `n`, and `p` the magnitude of what was rounded, `a * a` is at
/// most `p * p` and at least `p * p - 2 * one * p`.
proof fn lemma_square_of_rounded(p: int, a: int, one: int)
    requires
        one > 0,
        0 <= a <= p,
        p - one < a,
    ensures
        p * p - 2 * one * p <= a * a <= p * p,
{
    assert(a * a <= p * p) by (nonlinear_arith)
        requires
            0 <= a <= p,
    ;
    if p >= one {
        assert(a * a >= (p - one) * (p - one)) by (nonlinear_arith)
            requires
                a >= p - one,
                p - one >= 0,
        ;
        assert((p - one) * (p - one) == p * p - 2 * one * p + one * one) by (nonlinear_arith);
        assert(one * one >= 0) by (nonlinear_arith);
    } else {
        assert(p * p - 2 * one * p <= 0) by (nonlinear_arith)
            requires
                0 <= p < one,
        ;
        assert(a * a >= 0) by (nonlinear_arith);
    }
}

/// How the magnitude `m` of a vector, the inverse `k` of that magnitude and
/// the components of the normalized vector relate to the components `x` and
/// `y` of the vector, all as raw values and none of them saturated: `m` is
/// the root of `x^2 + y^2` up to rounding, `k` is `2^64 / m` rounded down,
/// and each normalized component is the component times `k`, over `2^32`,
/// rounded toward zero.
proof fn lemma_magnitude_and_inverse(v: Vector<[Fixed; 2]>)
    requires
        within_twice_the_limit(v),
        v.magnitude_spec().raw != 0,
    ensures
        ({
            let x = v[0].raw as int;
            let y = v[1].raw as int;
            let m = v.magnitude_spec().raw as int;
            let k = Fixed::one_spec().div_spec(v.magnitude_spec()).raw as int;
            &&& 0x1_0000 <= m < 0x8000_0000_0000
            &&& m * m <= x * x + y * y < (m + 1) * (m + 1) + 2 * ONE
            &&& 1 <= k
            &&& k * m <= ONE * ONE < k * m + m
            &&& -2 * m <= x <= 2 * m
            &&& -2 * m <= y <= 2 * m
            &&& v[0].mul_spec(Fixed { raw: k as i64 }).raw == toward_zero(x * k, ONE as int)
            &&& v[1].mul_spec(Fixed { raw: k as i64 }).raw == toward_zero(y * k, ONE as int)
            &&& -2 * ONE <= toward_zero(x * k, ONE as int) <= 2 * ONE
            &&& -2 * ONE <= toward_zero(y * k, ONE as int) <= 2 * ONE
        }),
{
    let one: int = ONE as int;
    let x: int = v[0].raw as int;
    let y: int = v[1].raw as int;

    // The squares and their sum.
    lemma_product_bound(x, x, 0x4000_0000_0000, 0x4000_0000_0000);
    lemma_product_bound(y, y, 0x4000_0000_0000, 0x4000_0000_0000);
    assert(0x4000_0000_0000int * 0x4000_0000_0000int == 0x1000_0000_0000_0000_0000_0000int)
        by (nonlinear_arith);
    assert(x * x >= 0 && y * y >= 0) by (nonlinear_arith);
    let q0 = toward_zero(x * x, one);
    let q1 = toward_zero(y * y, one);
    lemma_toward_zero(x * x, one);
    lemma_toward_zero(y * y, one);
    let sum = q0 + q1;
    assert(v[0].mul_spec(v[0]).raw == q0);
    assert(v[1].mul_spec(v[1]).raw == q1);
    assert(v@.len() == 2);
    assert(sum_of_squares(v@).raw == sum);

    // The magnitude.
    assert(sum > 0);
    let n = (sum * ONE) as nat;
    lemma_floor_sqrt_exists(n);
    let m = floor_sqrt(n) as int;
    assert(m * m <= n < (m + 1) * (m + 1));
    assert(m >= 0x1_0000) by (nonlinear_arith)
        requires
            n < (m + 1) * (m + 1),
            n >= 0x1_0000_0000,
            m >= 0,
    ;
    assert(m < 0x8000_0000_0000) by (nonlinear_arith)
        requires
            m * m <= n,
            n <= 0x2000_0000_0000_0000_0000_0000,
            m >= 0,
    ;
    assert(v.magnitude_spec().raw == m);

    // The inverse of the magnitude.
    assert(one * one == 0x1_0000_0000_0000_0000) by (nonlinear_arith)
        requires
            one == 0x1_0000_0000,
    ;
    let k = toward_zero(one * one, m);
    lemma_toward_zero(one * one, m);
    assert(0 <= k <= 0x1_0000_0000_0000) by (nonlinear_arith)
        requires
            absolute(k) * m <= 0x1_0000_0000_0000_0000,
            m >= 0x1_0000,
            k == (one * one) / m,
            one * one >= 0,
            m > 0,
    ;
    assert(k >= 1) by (nonlinear_arith)
        requires
            one * one < k * m + m,
            0 <= m < one * one,
            k >= 0,
    ;
    assert(Fixed::one_spec().div_spec(v.magnitude_spec()).raw == k);

    // The components of the normalized vector.
    lemma_component_below_twice_the_root(x, m);
    lemma_component_below_twice_the_root(y, m);
    assert(-0x2_0000_0000_0000_0000 <= x * k <= 0x2_0000_0000_0000_0000) by (nonlinear_arith)
        requires
            -2 * m <= x <= 2 * m,
            0 <= k,
            k * m <= 0x1_0000_0000_0000_0000,
    ;
    assert(-0x2_0000_0000_0000_0000 <= y * k <= 0x2_0000_0000_0000_0000) by (nonlinear_arith)
        requires
            -2 * m <= y <= 2 * m,
            0 <= k,
            k * m <= 0x1_0000_0000_0000_0000,
    ;
    lemma_toward_zero(x * k, one);
    lemma_toward_zero(y * k, one);
}

/// In fixed point, a normalized vector has unit magnitude up to rounding:
/// for a vector `v` of magnitude one or more, with components within twice
/// [`LIMIT`], the magnitude of the normalized vector, as [`Fixed`] computes
/// it, is at most `1 + 2^-32` and at least `1 - (|v| + 7) * 2^-32`.
pub proof fn lemma_normalized_is_unit_within_rounding(v: Vector<[Fixed; 2]>)
    requires
        within_twice_the_limit(v),
        v.magnitude_spec().raw >= ONE,
    ensures
        ONE - v.magnitude_spec().raw / ONE - 7 <= v.normalize_spec().magnitude_spec().raw <= ONE
            + 1,
{
    let one: int = ONE as int;
    let big = one * one;
    let x: int = v[0].raw as int;
    let y: int = v[1].raw as int;
    let total = x * x + y * y;
    let m = v.magnitude_spec().raw as int;
    let inverse = Fixed::one_spec().div_spec(v.magnitude_spec());
    let k = inverse.raw as int;
    lemma_magnitude_and_inverse(v);
    assert(k <= one) by (nonlinear_arith)
        requires
            k * m <= one * one,
            m >= one,
            one > 0,
            k >= 0,
    ;

    // The components of the normalized vector.
    let n0 = toward_zero(x * k, one);
    let n1 = toward_zero(y * k, one);
    lemma_vector_scale_view(v, inverse);
    let unit = v.normalize_spec();
    assert(unit[0].raw == n0);
    assert(unit[1].raw == n1);
    let p0 = absolute(x * k);
    let p1 = absolute(y * k);
    assert(p0 <= 2 * big && p0 == absolute(x) * k) by (nonlinear_arith)
        requires
            -2 * m <= x <= 2 * m,
            0 <= k,
            k * m <= big,
            p0 == absolute(x * k),
    ;
    assert(p1 <= 2 * big && p1 == absolute(y) * k) by (nonlinear_arith)
        requires
            -2 * m <= y <= 2 * m,
            0 <= k,
            k * m <= big,
            p1 == absolute(y * k),
    ;
    lemma_toward_zero(x * k, one);
    lemma_toward_zero(y * k, one);
    let a0 = absolute(n0) * one;
    let a1 = absolute(n1) * one;
    assert(p0 - one < a0 <= p0);
    assert(p1 - one < a1 <= p1);
    lemma_square_of_rounded(p0, a0, one);
    lemma_square_of_rounded(p1, a1, one);

    // The square of its magnitude, before rounding: from below.
    let exact = n0 * n0 + n1 * n1;
    assert(a0 * a0 + a1 * a1 == exact * big) by (nonlinear_arith)
        requires
            a0 == absolute(n0) * one,
            a1 == absolute(n1) * one,
            exact == n0 * n0 + n1 * n1,
            big == one * one,
    ;
    assert(p0 * p0 + p1 * p1 == (k * k) * total) by (nonlinear_arith)
        requires
            p0 == absolute(x) * k,
            p1 == absolute(y) * k,
            total == x * x + y * y,
    ;
    let km = k * m;
    assert((k * k) * (m * m) == km * km) by (nonlinear_arith)
        requires
            km == k * m,
    ;
    assert((k * k) * (m * m) <= (k * k) * total) by (nonlinear_arith)
        requires
            m * m <= total,
    ;
    assert(km * km >= big * big - 2 * big * m) by (nonlinear_arith)
        requires
            big - m < km <= big,
            0 <= m < big,
    ;
    assert(2 * one * p0 + 2 * one * p1 <= 8 * (big * one)) by (nonlinear_arith)
        requires
            0 <= p0 <= 2 * big,
            0 <= p1 <= 2 * big,
            one > 0,
    ;
    assert(exact * big >= big * big - 2 * big * m - 8 * (big * one));
    assert(exact >= big - 2 * m - 8 * one) by (nonlinear_arith)
        requires
            exact * big >= big * big - 2 * big * m - 8 * (big * one),
            big > 0,
    ;

    // And from above.
    assert((k * k) * total < (km + k) * (km + k) + 2 * one * (k * k)) by (nonlinear_arith)
        requires
            total < (m + 1) * (m + 1) + 2 * one,
            km == k * m,
            k >= 1,
    ;
    assert((km + k) * (km + k) + 2 * one * (k * k) <= big * big + 4 * (big * one) + big)
        by (nonlinear_arith)
        requires
            0 <= km <= big,
            0 <= k <= one,
            big == one * one,
    ;
    assert(exact <= big + 4 * one) by (nonlinear_arith)
        requires
            exact * big < big * big + 4 * (big * one) + big,
            big > 0,
    ;

    // The magnitude of the normalized vector.
    lemma_product_bound(n0, n0, 0x2_0000_0000, 0x2_0000_0000);
    lemma_product_bound(n1, n1, 0x2_0000_0000, 0x2_0000_0000);
    assert(0x2_0000_0000int * 0x2_0000_0000int == 0x4_0000_0000_0000_0000int) by (nonlinear_arith);
    assert(n0 * n0 >= 0 && n1 * n1 >= 0) by (nonlinear_arith);
    let w0 = toward_zero(n0 * n0, one);
    let w1 = toward_zero(n1 * n1, one);
    lemma_toward_zero(n0 * n0, one);
    lemma_toward_zero(n1 * n1, one);
    let rounded = w0 + w1;
    assert(unit[0].mul_spec(unit[0]).raw == w0);
    assert(unit[1].mul_spec(unit[1]).raw == w1);
    assert(unit@.len() == 2);
    assert(sum_of_squares(unit@).raw == rounded);
    assert(exact - 2 * one < rounded * one <= exact);
    assert(rounded > 0);
    let n2 = (rounded * ONE) as nat;
    lemma_floor_sqrt_exists(n2);
    let m2 = floor_sqrt(n2) as int;
    assert(m2 * m2 <= n2 < (m2 + 1) * (m2 + 1));
    assert(m2 < one + 2) by (nonlinear_arith)
        requires
            m2 * m2 <= big + 4 * one,
            big == one * one,
            m2 >= 0,
            one > 0,
    ;
    assert(unit.magnitude_spec().raw == m2);

    // Were it below the bound, its square would be too small.
    let d = m / one + 7;
    vstd::arithmetic::div_mod::lemma_fundamental_div_mod(m, one);
    vstd::arithmetic::div_mod::lemma_mod_bound(m, one);
    assert(one * (m / one) > m - one);
    assert(0 <= m / one <= 0x8000);
    if m2 + 1 <= one - d {
        assert((m2 + 1) * (m2 + 1) <= (one - d) * (one - d)) by (nonlinear_arith)
            requires
                0 <= m2 + 1 <= one - d,
        ;
        assert((one - d) * (one - d) == big - 2 * (d * one) + d * d) by (nonlinear_arith)
            requires
                big == one * one,
        ;
        assert(d * d <= 2 * one) by (nonlinear_arith)
            requires
                0 <= d <= 0x8007,
                one == 0x1_0000_0000,
        ;
        assert(d * one == one * (m / one) + 7 * one) by (nonlinear_arith)
            requires
                d == m / one + 7,
        ;
        assert(false);
    }
}

/// In fixed point, the unit normal of an edge has unit magnitude up to
/// rounding: for an edge of length `l` of one or more, between points within
/// [`LIMIT`], the magnitude of the normal, as [`Fixed`] computes it, is at
/// most `1 + 2^-32` and at least `1 - (l + 7) * 2^-32`.
pub proof fn lemma_normal_is_unit_within_rounding(a: Point<[Fixed; 2]>, b: Point<[Fixed; 2]>)
    requires
        within_limit(a),
        within_limit(b),
        Point::perpendicular(a, b).magnitude_spec().raw >= ONE,
    ensures
        ONE - Point::perpendicular(a, b).magnitude_spec().raw / ONE - 7 <= Point::normal_spec(
            a,
            b,
        ).magnitude_spec().raw <= ONE + 1,
{
    lemma_normal_is_normalized_perpendicular(a, b);
    lemma_normalized_is_unit_within_rounding(Point::perpendicular(a, b));
}

/// In fixed point, the unit normal of an edge is perpendicular to the edge
/// up to rounding: for an edge between points within [`LIMIT`], the dot
/// product of the normal and the direction `(dx, dy)` of the edge, as
/// [`Fixed`] computes it, is less than `(|dx| + |dy|) * 2^-32 + 2^-31` in
/// magnitude.
pub proof fn lemma_normal_is_perpendicular_within_rounding(
    a: Point<[Fixed; 2]>,
    b: Point<[Fixed; 2]>,
)
    requires
        within_limit(a),
        within_limit(b),
        !Point::degenerate(a, b),
    ensures
        ({
            let normal = Point::normal_spec(a, b);
            let dx = b[0].sub_spec(a[0]);
            let dy = b[1].sub_spec(a[1]);
            let dot = normal[0].mul_spec(dx).add_spec(normal[1].mul_spec(dy));
            absolute(dot.raw as int) * ONE < absolute(dx.raw as int) + absolute(dy.raw as int) + 2
                * ONE
        }),
{
    let one: int = ONE as int;
    let dx: int = b[0].raw - a[0].raw;
    let dy: int = b[1].raw - a[1].raw;
    assert(b[0].sub_spec(a[0]).raw == dx);
    assert(b[1].sub_spec(a[1]).raw == dy);
    let turned = Point::perpendicular(a, b);
    assert(turned[0].raw == -dy);
    assert(turned[1].raw == dx);
    let k = Fixed::one_spec().div_spec(turned.magnitude_spec()).raw as int;
    lemma_magnitude_and_inverse(turned);

    // The components of the normal.
    let n0 = toward_zero((-dy) * k, one);
    let n1 = toward_zero(dx * k, one);
    let normal = Point::normal_spec(a, b);
    assert(normal[0].raw == n0);
    assert(normal[1].raw == n1);
    lemma_toward_zero((-dy) * k, one);
    lemma_toward_zero(dx * k, one);

    // The two products of the dot product.
    lemma_product_bound(n0, dx, 0x2_0000_0000, 0x4000_0000_0000);
    lemma_product_bound(n1, dy, 0x2_0000_0000, 0x4000_0000_0000);
    assert(0x2_0000_0000int * 0x4000_0000_0000int == 0x8000_0000_0000_0000_0000int)
        by (nonlinear_arith);
    let u0 = toward_zero(n0 * dx, one);
    let u1 = toward_zero(n1 * dy, one);
    lemma_toward_zero(n0 * dx, one);
    lemma_toward_zero(n1 * dy, one);
    assert(-0x8000_0000_0000 <= u0 <= 0x8000_0000_0000);
    assert(-0x8000_0000_0000 <= u1 <= 0x8000_0000_0000);
    let dot = normal[0].mul_spec(b[0].sub_spec(a[0])).add_spec(
        normal[1].mul_spec(b[1].sub_spec(a[1])),
    );
    assert(dot.raw == u0 + u1);

    // What the roundings leave of the exact zero.
    let p0 = (-dy) * k;
    let p1 = dx * k;
    let r0 = p0 - n0 * one;
    let r1 = p1 - n1 * one;
    let y0 = n0 * one;
    let y1 = n1 * one;
    assert(p0 * dx + p1 * dy == 0) by (nonlinear_arith)
        requires
            p0 == (-dy) * k,
            p1 == dx * k,
    ;
    assert(y0 * dx == p0 * dx - r0 * dx) by (nonlinear_arith)
        requires
            y0 == p0 - r0,
    ;
    assert(y1 * dy == p1 * dy - r1 * dy) by (nonlinear_arith)
        requires
            y1 == p1 - r1,
    ;
    let exact = n0 * dx + n1 * dy;
    assert(exact * one == y0 * dx + y1 * dy) by (nonlinear_arith)
        requires
            exact == n0 * dx + n1 * dy,
            y0 == n0 * one,
            y1 == n1 * one,
    ;
    lemma_product_bound(r0, dx, one - 1, absolute(dx));
    lemma_product_bound(r1, dy, one - 1, absolute(dy));
    assert(-(absolute(dx) + absolute(dy)) <= exact <= absolute(dx) + absolute(dy))
        by (nonlinear_arith)
        requires
            exact * one == -(r0 * dx + r1 * dy),
            -((one - 1) * absolute(dx)) <= r0 * dx <= (one - 1) * absolute(dx),
            -((one - 1) * absolute(dy)) <= r1 * dy <= (one - 1) * absolute(dy),
            one == 0x1_0000_0000,
            absolute(dx) >= 0,
            absolute(dy) >= 0,
    ;
    assert((u0 + u1) * one == u0 * one + u1 * one) by (nonlinear_arith);
    assert(absolute(u0 + u1) * one == absolute((u0 + u1) * one)) by (nonlinear_arith)
        requires
            one > 0,
    ;
}

/// Whether `a`, `b` and `c` lie on one straight line: the directions from
/// `a` to `b` and from `b` to `c` have no cross product.
pub open spec fn collinear(a: Point<[Fixed; 2]>, b: Point<[Fixed; 2]>, c: Point<[Fixed; 2]>) -> bool {
    (b[0].raw - a[0].raw) * (c[1].raw - b[1].raw) == (b[1].raw - a[1].raw) * (c[0].raw
        - b[0].raw)
}

/// Whether every three consecutive vertices lie on one straight line.
pub open spec fn straight(vertices: Seq<Point<[Fixed; 2]>>) -> bool {
    forall|i: int|
        0 < i < vertices.len() - 1 ==> collinear(vertices[i - 1], #[trigger] vertices[i], vertices[i + 1])
}

/// Whether every vertex is within [`LIMIT`].
pub open spec fn all_within_limit(vertices: Seq<Point<[Fixed; 2]>>) -> bool {
    forall|i: int| 0 <= i < vertices.len() ==> within_limit(#[trigger] vertices[i])
}

/// In fixed point, an offset edge is a parallel copy of its source edge: it
/// has the direction of the source edge, exactly. For points and a distance
/// within [`LIMIT`], the shift moves both ends by the same amount and
/// nothing saturates.
pub proof fn lemma_offset_edge_keeps_direction(
    a: Point<[Fixed; 2]>,
    b: Point<[Fixed; 2]>,
    distance: Fixed,
)
    requires
        within_limit(a),
        within_limit(b),
        -LIMIT <= distance.raw <= LIMIT,
        !Point::degenerate(a, b),
    ensures
        Edge::offset_spec(a, b, distance).direction_spec()[0].raw == b[0].raw - a[0].raw,
        Edge::offset_spec(a, b, distance).direction_spec()[1].raw == b[1].raw - a[1].raw,
{
    let one: int = ONE as int;
    let turned = Point::perpendicular(a, b);
    assert(turned[0].raw == -(b[1].raw - a[1].raw));
    assert(turned[1].raw == b[0].raw - a[0].raw);
    lemma_magnitude_and_inverse(turned);
    let normal = Point::normal_spec(a, b);
    let n0 = normal[0].raw as int;
    let n1 = normal[1].raw as int;
    let d = distance.raw as int;
    lemma_product_bound(n0, d, 2 * one, LIMIT as int);
    lemma_product_bound(n1, d, 2 * one, LIMIT as int);
    lemma_toward_zero(n0 * d, one);
    lemma_toward_zero(n1 * d, one);
    let x = toward_zero(n0 * d, one);
    let y = toward_zero(n1 * d, one);
    assert(absolute(x) <= 2 * LIMIT) by (nonlinear_arith)
        requires
            absolute(x) * one <= absolute(n0 * d),
            absolute(n0 * d) <= (2 * one) * LIMIT,
            one > 0,
    ;
    assert(absolute(y) <= 2 * LIMIT) by (nonlinear_arith)
        requires
            absolute(y) * one <= absolute(n1 * d),
            absolute(n1 * d) <= (2 * one) * LIMIT,
            one > 0,
    ;
    assert(normal[0].mul_spec(distance).raw == x);
    assert(normal[1].mul_spec(distance).raw == y);
}

/// In fixed point, the offset edges of two source edges along one straight
/// line count as parallel: the rounding of the normals does not reach their
/// determinant, which is zero.
pub proof fn lemma_offset_edges_along_a_line_are_parallel(
    a: Point<[Fixed; 2]>,
    b: Point<[Fixed; 2]>,
    c: Point<[Fixed; 2]>,
    distance: Fixed,
)
    requires
        within_limit(a),
        within_limit(b),
        within_limit(c),
        -LIMIT <= distance.raw <= LIMIT,
        !Point::degenerate(a, b),
        !Point::degenerate(b, c),
        collinear(a, b, c),
    ensures
        Edge::offset_spec(a, b, distance).parallel_spec(Edge::offset_spec(b, c, distance)),
{
    lemma_offset_edge_keeps_direction(a, b, distance);
    lemma_offset_edge_keeps_direction(b, c, distance);
    let px = b[0].raw - a[0].raw;
    let py = b[1].raw - a[1].raw;
    let qx = c[0].raw - b[0].raw;
    let qy = c[1].raw - b[1].raw;
    assert(qx * py == px * qy) by (nonlinear_arith)
        requires
            px * qy == py * qx,
    ;
    let first = Edge::offset_spec(a, b, distance);
    let second = Edge::offset_spec(b, c, distance);
    assert(first.determinant_spec(second).raw == 0);
}

/// In fixed point, the offset polyline of a polyline along one straight
/// line has no inner vertex: every pair of offset edges counts as parallel,
/// so what is left is the start of the first offset edge and the end of the
/// last.
pub proof fn lemma_offset_polyline_along_a_line(vertices: Seq<Point<[Fixed; 2]>>, distance: Fixed)
    requires
        vertices.len() >= 2,
        all_within_limit(vertices),
        -LIMIT <= distance.raw <= LIMIT,
        no_degenerate_edge(vertices),
        straight(vertices),
    ensures
        all_pairs_parallel(offset_edges_spec(vertices, distance)),
        offset_polyline_spec(vertices, distance) == seq![
            Edge::offset_spec(vertices[0], vertices[1], distance).start,
            Edge::offset_spec(
                vertices[vertices.len() - 2],
                vertices[vertices.len() - 1],
                distance,
            ).end,
        ],
{
    let edges = offset_edges_spec(vertices, distance);
    assert forall|i: int| 0 <= i < edges.len() - 1 implies (#[trigger] edges[i]).parallel_spec(
        edges[i + 1],
    ) by {
        assert(within_limit(vertices[i]));
        assert(within_limit(vertices[i + 1]));
        assert(within_limit(vertices[i + 2]));
        assert(!Point::degenerate(vertices[i], vertices[i + 1]));
        assert(!Point::degenerate(vertices[i + 1], vertices[i + 2]));
        assert(collinear(vertices[i + 1 - 1], vertices[i + 1], vertices[i + 1 + 1]));
        lemma_offset_edges_along_a_line_are_parallel(
            vertices[i],
            vertices[i + 1],
            vertices[i + 2],
            distance,
        );
    }
    lemma_offset_polyline_of_parallel_edges(vertices, distance);
}

} // verus!
