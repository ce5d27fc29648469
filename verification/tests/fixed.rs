use polyline_offset::fixed::{Fixed, ONE};
use polyline_offset::math::{Point, Vector};
use polyline_offset::offset::offset_polyline;
use polyline_offset::polyline::Polyline;
use polyline_offset::scalar::Scalar;

fn whole(n: i32) -> Fixed {
    Fixed::from_int(n)
}

fn raw(raw: i64) -> Fixed {
    Fixed { raw }
}

fn point(x: i32, y: i32) -> Point<[Fixed; 2]> {
    Point([whole(x), whole(y)])
}

fn raws(points: &[Point<[Fixed; 2]>]) -> Vec<(i64, i64)> {
    points.iter().map(|p| (p[0].raw, p[1].raw)).collect()
}

#[test]
fn one_is_two_to_the_thirty_second() {
    assert_eq!(ONE, 4294967296);
    assert_eq!(Fixed::one(), raw(4294967296));
    assert_eq!(Fixed::zero(), raw(0));
    assert_eq!(Fixed::epsilon(), raw(1));
}

#[test]
fn whole_numbers_are_scaled_by_one() {
    assert_eq!(whole(0), raw(0));
    assert_eq!(whole(5), raw(21474836480));
    assert_eq!(whole(-5), raw(-21474836480));
    assert_eq!(whole(i32::MAX), raw(9223372032559808512));
    assert_eq!(whole(i32::MIN), raw(i64::MIN));
}

#[test]
fn sums_and_differences_are_exact_within_range() {
    assert_eq!(whole(3).add(whole(4)), whole(7));
    assert_eq!(whole(3).sub(whole(4)), whole(-1));
    assert_eq!(raw(1).add(raw(-3)), raw(-2));
    assert_eq!(whole(3).neg(), whole(-3));
    assert_eq!(whole(-3).abs(), whole(3));
    assert_eq!(whole(3).abs(), whole(3));
}

#[test]
fn results_out_of_range_are_held_at_the_end_of_the_range() {
    assert_eq!(raw(i64::MAX).add(raw(1)), raw(i64::MAX));
    assert_eq!(raw(i64::MIN).sub(raw(1)), raw(i64::MIN));
    assert_eq!(raw(i64::MIN).neg(), raw(i64::MAX));
    assert_eq!(raw(i64::MIN).abs(), raw(i64::MAX));
    assert_eq!(whole(1 << 20).mul(whole(1 << 20)), raw(i64::MAX));
    assert_eq!(raw(i64::MIN).mul(whole(-1)), raw(i64::MAX));
    assert_eq!(raw(i64::MIN).mul(raw(i64::MIN)), raw(i64::MAX));
    assert_eq!(raw(i64::MIN).div(whole(-1)), raw(i64::MAX));
    assert_eq!(raw(i64::MAX).div(raw(1)), raw(i64::MAX));
}

#[test]
fn products_are_rounded_toward_zero() {
    assert_eq!(whole(3).mul(whole(4)), whole(12));
    assert_eq!(whole(-3).mul(whole(4)), whole(-12));
    assert_eq!(raw(6442450944).mul(raw(6442450944)), raw(9663676416));
    assert_eq!(raw(2147483648).mul(raw(1)), raw(0));
    assert_eq!(raw(-2147483648).mul(raw(1)), raw(0));
    assert_eq!(raw(-6442450944).mul(raw(1)), raw(-1));
    assert_eq!(raw(1).mul(raw(1)), raw(0));
}

#[test]
fn quotients_are_rounded_toward_zero() {
    assert_eq!(whole(12).div(whole(4)), whole(3));
    assert_eq!(whole(3).div(whole(2)), raw(6442450944));
    assert_eq!(whole(-3).div(whole(2)), raw(-6442450944));
    assert_eq!(whole(1).div(whole(3)), raw(1431655765));
    assert_eq!(whole(-1).div(whole(3)), raw(-1431655765));
    assert_eq!(whole(1).div(whole(-3)), raw(-1431655765));
    assert_eq!(whole(-1).div(whole(-3)), raw(1431655765));
}

#[test]
fn a_quotient_by_zero_takes_the_sign_of_the_dividend() {
    assert_eq!(whole(5).div(whole(0)), raw(i64::MAX));
    assert_eq!(whole(-5).div(whole(0)), raw(i64::MIN));
    assert_eq!(whole(0).div(whole(0)), raw(i64::MAX));
}

#[test]
fn roots_are_rounded_down() {
    assert_eq!(whole(25).sqrt(), whole(5));
    assert_eq!(whole(1).sqrt(), whole(1));
    assert_eq!(whole(2).sqrt(), raw(6074000999));
    assert_eq!(raw(1).sqrt(), raw(65536));
    assert_eq!(raw(i64::MAX).sqrt(), raw(199032864766430));
    assert_eq!(whole(0).sqrt(), whole(0));
    assert_eq!(whole(-4).sqrt(), whole(0));
}

#[test]
fn order_and_equality_follow_the_raw_value() {
    assert!(whole(1).lt(whole(2)));
    assert!(!whole(2).lt(whole(2)));
    assert!(whole(-2).lt(whole(-1)));
    assert!(raw(0).lt(raw(1)));
    assert!(Scalar::eq(whole(2), whole(2)));
    assert!(!Scalar::eq(whole(2), raw(8589934593)));
}

#[test]
fn magnitude_of_a_fixed_point_vector() {
    assert_eq!(Vector([whole(3), whole(4)]).magnitude(), whole(5));
    assert_eq!(Vector([whole(-4), whole(0)]).magnitude(), whole(4));
}

#[test]
fn normal_of_an_edge_along_an_axis() {
    let n = Point::normal(point(0, 0), point(0, 4));
    assert_eq!((n[0], n[1]), (whole(-1), whole(0)));
    let m = Point::normal(point(0, 0), point(1, 0));
    assert_eq!((m[0], m[1]), (whole(0), whole(1)));
}

#[test]
fn normal_carries_the_rounding_of_the_inverse() {
    let n = Point::normal(point(0, 0), point(10, 0));
    assert_eq!((n[0], n[1]), (raw(0), raw(4294967290)));
    let m = Point::normal(point(0, 0), point(3, 4));
    assert_eq!((m[0], m[1]), (raw(-3435973836), raw(2576980377)));
}

#[test]
fn offset_in_fixed_point() {
    let source = vec![point(0, 0), point(4, 0), point(4, 4)];
    let offset = offset_polyline(&source, whole(2));
    assert_eq!(
        raws(&offset),
        vec![(0, 8589934592), (8589934592, 8589934592), (8589934592, 17179869184)]
    );
    let rounded = offset_polyline(&[point(0, 0), point(10, 0), point(10, 10)], whole(5));
    assert_eq!(
        raws(&rounded),
        vec![(0, 21474836450), (21474836510, 21474836450), (21474836510, 42949672960)]
    );
}

#[test]
fn polyline_of_fixed_point_vertices() {
    let mut drawn = Polyline::new();
    assert!(drawn.append(point(0, 0)));
    assert!(!drawn.append(point(0, 0)));
    assert!(drawn.append(point(1, 0)));
    assert_eq!(raws(&drawn.offset(whole(5))), vec![(0, 21474836480), (4294967296, 21474836480)]);
}

#[test]
fn fixed_point_normal_is_perpendicular_within_rounding() {
    let edges = [
        ((0, 0), (10, 0)),
        ((0, 0), (3, 4)),
        ((-7, 2), (5, -9)),
        ((8192, -8192), (-8192, 8192)),
        ((100, 100), (101, 100)),
        ((1, 1), (2, 3)),
    ];
    for ((ax, ay), (bx, by)) in edges {
        let a = point(ax, ay);
        let b = point(bx, by);
        let normal = Point::normal(a, b);
        let dx = b[0].sub(a[0]);
        let dy = b[1].sub(a[1]);
        let dot = normal[0].mul(dx).add(normal[1].mul(dy));
        let left = (dot.raw as i128).abs() * (ONE as i128);
        let right = (dx.raw as i128).abs() + (dy.raw as i128).abs() + 2 * (ONE as i128);
        assert!(left < right);
    }
    let fine = Point::normal(Point([raw(1), raw(2)]), Point([raw(-70000), raw(93)]));
    let dx = raw(-70000).sub(raw(1));
    let dy = raw(93).sub(raw(2));
    let dot = fine[0].mul(dx).add(fine[1].mul(dy));
    assert!((dot.raw as i128).abs() * (ONE as i128) < 70001 + 91 + 2 * (ONE as i128));
}

#[test]
fn fixed_point_normalized_vector_is_unit_within_rounding() {
    let vectors = [(1, 0), (3, 4), (-5, 12), (8192, 8192), (16384, -16384), (1, 1), (-300, 2)];
    for (x, y) in vectors {
        let v = Vector([whole(x), whole(y)]);
        let length = v.magnitude();
        assert!(length.raw >= ONE);
        let unit = v.normalize().magnitude();
        assert!(unit.raw <= ONE + 1);
        assert!(unit.raw >= ONE - length.raw / ONE - 7);
    }
    assert_eq!(Vector([whole(3), whole(4)]).normalize().magnitude(), raw(4294967294));
    assert_eq!(Vector([whole(0), whole(-2)]).normalize().magnitude(), whole(1));
}

#[test]
fn fixed_point_straight_polyline_keeps_only_its_outer_ends() {
    let diagonal = vec![point(0, 0), point(1, 1), point(3, 3)];
    let offset = offset_polyline(&diagonal, whole(5));
    assert_eq!(offset.len(), 2);
    let slanted = vec![point(0, 0), point(3, 4), point(6, 8), point(30, 40), point(-3, -4)];
    let edges = polyline_offset::offset::offset_edges(&slanted, whole(50));
    assert_eq!(edges.len(), 4);
    for pair in edges.windows(2) {
        assert!(pair[0].joint(&pair[1]).is_none());
    }
    let outer = offset_polyline(&slanted, whole(50));
    assert_eq!(raws(&outer), vec![
        (edges[0].start[0].raw, edges[0].start[1].raw),
        (edges[3].end[0].raw, edges[3].end[1].raw),
    ]);
}
