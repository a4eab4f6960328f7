//! Tests of the midpoint placement policies and the integer square root they
//! are built on.

use geodesic::half_edge::Position;
use geodesic::midpoint::{
    integer_sqrt, mid_coordinate_exec, LinearMidpoint, MidpointPolicy, ProjectedMidpoint,
};

#[test]
fn mid_coordinate_floors() {
    assert_eq!(mid_coordinate_exec(0, 2), 1);
    assert_eq!(mid_coordinate_exec(1, 2), 1);
    assert_eq!(mid_coordinate_exec(-1, -2), -2);
    assert_eq!(mid_coordinate_exec(-3, 0), -2);
    assert_eq!(mid_coordinate_exec(3, 0), 1);
    assert_eq!(mid_coordinate_exec(i64::MAX, i64::MAX), i64::MAX);
    assert_eq!(mid_coordinate_exec(i64::MIN, i64::MIN), i64::MIN);
    assert_eq!(mid_coordinate_exec(i64::MIN, i64::MAX), -1);
}

#[test]
fn linear_midpoint_is_componentwise() {
    let a = Position::new(1, 1, 1);
    let b = Position::new(3, 5, 7);
    assert_eq!(
        LinearMidpoint.midpoint(&a, &b),
        Position::new(2, 3, 4)
    );
    let a = Position::new(-2, 0, 5);
    let b = Position::new(-3, 0, -5);
    assert_eq!(
        LinearMidpoint.midpoint(&a, &b),
        Position::new(-3, 0, 0)
    );
}

#[test]
fn integer_sqrt_brackets() {
    assert_eq!(integer_sqrt(0), 0);
    assert_eq!(integer_sqrt(1), 1);
    assert_eq!(integer_sqrt(2), 1);
    assert_eq!(integer_sqrt(3), 1);
    assert_eq!(integer_sqrt(4), 2);
    assert_eq!(integer_sqrt(15), 3);
    assert_eq!(integer_sqrt(16), 4);
    assert_eq!(integer_sqrt(5000), 70);
    assert_eq!(integer_sqrt(u64::MAX as u128), u32::MAX as u64);
    assert_eq!(integer_sqrt(u128::MAX), u64::MAX);
    let r = integer_sqrt(123_456_789_012_345_678_901_234_567_890);
    assert!(r as u128 * r as u128 <= 123_456_789_012_345_678_901_234_567_890);
    assert!((r as u128 + 1) * (r as u128 + 1) > 123_456_789_012_345_678_901_234_567_890);
}

#[test]
fn projected_midpoint_renormalizes() {
    let policy = ProjectedMidpoint { radius: 10 };
    // Both endpoints equal: the linear midpoint (3,4,0) has length 5 and is
    // scaled onto the sphere of radius 10.
    let p = Position::new(3, 4, 0);
    assert_eq!(policy.midpoint(&p, &p), Position::new(6, 8, 0));
    // Signs are preserved, magnitudes rounded toward zero.
    let n = Position::new(-3, -4, 0);
    assert_eq!(policy.midpoint(&n, &n), Position::new(-6, -8, 0));
    // Rounding: midpoint (1,1,0) has length isqrt(2) = 1.
    let q = Position::new(1, 1, 0);
    assert_eq!(policy.midpoint(&q, &q), Position::new(10, 10, 0));
}

#[test]
fn projected_midpoint_of_opposite_points_is_origin() {
    let policy = ProjectedMidpoint { radius: 100 };
    let a = Position::new(7, -9, 13);
    let b = Position::new(-7, 9, -13);
    assert_eq!(policy.midpoint(&a, &b), Position::new(0, 0, 0));
}

#[test]
fn projected_midpoint_on_axis_lands_exactly() {
    let policy = ProjectedMidpoint { radius: 1 << 16 };
    let a = Position::new(1 << 10, 0, 0);
    let b = Position::new(1 << 12, 0, 0);
    // Linear midpoint (2560, 0, 0) scales exactly onto the axis point.
    assert_eq!(policy.midpoint(&a, &b), Position::new(1 << 16, 0, 0));
}
