use blackhole_sim::geom::{attract_velocity, isqrt};

#[test]
fn isqrt_exact_squares() {
    assert_eq!(isqrt(0), 0);
    assert_eq!(isqrt(1), 1);
    assert_eq!(isqrt(100), 10);
    assert_eq!(isqrt(1_000_000_000_000), 1_000_000);
}

#[test]
fn isqrt_rounds_down() {
    assert_eq!(isqrt(2), 1);
    assert_eq!(isqrt(99), 9);
    assert_eq!(isqrt(101), 10);
}

#[test]
fn attract_velocity_axis_aligned() {
    assert_eq!(attract_velocity(0, 0, 10, 0), Some((-10, 0)));
    assert_eq!(attract_velocity(0, 0, -40, 0), Some((10, 0)));
    assert_eq!(attract_velocity(0, 0, 0, 7), Some((0, -10)));
    assert_eq!(attract_velocity(5, 5, 5, -5), Some((0, 10)));
}

#[test]
fn attract_velocity_degenerate_is_none() {
    assert_eq!(attract_velocity(42, -17, 42, -17), None);
}

#[test]
fn attract_velocity_diagonal_truncates_toward_zero() {
    // From (1,1) toward (0,0): distance rounds down to 1, so each component
    // saturates at the full attraction speed — integer normalization is
    // inexact off-axis.
    assert_eq!(attract_velocity(0, 0, 1, 1), Some((-10, -10)));
    // A 3-4-5 triangle is exact.
    assert_eq!(attract_velocity(0, 0, -3, -4), Some((6, 8)));
}
