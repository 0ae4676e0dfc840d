use combat_core::geom::{attract_step, dist_sq, div_trunc, isqrt, scale_to_speed, Vec2};

#[test]
fn isqrt_rounds_down() {
    assert_eq!(isqrt(0), 0);
    assert_eq!(isqrt(1), 1);
    assert_eq!(isqrt(2), 1);
    assert_eq!(isqrt(4), 2);
    assert_eq!(isqrt(15), 3);
    assert_eq!(isqrt(16), 4);
    assert_eq!(isqrt(2_000_000), 1414);
    assert_eq!(isqrt(u64::MAX), 4_294_967_295);
}

#[test]
fn dist_sq_is_the_squared_distance() {
    let a = Vec2::new(3, 4);
    let o = Vec2::new(0, 0);
    assert_eq!(dist_sq(a, o), 25);
    assert_eq!(dist_sq(o, a), 25);
    assert_eq!(dist_sq(a, a), 0);
}

#[test]
fn div_trunc_rounds_toward_zero() {
    assert_eq!(div_trunc(250, 100), 2);
    assert_eq!(div_trunc(-250, 100), -2);
    assert_eq!(div_trunc(99, 100), 0);
    assert_eq!(div_trunc(-99, 100), 0);
}

#[test]
fn scale_to_speed_on_axis_is_exact() {
    let v = scale_to_speed(Vec2::new(10_000, 0), 700_000);
    assert_eq!(v, Vec2::new(700_000, 0));
    let w = scale_to_speed(Vec2::new(0, -2_000), 200_000);
    assert_eq!(w, Vec2::new(0, -200_000));
}

#[test]
fn scale_to_speed_diagonal_rounds_down() {
    let v = scale_to_speed(Vec2::new(1_000, 1_000), 200_000);
    assert_eq!(v, Vec2::new(141_442, 141_442));
}

#[test]
fn attract_step_moves_a_hundredth_toward_target() {
    let p = attract_step(Vec2::new(50_000, 0), Vec2::new(0, 0));
    assert_eq!(p, Vec2::new(49_500, 0));
    let q = attract_step(Vec2::new(-50_000, 30_000), Vec2::new(0, 0));
    assert_eq!(q, Vec2::new(-49_500, 29_700));
}
