use speedy_jumper::math::{
    clamp_i64, clamp_speed, isqrt_u64, normalize_dir, rotate_around, sat_coord_add, step_sat,
    within_radius, Bounds2D, Vec2, COORD_LIMIT, UNIT,
};

#[test]
fn isqrt_small_values() {
    assert_eq!(isqrt_u64(0), 0);
    assert_eq!(isqrt_u64(1), 1);
    assert_eq!(isqrt_u64(2), 1);
    assert_eq!(isqrt_u64(3), 1);
    assert_eq!(isqrt_u64(4), 2);
    assert_eq!(isqrt_u64(15), 3);
    assert_eq!(isqrt_u64(16), 4);
    assert_eq!(isqrt_u64(24), 4);
    assert_eq!(isqrt_u64(25), 5);
}

#[test]
fn isqrt_large_values() {
    assert_eq!(isqrt_u64(1_000_000_000_000), 1_000_000);
    assert_eq!(isqrt_u64(u64::MAX), 4_294_967_295);
    assert_eq!(isqrt_u64(999_999_999_999), 999_999);
}

#[test]
fn boxes_overlap() {
    let a = Bounds2D::new(Vec2::new(0, 0), Vec2::new(10, 10));
    let b = Bounds2D::new(Vec2::new(5, 5), Vec2::new(10, 10));
    assert!(a.intersects(b));
    assert!(b.intersects(a));
}

#[test]
fn boxes_touching_edges_do_not_overlap() {
    let a = Bounds2D::new(Vec2::new(0, 0), Vec2::new(10, 10));
    let b = Bounds2D::new(Vec2::new(10, 0), Vec2::new(10, 10));
    assert!(!a.intersects(b));
    let c = Bounds2D::new(Vec2::new(0, 10), Vec2::new(10, 10));
    assert!(!a.intersects(c));
}

#[test]
fn boxes_disjoint() {
    let a = Bounds2D::new(Vec2::new(0, 0), Vec2::new(10, 10));
    let b = Bounds2D::new(Vec2::new(100, 100), Vec2::new(10, 10));
    assert!(!a.intersects(b));
}

#[test]
fn translate_moves_and_saturates() {
    let mut b = Bounds2D::new(Vec2::new(100, 200), Vec2::new(10, 10));
    b.translate(Vec2::new(5, -7));
    assert_eq!(b.get_position().x, 105);
    assert_eq!(b.get_position().y, 193);
    b.translate(Vec2::new(i64::MAX, 0));
    assert_eq!(b.get_position().x, COORD_LIMIT);
    b.translate(Vec2::new(0, i64::MIN));
    assert_eq!(b.get_position().y, -COORD_LIMIT);
    assert_eq!(b.get_size().x, 10);
}

#[test]
fn center_rounds_down() {
    let b = Bounds2D::new(Vec2::new(10, 20), Vec2::new(5, 6));
    let c = b.get_center();
    assert_eq!(c.x, 12);
    assert_eq!(c.y, 23);
}

#[test]
fn center_of_a_box_larger_than_the_screen() {
    let b = Bounds2D::new(Vec2::new(0, 0), Vec2::new(2 * UNIT, 4 * UNIT));
    let c = b.get_center();
    assert_eq!(c.x, UNIT);
    assert_eq!(c.y, 2 * UNIT);
}

#[test]
fn rotate_quarter_turn() {
    // direction (0, UNIT) is a 90-degree rotation vector.
    let r = rotate_around(Vec2::new(0, UNIT), Vec2::new(UNIT, 0), Vec2::new(0, 0));
    assert_eq!(r.x, 0);
    assert_eq!(r.y, UNIT);
}

#[test]
fn rotate_identity() {
    // direction (UNIT, 0) leaves the point where it was.
    let r = rotate_around(Vec2::new(UNIT, 0), Vec2::new(123, 456), Vec2::new(10, 20));
    assert_eq!(r.x, 123);
    assert_eq!(r.y, 456);
    // also for points several screens out
    let far = rotate_around(Vec2::new(UNIT, 0), Vec2::new(3 * UNIT, 4 * UNIT), Vec2::new(UNIT, UNIT));
    assert_eq!(far.x, 3 * UNIT);
    assert_eq!(far.y, 4 * UNIT);
}

#[test]
fn speed_clamp_preserves_short_vectors() {
    let v = clamp_speed(Vec2::new(3_000_000, -4_000_000), 10_000_000);
    assert_eq!(v.x, 3_000_000);
    assert_eq!(v.y, -4_000_000);
}

#[test]
fn speed_clamp_scales_by_magnitude_not_per_axis() {
    // (20, 20) million units/s has magnitude ~28.28 million; clamping to
    // 10 million lands near (7.07, 7.07), not at (10, 10)
    let v = clamp_speed(Vec2::new(20_000_000, 20_000_000), 10_000_000);
    assert_eq!(v.x, 7_071_067);
    assert_eq!(v.y, 7_071_067);
    let w = clamp_speed(Vec2::new(-20_000_000, 0), 10_000_000);
    assert_eq!(w.x, -10_000_000);
    assert_eq!(w.y, 0);
}

#[test]
fn normalize_three_four_five() {
    let n = normalize_dir(Vec2::new(300_000, 400_000));
    assert_eq!(n.x, 600_000);
    assert_eq!(n.y, 800_000);
}

#[test]
fn normalize_zero_stays_zero() {
    let n = normalize_dir(Vec2::new(0, 0));
    assert_eq!(n.x, 0);
    assert_eq!(n.y, 0);
}

#[test]
fn normalize_negative_axis() {
    let n = normalize_dir(Vec2::new(-500, 0));
    assert_eq!(n.x, -UNIT);
    assert_eq!(n.y, 0);
}

#[test]
fn radius_check_is_exact_on_the_boundary() {
    let a = Vec2::new(0, 0);
    let b = Vec2::new(30_000, 40_000);
    assert!(within_radius(a, b, 50_000));
    assert!(!within_radius(a, b, 49_999));
}

#[test]
fn step_sat_integrates_and_saturates() {
    assert_eq!(step_sat(0, 1000, 500, COORD_LIMIT), 500);
    assert_eq!(step_sat(100, -1000, 1500, COORD_LIMIT), 100 - 1500);
    assert_eq!(step_sat(COORD_LIMIT, 1_000_000, 4_000_000_000, COORD_LIMIT), COORD_LIMIT);
    // truncation is toward zero on both signs
    assert_eq!(step_sat(0, 999, 1, COORD_LIMIT), 0);
    assert_eq!(step_sat(0, -999, 1, COORD_LIMIT), 0);
}

#[test]
fn saturating_add_clamps() {
    assert_eq!(sat_coord_add(COORD_LIMIT - 1, 5), COORD_LIMIT);
    assert_eq!(sat_coord_add(-COORD_LIMIT, -1), -COORD_LIMIT);
    assert_eq!(sat_coord_add(3, 4), 7);
}

#[test]
fn clamp_behaves() {
    assert_eq!(clamp_i64(5, 0, 10), 5);
    assert_eq!(clamp_i64(-5, 0, 10), 0);
    assert_eq!(clamp_i64(50, 0, 10), 10);
}
