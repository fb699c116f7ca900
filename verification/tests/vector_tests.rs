use voxel_bake::fixed::SCALE;
use voxel_bake::vector::{Axis, Vec2, Vec3};

fn v(x: i64, y: i64, z: i64) -> Vec3 {
    Vec3 { x, y, z }
}

#[test]
fn get_axis_selects_component() {
    let a = v(1, 2, 3);
    assert_eq!(a.get_axis(Axis::X), 1);
    assert_eq!(a.get_axis(Axis::Y), 2);
    assert_eq!(a.get_axis(Axis::Z), 3);
}

#[test]
fn add_sub_midpoint() {
    let a = v(SCALE, 2 * SCALE, -SCALE);
    let b = v(SCALE, -SCALE, SCALE);
    assert_eq!(a.add(&b), v(2 * SCALE, SCALE, 0));
    assert_eq!(a.sub(&b), v(0, 3 * SCALE, -2 * SCALE));
    assert_eq!(a.midpoint(&b), v(SCALE, SCALE / 2, 0));
    // midpoints round toward zero
    assert_eq!(v(0, 0, 0).midpoint(&v(3, -3, 5)), v(1, -1, 2));
}

#[test]
fn dot_is_scaled_product_sum() {
    // (1.0, 2.0, 0) . (3.0, 0.5, 0) = 4.0
    let a = v(SCALE, 2 * SCALE, 0);
    let b = v(3 * SCALE, SCALE / 2, 0);
    assert_eq!(a.dot(&b), 4 * SCALE);
    // antiparallel unit vectors: -1.0
    assert_eq!(v(SCALE, 0, 0).dot(&v(-SCALE, 0, 0)), -SCALE);
}

#[test]
fn distance_squared_exact() {
    // |(3,4,0)|^2 = 25 square units
    let a = v(3 * SCALE, 4 * SCALE, 0);
    let o = v(0, 0, 0);
    assert_eq!(a.distance_squared(&o), 25 * SCALE);
    assert_eq!(o.distance_squared(&a), 25 * SCALE);
    assert_eq!(a.distance_squared(&a), 0);
}

#[test]
fn normalize_three_four_five() {
    let a = v(3 * SCALE, 4 * SCALE, 0);
    let n = a.normalize();
    // 3/5 and 4/5 in fixed point, rounded toward zero
    assert_eq!(n, v(3 * SCALE / 5, 4 * SCALE / 5, 0));
    assert_eq!(n, v(39321, 52428, 0));
    // axis vectors normalize exactly
    assert_eq!(v(0, -7 * SCALE, 0).normalize(), v(0, -SCALE, 0));
}

#[test]
fn reflect_negates_one_axis() {
    let a = v(1, 2, 3);
    assert_eq!(a.reflect(Axis::X), v(-1, 2, 3));
    assert_eq!(a.reflect(Axis::Y), v(1, -2, 3));
    assert_eq!(a.reflect(Axis::Z), v(1, 2, -3));
}

#[test]
fn vec2_add_and_midpoint() {
    let a = Vec2 { x: 10, y: 20 };
    let b = Vec2 { x: 30, y: -5 };
    let s = a.add(&b);
    assert_eq!((s.x, s.y), (40, 15));
    let m = a.midpoint(&b);
    assert_eq!((m.x, m.y), (20, 7));
}
