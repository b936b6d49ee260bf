//! Vector arithmetic on exact fixed-point values.

use bois::fix::SCALE;
use bois::vec::Vec2;

#[test]
fn new_sets_coordinates() {
    let v = Vec2::new(3, -4);
    assert_eq!(v.x, 3);
    assert_eq!(v.y, -4);
}

#[test]
fn add_and_sub_are_componentwise() {
    let a = Vec2::new(1500, -200);
    let b = Vec2::new(-500, 700);
    let s = a.add(&b);
    assert_eq!(s.x, 1000);
    assert_eq!(s.y, 500);
    let d = a.sub(&b);
    assert_eq!(d.x, 2000);
    assert_eq!(d.y, -900);
}

#[test]
fn add_scalar_shifts_both_axes() {
    let a = Vec2::new(100, -100);
    let s = a.add_scalar(50);
    assert_eq!(s.x, 150);
    assert_eq!(s.y, -50);
}

#[test]
fn mul_is_fixed_point() {
    // 1.5 * 2.0 == 3.0 in milli-units
    let a = Vec2::new(1500, -1500);
    let m = a.mul(2000);
    assert_eq!(m.x, 3000);
    assert_eq!(m.y, -3000);
}

#[test]
fn div_is_fixed_point_and_truncates_toward_zero() {
    let a = Vec2::new(1000, -999);
    let q = a.div(3000);
    assert_eq!(q.x, 333);
    assert_eq!(q.y, -333);
}

#[test]
fn distance_is_euclidean_rounded_down() {
    let a = Vec2::new(0, 0);
    let b = Vec2::new(3000, 4000);
    assert_eq!(a.distance(&b), 5000);
    let c = Vec2::new(1, 1);
    assert_eq!(a.distance(&c), 1);
}

#[test]
fn distance_is_symmetric_and_zero_on_self() {
    let a = Vec2::new(123_456, -789);
    let b = Vec2::new(-44, 91_001);
    assert_eq!(a.distance(&b), b.distance(&a));
    assert_eq!(a.distance(&a), 0);
}

#[test]
fn normalise_gives_unit_scale_vectors() {
    let v = Vec2::new(3000, 4000);
    let n = v.normalise();
    assert_eq!(n.x, 600);
    assert_eq!(n.y, 800);

    let tiny = Vec2::new(1, 1);
    let nt = tiny.normalise();
    assert_eq!(nt.x, 707);
    assert_eq!(nt.y, 707);

    let axis = Vec2::new(-5, 0);
    let na = axis.normalise();
    assert_eq!(na.x, -1000);
    assert_eq!(na.y, 0);
}

#[test]
fn normalise_magnitude_close_to_scale() {
    // for a spread of non-zero vectors the squared magnitude lies
    // within rounding of SCALE^2
    let samples = [
        (1i64, 0i64),
        (1, 1),
        (-3, 7),
        (1000, -1),
        (123_456_789, 987_654_321),
        (-4_000_000_000_000_000, 4_000_000_000_000_000),
    ];
    for (x, y) in samples {
        let n = Vec2::new(x, y).normalise();
        let m2 = n.x * n.x + n.y * n.y;
        assert!(m2 >= (SCALE - 2) * (SCALE - 2), "magnitude too small for ({x}, {y}): {m2}");
        assert!(m2 <= (SCALE + 1) * (SCALE + 1), "magnitude too large for ({x}, {y}): {m2}");
    }
}

#[test]
fn normalise_zero_is_exactly_zero() {
    let z = Vec2::new(0, 0);
    let n = z.normalise();
    assert_eq!(n.x, 0);
    assert_eq!(n.y, 0);
}

#[test]
fn direction_radians_matches_octants() {
    assert_eq!(Vec2::new(1000, 1000).direction_radians(), 785);
    assert_eq!(Vec2::new(0, 1).direction_radians(), 1571);
    assert_eq!(Vec2::new(-1, 0).direction_radians(), 3141);
    assert_eq!(Vec2::new(866, -500).direction_radians(), -521);
    assert_eq!(Vec2::new(0, 0).direction_radians(), 0);
}
