//! The scalar fixed-point functions on exact values.

use bois::fix;

#[test]
fn isqrt_brackets_the_root() {
    assert_eq!(fix::isqrt(0), 0);
    assert_eq!(fix::isqrt(1), 1);
    assert_eq!(fix::isqrt(2), 1);
    assert_eq!(fix::isqrt(4), 2);
    assert_eq!(fix::isqrt(99), 9);
    assert_eq!(fix::isqrt(100), 10);
    assert_eq!(fix::isqrt(25_000_000), 5000);
    assert_eq!(fix::isqrt(u64::MAX as u128), 4294967295);
}

#[test]
fn emod_tau_wraps_into_one_turn() {
    assert_eq!(fix::emod_tau(0), 0);
    assert_eq!(fix::emod_tau(fix::TAU_MR), 0);
    assert_eq!(fix::emod_tau(6284), 1);
    assert_eq!(fix::emod_tau(-1), 6282);
    assert_eq!(fix::emod_tau(-6284), 6282);
}

#[test]
fn sine_and_cosine_at_the_cardinal_angles() {
    assert_eq!(fix::sin_mr(0), 0);
    assert_eq!(fix::sin_mr(1570), 999);
    assert_eq!(fix::sin_mr(fix::PI_MR), 0);
    assert_eq!(fix::sin_mr(-1570), -999);
    assert_eq!(fix::sin_mr(785), 705);
    assert_eq!(fix::cos_mr(0), 999);
    assert_eq!(fix::cos_mr(3141), -999);
}

#[test]
fn sine_stays_within_unit_scale() {
    let mut a: i64 = -20_000;
    while a <= 20_000 {
        let s = fix::sin_mr(a);
        assert!(-1000 <= s && s <= 1000);
        let c = fix::cos_mr(a);
        assert!(-1000 <= c && c <= 1000);
        a += 37;
    }
}

#[test]
fn atan2_quadrants() {
    assert_eq!(fix::atan2_mr(0, 0), 0);
    assert_eq!(fix::atan2_mr(1000, 1000), 785);
    assert_eq!(fix::atan2_mr(1, 0), fix::HALF_PI_MR);
    assert_eq!(fix::atan2_mr(0, -1), 3141);
    assert_eq!(fix::atan2_mr(-500, 866), -521);
}

#[test]
fn mul_div_combines_product_and_divisor() {
    assert_eq!(fix::mul_div(1500, 2000, 1000), 3000);
    assert_eq!(fix::mul_div(-1500, 2000, 1000), -3000);
    assert_eq!(fix::mul_div(999, 999, 1000), 998);
}

#[test]
fn tenth_root_brackets_the_root() {
    assert_eq!(fix::iroot10(0), 0);
    assert_eq!(fix::iroot10(1), 1);
    assert_eq!(fix::iroot10(1023), 1);
    assert_eq!(fix::iroot10(1024), 2);
    assert_eq!(
        fix::iroot10(1_000_000_000_000_000_000_000_000_000_000),
        1000
    );
}

#[test]
fn containment_weight_values() {
    // the fixed-point eps^1.1: zero at the boundary, and exactly
    // eps * (eps * 10^27)^(1/10)
    assert_eq!(fix::contain_weight(0), 0);
    assert_eq!(fix::contain_weight(1), 501);
    assert_eq!(fix::contain_weight(1000), 1_000_000);
    assert_eq!(fix::contain_weight(2000), 2_142_000);
}

#[test]
fn containment_weight_strictly_increases() {
    let mut prev = fix::contain_weight(0);
    let samples: [u64; 8] = [1, 2, 10, 999, 1000, 50_000, 1_000_000, 1_000_000_000];
    for eps in samples {
        let w = fix::contain_weight(eps);
        assert!(w > prev, "weight not increasing at eps {eps}");
        prev = w;
    }
}
