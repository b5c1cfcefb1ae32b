use std::collections::hash_map::DefaultHasher;
use std::hash::{Hash, Hasher};

use raster3d::fixed::{fx_div, fx_mul, fx_trunc_i32, ONE};
use raster3d::math::{int_sqrt, lerp, Quat, Vec3};

#[test]
fn lerp_hits_both_endpoints() {
    let ys = lerp(-7, 123_456, 13, -98_765);
    assert_eq!(ys[0], 123_456);
    assert_eq!(*ys.last().unwrap(), -98_765);
    let ys = lerp(0, 0, 3, 1000 * ONE);
    assert_eq!(ys[0], 0);
    assert_eq!(ys[3], 1000 * ONE);
}

#[test]
fn lerp_endpoints_within_tolerance_over_many_inputs() {
    for x1 in -5..5 {
        for x2 in -5..5 {
            if x1 >= x2 {
                continue;
            }
            for (y1, y2) in [(0i64, 1i64), (-3 * ONE, 7 * ONE), (1_000_000, -1_000_000)] {
                let ys = lerp(x1, y1, x2, y2);
                assert!((ys[0] - y1).abs() <= ONE / 1000);
                assert!((ys[ys.len() - 1] - y2).abs() <= ONE / 1000);
            }
        }
    }
}

#[test]
fn lerp_exact_values_round_down() {
    assert_eq!(lerp(0, 0, 4, 10), vec![0, 2, 5, 7, 10]);
    assert_eq!(lerp(0, 10, 4, 0), vec![10, 7, 5, 2, 0]);
    assert_eq!(lerp(2, 5, 5, 5), vec![5, 5, 5, 5]);
}

#[test]
fn lerp_degenerate_gives_single_value() {
    assert_eq!(lerp(4, 17, 4, 99), vec![17]);
    assert_eq!(lerp(-3, -1, -3, 5), vec![-1]);
}

#[test]
fn lerp_length_is_span_plus_one() {
    assert_eq!(lerp(0, 0, 10, 5).len(), 11);
    assert_eq!(lerp(10, 0, 0, 5).len(), 11);
    assert_eq!(lerp(-20, 1, 30, 2).len(), 51);
}

#[test]
fn lerp_descending_abscissae_run_in_ascending_order() {
    // From x = 0 up to x = 4: the value at x = 0 is y2.
    assert_eq!(lerp(4, 10, 0, 0), vec![0, 2, 5, 7, 10]);
}

#[test]
fn fixed_point_operations() {
    assert_eq!(fx_mul(3 * ONE, ONE / 2), 3 * ONE / 2);
    assert_eq!(fx_mul(-1, 1), -1);
    assert_eq!(fx_mul(i64::MAX, i64::MAX), i64::MAX);
    assert_eq!(fx_div(ONE, 4 * ONE), ONE / 4);
    assert_eq!(fx_div(-ONE, 3 * ONE), -21846);
    assert_eq!(fx_trunc_i32(5 * ONE + ONE / 2), 5);
    assert_eq!(fx_trunc_i32(-(5 * ONE + ONE / 2)), -5);
    assert_eq!(fx_trunc_i32(i64::MAX), i32::MAX);
}

#[test]
fn integer_square_root() {
    assert_eq!(int_sqrt(0), 0);
    assert_eq!(int_sqrt(15), 3);
    assert_eq!(int_sqrt(16), 4);
    assert_eq!(int_sqrt(1 << 80), 1 << 40);
}

#[test]
fn quaternion_normalize_and_rotate() {
    let q = Quat::new(0, 0, 0, 2 * ONE).normalize();
    assert_eq!(q, Quat::identity());
    let zero = Quat::new(0, 0, 0, 0);
    assert_eq!(zero.normalize(), zero);
    let v = Vec3::new(ONE, 2 * ONE, 3 * ONE);
    assert_eq!(Quat::identity().rotate(v), v);
    // Half a turn about z: sin(90 deg) = 1, cos(90 deg) = 0.
    let half_turn = Quat::new(0, 0, ONE, 0);
    assert_eq!(half_turn.rotate(v), Vec3::new(-ONE, -2 * ONE, 3 * ONE));
    // A quarter turn about y takes +x to -z.
    let s = 46341; // sin(45 deg) in 16.16, rounded
    let quarter = Quat::new(0, s, 0, s).normalize();
    let r = quarter.rotate(Vec3::new(ONE, 0, 0));
    assert!(r.x.abs() <= 4 && r.y == 0 && (r.z + ONE).abs() <= 4);
}

#[test]
fn quaternion_product_and_conjugate() {
    let a = Quat::new(0, 0, ONE, 0);
    assert_eq!(a.mul(a), Quat::new(0, 0, 0, -ONE));
    assert_eq!(a.conjugate(), Quat::new(0, 0, -ONE, 0));
    assert_eq!(Quat::identity().mul(a), a);
}

#[test]
fn vec3_hash_matches_hashing_components_in_order() {
    let v = Vec3::new(ONE, -2 * ONE, 7);
    let mut h = DefaultHasher::new();
    v.x.hash(&mut h);
    v.y.hash(&mut h);
    v.z.hash(&mut h);
    assert_eq!(raster3d::math::vec3_hash(&v), h.finish());
    assert_eq!(raster3d::math::vec3_hash(&v), raster3d::math::vec3_hash(&Vec3::new(ONE, -2 * ONE, 7)));
    assert_ne!(raster3d::math::vec3_hash(&v), raster3d::math::vec3_hash(&Vec3::new(ONE, -2 * ONE, 8)));
}

#[test]
fn lerp_truncates_toward_zero() {
    assert_eq!(lerp(0, 0, 4, -10), vec![0, -2, -5, -7, -10]);
    assert_eq!(lerp(0, -10, 4, 0), vec![-10, -7, -5, -2, 0]);
}
