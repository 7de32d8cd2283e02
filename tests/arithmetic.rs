use signatures::arithmetic::{add_points, add_two_points, mod_inv, mod_mul, mod_sub};
use signatures::bignat::BigNat;
use signatures::curve::{Curve, CurveParams, CurvePoint};

/// A simple test curve with small prime modulus: y^2 = x^3 + 2x + 2 (mod 17).
fn test_curve() -> CurveParams {
    CurveParams {
        modulus: b(17),
        a: b(2),
        b: b(2),
        generator: affine(5, 1),
        order: b(19),
    }
}

fn b(val: u64) -> BigNat {
    BigNat::from_u64(val)
}

fn affine(x: u64, y: u64) -> CurvePoint {
    CurvePoint::Affine { x: b(x), y: b(y) }
}

#[test]
fn test_mod_inv_correctness() {
    let modulus = b(17);
    for val in 1..17u64 {
        let val_b = b(val);
        let inv = mod_inv(val_b.clone(), &modulus);
        let product = val_b.times(&inv).modulo(&modulus);
        assert_eq!(product, BigNat::from_u64(1), "val = {}", val);
    }
}

#[test]
fn test_point_plus_infinity() {
    let curve = test_curve();
    let p = affine(1, 5);
    let inf = CurvePoint::Infinity;

    let result = add_two_points(p.clone(), inf.clone(), &curve);
    assert_eq!(result, p, "P + O should be P");

    let result = add_two_points(inf, p.clone(), &curve);
    assert_eq!(result, p, "O + P should be P");
}

#[test]
fn test_additive_inverse() {
    let curve = test_curve();
    let p = b(17);
    let point_x = b(3);
    let point_y = b(5);

    let p_point = CurvePoint::Affine { x: point_x.clone(), y: point_y.clone() };
    let neg_y = p.minus(&point_y).modulo(&p);
    let minus_p_point = CurvePoint::Affine { x: point_x.clone(), y: neg_y };

    let result = add_two_points(p_point.clone(), minus_p_point.clone(), &curve);
    assert_eq!(result, CurvePoint::Infinity, "P + (-P) should yield the point at infinity");
}

#[test]
fn test_regular_addition() {
    let curve = test_curve();
    let p_point = affine(5, 1);
    let q_point = affine(6, 3);

    let result = add_two_points(p_point.clone(), q_point.clone(), &curve);

    assert!(
        result != CurvePoint::Infinity,
        "P + Q should be an affine point for these specific P, Q"
    );
}

#[test]
fn test_point_doubling() {
    let curve = test_curve();
    let p_point = affine(5, 1);
    let doubled = add_two_points(p_point.clone(), p_point.clone(), &curve);
    assert!(doubled != CurvePoint::Infinity, "2P should not be Infinity unless y=0");
}

#[test]
fn test_point_doubling_y_zero() {
    let curve = test_curve();
    let p_point = affine(5, 0);
    let doubled = add_two_points(p_point.clone(), p_point.clone(), &curve);
    assert_eq!(doubled, CurvePoint::Infinity, "Doubling a point with y=0 should result in Infinity");
}

#[test]
fn regular_addition_gives_the_hand_computed_point() {
    // slope (3 - 1) / (6 - 5) = 2; x3 = 4 - 5 - 6 = 10; y3 = 2 * (5 - 10) - 1 = 6 (mod 17)
    let curve = test_curve();
    let result = add_two_points(affine(5, 1), affine(6, 3), &curve);
    assert_eq!(result, affine(10, 6));
}

#[test]
fn addition_is_symmetric_on_the_toy_curve() {
    let curve = test_curve();
    let pq = add_two_points(affine(5, 1), affine(6, 3), &curve);
    let qp = add_two_points(affine(6, 3), affine(5, 1), &curve);
    assert_eq!(pq, qp);
}

#[test]
fn doubling_gives_the_hand_computed_point() {
    // slope (3 * 25 + 2) / 2 = 13; x3 = 169 - 10 = 6; y3 = 13 * (5 - 6) - 1 = 3 (mod 17)
    let curve = test_curve();
    let doubled = add_two_points(affine(5, 1), affine(5, 1), &curve);
    assert_eq!(doubled, affine(6, 3));
}

#[test]
fn same_x_different_y_gives_infinity() {
    let curve = test_curve();
    let result = add_two_points(affine(5, 1), affine(5, 4), &curve);
    assert_eq!(result, CurvePoint::Infinity);
}

#[test]
fn infinity_plus_infinity_is_infinity() {
    let curve = test_curve();
    let result = add_two_points(CurvePoint::Infinity, CurvePoint::Infinity, &curve);
    assert!(result.is_infinity());
}

#[test]
fn add_points_takes_the_parameters_directly() {
    let result = add_points(affine(5, 1), affine(6, 3), &b(17), &b(2));
    assert_eq!(result, affine(10, 6));
}

#[test]
fn mod_sub_wraps_around() {
    assert_eq!(mod_sub(&b(3), &b(5), &b(17)), b(15));
    assert_eq!(mod_sub(&b(5), &b(3), &b(17)), b(2));
}

#[test]
fn mod_sub_reduces_its_inputs() {
    // (20 - 40) mod 17 = 14
    assert_eq!(mod_sub(&b(20), &b(40), &b(17)), b(14));
}

#[test]
fn mod_mul_reduces_the_product() {
    assert_eq!(mod_mul(&b(5), &b(7), &b(17)), b(1));
    assert_eq!(mod_mul(&b(16), &b(16), &b(17)), b(1));
}

#[test]
fn mod_inv_of_three_modulo_seventeen() {
    assert_eq!(mod_inv(b(3), &b(17)), b(6));
}

#[test]
fn mod_inv_of_an_unreduced_value() {
    // 20 = 3 (mod 17)
    assert_eq!(mod_inv(b(20), &b(17)), b(6));
}

#[test]
fn secret_keys_on_the_toy_curve_stay_below_its_order() {
    let curve = test_curve();
    for _ in 0..500 {
        let k = curve.generate_secret_key();
        assert!(BigNat::zero() < k);
        assert!(k < b(19));
    }
}

#[test]
fn toy_curve_public_key_of_three_is_symmetric_sum() {
    let curve = test_curve();
    let g = curve.generator_point();
    let g2 = add_two_points(g.clone(), g.clone(), &curve);
    assert_eq!(curve.calculate_public_key(b(3)), add_two_points(g2.clone(), g.clone(), &curve));
    assert_eq!(curve.calculate_public_key(b(3)), add_two_points(g, g2, &curve));
}
