use signatures::arithmetic::add_two_points;
use signatures::bignat::BigNat;
use signatures::curve::{Curve, CurveParams, CurvePoint};

/// y^2 = x^3 + x + 6 (mod 7) with generator (2, 3).
fn dummy_curve() -> CurveParams {
    CurveParams {
        modulus: BigNat::from_u64(7),
        a: BigNat::from_u64(1),
        b: BigNat::from_u64(6),
        generator: CurvePoint::Affine { x: BigNat::from_u64(2), y: BigNat::from_u64(3) },
        order: BigNat::from_u64(13),
    }
}

#[test]
fn test_is_infinity() {
    let infinity_point = CurvePoint::Infinity;
    let affine_point = CurvePoint::Affine { x: BigNat::from_u64(2), y: BigNat::from_u64(3) };

    assert!(infinity_point.is_infinity());
    assert!(!affine_point.is_infinity());
}

#[test]
fn test_generate_secret_key() {
    let curve = dummy_curve();
    let secret_key = curve.generate_secret_key();

    assert!(secret_key < curve.order());
    assert!(secret_key != BigNat::zero());
}

#[test]
fn test_calculate_public_key() {
    let curve = dummy_curve();
    let secret_key = BigNat::from_u64(3);

    let public_key = curve.calculate_public_key(secret_key.clone());

    let expected_public_key = add_two_points(
        add_two_points(curve.generator_point(), curve.generator_point(), &curve),
        curve.generator_point(),
        &curve,
    );

    assert_eq!(public_key, expected_public_key);
}

#[test]
fn test_identity() {
    let curve = dummy_curve();
    let identity = curve.identity();

    assert!(identity.is_infinity());
}

#[test]
fn test_generator_point() {
    let curve = dummy_curve();
    let generator = curve.generator_point();

    match generator {
        CurvePoint::Affine { x, y } => {
            assert_eq!(x, BigNat::from_u64(2));
            assert_eq!(y, BigNat::from_u64(3));
        }
        _ => panic!("Generator point is not in affine coordinates"),
    }
}

#[test]
fn secret_keys_stay_in_range_over_many_draws() {
    let curve = dummy_curve();
    let one = BigNat::from_u64(1);
    for _ in 0..500 {
        let k = curve.generate_secret_key();
        assert!(!(k < one));
        assert!(k < curve.order());
    }
}

#[test]
fn public_key_of_zero_is_infinity() {
    let curve = dummy_curve();
    assert_eq!(curve.calculate_public_key(BigNat::zero()), CurvePoint::Infinity);
}

#[test]
fn public_key_of_one_is_the_generator() {
    let curve = dummy_curve();
    assert_eq!(curve.calculate_public_key(BigNat::from_u64(1)), curve.generator_point());
}

#[test]
fn public_key_of_two_is_the_doubled_generator() {
    let curve = dummy_curve();
    let doubled = add_two_points(curve.generator_point(), curve.generator_point(), &curve);
    assert_eq!(curve.calculate_public_key(BigNat::from_u64(2)), doubled);
    assert_eq!(doubled, CurvePoint::Affine { x: BigNat::from_u64(4), y: BigNat::from_u64(2) });
}

#[test]
fn public_key_of_three_on_the_dummy_curve() {
    let curve = dummy_curve();
    let expected = CurvePoint::Affine { x: BigNat::from_u64(3), y: BigNat::from_u64(1) };
    assert_eq!(curve.calculate_public_key(BigNat::from_u64(3)), expected);
}
