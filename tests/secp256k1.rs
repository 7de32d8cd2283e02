use signatures::arithmetic::add_two_points;
use signatures::bignat::BigNat;
use signatures::curve::{Curve, CurvePoint};
use signatures::secp256k1::Secp256k1;

#[test]
fn should_create_new_non_zero_secret_key() {
    let curve = Secp256k1;
    assert!(BigNat::zero() < curve.generate_secret_key());
}

#[test]
fn secret_key_should_be_less_than_the_upper_bound() {
    let curve = Secp256k1;
    assert!(curve.generate_secret_key() < curve.prime_modulus().minus(&BigNat::from_u64(1)));
}

#[test]
fn secret_keys_are_below_the_order_over_many_draws() {
    let curve = Secp256k1;
    for _ in 0..200 {
        let k = curve.generate_secret_key();
        assert!(BigNat::zero() < k);
        assert!(k < curve.order());
    }
}

#[test]
fn parameters_have_their_published_values() {
    let curve = Secp256k1;
    let p = curve.prime_modulus().limbs();
    assert_eq!(p[0], 0xFFFF_FC2F);
    assert_eq!(p[1], 0xFFFF_FFFE);
    assert_eq!(curve.a(), BigNat::zero());
    assert_eq!(curve.b(), BigNat::from_u64(7));
    assert!(curve.order() < curve.prime_modulus());
    assert!(curve.identity().is_infinity());
}

#[test]
fn secp_public_key_of_one_is_the_generator() {
    let curve = Secp256k1;
    assert_eq!(curve.calculate_public_key(BigNat::from_u64(1)), curve.generator_point());
}

#[test]
fn public_key_of_two_is_the_published_double() {
    let curve = Secp256k1;
    let expected = CurvePoint::Affine {
        x: BigNat::from_limbs(vec![
            0x5C709EE5, 0xABAC09B9, 0x8CEF3CA7, 0x5C778E4B, 0x95C07CD8, 0x3045406E, 0x41ED7D6D,
            0xC6047F94,
        ]),
        y: BigNat::from_limbs(vec![
            0x50CFE52A, 0x236431A9, 0x3266D0E1, 0xF7F63265, 0x466CEAEE, 0xA3C58419, 0xA63DC339,
            0x1AE168FE,
        ]),
    };
    assert_eq!(curve.calculate_public_key(BigNat::from_u64(2)), expected);
}

#[test]
fn public_key_of_three_matches_repeated_addition() {
    let curve = Secp256k1;
    let g = curve.generator_point();
    let expected = add_two_points(add_two_points(g.clone(), g.clone(), &curve), g, &curve);
    assert_eq!(curve.calculate_public_key(BigNat::from_u64(3)), expected);
}

#[test]
fn generator_plus_its_negation_is_infinity() {
    let curve = Secp256k1;
    let g = curve.generator_point();
    let negated = match &g {
        CurvePoint::Affine { x, y } => CurvePoint::Affine {
            x: x.clone(),
            y: curve.prime_modulus().minus(y),
        },
        CurvePoint::Infinity => panic!("the generator is affine"),
    };
    assert_eq!(add_two_points(g, negated, &curve), CurvePoint::Infinity);
}
