//! The secp256k1 curve: `y^2 = x^3 + 7` over a 256-bit prime field.
use crate::bignat;
use crate::bignat::BigNat;
use crate::curve::{Curve, CurvePoint, PointModel};
use vstd::prelude::*;

verus! {

/// A 256-bit number from its upper and lower 128-bit halves.
pub open spec fn from_halves(hi: nat, lo: nat) -> nat {
    hi * 0x1_0000_0000_0000_0000 * 0x1_0000_0000_0000_0000 + lo
}

/// The field modulus `2^256 - 2^32 - 977`.
pub open spec fn secp256k1_modulus() -> nat {
    from_halves(0xFFFFFFFFFFFFFFFFFFFFFFFFFFFFFFFF, 0xFFFFFFFFFFFFFFFFFFFFFFFEFFFFFC2F)
}

/// The order of the generator.
pub open spec fn secp256k1_order() -> nat {
    from_halves(0xFFFFFFFFFFFFFFFFFFFFFFFFFFFFFFFE, 0xBAAEDCE6AF48A03BBFD25E8CD0364141)
}

/// The generator point.
pub open spec fn secp256k1_generator() -> PointModel {
    PointModel::Affine {
        x: from_halves(0x79BE667EF9DCBBAC55A06295CE870B07, 0x029BFCDB2DCE28D959F2815B16F81798),
        y: from_halves(0x483ADA7726A3C4655DA4FBFC0E1108A8, 0xFD17B448A68554199C47D08FFB10D4B8),
    }
}

/// The value of eight little-endian limbs, written out.
proof fn lemma_limbs_value_8(s: Seq<u32>)
    requires
        s.len() == 8,
    ensures
        bignat::limbs_value(s) == s[0] as nat + 0x1_0000_0000 * (s[1] as nat + 0x1_0000_0000 * (
        s[2] as nat + 0x1_0000_0000 * (s[3] as nat + 0x1_0000_0000 * (s[4] as nat
            + 0x1_0000_0000 * (s[5] as nat + 0x1_0000_0000 * (s[6] as nat + 0x1_0000_0000 * (
        s[7] as nat))))))),
{
    reveal_with_fuel(bignat::limbs_value, 9);
    let s1 = s.drop_first();
    let s2 = s1.drop_first();
    let s3 = s2.drop_first();
    let s4 = s3.drop_first();
    let s5 = s4.drop_first();
    let s6 = s5.drop_first();
    let s7 = s6.drop_first();
    let s8 = s7.drop_first();
    assert(s8.len() == 0);
    assert(bignat::limbs_value(s7) == s[7] as nat);
}

/// The secp256k1 curve.
pub struct Secp256k1;

impl Curve for Secp256k1 {
    open spec fn modulus_spec(&self) -> nat {
        secp256k1_modulus()
    }

    open spec fn a_spec(&self) -> nat {
        0
    }

    open spec fn b_spec(&self) -> nat {
        7
    }

    open spec fn generator_spec(&self) -> PointModel {
        secp256k1_generator()
    }

    open spec fn order_spec(&self) -> nat {
        secp256k1_order()
    }

    fn generator_point(&self) -> (r: CurvePoint) {
        let x = vec![
            0x16F81798u32,
            0x59F2815B,
            0x2DCE28D9,
            0x029BFCDB,
            0xCE870B07,
            0x55A06295,
            0xF9DCBBAC,
            0x79BE667E,
        ];
        let y = vec![
            0xFB10D4B8u32,
            0x9C47D08F,
            0xA6855419,
            0xFD17B448,
            0x0E1108A8,
            0x5DA4FBFC,
            0x26A3C465,
            0x483ADA77,
        ];
        proof {
            lemma_limbs_value_8(x@);
            lemma_limbs_value_8(y@);
        }
        CurvePoint::Affine { x: BigNat::from_limbs(x), y: BigNat::from_limbs(y) }
    }

    fn prime_modulus(&self) -> (r: BigNat) {
        let limbs = vec![
            0xFFFFFC2Fu32,
            0xFFFFFFFE,
            0xFFFFFFFF,
            0xFFFFFFFF,
            0xFFFFFFFF,
            0xFFFFFFFF,
            0xFFFFFFFF,
            0xFFFFFFFF,
        ];
        proof {
            lemma_limbs_value_8(limbs@);
        }
        BigNat::from_limbs(limbs)
    }

    fn a(&self) -> (r: BigNat) {
        BigNat::from_u64(0)
    }

    fn b(&self) -> (r: BigNat) {
        BigNat::from_u64(7)
    }

    fn order(&self) -> (r: BigNat) {
        let limbs = vec![
            0xD0364141u32,
            0xBFD25E8C,
            0xAF48A03B,
            0xBAAEDCE6,
            0xFFFFFFFE,
            0xFFFFFFFF,
            0xFFFFFFFF,
            0xFFFFFFFF,
        ];
        proof {
            lemma_limbs_value_8(limbs@);
        }
        BigNat::from_limbs(limbs)
    }

    fn identity(&self) -> (r: CurvePoint) {
        CurvePoint::Infinity
    }
}

} // verus!
