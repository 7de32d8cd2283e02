//! Curve points and the capability that every concrete curve provides.
use crate::arithmetic;
use crate::arithmetic::add_points;
use crate::bignat;
use crate::bignat::BigNat;
use vstd::arithmetic::div_mod;
use vstd::arithmetic::power;
use vstd::prelude::*;

verus! {

/// The mathematical value of a curve point.
pub enum PointModel {
    Affine { x: nat, y: nat },
    Infinity,
}

/// A point of a curve in affine coordinates, or the point at infinity.
#[derive(Debug)]
pub enum CurvePoint {
    Affine { x: BigNat, y: BigNat },
    Infinity,
}

impl View for CurvePoint {
    type V = PointModel;

    open spec fn view(&self) -> PointModel {
        match self {
            CurvePoint::Affine { x, y } => PointModel::Affine { x: x@, y: y@ },
            CurvePoint::Infinity => PointModel::Infinity,
        }
    }
}

impl CurvePoint {
    /// Check if the point is the point at infinity.
    pub fn is_infinity(&self) -> (r: bool)
        ensures
            r == (self@ == PointModel::Infinity),
    {
        match self {
            CurvePoint::Infinity => true,
            CurvePoint::Affine { .. } => false,
        }
    }
}

impl Clone for CurvePoint {
    fn clone(&self) -> (r: Self)
        ensures
            r@ == self@,
    {
        match self {
            CurvePoint::Affine { x, y } => CurvePoint::Affine { x: x.clone(), y: y.clone() },
            CurvePoint::Infinity => CurvePoint::Infinity,
        }
    }
}

impl PartialEq for CurvePoint {
    fn eq(&self, other: &CurvePoint) -> (r: bool) {
        match (self, other) {
            (CurvePoint::Affine { x: x1, y: y1 }, CurvePoint::Affine { x: x2, y: y2 }) => {
                x1.equals(x2) && y1.equals(y2)
            },
            (CurvePoint::Infinity, CurvePoint::Infinity) => true,
            _ => false,
        }
    }
}

impl vstd::std_specs::cmp::PartialEqSpecImpl for CurvePoint {
    open spec fn obeys_eq_spec() -> bool {
        true
    }

    open spec fn eq_spec(&self, other: &CurvePoint) -> bool {
        self@ == other@
    }
}

/// Whether an affine point has both coordinates reduced modulo `p`.
pub open spec fn in_field(pt: PointModel, p: nat) -> bool {
    match pt {
        PointModel::Affine { x, y } => x < p && y < p,
        PointModel::Infinity => true,
    }
}

/// Double-and-add, least significant bit first: while `k` has bits left, add
/// `current` to `acc` when the low bit of `k` is set, then double `current`.
pub open spec fn double_and_add(
    acc: PointModel,
    current: PointModel,
    k: nat,
    p: nat,
    a: nat,
) -> PointModel
    decreases k,
{
    if k == 0 {
        acc
    } else {
        let next_acc = if k % 2 == 1 {
            arithmetic::add_spec(acc, current, p, a)
        } else {
            acc
        };
        double_and_add(next_acc, arithmetic::add_spec(current, current, p, a), k / 2, p, a)
    }
}

/// `k` times `g`, as double-and-add computes it from the identity.
pub open spec fn scalar_mul(k: nat, g: PointModel, p: nat, a: nat) -> PointModel {
    double_and_add(PointModel::Infinity, g, k, p, a)
}

/// The parameters that the addition engine needs: an odd modulus above 2.
pub open spec fn modulus_ok(p: nat) -> bool {
    p > 2 && p % 2 == 1
}

/// An elliptic curve `y^2 = x^3 + a x + b` over the integers modulo a prime.
pub trait Curve {
    /// The prime modulus.
    spec fn modulus_spec(&self) -> nat;

    /// The coefficient `a`.
    spec fn a_spec(&self) -> nat;

    /// The coefficient `b`.
    spec fn b_spec(&self) -> nat;

    /// The generator point.
    spec fn generator_spec(&self) -> PointModel;

    /// The order of the generator.
    spec fn order_spec(&self) -> nat;

    /// Returns the generator point of the curve.
    fn generator_point(&self) -> (r: CurvePoint)
        ensures
            r@ == self.generator_spec(),
    ;

    /// Returns the prime modulus `p`.
    fn prime_modulus(&self) -> (r: BigNat)
        ensures
            r@ == self.modulus_spec(),
    ;

    /// Returns the curve parameter `a`.
    fn a(&self) -> (r: BigNat)
        ensures
            r@ == self.a_spec(),
    ;

    /// Returns the curve parameter `b`.
    fn b(&self) -> (r: BigNat)
        ensures
            r@ == self.b_spec(),
    ;

    /// Returns the order of the group.
    fn order(&self) -> (r: BigNat)
        ensures
            r@ == self.order_spec(),
    ;

    /// Returns the identity point (the point at infinity).
    fn identity(&self) -> (r: CurvePoint)
        ensures
            r@ == PointModel::Infinity,
    ;

    /// Draws a uniformly random secret key in `[1, order)`.
    fn generate_secret_key(&self) -> (r: BigNat)
        requires
            self.order_spec() > 1,
        ensures
            1 <= r@ < self.order_spec(),
    {
        let order = self.order();
        let one = BigNat::from_u64(1);
        let mut rng = rand::thread_rng();
        bignat::random_in_range(&mut rng, &one, &order)
    }

    /// Multiplies the generator point by `secret_key` with double-and-add.
    fn calculate_public_key(&self, secret_key: BigNat) -> (r: CurvePoint)
        requires
            modulus_ok(self.modulus_spec()),
            in_field(self.generator_spec(), self.modulus_spec()),
        ensures
            r@ == scalar_mul(
                secret_key@,
                self.generator_spec(),
                self.modulus_spec(),
                self.a_spec(),
            ),
            in_field(r@, self.modulus_spec()),
    {
        let ghost p = self.modulus_spec();
        let ghost a = self.a_spec();
        let ghost k = secret_key@;
        let p_big = self.prime_modulus();
        let a_big = self.a();
        let mut result = self.identity();
        let mut current = self.generator_point();
        let nbits = bignat::big_bits(&secret_key);
        let mut i: u64 = 0;
        proof {
            reveal(power::pow);
            assert(k as int / power::pow(2, 0) == k);
        }
        while i < nbits
            invariant
                i <= nbits,
                p == self.modulus_spec(),
                a == self.a_spec(),
                k == secret_key@,
                p_big@ == p,
                a_big@ == a,
                modulus_ok(p),
                (k as int) < power::pow(2, nbits as nat),
                in_field(result@, p),
                in_field(current@, p),
                double_and_add(result@, current@, (k as int / power::pow(2, i as nat)) as nat, p, a)
                    == scalar_mul(k, self.generator_spec(), p, a),
            decreases nbits - i,
        {
            let ghost k_i = (k as int / power::pow(2, i as nat)) as nat;
            let ghost old_result = result@;
            let ghost old_current = current@;
            proof {
                reveal(power::pow);
                power::lemma_pow_positive(2, i as nat);
                div_mod::lemma_div_pos_is_pos(k as int, power::pow(2, i as nat));
                div_mod::lemma_div_denominator(k as int, power::pow(2, i as nat), 2);
                assert(power::pow(2, (i + 1) as nat) == power::pow(2, i as nat) * 2);
            }
            if bignat::big_bit(&secret_key, i) {
                result = add_points(result, current.clone(), &p_big, &a_big);
            }
            current = add_points(current.clone(), current, &p_big, &a_big);
            i = i + 1;
            proof {
                assert(k_i / 2 == (k as int / power::pow(2, i as nat)) as nat);
                if k_i > 0 {
                    assert(double_and_add(old_result, old_current, k_i, p, a) == double_and_add(
                        result@,
                        current@,
                        k_i / 2,
                        p,
                        a,
                    ));
                }
            }
        }
        proof {
            power::lemma_pow_positive(2, nbits as nat);
            div_mod::lemma_basic_div(k as int, power::pow(2, nbits as nat));
        }
        result
    }
}

/// A curve given by its parameters at run time.
pub struct CurveParams {
    pub modulus: BigNat,
    pub a: BigNat,
    pub b: BigNat,
    pub generator: CurvePoint,
    pub order: BigNat,
}

impl Curve for CurveParams {
    open spec fn modulus_spec(&self) -> nat {
        self.modulus@
    }

    open spec fn a_spec(&self) -> nat {
        self.a@
    }

    open spec fn b_spec(&self) -> nat {
        self.b@
    }

    open spec fn generator_spec(&self) -> PointModel {
        self.generator@
    }

    open spec fn order_spec(&self) -> nat {
        self.order@
    }

    fn generator_point(&self) -> (r: CurvePoint) {
        self.generator.clone()
    }

    fn prime_modulus(&self) -> (r: BigNat) {
        self.modulus.clone()
    }

    fn a(&self) -> (r: BigNat) {
        self.a.clone()
    }

    fn b(&self) -> (r: BigNat) {
        self.b.clone()
    }

    fn order(&self) -> (r: BigNat) {
        self.order.clone()
    }

    fn identity(&self) -> (r: CurvePoint) {
        CurvePoint::Infinity
    }
}

} // verus!
