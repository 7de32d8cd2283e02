//! Modular arithmetic over a prime field and affine point addition.
use crate::bignat::BigNat;
use crate::curve::{Curve, CurvePoint, PointModel};
use crate::number_theory;
use vstd::arithmetic::div_mod;
use vstd::arithmetic::power;
use vstd::prelude::*;

verus! {

/// `v` reduced into `[0, p)`.
pub open spec fn fmod(v: int, p: nat) -> nat {
    (v % (p as int)) as nat
}

/// The inverse of `v` modulo `p` by Fermat's little theorem: `v^(p-2) mod p`.
pub open spec fn inv_spec(v: nat, p: nat) -> nat {
    fmod(power::pow(v as int, (p - 2) as nat), p)
}

/// The slope of the line through two affine points (the tangent when `x1 == x2`).
pub open spec fn slope(x1: nat, y1: nat, x2: nat, y2: nat, p: nat, a: nat) -> nat {
    if x1 == x2 {
        fmod(((3 * x1 * x1 + a) * inv_spec(fmod(2 * y1 as int, p), p)) as int, p)
    } else {
        fmod((y2 - y1) * inv_spec(fmod(x2 - x1, p), p), p)
    }
}

/// The group operation of the curve `y^2 = x^3 + a x + b` modulo `p`.
pub open spec fn add_spec(pt: PointModel, qt: PointModel, p: nat, a: nat) -> PointModel {
    match pt {
        PointModel::Infinity => qt,
        PointModel::Affine { x: x1, y: y1 } => match qt {
            PointModel::Infinity => pt,
            PointModel::Affine { x: x2, y: y2 } => {
                if x1 == x2 && y1 != y2 {
                    PointModel::Infinity
                } else if x1 == x2 && y1 == 0 {
                    PointModel::Infinity
                } else {
                    let l = slope(x1, y1, x2, y2, p, a);
                    let x3 = fmod(l * l - x1 - x2, p);
                    PointModel::Affine { x: x3, y: fmod(l * (x1 - x3) - y1, p) }
                }
            },
        },
    }
}

/// Reducing `u` before scaling and shifting it leaves the residue unchanged.
proof fn lemma_mod_congr(u: int, k: int, v: int, p: int)
    requires
        p > 0,
    ensures
        ((u % p) * k + v) % p == (u * k + v) % p,
{
    let q = u / p;
    let r = u % p;
    div_mod::lemma_fundamental_div_mod(u, p);
    assert(u * k + v == p * (q * k) + (r * k + v)) by (nonlinear_arith)
        requires
            u == p * q + r,
    ;
    div_mod::lemma_mod_multiples_vanish(q * k, r * k + v, p);
}

/// A non-zero difference of two reduced values is non-zero modulo `p`.
proof fn lemma_diff_nonzero(x1: nat, x2: nat, p: nat)
    requires
        x1 < p,
        x2 < p,
        x1 != x2,
    ensures
        fmod(x2 - x1, p) != 0,
{
    if x2 > x1 {
        div_mod::lemma_small_mod((x2 - x1) as nat, p);
    } else {
        div_mod::lemma_mod_add_multiples_vanish(x2 - x1, p as int);
        div_mod::lemma_small_mod((p + x2 - x1) as nat, p);
    }
}

/// Twice a non-zero reduced value is non-zero modulo an odd `p`.
proof fn lemma_double_nonzero(y: nat, p: nat)
    requires
        crate::curve::modulus_ok(p),
        0 < y < p,
    ensures
        fmod(2 * y as int, p) != 0,
{
    if 2 * y < p {
        div_mod::lemma_small_mod(2 * y, p);
    } else {
        div_mod::lemma_mod_sub_multiples_vanish(2 * y as int, p as int);
        div_mod::lemma_small_mod((2 * y - p) as nat, p);
    }
}

/// `(a - b) mod p`, computed without a negative intermediate.
pub fn mod_sub(a: &BigNat, b: &BigNat, p: &BigNat) -> (r: BigNat)
    requires
        p@ > 0,
    ensures
        r@ == fmod(a@ - b@, p@),
{
    let ar = a.modulo(p);
    let br = b.modulo(p);
    let shifted = ar.plus(p);
    let diff = shifted.minus(&br);
    let r = diff.modulo(p);
    proof {
        let pi = p@ as int;
        lemma_mod_congr(a@ as int, 1, pi - br@, pi);
        lemma_mod_congr(b@ as int, -1, a@ + pi, pi);
        div_mod::lemma_mod_add_multiples_vanish(a@ - b@, pi);
    }
    r
}

/// `(a * b) mod p`.
pub fn mod_mul(a: &BigNat, b: &BigNat, p: &BigNat) -> (r: BigNat)
    requires
        p@ > 0,
    ensures
        r@ == fmod((a@ * b@) as int, p@),
{
    a.times(b).modulo(p)
}

/// The inverse of `value` modulo a prime `modulus`, as `value^(modulus-2) mod modulus`.
/// A value divisible by the modulus has no inverse and is not accepted.
pub fn mod_inv(value: BigNat, modulus: &BigNat) -> (r: BigNat)
    requires
        modulus@ >= 2,
        value@ % modulus@ != 0,
    ensures
        r@ == inv_spec(value@, modulus@),
{
    let two = BigNat::from_u64(2);
    let exponent = modulus.minus(&two);
    value.pow_mod(&exponent, modulus)
}

/// Adds two points of `curve`, handling the identity, inverse pairs and vertical
/// tangents before any slope is computed.
pub fn add_two_points<T: Curve>(first: CurvePoint, second: CurvePoint, curve: &T) -> (r: CurvePoint)
    requires
        crate::curve::modulus_ok(curve.modulus_spec()),
        crate::curve::in_field(first@, curve.modulus_spec()),
        crate::curve::in_field(second@, curve.modulus_spec()),
    ensures
        r@ == add_spec(first@, second@, curve.modulus_spec(), curve.a_spec()),
        crate::curve::in_field(r@, curve.modulus_spec()),
{
    let p = curve.prime_modulus();
    let a = curve.a();
    add_points(first, second, &p, &a)
}

/// Adds two points of the curve with modulus `p` and coefficient `a`.
pub fn add_points(first: CurvePoint, second: CurvePoint, p: &BigNat, a: &BigNat) -> (r: CurvePoint)
    requires
        crate::curve::modulus_ok(p@),
        crate::curve::in_field(first@, p@),
        crate::curve::in_field(second@, p@),
    ensures
        r@ == add_spec(first@, second@, p@, a@),
        crate::curve::in_field(r@, p@),
{
    let (x1, y1) = match first {
        CurvePoint::Infinity => {
            return second;
        },
        CurvePoint::Affine { x, y } => (x, y),
    };
    let (x2, y2) = match second {
        CurvePoint::Infinity => {
            return CurvePoint::Affine { x: x1, y: y1 };
        },
        CurvePoint::Affine { x, y } => (x, y),
    };
    let same_x = x1.equals(&x2);
    if same_x && !y1.equals(&y2) {
        return CurvePoint::Infinity;
    }
    let ghost pv = p@;
    let ghost av = a@;
    let ghost num_raw: int = if same_x {
        (3 * x1@ * x1@ + av) as int
    } else {
        y2@ - y1@
    };
    let ghost den_raw: int = if same_x {
        (2 * y1@) as int
    } else {
        x2@ - x1@
    };
    let (numerator, denominator) = if same_x {
        if y1.is_zero() {
            return CurvePoint::Infinity;
        }
        let two = BigNat::from_u64(2);
        let three = BigNat::from_u64(3);
        let x1_sq = x1.pow_mod(&two, p);
        let numerator = three.times(&x1_sq).plus(a).modulo(p);
        let denominator = two.times(&y1).modulo(p);
        proof {
            let sq: int = (x1@ * x1@) as int;
            power::lemma_square_is_pow2(x1@ as int);
            assert(x1_sq@ == sq % (pv as int));
            lemma_mod_congr(sq, 3, av as int, pv as int);
            assert(3 * (sq % (pv as int)) == (sq % (pv as int)) * 3) by (nonlinear_arith);
            assert(sq * 3 == 3 * x1@ * x1@) by (nonlinear_arith)
                requires
                    sq == x1@ * x1@,
            ;
            assert(numerator@ == fmod(num_raw, pv));
            lemma_double_nonzero(y1@, pv);
        }
        (numerator, denominator)
    } else {
        let numerator = mod_sub(&y2, &y1, p);
        let denominator = mod_sub(&x2, &x1, p);
        proof {
            lemma_diff_nonzero(x1@, x2@, pv);
        }
        (numerator, denominator)
    };
    assert(numerator@ == fmod(num_raw, pv));
    assert(denominator@ == fmod(den_raw, pv));
    let ghost den = denominator@;
    proof {
        div_mod::lemma_small_mod(den, pv);
    }
    let denom_inv = mod_inv(denominator, p);
    let lambda = mod_mul(&numerator, &denom_inv, p);
    proof {
        lemma_mod_congr(num_raw, denom_inv@ as int, 0, pv as int);
        assert(lambda@ == slope(x1@, y1@, x2@, y2@, pv, av));
    }
    let ghost l = lambda@ as int;
    let two = BigNat::from_u64(2);
    let lambda_sq = lambda.pow_mod(&two, p);
    let x3_partial = mod_sub(&lambda_sq, &x1, p);
    let x3 = mod_sub(&x3_partial, &x2, p);
    proof {
        power::lemma_square_is_pow2(l);
        lemma_mod_congr(l * l, 1, -x1@, pv as int);
        lemma_mod_congr(l * l - x1@, 1, -x2@, pv as int);
        assert(x3@ == fmod(l * l - x1@ - x2@, pv));
    }
    let t1 = mod_sub(&x1, &x3, p);
    let t2 = mod_mul(&lambda, &t1, p);
    let y3 = mod_sub(&t2, &y1, p);
    proof {
        let d: int = x1@ - x3@;
        lemma_mod_congr(d, l, 0, pv as int);
        assert(l * d == d * l) by (nonlinear_arith);
        assert(l * t1@ == t1@ * l) by (nonlinear_arith);
        assert(t2@ == fmod(l * d, pv));
        lemma_mod_congr(l * (x1@ - x3@), 1, -y1@, pv as int);
        assert(y3@ == fmod(l * (x1@ - x3@) - y1@, pv));
    }
    CurvePoint::Affine { x: x3, y: y3 }
}

/// The point at infinity is the identity on both sides: `P + O == O + P == P`.
pub proof fn lemma_add_identity(pt: PointModel, p: nat, a: nat)
    ensures
        add_spec(pt, PointModel::Infinity, p, a) == pt,
        add_spec(PointModel::Infinity, pt, p, a) == pt,
{
}

/// A point plus its negation `(x, (p - y) mod p)` is the point at infinity, for
/// every `y != 0`, over an odd modulus.
pub proof fn lemma_add_inverse(x: nat, y: nat, p: nat, a: nat)
    requires
        p % 2 == 1,
        y != 0,
    ensures
        add_spec(
            PointModel::Affine { x, y },
            PointModel::Affine { x, y: fmod(p - y, p) },
            p,
            a,
        ) == PointModel::Infinity,
{
    if y < p {
        div_mod::lemma_small_mod((p - y) as nat, p);
    }
}

/// Doubling a point with `y == 0` (a vertical tangent) gives the point at infinity.
pub proof fn lemma_double_vertical(x: nat, p: nat, a: nat)
    ensures
        add_spec(PointModel::Affine { x, y: 0 }, PointModel::Affine { x, y: 0 }, p, a)
            == PointModel::Infinity,
{
}

/// For a prime `p` and `v` in `[1, p)`, the inverse that `mod_inv` returns
/// satisfies `inverse * v mod p == 1`.
pub proof fn lemma_mod_inv_correct(v: nat, p: nat)
    requires
        number_theory::is_prime(p),
        1 <= v < p,
    ensures
        fmod((inv_spec(v, p) * v) as int, p) == 1,
{
    let pi = p as int;
    let e = (p - 2) as nat;
    let w = power::pow(v as int, e);
    div_mod::lemma_small_mod(v, p);
    number_theory::lemma_fermat(v, p);
    lemma_mod_congr(w, v as int, 0, pi);
    power::lemma_pow1(v as int);
    power::lemma_pow_adds(v as int, e, 1);
    assert(e + 1 == (p - 1) as nat);
}

/// The slope through two points with distinct `x` satisfies
/// `slope * (x2 - x1) == y2 - y1 (mod p)`; returns the quotient.
proof fn lemma_slope_solves(x1: nat, y1: nat, x2: nat, y2: nat, p: nat, a: nat) -> (k: int)
    requires
        number_theory::is_prime(p),
        x1 < p,
        x2 < p,
        x1 != x2,
    ensures
        slope(x1, y1, x2, y2, p, a) * (x2 - x1) - (y2 - y1) == p * k,
{
    let pi = p as int;
    let xd: int = x2 - x1;
    let yd: int = y2 - y1;
    let d = fmod(xd, p);
    lemma_diff_nonzero(x1, x2, p);
    let i = inv_spec(d, p) as int;
    let l = slope(x1, y1, x2, y2, p, a) as int;
    lemma_mod_inv_correct(d, p);
    let d = d as int;
    div_mod::lemma_fundamental_div_mod(xd, pi);
    div_mod::lemma_fundamental_div_mod(i * d, pi);
    div_mod::lemma_fundamental_div_mod(yd * i, pi);
    let q1 = (i * d) / pi;
    let q2 = xd / pi;
    let q3 = (yd * i) / pi;
    let t1 = yd * i * q2;
    let t2 = yd * q1;
    let t3 = q3 * xd;
    assert(l * xd == (yd * i) * xd - pi * t3) by (nonlinear_arith)
        requires
            yd * i == pi * q3 + l,
            t3 == q3 * xd,
    ;
    assert((yd * i) * xd == pi * t1 + yd * (i * d)) by (nonlinear_arith)
        requires
            xd == pi * q2 + d,
            t1 == yd * i * q2,
    ;
    assert(yd * (i * d) == pi * t2 + yd) by (nonlinear_arith)
        requires
            i * d == pi * q1 + 1,
            t2 == yd * q1,
    ;
    assert(pi * t1 + pi * t2 - pi * t3 == pi * (t1 + t2 - t3)) by (nonlinear_arith);
    yd * i * q2 + yd * q1 - q3 * xd
}

/// Every result of the group operation on reduced points is reduced.
pub proof fn lemma_add_in_field(pt: PointModel, qt: PointModel, p: nat, a: nat)
    requires
        p > 0,
        crate::curve::in_field(pt, p),
        crate::curve::in_field(qt, p),
    ensures
        crate::curve::in_field(add_spec(pt, qt, p, a), p),
{
}

/// Over a prime modulus above 2 the group operation is commutative on reduced
/// points: `P + Q == Q + P`.
pub proof fn lemma_add_commutative(pt: PointModel, qt: PointModel, p: nat, a: nat)
    requires
        number_theory::is_prime(p),
        crate::curve::in_field(pt, p),
        crate::curve::in_field(qt, p),
    ensures
        add_spec(pt, qt, p, a) == add_spec(qt, pt, p, a),
{
    if let PointModel::Affine { x: x1, y: y1 } = pt {
        if let PointModel::Affine { x: x2, y: y2 } = qt {
            if x1 != x2 {
                let pi = p as int;
                let l = slope(x1, y1, x2, y2, p, a);
                let m = slope(x2, y2, x1, y1, p, a);
                let k1 = lemma_slope_solves(x1, y1, x2, y2, p, a);
                let k2 = lemma_slope_solves(x2, y2, x1, y1, p, a);
                let xd: int = x2 - x1;
                assert((l - m) * xd == pi * (k1 + k2)) by (nonlinear_arith)
                    requires
                        l * xd - (y2 - y1) == pi * k1,
                        m * (-xd) - (y1 - y2) == pi * k2,
                ;
                let d = fmod(xd, p);
                lemma_diff_nonzero(x1, x2, p);
                div_mod::lemma_mod_multiples_basic(k1 + k2, pi);
                assert((k1 + k2) * pi == pi * (k1 + k2)) by (nonlinear_arith);
                lemma_mod_congr(xd, l - m, 0, pi);
                assert(d * (l - m) == (l - m) * d) by (nonlinear_arith);
                assert(xd * (l - m) == (l - m) * xd) by (nonlinear_arith);
                number_theory::lemma_euclid(d, l - m, p);
                div_mod::lemma_small_mod(l, p);
                div_mod::lemma_small_mod(m, p);
                if l > m {
                    div_mod::lemma_small_mod((l - m) as nat, p);
                } else if l < m {
                    div_mod::lemma_mod_add_multiples_vanish(l - m, pi);
                    div_mod::lemma_small_mod((pi + l - m) as nat, p);
                }
                assert(l == m);
                let x3 = fmod(l * l - x1 - x2, p);
                assert(x3 == fmod(l * l - x2 - x1, p));
                let u: int = l * (x1 - x3) - y1;
                let v: int = l * (x2 - x3) - y2;
                assert(v == u + pi * k1) by (nonlinear_arith)
                    requires
                        l * xd - (y2 - y1) == pi * k1,
                        xd == x2 - x1,
                        u == l * (x1 - x3) - y1,
                        v == l * (x2 - x3) - y2,
                ;
                div_mod::lemma_mod_multiples_vanish(k1, u, pi);
            }
        }
    }
}

/// `k` copies of `g` added one at a time from the identity.
pub open spec fn repeated_add(k: nat, g: PointModel, p: nat, a: nat) -> PointModel
    decreases k,
{
    if k == 0 {
        PointModel::Infinity
    } else {
        add_spec(repeated_add((k - 1) as nat, g, p, a), g, p, a)
    }
}

/// For `k <= 3`, double-and-add gives the same point as adding `g` to itself `k`
/// times, over a prime modulus above 2 and a reduced `g`.
pub proof fn lemma_scalar_mul_small(k: nat, g: PointModel, p: nat, a: nat)
    requires
        number_theory::is_prime(p),
        crate::curve::in_field(g, p),
        k <= 3,
    ensures
        crate::curve::scalar_mul(k, g, p, a) == repeated_add(k, g, p, a),
{
    let inf = PointModel::Infinity;
    let g2 = add_spec(g, g, p, a);
    let g4 = add_spec(g2, g2, p, a);
    lemma_add_identity(g, p, a);
    lemma_add_identity(g2, p, a);
    assert(repeated_add(0, g, p, a) == inf);
    assert(repeated_add(1, g, p, a) == g);
    assert(repeated_add(2, g, p, a) == g2);
    if k == 1 {
        assert(crate::curve::double_and_add(g, g2, 0, p, a) == g);
    } else if k == 2 {
        assert(crate::curve::double_and_add(inf, g2, 1, p, a) == crate::curve::double_and_add(
            g2,
            g4,
            0,
            p,
            a,
        ));
    } else if k == 3 {
        lemma_add_in_field(g, g, p, a);
        lemma_add_commutative(g, g2, p, a);
        assert(crate::curve::double_and_add(g, g2, 1, p, a) == crate::curve::double_and_add(
            add_spec(g, g2, p, a),
            g4,
            0,
            p,
            a,
        ));
    }
}

} // verus!
