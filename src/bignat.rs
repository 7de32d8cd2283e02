//! Arbitrary-precision natural numbers.
//!
//! A `BigNat` holds its value as little-endian base 2^32 limbs. The arithmetic
//! itself is carried out by `num_bigint::BigUint`; each operation below converts
//! the limbs to a `BigUint`, makes one call, and converts the result back.
use num_bigint::{BigUint, RandBigInt};
use vstd::arithmetic::power;
use vstd::prelude::*;

verus! {

/// The value of little-endian base 2^32 limbs.
pub open spec fn limbs_value(s: Seq<u32>) -> nat
    decreases s.len(),
{
    if s.len() == 0 {
        0
    } else {
        s[0] as nat + 0x1_0000_0000 * limbs_value(s.drop_first())
    }
}

/// An arbitrary-precision natural number; its view is its value.
#[derive(Debug)]
pub struct BigNat {
    limbs: Vec<u32>,
}

impl View for BigNat {
    type V = nat;

    closed spec fn view(&self) -> nat {
        limbs_value(self.limbs@)
    }
}

impl Clone for BigNat {
    fn clone(&self) -> (r: Self)
        ensures
            r@ == self@,
    {
        let limbs = self.limbs.clone();
        proof {
            assert(limbs@ =~= self.limbs@);
        }
        BigNat { limbs }
    }
}

impl BigNat {
    /// Builds a number from little-endian base 2^32 limbs.
    pub fn from_limbs(limbs: Vec<u32>) -> (r: BigNat)
        ensures
            r@ == limbs_value(limbs@),
    {
        BigNat { limbs }
    }

    /// Builds a number from a machine integer.
    pub fn from_u64(v: u64) -> (r: BigNat)
        ensures
            r@ == v,
    {
        let lo: u32 = (v % 0x1_0000_0000) as u32;
        let hi: u32 = (v / 0x1_0000_0000) as u32;
        let limbs = vec![lo, hi];
        proof {
            let rest = limbs@.drop_first();
            assert(rest.drop_first() =~= Seq::<u32>::empty());
            assert(limbs_value(rest.drop_first()) == 0);
            assert(rest[0] == hi);
            assert(limbs_value(rest) == hi as nat);
        }
        BigNat { limbs }
    }

    /// The number zero.
    pub fn zero() -> (r: BigNat)
        ensures
            r@ == 0,
    {
        let limbs: Vec<u32> = Vec::new();
        BigNat { limbs }
    }

    /// The limbs of this number, least significant first.
    pub fn limbs(&self) -> (r: Vec<u32>)
        ensures
            limbs_value(r@) == self@,
    {
        let r = self.limbs.clone();
        proof {
            assert(r@ =~= self.limbs@);
        }
        r
    }

    /// Sum of two numbers.
    pub fn plus(&self, other: &BigNat) -> (r: BigNat)
        ensures
            r@ == self@ + other@,
    {
        big_add(self, other)
    }

    /// Difference of two numbers; `other` must not exceed `self`.
    pub fn minus(&self, other: &BigNat) -> (r: BigNat)
        requires
            other@ <= self@,
        ensures
            r@ == self@ - other@,
    {
        big_sub(self, other)
    }

    /// Product of two numbers.
    pub fn times(&self, other: &BigNat) -> (r: BigNat)
        ensures
            r@ == self@ * other@,
    {
        big_mul(self, other)
    }

    /// Remainder of the division by a non-zero number.
    pub fn modulo(&self, m: &BigNat) -> (r: BigNat)
        requires
            m@ > 0,
        ensures
            r@ == self@ % m@,
    {
        big_rem(self, m)
    }

    /// `self` raised to `exponent`, modulo a non-zero `modulus`.
    pub fn pow_mod(&self, exponent: &BigNat, modulus: &BigNat) -> (r: BigNat)
        requires
            modulus@ > 0,
        ensures
            r@ == power::pow(self@ as int, exponent@) % (modulus@ as int),
    {
        big_modpow(self, exponent, modulus)
    }

    /// Whether both numbers have the same value.
    pub fn equals(&self, other: &BigNat) -> (r: bool)
        ensures
            r == (self@ == other@),
    {
        match big_cmp(self, other) {
            std::cmp::Ordering::Equal => true,
            _ => false,
        }
    }

    /// Whether `self` is strictly smaller than `other`.
    pub fn less_than(&self, other: &BigNat) -> (r: bool)
        ensures
            r == (self@ < other@),
    {
        match big_cmp(self, other) {
            std::cmp::Ordering::Less => true,
            _ => false,
        }
    }

    /// Whether this number is zero.
    pub fn is_zero(&self) -> (r: bool)
        ensures
            r == (self@ == 0),
    {
        let z = BigNat::zero();
        self.equals(&z)
    }
}

impl PartialEq for BigNat {
    fn eq(&self, other: &BigNat) -> (r: bool) {
        self.equals(other)
    }
}

impl vstd::std_specs::cmp::PartialEqSpecImpl for BigNat {
    open spec fn obeys_eq_spec() -> bool {
        true
    }

    open spec fn eq_spec(&self, other: &BigNat) -> bool {
        self@ == other@
    }
}

impl PartialOrd for BigNat {
    fn partial_cmp(&self, other: &BigNat) -> (r: Option<std::cmp::Ordering>) {
        Some(big_cmp(self, other))
    }
}

impl vstd::std_specs::cmp::PartialOrdSpecImpl for BigNat {
    open spec fn obeys_partial_cmp_spec() -> bool {
        true
    }

    open spec fn partial_cmp_spec(&self, other: &BigNat) -> Option<std::cmp::Ordering> {
        if self@ < other@ {
            Some(std::cmp::Ordering::Less)
        } else if self@ == other@ {
            Some(std::cmp::Ordering::Equal)
        } else {
            Some(std::cmp::Ordering::Greater)
        }
    }
}

/// Relies on `BigUint::new` (value of little-endian u32 digits), `BigUint + BigUint`
/// and `BigUint::to_u32_digits` (little-endian u32 digits of the value).
#[verifier::external_body]
fn big_add(a: &BigNat, b: &BigNat) -> (r: BigNat)
    ensures
        r@ == a@ + b@,
{
    let s = BigUint::new(a.limbs.clone()) + BigUint::new(b.limbs.clone());
    BigNat { limbs: s.to_u32_digits() }
}

/// Relies on `BigUint - BigUint`, which panics when `b` exceeds `a`; digits are
/// converted as for `big_add`.
#[verifier::external_body]
fn big_sub(a: &BigNat, b: &BigNat) -> (r: BigNat)
    requires
        b@ <= a@,
    ensures
        r@ == a@ - b@,
{
    let d = BigUint::new(a.limbs.clone()) - BigUint::new(b.limbs.clone());
    BigNat { limbs: d.to_u32_digits() }
}

/// Relies on `BigUint * BigUint`; digits are converted as for `big_add`.
#[verifier::external_body]
fn big_mul(a: &BigNat, b: &BigNat) -> (r: BigNat)
    ensures
        r@ == a@ * b@,
{
    let p = BigUint::new(a.limbs.clone()) * BigUint::new(b.limbs.clone());
    BigNat { limbs: p.to_u32_digits() }
}

/// Relies on `BigUint % BigUint`, which panics on a zero divisor; digits are
/// converted as for `big_add`.
#[verifier::external_body]
fn big_rem(a: &BigNat, m: &BigNat) -> (r: BigNat)
    requires
        m@ > 0,
    ensures
        r@ == a@ % m@,
{
    let q = BigUint::new(a.limbs.clone()) % BigUint::new(m.limbs.clone());
    BigNat { limbs: q.to_u32_digits() }
}

/// Relies on `BigUint::modpow`: `(base ^ exponent) % modulus`, panicking on a zero
/// modulus; digits are converted as for `big_add`.
#[verifier::external_body]
fn big_modpow(base: &BigNat, exponent: &BigNat, modulus: &BigNat) -> (r: BigNat)
    requires
        modulus@ > 0,
    ensures
        r@ == power::pow(base@ as int, exponent@) % (modulus@ as int),
{
    let b = BigUint::new(base.limbs.clone());
    let e = BigUint::new(exponent.limbs.clone());
    let m = BigUint::new(modulus.limbs.clone());
    BigNat { limbs: b.modpow(&e, &m).to_u32_digits() }
}

/// Relies on `Ord::cmp` of `BigUint`, which orders by value.
#[verifier::external_body]
fn big_cmp(a: &BigNat, b: &BigNat) -> (r: std::cmp::Ordering)
    ensures
        (r == std::cmp::Ordering::Less) == (a@ < b@),
        (r == std::cmp::Ordering::Equal) == (a@ == b@),
        (r == std::cmp::Ordering::Greater) == (a@ > b@),
{
    BigUint::new(a.limbs.clone()).cmp(&BigUint::new(b.limbs.clone()))
}

/// Relies on `BigUint::bits`: the fewest bits that express the value.
#[verifier::external_body]
pub(crate) fn big_bits(a: &BigNat) -> (r: u64)
    ensures
        a@ < power::pow(2, r as nat),
        r > 0 ==> power::pow(2, (r - 1) as nat) <= a@,
{
    BigUint::new(a.limbs.clone()).bits()
}

/// Relies on `BigUint::bit`: whether bit `i` of the value is set.
#[verifier::external_body]
pub(crate) fn big_bit(a: &BigNat, i: u64) -> (r: bool)
    ensures
        r == ((a@ as int / power::pow(2, i as nat)) % 2 == 1),
{
    BigUint::new(a.limbs.clone()).bit(i)
}

/// The thread-local random generator of `rand`.
#[verifier::external_type_specification]
#[verifier::external_body]
pub struct ExThreadRng(rand::rngs::ThreadRng);

/// Relies on `rand::thread_rng`, which hands out the thread-local generator.
pub assume_specification[ rand::thread_rng ]() -> rand::rngs::ThreadRng;

/// Relies on `RandBigInt::gen_biguint_range`, which draws from `[low, high)` and
/// panics unless `low < high`; digits are converted as for `big_add`.
#[verifier::external_body]
pub(crate) fn random_in_range(rng: &mut rand::rngs::ThreadRng, low: &BigNat, high: &BigNat) -> (r: BigNat)
    requires
        low@ < high@,
    ensures
        low@ <= r@ < high@,
{
    let lo = BigUint::new(low.limbs.clone());
    let hi = BigUint::new(high.limbs.clone());
    BigNat { limbs: rng.gen_biguint_range(&lo, &hi).to_u32_digits() }
}

} // verus!
