//! Primes, binomial coefficients and Fermat's little theorem.
use vstd::arithmetic::div_mod;
use vstd::arithmetic::power;
use vstd::prelude::*;

verus! {

/// `p` is prime: above 1, and no number strictly between 1 and `p` divides it.
pub open spec fn is_prime(p: nat) -> bool {
    p > 1 && forall|d: nat| 1 < d < p ==> #[trigger] (p % d) != 0
}

/// The binomial coefficient `n choose k`, by Pascal's rule.
pub open spec fn binom(n: nat, k: nat) -> nat
    decreases n,
{
    if k == 0 {
        1
    } else if n == 0 {
        0
    } else {
        binom((n - 1) as nat, (k - 1) as nat) + binom((n - 1) as nat, k)
    }
}

/// The first `k + 1` terms of the binomial expansion of `(x + 1)^n`.
pub open spec fn binom_sum(n: nat, x: int, k: nat) -> int
    decreases k,
{
    if k == 0 {
        1
    } else {
        binom_sum(n, x, (k - 1) as nat) + binom(n, k) * power::pow(x, k)
    }
}

proof fn lemma_pow_succ(b: int, e: nat)
    ensures
        power::pow(b, e + 1) == b * power::pow(b, e),
{
    reveal(power::pow);
}

/// A prime that divides `a * b`, with `0 < a < p`, divides `b`.
pub proof fn lemma_euclid(a: nat, b: int, p: nat)
    requires
        is_prime(p),
        0 < a < p,
        (a * b) % (p as int) == 0,
    ensures
        b % (p as int) == 0,
    decreases a,
{
    if a == 1 {
        assert(a * b == b) by (nonlinear_arith)
            requires
                a == 1,
        ;
    } else {
        let pi = p as int;
        let ai = a as int;
        assert(p % a != 0);
        let q = pi / ai;
        let r = pi % ai;
        div_mod::lemma_fundamental_div_mod(pi, ai);
        div_mod::lemma_fundamental_div_mod(ai * b, pi);
        let t = (ai * b) / pi;
        assert(r * b == pi * (b - q * t)) by (nonlinear_arith)
            requires
                pi == ai * q + r,
                ai * b == pi * t,
        ;
        div_mod::lemma_mod_multiples_basic(b - q * t, pi);
        assert((b - q * t) * pi == pi * (b - q * t)) by (nonlinear_arith);
        lemma_euclid(r as nat, b, p);
    }
}

proof fn lemma_binom_one(n: nat)
    ensures
        binom(n, 1) == n,
    decreases n,
{
    if n > 0 {
        lemma_binom_one((n - 1) as nat);
        assert(binom((n - 1) as nat, 0) == 1);
    }
}

proof fn lemma_binom_above(n: nat, k: nat)
    requires
        k > n,
    ensures
        binom(n, k) == 0,
    decreases n,
{
    if n > 0 {
        lemma_binom_above((n - 1) as nat, (k - 1) as nat);
        lemma_binom_above((n - 1) as nat, k);
    }
}

proof fn lemma_binom_all(n: nat)
    ensures
        binom(n, n) == 1,
    decreases n,
{
    if n > 0 {
        lemma_binom_all((n - 1) as nat);
        lemma_binom_above((n - 1) as nat, n);
    }
}

/// `k * (n choose k) == n * ((n - 1) choose (k - 1))`.
proof fn lemma_binom_absorb(n: nat, k: nat)
    requires
        n >= 1,
        k >= 1,
    ensures
        k * binom(n, k) == n * binom((n - 1) as nat, (k - 1) as nat),
    decreases n,
{
    if k == 1 {
        lemma_binom_one(n);
        assert(binom((n - 1) as nat, 0) == 1);
        assert(k * binom(n, k) == n * binom((n - 1) as nat, (k - 1) as nat)) by (nonlinear_arith)
            requires
                k == 1,
                binom(n, k) == n,
                binom((n - 1) as nat, (k - 1) as nat) == 1,
        ;
    } else if n == 1 {
        assert(binom(0, (k - 1) as nat) == 0);
        assert(binom(0, k) == 0);
        assert(binom(1, k) == binom(0, (k - 1) as nat) + binom(0, k));
        assert(k * binom(n, k) == 0 && n * binom((n - 1) as nat, (k - 1) as nat) == 0)
            by (nonlinear_arith)
            requires
                binom(n, k) == 0,
                binom((n - 1) as nat, (k - 1) as nat) == 0,
        ;
    } else {
        let n1 = (n - 1) as nat;
        let n2 = (n - 2) as nat;
        let k1 = (k - 1) as nat;
        let k2 = (k - 2) as nat;
        lemma_binom_absorb(n1, k1);
        lemma_binom_absorb(n1, k);
        assert(binom(n, k) == binom(n1, k1) + binom(n1, k));
        assert(binom(n1, k1) == binom(n2, k2) + binom(n2, k1));
        let c11 = binom(n1, k1);
        let c1k = binom(n1, k);
        let c22 = binom(n2, k2);
        let c21 = binom(n2, k1);
        assert(k * (c11 + c1k) == n * c11) by (nonlinear_arith)
            requires
                k1 * c11 == n1 * c22,
                k * c1k == n1 * c21,
                c11 == c22 + c21,
                k1 + 1 == k,
                n1 + 1 == n,
        ;
    }
}

/// A prime `p` divides `p choose k` for `0 < k < p`; returns the quotient.
proof fn lemma_prime_divides_binom(p: nat, k: nat) -> (m: int)
    requires
        is_prime(p),
        0 < k < p,
    ensures
        binom(p, k) == p * m,
{
    let pi = p as int;
    let c = binom(p, k) as int;
    lemma_binom_absorb(p, k);
    let d = binom((p - 1) as nat, (k - 1) as nat) as int;
    assert(k * c == pi * d);
    div_mod::lemma_mod_multiples_basic(d, pi);
    assert(d * pi == pi * d) by (nonlinear_arith);
    lemma_euclid(k, c, p);
    div_mod::lemma_fundamental_div_mod(c, pi);
    c / pi
}

/// Pascal's rule, summed: the expansion for `n + 1` is that for `n` plus `x`
/// times that for `n` with one term fewer.
proof fn lemma_binom_sum_step(n: nat, x: int, k: nat)
    requires
        k >= 1,
    ensures
        binom_sum(n + 1, x, k) == binom_sum(n, x, k) + x * binom_sum(n, x, (k - 1) as nat),
    decreases k,
{
    let k1 = (k - 1) as nat;
    lemma_pow_succ(x, k1);
    if k == 1 {
        lemma_binom_one(n);
        lemma_binom_one(n + 1);
        reveal(power::pow);
        assert(power::pow(x, 1) == x);
        assert(binom_sum(n + 1, x, 0) == 1);
        assert(binom_sum(n, x, 0) == 1);
        assert(binom_sum(n + 1, x, 1) == 1 + (n + 1) * x);
        assert(binom_sum(n, x, 1) == 1 + n * x);
        assert((n + 1) * x == n * x + x) by (nonlinear_arith);
    } else {
        lemma_binom_sum_step(n, x, k1);
        let k2 = (k - 2) as nat;
        let s = binom_sum(n, x, k2);
        let a = binom(n, k1);
        let b = binom(n, k);
        let xk1 = power::pow(x, k1);
        assert(binom(n + 1, k) == a + b);
        assert(binom_sum(n, x, k1) == s + a * xk1);
        assert(x * (s + a * xk1) == x * s + a * (x * xk1)) by (nonlinear_arith);
        assert((a + b) * (x * xk1) == a * (x * xk1) + b * (x * xk1)) by (nonlinear_arith);
        assert(binom_sum(n + 1, x, k) == binom_sum(n + 1, x, k1) + (a + b) * power::pow(x, k));
        assert(binom_sum(n + 1, x, k1) == binom_sum(n, x, k1) + x * s);
        assert(binom_sum(n, x, k) == binom_sum(n, x, k1) + b * power::pow(x, k));
    }
}

/// The binomial theorem for `(x + 1)^n`.
proof fn lemma_binomial(n: nat, x: int)
    ensures
        power::pow(x + 1, n) == binom_sum(n, x, n),
    decreases n,
{
    reveal(power::pow);
    if n > 0 {
        let n1 = (n - 1) as nat;
        lemma_binomial(n1, x);
        lemma_binom_sum_step(n1, x, n);
        lemma_binom_above(n1, n);
        lemma_pow_succ(x + 1, n1);
        let s = binom_sum(n1, x, n1);
        assert((x + 1) * s == s + x * s) by (nonlinear_arith);
    }
}

/// The middle terms of the expansion of `(x + 1)^p` are multiples of `p`:
/// returns `c` with `binom_sum(p, x, k) == 1 + p * c`.
proof fn lemma_middle_terms(p: nat, x: int, k: nat) -> (c: int)
    requires
        is_prime(p),
        k < p,
    ensures
        binom_sum(p, x, k) == 1 + p * c,
    decreases k,
{
    if k == 0 {
        0
    } else {
        let c0 = lemma_middle_terms(p, x, (k - 1) as nat);
        let m = lemma_prime_divides_binom(p, k);
        let xk = power::pow(x, k);
        assert(p * m * xk == p * (m * xk)) by (nonlinear_arith);
        assert(p * c0 + p * (m * xk) == p * (c0 + m * xk)) by (nonlinear_arith);
        c0 + m * xk
    }
}

/// `x^p - x` is a multiple of a prime `p`; returns the quotient.
proof fn lemma_pow_prime(p: nat, x: nat) -> (c: int)
    requires
        is_prime(p),
    ensures
        power::pow(x as int, p) - x == p * c,
    decreases x,
{
    if x == 0 {
        reveal(power::pow);
        lemma_pow_succ(0, (p - 1) as nat);
        0
    } else {
        let x0 = (x - 1) as nat;
        let c0 = lemma_pow_prime(p, x0);
        lemma_binomial(p, x0 as int);
        let c1 = lemma_middle_terms(p, x0 as int, (p - 1) as nat);
        lemma_binom_all(p);
        reveal(power::pow);
        assert(p * c1 + p * c0 == p * (c1 + c0)) by (nonlinear_arith);
        c1 + c0
    }
}

/// Fermat's little theorem: `v^(p-1) mod p == 1` for a prime `p` not dividing `v`.
pub proof fn lemma_fermat(v: nat, p: nat)
    requires
        is_prime(p),
        v % p != 0,
    ensures
        power::pow(v as int, (p - 1) as nat) % (p as int) == 1,
{
    let pi = p as int;
    let e = (p - 1) as nat;
    let w = power::pow(v as int, e) - 1;
    let c = lemma_pow_prime(p, v);
    lemma_pow_succ(v as int, e);
    assert(v * w == pi * c) by (nonlinear_arith)
        requires
            power::pow(v as int, p) == v * power::pow(v as int, e),
            power::pow(v as int, p) - v == pi * c,
            w == power::pow(v as int, e) - 1,
            e + 1 == p,
    ;
    let a = v % p;
    div_mod::lemma_mod_multiples_basic(c, pi);
    assert(c * pi == pi * c) by (nonlinear_arith);
    lemma_mul_mod_left(v as int, w, pi);
    lemma_euclid(a, w, p);
    div_mod::lemma_fundamental_div_mod(w, pi);
    div_mod::lemma_mod_add_multiples_vanish(w, pi);
    div_mod::lemma_small_mod(1, p);
    div_mod::lemma_fundamental_div_mod_converse_mod(w + 1, pi, w / pi, 1);
}

proof fn lemma_mul_mod_left(u: int, w: int, p: int)
    requires
        p > 0,
    ensures
        ((u % p) * w) % p == (u * w) % p,
{
    div_mod::lemma_mul_mod_noop_left(u, w, p);
}

} // verus!
