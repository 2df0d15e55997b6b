//! Facts about congruences and powers that the field and limb proofs share.

use vstd::arithmetic::div_mod::*;
use vstd::arithmetic::mul::*;
use vstd::arithmetic::power::*;
use vstd::prelude::*;

verus! {

/// `a` and `b` leave the same remainder modulo `m`.
pub open spec fn congruent(a: int, b: int, m: int) -> bool {
    (a - b) % m == 0
}

/// Congruence is equality of remainders.
pub proof fn lemma_congruent_mod(a: int, b: int, m: int)
    requires
        m > 0,
    ensures
        congruent(a, b, m) <==> a % m == b % m,
{
    lemma_mod_equivalence(a, b, m);
}

/// A difference that is a known multiple of the modulus is a congruence.
pub proof fn lemma_congruent_by(a: int, b: int, k: int, m: int)
    requires
        m > 0,
        a - b == k * m,
    ensures
        congruent(a, b, m),
        a % m == b % m,
{
    lemma_mod_multiples_basic(k, m);
    lemma_congruent_mod(a, b, m);
}

/// A congruence names the multiple of the modulus between its two sides.
pub proof fn lemma_congruent_witness(a: int, b: int, m: int) -> (k: int)
    requires
        m > 0,
        a % m == b % m,
    ensures
        a - b == k * m,
{
    lemma_fundamental_div_mod(a, m);
    lemma_fundamental_div_mod(b, m);
    let k = a / m - b / m;
    assert(k * m == m * (a / m) - m * (b / m)) by (nonlinear_arith)
        requires
            k == a / m - b / m,
    ;
    k
}

/// Congruent factors give congruent products.
pub proof fn lemma_mul_congruent(a: int, b: int, c: int, d: int, m: int)
    requires
        m > 0,
        a % m == b % m,
        c % m == d % m,
    ensures
        (a * c) % m == (b * d) % m,
{
    lemma_mul_mod_noop(a, c, m);
    lemma_mul_mod_noop(b, d, m);
}

/// Congruent summands give congruent sums.
pub proof fn lemma_add_congruent(a: int, b: int, c: int, d: int, m: int)
    requires
        m > 0,
        a % m == b % m,
        c % m == d % m,
    ensures
        (a + c) % m == (b + d) % m,
{
    lemma_add_mod_noop(a, c, m);
    lemma_add_mod_noop(b, d, m);
}

/// Congruent operands give congruent differences.
pub proof fn lemma_sub_congruent(a: int, b: int, c: int, d: int, m: int)
    requires
        m > 0,
        a % m == b % m,
        c % m == d % m,
    ensures
        (a - c) % m == (b - d) % m,
{
    lemma_sub_mod_noop(a, c, m);
    lemma_sub_mod_noop(b, d, m);
}

/// Two factors that are each invertible modulo `m` cancel on both sides of a
/// congruence of products.
pub proof fn lemma_cancel(a: int, b: int, c: int, c_inv: int, m: int)
    requires
        m > 1,
        (c * c_inv) % m == 1,
        (a * c) % m == (b * c) % m,
    ensures
        a % m == b % m,
{
    lemma_mul_congruent(a * c, b * c, c_inv, c_inv, m);
    lemma_small_mod(1, m as nat);
    lemma_mul_congruent(a, a, c * c_inv, 1, m);
    lemma_mul_congruent(b, b, c * c_inv, 1, m);
    assert(a * c * c_inv == a * (c * c_inv)) by (nonlinear_arith);
    assert(b * c * c_inv == b * (c * c_inv)) by (nonlinear_arith);
}

/// A divisor of `m` inherits every congruence modulo `m`.
pub proof fn lemma_mod_of_divisor(a: int, b: int, m: int, d: int)
    requires
        d > 0,
        m > 0,
        m % d == 0,
        a % m == b % m,
    ensures
        a % d == b % d,
{
    let k = lemma_congruent_witness(a, b, m);
    lemma_fundamental_div_mod(m, d);
    let q = m / d;
    assert(a - b == (k * q) * d) by (nonlinear_arith)
        requires
            a - b == k * m,
            m == d * q,
    ;
    lemma_congruent_by(a, b, k * q, d);
}

} // verus!
