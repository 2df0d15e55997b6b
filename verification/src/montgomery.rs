//! The arithmetic behind Montgomery multiplication, for any radix.

use crate::arith::{lemma_cancel, lemma_congruent_by, lemma_mul_congruent};
use crate::field::{lemma_modulus, modulus};
use crate::limbs::{lemma_weight_positive, weight};
use vstd::arithmetic::div_mod::*;
use vstd::arithmetic::mul::*;
use vstd::prelude::*;

verus! {

/// What a Montgomery product of two limb vectors stands for is the product of what
/// they stand for.
pub proof fn lemma_decode_mul(a: int, b: int, c: int, r: int, r_inv: int, p: int)
    requires
        p > 1,
        (r * r_inv) % p == 1,
        (c * r) % p == (a * b) % p,
    ensures
        (c * r_inv) % p == (((a * r_inv) % p) * ((b * r_inv) % p)) % p,
{
    let x = c * r_inv;
    let y = a * r_inv * (b * r_inv);
    lemma_mul_mod_noop_general(a * r_inv, b * r_inv, p);
    lemma_small_mod(1, p as nat);
    // Both sides agree once multiplied by `r`.
    lemma_mul_congruent(c * r, a * b, r_inv, r_inv, p);
    lemma_mul_congruent(r * r_inv, 1, a * b * r_inv, a * b * r_inv, p);
    assert(x * r == c * r * r_inv) by (nonlinear_arith)
        requires
            x == c * r_inv,
    ;
    assert(y * r == r * r_inv * (a * b * r_inv)) by (nonlinear_arith)
        requires
            y == a * r_inv * (b * r_inv),
    ;
    lemma_cancel(x, y, r, r_inv, p);
}

/// What a sum or a difference stands for is the sum or the difference of what the
/// operands stand for.
pub proof fn lemma_decode_linear(a: int, b: int, r_inv: int, p: int)
    requires
        p > 1,
    ensures
        (((a + b) % p) * r_inv) % p == ((a * r_inv) % p + (b * r_inv) % p) % p,
        (((a - b) % p) * r_inv) % p == ((a * r_inv) % p - (b * r_inv) % p) % p,
{
    lemma_mul_mod_noop_left(a + b, r_inv, p);
    lemma_mul_mod_noop_left(a - b, r_inv, p);
    lemma_mul_is_distributive_add_other_way(r_inv, a, b);
    lemma_mul_is_distributive_sub_other_way(r_inv, a, b);
    lemma_add_mod_noop(a * r_inv, b * r_inv, p);
    lemma_sub_mod_noop(a * r_inv, b * r_inv, p);
}

/// The multiplier that clears the lowest limb: with `n0 * p0 = -1` modulo the radix,
/// `t + m p0` is a multiple of it.
pub proof fn lemma_clearing(w: int, n0: int, p0: int, t: int, m: int)
    requires
        w > 0,
        (n0 * p0 + 1) % w == 0,
        m == (t * n0) % w,
    ensures
        (t + m * p0) % w == 0,
{
    lemma_small_mod(0, w as nat);
    lemma_mod_twice(t * n0, w);
    lemma_mul_congruent(m, t * n0, p0, p0, w);
    lemma_fundamental_div_mod(n0 * p0 + 1, w);
    let k = (n0 * p0 + 1) / w;
    assert(t + t * n0 * p0 == (t * k) * w) by (nonlinear_arith)
        requires
            n0 * p0 + 1 == w * k,
    ;
    lemma_congruent_by(t + t * n0 * p0, 0, t * k, w);
    lemma_add_mod_noop(t, m * p0, w);
    lemma_add_mod_noop(t, t * n0 * p0, w);
}

/// One round of the multiplication on the integers that the accumulators stand for.
pub proof fn lemma_round(w: int, cap: int, i: nat, t: int, a: int, b: int, bi: int, k: int, m: int, next: int)
    requires
        t * weight(w, i) == a * b + k * modulus(),
        0 <= k < weight(w, i),
        0 <= m < w,
        0 <= bi < w,
        0 <= b < weight(w, i),
        0 <= a < cap,
        w > 0,
        next * w == t + a * bi + modulus() * m,
    ensures
        next * weight(w, i + 1) == a * (b + bi * weight(w, i)) + (k + m * weight(
            w,
            i,
        )) * modulus(),
        0 <= k + m * weight(w, i) < weight(w, i + 1),
        next < cap + modulus(),
{
    let r = weight(w, i);
    let p = modulus();
    lemma_modulus();
    lemma_weight_positive(w, i);
    assert(weight(w, i + 1) == w * r);
    assert(next * (w * r) == (next * w) * r) by (nonlinear_arith);
    assert((t + a * bi + p * m) * r == t * r + a * (bi * r) + (m * r) * p) by (nonlinear_arith);
    assert(a * (b + bi * r) == a * b + a * (bi * r)) by (nonlinear_arith);
    assert((k + m * r) * p == k * p + (m * r) * p) by (nonlinear_arith);
    assert(0 <= m * r && m * r + r <= w * r) by (nonlinear_arith)
        requires
            0 <= m < w,
            r > 0,
    ;
    let b2 = b + bi * r;
    let k2 = k + m * r;
    assert(0 <= bi * r && bi * r + r <= w * r) by (nonlinear_arith)
        requires
            0 <= bi < w,
            r > 0,
    ;
    let r2 = w * r;
    assert(a * b2 <= cap * b2 && cap * b2 <= cap * r2 && k2 * p < r2 * p) by (nonlinear_arith)
        requires
            0 <= a < cap,
            0 <= b2 < r2,
            0 <= k2 < r2,
            p > 0,
    ;
    assert(next < cap + p) by (nonlinear_arith)
        requires
            next * r2 < cap * r2 + r2 * p,
            r2 > 0,
    ;
}

} // verus!
