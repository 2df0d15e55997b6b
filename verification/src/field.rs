//! The base field of BLS12-377 as a mathematical object: the integers below a prime
//! modulus under addition and multiplication modulo it.

use crate::arith::{lemma_add_congruent, lemma_cancel, lemma_sub_congruent};
use crate::certificate::lemma_prime_modulus;
use crate::prime::{is_prime, lemma_prime_inverse, lemma_prime_no_zero_divisors};
use vstd::arithmetic::div_mod::*;
use vstd::arithmetic::mul::*;
use vstd::prelude::*;

verus! {

/// The base-field modulus.
#[verifier::opaque]
pub open spec fn modulus() -> int {
    0x1ae3a4617c510eac63b05c06ca1493b1a22d9f300f5138f1ef3622fba094800170b5d44300000008508c00000000001int
}

/// `a` is a field element.
pub open spec fn is_element(a: int) -> bool {
    0 <= a < modulus()
}

/// The sum of two field elements.
pub open spec fn fadd(a: int, b: int) -> int {
    (a + b) % modulus()
}

/// The difference of two field elements.
pub open spec fn fsub(a: int, b: int) -> int {
    (a - b) % modulus()
}

/// The product of two field elements.
pub open spec fn fmul(a: int, b: int) -> int {
    (a * b) % modulus()
}

/// The multiplicative inverse of a nonzero field element.
pub open spec fn finv(a: int) -> int {
    choose|b: int| is_element(b) && #[trigger] fmul(a, b) == 1
}

/// The quotient of two field elements, the second one nonzero.
pub open spec fn fdiv(a: int, b: int) -> int {
    fmul(a, finv(b))
}

/// The modulus is an odd prime of 377 bits.
pub proof fn lemma_modulus()
    ensures
        is_prime(modulus()),
        modulus() > 0x1ae3a4617c510eac63b05c06ca1493b00000000000000000000000000000000000000000000000000000000000000int,
        modulus() > 3,
        modulus() % 2 == 1,
{
    reveal(modulus);
    lemma_prime_modulus();
}

/// The field operations return field elements.
pub proof fn lemma_closed(a: int, b: int)
    ensures
        is_element(fadd(a, b)),
        is_element(fsub(a, b)),
        is_element(fmul(a, b)),
{
    lemma_modulus();
    lemma_mod_bound(a + b, modulus());
    lemma_mod_bound(a - b, modulus());
    lemma_mod_bound(a * b, modulus());
}

/// A field element is its own remainder.
pub proof fn lemma_element(a: int)
    requires
        is_element(a),
    ensures
        a % modulus() == a,
{
    lemma_small_mod(a as nat, modulus() as nat);
}

/// Multiplication is commutative.
pub proof fn lemma_fmul_commutes(a: int, b: int)
    ensures
        fmul(a, b) == fmul(b, a),
{
    lemma_mul_is_commutative(a, b);
}

/// Multiplication is associative.
pub proof fn lemma_fmul_associates(a: int, b: int, c: int)
    ensures
        fmul(fmul(a, b), c) == fmul(a, fmul(b, c)),
        fmul(fmul(a, b), c) == (a * b * c) % modulus(),
{
    let m = modulus();
    lemma_modulus();
    lemma_mul_mod_noop_left(a * b, c, m);
    lemma_mul_mod_noop_right(a, b * c, m);
    lemma_mul_is_associative(a, b, c);
}

/// One is neutral.
pub proof fn lemma_fmul_one(a: int)
    requires
        is_element(a),
    ensures
        fmul(a, 1) == a,
        fmul(1, a) == a,
{
    lemma_element(a);
}

/// A nonzero element times its inverse is one.
pub proof fn lemma_finv(a: int)
    requires
        is_element(a),
        a != 0,
    ensures
        is_element(finv(a)),
        fmul(a, finv(a)) == 1,
        finv(a) != 0,
{
    lemma_modulus();
    lemma_element(a);
    let b = lemma_prime_inverse(a, modulus());
    assert(is_element(b) && fmul(a, b) == 1);
    if finv(a) == 0 {
        lemma_mul_basics(a);
        lemma_small_mod(0, modulus() as nat);
    }
}

/// An equation of products determines the cofactor of a nonzero element.
pub proof fn lemma_fmul_cancel(a: int, b: int, c: int)
    requires
        is_element(a),
        is_element(b),
        is_element(c),
        c != 0,
        fmul(a, c) == fmul(b, c),
    ensures
        a == b,
{
    lemma_modulus();
    lemma_finv(c);
    lemma_cancel(a, b, c, finv(c), modulus());
    lemma_element(a);
    lemma_element(b);
}

/// A quotient is what times the divisor gives the dividend.
pub proof fn lemma_fdiv_unique(q: int, a: int, b: int)
    requires
        is_element(q),
        is_element(a),
        is_element(b),
        b != 0,
        fmul(q, b) == a,
    ensures
        q == fdiv(a, b),
{
    lemma_finv(b);
    lemma_closed(a, finv(b));
    lemma_fmul_associates(a, finv(b), b);
    lemma_fmul_commutes(finv(b), b);
    lemma_fmul_one(a);
    lemma_fmul_cancel(q, fdiv(a, b), b);
}

/// A quotient times its divisor is the dividend.
pub proof fn lemma_fdiv(a: int, b: int)
    requires
        is_element(a),
        is_element(b),
        b != 0,
    ensures
        is_element(fdiv(a, b)),
        fmul(fdiv(a, b), b) == a,
{
    lemma_finv(b);
    lemma_closed(a, finv(b));
    lemma_fmul_associates(a, finv(b), b);
    lemma_fmul_commutes(finv(b), b);
    lemma_fmul_one(a);
}

/// A product of nonzero elements is nonzero.
pub proof fn lemma_fmul_nonzero(a: int, b: int)
    requires
        is_element(a),
        is_element(b),
        a != 0,
        b != 0,
    ensures
        fmul(a, b) != 0,
{
    lemma_modulus();
    if fmul(a, b) == 0 {
        lemma_prime_no_zero_divisors(a, b, modulus());
        lemma_element(a);
        lemma_element(b);
    }
}

/// A difference vanishes only between equal elements.
pub proof fn lemma_fsub_zero(a: int, b: int)
    requires
        is_element(a),
        is_element(b),
    ensures
        fsub(a, b) == 0 <==> a == b,
{
    lemma_modulus();
    lemma_element(a);
    lemma_element(b);
    lemma_mod_equivalence(a, b, modulus());
}

/// Subtracting what was added gives back what was there, and the other way round.
pub proof fn lemma_fsub_undoes_fadd(a: int, b: int)
    requires
        is_element(a),
    ensures
        fsub(fadd(a, b), b) == a,
        fadd(fsub(a, b), b) == a,
{
    let m = modulus();
    lemma_modulus();
    lemma_element(a);
    lemma_mod_twice(a + b, m);
    lemma_mod_twice(a - b, m);
    lemma_sub_congruent(fadd(a, b), a + b, b, b, m);
    lemma_add_congruent(fsub(a, b), a - b, b, b, m);
}

/// Doubling a nonzero element does not give zero.
pub proof fn lemma_double_nonzero(a: int)
    requires
        is_element(a),
        a != 0,
    ensures
        fadd(a, a) != 0,
{
    lemma_modulus();
    let m = modulus();
    if fadd(a, a) == 0 {
        lemma_fundamental_div_mod(a + a, m);
        let q = (a + a) / m;
        assert(q == 1) by (nonlinear_arith)
            requires
                a + a == m * q,
                0 < a < m,
        ;
        assert(m == a + a);
    }
}

} // verus!
