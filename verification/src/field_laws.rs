//! What limbs, elements and sums of points stand for, in plain numbers.

use crate::arith::lemma_mul_congruent;
use crate::curve::{ec_add, is_point, summable, G1Affine, Point};
use crate::domain::decode_raw;
use crate::field::{fadd, fmul, fsub, is_element, lemma_closed, lemma_modulus, modulus};
use crate::fq::{lemma_r384, lemma_value_6, r384, r384_inv, val64, Fq};
use crate::group::lemma_sum_slope;
use crate::ifma::{
    canonical, decode, lemma_r416, lemma_value_8, lemma_weights, limbs_ok, r416, r416_inv, val,
};
use vstd::arithmetic::div_mod::*;
use vstd::arithmetic::mul::*;
use vstd::prelude::*;

verus! {

/// The modulus of the BLS12-377 base field.
pub proof fn lemma_modulus_value()
    ensures
        modulus() == 0x1ae3a4617c510eac63b05c06ca1493b1a22d9f300f5138f1ef3622fba094800170b5d44300000008508c00000000001int,
{
    reveal(modulus);
}

/// Sums, differences and products of field elements are field elements, and differ from those
/// of the integers by multiples of the modulus.
pub proof fn lemma_field_operations(a: int, b: int)
    ensures
        0 <= fadd(a, b) < modulus() && (fadd(a, b) - (a + b)) % modulus() == 0,
        0 <= fsub(a, b) < modulus() && (fsub(a, b) - (a - b)) % modulus() == 0,
        0 <= fmul(a, b) < modulus() && (fmul(a, b) - a * b) % modulus() == 0,
{
    let m = modulus();
    lemma_modulus();
    lemma_closed(a, b);
    lemma_mod_twice(a + b, m);
    lemma_mod_twice(a - b, m);
    lemma_mod_twice(a * b, m);
    lemma_mod_equivalence(fadd(a, b), a + b, m);
    lemma_mod_equivalence(fsub(a, b), a - b, m);
    lemma_mod_equivalence(fmul(a, b), a * b, m);
}

/// Canonical limbs are eight numbers of 52 bits each, the lowest one first, that stand for a
/// number below the modulus.
pub proof fn lemma_canonical_limbs(a: Seq<u64>)
    ensures
        val(a) == a[0] + a[1] * 0x10000000000000int + a[2] * 0x100000000000000000000000000int + a[3] * 0x1000000000000000000000000000000000000000int + a[4] * 0x10000000000000000000000000000000000000000000000000000int + a[5] * 0x100000000000000000000000000000000000000000000000000000000000000000int + a[6] * 0x1000000000000000000000000000000000000000000000000000000000000000000000000000000int + a[7] * 0x10000000000000000000000000000000000000000000000000000000000000000000000000000000000000000000int,
        limbs_ok(a) <==> a[0] < 0x10000000000000int && a[1] < 0x10000000000000int && a[2] < 0x10000000000000int && a[3] < 0x10000000000000int
            && a[4] < 0x10000000000000int && a[5] < 0x10000000000000int && a[6] < 0x10000000000000int && a[7] < 0x10000000000000int,
        canonical(a) <==> limbs_ok(a) && val(a) < modulus(),
{
    lemma_value_8(a);
    if a[0] < 0x10000000000000int && a[1] < 0x10000000000000int && a[2] < 0x10000000000000int && a[3] < 0x10000000000000int && a[4] < 0x10000000000000int
        && a[5] < 0x10000000000000int && a[6] < 0x10000000000000int && a[7] < 0x10000000000000int {
        assert forall|j: int| 0 <= j < 8 implies #[trigger] a[j] < 0x10000000000000int by {
            assert(j == 0 || j == 1 || j == 2 || j == 3 || j == 4 || j == 5 || j == 6 || j == 7);
        }
    }
}

/// The two powers that elements are multiplied by, and the range of elements and coordinates.
pub proof fn lemma_powers_and_ranges(a: int, p: Point)
    ensures
        r384() == 0x1000000000000000000000000000000000000000000000000000000000000000000000000000000000000000000000000int,
        r416() == 0x100000000000000000000000000000000000000000000000000000000000000000000000000000000000000000000000000000000int,
        is_element(a) <==> 0 <= a < modulus(),
        is_point(p) <==> 0 <= p.x < modulus() && 0 <= p.y < modulus(),
{
    lemma_r416();
    lemma_r384();
    lemma_weights();
}

/// A remainder times the factor that its inverse took out is the number again.
proof fn lemma_undo(v: int, r: int, r_inv: int, m: int)
    requires
        m > 1,
        (r * r_inv) % m == 1,
    ensures
        ((v * r_inv) % m * r) % m == v % m,
{
    lemma_small_mod(1, m as nat);
    lemma_mul_mod_noop_left(v * r_inv, r, m);
    assert(v * r_inv * r == v * (r * r_inv)) by (nonlinear_arith);
    lemma_mul_congruent(v, v, r * r_inv, 1, m);
    lemma_mul_basics(v);
}

/// What limbs stand for in the domain is what times `2^416` gives their number; what raw limbs
/// stand for, what times `2^384` does.
pub proof fn lemma_decoded(a: Seq<u64>)
    ensures
        0 <= decode(a) < modulus(),
        (decode(a) * 0x100000000000000000000000000000000000000000000000000000000000000000000000000000000000000000000000000000000int) % modulus() == val(a) % modulus(),
        0 <= decode_raw(a) < modulus(),
        (decode_raw(a) * 0x1000000000000000000000000000000000000000000000000000000000000000000000000000000000000000000000000int) % modulus() == val(a) % modulus(),
{
    let m = modulus();
    lemma_modulus();
    lemma_r416();
    lemma_r384();
    lemma_weights();
    lemma_mod_bound(val(a) * r416_inv(), m);
    lemma_mod_bound(val(a) * r384_inv(), m);
    lemma_undo(val(a), r416(), r416_inv(), m);
    lemma_undo(val(a), r384(), r384_inv(), m);
}

/// A scalar element is six words, the lowest one first, that stand for a number below the
/// modulus; the element is what times `2^384` gives that number.
pub proof fn lemma_scalar_form(x: Fq)
    ensures
        val64(x.0@) == x.0[0] + x.0[1] * 0x10000000000000000int + x.0[2] * 0x100000000000000000000000000000000int + x.0[3] * 0x1000000000000000000000000000000000000000000000000int + x.0[4] * 0x10000000000000000000000000000000000000000000000000000000000000000int + x.0[5] * 0x100000000000000000000000000000000000000000000000000000000000000000000000000000000int,
        x.wf() <==> val64(x.0@) < modulus(),
        0 <= x@ < modulus(),
        (x@ * 0x1000000000000000000000000000000000000000000000000000000000000000000000000000000000000000000000000int) % modulus() == val64(x.0@) % modulus(),
{
    let m = modulus();
    lemma_modulus();
    lemma_value_6(x.0@);
    lemma_r384();
    lemma_mod_bound(val64(x.0@) * r384_inv(), m);
    lemma_undo(val64(x.0@), r384(), r384_inv(), m);
}

/// An affine point stands for its coordinates and its flag.
pub proof fn lemma_affine_point(p: G1Affine)
    ensures
        p@.x == p.x@,
        p@.y == p.y@,
        p@.infinity == p.infinity,
        p.wf() <==> p.x.wf() && p.y.wf(),
{
}

/// A point at infinity adds nothing. Finite points over one abscissa that differ add up to a
/// point at infinity, which keeps the coordinates of the second one. A sum is left undefined
/// only where a finite point with ordinate zero is doubled.
pub proof fn lemma_special_sums(p: Point, q: Point)
    ensures
        p.infinity ==> ec_add(p, q) == q,
        q.infinity && !p.infinity ==> ec_add(p, q) == p,
        !p.infinity && !q.infinity && p.x == q.x && p.y != q.y ==> ec_add(p, q) == (Point {
            x: q.x,
            y: q.y,
            infinity: true,
        }),
        summable(p, q) <==> p.infinity || q.infinity || p.x != q.x || p.y != q.y || p.y != 0,
{
}

/// The sum of two finite points over different abscissas is the negation of the third point
/// on their line.
pub proof fn lemma_chord_sum(p: Point, q: Point) -> (s: int)
    requires
        is_point(p),
        is_point(q),
        !p.infinity,
        !q.infinity,
        p.x != q.x,
    ensures
        (s * (p.x - q.x) - (p.y - q.y)) % modulus() == 0,
        !ec_add(p, q).infinity,
        is_point(ec_add(p, q)),
        (ec_add(p, q).x + p.x + q.x - s * s) % modulus() == 0,
        (ec_add(p, q).y + q.y - s * (q.x - ec_add(p, q).x)) % modulus() == 0,
{
    lemma_sum_slope(p, q)
}

/// The double of a finite point with ordinate other than zero is the negation of the second
/// point on its tangent, whose slope is three times the square of the abscissa over twice the
/// ordinate.
pub proof fn lemma_tangent_sum(p: Point) -> (s: int)
    requires
        is_point(p),
        !p.infinity,
        p.y != 0,
    ensures
        (s * (2 * p.y) - 3 * (p.x * p.x)) % modulus() == 0,
        !ec_add(p, p).infinity,
        is_point(ec_add(p, p)),
        (ec_add(p, p).x + p.x + p.x - s * s) % modulus() == 0,
        (ec_add(p, p).y + p.y - s * (p.x - ec_add(p, p).x)) % modulus() == 0,
{
    lemma_sum_slope(p, p)
}

} // verus!
