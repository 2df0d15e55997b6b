//! Affine points of BLS12-377 G1, and their addition.

use crate::arith::{lemma_add_congruent, lemma_mul_congruent, lemma_sub_congruent};
use crate::field::{
    fadd, fdiv, fmul, fsub, is_element, lemma_closed, lemma_double_nonzero, lemma_element,
    lemma_fdiv_unique, lemma_fmul_associates, lemma_fmul_commutes, lemma_fmul_one, lemma_fsub_zero,
    lemma_modulus, modulus,
};
use crate::fq::Fq;
use vstd::arithmetic::div_mod::*;
use vstd::arithmetic::mul::*;
use vstd::prelude::*;

verus! {

/// A point in affine coordinates: two field elements and whether it is the point at
/// infinity. The coordinates of a point at infinity carry no meaning, but they are kept.
pub struct Point {
    pub x: int,
    pub y: int,
    pub infinity: bool,
}

/// The coordinates are field elements.
pub open spec fn is_point(p: Point) -> bool {
    is_element(p.x) && is_element(p.y)
}

/// Neither point is at infinity.
pub open spec fn both_finite(p: Point, q: Point) -> bool {
    !p.infinity && !q.infinity
}

/// The two points are one finite point.
pub open spec fn is_doubling(p: Point, q: Point) -> bool {
    both_finite(p, q) && p.x == q.x && p.y == q.y
}

/// The two points are finite and each other's negation: they lie on one vertical line.
pub open spec fn is_negation(p: Point, q: Point) -> bool {
    both_finite(p, q) && p.x == q.x && p.y != q.y
}

/// A line through the two points, or a tangent, decides the sum.
pub open spec fn has_slope(p: Point, q: Point) -> bool {
    both_finite(p, q) && !is_negation(p, q)
}

/// Three times the square of a field element: the derivative of the curve's cubic, whose
/// linear coefficient is zero.
pub open spec fn triple_square(x: int) -> int {
    fadd(fadd(fmul(x, x), fmul(x, x)), fmul(x, x))
}

/// The numerator of the slope of the line through two points, or of the tangent.
pub open spec fn numerator(p: Point, q: Point) -> int {
    if is_doubling(p, q) {
        triple_square(q.x)
    } else {
        fsub(p.y, q.y)
    }
}

/// The denominator of the slope of the line through two points, or of the tangent.
pub open spec fn denominator(p: Point, q: Point) -> int {
    if is_doubling(p, q) {
        fadd(q.y, q.y)
    } else {
        fsub(p.x, q.x)
    }
}

/// The third intersection of the line with slope `s` through `p` and `q`, reflected.
pub open spec fn reflected(p: Point, q: Point, s: int) -> Point {
    let x = fsub(fmul(s, s), fadd(p.x, q.x));
    Point { x, y: fsub(fmul(s, fsub(q.x, x)), q.y), infinity: false }
}

/// The sum of two points. The sum of a point and its negation is at infinity and keeps
/// the coordinates of the second summand.
pub open spec fn ec_add(p: Point, q: Point) -> Point {
    if p.infinity {
        q
    } else if q.infinity {
        p
    } else if is_negation(p, q) {
        Point { infinity: true, ..q }
    } else {
        reflected(p, q, fdiv(numerator(p, q), denominator(p, q)))
    }
}

/// The sum is defined: not the doubling of a finite point with a vertical tangent.
pub open spec fn summable(p: Point, q: Point) -> bool {
    !(is_doubling(p, q) && p.y == 0)
}

/// A sum of points is a point.
pub proof fn lemma_ec_add_is_point(p: Point, q: Point)
    requires
        is_point(p),
        is_point(q),
    ensures
        is_point(ec_add(p, q)),
{
    if has_slope(p, q) {
        let s = fdiv(numerator(p, q), denominator(p, q));
        let x = fsub(fmul(s, s), fadd(p.x, q.x));
        lemma_closed(fmul(s, s), fadd(p.x, q.x));
        lemma_closed(fmul(s, fsub(q.x, x)), q.y);
    }
}

/// The denominator of a defined slope is not zero.
pub proof fn lemma_denominator(p: Point, q: Point)
    requires
        is_point(p),
        is_point(q),
        has_slope(p, q),
        summable(p, q),
    ensures
        is_element(denominator(p, q)),
        denominator(p, q) != 0,
        is_element(numerator(p, q)),
{
    lemma_closed(q.y, q.y);
    lemma_closed(p.x, q.x);
    lemma_closed(p.y, q.y);
    lemma_closed(fadd(fmul(q.x, q.x), fmul(q.x, q.x)), fmul(q.x, q.x));
    if is_doubling(p, q) {
        lemma_double_nonzero(q.y);
    } else {
        lemma_fsub_zero(p.x, q.x);
    }
}

/// The denominator that a pair contributes to a running product: one where there is no
/// slope.
pub open spec fn factor(p: Point, q: Point) -> int {
    if has_slope(p, q) {
        denominator(p, q)
    } else {
        1
    }
}

/// A defined pair contributes a nonzero factor.
pub proof fn lemma_factor(p: Point, q: Point)
    requires
        is_point(p),
        is_point(q),
        summable(p, q),
    ensures
        is_element(factor(p, q)),
        factor(p, q) != 0,
{
    lemma_modulus();
    if has_slope(p, q) {
        lemma_denominator(p, q);
    }
}

/// What the first pass leaves in place of the first operand: the denominator, and the
/// numerator times the running product `before`.
pub open spec fn staged_first(p: Point, q: Point, before: int) -> Point {
    if !both_finite(p, q) {
        p
    } else if is_negation(p, q) {
        Point { infinity: true, ..p }
    } else {
        Point { x: denominator(p, q), y: fmul(numerator(p, q), before), infinity: false }
    }
}

/// What the first pass leaves in place of the second operand. Only a doubling moves it, so
/// that the formulas of the second pass need not tell a doubling from a chord.
pub open spec fn staged_second(p: Point, q: Point, half: int) -> Point {
    if is_negation(p, q) {
        Point { infinity: true, ..q }
    } else if is_doubling(p, q) {
        Point {
            x: fsub(q.x, q.y),
            y: fsub(q.y, fmul(triple_square(q.x), half)),
            infinity: false,
        }
    } else {
        q
    }
}

/// What the second pass makes of staged operands, given the inverse of the running product
/// up to and including this pair.
pub open spec fn finished(a: Point, b: Point, inverse: int) -> Point {
    if a.infinity {
        b
    } else if b.infinity {
        a
    } else {
        let s = fmul(a.y, inverse);
        let x = fsub(fmul(s, s), fadd(a.x, fadd(b.x, b.x)));
        Point { x, y: fsub(fmul(s, fsub(b.x, x)), b.y), infinity: false }
    }
}

/// The inverse of the running product with this pair's factor peeled off.
pub open spec fn peeled(a: Point, b: Point, inverse: int) -> int {
    if a.infinity || b.infinity {
        inverse
    } else {
        fmul(inverse, a.x)
    }
}

/// A chord's staged abscissas add up to the sum of the two that were staged.
proof fn lemma_chord_abscissas(x1: int, x2: int)
    ensures
        fadd(fsub(x1, x2), fadd(x2, x2)) == fadd(x1, x2),
{
    let p = modulus();
    lemma_modulus();
    lemma_mod_twice(x1 - x2, p);
    lemma_mod_twice(x2 + x2, p);
    lemma_add_congruent(fsub(x1, x2), x1 - x2, fadd(x2, x2), x2 + x2, p);
}

/// A doubling's staged abscissas add up to twice the one that was staged.
proof fn lemma_tangent_abscissas(x: int, y: int)
    ensures
        fadd(fadd(y, y), fadd(fsub(x, y), fsub(x, y))) == fadd(x, x),
{
    let p = modulus();
    lemma_modulus();
    let b = fsub(x, y);
    lemma_mod_twice(y + y, p);
    lemma_mod_twice(x - y, p);
    lemma_mod_twice(b + b, p);
    lemma_add_congruent(b, x - y, b, x - y, p);
    lemma_add_congruent(fadd(y, y), y + y, fadd(b, b), (x - y) + (x - y), p);
}

/// Half the numerator of a tangent is its slope times the ordinate.
proof fn lemma_half_numerator(s: int, y: int, num: int, half: int)
    requires
        is_element(num),
        fmul(s, fadd(y, y)) == num,
        fadd(half, half) == 1,
    ensures
        (s * y) % modulus() == (num * half) % modulus(),
{
    let p = modulus();
    lemma_modulus();
    lemma_element(num);
    lemma_mod_twice(y + y, p);
    lemma_mul_congruent(s, s, fadd(y, y), y + y, p);
    // s (y + y) = num, so s y (half + half) = num half.
    lemma_mul_congruent(s * (y + y), num, half, half, p);
    assert(s * (y + y) * half == s * y * (half + half)) by (nonlinear_arith);
    lemma_small_mod(1, p as nat);
    lemma_mul_congruent(s * y, s * y, half + half, 1, p);
    lemma_mul_basics(s * y);
}

/// A doubling's staged ordinate gives the same third point.
proof fn lemma_tangent_ordinate(s: int, x: int, y: int, num: int, half: int, x3: int)
    requires
        (s * y) % modulus() == (num * half) % modulus(),
    ensures
        fsub(fmul(s, fsub(fsub(x, y), x3)), fsub(y, fmul(num, half))) == fsub(
            fmul(s, fsub(x, x3)),
            y,
        ),
{
    let p = modulus();
    lemma_modulus();
    let b = fsub(x, y);
    // The left side is s (x - y - x3) - (y - num half).
    lemma_mod_twice(x - y, p);
    lemma_sub_congruent(b, x - y, x3, x3, p);
    lemma_mod_twice(b - x3, p);
    lemma_mul_congruent(s, s, fsub(b, x3), x - y - x3, p);
    lemma_mod_twice(s * fsub(b, x3), p);
    lemma_mod_twice(num * half, p);
    lemma_sub_congruent(y, y, fmul(num, half), num * half, p);
    lemma_mod_twice(y - fmul(num, half), p);
    lemma_sub_congruent(
        fmul(s, fsub(b, x3)),
        s * (x - y - x3),
        fsub(y, fmul(num, half)),
        y - num * half,
        p,
    );
    // The right side is s (x - x3) - y.
    lemma_mod_twice(x - x3, p);
    lemma_mul_congruent(s, s, fsub(x, x3), x - x3, p);
    lemma_mod_twice(s * fsub(x, x3), p);
    lemma_sub_congruent(fmul(s, fsub(x, x3)), s * (x - x3), y, y, p);
    // They differ by s y - num half.
    let left = s * (x - y - x3) - (y - num * half);
    let right = s * (x - x3) - y;
    assert(left == right - (s * y - num * half)) by (nonlinear_arith)
        requires
            left == s * (x - y - x3) - (y - num * half),
            right == s * (x - x3) - y,
    ;
    lemma_sub_congruent(s * y, num * half, num * half, num * half, p);
    lemma_small_mod(0, p as nat);
    lemma_sub_congruent(right, right, s * y - num * half, 0, p);
}

/// The second pass turns staged operands into the sum, and peels the pair's factor off the
/// running inverse.
pub proof fn lemma_finished(p: Point, q: Point, before: int, half: int, inverse: int)
    requires
        is_point(p),
        is_point(q),
        summable(p, q),
        is_element(before),
        is_element(inverse),
        fadd(half, half) == 1,
        fmul(inverse, fmul(before, factor(p, q))) == 1,
    ensures
        finished(staged_first(p, q, before), staged_second(p, q, half), inverse) == ec_add(p, q),
        fmul(
            peeled(staged_first(p, q, before), staged_second(p, q, half), inverse),
            before,
        ) == 1,
{
    let a = staged_first(p, q, before);
    let b = staged_second(p, q, half);
    lemma_modulus();
    if has_slope(p, q) {
        lemma_denominator(p, q);
        let num = numerator(p, q);
        let den = denominator(p, q);
        let s = fmul(a.y, inverse);
        lemma_closed(a.y, inverse);
        // s den = num before inverse den = num
        lemma_fmul_associates(fmul(num, before), inverse, den);
        lemma_fmul_associates(num, before, fmul(inverse, den));
        lemma_fmul_associates(before, inverse, den);
        lemma_fmul_commutes(before, inverse);
        lemma_fmul_associates(inverse, before, den);
        lemma_fmul_one(num);
        assert(fmul(s, den) == num);
        lemma_fdiv_unique(s, num, den);
        // inverse den before = 1
        lemma_fmul_associates(inverse, den, before);
        lemma_fmul_commutes(den, before);
        if is_doubling(p, q) {
            lemma_tangent_abscissas(q.x, q.y);
            lemma_half_numerator(s, q.y, num, half);
            let x3 = fsub(fmul(s, s), fadd(q.x, q.x));
            lemma_tangent_ordinate(s, q.x, q.y, num, half, x3);
        } else {
            lemma_chord_abscissas(p.x, q.x);
        }
    } else {
        lemma_fmul_one(before);
    }
}

/// An affine point of G1.
#[derive(Copy, Clone, Debug, PartialEq, Eq)]
pub struct G1Affine {
    pub x: Fq,
    pub y: Fq,
    pub infinity: bool,
}

impl G1Affine {
    /// The coordinates are field elements.
    pub open spec fn wf(self) -> bool {
        self.x.wf() && self.y.wf()
    }

    /// The point that the coordinates stand for.
    pub open spec fn view(self) -> Point {
        Point { x: self.x@, y: self.y@, infinity: self.infinity }
    }

    /// A point from its coordinates and its infinity flag.
    pub fn new(x: Fq, y: Fq, infinity: bool) -> (out: G1Affine)
        ensures
            out == (G1Affine { x, y, infinity }),
    {
        G1Affine { x, y, infinity }
    }

    /// The point at infinity.
    pub fn zero() -> (out: G1Affine)
        ensures
            out.wf(),
            out@ == (Point { x: 0, y: 1, infinity: true }),
    {
        G1Affine { x: Fq::zero(), y: Fq::one(), infinity: true }
    }
}

} // verus!
