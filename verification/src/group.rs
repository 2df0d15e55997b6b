//! The points of the curve form a commutative group under addition.
//!
//! The proof of associativity takes the middle point as the origin of the abscissas. A line
//! of slope `s` through it meets the curve in two more points, whose abscissas add up to and
//! multiply to expressions in `s` alone. In these terms the slopes of the two outer additions
//! differ by exactly as much as those of the two inner ones, from which the sums agree.

use crate::arith::{lemma_add_congruent, lemma_mul_congruent, lemma_sub_congruent};
use crate::curve::{
    both_finite, denominator, ec_add, has_slope, is_doubling, is_point, lemma_denominator,
    lemma_ec_add_is_point, numerator, summable, triple_square, Point,
};
use crate::curve_laws::{
    defect, lemma_defect, lemma_line_defect_vanishes, lemma_reflected, lemma_sum_commutes,
    lemma_sum_on_curve, line_defect, on_curve,
};
use crate::field::{
    fadd, fdiv, fmul, fsub, is_element, lemma_closed, lemma_element, lemma_fdiv, lemma_modulus,
    modulus,
};
use crate::prime::lemma_prime_no_zero_divisors;
use vstd::arithmetic::div_mod::*;
use vstd::arithmetic::mul::*;
use vstd::prelude::*;

verus! {

/// A group element: the point at infinity, or the coordinates of a finite point.
pub type Element = Option<(int, int)>;

/// The group element that a point stands for.
pub open spec fn element(p: Point) -> Element {
    if p.infinity {
        None
    } else {
        Some((p.x, p.y))
    }
}

/// A point that stands for a group element.
pub open spec fn point_at(a: Element) -> Point {
    match a {
        None => Point { x: 0, y: 1, infinity: true },
        Some((x, y)) => Point { x, y, infinity: false },
    }
}

/// The element lies on the curve.
pub open spec fn valid(a: Element) -> bool {
    is_point(point_at(a)) && on_curve(point_at(a))
}

/// The sum of two group elements: that of the points, and the point at infinity also where a
/// point with a vertical tangent is doubled.
pub open spec fn gadd(a: Element, b: Element) -> Element {
    let (p, q) = (point_at(a), point_at(b));
    if summable(p, q) {
        element(ec_add(p, q))
    } else {
        None
    }
}

/// The negation of a group element.
pub open spec fn gneg(a: Element) -> Element {
    match a {
        None => None,
        Some((x, y)) => Some((x, fsub(0, y))),
    }
}

/// `a` is a multiple of the modulus.
spec fn z(a: int) -> bool {
    a % modulus() == 0
}

proof fn lemma_z_add(a: int, b: int)
    requires
        z(a),
        z(b),
    ensures
        z(a + b),
        z(a - b),
{
    lemma_modulus();
    lemma_small_mod(0, modulus() as nat);
    lemma_add_congruent(a, 0, b, 0, modulus());
    lemma_sub_congruent(a, 0, b, 0, modulus());
}

proof fn lemma_z_mul(k: int, a: int)
    requires
        z(a),
    ensures
        z(k * a),
        z(a * k),
{
    lemma_modulus();
    lemma_small_mod(0, modulus() as nat);
    lemma_mul_congruent(k, k, a, 0, modulus());
    lemma_mul_basics(k);
    lemma_mul_is_commutative(k, a);
}

/// Vanishing combines linearly.
proof fn lemma_z_combine(k1: int, e1: int, k2: int, e2: int)
    requires
        z(e1),
        z(e2),
    ensures
        z(k1 * e1 + k2 * e2),
{
    lemma_z_mul(k1, e1);
    lemma_z_mul(k2, e2);
    lemma_z_add(k1 * e1, k2 * e2);
}

/// A factor that does not vanish cancels.
proof fn lemma_z_cancel(k: int, a: int)
    requires
        z(k * a),
        !z(k),
    ensures
        z(a),
{
    lemma_modulus();
    lemma_prime_no_zero_divisors(k, a, modulus());
}

/// Two does not vanish.
proof fn lemma_z_half(a: int)
    requires
        z(2 * a),
    ensures
        z(a),
{
    lemma_modulus();
    lemma_small_mod(2, modulus() as nat);
    lemma_z_cancel(2, a);
}

/// Field elements whose difference vanishes are equal.
proof fn lemma_z_equal(a: int, b: int)
    requires
        is_element(a),
        is_element(b),
    ensures
        z(a - b) <==> a == b,
{
    lemma_modulus();
    lemma_element(a);
    lemma_element(b);
    lemma_mod_equivalence(a, b, modulus());
}

/// An element differs from its remainder by a multiple of the modulus.
proof fn lemma_z_mod(a: int, b: int)
    ensures
        a % modulus() == b % modulus() <==> z(a - b),
{
    lemma_modulus();
    lemma_mod_equivalence(a, b, modulus());
}

/// The negated ordinate.
proof fn lemma_z_negated(y: int)
    requires
        is_element(y),
    ensures
        is_element(fsub(0, y)),
        z(fsub(0, y) + y),
        fsub(0, fsub(0, y)) == y,
{
    let m = modulus();
    lemma_modulus();
    let n = fsub(0, y);
    lemma_closed(0, y);
    lemma_closed(0, n);
    lemma_mod_twice(0 - y, m);
    lemma_z_mod(n, 0 - y);
    lemma_mod_twice(0 - n, m);
    lemma_z_mod(fsub(0, n), 0 - n);
    lemma_z_add(fsub(0, n) + n, n + y);
    lemma_z_equal(fsub(0, n), y);
}

/// `s` is the slope of the line through two points, or of the tangent.
spec fn slope_ok(p: Point, q: Point, s: int) -> bool {
    if is_doubling(p, q) {
        z(s * (2 * q.y) - 3 * (q.x * q.x))
    } else {
        z(s * (p.x - q.x) - (p.y - q.y))
    }
}

/// Numerator and denominator of the slope, before they are reduced.
proof fn lemma_slope_parts(p: Point, q: Point)
    ensures
        is_doubling(p, q) ==> z(denominator(p, q) - 2 * q.y) && z(
            numerator(p, q) - 3 * (q.x * q.x),
        ),
        !is_doubling(p, q) ==> z(denominator(p, q) - (p.x - q.x)) && z(
            numerator(p, q) - (p.y - q.y),
        ),
{
    let m = modulus();
    lemma_modulus();
    let x = q.x;
    let square = fmul(x, x);
    lemma_mod_twice(q.y + q.y, m);
    lemma_z_mod(fadd(q.y, q.y), 2 * q.y);
    lemma_mod_twice(x * x, m);
    lemma_add_congruent(square, x * x, square, x * x, m);
    lemma_mod_twice(square + square, m);
    lemma_add_congruent(fadd(square, square), x * x + x * x, square, x * x, m);
    lemma_mod_twice(fadd(square, square) + square, m);
    lemma_z_mod(triple_square(x), 3 * (x * x));
    lemma_mod_twice(p.x - q.x, m);
    lemma_z_mod(fsub(p.x, q.x), p.x - q.x);
    lemma_mod_twice(p.y - q.y, m);
    lemma_z_mod(fsub(p.y, q.y), p.y - q.y);
}

/// The slope of the formula is one.
proof fn lemma_slope(p: Point, q: Point) -> (s: int)
    requires
        is_point(p),
        is_point(q),
        has_slope(p, q),
        summable(p, q),
    ensures
        s == fdiv(numerator(p, q), denominator(p, q)),
        is_element(s),
        slope_ok(p, q, s),
{
    let (num, den) = (numerator(p, q), denominator(p, q));
    let s = fdiv(num, den);
    lemma_denominator(p, q);
    lemma_fdiv(num, den);
    lemma_slope_parts(p, q);
    lemma_element(num);
    lemma_z_mod(s * den, num);
    let (d, n) = if is_doubling(p, q) {
        (2 * q.y, 3 * (q.x * q.x))
    } else {
        (p.x - q.x, p.y - q.y)
    };
    lemma_z_mul(s, den - d);
    assert(s * (den - d) == s * den - s * d) by (nonlinear_arith);
    lemma_z_add(s * den - num, s * den - s * d);
    lemma_z_add((s * den - num) - (s * den - s * d), num - n);
    s
}

/// Any slope gives the sum.
proof fn lemma_sum_by_slope(p: Point, q: Point, s: int)
    requires
        is_point(p),
        is_point(q),
        has_slope(p, q),
        summable(p, q),
        slope_ok(p, q, s),
    ensures
        ({
            let r = ec_add(p, q);
            &&& !r.infinity
            &&& is_point(r)
            &&& z(r.x - (s * s - p.x - q.x))
            &&& z(r.y - (s * (q.x - r.x) - q.y))
        }),
{
    let m = modulus();
    lemma_modulus();
    let t = lemma_slope(p, q);
    let (num, den) = (numerator(p, q), denominator(p, q));
    lemma_denominator(p, q);
    lemma_slope_parts(p, q);
    // Both slopes times the denominator give the numerator, so they agree.
    let (d, n) = if is_doubling(p, q) {
        (2 * q.y, 3 * (q.x * q.x))
    } else {
        (p.x - q.x, p.y - q.y)
    };
    lemma_z_add(s * d - n, t * d - n);
    assert((s * d - n) - (t * d - n) == d * (s - t)) by (nonlinear_arith);
    if z(d) {
        lemma_z_add(den - d, d);
        lemma_element(den);
    }
    lemma_z_cancel(d, s - t);
    let r = ec_add(p, q);
    lemma_ec_add_is_point(p, q);
    lemma_reflected(p, q, t);
    lemma_z_mod(r.x, t * t - p.x - q.x);
    lemma_z_mul(s + t, s - t);
    assert((s + t) * (s - t) == s * s - t * t) by (nonlinear_arith);
    lemma_z_add(r.x - (t * t - p.x - q.x), s * s - t * t);
    // The ordinate, over the reduced abscissa.
    let x3 = t * t - p.x - q.x;
    lemma_z_mod(r.y, t * (q.x - x3) - q.y);
    lemma_z_mul(t, r.x - x3);
    lemma_z_mul(q.x - r.x, s - t);
    assert(r.y - (s * (q.x - r.x) - q.y) == (r.y - (t * (q.x - x3) - q.y)) + t * (r.x - x3) - (q.x
        - r.x) * (s - t)) by (nonlinear_arith);
    lemma_z_add(r.y - (t * (q.x - x3) - q.y), t * (r.x - x3));
    lemma_z_add(
        (r.y - (t * (q.x - x3) - q.y)) + t * (r.x - x3),
        (q.x - r.x) * (s - t),
    );
}

/// The slope of a sum, with what it has to do with the coordinates.
pub proof fn lemma_sum_slope(p: Point, q: Point) -> (s: int)
    requires
        is_point(p),
        is_point(q),
        has_slope(p, q),
        summable(p, q),
    ensures
        is_doubling(p, q) ==> (s * (2 * q.y) - 3 * (q.x * q.x)) % modulus() == 0,
        !is_doubling(p, q) ==> (s * (p.x - q.x) - (p.y - q.y)) % modulus() == 0,
        !ec_add(p, q).infinity,
        is_point(ec_add(p, q)),
        (ec_add(p, q).x + p.x + q.x - s * s) % modulus() == 0,
        (ec_add(p, q).y + q.y - s * (q.x - ec_add(p, q).x)) % modulus() == 0,
{
    let s = lemma_slope(p, q);
    lemma_sum_by_slope(p, q, s);
    let r = ec_add(p, q);
    assert(r.x + p.x + q.x - s * s == r.x - (s * s - p.x - q.x));
    assert(r.y + q.y - s * (q.x - r.x) == r.y - (s * (q.x - r.x) - q.y));
    s
}

/// What a line of slope `s` through `q`, taken as the origin of the abscissas, has to do with
/// its other two points `p` and the negation of `r`.
spec fn on_line(p: Point, q: Point, r: Point, s: int) -> bool {
    let u = p.x - q.x;
    let w = r.x - q.x;
    &&& z(p.y - q.y - s * u)
    &&& z(u + w - s * s + 3 * q.x)
    &&& z(u * w - 3 * (q.x * q.x) + 2 * (s * q.y))
    &&& z(r.y + s * w + q.y)
}

/// The line of an addition.
proof fn lemma_on_line(p: Point, q: Point) -> (s: int)
    requires
        is_point(p),
        is_point(q),
        on_curve(p),
        on_curve(q),
        has_slope(p, q),
        summable(p, q),
    ensures
        is_element(s),
        on_line(p, q, ec_add(p, q), s),
        !ec_add(p, q).infinity,
        is_point(ec_add(p, q)),
        on_curve(ec_add(p, q)),
{
    let m = modulus();
    lemma_modulus();
    let s = lemma_slope(p, q);
    let r = ec_add(p, q);
    lemma_sum_by_slope(p, q, s);
    lemma_sum_on_curve(p, q);
    let u = p.x - q.x;
    let w = r.x - q.x;
    if is_doubling(p, q) {
        lemma_mul_basics(s);
        lemma_small_mod(0, m as nat);
    } else {
        lemma_z_mul(-1, s * u - (p.y - q.y));
    }
    assert(u + w - s * s + 3 * q.x == r.x - (s * s - p.x - q.x));
    lemma_line_defect_vanishes(p, q, s);
    let g = line_defect(s, p.x, q.x, q.y);
    let h = r.x - (s * s - p.x - q.x);
    assert(u * w - 3 * (q.x * q.x) + 2 * (s * q.y) == g + u * h) by (nonlinear_arith)
        requires
            g == 2 * s * q.y + s * s * (p.x - q.x) - (p.x * p.x + p.x * q.x + q.x * q.x),
            u == p.x - q.x,
            w == r.x - q.x,
            h == r.x - (s * s - p.x - q.x),
    ;
    lemma_z_mul(u, h);
    lemma_z_add(g, u * h);
    assert(r.y - (s * (q.x - r.x) - q.y) == r.y + s * w + q.y) by (nonlinear_arith)
        requires
            w == r.x - q.x,
    ;
    s
}

/// Two points of the curve over one abscissa agree, or are each other's negation.
proof fn lemma_same_abscissa(p: Point, q: Point)
    requires
        is_point(p),
        is_point(q),
        on_curve(p),
        on_curve(q),
        both_finite(p, q),
        p.x == q.x,
    ensures
        p.y == q.y || p.y == fsub(0, q.y),
{
    lemma_defect(p.x, p.y);
    lemma_defect(q.x, q.y);
    lemma_z_add(defect(p.x, p.y), defect(q.x, q.y));
    let (a, b) = (p.y - q.y, p.y + q.y);
    assert(defect(p.x, p.y) - defect(q.x, q.y) == a * b) by (nonlinear_arith)
        requires
            defect(p.x, p.y) == p.y * p.y - (p.x * p.x * p.x + 1),
            defect(q.x, q.y) == q.y * q.y - (q.x * q.x * q.x + 1),
            p.x == q.x,
            a == p.y - q.y,
            b == p.y + q.y,
    ;
    lemma_z_equal(p.y, q.y);
    lemma_z_negated(q.y);
    lemma_z_equal(p.y, fsub(0, q.y));
    if !z(a) {
        lemma_z_cancel(a, b);
        lemma_z_add(b, fsub(0, q.y) + q.y);
    }
}

/// A negation is an involution on valid elements.
pub proof fn lemma_gneg(a: Element)
    requires
        valid(a),
    ensures
        valid(gneg(a)),
        gneg(gneg(a)) == a,
{
    if let Some((x, y)) = a {
        lemma_z_negated(y);
        let n = fsub(0, y);
        lemma_defect(x, y);
        lemma_defect(x, n);
        lemma_z_mul(n - y, n + y);
        assert(defect(x, n) == defect(x, y) + (n - y) * (n + y)) by (nonlinear_arith)
            requires
                defect(x, n) == n * n - (x * x * x + 1),
                defect(x, y) == y * y - (x * x * x + 1),
        ;
        lemma_z_add(defect(x, y), (n - y) * (n + y));
    }
}

/// The sum of valid elements is valid.
pub proof fn lemma_gadd_valid(a: Element, b: Element)
    requires
        valid(a),
        valid(b),
    ensures
        valid(gadd(a, b)),
{
    lemma_modulus();
    let (p, q) = (point_at(a), point_at(b));
    if summable(p, q) {
        lemma_sum_on_curve(p, q);
    }
}

/// Addition is commutative.
pub proof fn lemma_gadd_commutes(a: Element, b: Element)
    requires
        valid(a),
        valid(b),
    ensures
        gadd(a, b) == gadd(b, a),
{
    let (p, q) = (point_at(a), point_at(b));
    if summable(p, q) {
        lemma_sum_commutes(p, q);
    }
}

/// The point at infinity is neutral.
pub proof fn lemma_gadd_neutral(a: Element)
    ensures
        gadd(None, a) == a,
        gadd(a, None) == a,
{
}

/// A sum is the point at infinity exactly where one element is the other's negation.
pub proof fn lemma_gadd_none(a: Element, b: Element)
    requires
        valid(a),
        valid(b),
    ensures
        gadd(a, b) is None <==> b == gneg(a),
{
    let (p, q) = (point_at(a), point_at(b));
    if both_finite(p, q) {
        lemma_z_negated(p.y);
        lemma_z_negated(q.y);
        if p.x == q.x {
            lemma_same_abscissa(p, q);
            if p.y == q.y {
                // The tangent is vertical exactly where the ordinate is its own negation.
                lemma_z_equal(p.y, fsub(0, p.y));
                lemma_modulus();
                lemma_small_mod(0, modulus() as nat);
                if p.y == fsub(0, p.y) {
                    assert(fsub(0, p.y) + p.y == 2 * p.y);
                    lemma_z_half(p.y);
                    lemma_element(p.y);
                }
                if p.y == 0 {
                    assert(fsub(0, 0) == 0);
                }
            }
        }
        if summable(p, q) && has_slope(p, q) {
            let s = lemma_on_line(p, q);
        }
    }
}

/// The finite points of a sum that is finite have a slope.
proof fn lemma_gadd_finite(a: Element, b: Element)
    requires
        valid(a),
        valid(b),
        a is Some,
        b is Some,
        gadd(a, b) is Some,
    ensures
        has_slope(point_at(a), point_at(b)),
        summable(point_at(a), point_at(b)),
        gadd(a, b) == element(ec_add(point_at(a), point_at(b))),
        point_at(gadd(a, b)) == ec_add(point_at(a), point_at(b)),
{
    let r = ec_add(point_at(a), point_at(b));
    assert(point_at(element(r)) == r);
}

/// The negation of a sum is the sum of the negations.
pub proof fn lemma_gneg_gadd(a: Element, b: Element)
    requires
        valid(a),
        valid(b),
    ensures
        gneg(gadd(a, b)) == gadd(gneg(a), gneg(b)),
{
    lemma_gneg(a);
    lemma_gneg(b);
    lemma_gadd_none(a, b);
    lemma_gadd_none(gneg(a), gneg(b));
    if a is Some && b is Some && gadd(a, b) is Some {
        let (p, q) = (point_at(a), point_at(b));
        let (n, o) = (point_at(gneg(a)), point_at(gneg(b)));
        lemma_gadd_finite(a, b);
        lemma_gadd_finite(gneg(a), gneg(b));
        let s = lemma_slope(p, q);
        lemma_z_negated(p.y);
        lemma_z_negated(q.y);
        // The mirrored line has the opposite slope.
        assert(slope_ok(n, o, -s)) by {
            if is_doubling(n, o) {
                lemma_z_equal(p.y, q.y);
                lemma_z_add(n.y + p.y, o.y + q.y);
                assert(is_doubling(p, q)) by {
                    lemma_z_mul(-1, (n.y + p.y) - (o.y + q.y));
                    assert((n.y + p.y) - (o.y + q.y) == p.y - q.y);
                }
                lemma_z_mul(2 * s, o.y + q.y);
                assert(-s * (2 * o.y) - 3 * (o.x * o.x) == (s * (2 * q.y) - 3 * (q.x * q.x)) - 2 * s
                    * (o.y + q.y)) by (nonlinear_arith)
                    requires
                        o.x == q.x,
                ;
                lemma_z_add(s * (2 * q.y) - 3 * (q.x * q.x), 2 * s * (o.y + q.y));
            } else {
                if is_doubling(p, q) {
                    assert(n == o);
                }
                lemma_z_add(n.y + p.y, o.y + q.y);
                let e = s * (p.x - q.x) - (p.y - q.y);
                lemma_z_mul(-1, e);
                assert(-s * (n.x - o.x) - (n.y - o.y) == -1 * e - ((n.y + p.y) - (o.y + q.y)))
                    by (nonlinear_arith)
                    requires
                        n.x == p.x,
                        o.x == q.x,
                        e == s * (p.x - q.x) - (p.y - q.y),
                ;
                lemma_z_add(-1 * e, (n.y + p.y) - (o.y + q.y));
            }
        }
        lemma_sum_by_slope(p, q, s);
        lemma_sum_by_slope(n, o, -s);
        let (r, t) = (ec_add(p, q), ec_add(n, o));
        assert((-s) * (-s) == s * s) by (nonlinear_arith);
        lemma_z_add(r.x - (s * s - p.x - q.x), t.x - (s * s - n.x - o.x));
        lemma_z_equal(r.x, t.x);
        assert(r.x == t.x);
        lemma_z_negated(r.y);
        let (e1, e2) = (r.y - (s * (q.x - r.x) - q.y), t.y - (-s * (o.x - t.x) - o.y));
        assert(e1 + e2 == r.y + t.y + q.y + o.y) by (nonlinear_arith)
            requires
                e1 == r.y - (s * (q.x - r.x) - q.y),
                e2 == t.y - (-s * (o.x - t.x) - o.y),
                o.x == q.x,
                t.x == r.x,
        ;
        lemma_z_add(e1, e2);
        lemma_z_add(e1 + e2, o.y + q.y);
        lemma_z_add(fsub(0, r.y) + r.y, r.y + t.y);
        lemma_z_equal(fsub(0, r.y), t.y);
    }
}

/// No point of the curve has both a vertical and a horizontal tangent.
proof fn lemma_smooth(x: int, y: int)
    requires
        valid(Some((x, y))),
    ensures
        !(z(y) && z(x * x)),
{
    if z(y) && z(x * x) {
        lemma_modulus();
        lemma_defect(x, y);
        lemma_z_mul(y, y);
        lemma_z_mul(x, x * x);
        lemma_mul_is_associative(x, x, x);
        lemma_z_add(y * y, x * x * x);
        lemma_z_add(y * y - x * x * x, defect(x, y));
        lemma_small_mod(1, modulus() as nat);
        assert((y * y - x * x * x) - defect(x, y) == 1);
    }
}

/// Adding the negation of a summand takes the summand away.
pub proof fn lemma_gadd_cancels(q: Element, r: Element)
    requires
        valid(q),
        valid(r),
    ensures
        gadd(gneg(q), gadd(q, r)) == r,
{
    lemma_gneg(q);
    lemma_gadd_valid(q, r);
    lemma_gadd_none(gneg(q), q);
    lemma_gadd_none(q, r);
    lemma_gadd_commutes(q, r);
    let b = gadd(r, q);
    if q is Some && r is Some && b is Some {
        let n = gneg(q);
        lemma_gadd_finite(r, q);
        let (pq, pr, pb, pn) = (point_at(q), point_at(r), point_at(b), point_at(n));
        let s = lemma_on_line(pr, pq);
        let (v, w, e) = (pr.x - pq.x, pb.x - pq.x, pq.y);
        lemma_z_negated(e);
        lemma_z_equal(pb.x, pq.x);
        // The sum is not the summand itself.
        if b == q {
            assert(s * w == 0) by (nonlinear_arith)
                requires
                    w == 0,
            ;
            lemma_z_half(e);
            lemma_z_mul(s, e);
            assert(v * w == 0) by (nonlinear_arith)
                requires
                    w == 0,
            ;
            lemma_z_add(2 * (s * e) - 3 * (pq.x * pq.x), s * e);
            lemma_z_add((2 * (s * e) - 3 * (pq.x * pq.x)) - s * e, s * e);
            lemma_z_mul(-1, 0 - 3 * (pq.x * pq.x));
            lemma_modulus();
            lemma_small_mod(3, modulus() as nat);
            lemma_z_cancel(3, pq.x * pq.x);
            lemma_smooth(pq.x, pq.y);
        }
        lemma_gneg(b);
        lemma_gadd_none(b, n);
        lemma_gadd_commutes(b, n);
        assert(gadd(b, n) is Some);
        lemma_gadd_finite(b, n);
        // The way back is along the mirrored line.
        assert(slope_ok(pb, pn, -s)) by {
            if is_doubling(pb, pn) {
                assert(v * w == 0) by (nonlinear_arith)
                    requires
                        w == 0,
                ;
                lemma_z_mul(2 * s, pn.y + e);
                assert(-s * (2 * pn.y) - 3 * (pn.x * pn.x) == (v * w - 3 * (pq.x * pq.x) + 2 * (s
                    * e)) - 2 * s * (pn.y + e)) by (nonlinear_arith)
                    requires
                        v * w == 0,
                        pn.x == pq.x,
                ;
                lemma_z_add(v * w - 3 * (pq.x * pq.x) + 2 * (s * e), 2 * s * (pn.y + e));
            } else {
                let g = pb.y + s * w + e;
                lemma_z_mul(-1, g);
                assert(-s * (pb.x - pn.x) - (pb.y - pn.y) == -1 * g + (pn.y + e)) by (nonlinear_arith)
                    requires
                        g == pb.y + s * w + e,
                        w == pb.x - pq.x,
                        pn.x == pq.x,
                ;
                lemma_z_add(-1 * g, pn.y + e);
            }
        }
        lemma_sum_by_slope(pb, pn, -s);
        let t = ec_add(pb, pn);
        assert((-s) * (-s) == s * s) by (nonlinear_arith);
        lemma_z_add(t.x - (s * s - pb.x - pn.x), v + w - s * s + 3 * pq.x);
        assert((t.x - (s * s - pb.x - pn.x)) - (v + w - s * s + 3 * pq.x) == t.x - pr.x);
        lemma_z_equal(t.x, pr.x);
        assert(t.x == pr.x);
        let (e1, e2) = (t.y - (-s * (pn.x - t.x) - pn.y), pr.y - pq.y - s * v);
        assert(e1 - e2 == t.y - pr.y + (pn.y + e)) by (nonlinear_arith)
            requires
                e1 == t.y - (-s * (pn.x - t.x) - pn.y),
                e2 == pr.y - pq.y - s * v,
                v == pr.x - pq.x,
                t.x == pr.x,
                pn.x == pq.x,
                e == pq.y,
        ;
        lemma_z_add(e1, e2);
        lemma_z_add(e1 - e2, pn.y + e);
        lemma_z_equal(t.y, pr.y);
    }
}

/// The polynomial identity behind the slope of an outer chord.
proof fn lemma_chord_identity(
    u: int,
    u2: int,
    v: int,
    v2: int,
    e: int,
    c: int,
    d: int,
    al: int,
    be: int,
)
    ensures
        2 * ((be - al) * (be * v + al * u2 + 2 * e)) - (v + u2 - v2 - u) * (v - u2) - (be - al) * (be
            - al) * (v - u2) == ((u + u2 - al * al + c) - (v + v2 - be * be + c)) * (v + u2) + 2 * ((v
            * v2 - d + 2 * (be * e)) - (u * u2 - d + 2 * (al * e))),
{
    let m = be * v + al * u2 + 2 * e;
    assert((be - al) * m == be * m - al * m) by (nonlinear_arith);
    assert(be * m == be * be * v + be * al * u2 + 2 * (be * e)) by (nonlinear_arith)
        requires
            m == be * v + al * u2 + 2 * e,
    ;
    assert(al * m == al * be * v + al * al * u2 + 2 * (al * e)) by (nonlinear_arith)
        requires
            m == be * v + al * u2 + 2 * e,
    ;
    assert((v + u2 - v2 - u) * (v - u2) == v * v - u2 * u2 - v2 * v + v2 * u2 - u * v + u * u2)
        by (nonlinear_arith);
    assert((be - al) * (be - al) * (v - u2) == be * be * v - be * be * u2 - 2 * (be * al * v) + 2 * (be
        * al * u2) + al * al * v - al * al * u2) by (nonlinear_arith);
    assert(((u + u2 - al * al + c) - (v + v2 - be * be + c)) * (v + u2) == u * v + u * u2 + u2 * v + u2
        * u2 - al * al * v - al * al * u2 - v * v - v * u2 - v2 * v - v2 * u2 + be * be * v + be * be
        * u2) by (nonlinear_arith);
    assert(al * be * v == be * al * v) by (nonlinear_arith);
    assert(u2 * v == v * u2 && v * v2 == v2 * v && u * u2 == u2 * u) by (nonlinear_arith);
}

/// The polynomial identity behind the slope of an outer tangent.
proof fn lemma_tangent_identity(
    u: int,
    v: int,
    v2: int,
    e: int,
    c: int,
    d: int,
    al: int,
    be: int,
)
    ensures
        6 * (v * v) + 4 * (c * v) + 2 * d - v * (v + v - v2 - u) - v * ((be - al) * (be - al)) == 2 * v
            * ((u + v - al * al + c) + (v + v2 - be * be + c)) + (al + be) * ((al + be) * v + 2 * e)
            - (u * v - d + 2 * (al * e)) - (v * v2 - d + 2 * (be * e)),
{
    assert(v * (v + v - v2 - u) == 2 * (v * v) - v * v2 - u * v) by (nonlinear_arith);
    assert(v * ((be - al) * (be - al)) == be * be * v - 2 * (be * al * v) + al * al * v)
        by (nonlinear_arith);
    assert(2 * v * ((u + v - al * al + c) + (v + v2 - be * be + c)) == 2 * (u * v) + 4 * (v * v) + 2 * (v
        * v2) - 2 * (al * al * v) - 2 * (be * be * v) + 4 * (c * v)) by (nonlinear_arith);
    assert((al + be) * ((al + be) * v + 2 * e) == al * al * v + 2 * (be * al * v) + be * be * v + 2 * (al
        * e) + 2 * (be * e)) by (nonlinear_arith);
}

/// The slope of the outer addition `r + a`, where `a = p + q`, in terms of those of the two
/// lines through `q`.
#[verifier::rlimit(40)]
proof fn lemma_outer_slope(p: Point, q: Point, r: Point, a: Point, b: Point, al: int, be: int, la: int)
    requires
        both_finite(p, q),
        both_finite(r, a),
        is_point(p),
        is_point(q),
        is_point(r),
        is_point(a),
        on_line(p, q, a, al),
        on_line(r, q, b, be),
        slope_ok(r, a, la),
        has_slope(r, a),
        !(element(r) == gneg(element(q))),
    ensures
        ({
            let (u, u2, v, v2) = (p.x - q.x, a.x - q.x, r.x - q.x, b.x - q.x);
            z(2 * ((be - al) * la) - (v + u2 - v2 - u) - (be - al) * (be - al))
        }),
{
    let (u, u2, v, v2, e) = (p.x - q.x, a.x - q.x, r.x - q.x, b.x - q.x, q.y);
    let (c, d) = (3 * q.x, 3 * (q.x * q.x));
    let de = be - al;
    let k = v + u2 - v2 - u;
    let h1 = u + u2 - al * al + c;
    let h2 = u * u2 - d + 2 * (al * e);
    let g1 = v + v2 - be * be + c;
    let g2 = v * v2 - d + 2 * (be * e);
    let ya = a.y + al * u2 + e;
    let yr = r.y - e - be * v;
    assert(z(h1) && z(h2) && z(g1) && z(g2) && z(ya) && z(yr));
    let goal = 2 * (de * la) - k - de * de;
    if is_doubling(r, a) {
        // The tangent: r and a are one point.
        assert(v == u2);
        lemma_z_add(yr, ya);
        let f = (al + be) * v + 2 * e;
        assert(f == ya - yr) by (nonlinear_arith)
            requires
                f == (al + be) * v + 2 * e,
                ya == a.y + al * u2 + e,
                yr == r.y - e - be * v,
                v == u2,
                a.y == r.y,
        ;
        lemma_z_mul(-1, yr - ya);
        let t = la * (2 * a.y) - 3 * (a.x * a.x);
        // 2 y = de v
        let w = 2 * a.y - de * v;
        assert(w == ya + yr) by (nonlinear_arith)
            requires
                w == 2 * a.y - de * v,
                de == be - al,
                ya == a.y + al * u2 + e,
                yr == r.y - e - be * v,
                v == u2,
                a.y == r.y,
        ;
        let t2 = la * (de * v) - (3 * (v * v) + 2 * (c * v) + d);
        assert(t2 == t - la * w) by (nonlinear_arith)
            requires
                t2 == la * (de * v) - (3 * (v * v) + 2 * (c * v) + d),
                t == la * (2 * a.y) - 3 * (a.x * a.x),
                w == 2 * a.y - de * v,
                a.x == v + q.x,
                c == 3 * q.x,
                d == 3 * (q.x * q.x),
        ;
        lemma_z_mul(la, w);
        lemma_z_add(t, la * w);
        let rest = 6 * (v * v) + 4 * (c * v) + 2 * d - v * k - v * (de * de);
        lemma_tangent_identity(u, v, v2, e, c, d, al, be);
        assert(rest == 2 * v * (h1 + g1) + (al + be) * f - h2 - g2);
        lemma_z_add(h1, g1);
        lemma_z_combine(2 * v, h1 + g1, al + be, f);
        lemma_z_add(2 * v * (h1 + g1) + (al + be) * f, h2);
        lemma_z_add(2 * v * (h1 + g1) + (al + be) * f - h2, g2);
        assert(v * goal == 2 * t2 + rest) by (nonlinear_arith)
            requires
                goal == 2 * (de * la) - k - de * de,
                t2 == la * (de * v) - (3 * (v * v) + 2 * (c * v) + d),
                rest == 6 * (v * v) + 4 * (c * v) + 2 * d - v * k - v * (de * de),
        ;
        lemma_z_mul(2, t2);
        lemma_z_add(2 * t2, rest);
        // The point is not over the middle one.
        if z(v) {
            lemma_z_equal(r.x, q.x);
            assert(v == 0);
            assert(be * v == 0 && de * v == 0) by (nonlinear_arith)
                requires
                    v == 0,
            ;
            lemma_z_equal(r.y, q.y);
            lemma_z_half(a.y);
            lemma_modulus();
            lemma_element(a.y);
            lemma_small_mod(0, modulus() as nat);
            assert(fsub(0, 0) == 0);
        }
        lemma_z_cancel(v, goal);
    } else {
        let x = v - u2;
        let t = la * (r.x - a.x) - (r.y - a.y);
        let m = be * v + al * u2 + 2 * e;
        let t2 = la * x - m;
        assert(t2 == t + yr - ya) by (nonlinear_arith)
            requires
                t2 == la * x - m,
                t == la * (r.x - a.x) - (r.y - a.y),
                m == be * v + al * u2 + 2 * e,
                x == v - u2,
                v == r.x - q.x,
                u2 == a.x - q.x,
                ya == a.y + al * u2 + e,
                yr == r.y - e - be * v,
        ;
        lemma_z_add(t, yr);
        lemma_z_add(t + yr, ya);
        let rest = 2 * (de * m) - k * x - de * de * x;
        lemma_chord_identity(u, u2, v, v2, e, c, d, al, be);
        assert(rest == (h1 - g1) * (v + u2) + 2 * (g2 - h2));
        lemma_z_add(h1, g1);
        lemma_z_add(g2, h2);
        lemma_z_combine(v + u2, h1 - g1, 2, g2 - h2);
        lemma_mul_is_commutative(v + u2, h1 - g1);
        assert(x * goal == 2 * de * t2 + rest) by (nonlinear_arith)
            requires
                goal == 2 * (de * la) - k - de * de,
                t2 == la * x - m,
                rest == 2 * (de * m) - k * x - de * de * x,
        ;
        lemma_z_mul(2 * de, t2);
        lemma_z_add(2 * de * t2, rest);
        lemma_z_equal(r.x, a.x);
        assert(x == r.x - a.x);
        assert(r.x != a.x);
        lemma_z_cancel(x, goal);
    }
}

/// The polynomial identity behind the ordinates of the two outer sums.
proof fn lemma_ordinates(
    y1: int,
    y2: int,
    la: int,
    mu: int,
    al: int,
    be: int,
    u: int,
    u2: int,
    v: int,
    v2: int,
    w: int,
    sy: int,
    ty: int,
    e: int,
)
    ensures
        ({
            let de = be - al;
            let dm = la - mu - de;
            let ew = w - ((la - al) * (la + al) + u - v);
            let f = de * (la + al) - (v - u);
            let f2 = de * (la - al) - (u2 - v2) - de * de;
            let ey1 = y1 - (la * (u2 - w) - sy);
            let ey2 = y2 - (mu * (v2 - w) - ty);
            let ys = sy + al * u2 + e;
            let yt = ty + be * v2 + e;
            y1 - y2 == (ey1 - ey2 + yt - ys) + (v2 - w) * dm - de * ew - (la + al) * f2 - de * f
        }),
{
    let de = be - al;
    let dm = la - mu - de;
    let t = la + al;
    let g = (la - al) * t;
    let ew = w - (g + u - v);
    let f = de * t - (v - u);
    let h = de * (la - al);
    let f2 = h - (u2 - v2) - de * de;
    assert(mu * (v2 - w) == la * (v2 - w) - de * (v2 - w) - (v2 - w) * dm) by (nonlinear_arith)
        requires
            dm == la - mu - de,
    ;
    assert(la * (u2 - w) - la * (v2 - w) + al * u2 - be * v2 + de * (v2 - w) == t * (u2 - v2) - de
        * w) by (nonlinear_arith)
        requires
            de == be - al,
            t == la + al,
    ;
    assert(de * ew == de * w - de * g - de * (u - v)) by (nonlinear_arith)
        requires
            ew == w - (g + u - v),
    ;
    assert(de * g == t * h) by (nonlinear_arith)
        requires
            g == (la - al) * t,
            h == de * (la - al),
    ;
    assert(t * f2 == t * h - t * (u2 - v2) - t * (de * de)) by (nonlinear_arith)
        requires
            f2 == h - (u2 - v2) - de * de,
    ;
    assert(de * f == t * (de * de) - de * (v - u)) by (nonlinear_arith)
        requires
            f == de * t - (v - u),
    ;
    assert(de * (u - v) == 0 - de * (v - u)) by (nonlinear_arith);
}

/// The two ways of adding three points agree where every addition on the way has a line of
/// its own.
#[verifier::rlimit(40)]
proof fn lemma_three_lines(a: Element, b: Element, c: Element)
    requires
        valid(a),
        valid(b),
        valid(c),
        a is Some,
        b is Some,
        c is Some,
        gadd(a, b) is Some,
        gadd(c, b) is Some,
        gadd(c, gadd(a, b)) is Some,
        gadd(a, gadd(c, b)) is Some,
    ensures
        gadd(c, gadd(a, b)) == gadd(a, gadd(c, b)),
{
    let (ea, eb) = (gadd(a, b), gadd(c, b));
    lemma_gadd_valid(a, b);
    lemma_gadd_valid(c, b);
    lemma_gadd_none(a, b);
    lemma_gadd_none(c, b);
    lemma_gadd_none(c, ea);
    lemma_gneg(a);
    lemma_gneg(b);
    lemma_gneg(c);
    lemma_gadd_finite(a, b);
    lemma_gadd_finite(c, b);
    lemma_gadd_finite(c, ea);
    lemma_gadd_finite(a, eb);
    let (p, q, r) = (point_at(a), point_at(b), point_at(c));
    let (s, t) = (point_at(ea), point_at(eb));
    assert(element(p) == a && element(q) == b && element(r) == c);
    let al = lemma_on_line(p, q);
    let be = lemma_on_line(r, q);
    let (u, u2, v, v2, e) = (p.x - q.x, s.x - q.x, r.x - q.x, t.x - q.x, q.y);
    let de = be - al;
    let h1 = u + u2 - al * al + 3 * q.x;
    let g1 = v + v2 - be * be + 3 * q.x;
    if z(de) {
        // One line holds all of them.
        lemma_z_equal(be, al);
        assert(al == be);
        let h2 = u * u2 - 3 * (q.x * q.x) + 2 * (al * e);
        let g2 = v * v2 - 3 * (q.x * q.x) + 2 * (be * e);
        lemma_z_add(g1, h1);
        lemma_z_add(h2, g2);
        lemma_z_combine(v, g1 - h1, 1, h2 - g2);
        assert((v - u) * (v - u2) == v * (g1 - h1) + 1 * (h2 - g2)) by (nonlinear_arith)
            requires
                g1 - h1 == v + v2 - u - u2,
                h2 - g2 == u * u2 - v * v2,
        ;
        if z(v - u) {
            lemma_z_equal(r.x, p.x);
            assert(u == v);
            lemma_z_add(r.y - q.y - be * v, p.y - q.y - al * u);
            lemma_z_equal(r.y, p.y);
            assert(a == c);
        } else {
            lemma_z_cancel(v - u, v - u2);
            lemma_z_equal(r.x, s.x);
            assert(u2 == v);
            // The third point is the negation of the first sum.
            lemma_z_add(r.y - q.y - be * v, s.y + al * u2 + q.y);
            lemma_z_negated(r.y);
            lemma_z_add(fsub(0, r.y) + r.y, r.y + s.y);
            lemma_z_equal(fsub(0, r.y), s.y);
            assert(ea == gneg(c));
        }
    } else {
        let la = lemma_slope(r, s);
        let mu = lemma_slope(p, t);
        lemma_outer_slope(p, q, r, s, t, al, be, la);
        lemma_outer_slope(r, q, p, t, s, be, al, mu);
        lemma_sum_by_slope(r, s, la);
        lemma_sum_by_slope(p, t, mu);
        let (x1, x2) = (ec_add(r, s), ec_add(p, t));
        let k = v + u2 - v2 - u;
        let k2 = u + v2 - u2 - v;
        let el = 2 * (de * la) - k - de * de;
        let em = 2 * ((al - be) * mu) - k2 - (al - be) * (al - be);
        // The outer slopes differ as the inner ones do.
        let dm = la - mu - de;
        assert(el + em == 2 * (de * dm)) by (nonlinear_arith)
            requires
                el == 2 * (de * la) - k - de * de,
                em == 2 * ((al - be) * mu) - k2 - (al - be) * (al - be),
                de == be - al,
                k2 == 0 - k,
                dm == la - mu - de,
        ;
        lemma_z_add(el, em);
        lemma_z_half(de * dm);
        lemma_z_cancel(de, dm);
        // de (la + al) = v - u
        let f = de * (la + al) - (v - u);
        lemma_z_add(g1, h1);
        assert(2 * f == el - (g1 - h1)) by (nonlinear_arith)
            requires
                f == de * (la + al) - (v - u),
                el == 2 * (de * la) - k - de * de,
                g1 - h1 == v + v2 - u - u2 - (be * be - al * al),
                de == be - al,
                k == v + u2 - v2 - u,
        ;
        lemma_z_add(el, g1 - h1);
        lemma_z_half(f);
        // The abscissas agree.
        let ex1 = x1.x - (la * la - r.x - s.x);
        let ex2 = x2.x - (mu * mu - p.x - t.x);
        let fk = de * (la + mu) - k;
        assert(fk == el - de * dm) by (nonlinear_arith)
            requires
                fk == de * (la + mu) - k,
                el == 2 * (de * la) - k - de * de,
                dm == la - mu - de,
        ;
        lemma_z_mul(de, dm);
        lemma_z_add(el, de * dm);
        lemma_z_mul(la + mu, dm);
        lemma_z_add((la + mu) * dm, fk);
        assert(la * la - mu * mu - k == (la + mu) * dm + fk) by (nonlinear_arith)
            requires
                fk == de * (la + mu) - k,
                dm == la - mu - de,
        ;
        lemma_z_add(ex1, ex2);
        lemma_z_add(ex1 - ex2, la * la - mu * mu - k);
        assert((ex1 - ex2) + (la * la - mu * mu - k) == x1.x - x2.x);
        lemma_z_equal(x1.x, x2.x);
        assert(x1.x == x2.x);
        // The ordinates: both points lie on both outer lines.
        let w = x1.x - q.x;
        let ey1 = x1.y - (la * (s.x - x1.x) - s.y);
        let ey2 = x2.y - (mu * (t.x - x2.x) - t.y);
        let ys = s.y + al * u2 + e;
        let yt = t.y + be * v2 + e;
        // w = (la - al)(la + al) + u - v
        let ew = w - ((la - al) * (la + al) + u - v);
        assert(ew == ex1 - h1) by (nonlinear_arith)
            requires
                ew == w - ((la - al) * (la + al) + u - v),
                ex1 == x1.x - (la * la - r.x - s.x),
                h1 == u + u2 - al * al + 3 * q.x,
                w == x1.x - q.x,
                u == p.x - q.x,
                u2 == s.x - q.x,
                v == r.x - q.x,
        ;
        lemma_z_add(ex1, h1);
        // de (la - al) = u2 - v2 + de de
        let f2 = de * (la - al) - (u2 - v2) - de * de;
        assert(2 * f2 == el + (g1 - h1)) by (nonlinear_arith)
            requires
                f2 == de * (la - al) - (u2 - v2) - de * de,
                el == 2 * (de * la) - k - de * de,
                g1 - h1 == v + v2 - u - u2 - (be * be - al * al),
                de == be - al,
                k == v + u2 - v2 - u,
        ;
        lemma_z_add(el, g1 - h1);
        lemma_z_half(f2);
        lemma_ordinates(
            x1.y,
            x2.y,
            la,
            mu,
            al,
            be,
            u,
            u2,
            v,
            v2,
            w,
            s.y,
            t.y,
            e,
        );
        lemma_z_add(ey1, ey2);
        assert(ey1 == x1.y - (la * (u2 - w) - s.y));
        assert(ey2 == x2.y - (mu * (v2 - w) - t.y));
        lemma_z_add(ey1 - ey2, yt);
        lemma_z_add(ey1 - ey2 + yt, ys);
        lemma_z_mul(v2 - w, dm);
        lemma_z_mul(de, ew);
        lemma_z_mul(la + al, f2);
        lemma_z_mul(de, f);
        let sum = (ey1 - ey2 + yt - ys) + (v2 - w) * dm - de * ew - (la + al) * f2 - de * f;
        lemma_z_add(ey1 - ey2 + yt - ys, (v2 - w) * dm);
        lemma_z_add((ey1 - ey2 + yt - ys) + (v2 - w) * dm, de * ew);
        lemma_z_add((ey1 - ey2 + yt - ys) + (v2 - w) * dm - de * ew, (la + al) * f2);
        lemma_z_add(
            (ey1 - ey2 + yt - ys) + (v2 - w) * dm - de * ew - (la + al) * f2,
            de * f,
        );
        assert(x1.y - x2.y == sum);
        lemma_z_equal(x1.y, x2.y);
    }
}

/// Addition is associative.
pub proof fn lemma_gadd_associates(a: Element, b: Element, c: Element)
    requires
        valid(a),
        valid(b),
        valid(c),
    ensures
        gadd(gadd(a, b), c) == gadd(a, gadd(b, c)),
{
    let (ab, bc) = (gadd(a, b), gadd(b, c));
    lemma_gadd_valid(a, b);
    lemma_gadd_valid(b, c);
    lemma_gneg(a);
    lemma_gneg(b);
    lemma_gneg(c);
    lemma_gneg(ab);
    lemma_gneg(bc);
    lemma_gadd_none(a, b);
    lemma_gadd_none(b, c);
    lemma_gadd_commutes(b, c);
    lemma_gadd_commutes(ab, c);
    lemma_gadd_none(c, ab);
    lemma_gadd_none(a, bc);
    // What adding the negation of one summand takes away.
    lemma_gadd_cancels(gneg(a), c);
    lemma_gadd_cancels(b, a);
    lemma_gadd_cancels(b, c);
    lemma_gadd_commutes(a, b);
    lemma_gadd_commutes(ab, gneg(b));
    if a is Some && b is Some && c is Some && ab is Some && bc is Some {
        if ab == gneg(c) {
            // b + c = b - (a + b), the negation of a.
            lemma_gneg_gadd(gneg(b), ab);
            assert(bc == gneg(a));
        } else if bc == gneg(a) {
            lemma_gneg_gadd(gneg(b), bc);
            lemma_gadd_commutes(b, a);
            assert(ab == gneg(c));
        } else {
            lemma_three_lines(a, b, c);
        }
    }
}

} // verus!
