//! What addition keeps: sums of points of the curve are points of the curve, and the order of
//! two summands does not matter.

use crate::arith::{lemma_add_congruent, lemma_cancel, lemma_mul_congruent, lemma_sub_congruent};
use crate::buckets::{pair_up, tree_ok, tree_sum};
use crate::curve::{
    denominator, ec_add, has_slope, is_doubling, is_point, lemma_denominator,
    lemma_ec_add_is_point, numerator, reflected, summable, Point,
};
use crate::field::{
    fadd, fdiv, finv, fmul, fsub, lemma_element, lemma_fdiv, lemma_fdiv_unique, lemma_finv,
    lemma_modulus, modulus,
};
use vstd::arithmetic::div_mod::*;
use vstd::arithmetic::mul::*;
use vstd::prelude::*;

verus! {

/// The point is at infinity, or its coordinates satisfy `y^2 = x^3 + 1`.
pub open spec fn on_curve(p: Point) -> bool {
    p.infinity || fmul(p.y, p.y) == fadd(fmul(fmul(p.x, p.x), p.x), 1)
}

/// The two stand for one point: both are at infinity, or they agree.
pub open spec fn same_point(p: Point, q: Point) -> bool {
    p.infinity && q.infinity || p == q
}

/// What the curve's equation leaves over at some coordinates.
pub open spec fn defect(x: int, y: int) -> int {
    y * y - (x * x * x + 1)
}

/// The curve's equation holds exactly where the defect is a multiple of the modulus.
pub proof fn lemma_defect(x: int, y: int)
    ensures
        fmul(y, y) == fadd(fmul(fmul(x, x), x), 1) <==> defect(x, y) % modulus() == 0,
{
    let p = modulus();
    lemma_modulus();
    lemma_mul_mod_noop_left(x * x, x, p);
    lemma_mod_twice(x * x * x, p);
    lemma_add_congruent(fmul(fmul(x, x), x), x * x * x, 1, 1, p);
    lemma_mod_equivalence(y * y, x * x * x + 1, p);
}

/// The defect depends on the remainders of the coordinates alone.
proof fn lemma_defect_congruent(x: int, y: int, a: int, b: int)
    requires
        x % modulus() == a % modulus(),
        y % modulus() == b % modulus(),
    ensures
        defect(x, y) % modulus() == defect(a, b) % modulus(),
{
    let p = modulus();
    lemma_modulus();
    lemma_mul_congruent(x, a, x, a, p);
    lemma_mul_congruent(x * x, a * a, x, a, p);
    lemma_mul_congruent(y, b, y, b, p);
    lemma_add_congruent(x * x * x, a * a * a, 1, 1, p);
    lemma_sub_congruent(y * y, b * b, x * x * x + 1, a * a * a + 1, p);
}

/// What the difference of two defects on one line leaves over once the difference of the
/// abscissas is divided out.
pub open spec fn line_defect(s: int, x1: int, x2: int, y2: int) -> int {
    2 * s * y2 + s * s * (x1 - x2) - (x1 * x1 + x1 * x2 + x2 * x2)
}

/// Two points on a line with slope `s`: their defects differ by the line's.
proof fn lemma_line(s: int, x1: int, x2: int, y2: int)
    ensures
        defect(x1, y2 + s * (x1 - x2)) - defect(x2, y2) == line_defect(s, x1, x2, y2) * (x1 - x2),
{
    let d = x1 - x2;
    let y1 = y2 + s * d;
    assert(y1 * y1 - y2 * y2 == (2 * s * y2 + s * s * d) * d) by (nonlinear_arith)
        requires
            y1 == y2 + s * d,
    ;
    assert(x1 * x1 * x1 - x2 * x2 * x2 == (x1 * x1 + x1 * x2 + x2 * x2) * (x1 - x2))
        by (nonlinear_arith);
    let (u, v) = (2 * s * y2 + s * s * d, x1 * x1 + x1 * x2 + x2 * x2);
    assert(u * d - v * d == (u - v) * d) by (nonlinear_arith);
}

/// The third point of a line through two points of the curve: its defect is a combination
/// of the second point's and the line's.
proof fn lemma_third(s: int, x1: int, x2: int, y2: int)
    ensures
        ({
            let x3 = s * s - x1 - x2;
            defect(x3, s * (x2 - x3) - y2) == defect(x2, y2) + (x3 - x2) * line_defect(
                s,
                x1,
                x2,
                y2,
            )
        }),
{
    let x3 = s * s - x1 - x2;
    let y3 = s * (x2 - x3) - y2;
    let e = x3 - x2;
    let h = 2 * s * y2 + s * s * e - 3 * (x2 * x2) - 3 * (x2 * e) - e * e;
    assert(y3 * y3 == y2 * y2 + (2 * s * y2 + s * s * e) * e) by (nonlinear_arith)
        requires
            y3 == s * (x2 - x3) - y2,
            e == x3 - x2,
    ;
    assert(x3 * x3 * x3 == x2 * x2 * x2 + (3 * (x2 * x2) + 3 * (x2 * e) + e * e) * e)
        by (nonlinear_arith)
        requires
            e == x3 - x2,
    ;
    let (u, v) = (2 * s * y2 + s * s * e, 3 * (x2 * x2) + 3 * (x2 * e) + e * e);
    assert(u * e - v * e == e * (u - v)) by (nonlinear_arith);
    assert(h == u - v);
    assert(h == line_defect(s, x1, x2, y2)) by {
        let d = x1 - x2;
        let q = s * s;
        // e + d = q - 3 x2, and the two differ by (e - d)(q - 3 x2 - (e + d)).
        assert(e + d == q - 3 * x2);
        assert(x1 * x1 + x1 * x2 + x2 * x2 == 3 * (x2 * x2) + 3 * (x2 * d) + d * d)
            by (nonlinear_arith)
            requires
                d == x1 - x2,
        ;
        assert(q * e - q * d == (e - d) * q) by (nonlinear_arith);
        assert(3 * (x2 * e) - 3 * (x2 * d) + (e * e - d * d) == (e - d) * (3 * x2 + (e + d)))
            by (nonlinear_arith);
        assert((e - d) * q == (e - d) * (3 * x2 + (e + d)));
    }
}

/// The coordinates of the third point, before they are reduced.
pub proof fn lemma_reflected(p: Point, q: Point, s: int)
    ensures
        ({
            let r = reflected(p, q, s);
            let x3 = s * s - p.x - q.x;
            &&& r.x % modulus() == x3 % modulus()
            &&& r.y % modulus() == (s * (q.x - x3) - q.y) % modulus()
        }),
{
    let m = modulus();
    lemma_modulus();
    let r = reflected(p, q, s);
    let x3 = s * s - p.x - q.x;
    lemma_mod_twice(s * s, m);
    lemma_mod_twice(p.x + q.x, m);
    lemma_sub_congruent(fmul(s, s), s * s, fadd(p.x, q.x), p.x + q.x, m);
    lemma_mod_twice(fmul(s, s) - fadd(p.x, q.x), m);
    assert(r.x % m == x3 % m);
    lemma_sub_congruent(q.x, q.x, r.x, x3, m);
    lemma_mod_twice(q.x - r.x, m);
    lemma_mul_congruent(s, s, fsub(q.x, r.x), q.x - x3, m);
    lemma_mod_twice(s * fsub(q.x, r.x), m);
    lemma_sub_congruent(fmul(s, fsub(q.x, r.x)), s * (q.x - x3), q.y, q.y, m);
    lemma_mod_twice(fmul(s, fsub(q.x, r.x)) - q.y, m);
}

/// The defect of the line through two points of the curve, or of the tangent, vanishes.
pub proof fn lemma_line_defect_vanishes(p: Point, q: Point, s: int)
    requires
        is_point(p),
        is_point(q),
        on_curve(p),
        on_curve(q),
        has_slope(p, q),
        summable(p, q),
        s == fdiv(numerator(p, q), denominator(p, q)),
    ensures
        line_defect(s, p.x, q.x, q.y) % modulus() == 0,
{
    let m = modulus();
    lemma_modulus();
    lemma_denominator(p, q);
    let (num, den) = (numerator(p, q), denominator(p, q));
    lemma_fdiv(num, den);
    lemma_element(num);
    lemma_small_mod(0, m as nat);
    if is_doubling(p, q) {
        let (x, y) = (q.x, q.y);
        let square = fmul(x, x);
        // s (y + y) = 3 x x
        lemma_mod_twice(y + y, m);
        lemma_mul_congruent(s, s, den, y + y, m);
        lemma_mod_twice(x * x, m);
        lemma_add_congruent(square, x * x, square, x * x, m);
        lemma_mod_twice(square + square, m);
        lemma_add_congruent(fadd(square, square), x * x + x * x, square, x * x, m);
        lemma_mod_twice(fadd(square, square) + square, m);
        let (a, b) = (s * (y + y), x * x + x * x + x * x);
        assert(a % m == b % m);
        lemma_mod_equivalence(a, b, m);
        assert(line_defect(s, x, x, y) == a - b) by (nonlinear_arith)
            requires
                line_defect(s, x, x, y) == 2 * s * y + s * s * (x - x) - (x * x + x * x + x * x),
                a == s * (y + y),
                b == x * x + x * x + x * x,
        ;
    } else {
        let d = p.x - q.x;
        let y1 = q.y + s * d;
        // s d = y1 - y2, so the first point is where the line passes.
        lemma_mod_twice(d, m);
        lemma_mul_congruent(s, s, den, d, m);
        lemma_mod_twice(p.y - q.y, m);
        lemma_add_congruent(q.y, q.y, s * d, p.y - q.y, m);
        assert(y1 % m == p.y % m);
        lemma_defect(p.x, p.y);
        lemma_defect(q.x, q.y);
        lemma_defect_congruent(p.x, y1, p.x, p.y);
        lemma_line(s, p.x, q.x, q.y);
        let g = line_defect(s, p.x, q.x, q.y);
        lemma_sub_congruent(defect(p.x, y1), 0, defect(q.x, q.y), 0, m);
        assert((g * d) % m == 0);
        lemma_finv(den);
        lemma_mul_congruent(d, den, finv(den), finv(den), m);
        lemma_mul_basics(d);
        lemma_cancel(g, 0, d, finv(den), m);
    }
}

/// The sum of two points of the curve is a point of the curve.
pub proof fn lemma_sum_on_curve(p: Point, q: Point)
    requires
        is_point(p),
        is_point(q),
        on_curve(p),
        on_curve(q),
        summable(p, q),
    ensures
        on_curve(ec_add(p, q)),
        is_point(ec_add(p, q)),
{
    lemma_ec_add_is_point(p, q);
    if has_slope(p, q) {
        let m = modulus();
        lemma_modulus();
        let s = fdiv(numerator(p, q), denominator(p, q));
        let r = reflected(p, q, s);
        let x3 = s * s - p.x - q.x;
        let y3 = s * (q.x - x3) - q.y;
        let g = line_defect(s, p.x, q.x, q.y);
        lemma_line_defect_vanishes(p, q, s);
        lemma_third(s, p.x, q.x, q.y);
        lemma_defect(q.x, q.y);
        lemma_small_mod(0, m as nat);
        lemma_mul_congruent(x3 - q.x, x3 - q.x, g, 0, m);
        lemma_mul_basics(x3 - q.x);
        lemma_add_congruent(defect(q.x, q.y), 0, (x3 - q.x) * g, 0, m);
        lemma_reflected(p, q, s);
        lemma_defect_congruent(r.x, r.y, x3, y3);
        lemma_defect(r.x, r.y);
    }
}

/// The order of two summands does not matter.
pub proof fn lemma_sum_commutes(p: Point, q: Point)
    requires
        is_point(p),
        is_point(q),
        summable(p, q),
    ensures
        summable(q, p),
        same_point(ec_add(p, q), ec_add(q, p)),
{
    if has_slope(p, q) && !is_doubling(p, q) {
        let m = modulus();
        lemma_modulus();
        lemma_denominator(p, q);
        lemma_denominator(q, p);
        let (num, den) = (numerator(p, q), denominator(p, q));
        let (mun, ned) = (numerator(q, p), denominator(q, p));
        let s = fdiv(num, den);
        lemma_fdiv(num, den);
        // s ned = -(s den) = -num = mun
        lemma_mod_twice(p.x - q.x, m);
        lemma_mod_twice(q.x - p.x, m);
        lemma_mod_twice(p.y - q.y, m);
        lemma_mod_twice(q.y - p.y, m);
        lemma_element(num);
        lemma_mul_congruent(s, s, den, p.x - q.x, m);
        lemma_mul_congruent(s, s, ned, q.x - p.x, m);
        assert(s * (q.x - p.x) == 0 - s * (p.x - q.x)) by (nonlinear_arith);
        lemma_sub_congruent(0, 0, s * (p.x - q.x), p.y - q.y, m);
        assert(fmul(s, ned) == mun);
        lemma_fdiv_unique(s, mun, ned);
        // One slope, so one abscissa; the ordinates are those of one line.
        let (a, b) = (reflected(p, q, s), reflected(q, p, s));
        assert(fadd(p.x, q.x) == fadd(q.x, p.x));
        assert(a.x == b.x);
        lemma_reflected(p, q, s);
        lemma_reflected(q, p, s);
        let x3 = s * s - p.x - q.x;
        let (u, v) = (s * (q.x - x3) - q.y, s * (p.x - x3) - p.y);
        assert(u - v == 0 - s * (p.x - q.x) + (p.y - q.y)) by (nonlinear_arith)
            requires
                u == s * (q.x - x3) - q.y,
                v == s * (p.x - x3) - p.y,
        ;
        lemma_mod_equivalence(s * (p.x - q.x), p.y - q.y, m);
        lemma_sub_congruent(0, 0, s * (p.x - q.x) - (p.y - q.y), 0, m);
        lemma_small_mod(0, m as nat);
        lemma_mod_equivalence(u, v, m);
        lemma_ec_add_is_point(p, q);
        lemma_ec_add_is_point(q, p);
        lemma_element(a.y);
        lemma_element(b.y);
    }
}

/// The sum of a bucket of points of the curve is a point of the curve.
pub proof fn lemma_tree_on_curve(s: Seq<Point>)
    requires
        tree_ok(s),
        forall|i: int| 0 <= i < s.len() ==> is_point(#[trigger] s[i]) && on_curve(s[i]),
    ensures
        on_curve(tree_sum(s)),
    decreases s.len(),
{
    if s.len() > 1 {
        let next = pair_up(s);
        assert forall|i: int| 0 <= i < next.len() implies is_point(#[trigger] next[i]) && on_curve(
            next[i],
        ) by {
            assert(is_point(s[2 * i]) && on_curve(s[2 * i]));
            if 2 * i + 1 < s.len() {
                assert(is_point(s[2 * i + 1]) && on_curve(s[2 * i + 1]));
                assert(summable(s[2 * i], s[2 * i + 1]));
                lemma_sum_on_curve(s[2 * i], s[2 * i + 1]);
            }
        }
        lemma_tree_on_curve(next);
    }
}

} // verus!
