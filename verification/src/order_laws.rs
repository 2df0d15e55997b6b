//! Points of odd order can always be added: a subgroup of odd order, such as G1, has no point
//! with a vertical tangent, so every batch of its points is in order.

use crate::buckets::{pair_up, tree_ok};
use crate::curve::{ec_add, is_point, summable, Point};
use crate::curve_laws::{lemma_sum_on_curve, on_curve};
use crate::field::lemma_modulus;
use crate::group::{
    element, gadd, lemma_gadd_associates, lemma_gadd_commutes, lemma_gadd_neutral, lemma_gadd_valid,
    point_at, valid, Element,
};
use vstd::prelude::*;

verus! {

/// The `n`-fold sum of a group element.
pub open spec fn multiple(n: nat, a: Element) -> Element
    decreases n,
{
    if n == 0 {
        None
    } else {
        gadd(multiple((n - 1) as nat, a), a)
    }
}

/// A point of the curve whose `n`-fold sum is the point at infinity.
pub open spec fn has_exponent(p: Point, n: nat) -> bool {
    &&& is_point(p)
    &&& on_curve(p)
    &&& multiple(n, element(p)) is None
}

/// Multiples of valid elements are valid.
pub proof fn lemma_multiple_valid(n: nat, a: Element)
    requires
        valid(a),
    ensures
        valid(multiple(n, a)),
    decreases n,
{
    if n == 0 {
        lemma_modulus();
    } else {
        lemma_multiple_valid((n - 1) as nat, a);
        lemma_gadd_valid(multiple((n - 1) as nat, a), a);
    }
}

/// The multiple of a sum is the sum of the multiples.
pub proof fn lemma_multiple_of_sum(n: nat, a: Element, b: Element)
    requires
        valid(a),
        valid(b),
    ensures
        multiple(n, gadd(a, b)) == gadd(multiple(n, a), multiple(n, b)),
    decreases n,
{
    if n > 0 {
        let m = (n - 1) as nat;
        let (x, y) = (multiple(m, a), multiple(m, b));
        lemma_multiple_of_sum(m, a, b);
        lemma_multiple_valid(m, a);
        lemma_multiple_valid(m, b);
        lemma_gadd_valid(a, b);
        lemma_gadd_valid(y, b);
        lemma_gadd_valid(y, a);
        // (x + y) + (a + b) = (x + a) + (y + b)
        lemma_gadd_associates(x, y, gadd(a, b));
        lemma_gadd_associates(y, a, b);
        lemma_gadd_commutes(y, a);
        lemma_gadd_associates(a, y, b);
        lemma_gadd_associates(x, a, gadd(y, b));
    }
}

/// An element that is its own negation is every odd multiple of itself.
proof fn lemma_odd_multiple(n: nat, a: Element)
    requires
        valid(a),
        gadd(a, a) is None,
        n % 2 == 1,
    ensures
        multiple(n, a) == a,
    decreases n,
{
    reveal_with_fuel(multiple, 3);
    lemma_gadd_neutral(a);
    if n > 1 {
        let x = multiple((n - 2) as nat, a);
        lemma_odd_multiple((n - 2) as nat, a);
        lemma_gadd_associates(x, a, a);
        lemma_gadd_neutral(x);
    }
}

/// The sum of two points of one odd order is defined.
pub proof fn lemma_odd_order_summable(p: Point, q: Point, n: nat)
    requires
        n % 2 == 1,
        has_exponent(p, n),
        has_exponent(q, n),
    ensures
        summable(p, q),
{
    if !summable(p, q) {
        let a = element(p);
        assert(point_at(a) == p);
        assert(gadd(a, a) is None);
        lemma_odd_multiple(n, a);
    }
}

/// The sum of two points of one odd order has that order.
pub proof fn lemma_odd_order_closed(p: Point, q: Point, n: nat)
    requires
        n % 2 == 1,
        has_exponent(p, n),
        has_exponent(q, n),
    ensures
        has_exponent(ec_add(p, q), n),
{
    lemma_modulus();
    lemma_odd_order_summable(p, q, n);
    lemma_sum_on_curve(p, q);
    let (a, b) = (element(p), element(q));
    assert(element(ec_add(p, q)) == gadd(a, b));
    lemma_multiple_of_sum(n, a, b);
}

/// Points of one odd order can be summed in any bucket: every addition in the tree is
/// defined.
pub proof fn lemma_odd_order_tree_ok(s: Seq<Point>, n: nat)
    requires
        n % 2 == 1,
        forall|i: int| 0 <= i < s.len() ==> has_exponent(#[trigger] s[i], n),
    ensures
        tree_ok(s),
    decreases s.len(),
{
    if s.len() > 1 {
        assert forall|i: int| 0 <= 2 * i && 2 * i + 1 < s.len() implies summable(
            #[trigger] s[2 * i],
            s[2 * i + 1],
        ) by {
            assert(has_exponent(s[2 * i], n) && has_exponent(s[2 * i + 1], n));
            lemma_odd_order_summable(s[2 * i], s[2 * i + 1], n);
        }
        let next = pair_up(s);
        assert forall|i: int| 0 <= i < next.len() implies has_exponent(#[trigger] next[i], n) by {
            assert(has_exponent(s[2 * i], n));
            if 2 * i + 1 < s.len() {
                assert(has_exponent(s[2 * i + 1], n));
                lemma_odd_order_closed(s[2 * i], s[2 * i + 1], n);
            }
        }
        lemma_odd_order_tree_ok(next, n);
    }
}

} // verus!
