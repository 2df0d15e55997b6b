//! Primality by the order of an element.
//!
//! A number `n` is prime as soon as some residue has an order modulo every
//! divisor of `n` that exceeds the square root of `n`.  The certificate for one
//! number therefore consists of an order `f1 * f2`, known to be a product of two
//! primes, a residue `b` of that order, and two inverses that rule out the smaller
//! orders.

use crate::arith::{
    lemma_cancel, lemma_congruent_by, lemma_mod_of_divisor, lemma_mul_congruent,
    lemma_sub_congruent,
};
use vstd::arithmetic::div_mod::*;
use vstd::arithmetic::mul::*;
use vstd::arithmetic::power::*;
use vstd::prelude::*;
use vstd::set_lib::*;

verus! {

/// `n` is a prime number.
pub open spec fn is_prime(n: int) -> bool {
    &&& n > 1
    &&& forall|d: int| 1 < d < n ==> #[trigger] (n % d) != 0
}

/// Some integer combination of `a` and `b` is a common divisor of both.
pub proof fn lemma_bezout(a: int, b: int) -> (r: (int, int, int))
    requires
        a > 0,
        b >= 0,
    ensures
        r.0 > 0,
        r.0 <= a,
        b > 0 ==> r.0 <= b,
        a % r.0 == 0,
        b % r.0 == 0,
        r.1 * a + r.2 * b == r.0,
    decreases b,
{
    if b == 0 {
        lemma_mod_self_0(a);
        assert(0int % a == 0) by {
            lemma_small_mod(0, a as nat);
        }
        (a, 1, 0)
    } else {
        let c = a % b;
        let q = a / b;
        lemma_fundamental_div_mod(a, b);
        lemma_mod_bound(a, b);
        let (g, x, y) = lemma_bezout(b, c);
        // x * b + y * c == g with c == a - b * q
        assert(y * a + (x - y * q) * b == g) by (nonlinear_arith)
            requires
                x * b + y * c == g,
                a == b * q + c,
        ;
        lemma_fundamental_div_mod(b, g);
        lemma_fundamental_div_mod(c, g);
        let bq = b / g;
        let cq = c / g;
        assert(a - 0 == (bq * q + cq) * g) by (nonlinear_arith)
            requires
                a == b * q + c,
                b == g * bq,
                c == g * cq,
        ;
        lemma_congruent_by(a, 0, bq * q + cq, g);
        lemma_small_mod(0, g as nat);
        assert(g <= a) by {
            let k = bq * q + cq;
            assert(k >= 1) by (nonlinear_arith)
                requires
                    k * g == a,
                    a > 0,
                    g > 0,
            ;
            assert(g <= a) by (nonlinear_arith)
                requires
                    k * g == a,
                    k >= 1,
                    g > 0,
            ;
        }
        (g, y, x - y * q)
    }
}

/// Below a prime every nonzero residue has an inverse.
pub proof fn lemma_prime_inverse(a: int, p: int) -> (b: int)
    requires
        is_prime(p),
        a % p != 0,
    ensures
        0 < b < p,
        (a * b) % p == 1,
{
    lemma_mod_bound(a, p);
    let r = a % p;
    let (g, x, y) = lemma_bezout(p, r);
    assert(g == 1) by {
        if g > 1 {
            assert(p % g == 0);
            assert(g < p);
        }
    }
    let b = y % p;
    lemma_mod_bound(y, p);
    lemma_small_mod(1, p as nat);
    assert(y * r - 1 == (-x) * p) by (nonlinear_arith)
        requires
            x * p + y * r == 1,
    ;
    lemma_congruent_by(y * r, 1, -x, p);
    lemma_mod_twice(y, p);
    lemma_mod_twice(a, p);
    lemma_mul_congruent(b, y, a, r, p);
    assert(b * a == a * b) by (nonlinear_arith);
    assert(b != 0) by {
        if b == 0 {
            assert(a * b == 0) by (nonlinear_arith)
                requires
                    b == 0,
            ;
            lemma_small_mod(0, p as nat);
        }
    }
    b
}

/// Below a prime a product vanishes only where a factor does.
pub proof fn lemma_prime_no_zero_divisors(a: int, b: int, p: int)
    requires
        is_prime(p),
        (a * b) % p == 0,
    ensures
        a % p == 0 || b % p == 0,
{
    if a % p != 0 {
        let c = lemma_prime_inverse(a, p);
        lemma_small_mod(0, p as nat);
        assert(b * a == a * b) by (nonlinear_arith);
        assert(0 * a == 0) by (nonlinear_arith);
        lemma_cancel(b, 0, a, c, p);
    }
}

/// `b^e` is a unit modulo `m` whenever a later power of `b` is congruent to one.
proof fn lemma_power_is_unit(b: int, e: nat, f: nat, m: int)
    requires
        m > 1,
        e <= f,
        pow(b, f) % m == 1,
    ensures
        pow(b, e) % m != 0,
        (pow(b, e) * pow(b, (f - e) as nat)) % m == 1,
{
    lemma_pow_adds(b, e, (f - e) as nat);
    if pow(b, e) % m == 0 {
        lemma_small_mod(0, m as nat);
        lemma_mul_congruent(pow(b, e), 0, pow(b, (f - e) as nat), pow(b, (f - e) as nat), m);
        assert(0 * pow(b, (f - e) as nat) == 0) by (nonlinear_arith);
    }
}

/// Exponents at which `b` gives one are closed under multiples.
proof fn lemma_power_multiple(b: int, e: nat, k: nat, m: int)
    requires
        m > 1,
        pow(b, e) % m == 1,
    ensures
        pow(b, e * k) % m == 1,
{
    lemma_pow_multiplies(b, e, k);
    lemma_pow_mod_noop(pow(b, e), k, m);
    lemma1_pow(k);
    lemma_small_mod(1, m as nat);
}

/// Exponents at which `b` gives one are closed under differences.
proof fn lemma_power_difference(b: int, e: nat, f: nat, m: int)
    requires
        m > 1,
        e <= f,
        pow(b, e) % m == 1,
        pow(b, f) % m == 1,
    ensures
        pow(b, (f - e) as nat) % m == 1,
{
    let r = pow(b, (f - e) as nat);
    lemma_pow_adds(b, e, (f - e) as nat);
    lemma_small_mod(1, m as nat);
    lemma_mul_congruent(pow(b, e), 1, r, r, m);
}

/// If `b` gives one at two exponents, it gives one at a common divisor of them.
proof fn lemma_power_gcd(b: int, k: nat, f: nat, m: int) -> (g: nat)
    requires
        m > 1,
        0 < k < f,
        pow(b, k) % m == 1,
        pow(b, f) % m == 1,
    ensures
        0 < g <= k,
        f % g == 0,
        pow(b, g) % m == 1,
{
    let (g, x, y) = lemma_bezout(f as int, k as int);
    // Shift the combination by a multiple of `k * f` so that it reads `u * f - v * k`
    // with both coefficients nonnegative.
    let s: int = if x < 0 { -x } else { x };
    let t: int = if y < 0 { -y } else { y };
    let w = s + t;
    let u = x + w * k;
    let v = w * f - y;
    assert(u >= 0 && v >= 0) by (nonlinear_arith)
        requires
            w >= -x,
            w >= y,
            w >= 0,
            k >= 1,
            f >= 1,
            u == x + w * k,
            v == w * f - y,
    ;
    assert(u * f - v * k == g) by (nonlinear_arith)
        requires
            x * f + y * k == g,
            u == x + w * k,
            v == w * f - y,
    ;
    lemma_power_multiple(b, f, u as nat, m);
    lemma_power_multiple(b, k, v as nat, m);
    assert(u * f == f * u) by (nonlinear_arith);
    assert(v * k == k * v) by (nonlinear_arith);
    lemma_power_difference(b, (k * v) as nat, (f * u) as nat, m);
    assert((f * u - k * v) as nat == g as nat);
    g as nat
}

/// A proper divisor of a product of two primes divides one of them.
proof fn lemma_divisor_of_two_primes(g: int, f1: int, f2: int)
    requires
        is_prime(f1),
        is_prime(f2),
        0 < g < f1 * f2,
        (f1 * f2) % g == 0,
    ensures
        f1 % g == 0 || f2 % g == 0,
{
    let q = (f1 * f2) / g;
    lemma_fundamental_div_mod(f1 * f2, g);
    assert(f1 * f2 == g * q);
    if g % f1 != 0 {
        // `f1` divides `q`, so `g` divides `f2`.
        lemma_mod_multiples_basic(f2, f1);
        assert(f1 * f2 == f2 * f1) by (nonlinear_arith);
        lemma_prime_no_zero_divisors(g, q, f1);
        lemma_fundamental_div_mod(q, f1);
        let h = q / f1;
        assert(f2 == h * g) by (nonlinear_arith)
            requires
                f1 * f2 == g * q,
                q == f1 * h,
                f1 > 1,
        ;
        lemma_mod_multiples_basic(h, g);
    } else {
        // `g` is a multiple of `f1`; what is left divides `f2`, so it is one.
        lemma_fundamental_div_mod(g, f1);
        let h = g / f1;
        assert(f2 == h * q) by (nonlinear_arith)
            requires
                f1 * f2 == g * q,
                g == f1 * h,
                f1 > 1,
        ;
        assert(0 < h < f2) by (nonlinear_arith)
            requires
                0 < g < f1 * f2,
                g == f1 * h,
                f1 > 1,
        ;
        assert(h * q == q * h) by (nonlinear_arith);
        lemma_mod_multiples_basic(q, h);
        if h > 1 {
            assert(f2 % h != 0);
        }
        assert(g == f1);
        lemma_mod_self_0(g);
    }
}

/// What certifies that `b` has an order of exactly `f1 * f2` modulo every divisor
/// of `n` greater than one.
pub open spec fn has_order(n: int, f1: int, f2: int, b: int, u1: int, u2: int) -> bool {
    &&& n > 1
    &&& is_prime(f1)
    &&& is_prime(f2)
    &&& pow(b, (f1 * f2) as nat) % n == 1
    &&& ((pow(b, f1 as nat) - 1) * u1) % n == 1
    &&& ((pow(b, f2 as nat) - 1) * u2) % n == 1
}

/// Where `b^f - 1` is a unit modulo `n`, no divisor of `f` is an exponent at which
/// `b` gives one modulo a divisor of `n`.
proof fn lemma_no_order_dividing(n: int, f: nat, b: int, u: int, d: int, g: nat)
    requires
        n > 1,
        d > 1,
        n % d == 0,
        ((pow(b, f) - 1) * u) % n == 1,
        g > 0,
        f % g == 0,
    ensures
        pow(b, g) % d != 1,
{
    if pow(b, g) % d == 1 {
        lemma_fundamental_div_mod(f as int, g as int);
        lemma_power_multiple(b, g, (f / g) as nat, d);
        lemma_small_mod(1, n as nat);
        lemma_small_mod(1, d as nat);
        lemma_small_mod(0, d as nat);
        lemma_mod_of_divisor((pow(b, f) - 1) * u, 1, n, d);
        lemma_sub_congruent(pow(b, f), 1, 1, 1, d);
        lemma_mul_congruent(pow(b, f) - 1, 0, u, u, d);
        assert(0 * u == 0) by (nonlinear_arith);
    }
}

/// The order of `b` modulo a divisor of `n` is not less than `f1 * f2`.
proof fn lemma_order_is_exact(n: int, f1: int, f2: int, b: int, u1: int, u2: int, d: int, k: nat)
    requires
        has_order(n, f1, f2, b, u1, u2),
        d > 1,
        n % d == 0,
        0 < k < f1 * f2,
    ensures
        pow(b, k) % d != 1,
{
    if pow(b, k) % d == 1 {
        let f = (f1 * f2) as nat;
        lemma_small_mod(1, n as nat);
        lemma_small_mod(1, d as nat);
        lemma_mod_of_divisor(pow(b, f), 1, n, d);
        let g = lemma_power_gcd(b, k, f, d);
        lemma_divisor_of_two_primes(g as int, f1, f2);
        if f1 % g as int == 0 {
            lemma_no_order_dividing(n, f1 as nat, b, u1, d, g);
        } else {
            lemma_no_order_dividing(n, f2 as nat, b, u2, d, g);
        }
    }
}

/// A divisor of `n` leaves room for all `f1 * f2` distinct powers of `b`.
proof fn lemma_divisor_is_large(n: int, f1: int, f2: int, b: int, u1: int, u2: int, d: int)
    requires
        has_order(n, f1, f2, b, u1, u2),
        d > 1,
        n % d == 0,
    ensures
        d > f1 * f2,
{
    let f = (f1 * f2) as nat;
    assert(f1 * f2 > 0) by (nonlinear_arith)
        requires
            f1 > 1,
            f2 > 1,
    ;
    lemma_small_mod(1, n as nat);
    lemma_small_mod(1, d as nat);
    lemma_mod_of_divisor(pow(b, f), 1, n, d);
    let powers = Seq::new(f, |i: int| pow(b, i as nat) % d);
    assert forall|i: int| 0 <= i < f implies 1 <= #[trigger] powers[i] < d by {
        lemma_power_is_unit(b, i as nat, f, d);
        lemma_mod_bound(pow(b, i as nat), d);
    }
    assert forall|i: int, j: int| 0 <= i < j < f implies powers[i] != powers[j] by {
        if powers[i] == powers[j] {
            let k = (j - i) as nat;
            lemma_pow_adds(b, i as nat, k);
            lemma_power_is_unit(b, i as nat, f, d);
            let unit = pow(b, i as nat);
            let rest = pow(b, k);
            assert(rest * unit == unit * rest) by (nonlinear_arith);
            assert(1 * unit == unit) by (nonlinear_arith);
            lemma_cancel(rest, 1, unit, pow(b, (f - i) as nat), d);
            lemma_order_is_exact(n, f1, f2, b, u1, u2, d, k);
        }
    }
    assert(powers.no_duplicates());
    powers.unique_seq_to_set();
    lemma_int_range(1, d);
    assert(powers.to_set().subset_of(set_int_range(1, d)));
    lemma_len_subset(powers.to_set(), set_int_range(1, d));
}

/// An order above the square root of `n` makes `n` a prime.
pub proof fn lemma_prime_by_order(n: int, f1: int, f2: int, b: int, u1: int, u2: int)
    requires
        has_order(n, f1, f2, b, u1, u2),
        (f1 * f2) * (f1 * f2) > n,
    ensures
        is_prime(n),
{
    assert forall|d: int| 1 < d < n implies #[trigger] (n % d) != 0 by {
        if n % d == 0 {
            let c = n / d;
            lemma_fundamental_div_mod(n, d);
            assert(c > 1) by (nonlinear_arith)
                requires
                    n == d * c,
                    1 < d < n,
            ;
            lemma_mod_multiples_basic(d, c);
            lemma_divisor_is_large(n, f1, f2, b, u1, u2, d);
            lemma_divisor_is_large(n, f1, f2, b, u1, u2, c);
            let f = f1 * f2;
            assert(f > 0) by (nonlinear_arith)
                requires
                    f == f1 * f2,
                    f1 > 1,
                    f2 > 1,
            ;
            assert(d * c > f * f) by (nonlinear_arith)
                requires
                    d > f,
                    c > f,
                    f > 0,
            ;
        }
    }
}

/// One more factor of `b`: from `b^e` to `b^(e + 1)`.
pub proof fn lemma_pow_next(n: int, b: int, e: nat, x: int, y: int)
    requires
        n > 0,
        pow(b, e) % n == x % n,
        (x * b) % n == y,
    ensures
        pow(b, e + 1) % n == y % n,
{
    lemma_pow_adds(b, e, 1);
    lemma_pow1(b);
    lemma_mul_congruent(pow(b, e), x, b, b, n);
    lemma_mod_twice(x * b, n);
}

/// Four more binary digits of the exponent: from `b^e` to `b^(16 e + w)`.
pub proof fn lemma_pow_window(n: int, b: int, e: nat, x: int, w: nat, bw: int, y: int)
    requires
        n > 0,
        pow(b, e) % n == x % n,
        pow(b, w) % n == bw % n,
        (x * x * x * x * x * x * x * x * x * x * x * x * x * x * x * x * bw) % n == y,
    ensures
        pow(b, 16 * e + w) % n == y % n,
{
    let x16 = x * x * x * x * x * x * x * x * x * x * x * x * x * x * x * x;
    lemma_pow_mod_noop(pow(b, e), 16, n);
    lemma_pow_mod_noop(x, 16, n);
    lemma_pow_multiplies(b, e, 16);
    reveal_with_fuel(pow, 17);
    assert(pow(x, 16) == x16) by (nonlinear_arith)
        requires
            pow(x, 16) == x * (x * (x * (x * (x * (x * (x * (x * (x * (x * (x * (x * (x * (x * (x
                * (x * 1))))))))))))))),
            x16 == x * x * x * x * x * x * x * x * x * x * x * x * x * x * x * x,
    ;
    lemma_pow_adds(b, e * 16, w);
    lemma_mul_congruent(pow(b, e * 16), x16, pow(b, w), bw, n);
    assert(e * 16 + w == 16 * e + w);
    lemma_mod_twice(x16 * bw, n);
}

/// A power of a power: from `b^e` and `(b^e)^f` to `b^(e f)`.
pub proof fn lemma_pow_tower(n: int, b: int, e: nat, x: int, f: nat, y: int)
    requires
        n > 0,
        pow(b, e) % n == x % n,
        pow(x, f) % n == y % n,
    ensures
        pow(b, e * f) % n == y % n,
{
    lemma_pow_multiplies(b, e, f);
    lemma_pow_mod_noop(pow(b, e), f, n);
    lemma_pow_mod_noop(x, f, n);
}

/// The certificate in the form in which it is written down: the powers of `b` by
/// their remainders.
pub proof fn lemma_prime_by_certificate(
    n: int,
    f1: int,
    f2: int,
    b: int,
    x1: int,
    x2: int,
    u1: int,
    u2: int,
)
    requires
        n > 1,
        is_prime(f1),
        is_prime(f2),
        (f1 * f2) * (f1 * f2) > n,
        pow(b, f1 as nat) % n == x1 % n,
        pow(b, f2 as nat) % n == x2 % n,
        pow(b, (f1 * f2) as nat) % n == 1,
        ((x1 - 1) * u1) % n == 1,
        ((x2 - 1) * u2) % n == 1,
    ensures
        is_prime(n),
{
    lemma_sub_congruent(pow(b, f1 as nat), x1, 1, 1, n);
    lemma_sub_congruent(pow(b, f2 as nat), x2, 1, 1, n);
    lemma_mul_congruent(pow(b, f1 as nat) - 1, x1 - 1, u1, u1, n);
    lemma_mul_congruent(pow(b, f2 as nat) - 1, x2 - 1, u2, u2, n);
    lemma_prime_by_order(n, f1, f2, b, u1, u2);
}

} // verus!
