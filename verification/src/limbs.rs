//! Little-endian limb sequences and the integers they stand for.

use vstd::arithmetic::mul::*;
use vstd::prelude::*;

verus! {

/// The weight of limb `i` in radix `w`.
pub open spec fn weight(w: int, i: nat) -> int
    decreases i,
{
    if i == 0 {
        1
    } else {
        w * weight(w, (i - 1) as nat)
    }
}

/// The integer that the first `n` limbs of `s` stand for in radix `w`.
pub open spec fn value(s: Seq<u64>, w: int, n: nat) -> int
    decreases n,
{
    if n == 0 {
        0
    } else {
        value(s, w, (n - 1) as nat) + s[n - 1] * weight(w, (n - 1) as nat)
    }
}

/// Every one of the first `n` limbs is a digit in radix `w`.
pub open spec fn digits(s: Seq<u64>, w: int, n: nat) -> bool {
    forall|j: int| 0 <= j < n ==> #[trigger] s[j] < w
}

/// Weights are positive.
pub proof fn lemma_weight_positive(w: int, i: nat)
    requires
        w > 0,
    ensures
        weight(w, i) > 0,
    decreases i,
{
    if i > 0 {
        lemma_weight_positive(w, (i - 1) as nat);
        lemma_mul_strictly_positive(w, weight(w, (i - 1) as nat));
    }
}

/// The value depends on the counted limbs alone.
pub proof fn lemma_value_same(s: Seq<u64>, t: Seq<u64>, w: int, n: nat)
    requires
        forall|j: int| 0 <= j < n ==> #[trigger] s[j] == t[j],
    ensures
        value(s, w, n) == value(t, w, n),
    decreases n,
{
    if n > 0 {
        lemma_value_same(s, t, w, (n - 1) as nat);
    }
}

/// Values are never negative.
pub proof fn lemma_value_nonnegative(s: Seq<u64>, w: int, n: nat)
    requires
        w > 0,
    ensures
        0 <= value(s, w, n),
    decreases n,
{
    if n > 0 {
        lemma_value_nonnegative(s, w, (n - 1) as nat);
        lemma_weight_positive(w, (n - 1) as nat);
        lemma_mul_nonnegative(s[n - 1] as int, weight(w, (n - 1) as nat));
    }
}

/// The value of `n` digits lies below the weight of position `n`.
pub proof fn lemma_value_bound(s: Seq<u64>, w: int, n: nat)
    requires
        w > 0,
        digits(s, w, n),
    ensures
        0 <= value(s, w, n) < weight(w, n),
    decreases n,
{
    if n > 0 {
        let k = (n - 1) as nat;
        lemma_value_bound(s, w, k);
        lemma_weight_positive(w, k);
        let x = s[k as int] as int;
        let r = weight(w, k);
        assert(0 <= x * r && x * r + r <= w * r) by (nonlinear_arith)
            requires
                0 <= x < w,
                r > 0,
        ;
    }
}

/// A value below the weight of its top position has a zero top limb; in general the
/// top limb is bounded by the value.
pub proof fn lemma_top_limb(s: Seq<u64>, w: int, n: nat, bound: int)
    requires
        w > 0,
        n > 0,
        value(s, w, n) < bound * weight(w, (n - 1) as nat),
    ensures
        s[n - 1] < bound,
{
    let k = (n - 1) as nat;
    lemma_value_nonnegative(s, w, k);
    lemma_weight_positive(w, k);
    let x = s[k as int] as int;
    let r = weight(w, k);
    assert(x < bound) by (nonlinear_arith)
        requires
            x * r < bound * r,
            r > 0,
    ;
}

/// Digits are determined by the value they stand for.
pub proof fn lemma_value_injective(s: Seq<u64>, t: Seq<u64>, w: int, n: nat)
    requires
        w > 0,
        digits(s, w, n),
        digits(t, w, n),
        value(s, w, n) == value(t, w, n),
    ensures
        forall|j: int| 0 <= j < n ==> #[trigger] s[j] == t[j],
    decreases n,
{
    if n > 0 {
        let k = (n - 1) as nat;
        lemma_value_bound(s, w, k);
        lemma_value_bound(t, w, k);
        let r = weight(w, k);
        let (x, y) = (s[k as int] as int, t[k as int] as int);
        let (a, b) = (value(s, w, k), value(t, w, k));
        assert(x == y) by (nonlinear_arith)
            requires
                a + x * r == b + y * r,
                0 <= a < r,
                0 <= b < r,
        ;
        lemma_value_injective(s, t, w, k);
    }
}

/// One column of a multiply-accumulate: `v + c r` grows by the product of one limb.
pub proof fn lemma_mac_column(
    w: int,
    r: int,
    v: int,
    c: int,
    u: int,
    a: int,
    m: int,
    x: int,
    t: int,
    lo: int,
    hi: int,
)
    requires
        v + c * r == u + a * m,
        lo + hi * w == x * m + t + c,
    ensures
        (v + lo * r) + hi * (w * r) == (u + t * r) + (a + x * r) * m,
{
    assert((lo + hi * w) * r == (x * m + t + c) * r);
    assert((lo + hi * w) * r == lo * r + hi * (w * r)) by (nonlinear_arith);
    assert((x * m + t + c) * r == (x * r) * m + t * r + c * r) by (nonlinear_arith);
    assert((a + x * r) * m == a * m + (x * r) * m) by (nonlinear_arith);
}

/// One column of an addition with carry.
pub proof fn lemma_add_column(w: int, r: int, v: int, c: int, a: int, b: int, x: int, y: int, lo: int, hi: int)
    requires
        v + c * r == a + b,
        lo + hi * w == x + y + c,
    ensures
        (v + lo * r) + hi * (w * r) == (a + x * r) + (b + y * r),
{
    assert((lo + hi * w) * r == (x + y + c) * r);
    assert((lo + hi * w) * r == lo * r + hi * (w * r)) by (nonlinear_arith);
    assert((x + y + c) * r == x * r + y * r + c * r) by (nonlinear_arith);
}

/// One column of a subtraction with borrow.
pub proof fn lemma_sub_column(w: int, r: int, v: int, c: int, a: int, b: int, x: int, y: int, lo: int, hi: int)
    requires
        v - c * r == a - b,
        lo - hi * w == x - y - c,
    ensures
        (v + lo * r) - hi * (w * r) == (a + x * r) - (b + y * r),
{
    assert((lo - hi * w) * r == (x - y - c) * r);
    assert((lo - hi * w) * r == lo * r - hi * (w * r)) by (nonlinear_arith);
    assert((x - y - c) * r == x * r - y * r - c * r) by (nonlinear_arith);
}

/// Dropping the lowest limb divides the rest by the radix.
pub proof fn lemma_value_shift(s: Seq<u64>, t: Seq<u64>, w: int, n: nat)
    requires
        forall|j: int| 0 <= j < n ==> #[trigger] t[j] == s[j + 1],
    ensures
        value(s, w, n + 1) == s[0] + value(t, w, n) * w,
    decreases n,
{
    if n == 0 {
        reveal_with_fuel(value, 2);
        reveal_with_fuel(weight, 2);
    } else {
        let k = (n - 1) as nat;
        lemma_value_shift(s, t, w, k);
        let x = t[k as int] as int;
        let r = weight(w, k);
        let v = value(t, w, k);
        assert(x * (w * r) + v * w == (v + x * r) * w) by (nonlinear_arith);
        assert(weight(w, n) == w * r);
        assert(s[n as int] == x);
    }
}

} // verus!
