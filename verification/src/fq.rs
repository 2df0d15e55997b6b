//! Elements of the BLS12-377 base field in scalar form: Montgomery form with
//! `R = 2^384` over six 64-bit limbs.

use crate::arith::{lemma_cancel, lemma_congruent_by, lemma_mul_congruent};
use crate::field::{
    fadd, finv, fmul, fsub, is_element, lemma_element, lemma_finv, lemma_fmul_cancel,
    lemma_fmul_commutes, lemma_modulus, modulus,
};
use crate::limbs::{
    digits, lemma_add_column, lemma_mac_column, lemma_sub_column, lemma_value_bound,
    lemma_value_injective, lemma_value_same, lemma_value_shift, value, weight,
};
use crate::montgomery::{lemma_clearing, lemma_decode_linear, lemma_decode_mul, lemma_round};
use crate::prime::is_prime;
use vstd::arithmetic::div_mod::*;
use vstd::arithmetic::mul::*;
use vstd::prelude::*;

verus! {

/// The number of 64-bit limbs of an element.
pub const WORDS: usize = 6;

/// The number of limbs of an accumulator: one more than an element has.
const WIDE: usize = 7;

/// The modulus.
const P: [u64; WORDS] = [
    0x8508c00000000001,
    0x170b5d4430000000,
    0x1ef3622fba094800,
    0x1a22d9f300f5138f,
    0xc63b05c06ca1493b,
    0x1ae3a4617c510ea,
];

/// `-P^{-1} mod 2^64`.
const N0INV: u64 = 0x8508bfffffffffff;

/// `2^384 mod P`: the element one.
const R: [u64; WORDS] = [
    0x2cdffffffffff68,
    0x51409f837fffffb1,
    0x9f7db3a98a7d3ff2,
    0x7b4e97b76e7c6305,
    0x4cf495bf803c84e8,
    0x8d6661e2fdf49a,
];

/// `2^768 mod P`: what brings an integer into Montgomery form.
const R2: [u64; WORDS] = [
    0xb786686c9400cd22,
    0x329fcaab00431b1,
    0x22a5f11162d6b46d,
    0xbfdf7d03827dc3ac,
    0x837e92f041790bf9,
    0x6dfccb1e914b88,
];

/// The radix of the limbs.
pub open spec fn radix64() -> int {
    0x10000000000000000
}

/// The integer that six limbs stand for.
pub open spec fn val64(a: Seq<u64>) -> int {
    value(a, radix64(), 6)
}

/// The Montgomery factor of the scalar form, `2^384`.
pub open spec fn r384() -> int {
    weight(radix64(), 6)
}

/// The inverse of `2^384` modulo the modulus.
#[verifier::opaque]
pub open spec fn r384_inv() -> int {
    0x14212fc436b0736eb89746ca4c49351eeaaf41df7f2e657852e3c88a5582c936e20bbcde65839f5ef129093451269e8int
}

/// A base-field element.
#[derive(Copy, Clone, Debug, PartialEq, Eq)]
pub struct Fq(pub [u64; WORDS]);

impl Fq {
    /// The limbs stand for an integer below the modulus.
    pub open spec fn wf(self) -> bool {
        val64(self.0@) < modulus()
    }

    /// The field element that the limbs stand for.
    pub open spec fn view(self) -> int {
        (val64(self.0@) * r384_inv()) % modulus()
    }
}

proof fn lemma_weights64()
    ensures
        weight(radix64(), 0) == 1,
        weight(radix64(), 1) == 0x10000000000000000int,
        weight(radix64(), 2) == 0x100000000000000000000000000000000int,
        weight(radix64(), 3) == 0x1000000000000000000000000000000000000000000000000int,
        weight(radix64(), 4) == 0x10000000000000000000000000000000000000000000000000000000000000000int,
        weight(radix64(), 5) == 0x100000000000000000000000000000000000000000000000000000000000000000000000000000000int,
        r384() == 0x1000000000000000000000000000000000000000000000000000000000000000000000000000000000000000000000000int,
{
    reveal_with_fuel(weight, 7);
}

/// The value of six limbs, written out.
pub proof fn lemma_value_6(s: Seq<u64>)
    ensures
        val64(s) == s[0] + s[1] * 0x10000000000000000int
            + s[2] * 0x100000000000000000000000000000000int
            + s[3] * 0x1000000000000000000000000000000000000000000000000int
            + s[4] * 0x10000000000000000000000000000000000000000000000000000000000000000int
            + s[5] * 0x100000000000000000000000000000000000000000000000000000000000000000000000000000000int,
{
    lemma_weights64();
    reveal_with_fuel(value, 7);
}

/// What the constants of the scalar form are.
pub proof fn lemma_r384()
    ensures
        (r384() * r384_inv()) % modulus() == 1,
        r384() == 0x1000000000000000000000000000000000000000000000000000000000000000000000000000000000000000000000000int,
        r384() > 4 * modulus(),
{
    lemma_weights64();
    reveal(r384_inv);
    reveal(modulus);
}

proof fn lemma_constants64()
    ensures
        val64(P@) == modulus(),
        val64(R@) == r384() % modulus(),
        val64(R2@) == (r384() * r384()) % modulus(),
        (N0INV * P[0] + 1) % radix64() == 0,
{
    lemma_value_6(P@);
    lemma_value_6(R@);
    lemma_value_6(R2@);
    lemma_weights64();
    reveal(modulus);
}

/// Every sequence of words is a sequence of digits.
proof fn lemma_digits64(s: Seq<u64>)
    ensures
        digits(s, radix64(), 6),
        0 <= val64(s) < r384(),
{
    lemma_value_bound(s, radix64(), 6);
}

/// Elements are determined by what they stand for.
pub proof fn lemma_fq_injective(a: Fq, b: Fq)
    requires
        a.wf(),
        b.wf(),
        a@ == b@,
    ensures
        a == b,
{
    lemma_modulus();
    lemma_r384();
    lemma_digits64(a.0@);
    lemma_digits64(b.0@);
    lemma_mul_is_commutative(r384(), r384_inv());
    lemma_cancel(val64(a.0@), val64(b.0@), r384_inv(), r384(), modulus());
    lemma_element(val64(a.0@));
    lemma_element(val64(b.0@));
    lemma_value_injective(a.0@, b.0@, radix64(), 6);
    assert(a.0@ =~= b.0@);
    assert(a.0 == b.0);
}

/// What an element stands for is a field element, and zero only for zero limbs.
pub proof fn lemma_fq_view(a: Fq)
    requires
        a.wf(),
    ensures
        is_element(a@),
        a@ == 0 <==> val64(a.0@) == 0,
{
    let p = modulus();
    let v = val64(a.0@);
    lemma_modulus();
    lemma_r384();
    lemma_digits64(a.0@);
    lemma_mod_bound(v * r384_inv(), p);
    lemma_small_mod(0, p as nat);
    lemma_mul_basics(r384_inv());
    if a@ == 0 {
        lemma_mul_is_commutative(r384(), r384_inv());
        lemma_cancel(v, 0, r384_inv(), r384(), p);
        lemma_element(v);
    }
}

/// One multiply-accumulate: the low word of `a * b + t + carry`, and the high one.
fn mac64(a: u64, b: u64, t: u64, carry: u64) -> (r: (u64, u64))
    ensures
        r.0 + r.1 * radix64() == a * b + t + carry,
{
    assert(a * b <= 0xffffffffffffffff * 0xffffffffffffffff) by (nonlinear_arith)
        requires
            a <= 0xffffffffffffffff,
            b <= 0xffffffffffffffff,
    ;
    let prod: u128 = (a as u128) * (b as u128) + (t as u128) + (carry as u128);
    let low: u128 = prod % 0x10000000000000000;
    let high: u128 = prod / 0x10000000000000000;
    (low as u64, high as u64)
}

/// Adds two numbers, and returns what is carried out of the top limb.
fn add_words(a: &[u64; WORDS], b: &[u64; WORDS]) -> (r: ([u64; WORDS], u64))
    ensures
        val64(r.0@) + r.1 * r384() == val64(a@) + val64(b@),
        r.1 <= 1,
{
    let mut out: [u64; WORDS] = [0u64; WORDS];
    let mut carry: u64 = 0;
    let mut j: usize = 0;
    while j < WORDS
        invariant
            j <= WORDS,
            carry <= 1,
            value(out@, radix64(), j as nat) + carry * weight(radix64(), j as nat) == value(
                a@,
                radix64(),
                j as nat,
            ) + value(b@, radix64(), j as nat),
        decreases WORDS - j,
    {
        let ghost before = out@;
        let v: u128 = (a[j] as u128) + (b[j] as u128) + (carry as u128);
        let low: u128 = v % 0x10000000000000000;
        let high: u128 = v / 0x10000000000000000;
        out[j] = low as u64;
        proof {
            let w = radix64();
            lemma_value_same(before, out@, w, j as nat);
            lemma_add_column(
                w,
                weight(w, j as nat),
                value(out@, w, j as nat),
                carry as int,
                value(a@, w, j as nat),
                value(b@, w, j as nat),
                a[j as int] as int,
                b[j as int] as int,
                low as int,
                high as int,
            );
        }
        carry = high as u64;
        j += 1;
    }
    (out, carry)
}

/// Subtracts two numbers, and returns what is borrowed by the top limb.
fn sub_words(a: &[u64; WORDS], b: &[u64; WORDS]) -> (r: ([u64; WORDS], u64))
    ensures
        val64(r.0@) - r.1 * r384() == val64(a@) - val64(b@),
        r.1 <= 1,
{
    let mut out: [u64; WORDS] = [0u64; WORDS];
    let mut borrow: u64 = 0;
    let mut j: usize = 0;
    while j < WORDS
        invariant
            j <= WORDS,
            borrow <= 1,
            value(out@, radix64(), j as nat) - borrow * weight(radix64(), j as nat) == value(
                a@,
                radix64(),
                j as nat,
            ) - value(b@, radix64(), j as nat),
        decreases WORDS - j,
    {
        let ghost before = out@;
        let v: u128 = (0x10000000000000000 + (a[j] as u128)) - (b[j] as u128) - (borrow as u128);
        let low: u128 = v % 0x10000000000000000;
        let high: u128 = 1 - v / 0x10000000000000000;
        out[j] = low as u64;
        proof {
            let w = radix64();
            lemma_value_same(before, out@, w, j as nat);
            lemma_sub_column(
                w,
                weight(w, j as nat),
                value(out@, w, j as nat),
                borrow as int,
                value(a@, w, j as nat),
                value(b@, w, j as nat),
                a[j as int] as int,
                b[j as int] as int,
                low as int,
                high as int,
            );
        }
        borrow = high as u64;
        j += 1;
    }
    (out, borrow)
}

/// The lowest bit that a right shift carries down into limb `j`.
spec fn bit_above(t: Seq<u64>, j: int) -> int {
    if j < 6 {
        t[j] as int % 2
    } else {
        0
    }
}

/// A number is even exactly where its lowest limb is.
proof fn lemma_parity(s: Seq<u64>)
    ensures
        val64(s) % 2 == s[0] as int % 2,
{
    lemma_value_6(s);
}

/// Halves an even number.
fn shift_down(t: &[u64; WORDS]) -> (out: [u64; WORDS])
    requires
        t[0] % 2 == 0,
    ensures
        2 * val64(out@) == val64(t@),
{
    let mut out: [u64; WORDS] = [0u64; WORDS];
    let mut j: usize = 0;
    while j < WORDS
        invariant
            j <= WORDS,
            t[0] % 2 == 0,
            2 * value(out@, radix64(), j as nat) == value(t@, radix64(), j as nat) + bit_above(
                t@,
                j as int,
            ) * weight(radix64(), j as nat),
        decreases WORDS - j,
    {
        let carry_in: u64 = if j + 1 < WORDS {
            t[j + 1] % 2
        } else {
            0
        };
        let ghost before = out@;
        let x: u64 = t[j];
        out[j] = x / 2 + carry_in * 0x8000000000000000;
        proof {
            let w = radix64();
            assert(carry_in == bit_above(t@, j + 1));
            lemma_value_same(before, out@, w, j as nat);
            let r = weight(w, j as nat);
            let b = bit_above(t@, j as int);
            assert(2 * (out[j as int] * r) == x * r - b * r + carry_in * (w * r)) by (nonlinear_arith)
                requires
                    2 * out[j as int] == x - b + carry_in * w,
            ;
        }
        j += 1;
    }
    out
}

/// Subtracts the modulus once where the number reaches it.
fn reduce_once(x: [u64; WORDS]) -> (out: [u64; WORDS])
    requires
        val64(x@) < 2 * modulus(),
    ensures
        val64(out@) < modulus(),
        val64(out@) == if val64(x@) >= modulus() {
            val64(x@) - modulus()
        } else {
            val64(x@)
        },
{
    proof {
        lemma_constants64();
        lemma_modulus();
    }
    let (d, borrow) = sub_words(&x, &P);
    proof {
        lemma_digits64(d@);
        lemma_digits64(x@);
        lemma_r384();
    }
    if borrow == 0 {
        d
    } else {
        x
    }
}

/// Adds `a * m` to the low six limbs of `t`, and returns what is carried out of them.
fn add_row64(t: &mut [u64; WIDE], a: &[u64; WORDS], m: u64) -> (carry: u64)
    ensures
        val64(final(t)@) + carry * r384() == val64(old(t)@) + val64(a@) * m,
        final(t)[6] == old(t)[6],
{
    let ghost start = t@;
    let mut carry: u64 = 0;
    let mut j: usize = 0;
    while j < WORDS
        invariant
            j <= WORDS,
            start.len() == 7,
            forall|k: int| j <= k < 7 ==> #[trigger] t[k] == start[k],
            value(t@, radix64(), j as nat) + carry * weight(radix64(), j as nat) == value(
                start,
                radix64(),
                j as nat,
            ) + value(a@, radix64(), j as nat) * m,
        decreases WORDS - j,
    {
        let ghost before = t@;
        assert(t[j as int] == start[j as int]);
        let (lo, hi) = mac64(a[j], m, t[j], carry);
        t[j] = lo;
        proof {
            let w = radix64();
            lemma_value_same(before, t@, w, j as nat);
            lemma_mac_column(
                w,
                weight(w, j as nat),
                value(t@, w, j as nat),
                carry as int,
                value(start, w, j as nat),
                value(a@, w, j as nat),
                m as int,
                a[j as int] as int,
                start[j as int] as int,
                lo as int,
                hi as int,
            );
        }
        carry = hi;
        j += 1;
    }
    carry
}

/// The lowest limb is the value modulo the radix.
proof fn lemma_low_limb64(s: Seq<u64>)
    ensures
        val64(s) % radix64() == s[0],
{
    lemma_value_6(s);
}

/// One round of the Montgomery product: `t := (t + a * b + m P) / 2^64`.
#[verifier::rlimit(40)]
fn mul_round64(t: &mut [u64; WIDE], a: &[u64; WORDS], b: u64) -> (m: u64)
    requires
        old(t)[6] == 0,
        val64(a@) < modulus(),
        val64(old(t)@) < 2 * modulus(),
    ensures
        final(t)[6] == 0,
        val64(final(t)@) * radix64() == val64(old(t)@) + val64(a@) * b + modulus() * m,
{
    let ghost w = radix64();
    let ghost t0 = t@;
    proof {
        lemma_constants64();
        lemma_modulus();
        lemma_r384();
        lemma_digits64(a@);
    }
    let carry: u64 = add_row64(t, a, b);
    let ghost t1 = t@;
    let m: u64 = t[0].wrapping_mul(N0INV);
    let carry2: u64 = add_row64(t, &P, m);
    let ghost t2 = t@;
    proof {
        lemma_clearing(w, N0INV as int, P[0] as int, t1[0] as int, m as int);
        lemma_low_limb64(t1);
        lemma_low_limb64(t2);
        lemma_low_limb64(P@);
        let total = val64(t1) + val64(P@) * m;
        assert(r384() == 0x100000000000000000000000000000000000000000000000000000000000000000000000000000000int * w);
        assert(val64(t2) - total == (-(carry2 * 0x100000000000000000000000000000000000000000000000000000000000000000000000000000000int)) * w) by (nonlinear_arith)
            requires
                val64(t2) + carry2 * r384() == total,
                r384() == 0x100000000000000000000000000000000000000000000000000000000000000000000000000000000int * w,
        ;
        lemma_congruent_by(val64(t2), total, -(carry2 * 0x100000000000000000000000000000000000000000000000000000000000000000000000000000000int), w);
        lemma_mul_congruent(val64(P@), P[0] as int, m as int, m as int, w);
        lemma_add_mod_noop(val64(t1), val64(P@) * m, w);
        lemma_add_mod_noop(t1[0] as int, P[0] * m, w);
        lemma_mul_is_commutative(P[0] as int, m as int);
        assert(t2[0] == 0);
        // The carries are small: the whole sum is below `2^448`.
        let sum = val64(t0) + val64(a@) * b + val64(P@) * m;
        lemma_digits64(t2);
        assert(val64(a@) * b < modulus() * w && val64(P@) * m < modulus() * w) by (nonlinear_arith)
            requires
                0 <= val64(a@) < modulus(),
                val64(P@) == modulus(),
                modulus() > 0,
                b < w,
                m < w,
        ;
        assert((carry + carry2) * r384() == carry * r384() + carry2 * r384()) by (nonlinear_arith);
        assert((carry + carry2) * r384() <= sum);
        assert(sum < r384() * w) by {
            reveal(modulus);
        }
        assert(carry + carry2 < w) by (nonlinear_arith)
            requires
                (carry + carry2) * r384() < r384() * w,
                r384() > 0,
        ;
    }
    t[6] = carry + carry2;
    let ghost s = t@;
    let mut j: usize = 0;
    while j < WORDS
        invariant
            j <= WORDS,
            s.len() == 7,
            forall|q: int| 0 <= q < j ==> #[trigger] t[q] == s[q + 1],
            forall|q: int| j <= q < 7 ==> #[trigger] t[q] == s[q],
        decreases WORDS - j,
    {
        assert(t[j + 1] == s[j + 1]);
        t[j] = t[j + 1];
        j += 1;
    }
    t[6] = 0;
    proof {
        lemma_value_shift(s, t@, w, 6);
        lemma_value_same(s, t2, w, 6);
        assert(value(s, w, 7) == value(s, w, 6) + s[6] * r384());
        lemma_mul_is_commutative(modulus(), m as int);
    }
    m
}

impl Fq {
    /// The element zero.
    pub fn zero() -> (out: Fq)
        ensures
            out.wf(),
            out@ == 0,
    {
        let out = Fq([0u64; WORDS]);
        proof {
            lemma_value_6(out.0@);
            lemma_modulus();
            lemma_fq_view(out);
        }
        out
    }

    /// The element one.
    pub fn one() -> (out: Fq)
        ensures
            out.wf(),
            out@ == 1,
    {
        proof {
            lemma_constants64();
            lemma_modulus();
            lemma_r384();
            lemma_mod_bound(r384(), modulus());
            lemma_mul_mod_noop_left(r384(), r384_inv(), modulus());
        }
        Fq(R)
    }

    /// Whether the element is zero.
    pub fn is_zero(&self) -> (zero: bool)
        requires
            self.wf(),
        ensures
            zero == (self@ == 0),
    {
        proof {
            lemma_fq_view(*self);
            lemma_value_6(self.0@);
        }
        self.0[0] == 0 && self.0[1] == 0 && self.0[2] == 0 && self.0[3] == 0 && self.0[4] == 0
            && self.0[5] == 0
    }

    /// The sum of two elements.
    pub fn plus(&self, other: &Fq) -> (out: Fq)
        requires
            self.wf(),
            other.wf(),
        ensures
            out.wf(),
            out@ == fadd(self@, other@),
            val64(out.0@) == fadd(val64(self.0@), val64(other.0@)),
    {
        let (sum, carry) = add_words(&self.0, &other.0);
        proof {
            let p = modulus();
            lemma_r384();
            lemma_modulus();
            lemma_digits64(sum@);
            lemma_digits64(self.0@);
            lemma_digits64(other.0@);
            lemma_decode_linear(val64(self.0@), val64(other.0@), r384_inv(), p);
            if val64(sum@) < p {
                lemma_small_mod(val64(sum@) as nat, p as nat);
            } else {
                lemma_fundamental_div_mod_converse(val64(sum@), p, 1, val64(sum@) - p);
            }
        }
        Fq(reduce_once(sum))
    }

    /// The difference of two elements.
    pub fn minus(&self, other: &Fq) -> (out: Fq)
        requires
            self.wf(),
            other.wf(),
        ensures
            out.wf(),
            out@ == fsub(self@, other@),
            val64(out.0@) == fsub(val64(self.0@), val64(other.0@)),
    {
        let (diff, borrow) = sub_words(&self.0, &other.0);
        proof {
            let p = modulus();
            let (a, b) = (val64(self.0@), val64(other.0@));
            lemma_r384();
            lemma_modulus();
            lemma_constants64();
            lemma_digits64(diff@);
            lemma_digits64(self.0@);
            lemma_digits64(other.0@);
            lemma_decode_linear(a, b, r384_inv(), p);
            if borrow == 0 {
                lemma_small_mod((a - b) as nat, p as nat);
            } else {
                lemma_fundamental_div_mod_converse(a - b, p, -1, a - b + p);
            }
        }
        if borrow == 0 {
            Fq(diff)
        } else {
            let (fixed, carry) = add_words(&diff, &P);
            proof {
                lemma_digits64(fixed@);
            }
            Fq(fixed)
        }
    }

    /// The additive inverse of an element.
    pub fn negate(&self) -> (out: Fq)
        requires
            self.wf(),
        ensures
            out.wf(),
            out@ == fsub(0, self@),
    {
        Fq::zero().minus(self)
    }

    /// The product of two elements.
    pub fn times(&self, other: &Fq) -> (out: Fq)
        requires
            self.wf(),
            other.wf(),
        ensures
            out.wf(),
            out@ == fmul(self@, other@),
    {
        let ghost (x, y, p, w) = (val64(self.0@), val64(other.0@), modulus(), radix64());
        let mut t: [u64; WIDE] = [0u64; WIDE];
        let ghost mut k: int = 0;
        let mut i: usize = 0;
        proof {
            lemma_constants64();
            lemma_modulus();
            lemma_r384();
            lemma_digits64(self.0@);
            lemma_digits64(other.0@);
            lemma_value_6(t@);
            lemma_mul_basics(x);
        }
        while i < WORDS
            invariant
                i <= WORDS,
                self.wf(),
                x == val64(self.0@),
                p == modulus(),
                w == radix64(),
                0 <= x < p,
                p > 0,
                t[6] == 0,
                val64(t@) < 2 * p,
                val64(t@) * weight(w, i as nat) == x * value(other.0@, w, i as nat) + k * p,
                0 <= k < weight(w, i as nat),
            decreases WORDS - i,
        {
            let ghost t0 = val64(t@);
            let b: u64 = other.0[i];
            let m: u64 = mul_round64(&mut t, &self.0, b);
            proof {
                lemma_value_bound(other.0@, w, i as nat);
                lemma_round(
                    w,
                    p,
                    i as nat,
                    t0,
                    x,
                    value(other.0@, w, i as nat),
                    b as int,
                    k,
                    m as int,
                    val64(t@),
                );
                k = k + m * weight(w, i as nat);
            }
            i += 1;
        }
        let out: [u64; WORDS] = [t[0], t[1], t[2], t[3], t[4], t[5]];
        proof {
            let total = val64(t@);
            lemma_value_same(out@, t@, w, 6);
            lemma_congruent_by(total * r384(), x * y, k, p);
            assert((total - p) * r384() - x * y == (k - r384()) * p) by (nonlinear_arith)
                requires
                    total * r384() == x * y + k * p,
            ;
            lemma_congruent_by((total - p) * r384(), x * y, k - r384(), p);
            lemma_decode_mul(x, y, total, r384(), r384_inv(), p);
            lemma_decode_mul(x, y, total - p, r384(), r384_inv(), p);
        }
        Fq(reduce_once(out))
    }

    /// Half of an element.
    pub fn halve(&self) -> (out: Fq)
        requires
            self.wf(),
        ensures
            out.wf(),
            fadd(out@, out@) == self@,
            fadd(val64(out.0@), val64(out.0@)) == val64(self.0@),
    {
        let ghost p = modulus();
        proof {
            lemma_constants64();
            lemma_modulus();
            lemma_r384();
            lemma_digits64(self.0@);
            lemma_parity(self.0@);
        }
        let half: [u64; WORDS] = if self.0[0] % 2 == 1 {
            let (sum, carry) = add_words(&self.0, &P);
            proof {
                lemma_digits64(sum@);
                lemma_parity(sum@);
            }
            shift_down(&sum)
        } else {
            shift_down(&self.0)
        };
        proof {
            let v = val64(half@);
            lemma_digits64(half@);
            lemma_decode_linear(v, v, r384_inv(), p);
            if self.0[0] % 2 == 1 {
                lemma_fundamental_div_mod_converse(2 * v, p, 1, val64(self.0@));
            } else {
                lemma_small_mod(val64(self.0@) as nat, p as nat);
            }
        }
        Fq(half)
    }
}

/// The only positive common divisor of `u` and `v` is one.
spec fn coprime(u: int, v: int) -> bool {
    forall|d: int| d > 1 ==> !(#[trigger] (u % d) == 0 && v % d == 0)
}

/// A nonzero element shares no divisor with the prime modulus.
proof fn lemma_coprime_start(x: int)
    requires
        0 < x < modulus(),
    ensures
        coprime(x, modulus()),
{
    lemma_modulus();
    let p = modulus();
    assert forall|d: int| d > 1 implies !(#[trigger] (x % d) == 0 && p % d == 0) by {
        if x % d == 0 && p % d == 0 {
            assert(d >= p);
            lemma_small_mod(x as nat, d as nat);
        }
    }
}

/// Halving one of two coprime numbers keeps them coprime.
proof fn lemma_coprime_halved(u: int, h: int, v: int)
    requires
        u == 2 * h,
        coprime(u, v),
    ensures
        coprime(h, v),
{
    assert forall|d: int| d > 1 implies !(#[trigger] (h % d) == 0 && v % d == 0) by {
        if h % d == 0 && v % d == 0 {
            lemma_mul_mod_noop_right(2, h, d);
            lemma_mul_basics(2);
            lemma_small_mod(0, d as nat);
            assert(u % d == 0);
        }
    }
}

/// Subtracting one of two coprime numbers from the other keeps them coprime.
proof fn lemma_coprime_reduced(u: int, v: int)
    requires
        coprime(u, v),
    ensures
        coprime(u - v, v),
{
    assert forall|d: int| d > 1 implies !(#[trigger] ((u - v) % d) == 0 && v % d == 0) by {
        if (u - v) % d == 0 && v % d == 0 {
            lemma_add_mod_noop(u - v, v, d);
            lemma_small_mod(0, d as nat);
            assert(u % d == 0);
        }
    }
}

/// Coprimality does not depend on the order.
proof fn lemma_coprime_symmetric(u: int, v: int)
    requires
        coprime(u, v),
    ensures
        coprime(v, u),
{
    assert forall|d: int| d > 1 implies !(#[trigger] (v % d) == 0 && u % d == 0) by {
        assert(!(u % d == 0 && v % d == 0));
    }
}

/// Halving both sides of `b x = u r` modulo the modulus.
proof fn lemma_halved(b: int, u: int, h: int, g: int, x: int, r: int)
    requires
        (b * x) % modulus() == (u * r) % modulus(),
        u == 2 * h,
        fadd(g, g) == b,
    ensures
        (g * x) % modulus() == (h * r) % modulus(),
{
    let p = modulus();
    lemma_modulus();
    lemma_mod_twice(g + g, p);
    lemma_mul_congruent(g + g, b, x, x, p);
    assert((g + g) * x == g * x * 2) by (nonlinear_arith);
    assert(u * r == h * r * 2) by (nonlinear_arith)
        requires
            u == 2 * h,
    ;
    let inv = (p + 1) / 2;
    assert(2 * inv == p + 1);
    lemma_fundamental_div_mod_converse(2 * inv, p, 1, 1);
    lemma_cancel(g * x, h * r, 2, inv, p);
}

/// Subtracting two congruences `b x = u r` and `c x = v r` from each other.
proof fn lemma_reduced(b: int, u: int, c: int, v: int, g: int, x: int, r: int)
    requires
        (b * x) % modulus() == (u * r) % modulus(),
        (c * x) % modulus() == (v * r) % modulus(),
        fsub(b, c) == g,
    ensures
        (g * x) % modulus() == ((u - v) * r) % modulus(),
{
    let p = modulus();
    lemma_modulus();
    lemma_mod_twice(b - c, p);
    lemma_mul_congruent(g, b - c, x, x, p);
    lemma_sub_mod_noop(b * x, c * x, p);
    lemma_sub_mod_noop(u * r, v * r, p);
    assert((b - c) * x == b * x - c * x) by (nonlinear_arith);
    assert((u - v) * r == u * r - v * r) by (nonlinear_arith);
}

/// A raw product that gives `2^768` belongs to an inverse.
proof fn lemma_inverse_found(x: Fq, b: Fq)
    requires
        x.wf(),
        b.wf(),
        x@ != 0,
        (val64(b.0@) * val64(x.0@)) % modulus() == val64(R2@) % modulus(),
    ensures
        b@ == finv(x@),
{
    let p = modulus();
    lemma_modulus();
    lemma_r384();
    lemma_constants64();
    let (bv, xv, r, ri) = (val64(b.0@), val64(x.0@), r384(), r384_inv());
    lemma_mod_twice(r * r, p);
    // b x = r r, so (b ri)(x ri) = (r ri)(r ri) = 1.
    lemma_mul_mod_noop_general(bv * ri, xv * ri, p);
    lemma_mul_congruent(bv * xv, r * r, ri * ri, ri * ri, p);
    assert(bv * ri * (xv * ri) == bv * xv * (ri * ri)) by (nonlinear_arith);
    assert(r * r * (ri * ri) == r * ri * (r * ri)) by (nonlinear_arith);
    lemma_small_mod(1, p as nat);
    lemma_mul_congruent(r * ri, 1, r * ri, 1, p);
    assert(fmul(b@, x@) == 1);
    lemma_fq_view(x);
    lemma_fq_view(b);
    lemma_finv(x@);
    lemma_fmul_commutes(finv(x@), x@);
    lemma_fmul_cancel(b@, finv(x@), x@);
}

/// Whether six limbs stand for one.
fn is_one_word(a: &[u64; WORDS]) -> (one: bool)
    ensures
        one == (val64(a@) == 1),
{
    proof {
        lemma_value_6(a@);
    }
    a[0] == 1 && a[1] == 0 && a[2] == 0 && a[3] == 0 && a[4] == 0 && a[5] == 0
}

impl Fq {
    /// The multiplicative inverse, by the binary extended Euclidean algorithm; zero has
    /// none.
    #[verifier::rlimit(40)]
    pub fn inverse(&self) -> (out: Option<Fq>)
        requires
            self.wf(),
        ensures
            out is None <==> self@ == 0,
            out is Some ==> out->0.wf() && out->0@ == finv(self@),
    {
        if self.is_zero() {
            return None;
        }
        let ghost (x, p, r2) = (val64(self.0@), modulus(), val64(R2@));
        let mut u: [u64; WORDS] = self.0;
        let mut v: [u64; WORDS] = P;
        let mut b: Fq = Fq(R2);
        let mut c: Fq = Fq::zero();
        proof {
            lemma_modulus();
            lemma_constants64();
            lemma_r384();
            lemma_fq_view(*self);
            lemma_fq_view(c);
            lemma_digits64(self.0@);
            lemma_mod_bound(r384() * r384(), p);
            lemma_coprime_start(x);
            lemma_mul_is_commutative(r2, x);
            lemma_mul_basics(x);
            lemma_mod_multiples_vanish(r2, 0, p);
            assert(p * r2 + 0 == p * r2);
            lemma_small_mod(0, p as nat);
        }
        while !is_one_word(&u) && !is_one_word(&v)
            invariant
                self.wf(),
                x == val64(self.0@),
                p == modulus(),
                r2 == val64(R2@),
                b.wf(),
                c.wf(),
                val64(u@) > 0,
                val64(v@) > 0,
                coprime(val64(u@), val64(v@)),
                (val64(b.0@) * x) % p == (val64(u@) * r2) % p,
                (val64(c.0@) * x) % p == (val64(v@) * r2) % p,
            decreases val64(u@) + val64(v@),
        {
            proof {
                lemma_parity(u@);
                lemma_parity(v@);
            }
            if u[0] % 2 == 0 {
                let h: [u64; WORDS] = shift_down(&u);
                let g: Fq = b.halve();
                proof {
                    lemma_coprime_halved(val64(u@), val64(h@), val64(v@));
                    lemma_halved(val64(b.0@), val64(u@), val64(h@), val64(g.0@), x, r2);
                }
                u = h;
                b = g;
            } else if v[0] % 2 == 0 {
                let h: [u64; WORDS] = shift_down(&v);
                let g: Fq = c.halve();
                proof {
                    lemma_coprime_symmetric(val64(u@), val64(v@));
                    lemma_coprime_halved(val64(v@), val64(h@), val64(u@));
                    lemma_coprime_symmetric(val64(h@), val64(u@));
                    lemma_halved(val64(c.0@), val64(v@), val64(h@), val64(g.0@), x, r2);
                }
                v = h;
                c = g;
            } else {
                let (d, borrow) = sub_words(&v, &u);
                proof {
                    lemma_digits64(d@);
                    lemma_digits64(u@);
                    lemma_digits64(v@);
                    if val64(u@) == val64(v@) {
                        lemma_mod_self_0(val64(u@));
                        assert(val64(u@) % val64(u@) == 0);
                    }
                }
                if borrow == 1 {
                    let (e, _) = sub_words(&u, &v);
                    let g: Fq = b.minus(&c);
                    proof {
                        lemma_digits64(e@);
                        lemma_coprime_reduced(val64(u@), val64(v@));
                        lemma_reduced(
                            val64(b.0@),
                            val64(u@),
                            val64(c.0@),
                            val64(v@),
                            val64(g.0@),
                            x,
                            r2,
                        );
                    }
                    u = e;
                    b = g;
                } else {
                    let g: Fq = c.minus(&b);
                    proof {
                        lemma_coprime_symmetric(val64(u@), val64(v@));
                        lemma_coprime_reduced(val64(v@), val64(u@));
                        lemma_coprime_symmetric(val64(v@) - val64(u@), val64(u@));
                        lemma_reduced(
                            val64(c.0@),
                            val64(v@),
                            val64(b.0@),
                            val64(u@),
                            val64(g.0@),
                            x,
                            r2,
                        );
                    }
                    v = d;
                    c = g;
                }
            }
        }
        proof {
            lemma_mul_basics(r2);
        }
        if is_one_word(&u) {
            proof {
                lemma_inverse_found(*self, b);
            }
            Some(b)
        } else {
            proof {
                lemma_inverse_found(*self, c);
            }
            Some(c)
        }
    }
}

} // verus!
