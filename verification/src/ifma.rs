//! An eight-lane backend for BLS12-377 `Fq` arithmetic in radix 2^52.
//!
//! The scalar representation is Montgomery form with `R = 2^384` over six 64-bit limbs.
//! A 52-bit multiply-add unit wants 52-bit operands, so this backend uses a second
//! Montgomery domain with `R = 2^416` over eight 52-bit limbs, and converts at the
//! boundary. Elements of a vector are held structure-of-arrays: limb `j` of all eight
//! elements is one row.
//!
//! Every operation states what it computes through [`decode`], the field element that
//! eight limbs stand for, so the vector path and the scalar path agree on every input.

use crate::arith::{lemma_cancel, lemma_congruent_by, lemma_mul_congruent};
use crate::field::{fadd, fmul, fsub, lemma_element, lemma_modulus, modulus};
use crate::limbs::{
    digits, lemma_add_column, lemma_mac_column, lemma_sub_column, lemma_top_limb,
    lemma_value_bound, lemma_value_injective, lemma_value_nonnegative, lemma_value_same,
    lemma_value_shift, lemma_weight_positive, value, weight,
};
use crate::montgomery::{lemma_clearing, lemma_decode_linear, lemma_decode_mul, lemma_round};
use vstd::arithmetic::div_mod::*;
use vstd::arithmetic::mul::*;
use vstd::prelude::*;

verus! {

/// The number of field elements processed per vector operation.
pub const LANES: usize = 8;

/// The number of 52-bit limbs needed to hold a 377-bit modulus.
pub const LIMBS: usize = 8;

/// The number of limbs of an accumulator: one more than an element has.
pub const WIDE: usize = 9;

pub const MASK: u64 = 0xfffffffffffff;

/// The BLS12-377 base field modulus, in radix 2^52.
pub const P: [u64; LIMBS] = [
    0x8c00000000001,
    0x4430000000850,
    0xa094800170b5d,
    0x138f1ef3622fb,
    0xb1a22d9f300f5,
    0x3b05c06ca1493,
    0xa4617c510eac6,
    0x0000000001ae3,
];

/// `-P^{-1} mod 2^52`.
pub const N0INV: u64 = 0x8bfffffffffff;

/// `2^448 mod P`. Shifts a value from the scalar domain (`R = 2^384`) into this one
/// directly, without first reducing to a canonical integer.
pub const TO_IFMA: [u64; LIMBS] = [
    0x07ccefe7c5a25,
    0x9dee49ccfcf9a,
    0x3dc3ff79f2a81,
    0xb7eaa16af28b0,
    0xe5d18e3b07d04,
    0x85efd62fb7463,
    0x8c84314d2bbc1,
    0x0000000000197,
];

/// `2^384 mod P`, the inverse shift.
pub const FROM_IFMA: [u64; LIMBS] = [
    0xdffffffffff68,
    0x837fffffb102c,
    0xa7d3ff251409f,
    0x63059f7db3a98,
    0x87b4e97b76e7c,
    0xf495bf803c84e,
    0x661e2fdf49a4c,
    0x00000000008d6,
];

/// The field element one, in this domain: `2^416 mod P`.
pub const ONE: [u64; LIMBS] = [
    0x33f67abdcbccf,
    0x13a714cde2ff1,
    0x80ef04efd57bd,
    0x68acd5a37c3a6,
    0x8c63c8655a9bd,
    0x7b4891129d194,
    0xb78d3aa6ef92f,
    0x0000000000028,
];

/// The field element one half, in this domain: `2^415 mod P`.
///
/// Montgomery representation is linear in the value it stands for, so halving the
/// representative halves the field element.
pub const HALF: [u64; LIMBS] = [
    0xdffb3d5ee5e68,
    0x2beb8a66f1c20,
    0x10c1c278a318d,
    0x3e1dfa4b6f351,
    0x1f02fb0245559,
    0xdb2728bf9f314,
    0x2df75b7bff1fa,
    0x0000000000d86,
];

/// The radix of the limbs.
pub open spec fn radix() -> int {
    0x10000000000000
}

/// The integer that eight limbs stand for.
pub open spec fn val(a: Seq<u64>) -> int {
    value(a, radix(), 8)
}

/// Eight limbs of 52 bits each.
pub open spec fn limbs_ok(a: Seq<u64>) -> bool {
    digits(a, radix(), 8)
}

/// Eight limbs of 52 bits each that stand for an integer below the modulus.
pub open spec fn canonical(a: Seq<u64>) -> bool {
    &&& limbs_ok(a)
    &&& val(a) < modulus()
}

/// The Montgomery factor of this domain, `2^416`.
pub open spec fn r416() -> int {
    weight(radix(), 8)
}

/// The inverse of `2^416` modulo the modulus.
#[verifier::opaque]
pub open spec fn r416_inv() -> int {
    0x13a259f1fe5cb37332e943238827ea3118096cb224db88ec05f148d9ae160eb3f3a915f22d7de52c77c0c8f48649094int
}

/// The field element that eight limbs stand for in this domain.
pub open spec fn decode(a: Seq<u64>) -> int {
    (val(a) * r416_inv()) % modulus()
}

pub proof fn lemma_weights()
    ensures
        weight(radix(), 0) == 1,
        weight(radix(), 1) == 0x10000000000000int,
        weight(radix(), 2) == 0x100000000000000000000000000int,
        weight(radix(), 3) == 0x1000000000000000000000000000000000000000int,
        weight(radix(), 4) == 0x10000000000000000000000000000000000000000000000000000int,
        weight(radix(), 5) == 0x100000000000000000000000000000000000000000000000000000000000000000int,
        weight(radix(), 6) == 0x1000000000000000000000000000000000000000000000000000000000000000000000000000000int,
        weight(radix(), 7) == 0x10000000000000000000000000000000000000000000000000000000000000000000000000000000000000000000int,
        r416() == 0x100000000000000000000000000000000000000000000000000000000000000000000000000000000000000000000000000000000int,
{
    reveal_with_fuel(weight, 9);
}

/// The value of eight limbs, written out.
pub proof fn lemma_value_8(s: Seq<u64>)
    ensures
        value(s, radix(), 8) == s[0] + s[1] * 0x10000000000000int
            + s[2] * 0x100000000000000000000000000int
            + s[3] * 0x1000000000000000000000000000000000000000int
            + s[4] * 0x10000000000000000000000000000000000000000000000000000int
            + s[5] * 0x100000000000000000000000000000000000000000000000000000000000000000int
            + s[6] * 0x1000000000000000000000000000000000000000000000000000000000000000000000000000000int
            + s[7] * 0x10000000000000000000000000000000000000000000000000000000000000000000000000000000000000000000int,
{
    lemma_weights();
    reveal_with_fuel(value, 9);
}

/// The constant `P` holds the modulus.
pub proof fn lemma_p()
    ensures
        limbs_ok(P@),
        val(P@) == modulus(),
{
    lemma_value_8(P@);
    reveal(modulus);
}

/// `r416_inv` is the inverse of the Montgomery factor.
pub proof fn lemma_r416()
    ensures
        (r416() * r416_inv()) % modulus() == 1,
        r416() > 2 * modulus(),
{
    lemma_weights();
    reveal(r416_inv);
    reveal(modulus);
}

/// Canonical limbs are determined by the field element they stand for.
pub proof fn lemma_decode_injective(a: Seq<u64>, b: Seq<u64>)
    requires
        a.len() == 8,
        b.len() == 8,
        canonical(a),
        canonical(b),
        decode(a) == decode(b),
    ensures
        a == b,
{
    lemma_modulus();
    lemma_r416();
    lemma_value_nonnegative(a, radix(), 8);
    lemma_value_nonnegative(b, radix(), 8);
    assert(r416() * r416_inv() == r416_inv() * r416()) by (nonlinear_arith);
    lemma_cancel(val(a), val(b), r416_inv(), r416(), modulus());
    lemma_element(val(a));
    lemma_element(val(b));
    lemma_value_injective(a, b, radix(), 8);
    assert(a =~= b);
}

/// What the constants stand for.
pub proof fn lemma_constants()
    ensures
        canonical(TO_IFMA@),
        canonical(FROM_IFMA@),
        canonical(ONE@),
        canonical(HALF@),
        val(TO_IFMA@) == 0x10000000000000000000000000000000000000000000000000000000000000000000000000000000000000000000000000000000000000000int
            % modulus(),
        val(FROM_IFMA@) == 0x1000000000000000000000000000000000000000000000000000000000000000000000000000000000000000000000000int
            % modulus(),
        val(ONE@) == r416() % modulus(),
        decode(ONE@) == 1,
        fadd(decode(HALF@), decode(HALF@)) == 1,
{
    lemma_value_8(TO_IFMA@);
    lemma_value_8(FROM_IFMA@);
    lemma_value_8(ONE@);
    lemma_value_8(HALF@);
    lemma_weights();
    lemma_r416();
    lemma_modulus();
    assert(val(ONE@) == r416() % modulus() && fadd(val(HALF@), val(HALF@)) == val(ONE@)) by {
        reveal(modulus);
    }
    assert(canonical(TO_IFMA@) && canonical(FROM_IFMA@) && canonical(ONE@) && canonical(HALF@)) by {
        reveal(modulus);
    }
    lemma_mul_mod_noop_left(r416(), r416_inv(), modulus());
    lemma_decode_linear(val(HALF@), val(HALF@), r416_inv(), modulus());
    reveal(modulus);
}

/// `x & MASK` and `x >> 52` split off the low 52 bits.
pub proof fn lemma_split(x: u64)
    ensures
        x & MASK == x % 0x10000000000000,
        x >> 52 == x / 0x10000000000000,
{
    assert(x & 0xfffffffffffff == x % 0x10000000000000) by (bit_vector);
    assert(x >> 52 == x / 0x10000000000000) by (bit_vector);
}

/// One multiply-accumulate: the low 52 bits of `a * b + t + carry`, and the rest.
fn mac(a: u64, b: u64, t: u64, carry: u64) -> (r: (u64, u64))
    requires
        a < radix(),
        b < radix(),
        t <= 0x20000000000000,
        carry <= 0x20000000000000,
    ensures
        r.0 + r.1 * radix() == a * b + t + carry,
        r.0 < radix(),
        r.1 <= 0x20000000000000,
{
    assert(a * b <= 0xfffffffffffff * 0xfffffffffffff) by (nonlinear_arith)
        requires
            a <= 0xfffffffffffff,
            b <= 0xfffffffffffff,
    ;
    let prod: u128 = (a as u128) * (b as u128) + (t as u128) + (carry as u128);
    let low: u64 = #[verifier::truncate] (prod as u64);
    let high: u128 = prod >> 52;
    assert((prod as u64) & 0xfffffffffffff == prod % 0x10000000000000) by (bit_vector);
    assert(prod >> 52 == prod / 0x10000000000000) by (bit_vector);
    (low & MASK, high as u64)
}

/// One subtraction with borrow: `x - y - borrow`, brought back into 52 bits.
fn sbb(x: u64, y: u64, borrow: u64) -> (r: (u64, u64))
    requires
        x < radix(),
        y < radix(),
        borrow <= 1,
    ensures
        r.0 - r.1 * radix() == x - y - borrow,
        r.0 < radix(),
        r.1 <= 1,
{
    if x < y + borrow {
        (x + 0x10000000000000 - y - borrow, 1)
    } else {
        (x - y - borrow, 0)
    }
}

/// Subtracts `P` from `x` if `x >= P`, leaving a canonical representative of a value
/// below `2 P`.
pub fn sub_p_if_ge(x: [u64; LIMBS]) -> (out: [u64; LIMBS])
    requires
        limbs_ok(x@),
    ensures
        limbs_ok(out@),
        val(out@) == if val(x@) >= modulus() {
            val(x@) - modulus()
        } else {
            val(x@)
        },
{
    let mut d: [u64; LIMBS] = [0u64; LIMBS];
    let mut borrow: u64 = 0;
    let mut j: usize = 0;
    proof {
        lemma_p();
    }
    while j < LIMBS
        invariant
            j <= LIMBS,
            limbs_ok(x@),
            limbs_ok(P@),
            borrow <= 1,
            digits(d@, radix(), j as nat),
            value(d@, radix(), j as nat) - borrow * weight(radix(), j as nat) == value(
                x@,
                radix(),
                j as nat,
            ) - value(P@, radix(), j as nat),
        decreases LIMBS - j,
    {
        let (lo, next) = sbb(x[j], P[j], borrow);
        let ghost before = d@;
        d[j] = lo;
        proof {
            let w = radix();
            lemma_value_same(before, d@, w, j as nat);
            lemma_sub_column(
                w,
                weight(w, j as nat),
                value(d@, w, j as nat),
                borrow as int,
                value(x@, w, j as nat),
                value(P@, w, j as nat),
                x[j as int] as int,
                P[j as int] as int,
                lo as int,
                next as int,
            );
        }
        borrow = next;
        j += 1;
    }
    proof {
        lemma_value_bound(d@, radix(), 8);
        lemma_value_bound(x@, radix(), 8);
        lemma_modulus();
        lemma_weights();
    }
    if borrow == 0 {
        d
    } else {
        x
    }
}

/// Adds `a * m` to the low eight limbs of `t`, and returns what is carried out of them.
fn add_row(t: &mut [u64; WIDE], a: &[u64; LIMBS], m: u64) -> (carry: u64)
    requires
        limbs_ok(a@),
        m < radix(),
        forall|j: int| 0 <= j < 8 ==> #[trigger] old(t)[j] <= 0x20000000000000,
    ensures
        value(final(t)@, radix(), 8) + carry * r416() == value(old(t)@, radix(), 8) + val(a@) * m,
        digits(final(t)@, radix(), 8),
        final(t)[8] == old(t)[8],
        carry <= 0x20000000000000,
{
    let ghost start = t@;
    let mut carry: u64 = 0;
    let mut j: usize = 0;
    while j < LIMBS
        invariant
            j <= LIMBS,
            limbs_ok(a@),
            m < radix(),
            carry <= 0x20000000000000,
            start.len() == 9,
            forall|k: int| 0 <= k < 8 ==> #[trigger] start[k] <= 0x20000000000000,
            forall|k: int| j <= k < 9 ==> #[trigger] t[k] == start[k],
            digits(t@, radix(), j as nat),
            value(t@, radix(), j as nat) + carry * weight(radix(), j as nat) == value(
                start,
                radix(),
                j as nat,
            ) + value(a@, radix(), j as nat) * m,
        decreases LIMBS - j,
    {
        let ghost before = t@;
        assert(t[j as int] == start[j as int]);
        let (lo, hi) = mac(a[j], m, t[j], carry);
        t[j] = lo;
        proof {
            let w = radix();
            lemma_value_same(before, t@, w, j as nat);
            lemma_mac_column(
                w,
                weight(w, j as nat),
                value(t@, w, j as nat),
                carry as int,
                value(start, w, j as nat),
                value(a@, w, j as nat),
                m as int,
                a[j as int] as int,
                start[j as int] as int,
                lo as int,
                hi as int,
            );
        }
        carry = hi;
        j += 1;
    }
    carry
}

/// The lowest limb is the value modulo the radix.
pub proof fn lemma_low_limb(s: Seq<u64>)
    ensures
        value(s, radix(), 8) % radix() == s[0] as int % radix(),
{
    let t = Seq::new(7, |j: int| s[j + 1]);
    lemma_value_shift(s, t, radix(), 7);
    lemma_congruent_by(value(s, radix(), 8), s[0] as int, value(t, radix(), 7), radix());
}

/// CIOS Montgomery multiplication in radix 2^52, returning a canonical result.
#[verifier::rlimit(40)]
pub fn mont_mul_ref(a: &[u64; LIMBS], b: &[u64; LIMBS]) -> (out: [u64; LIMBS])
    requires
        limbs_ok(a@),
        limbs_ok(b@),
        val(a@) * val(b@) < modulus() * r416(),
    ensures
        canonical(out@),
        (val(out@) * r416()) % modulus() == (val(a@) * val(b@)) % modulus(),
        decode(out@) == fmul(decode(a@), decode(b@)),
{
    let mut t: [u64; WIDE] = [0u64; WIDE];
    let ghost mut k: int = 0;
    let mut i: usize = 0;
    proof {
        lemma_p();
        lemma_modulus();
        lemma_weights();
        reveal_with_fuel(value, 9);
        assert(value(t@, radix(), 8) == 0);
        lemma_mul_basics(val(a@));
        lemma_value_bound(a@, radix(), 8);
    }
    while i < LIMBS
        invariant
            i <= LIMBS,
            limbs_ok(a@),
            limbs_ok(b@),
            limbs_ok(P@),
            val(P@) == modulus(),
            0 <= val(a@) < r416(),
            digits(t@, radix(), 7),
            t[7] <= 0x20000000000000,
            t[8] == 0,
            value(t@, radix(), 8) * weight(radix(), i as nat) == val(a@) * value(
                b@,
                radix(),
                i as nat,
            ) + k * modulus(),
            0 <= k < weight(radix(), i as nat),
        decreases LIMBS - i,
    {
        let ghost t0 = t@;
        let carry: u64 = add_row(&mut t, a, b[i]);
        let ghost summed = t@;
        t[LIMBS] = t[LIMBS] + carry;

        let ghost t1 = t@;
        let m: u64 = t[0].wrapping_mul(N0INV) & MASK;
        proof {
            lemma_split(t1[0].wrapping_mul(N0INV));
            lemma_value_same(summed, t1, radix(), 8);
        }
        let carry2: u64 = add_row(&mut t, &P, m);
        let ghost t2 = t@;
        proof {
            let w = radix();
            lemma_mod_mod(t1[0] * N0INV, w, 0x1000);
            assert(m == (t1[0] * N0INV) % w);
            lemma_clearing(w, N0INV as int, P[0] as int, t1[0] as int, m as int);
            lemma_low_limb(t1);
            lemma_low_limb(t2);
            lemma_low_limb(P@);
            lemma_weights();
            let total = value(t1, w, 8) + val(P@) * m;
            let wide = r416() / w;
            assert(r416() == wide * w);
            assert(value(t2, w, 8) - total == (-(carry2 * wide)) * w) by (nonlinear_arith)
                requires
                    value(t2, w, 8) + carry2 * r416() == total,
                    r416() == wide * w,
            ;
            lemma_congruent_by(value(t2, w, 8), total, -(carry2 * wide), w);
            lemma_mul_congruent(val(P@), P[0] as int, m as int, m as int, w);
            lemma_add_mod_noop(value(t1, w, 8), val(P@) * m, w);
            lemma_add_mod_noop(t1[0] as int, P[0] * m, w);
            assert(P[0] * m == m * P[0]) by (nonlinear_arith);
            lemma_small_mod(t2[0] as nat, w as nat);
            assert(t2[0] == 0);
        }
        let mut j: usize = 0;
        while j < LIMBS
            invariant
                j <= LIMBS,
                t2.len() == 9,
                t[8] == t2[8],
                forall|q: int| 0 <= q < j ==> #[trigger] t[q] == t2[q + 1],
                forall|q: int| j <= q < 9 ==> #[trigger] t[q] == t2[q],
            decreases LIMBS - j,
        {
            assert(t[j + 1] == t2[j + 1]);
            t[j] = t[j + 1];
            j += 1;
        }
        assert(t[7] == t2[7int + 1]);
        t[LIMBS] = 0;
        t[LIMBS - 1] = t[LIMBS - 1].wrapping_add(carry2);
        proof {
            let w = radix();
            let s = t2.update(8, (carry + carry2) as u64);
            assert(s[0] == 0);
            assert forall|q: int| 0 <= q < 8 implies #[trigger] t[q] == s[q + 1] by {
                if q < 7 {
                    assert(t[q] == t2[q + 1]);
                }
            }
            lemma_value_shift(s, t@, w, 8);
            lemma_value_same(s, t2, w, 8);
            assert(value(s, w, 9) == value(s, w, 8) + s[8] * r416());
            assert((carry + carry2) * r416() == carry * r416() + carry2 * r416()) by (nonlinear_arith);
            lemma_mul_is_commutative(modulus(), m as int);
            lemma_value_bound(b@, w, i as nat);
            lemma_round(
                w,
                r416(),
                i as nat,
                value(t0, w, 8),
                val(a@),
                value(b@, w, i as nat),
                b[i as int] as int,
                k,
                m as int,
                value(t@, w, 8),
            );
            k = k + m * weight(w, i as nat);
            lemma_weights();
            reveal(modulus);
            lemma_top_limb(t@, w, 8, 0x20000000000000);
            assert forall|q: int| 0 <= q < 7 implies #[trigger] t[q] < w by {
                assert(t[q] == t2[q + 1]);
            }
        }
        i += 1;
    }
    let ghost total = value(t@, radix(), 8);
    let mut out: [u64; LIMBS] = [0u64; LIMBS];
    let mut j: usize = 0;
    while j < LIMBS
        invariant
            j <= LIMBS,
            forall|q: int| 0 <= q < j ==> #[trigger] out[q] == t[q],
        decreases LIMBS - j,
    {
        out[j] = t[j];
        j += 1;
    }
    proof {
        let w = radix();
        let p = modulus();
        lemma_value_same(out@, t@, w, 8);
        assert(total * r416() < 2 * p * r416()) by (nonlinear_arith)
            requires
                total * r416() == val(a@) * val(b@) + k * p,
                val(a@) * val(b@) < p * r416(),
                k < r416(),
                p > 0,
        ;
        lemma_weight_positive(w, 8);
        assert(total < 2 * p) by (nonlinear_arith)
            requires
                total * r416() < 2 * p * r416(),
                r416() > 0,
        ;
        lemma_weights();
        assert(2 * p < r416()) by {
            reveal(modulus);
        }
        lemma_top_limb(out@, w, 8, w);
        assert forall|q: int| 0 <= q < 8 implies #[trigger] out[q] < w by {
            if q < 7 {
                assert(t[q] < w);
            }
        }
        lemma_value_bound(out@, w, 8);
        lemma_congruent_by(total * r416(), val(a@) * val(b@), k, p);
        assert((total - p) * r416() - val(a@) * val(b@) == (k - r416()) * p) by (nonlinear_arith)
            requires
                total * r416() == val(a@) * val(b@) + k * p,
        ;
        lemma_congruent_by((total - p) * r416(), val(a@) * val(b@), k - r416(), p);
        lemma_r416();
        lemma_decode_mul(val(a@), val(b@), total, r416(), r416_inv(), p);
        lemma_decode_mul(val(a@), val(b@), total - p, r416(), r416_inv(), p);
    }
    sub_p_if_ge(out)
}

/// Adds `P` to `x`, modulo `2^416`. Used to correct an underflowed subtraction.
pub fn add_p(x: &mut [u64; LIMBS])
    requires
        limbs_ok(old(x)@),
    ensures
        limbs_ok(final(x)@),
        val(final(x)@) == (val(old(x)@) + modulus()) % r416(),
{
    let ghost start = x@;
    let mut carry: u64 = 0;
    let mut j: usize = 0;
    proof {
        lemma_p();
    }
    while j < LIMBS
        invariant
            j <= LIMBS,
            start.len() == 8,
            digits(start, radix(), 8),
            limbs_ok(P@),
            carry <= 1,
            digits(x@, radix(), j as nat),
            forall|k: int| j <= k < 8 ==> #[trigger] x[k] == start[k],
            value(x@, radix(), j as nat) + carry * weight(radix(), j as nat) == value(
                start,
                radix(),
                j as nat,
            ) + value(P@, radix(), j as nat),
        decreases LIMBS - j,
    {
        let ghost before = x@;
        assert(x[j as int] == start[j as int]);
        let v: u64 = x[j] + P[j] + carry;
        proof {
            lemma_split(v);
        }
        x[j] = v & MASK;
        proof {
            let w = radix();
            lemma_value_same(before, x@, w, j as nat);
            lemma_add_column(
                w,
                weight(w, j as nat),
                value(x@, w, j as nat),
                carry as int,
                value(start, w, j as nat),
                value(P@, w, j as nat),
                start[j as int] as int,
                P[j as int] as int,
                x[j as int] as int,
                (v >> 52) as int,
            );
        }
        carry = v >> 52;
        j += 1;
    }
    proof {
        lemma_value_bound(x@, radix(), 8);
        lemma_fundamental_div_mod_converse(
            value(start, radix(), 8) + modulus(),
            r416(),
            carry as int,
            val(x@),
        );
    }
}

/// Modular addition of canonical inputs.
pub fn add_ref(a: &[u64; LIMBS], b: &[u64; LIMBS]) -> (out: [u64; LIMBS])
    requires
        canonical(a@),
        canonical(b@),
    ensures
        canonical(out@),
        val(out@) == fadd(val(a@), val(b@)),
        decode(out@) == fadd(decode(a@), decode(b@)),
{
    let mut out: [u64; LIMBS] = [0u64; LIMBS];
    let mut carry: u64 = 0;
    let mut j: usize = 0;
    while j < LIMBS
        invariant
            j <= LIMBS,
            limbs_ok(a@),
            limbs_ok(b@),
            carry <= 1,
            digits(out@, radix(), j as nat),
            value(out@, radix(), j as nat) + carry * weight(radix(), j as nat) == value(
                a@,
                radix(),
                j as nat,
            ) + value(b@, radix(), j as nat),
        decreases LIMBS - j,
    {
        let ghost before = out@;
        let v: u64 = a[j] + b[j] + carry;
        proof {
            lemma_split(v);
        }
        out[j] = v & MASK;
        proof {
            let w = radix();
            lemma_value_same(before, out@, w, j as nat);
            lemma_add_column(
                w,
                weight(w, j as nat),
                value(out@, w, j as nat),
                carry as int,
                value(a@, w, j as nat),
                value(b@, w, j as nat),
                a[j as int] as int,
                b[j as int] as int,
                out[j as int] as int,
                (v >> 52) as int,
            );
        }
        carry = v >> 52;
        j += 1;
    }
    proof {
        lemma_sum_reduced(a@, b@, out@, carry as int);
    }
    sub_p_if_ge(out)
}

/// A sum of canonical values that fits its limbs needs one conditional subtraction.
pub proof fn lemma_sum_reduced(a: Seq<u64>, b: Seq<u64>, sum: Seq<u64>, carry: int)
    requires
        canonical(a),
        canonical(b),
        limbs_ok(sum),
        carry >= 0,
        val(sum) + carry * r416() == val(a) + val(b),
    ensures
        val(sum) == val(a) + val(b),
        val(sum) < modulus() ==> val(sum) == fadd(val(a), val(b)),
        val(sum) >= modulus() ==> val(sum) - modulus() == fadd(val(a), val(b)),
        (fadd(val(a), val(b)) * r416_inv()) % modulus() == fadd(decode(a), decode(b)),
{
    let p = modulus();
    lemma_modulus();
    lemma_r416();
    lemma_value_nonnegative(sum, radix(), 8);
    lemma_value_nonnegative(a, radix(), 8);
    lemma_value_nonnegative(b, radix(), 8);
    assert(carry == 0) by (nonlinear_arith)
        requires
            carry >= 0,
            carry * r416() < r416(),
            r416() > 0,
    ;
    lemma_decode_linear(val(a), val(b), r416_inv(), p);
    if val(sum) < p {
        lemma_small_mod(val(sum) as nat, p as nat);
    } else {
        lemma_fundamental_div_mod_converse(val(sum), p, 1, val(sum) - p);
    }
}

/// Modular subtraction of canonical inputs.
pub fn sub_ref(a: &[u64; LIMBS], b: &[u64; LIMBS]) -> (out: [u64; LIMBS])
    requires
        canonical(a@),
        canonical(b@),
    ensures
        canonical(out@),
        val(out@) == fsub(val(a@), val(b@)),
        decode(out@) == fsub(decode(a@), decode(b@)),
{
    let mut out: [u64; LIMBS] = [0u64; LIMBS];
    let mut borrow: u64 = 0;
    let mut j: usize = 0;
    while j < LIMBS
        invariant
            j <= LIMBS,
            limbs_ok(a@),
            limbs_ok(b@),
            borrow <= 1,
            digits(out@, radix(), j as nat),
            value(out@, radix(), j as nat) - borrow * weight(radix(), j as nat) == value(
                a@,
                radix(),
                j as nat,
            ) - value(b@, radix(), j as nat),
        decreases LIMBS - j,
    {
        let (lo, next) = sbb(a[j], b[j], borrow);
        let ghost before = out@;
        out[j] = lo;
        proof {
            let w = radix();
            lemma_value_same(before, out@, w, j as nat);
            lemma_sub_column(
                w,
                weight(w, j as nat),
                value(out@, w, j as nat),
                borrow as int,
                value(a@, w, j as nat),
                value(b@, w, j as nat),
                a[j as int] as int,
                b[j as int] as int,
                lo as int,
                next as int,
            );
        }
        borrow = next;
        j += 1;
    }
    proof {
        lemma_difference_corrected(a@, b@, out@, borrow as int);
    }
    if borrow != 0 {
        add_p(&mut out);
    }
    out
}

/// A difference of canonical values is canonical once an underflow is corrected by one
/// addition of the modulus.
pub proof fn lemma_difference_corrected(
    a: Seq<u64>,
    b: Seq<u64>,
    diff: Seq<u64>,
    borrow: int,
)
    requires
        canonical(a),
        canonical(b),
        limbs_ok(diff),
        0 <= borrow <= 1,
        val(diff) - borrow * r416() == val(a) - val(b),
    ensures
        borrow == 0 ==> val(diff) == fsub(val(a), val(b)),
        borrow == 1 ==> (val(diff) + modulus()) % r416() == fsub(val(a), val(b)),
        0 <= fsub(val(a), val(b)) < modulus(),
        (fsub(val(a), val(b)) * r416_inv()) % modulus() == fsub(decode(a), decode(b)),
{
    let p = modulus();
    lemma_modulus();
    lemma_r416();
    lemma_value_bound(diff, radix(), 8);
    lemma_value_nonnegative(a, radix(), 8);
    lemma_value_nonnegative(b, radix(), 8);
    lemma_decode_linear(val(a), val(b), r416_inv(), p);
    lemma_mod_bound(val(a) - val(b), p);
    if borrow == 0 {
        lemma_small_mod(val(diff) as nat, p as nat);
    } else {
        lemma_fundamental_div_mod_converse(val(a) - val(b), p, -1, val(a) - val(b) + p);
        lemma_fundamental_div_mod_converse(
            val(diff) + p,
            r416(),
            1,
            val(diff) + p - r416(),
        );
    }
}

/// The lowest bit carried down into position `j` by a right shift.
spec fn bit_above(t: Seq<u64>, j: int) -> int {
    if j < 8 {
        t[j] as int % 2
    } else {
        0
    }
}

/// Halves a canonical value modulo `P`. Adding `P` to an odd value makes it even without
/// changing what it represents, so the shift stays exact.
pub fn half_of(v: &[u64; LIMBS]) -> (out: [u64; LIMBS])
    requires
        canonical(v@),
    ensures
        canonical(out@),
        fadd(val(out@), val(out@)) == val(v@),
        fadd(decode(out@), decode(out@)) == decode(v@),
{
    let mut t: [u64; LIMBS] = *v;
    let ghost low = v[0];
    assert(low & 1 == low % 2) by (bit_vector);
    if t[0] & 1 == 1 {
        add_p(&mut t);
    }
    proof {
        lemma_modulus();
        lemma_r416();
        lemma_value_nonnegative(v@, radix(), 8);
        lemma_low_limb(v@);
        lemma_low_limb(t@);
        lemma_small_mod((val(v@) + modulus()) as nat, r416() as nat);
        lemma_mod_mod(val(v@), 2, 0x8000000000000);
        lemma_mod_mod(val(t@), 2, 0x8000000000000);
        assert(t[0] as int % 2 == 0);
    }
    let mut out: [u64; LIMBS] = [0u64; LIMBS];
    let mut j: usize = 0;
    while j < LIMBS
        invariant
            j <= LIMBS,
            limbs_ok(t@),
            t[0] as int % 2 == 0,
            digits(out@, radix(), j as nat),
            2 * value(out@, radix(), j as nat) == value(t@, radix(), j as nat) + bit_above(
                t@,
                j as int,
            ) * weight(radix(), j as nat),
        decreases LIMBS - j,
    {
        let carry_in: u64 = if j + 1 < LIMBS {
            t[j + 1] & 1
        } else {
            0
        };
        let ghost before = out@;
        out[j] = (t[j] >> 1) | (carry_in << 51);
        proof {
            let w = radix();
            let x = t[j as int];
            if j + 1 < LIMBS {
                let y = t[j + 1];
                assert(y & 1 == y % 2) by (bit_vector);
            }
            assert(carry_in == bit_above(t@, j + 1));
            assert((x >> 1) | (carry_in << 51) == x / 2 + carry_in * 0x8000000000000) by (bit_vector)
                requires
                    x < 0x10000000000000,
                    carry_in <= 1,
            ;
            lemma_value_same(before, out@, w, j as nat);
            let r = weight(w, j as nat);
            let b = bit_above(t@, j as int);
            assert(2 * (out[j as int] * r) == x * r - b * r + carry_in * (w * r)) by (nonlinear_arith)
                requires
                    2 * out[j as int] == x - b + carry_in * w,
            ;
        }
        j += 1;
    }
    proof {
        let p = modulus();
        lemma_value_nonnegative(out@, radix(), 8);
        if low & 1 == 1 {
            lemma_fundamental_div_mod_converse(2 * val(out@), p, 1, val(v@));
        } else {
            lemma_small_mod(val(v@) as nat, p as nat);
        }
        lemma_decode_linear(val(out@), val(out@), r416_inv(), p);
    }
    out
}

} // verus!
