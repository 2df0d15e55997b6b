//! Conversions between the scalar form of a field element and the limbs of the eight-lane
//! backend.

use crate::arith::lemma_mul_congruent;
use crate::field::{
    fadd, fmul, fsub, lemma_fmul_one, lemma_fsub_undoes_fadd, lemma_modulus, modulus,
};
use crate::fq::{
    lemma_fq_injective, lemma_r384, lemma_value_6, r384, r384_inv, radix64, val64, Fq, WORDS,
};
use crate::fq8::{mul_x8, Fq8};
use crate::ifma::{
    canonical, decode, lemma_constants, lemma_decode_injective, lemma_r416, lemma_value_8,
    limbs_ok, mont_mul_ref, r416, r416_inv, radix, val, FROM_IFMA, LANES, LIMBS, MASK, ONE,
    TO_IFMA,
};
use crate::limbs::{lemma_value_bound, lemma_value_injective};
use vstd::arithmetic::div_mod::*;
use vstd::arithmetic::mul::*;
use vstd::prelude::*;

verus! {

/// Whether the vectorized path can run, given what the processor reports.
///
/// AVX-512F is not sufficient: processors exist that report it while lacking the 52-bit
/// multiply-add.
pub fn is_available(avx512f: bool, avx512ifma: bool) -> (available: bool)
    ensures
        available == (avx512f && avx512ifma),
{
    avx512f && avx512ifma
}

/// Whether the vectorized path should run: wherever it can, unless an operator has switched
/// it off. Results do not depend on the answer.
pub fn is_enabled(available: bool, switched_off: bool) -> (enabled: bool)
    ensures
        enabled == (available && !switched_off),
{
    available && !switched_off
}

/// The field element that limbs stand for which still carry the scalar domain's `2^384`.
pub open spec fn decode_raw(a: Seq<u64>) -> int {
    (val(a) * r384_inv()) % modulus()
}

/// Regroups a 384-bit little-endian value from six 64-bit limbs into eight 52-bit limbs.
pub fn regroup_64_to_52(x: &[u64; WORDS]) -> (out: [u64; LIMBS])
    ensures
        limbs_ok(out@),
        val(out@) == val64(x@),
{
    let (x0, x1, x2, x3, x4, x5) = (x[0], x[1], x[2], x[3], x[4], x[5]);
    let out: [u64; LIMBS] = [
        x0 & MASK,
        ((x0 >> 52) | (x1 << 12)) & MASK,
        ((x1 >> 40) | (x2 << 24)) & MASK,
        ((x2 >> 28) | (x3 << 36)) & MASK,
        ((x3 >> 16) | (x4 << 48)) & MASK,
        (x4 >> 4) & MASK,
        ((x4 >> 56) | (x5 << 8)) & MASK,
        (x5 >> 44) & MASK,
    ];
    proof {
        assert(x0 & 0xfffffffffffff == x0 % 0x10000000000000) by (bit_vector);
        assert(((x0 >> 52) | (x1 << 12)) & 0xfffffffffffff == x0 / 0x10000000000000 + (x1
            % 0x10000000000) * 0x1000) by (bit_vector);
        assert(((x1 >> 40) | (x2 << 24)) & 0xfffffffffffff == x1 / 0x10000000000 + (x2 % 0x10000000)
            * 0x1000000) by (bit_vector);
        assert(((x2 >> 28) | (x3 << 36)) & 0xfffffffffffff == x2 / 0x10000000 + (x3 % 0x10000)
            * 0x1000000000) by (bit_vector);
        assert(((x3 >> 16) | (x4 << 48)) & 0xfffffffffffff == x3 / 0x10000 + (x4 % 0x10)
            * 0x1000000000000) by (bit_vector);
        assert((x4 >> 4) & 0xfffffffffffff == (x4 / 0x10) % 0x10000000000000) by (bit_vector);
        assert(((x4 >> 56) | (x5 << 8)) & 0xfffffffffffff == x4 / 0x100000000000000 + (x5
            % 0x100000000000) * 0x100) by (bit_vector);
        assert((x5 >> 44) & 0xfffffffffffff == x5 / 0x100000000000) by (bit_vector);
        lemma_value_8(out@);
        lemma_value_6(x@);
    }
    out
}

/// The inverse of [`regroup_64_to_52`], on the low 384 bits.
pub fn regroup_52_to_64(x: &[u64; LIMBS]) -> (out: [u64; WORDS])
    requires
        limbs_ok(x@),
    ensures
        val64(out@) == val(x@) % r384(),
{
    let (x0, x1, x2, x3) = (x[0], x[1], x[2], x[3]);
    let (x4, x5, x6, x7) = (x[4], x[5], x[6], x[7]);
    let out: [u64; WORDS] = [
        x0 | (x1 << 52),
        (x1 >> 12) | (x2 << 40),
        (x2 >> 24) | (x3 << 28),
        (x3 >> 36) | (x4 << 16),
        (x4 >> 48) | (x5 << 4) | (x6 << 56),
        (x6 >> 8) | (x7 << 44),
    ];
    proof {
        assert(x[0] < radix() && x[1] < radix() && x[2] < radix() && x[3] < radix());
        assert(x[4] < radix() && x[5] < radix() && x[6] < radix() && x[7] < radix());
        assert(x0 | (x1 << 52) == x0 + (x1 % 0x1000) * 0x10000000000000) by (bit_vector)
            requires
                x0 < 0x10000000000000,
        ;
        assert((x1 >> 12) | (x2 << 40) == x1 / 0x1000 + (x2 % 0x1000000) * 0x10000000000)
            by (bit_vector)
            requires
                x1 < 0x10000000000000,
        ;
        assert((x2 >> 24) | (x3 << 28) == x2 / 0x1000000 + (x3 % 0x1000000000) * 0x10000000)
            by (bit_vector)
            requires
                x2 < 0x10000000000000,
        ;
        assert((x3 >> 36) | (x4 << 16) == x3 / 0x1000000000 + (x4 % 0x1000000000000) * 0x10000)
            by (bit_vector)
            requires
                x3 < 0x10000000000000,
        ;
        assert((x4 >> 48) | (x5 << 4) | (x6 << 56) == x4 / 0x1000000000000 + x5 * 0x10 + (x6
            % 0x100) * 0x100000000000000) by (bit_vector)
            requires
                x4 < 0x10000000000000,
                x5 < 0x10000000000000,
        ;
        assert((x6 >> 8) | (x7 << 44) == x6 / 0x100 + (x7 % 0x100000) * 0x100000000000)
            by (bit_vector)
            requires
                x6 < 0x10000000000000,
        ;
        lemma_value_8(x@);
        lemma_value_6(out@);
        lemma_r384();
        lemma_value_bound(out@, radix64(), 6);
        lemma_fundamental_div_mod_converse(val(x@), r384(), x7 as int / 0x100000, val64(out@));
    }
    out
}

/// Regrouping loses nothing: 64-bit limbs come back from their 52-bit form, and 52-bit
/// limbs of a value below `2^384` from their 64-bit form.
pub proof fn lemma_regroup_roundtrip(words: Seq<u64>, limbs: Seq<u64>, back: Seq<u64>)
    requires
        words.len() == 6,
        back.len() == 6,
        limbs_ok(limbs),
        val(limbs) == val64(words),
        val64(back) == val(limbs) % r384(),
    ensures
        back == words,
{
    lemma_value_bound(words, radix64(), 6);
    lemma_value_bound(back, radix64(), 6);
    lemma_small_mod(val64(words) as nat, r384() as nat);
    lemma_value_injective(words, back, radix64(), 6);
    assert(back =~= words);
}

/// Re-chunks the raw Montgomery limbs of `x` into radix 2^52 without changing the value.
/// The result still carries the scalar domain's `R = 2^384`; a multiplication by
/// [`TO_IFMA`] completes the move.
pub fn regroup_raw(x: &Fq) -> (out: [u64; LIMBS])
    ensures
        limbs_ok(out@),
        val(out@) == val64(x.0@),
        decode_raw(out@) == x@,
{
    regroup_64_to_52(&x.0)
}

/// A product with a canonical factor stays within the bound of the Montgomery product.
proof fn lemma_product_bound(a: Seq<u64>, b: Seq<u64>)
    requires
        limbs_ok(a),
        canonical(b),
    ensures
        val(a) * val(b) < modulus() * r416(),
{
    lemma_modulus();
    lemma_value_bound(a, radix(), 8);
    lemma_value_bound(b, radix(), 8);
    let (x, y) = (val(a), val(b));
    assert(x * y < modulus() * r416()) by (nonlinear_arith)
        requires
            0 <= x < r416(),
            0 <= y < modulus(),
    ;
}

/// The factor of [`TO_IFMA`] turns one Montgomery factor into the other.
proof fn lemma_shift_factor()
    ensures
        (val(TO_IFMA@) * r416_inv() * r416_inv()) % modulus() == r384_inv() % modulus(),
{
    assert(val(TO_IFMA@) == 0x1978c84314d2bbc185efd62fb7463e5d18e3b07d04b7eaa16af28b03dc3ff79f2a819dee49ccfcf9a07ccefe7c5a25int) by {
        lemma_value_8(TO_IFMA@);
    }
    assert(r416_inv() == 0x13a259f1fe5cb37332e943238827ea3118096cb224db88ec05f148d9ae160eb3f3a915f22d7de52c77c0c8f48649094int) by {
        reveal(r416_inv);
    }
    assert(r384_inv() == 0x14212fc436b0736eb89746ca4c49351eeaaf41df7f2e657852e3c88a5582c936e20bbcde65839f5ef129093451269e8int) by {
        reveal(r384_inv);
    }
    assert(modulus() == 0x1ae3a4617c510eac63b05c06ca1493b1a22d9f300f5138f1ef3622fba094800170b5d44300000008508c00000000001int) by {
        reveal(modulus);
    }
    assert((0x1978c84314d2bbc185efd62fb7463e5d18e3b07d04b7eaa16af28b03dc3ff79f2a819dee49ccfcf9a07ccefe7c5a25int
        * 0x13a259f1fe5cb37332e943238827ea3118096cb224db88ec05f148d9ae160eb3f3a915f22d7de52c77c0c8f48649094int
        * 0x13a259f1fe5cb37332e943238827ea3118096cb224db88ec05f148d9ae160eb3f3a915f22d7de52c77c0c8f48649094int)
        % 0x1ae3a4617c510eac63b05c06ca1493b1a22d9f300f5138f1ef3622fba094800170b5d44300000008508c00000000001int
        == 0x14212fc436b0736eb89746ca4c49351eeaaf41df7f2e657852e3c88a5582c936e20bbcde65839f5ef129093451269e8int);
    assert(0x14212fc436b0736eb89746ca4c49351eeaaf41df7f2e657852e3c88a5582c936e20bbcde65839f5ef129093451269e8int
        % 0x1ae3a4617c510eac63b05c06ca1493b1a22d9f300f5138f1ef3622fba094800170b5d44300000008508c00000000001int
        == 0x14212fc436b0736eb89746ca4c49351eeaaf41df7f2e657852e3c88a5582c936e20bbcde65839f5ef129093451269e8int);
}

/// A Montgomery product with [`TO_IFMA`] moves a value into the domain.
proof fn lemma_into_domain(raw: Seq<u64>, out: Seq<u64>)
    requires
        decode(out) == fmul(decode(raw), decode(TO_IFMA@)),
    ensures
        decode(out) == decode_raw(raw),
{
    let p = modulus();
    lemma_modulus();
    lemma_constants();
    let (x, k, ri) = (val(raw), val(TO_IFMA@), r416_inv());
    lemma_mul_mod_noop_general(x * ri, k * ri, p);
    assert(x * ri * (k * ri) == x * (k * ri * ri)) by (nonlinear_arith);
    lemma_shift_factor();
    lemma_mul_congruent(x, x, k * ri * ri, r384_inv(), p);
}

/// A Montgomery product with [`FROM_IFMA`] moves a value back out of the domain.
proof fn lemma_out_of_domain(x: Seq<u64>, raw: Seq<u64>)
    requires
        (val(raw) * r416()) % modulus() == (val(x) * val(FROM_IFMA@)) % modulus(),
    ensures
        decode_raw(raw) == decode(x),
{
    let p = modulus();
    lemma_modulus();
    lemma_constants();
    lemma_r416();
    lemma_r384();
    let (y, v, r, ri, s, si) = (val(raw), val(x), r416(), r416_inv(), r384(), r384_inv());
    lemma_small_mod(1, p as nat);
    lemma_mul_mod_noop_right(v, s, p);
    // y r = v s; multiply both sides by ri si.
    lemma_mul_congruent(y * r, v * s, ri * si, ri * si, p);
    assert(y * r * (ri * si) == y * si * (r * ri)) by (nonlinear_arith);
    assert(v * s * (ri * si) == v * ri * (s * si)) by (nonlinear_arith);
    lemma_mul_congruent(y * si, y * si, r * ri, 1, p);
    lemma_mul_congruent(v * ri, v * ri, s * si, 1, p);
    lemma_mul_basics(y * si);
    lemma_mul_basics(v * ri);
}

/// Finishes the conversion started by [`regroup_raw`], one element at a time.
pub fn shift_into_domain(raw: &[u64; LIMBS]) -> (out: [u64; LIMBS])
    requires
        limbs_ok(raw@),
    ensures
        canonical(out@),
        decode(out@) == decode_raw(raw@),
{
    proof {
        lemma_constants();
        lemma_product_bound(raw@, TO_IFMA@);
    }
    let out: [u64; LIMBS] = mont_mul_ref(raw, &TO_IFMA);
    proof {
        lemma_into_domain(raw@, out@);
    }
    out
}

/// Converts a scalar element into this backend's Montgomery domain.
pub fn to_ifma(x: &Fq) -> (out: [u64; LIMBS])
    ensures
        canonical(out@),
        decode(out@) == x@,
{
    shift_into_domain(&regroup_raw(x))
}

/// Rebuilds a scalar element from its raw Montgomery limbs in radix 2^52.
fn from_raw(raw: &[u64; LIMBS]) -> (out: Fq)
    requires
        canonical(raw@),
    ensures
        out.wf(),
        out@ == decode_raw(raw@),
{
    let out = Fq(regroup_52_to_64(raw));
    proof {
        lemma_r384();
        lemma_modulus();
        lemma_value_bound(raw@, radix(), 8);
        lemma_small_mod(val(raw@) as nat, r384() as nat);
    }
    out
}

/// Converts back into a scalar element.
pub fn from_ifma(x: &[u64; LIMBS]) -> (out: Fq)
    requires
        limbs_ok(x@),
    ensures
        out.wf(),
        out@ == decode(x@),
{
    proof {
        lemma_constants();
        lemma_product_bound(x@, FROM_IFMA@);
    }
    // Shifting by `FROM_IFMA` lands directly on the scalar Montgomery form, so the result
    // can be rebuilt without a second conversion.
    let raw: [u64; LIMBS] = mont_mul_ref(x, &FROM_IFMA);
    proof {
        lemma_out_of_domain(x@, raw@);
    }
    from_raw(&raw)
}

/// Multiplies eight elements by one canonical constant, in one vector operation.
fn scale_x8(x: &[[u64; LIMBS]; LANES], k: &[u64; LIMBS]) -> (out: [[u64; LIMBS]; LANES])
    requires
        forall|l: int| 0 <= l < 8 ==> limbs_ok(#[trigger] x[l]@),
        canonical(k@),
    ensures
        forall|l: int| 0 <= l < 8 ==> canonical(#[trigger] out[l]@),
        forall|l: int|
            0 <= l < 8 ==> (val(#[trigger] out[l]@) * r416()) % modulus() == (val(x[l]@) * val(k@))
                % modulus(),
        forall|l: int|
            0 <= l < 8 ==> decode(#[trigger] out[l]@) == fmul(decode(x[l]@), decode(k@)),
{
    let a: Fq8 = Fq8::load(x);
    let b: Fq8 = Fq8::load(&[*k; LANES]);
    proof {
        assert forall|l: int| 0 <= l < 8 implies limbs_ok(#[trigger] a.lane(l)) && limbs_ok(
            b.lane(l),
        ) && val(a.lane(l)) * val(b.lane(l)) < modulus() * r416() by {
            assert(a.lane(l) == x[l]@);
            assert(b.lane(l) == k@);
            lemma_product_bound(x[l]@, k@);
        }
        assert forall|l: int| 0 <= l < 8 implies limbs_ok(#[trigger] b.lane(l)) by {
            assert(limbs_ok(a.lane(l)));
        }
    }
    let product: Fq8 = mul_x8(&a, &b);
    let out: [[u64; LIMBS]; LANES] = product.store();
    proof {
        assert forall|l: int| 0 <= l < 8 implies canonical(#[trigger] out[l]@) && (val(out[l]@)
            * r416()) % modulus() == (val(x[l]@) * val(k@)) % modulus() && decode(out[l]@) == fmul(
            decode(x[l]@),
            decode(k@),
        ) by {
            assert(out[l]@ == product.lane(l));
            assert(a.lane(l) == x[l]@);
            assert(b.lane(l) == k@);
        }
    }
    out
}

/// Converts eight elements out of the domain at once. The result is the same with and
/// without the vectorized path.
pub fn from_ifma_x8(x: &[[u64; LIMBS]; LANES], available: bool) -> (out: [Fq; LANES])
    requires
        forall|l: int| 0 <= l < 8 ==> limbs_ok(#[trigger] x[l]@),
    ensures
        forall|l: int| 0 <= l < 8 ==> (#[trigger] out[l]).wf() && out[l]@ == decode(x[l]@),
{
    let mut out: [Fq; LANES] = [Fq::zero(); LANES];
    proof {
        lemma_constants();
    }
    if available {
        let raw: [[u64; LIMBS]; LANES] = scale_x8(x, &FROM_IFMA);
        let mut l: usize = 0;
        while l < LANES
            invariant
                l <= LANES,
                forall|k: int| 0 <= k < 8 ==> canonical(#[trigger] raw[k]@),
                forall|k: int|
                    0 <= k < 8 ==> (val(#[trigger] raw[k]@) * r416()) % modulus() == (val(x[k]@)
                        * val(FROM_IFMA@)) % modulus(),
                forall|k: int| 0 <= k < l ==> (#[trigger] out[k]).wf() && out[k]@ == decode(x[k]@),
            decreases LANES - l,
        {
            assert(canonical(raw[l as int]@));
            out[l] = from_raw(&raw[l]);
            proof {
                lemma_out_of_domain(x[l as int]@, raw[l as int]@);
            }
            l += 1;
        }
    } else {
        let mut l: usize = 0;
        while l < LANES
            invariant
                l <= LANES,
                forall|k: int| 0 <= k < 8 ==> limbs_ok(#[trigger] x[k]@),
                forall|k: int| 0 <= k < l ==> (#[trigger] out[k]).wf() && out[k]@ == decode(x[k]@),
            decreases LANES - l,
        {
            assert(limbs_ok(x[l as int]@));
            out[l] = from_ifma(&x[l]);
            l += 1;
        }
    }
    out
}

/// Converts eight elements into the domain at once. The result is the same with and
/// without the vectorized path.
pub fn to_ifma_x8(x: &[Fq; LANES], available: bool) -> (out: [[u64; LIMBS]; LANES])
    ensures
        forall|l: int| 0 <= l < 8 ==> canonical(#[trigger] out[l]@) && decode(out[l]@) == x[l]@,
{
    let mut raw: [[u64; LIMBS]; LANES] = [[0u64; LIMBS]; LANES];
    let mut l: usize = 0;
    while l < LANES
        invariant
            l <= LANES,
            forall|k: int|
                0 <= k < l ==> limbs_ok(#[trigger] raw[k]@) && decode_raw(raw[k]@) == x[k]@,
        decreases LANES - l,
    {
        raw[l] = regroup_raw(&x[l]);
        l += 1;
    }
    proof {
        lemma_constants();
    }
    if available {
        let out: [[u64; LIMBS]; LANES] = scale_x8(&raw, &TO_IFMA);
        proof {
            assert forall|k: int| 0 <= k < 8 implies canonical(#[trigger] out[k]@) && decode(
                out[k]@,
            ) == x[k]@ by {
                assert(limbs_ok(raw[k]@));
                lemma_into_domain(raw[k]@, out[k]@);
            }
        }
        out
    } else {
        let mut out: [[u64; LIMBS]; LANES] = [[0u64; LIMBS]; LANES];
        let mut l: usize = 0;
        while l < LANES
            invariant
                l <= LANES,
                forall|k: int|
                    0 <= k < 8 ==> limbs_ok(#[trigger] raw[k]@) && decode_raw(raw[k]@) == x[k]@,
                forall|k: int|
                    0 <= k < l ==> canonical(#[trigger] out[k]@) && decode(out[k]@) == x[k]@,
            decreases LANES - l,
        {
            assert(limbs_ok(raw[l as int]@));
            out[l] = shift_into_domain(&raw[l]);
            l += 1;
        }
        out
    }
}

/// Moves a whole slice into the domain in place, eight elements at a time. Each element
/// must already have passed through [`regroup_raw`]. The result is the same with and
/// without the vectorized path.
#[verifier::rlimit(40)]
pub fn shift_into_domain_slice(raw: &mut [[u64; LIMBS]], available: bool)
    requires
        forall|i: int| 0 <= i < old(raw)@.len() ==> limbs_ok(#[trigger] old(raw)@[i]@),
    ensures
        final(raw)@.len() == old(raw)@.len(),
        forall|i: int|
            0 <= i < old(raw)@.len() ==> canonical(#[trigger] final(raw)@[i]@) && decode(
                final(raw)@[i]@,
            ) == decode_raw(old(raw)@[i]@),
{
    let n: usize = raw.len();
    let ghost start = raw@;
    let mut done: usize = 0;
    if available {
        while n - done >= LANES
            invariant
                done <= n,
                n == start.len(),
                raw@.len() == n,
                forall|i: int| 0 <= i < n ==> limbs_ok(#[trigger] start[i]@),
                forall|i: int| done <= i < n ==> #[trigger] raw@[i] == start[i],
                forall|i: int|
                    0 <= i < done ==> canonical(#[trigger] raw@[i]@) && decode(raw@[i]@)
                        == decode_raw(start[i]@),
            decreases n - done,
        {
            let staged: [[u64; LIMBS]; LANES] = [
                raw[done],
                raw[done + 1],
                raw[done + 2],
                raw[done + 3],
                raw[done + 4],
                raw[done + 5],
                raw[done + 6],
                raw[done + 7],
            ];
            proof {
                lemma_constants();
                assert forall|l: int| 0 <= l < 8 implies #[trigger] staged[l] == start[done + l] by {
                    assert(raw@[done + l] == start[done + l]);
                }
                assert forall|l: int| 0 <= l < 8 implies limbs_ok(#[trigger] staged[l]@) by {
                    assert(staged[l] == start[done + l]);
                    assert(limbs_ok(start[done + l]@));
                }
            }
            let converted: [[u64; LIMBS]; LANES] = scale_x8(&staged, &TO_IFMA);
            proof {
                assert forall|l: int| 0 <= l < 8 implies canonical(#[trigger] converted[l]@)
                    && decode(converted[l]@) == decode_raw(start[done + l]@) by {
                    assert(staged[l] == start[done + l]);
                    lemma_into_domain(staged[l]@, converted[l]@);
                }
            }
            let mut l: usize = 0;
            while l < LANES
                invariant
                    l <= LANES,
                    done + 8 <= n,
                    n == start.len(),
                    raw@.len() == n,
                    forall|i: int| done + l <= i < n ==> #[trigger] raw@[i] == start[i],
                    forall|i: int|
                        0 <= i < done ==> canonical(#[trigger] raw@[i]@) && decode(raw@[i]@)
                            == decode_raw(start[i]@),
                    forall|i: int|
                        done <= i < done + l ==> #[trigger] raw@[i] == converted[i - done],
                decreases LANES - l,
            {
                raw[done + l] = converted[l];
                l += 1;
            }
            proof {
                assert forall|i: int| 0 <= i < done + 8 implies canonical(#[trigger] raw@[i]@)
                    && decode(raw@[i]@) == decode_raw(start[i]@) by {
                    if i >= done {
                        assert(raw@[i] == converted[i - done]);
                        assert(canonical(converted[i - done]@));
                    }
                }
            }
            done = done + LANES;
        }
    }
    while done < n
        invariant
            done <= n,
            n == start.len(),
            raw@.len() == n,
            forall|i: int| 0 <= i < n ==> limbs_ok(#[trigger] start[i]@),
            forall|i: int| done <= i < n ==> #[trigger] raw@[i] == start[i],
            forall|i: int|
                0 <= i < done ==> canonical(#[trigger] raw@[i]@) && decode(raw@[i]@)
                    == decode_raw(start[i]@),
        decreases n - done,
    {
        let elem: [u64; LIMBS] = raw[done];
        assert(limbs_ok(start[done as int]@));
        raw[done] = shift_into_domain(&elem);
        done = done + 1;
    }
}

/// Converting into the domain and back gives the element that went in.
pub proof fn lemma_domain_roundtrip(x: Fq, inside: Seq<u64>, back: Fq)
    requires
        x.wf(),
        decode(inside) == x@,
        back.wf(),
        back@ == decode(inside),
    ensures
        back == x,
{
    lemma_fq_injective(back, x);
}

/// Two ways of computing the same field element give the same limbs: whatever agrees on
/// [`decode`] agrees bit for bit.
pub proof fn lemma_paths_agree(vectorized: Seq<u64>, scalar: Seq<u64>)
    requires
        vectorized.len() == 8,
        scalar.len() == 8,
        canonical(vectorized),
        canonical(scalar),
        decode(vectorized) == decode(scalar),
    ensures
        vectorized == scalar,
{
    lemma_decode_injective(vectorized, scalar);
}

/// [`ONE`] is the multiplicative identity: a product with it has the limbs of the other
/// factor.
pub proof fn lemma_one_is_neutral(x: Seq<u64>, product: Seq<u64>)
    requires
        x.len() == 8,
        product.len() == 8,
        canonical(x),
        canonical(product),
        decode(product) == fmul(decode(x), decode(ONE@)),
    ensures
        product == x,
{
    lemma_constants();
    lemma_modulus();
    lemma_mod_bound(val(x) * r416_inv(), modulus());
    lemma_fmul_one(decode(x));
    lemma_decode_injective(product, x);
}

/// Subtraction undoes addition, limb for limb, and the other way round.
pub proof fn lemma_sub_undoes_add(a: Seq<u64>, b: Seq<u64>, there: Seq<u64>, back: Seq<u64>)
    requires
        a.len() == 8,
        back.len() == 8,
        canonical(a),
        canonical(back),
        (decode(there) == fadd(decode(a), decode(b)) && decode(back) == fsub(
            decode(there),
            decode(b),
        )) || (decode(there) == fsub(decode(a), decode(b)) && decode(back) == fadd(
            decode(there),
            decode(b),
        )),
    ensures
        back == a,
{
    lemma_modulus();
    lemma_mod_bound(val(a) * r416_inv(), modulus());
    lemma_fsub_undoes_fadd(decode(a), decode(b));
    lemma_decode_injective(back, a);
}

} // verus!
