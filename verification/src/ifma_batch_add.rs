//! Eight-lane batch affine addition for BLS12-377 G1.
//!
//! Adding affine points needs one inversion per pair; a batch shares a single one through
//! running products of the denominators. Eight independent chains are kept -- lane `l` owns
//! every pair at index `8 k + l` -- and recombined into one inversion at the end. Batch
//! inversion is exact, so splitting the chain changes only the grouping of the
//! multiplications, not the field elements produced.

use crate::curve::{
    both_finite, denominator, ec_add, factor, finished, is_doubling, is_negation, is_point,
    lemma_factor, lemma_finished, numerator, peeled, staged_first, staged_second, summable, Point,
};
use crate::domain::{from_ifma_x8, to_ifma_x8};
use crate::field::{
    fadd, fmul, fsub, is_element, lemma_closed, lemma_finv, lemma_fmul_associates,
    lemma_fmul_commutes, lemma_fmul_nonzero, lemma_fmul_one, lemma_modulus, modulus,
};
use crate::fq::{lemma_fq_view, Fq};
use crate::fq8::{add_x8, mul_x8, sub_x8, Fq8};
use crate::ifma::{
    add_ref, canonical, decode, lemma_constants, lemma_decode_injective, lemma_r416, limbs_ok,
    mont_mul_ref, r416, r416_inv, radix, sub_ref, val, HALF, LANES, LIMBS, ONE,
};
use crate::limbs::lemma_value_nonnegative;
use crate::point_buf::PointBuf;
use vstd::arithmetic::div_mod::*;
use vstd::prelude::*;

verus! {

/// Whether two limb vectors are equal.
fn same_limbs(a: &[u64; LIMBS], b: &[u64; LIMBS]) -> (same: bool)
    requires
        canonical(a@),
        canonical(b@),
    ensures
        same == (decode(a@) == decode(b@)),
{
    let same: bool = a[0] == b[0] && a[1] == b[1] && a[2] == b[2] && a[3] == b[3] && a[4] == b[4]
        && a[5] == b[5] && a[6] == b[6] && a[7] == b[7];
    proof {
        if same {
            assert(a@ =~= b@);
        } else if decode(a@) == decode(b@) {
            lemma_decode_injective(a@, b@);
        }
    }
    same
}

/// What canonical limbs stand for is a field element.
proof fn lemma_decode_element(a: Seq<u64>)
    ensures
        is_element(decode(a)),
{
    lemma_modulus();
    lemma_mod_bound(val(a) * r416_inv(), modulus());
}

/// Two canonical operands are within the bound of the Montgomery product.
proof fn lemma_canonical_product(a: Seq<u64>, b: Seq<u64>)
    requires
        canonical(a),
        canonical(b),
    ensures
        val(a) * val(b) < modulus() * r416(),
{
    lemma_modulus();
    lemma_r416();
    lemma_value_nonnegative(a, radix(), 8);
    lemma_value_nonnegative(b, radix(), 8);
    let (x, y) = (val(a), val(b));
    assert(x * y < modulus() * r416()) by (nonlinear_arith)
        requires
            0 <= x < modulus(),
            0 <= y < modulus(),
            modulus() < r416(),
    ;
}

/// The product of two canonical elements.
fn product(a: &[u64; LIMBS], b: &[u64; LIMBS]) -> (out: [u64; LIMBS])
    requires
        canonical(a@),
        canonical(b@),
    ensures
        canonical(out@),
        decode(out@) == fmul(decode(a@), decode(b@)),
{
    proof {
        lemma_canonical_product(a@, b@);
    }
    mont_mul_ref(a, b)
}

/// The product of two canonical vectors.
fn product_x8(a: &Fq8, b: &Fq8) -> (out: Fq8)
    requires
        a.canonical(),
        b.canonical(),
    ensures
        out.canonical(),
        forall|l: int|
            0 <= l < 8 ==> decode(#[trigger] out.lane(l)) == fmul(
                decode(a.lane(l)),
                decode(b.lane(l)),
            ),
{
    proof {
        assert forall|l: int| 0 <= l < 8 implies limbs_ok(#[trigger] a.lane(l)) && val(a.lane(l))
            * val(b.lane(l)) < modulus() * r416() by {
            assert(canonical(a.lane(l)));
            assert(canonical(b.lane(l)));
            lemma_canonical_product(a.lane(l), b.lane(l));
        }
        assert forall|l: int| 0 <= l < 8 implies limbs_ok(#[trigger] b.lane(l)) by {
            assert(canonical(b.lane(l)));
        }
    }
    mul_x8(a, b)
}

/// The product of the first `n` elements.
pub open spec fn product_before(t: Seq<int>, n: nat) -> int
    decreases n,
{
    if n == 0 {
        1
    } else {
        fmul(product_before(t, (n - 1) as nat), t[n - 1])
    }
}

/// The product of the elements from position `n` on.
pub open spec fn product_from(t: Seq<int>, n: nat) -> int
    decreases t.len() - n,
{
    if n >= t.len() {
        1
    } else {
        fmul(t[n as int], product_from(t, n + 1))
    }
}

proof fn lemma_products_are_elements(t: Seq<int>, n: nat)
    requires
        n <= t.len(),
        forall|i: int| 0 <= i < t.len() ==> is_element(#[trigger] t[i]) && t[i] != 0,
    ensures
        is_element(product_before(t, n)),
        product_before(t, n) != 0,
        is_element(product_from(t, n)),
{
    lemma_modulus();
    lemma_products_are_elements_before(t, n);
    if n < t.len() {
        lemma_closed(t[n as int], product_from(t, n + 1));
    }
}

proof fn lemma_products_are_elements_before(t: Seq<int>, n: nat)
    requires
        n <= t.len(),
        forall|i: int| 0 <= i < t.len() ==> is_element(#[trigger] t[i]) && t[i] != 0,
    ensures
        is_element(product_before(t, n)),
        product_before(t, n) != 0,
    decreases n,
{
    lemma_modulus();
    if n > 0 {
        let k = (n - 1) as nat;
        lemma_products_are_elements_before(t, k);
        assert(is_element(t[k as int]));
        lemma_closed(product_before(t, k), t[k as int]);
        lemma_fmul_nonzero(product_before(t, k), t[k as int]);
    }
}

/// The product splits at every position.
proof fn lemma_product_splits(t: Seq<int>, n: nat)
    requires
        n <= t.len(),
        forall|i: int| 0 <= i < t.len() ==> is_element(#[trigger] t[i]) && t[i] != 0,
    ensures
        fmul(product_before(t, n), product_from(t, n)) == product_before(t, t.len()),
    decreases t.len() - n,
{
    lemma_products_are_elements(t, n);
    if n == t.len() {
        lemma_fmul_one(product_before(t, n));
    } else {
        lemma_product_splits(t, n + 1);
        lemma_fmul_associates(product_before(t, n), t[n as int], product_from(t, n + 1));
    }
}

/// The running products for the eight inversion chains.
pub struct Chains {
    tmp: [[u64; LIMBS]; LANES],
}

impl Chains {
    /// Every running product is canonical.
    pub closed spec fn wf(self) -> bool {
        forall|l: int| 0 <= l < 8 ==> canonical(#[trigger] self.tmp[l]@)
    }

    /// The running product of one lane.
    pub closed spec fn at(self, l: int) -> int {
        decode(self.tmp[l]@)
    }

    /// Chains that hold nothing yet.
    pub fn new() -> (chains: Self)
        ensures
            chains.wf(),
            forall|l: int| 0 <= l < 8 ==> #[trigger] chains.at(l) == 1,
    {
        proof {
            lemma_constants();
        }
        Chains { tmp: [ONE; LANES] }
    }

    /// Folds the eight chain products into a single inversion, then hands each lane back
    /// the inverse of its own product.
    pub fn invert(&self) -> (out: [[u64; LIMBS]; LANES])
        requires
            self.wf(),
            forall|l: int| 0 <= l < 8 ==> #[trigger] self.at(l) != 0,
        ensures
            forall|l: int| 0 <= l < 8 ==> canonical(#[trigger] out[l]@),
            forall|l: int| 0 <= l < 8 ==> fmul(decode(#[trigger] out[l]@), self.at(l)) == 1,
    {
        proof {
            assert forall|l: int| 0 <= l < 8 implies limbs_ok(#[trigger] self.tmp[l]@) by {
                assert(canonical(self.tmp[l]@));
            }
        }
        let t: [Fq; LANES] = from_ifma_x8(&self.tmp, true);
        let ghost ts = Seq::new(8, |l: int| t[l]@);
        proof {
            assert forall|l: int| 0 <= l < 8 implies is_element(#[trigger] ts[l]) && ts[l] != 0
                && ts[l] == self.at(l) by {
                assert(t[l].wf());
                assert(self.at(l) != 0);
                lemma_fq_view(t[l]);
            }
        }

        // prefix[l] is the product of every chain strictly before l.
        let mut prefix: [Fq; LANES] = [Fq::one(); LANES];
        let mut l: usize = 1;
        while l < LANES
            invariant
                1 <= l <= LANES,
                ts.len() == 8,
                forall|k: int| 0 <= k < 8 ==> (#[trigger] t[k]).wf(),
                forall|k: int| 0 <= k < 8 ==> #[trigger] ts[k] == t[k]@,
                forall|k: int|
                    0 <= k < l ==> (#[trigger] prefix[k]).wf() && prefix[k]@ == product_before(
                        ts,
                        k as nat,
                    ),
            decreases LANES - l,
        {
            assert(prefix[l - 1].wf());
            assert(t[l - 1].wf());
            assert(ts[l - 1] == t[l - 1]@);
            prefix[l] = prefix[l - 1].times(&t[l - 1]);
            l += 1;
        }
        assert(prefix[7].wf());
        assert(t[7].wf());
        assert(ts[7] == t[7]@);
        let total: Fq = prefix[LANES - 1].times(&t[LANES - 1]);
        proof {
            lemma_products_are_elements(ts, 8);
        }
        // One inversion for the whole batch; the chains hold products of nonzero
        // denominators, so this cannot fail.
        let inv_total: Fq = match total.inverse() {
            Some(inverse) => inverse,
            None => total,
        };
        proof {
            lemma_finv(total@);
        }

        let mut out: [Fq; LANES] = [Fq::one(); LANES];
        let mut suffix: Fq = Fq::one();
        let mut l: usize = LANES;
        while l > 0
            invariant
                l <= LANES,
                ts.len() == 8,
                forall|k: int| 0 <= k < 8 ==> (#[trigger] t[k]).wf(),
                forall|k: int|
                    0 <= k < 8 ==> #[trigger] ts[k] == t[k]@ && is_element(ts[k]) && ts[k] != 0,
                forall|k: int|
                    0 <= k < 8 ==> (#[trigger] prefix[k]).wf() && prefix[k]@ == product_before(
                        ts,
                        k as nat,
                    ),
                inv_total.wf(),
                fmul(product_before(ts, 8), inv_total@) == 1,
                suffix.wf(),
                suffix@ == product_from(ts, l as nat),
                forall|k: int|
                    l <= k < 8 ==> (#[trigger] out[k]).wf() && fmul(out[k]@, ts[k]) == 1,
            decreases l,
        {
            l = l - 1;
            assert(prefix[l as int].wf());
            assert(t[l as int].wf());
            assert(ts[l as int] == t[l as int]@);
            let scaled: Fq = inv_total.times(&prefix[l]);
            out[l] = scaled.times(&suffix);
            proof {
                let (i, u, x, d) = (inv_total@, prefix[l as int]@, ts[l as int], suffix@);
                // ((i u) d) x = i ((u x) d) = i total
                lemma_fmul_associates(fmul(i, u), d, x);
                lemma_fmul_commutes(d, x);
                lemma_fmul_associates(i, u, fmul(x, d));
                lemma_product_splits(ts, l as nat);
                lemma_fmul_commutes(product_before(ts, 8), i);
                assert(fmul(out[l as int]@, x) == 1);
                lemma_fmul_commutes(d, x);
            }
            suffix = suffix.times(&t[l]);
        }
        let inverted: [[u64; LIMBS]; LANES] = to_ifma_x8(&out, true);
        proof {
            assert forall|k: int| 0 <= k < 8 implies canonical(#[trigger] inverted[k]@) && fmul(
                decode(inverted[k]@),
                self.at(k),
            ) == 1 by {
                assert(out[k].wf());
                assert(ts[k] == self.at(k));
            }
        }
        inverted
    }
}

/// Gathers eight elements into a vector.
fn gather(src: &Vec<[u64; LIMBS]>, idx: &[usize], lo: usize) -> (out: Fq8)
    requires
        lo + 8 <= idx@.len(),
        forall|i: int| 0 <= i < src@.len() ==> canonical(#[trigger] src@[i]@),
        forall|k: int| 0 <= k < idx@.len() ==> #[trigger] idx@[k] < src@.len(),
    ensures
        out.canonical(),
        forall|l: int| 0 <= l < 8 ==> #[trigger] out.lane(l) == src@[idx@[lo + l] as int]@,
{
    let n: usize = idx.len();
    let mut staged: [[u64; LIMBS]; LANES] = [[0u64; LIMBS]; LANES];
    let mut l: usize = 0;
    while l < LANES
        invariant
            l <= LANES,
            lo + 8 <= n,
            n == idx@.len(),
            forall|k: int| 0 <= k < idx@.len() ==> #[trigger] idx@[k] < src@.len(),
            forall|k: int| 0 <= k < l ==> #[trigger] staged[k] == src@[idx@[lo + k] as int],
        decreases LANES - l,
    {
        assert(idx@[lo + l] < src@.len());
        staged[l] = src[idx[lo + l]];
        l += 1;
    }
    let out: Fq8 = Fq8::load(&staged);
    proof {
        assert forall|k: int| 0 <= k < 8 implies #[trigger] out.lane(k) == src@[idx@[lo + k] as int]@
            && canonical(out.lane(k)) by {
            assert(staged[k] == src@[idx@[lo + k] as int]);
            assert(idx@[lo + k] < src@.len());
            assert(canonical(src@[idx@[lo + k] as int]@));
        }
    }
    out
}

/// The indices are in bounds, no index is written twice, and no written index is read as a
/// second operand.
pub open spec fn indices_ok(len: nat, ai: Seq<usize>, bi: Seq<usize>) -> bool {
    &&& ai.len() == bi.len()
    &&& forall|k: int| 0 <= k < ai.len() ==> #[trigger] ai[k] < len
    &&& forall|k: int| 0 <= k < bi.len() ==> #[trigger] bi[k] < len
    &&& forall|j: int, k: int| 0 <= j < k < ai.len() ==> #[trigger] ai[j] != #[trigger] ai[k]
    &&& forall|j: int, k: int|
        0 <= j < ai.len() && 0 <= k < bi.len() ==> #[trigger] ai[j] != #[trigger] bi[k]
}

/// Pair `k` takes the generic chord path: both points are finite, and their abscissas differ.
pub open spec fn generic_at(pts: Seq<Point>, ai: Seq<usize>, bi: Seq<usize>, k: int) -> bool {
    &&& both_finite(pts[ai[k] as int], pts[bi[k] as int])
    &&& pts[ai[k] as int].x != pts[bi[k] as int].x
}

/// Whether all eight pairs starting at `lo` take the generic chord path.
pub(crate) fn all_generic(a: &PointBuf, a_idx: &[usize], b_idx: &[usize], lo: usize) -> (all: bool)
    requires
        a.wf(),
        indices_ok(a@.len(), a_idx@, b_idx@),
        lo + 8 <= a_idx@.len(),
    ensures
        all == (forall|k: int| lo <= k < lo + 8 ==> #[trigger] generic_at(a@, a_idx@, b_idx@, k)),
{
    let n: usize = a_idx.len();
    let mut k: usize = lo;
    while k < lo + LANES
        invariant
            lo <= k <= lo + 8,
            lo + 8 <= n,
            n == a_idx@.len(),
            a.wf(),
            indices_ok(a@.len(), a_idx@, b_idx@),
            forall|j: int| lo <= j < k ==> #[trigger] generic_at(a@, a_idx@, b_idx@, j),
        decreases lo + 8 - k,
    {
        let i: usize = a_idx[k];
        let j: usize = b_idx[k];
        proof {
            assert(a_idx@[k as int] < a@.len());
            assert(b_idx@[k as int] < a@.len());
            a.lemma_at(i as int);
            a.lemma_at(j as int);
        }
        if a.infinity[i] || a.infinity[j] || same_limbs(&a.x[i], &a.x[j]) {
            assert(!generic_at(a@, a_idx@, b_idx@, k as int));
            return false;
        }
        k += 1;
    }
    true
}

/// The points after the first pass over one pair, where the running product of its lane was
/// `before`.
pub open spec fn first_step(pts: Seq<Point>, i: int, j: int, before: int) -> Seq<Point> {
    pts.update(i, staged_first(pts[i], pts[j], before)).update(
        j,
        staged_second(pts[i], pts[j], decode(HALF@)),
    )
}

/// The points after the second pass over one pair, where the inverse of the running product
/// of its lane was `inverse`.
pub open spec fn second_step(pts: Seq<Point>, i: int, j: int, inverse: int) -> Seq<Point> {
    pts.update(i, finished(pts[i], pts[j], inverse))
}

/// The two points of pair `k` are finite.
pub open spec fn finite_at(pts: Seq<Point>, ai: Seq<usize>, bi: Seq<usize>, k: int) -> bool {
    both_finite(pts[ai[k] as int], pts[bi[k] as int])
}

/// Scalar first pass for one pair, kept in the domain so that degenerate lanes need no
/// domain switch.
#[verifier::rlimit(40)]
pub fn loop_1_scalar(a: &mut PointBuf, ai: usize, bi: usize, lane: usize, chains: &mut Chains)
    requires
        old(a).wf(),
        old(chains).wf(),
        ai < old(a)@.len(),
        bi < old(a)@.len(),
        ai != bi,
        lane < 8,
    ensures
        final(a).wf(),
        final(chains).wf(),
        final(a)@ == first_step(old(a)@, ai as int, bi as int, old(chains).at(lane as int)),
        forall|l: int|
            0 <= l < 8 ==> #[trigger] final(chains).at(l) == (if l == lane {
                fmul(old(chains).at(l), factor(old(a)@[ai as int], old(a)@[bi as int]))
            } else {
                old(chains).at(l)
            }),
{
    let ghost (start, before) = (a@, chains.at(lane as int));
    let ghost (p, q) = (start[ai as int], start[bi as int]);
    proof {
        a.lemma_at(ai as int);
        a.lemma_at(bi as int);
        lemma_constants();
        assert(canonical(chains.tmp[lane as int]@));
        lemma_decode_element(chains.tmp[lane as int]@);
        lemma_fmul_one(before);
    }
    let (ax, ay, ainf) = (a.x[ai], a.y[ai], a.infinity[ai]);
    let (bx, by, binf) = (a.x[bi], a.y[bi], a.infinity[bi]);
    let tmp: [u64; LIMBS] = chains.tmp[lane];
    if ainf || binf {
        assert(start =~= start.update(ai as int, p).update(bi as int, q));
        return;
    }
    if same_limbs(&ax, &bx) {
        if same_limbs(&ay, &by) {
            // Doubling. The linear coefficient of the curve is zero, so the numerator is
            // 3 x^2.
            let x_sq: [u64; LIMBS] = product(&bx, &bx);
            let num: [u64; LIMBS] = add_ref(&add_ref(&x_sq, &x_sq), &x_sq);
            let new_bx: [u64; LIMBS] = sub_ref(&bx, &by);
            let new_by: [u64; LIMBS] = sub_ref(&by, &product(&num, &HALF));
            let den: [u64; LIMBS] = add_ref(&by, &by);
            let new_ay: [u64; LIMBS] = product(&num, &tmp);
            a.put(ai, den, new_ay, false);
            a.put(bi, new_bx, new_by, false);
            chains.tmp[lane] = product(&tmp, &den);
        } else {
            a.put(ai, ax, ay, true);
            a.put(bi, bx, by, true);
        }
        return;
    }
    let den: [u64; LIMBS] = sub_ref(&ax, &bx);
    let num: [u64; LIMBS] = sub_ref(&ay, &by);
    let new_ay: [u64; LIMBS] = product(&num, &tmp);
    a.put(ai, den, new_ay, false);
    chains.tmp[lane] = product(&tmp, &den);
    assert(a@ =~= a@.update(bi as int, q));
}

/// Vectorized first pass over eight generic pairs.
#[verifier::rlimit(40)]
pub fn loop_1_x8(a: &mut PointBuf, a_idx: &[usize], b_idx: &[usize], lo: usize, chains: &mut Chains)
    requires
        old(a).wf(),
        old(chains).wf(),
        indices_ok(old(a)@.len(), a_idx@, b_idx@),
        lo + 8 <= a_idx@.len(),
        forall|k: int| lo <= k < lo + 8 ==> #[trigger] generic_at(old(a)@, a_idx@, b_idx@, k),
    ensures
        final(a).wf(),
        final(chains).wf(),
        final(a)@.len() == old(a)@.len(),
        forall|l: int|
            0 <= l < 8 ==> final(a)@[#[trigger] a_idx@[lo + l] as int] == staged_first(
                old(a)@[a_idx@[lo + l] as int],
                old(a)@[b_idx@[lo + l] as int],
                old(chains).at(l),
            ),
        forall|i: int|
            0 <= i < old(a)@.len() && (forall|l: int|
                0 <= l < 8 ==> #[trigger] a_idx@[lo + l] != i) ==> #[trigger] final(a)@[i] == old(
                a,
            )@[i],
        forall|l: int|
            0 <= l < 8 ==> #[trigger] final(chains).at(l) == fmul(
                old(chains).at(l),
                factor(old(a)@[a_idx@[lo + l] as int], old(a)@[b_idx@[lo + l] as int]),
            ),
{
    let ghost start = *a;
    proof {
        if a@.len() > 0 {
            a.lemma_at(0);
        }
        assert(a_idx@[lo as int] < a@.len());
        assert forall|i: int| 0 <= i < a.x@.len() implies canonical(#[trigger] a.x@[i]@) by {
            a.lemma_at(i);
        }
        assert forall|i: int| 0 <= i < a.y@.len() implies canonical(#[trigger] a.y@[i]@) by {
            a.lemma_at(i);
        }
    }
    let bx: Fq8 = gather(&a.x, b_idx, lo);
    let by: Fq8 = gather(&a.y, b_idx, lo);
    let ax: Fq8 = gather(&a.x, a_idx, lo);
    let ay: Fq8 = gather(&a.y, a_idx, lo);
    let tmp: Fq8 = Fq8::load(&chains.tmp);
    proof {
        assert forall|l: int| 0 <= l < 8 implies canonical(#[trigger] tmp.lane(l)) by {
            assert(canonical(chains.tmp[l]@));
        }
    }

    // denominator = x1 - x2, numerator = y1 - y2.
    let den: Fq8 = sub_x8(&ax, &bx);
    let num: Fq8 = sub_x8(&ay, &by);
    // a.y holds numerator * running product; the chain then absorbs the denominator.
    let new_ay: Fq8 = product_x8(&num, &tmp);
    let new_tmp: Fq8 = product_x8(&tmp, &den);

    let sx: [[u64; LIMBS]; LANES] = den.store();
    let sy: [[u64; LIMBS]; LANES] = new_ay.store();
    proof {
        assert forall|l: int| 0 <= l < 8 implies canonical(#[trigger] sx[l]@) && canonical(sy[l]@)
            && (Point { x: decode(sx[l]@), y: decode(sy[l]@), infinity: false }) == staged_first(
            start@[a_idx@[lo + l] as int],
            start@[b_idx@[lo + l] as int],
            chains.at(l),
        ) && decode(new_tmp.lane(l)) == fmul(
            chains.at(l),
            factor(start@[a_idx@[lo + l] as int], start@[b_idx@[lo + l] as int]),
        ) by {
            let (i, j) = (a_idx@[lo + l] as int, b_idx@[lo + l] as int);
            assert(generic_at(start@, a_idx@, b_idx@, lo + l));
            start.lemma_at(i);
            start.lemma_at(j);
            assert(sx[l]@ == den.lane(l));
            assert(sy[l]@ == new_ay.lane(l));
            assert(canonical(den.lane(l)));
            assert(canonical(new_ay.lane(l)));
            assert(ax.lane(l) == start.x@[i]@);
            assert(ay.lane(l) == start.y@[i]@);
            assert(bx.lane(l) == start.x@[j]@);
            assert(by.lane(l) == start.y@[j]@);
            assert(tmp.lane(l) == chains.tmp[l]@);
            assert(decode(num.lane(l)) == fsub(decode(ay.lane(l)), decode(by.lane(l))));
        }
    }
    let n: usize = a_idx.len();
    let mut l: usize = 0;
    while l < LANES
        invariant
            l <= LANES,
            lo + 8 <= n,
            n == a_idx@.len(),
            a.wf(),
            a@.len() == start@.len(),
            indices_ok(start@.len(), a_idx@, b_idx@),
            forall|k: int| 0 <= k < 8 ==> canonical(#[trigger] sx[k]@) && canonical(sy[k]@),
            forall|k: int|
                0 <= k < l ==> a@[#[trigger] a_idx@[lo + k] as int] == (Point {
                    x: decode(sx[k]@),
                    y: decode(sy[k]@),
                    infinity: false,
                }),
            forall|i: int|
                0 <= i < start@.len() && (forall|k: int|
                    0 <= k < 8 ==> #[trigger] a_idx@[lo + k] != i) ==> #[trigger] a@[i]
                    == start@[i],
        decreases LANES - l,
    {
        let i: usize = a_idx[lo + l];
        assert(a_idx@[lo + l] < start@.len());
        assert(canonical(sx[l as int]@));
        a.put(i, sx[l], sy[l], false);
        proof {
            assert forall|k: int| 0 <= k < l + 1 implies a@[#[trigger] a_idx@[lo + k] as int] == (
            Point { x: decode(sx[k]@), y: decode(sy[k]@), infinity: false }) by {
                if k < l {
                    assert(a_idx@[lo + k] != a_idx@[lo + l]);
                }
            }
        }
        l += 1;
    }
    proof {
        assert forall|k: int| 0 <= k < 8 implies a@[#[trigger] a_idx@[lo + k] as int]
            == staged_first(
            start@[a_idx@[lo + k] as int],
            start@[b_idx@[lo + k] as int],
            chains.at(k),
        ) by {
            assert(canonical(sx[k]@));
        }
    }
    let ghost before = *chains;
    chains.tmp = new_tmp.store();
    proof {
        assert forall|k: int| 0 <= k < 8 implies canonical(#[trigger] chains.tmp[k]@) && chains.at(k)
            == fmul(
            before.at(k),
            factor(start@[a_idx@[lo + k] as int], start@[b_idx@[lo + k] as int]),
        ) by {
            assert(chains.tmp[k]@ == new_tmp.lane(k));
            assert(canonical(new_tmp.lane(k)));
            assert(canonical(sx[k]@));
        }
    }
}

/// Scalar second pass for one pair.
pub fn loop_2_scalar(
    a: &mut PointBuf,
    ai: usize,
    bi: usize,
    lane: usize,
    acc: &mut [[u64; LIMBS]; LANES],
)
    requires
        old(a).wf(),
        forall|l: int| 0 <= l < 8 ==> canonical(#[trigger] old(acc)[l]@),
        ai < old(a)@.len(),
        bi < old(a)@.len(),
        lane < 8,
    ensures
        final(a).wf(),
        forall|l: int| 0 <= l < 8 ==> canonical(#[trigger] final(acc)[l]@),
        final(a)@ == second_step(
            old(a)@,
            ai as int,
            bi as int,
            decode(old(acc)[lane as int]@),
        ),
        forall|l: int|
            0 <= l < 8 ==> decode(#[trigger] final(acc)[l]@) == (if l == lane {
                peeled(old(a)@[ai as int], old(a)@[bi as int], decode(old(acc)[l]@))
            } else {
                decode(old(acc)[l]@)
            }),
{
    let ghost start = a@;
    proof {
        a.lemma_at(ai as int);
        a.lemma_at(bi as int);
        assert(canonical(acc[lane as int]@));
    }
    let (ax, ay, ainf) = (a.x[ai], a.y[ai], a.infinity[ai]);
    let (bx, by, binf) = (a.x[bi], a.y[bi], a.infinity[bi]);
    if ainf {
        a.put(ai, bx, by, binf);
        return;
    }
    if binf {
        assert(start =~= start.update(ai as int, start[ai as int]));
        return;
    }
    let inverse: [u64; LIMBS] = acc[lane];
    let lambda: [u64; LIMBS] = product(&ay, &inverse);
    acc[lane] = product(&inverse, &ax);

    let sum_x: [u64; LIMBS] = add_ref(&ax, &add_ref(&bx, &bx));
    let x3: [u64; LIMBS] = sub_ref(&product(&lambda, &lambda), &sum_x);
    let y3: [u64; LIMBS] = sub_ref(&product(&lambda, &sub_ref(&bx, &x3)), &by);
    a.put(ai, x3, y3, false);
}

/// Vectorized second pass over eight pairs of finite points.
#[verifier::rlimit(40)]
pub fn loop_2_x8(
    a: &mut PointBuf,
    a_idx: &[usize],
    b_idx: &[usize],
    lo: usize,
    acc: &mut [[u64; LIMBS]; LANES],
)
    requires
        old(a).wf(),
        forall|l: int| 0 <= l < 8 ==> canonical(#[trigger] old(acc)[l]@),
        indices_ok(old(a)@.len(), a_idx@, b_idx@),
        lo + 8 <= a_idx@.len(),
        forall|k: int| lo <= k < lo + 8 ==> #[trigger] finite_at(old(a)@, a_idx@, b_idx@, k),
    ensures
        final(a).wf(),
        forall|l: int| 0 <= l < 8 ==> canonical(#[trigger] final(acc)[l]@),
        final(a)@.len() == old(a)@.len(),
        forall|l: int|
            0 <= l < 8 ==> final(a)@[#[trigger] a_idx@[lo + l] as int] == finished(
                old(a)@[a_idx@[lo + l] as int],
                old(a)@[b_idx@[lo + l] as int],
                decode(old(acc)[l]@),
            ),
        forall|i: int|
            0 <= i < old(a)@.len() && (forall|l: int|
                0 <= l < 8 ==> #[trigger] a_idx@[lo + l] != i) ==> #[trigger] final(a)@[i] == old(
                a,
            )@[i],
        forall|l: int|
            0 <= l < 8 ==> decode(#[trigger] final(acc)[l]@) == peeled(
                old(a)@[a_idx@[lo + l] as int],
                old(a)@[b_idx@[lo + l] as int],
                decode(old(acc)[l]@),
            ),
{
    let ghost start = *a;
    proof {
        assert(a_idx@[lo as int] < a@.len());
        a.lemma_at(0);
        assert forall|i: int| 0 <= i < a.x@.len() implies canonical(#[trigger] a.x@[i]@) by {
            a.lemma_at(i);
        }
        assert forall|i: int| 0 <= i < a.y@.len() implies canonical(#[trigger] a.y@[i]@) by {
            a.lemma_at(i);
        }
    }
    let bx: Fq8 = gather(&a.x, b_idx, lo);
    let by: Fq8 = gather(&a.y, b_idx, lo);
    let ax: Fq8 = gather(&a.x, a_idx, lo);
    let ay: Fq8 = gather(&a.y, a_idx, lo);
    let inv: Fq8 = Fq8::load(acc);
    proof {
        assert forall|l: int| 0 <= l < 8 implies canonical(#[trigger] inv.lane(l)) by {
            assert(canonical(acc[l]@));
        }
    }

    let lambda: Fq8 = product_x8(&ay, &inv);
    // Peel this layer off the running inverse.
    let new_inv: Fq8 = product_x8(&inv, &ax);

    // a.x currently holds x1 - x2, so adding 2 x2 recovers x1 + x2.
    let twice: Fq8 = add_x8(&bx, &bx);
    let sum_x: Fq8 = add_x8(&ax, &twice);
    let square: Fq8 = product_x8(&lambda, &lambda);
    let x3: Fq8 = sub_x8(&square, &sum_x);
    let run: Fq8 = sub_x8(&bx, &x3);
    let rise: Fq8 = product_x8(&lambda, &run);
    let y3: Fq8 = sub_x8(&rise, &by);

    let sx: [[u64; LIMBS]; LANES] = x3.store();
    let sy: [[u64; LIMBS]; LANES] = y3.store();
    proof {
        assert forall|l: int| 0 <= l < 8 implies canonical(#[trigger] sx[l]@) && canonical(sy[l]@)
            && (Point { x: decode(sx[l]@), y: decode(sy[l]@), infinity: false }) == finished(
            start@[a_idx@[lo + l] as int],
            start@[b_idx@[lo + l] as int],
            decode(acc[l]@),
        ) && decode(new_inv.lane(l)) == peeled(
            start@[a_idx@[lo + l] as int],
            start@[b_idx@[lo + l] as int],
            decode(acc[l]@),
        ) by {
            let (i, j) = (a_idx@[lo + l] as int, b_idx@[lo + l] as int);
            assert(finite_at(start@, a_idx@, b_idx@, lo + l));
            start.lemma_at(i);
            start.lemma_at(j);
            assert(sx[l]@ == x3.lane(l));
            assert(sy[l]@ == y3.lane(l));
            assert(canonical(x3.lane(l)));
            assert(canonical(y3.lane(l)));
            assert(ax.lane(l) == start.x@[i]@);
            assert(ay.lane(l) == start.y@[i]@);
            assert(bx.lane(l) == start.x@[j]@);
            assert(by.lane(l) == start.y@[j]@);
            assert(inv.lane(l) == acc[l]@);
            assert(decode(lambda.lane(l)) == fmul(decode(ay.lane(l)), decode(inv.lane(l))));
            assert(decode(square.lane(l)) == fmul(decode(lambda.lane(l)), decode(lambda.lane(l))));
            assert(decode(twice.lane(l)) == fadd(decode(bx.lane(l)), decode(bx.lane(l))));
            assert(decode(sum_x.lane(l)) == fadd(decode(ax.lane(l)), decode(twice.lane(l))));
            assert(decode(run.lane(l)) == fsub(decode(bx.lane(l)), decode(x3.lane(l))));
            assert(decode(rise.lane(l)) == fmul(decode(lambda.lane(l)), decode(run.lane(l))));
        }
    }
    let n: usize = a_idx.len();
    let mut l: usize = 0;
    while l < LANES
        invariant
            l <= LANES,
            lo + 8 <= n,
            n == a_idx@.len(),
            a.wf(),
            a@.len() == start@.len(),
            indices_ok(start@.len(), a_idx@, b_idx@),
            forall|k: int| 0 <= k < 8 ==> canonical(#[trigger] sx[k]@) && canonical(sy[k]@),
            forall|k: int|
                0 <= k < l ==> a@[#[trigger] a_idx@[lo + k] as int] == (Point {
                    x: decode(sx[k]@),
                    y: decode(sy[k]@),
                    infinity: false,
                }),
            forall|i: int|
                0 <= i < start@.len() && (forall|k: int|
                    0 <= k < 8 ==> #[trigger] a_idx@[lo + k] != i) ==> #[trigger] a@[i]
                    == start@[i],
        decreases LANES - l,
    {
        let i: usize = a_idx[lo + l];
        assert(a_idx@[lo + l] < start@.len());
        assert(canonical(sx[l as int]@));
        a.put(i, sx[l], sy[l], false);
        proof {
            assert forall|k: int| 0 <= k < l + 1 implies a@[#[trigger] a_idx@[lo + k] as int] == (
            Point { x: decode(sx[k]@), y: decode(sy[k]@), infinity: false }) by {
                if k < l {
                    assert(a_idx@[lo + k] != a_idx@[lo + l]);
                }
            }
        }
        l += 1;
    }
    proof {
        assert forall|k: int| 0 <= k < 8 implies a@[#[trigger] a_idx@[lo + k] as int] == finished(
            start@[a_idx@[lo + k] as int],
            start@[b_idx@[lo + k] as int],
            decode(acc[k]@),
        ) by {
            assert(canonical(sx[k]@));
        }
    }
    let ghost before = *acc;
    *acc = new_inv.store();
    proof {
        assert forall|k: int| 0 <= k < 8 implies canonical(#[trigger] acc[k]@) && decode(acc[k]@)
            == peeled(
            start@[a_idx@[lo + k] as int],
            start@[b_idx@[lo + k] as int],
            decode(before[k]@),
        ) by {
            assert(acc[k]@ == new_inv.lane(k));
            assert(canonical(new_inv.lane(k)));
            assert(canonical(sx[k]@));
        }
    }
}

/// The two points of pair `k`.
pub open spec fn pair_at(o: Seq<Point>, ai: Seq<usize>, bi: Seq<usize>, k: int) -> (Point, Point) {
    (o[ai[k] as int], o[bi[k] as int])
}

/// Pair `k` is finite and shares its abscissa: a doubling or a negation. Only such a pair
/// disturbs its second operand.
pub open spec fn degenerate_at(o: Seq<Point>, ai: Seq<usize>, bi: Seq<usize>, k: int) -> bool {
    let (p, q) = pair_at(o, ai, bi, k);
    is_doubling(p, q) || is_negation(p, q)
}

/// The pairs can be added in one batch: the indices are in order, no pair doubles a point
/// with a vertical tangent, and a second operand that a degenerate pair disturbs is read by
/// no other pair.
pub open spec fn pairs_ok(o: Seq<Point>, ai: Seq<usize>, bi: Seq<usize>) -> bool {
    &&& indices_ok(o.len(), ai, bi)
    &&& forall|k: int|
        0 <= k < ai.len() ==> summable((#[trigger] pair_at(o, ai, bi, k)).0, pair_at(o, ai, bi, k).1)
    &&& forall|j: int, k: int|
        0 <= j < bi.len() && 0 <= k < bi.len() && j != k && #[trigger] bi[j] == #[trigger] bi[k]
            ==> !degenerate_at(o, ai, bi, j)
}

/// Position `i` is left alone by the batch: it is no pair's first operand, and no
/// degenerate pair's second one.
pub open spec fn untouched(o: Seq<Point>, ai: Seq<usize>, bi: Seq<usize>, i: int) -> bool {
    &&& forall|k: int| 0 <= k < ai.len() ==> #[trigger] ai[k] != i
    &&& forall|k: int|
        0 <= k < bi.len() && #[trigger] bi[k] == i ==> !degenerate_at(o, ai, bi, k)
}

/// The running product of one lane's factors over the pairs before `n`.
spec fn running(o: Seq<Point>, ai: Seq<usize>, bi: Seq<usize>, lane: int, n: nat) -> int
    decreases n,
{
    if n == 0 {
        1
    } else {
        let before = running(o, ai, bi, lane, (n - 1) as nat);
        if (n - 1) % 8 == lane {
            let (p, q) = pair_at(o, ai, bi, n - 1);
            fmul(before, factor(p, q))
        } else {
            before
        }
    }
}

/// Running products are nonzero elements.
proof fn lemma_running(o: Seq<Point>, ai: Seq<usize>, bi: Seq<usize>, lane: int, n: nat)
    requires
        pairs_ok(o, ai, bi),
        forall|i: int| 0 <= i < o.len() ==> is_point(#[trigger] o[i]),
        n <= ai.len(),
    ensures
        is_element(running(o, ai, bi, lane, n)),
        running(o, ai, bi, lane, n) != 0,
    decreases n,
{
    lemma_modulus();
    if n > 0 {
        let k = (n - 1) as nat;
        lemma_running(o, ai, bi, lane, k);
        let before = running(o, ai, bi, lane, k);
        let (p, q) = pair_at(o, ai, bi, k as int);
        assert(ai[k as int] < o.len() && bi[k as int] < o.len());
        lemma_factor(p, q);
        lemma_closed(before, factor(p, q));
        lemma_fmul_nonzero(before, factor(p, q));
    }
}

/// Within one group of eight, a lane's running product takes in one pair at most.
proof fn lemma_running_group(
    o: Seq<Point>,
    ai: Seq<usize>,
    bi: Seq<usize>,
    lane: int,
    lo: nat,
    hi: nat,
)
    requires
        lo % 8 == 0,
        lo <= hi <= lo + 8,
        0 <= lane < 8,
    ensures
        running(o, ai, bi, lane, hi) == (if lo + lane < hi {
            fmul(
                running(o, ai, bi, lane, lo),
                factor(pair_at(o, ai, bi, lo + lane).0, pair_at(o, ai, bi, lo + lane).1),
            )
        } else {
            running(o, ai, bi, lane, lo)
        }),
    decreases hi - lo,
{
    if hi > lo {
        lemma_running_group(o, ai, bi, lane, lo, (hi - 1) as nat);
        assert((hi - 1) % 8 == hi - 1 - lo);
    }
}

/// What the first pass has made of the points once it has handled the pairs before `n`.
spec fn first_pass(
    o: Seq<Point>,
    ai: Seq<usize>,
    bi: Seq<usize>,
    n: int,
    half: int,
    cur: Seq<Point>,
) -> bool {
    &&& cur.len() == o.len()
    &&& forall|k: int|
        0 <= k < ai.len() ==> cur[#[trigger] ai[k] as int] == (if k < n {
            staged_first(
                pair_at(o, ai, bi, k).0,
                pair_at(o, ai, bi, k).1,
                running(o, ai, bi, k % 8, k as nat),
            )
        } else {
            o[ai[k] as int]
        })
    &&& forall|k: int|
        0 <= k < bi.len() ==> cur[#[trigger] bi[k] as int] == (if k < n {
            staged_second(pair_at(o, ai, bi, k).0, pair_at(o, ai, bi, k).1, half)
        } else {
            o[bi[k] as int]
        })
    &&& forall|i: int|
        0 <= i < o.len() && untouched(o, ai, bi, i) ==> #[trigger] cur[i] == o[i]
}

/// One pair more.
#[verifier::rlimit(40)]
proof fn lemma_first_pass_step(
    o: Seq<Point>,
    ai: Seq<usize>,
    bi: Seq<usize>,
    n: int,
    half: int,
    cur: Seq<Point>,
    next: Seq<Point>,
)
    requires
        pairs_ok(o, ai, bi),
        0 <= n < ai.len(),
        first_pass(o, ai, bi, n, half, cur),
        next == cur.update(
            ai[n] as int,
            staged_first(
                o[ai[n] as int],
                o[bi[n] as int],
                running(o, ai, bi, n % 8, n as nat),
            ),
        ).update(bi[n] as int, staged_second(o[ai[n] as int], o[bi[n] as int], half)),
    ensures
        first_pass(o, ai, bi, n + 1, half, next),
{
    assert(ai[n] < o.len() && bi[n] < o.len());
    assert forall|k: int| 0 <= k < ai.len() implies next[#[trigger] ai[k] as int] == (if k < n + 1 {
        staged_first(
            pair_at(o, ai, bi, k).0,
            pair_at(o, ai, bi, k).1,
            running(o, ai, bi, k % 8, k as nat),
        )
    } else {
        o[ai[k] as int]
    }) by {
        assert(ai[k] != bi[n]);
        if k < n {
            assert(ai[k] != ai[n]);
        } else if k > n {
            assert(ai[n] != ai[k]);
        }
    }
    assert forall|k: int| 0 <= k < bi.len() implies next[#[trigger] bi[k] as int] == (if k < n + 1 {
        staged_second(pair_at(o, ai, bi, k).0, pair_at(o, ai, bi, k).1, half)
    } else {
        o[bi[k] as int]
    }) by {
        assert(ai[n] != bi[k]);
        if k != n && bi[k] == bi[n] {
            assert(!degenerate_at(o, ai, bi, k));
            assert(!degenerate_at(o, ai, bi, n));
        }
    }
    assert forall|i: int| 0 <= i < o.len() && untouched(o, ai, bi, i) implies #[trigger] next[i]
        == o[i] by {
        assert(ai[n] != i);
        if bi[n] == i {
            assert(!degenerate_at(o, ai, bi, n));
        }
        assert(cur[i] == o[i]);
    }
}

/// Eight generic pairs more.
#[verifier::rlimit(40)]
proof fn lemma_first_pass_group(
    o: Seq<Point>,
    ai: Seq<usize>,
    bi: Seq<usize>,
    lo: int,
    half: int,
    cur: Seq<Point>,
    next: Seq<Point>,
)
    requires
        pairs_ok(o, ai, bi),
        0 <= lo,
        lo % 8 == 0,
        lo + 8 <= ai.len(),
        first_pass(o, ai, bi, lo, half, cur),
        forall|k: int| lo <= k < lo + 8 ==> #[trigger] generic_at(cur, ai, bi, k),
        next.len() == cur.len(),
        forall|l: int|
            0 <= l < 8 ==> next[#[trigger] ai[lo + l] as int] == staged_first(
                cur[ai[lo + l] as int],
                cur[bi[lo + l] as int],
                running(o, ai, bi, l, lo as nat),
            ),
        forall|i: int|
            0 <= i < cur.len() && (forall|l: int| 0 <= l < 8 ==> #[trigger] ai[lo + l] != i)
                ==> #[trigger] next[i] == cur[i],
    ensures
        first_pass(o, ai, bi, lo + 8, half, next),
        forall|k: int| lo <= k < lo + 8 ==> #[trigger] generic_at(o, ai, bi, k),
{
    assert forall|k: int| lo <= k < lo + 8 implies #[trigger] generic_at(o, ai, bi, k) by {
        assert(generic_at(cur, ai, bi, k));
        assert(cur[ai[k] as int] == o[ai[k] as int]);
        assert(cur[bi[k] as int] == o[bi[k] as int]);
    }
    assert forall|k: int| 0 <= k < ai.len() implies next[#[trigger] ai[k] as int] == (if k < lo
        + 8 {
        staged_first(
            pair_at(o, ai, bi, k).0,
            pair_at(o, ai, bi, k).1,
            running(o, ai, bi, k % 8, k as nat),
        )
    } else {
        o[ai[k] as int]
    }) by {
        if lo <= k < lo + 8 {
            let l = k - lo;
            assert(ai[lo + l] == ai[k]);
            assert(k % 8 == l);
            lemma_running_group(o, ai, bi, l, lo as nat, k as nat);
            assert(cur[bi[k] as int] == o[bi[k] as int]);
            assert(cur[ai[k] as int] == o[ai[k] as int]);
            assert(next[ai[lo + l] as int] == staged_first(
                cur[ai[lo + l] as int],
                cur[bi[lo + l] as int],
                running(o, ai, bi, l, lo as nat),
            ));
        } else {
            assert forall|l: int| 0 <= l < 8 implies #[trigger] ai[lo + l] != ai[k] as int by {
                if lo + l < k {
                    assert(ai[lo + l] != ai[k]);
                } else {
                    assert(ai[k] != ai[lo + l]);
                }
            }
            assert(ai[k] < o.len());
            assert(next[ai[k] as int] == cur[ai[k] as int]);
        }
    }
    assert forall|k: int| 0 <= k < bi.len() implies next[#[trigger] bi[k] as int] == (if k < lo
        + 8 {
        staged_second(pair_at(o, ai, bi, k).0, pair_at(o, ai, bi, k).1, half)
    } else {
        o[bi[k] as int]
    }) by {
        assert forall|l: int| 0 <= l < 8 implies #[trigger] ai[lo + l] != bi[k] as int by {
            assert(ai[lo + l] != bi[k]);
        }
        assert(bi[k] < o.len());
        assert(next[bi[k] as int] == cur[bi[k] as int]);
        if lo <= k < lo + 8 {
            assert(generic_at(o, ai, bi, k));
        }
    }
    assert forall|i: int| 0 <= i < o.len() && untouched(o, ai, bi, i) implies #[trigger] next[i]
        == o[i] by {
        assert forall|l: int| 0 <= l < 8 implies #[trigger] ai[lo + l] != i by {
            assert(ai[lo + l] != i);
        }
        assert(next[i] == cur[i]);
    }
}

/// What the second pass has made of the points once it has handled the pairs from `hi` on
/// and, of the group that starts at `lo`, those before `mid`.
spec fn second_pass(
    o: Seq<Point>,
    ai: Seq<usize>,
    bi: Seq<usize>,
    lo: int,
    mid: int,
    hi: int,
    half: int,
    cur: Seq<Point>,
) -> bool {
    &&& cur.len() == o.len()
    &&& forall|k: int|
        0 <= k < ai.len() ==> cur[#[trigger] ai[k] as int] == (if k >= hi || lo <= k < mid {
            ec_add(pair_at(o, ai, bi, k).0, pair_at(o, ai, bi, k).1)
        } else {
            staged_first(
                pair_at(o, ai, bi, k).0,
                pair_at(o, ai, bi, k).1,
                running(o, ai, bi, k % 8, k as nat),
            )
        })
    &&& forall|k: int|
        0 <= k < bi.len() ==> cur[#[trigger] bi[k] as int] == staged_second(
            pair_at(o, ai, bi, k).0,
            pair_at(o, ai, bi, k).1,
            half,
        )
    &&& forall|i: int|
        0 <= i < o.len() && untouched(o, ai, bi, i) ==> #[trigger] cur[i] == o[i]
}

/// Adds point `b_idx[k]` into point `a_idx[k]` for every `k`, over one batch inversion split
/// across eight lanes.
#[verifier::rlimit(60)]
fn pair_add(a: &mut PointBuf, a_idx: &[usize], b_idx: &[usize])
    requires
        old(a).wf(),
        pairs_ok(old(a)@, a_idx@, b_idx@),
    ensures
        final(a).wf(),
        final(a)@.len() == old(a)@.len(),
        forall|k: int|
            0 <= k < a_idx@.len() ==> final(a)@[#[trigger] a_idx@[k] as int] == ec_add(
                pair_at(old(a)@, a_idx@, b_idx@, k).0,
                pair_at(old(a)@, a_idx@, b_idx@, k).1,
            ),
        forall|k: int|
            0 <= k < b_idx@.len() ==> final(a)@[#[trigger] b_idx@[k] as int] == staged_second(
                pair_at(old(a)@, a_idx@, b_idx@, k).0,
                pair_at(old(a)@, a_idx@, b_idx@, k).1,
                decode(HALF@),
            ),
        forall|i: int|
            0 <= i < old(a)@.len() && untouched(old(a)@, a_idx@, b_idx@, i)
                ==> #[trigger] final(a)@[i] == old(a)@[i],
{
    let n: usize = a_idx.len();
    if n == 0 {
        return;
    }
    let ghost (o, ai, bi, half) = (a@, a_idx@, b_idx@, decode(HALF@));
    proof {
        a.lemma_points();
        lemma_constants();
    }
    let mut chains: Chains = Chains::new();

    let mut lo: usize = 0;
    while lo < n
        invariant
            lo <= n,
            lo < n ==> lo % 8 == 0,
            n == a_idx@.len(),
            a.wf(),
            chains.wf(),
            ai == a_idx@,
            bi == b_idx@,
            half == decode(HALF@),
            pairs_ok(o, ai, bi),
            first_pass(o, ai, bi, lo as int, half, a@),
            forall|l: int|
                0 <= l < 8 ==> #[trigger] chains.at(l) == running(o, ai, bi, l, lo as nat),
        decreases n - lo,
    {
        let hi: usize = if n - lo >= LANES {
            lo + LANES
        } else {
            n
        };
        if hi - lo == LANES && all_generic(a, a_idx, b_idx, lo) {
            let ghost (cur, before) = (a@, chains);
            loop_1_x8(a, a_idx, b_idx, lo, &mut chains);
            proof {
                assert forall|l: int| 0 <= l < 8 implies a@[#[trigger] ai[lo + l] as int]
                    == staged_first(
                    cur[ai[lo + l] as int],
                    cur[bi[lo + l] as int],
                    running(o, ai, bi, l, lo as nat),
                ) by {
                    assert(before.at(l) == running(o, ai, bi, l, lo as nat));
                }
                lemma_first_pass_group(o, ai, bi, lo as int, half, cur, a@);
                assert forall|l: int| 0 <= l < 8 implies #[trigger] chains.at(l) == running(
                    o,
                    ai,
                    bi,
                    l,
                    hi as nat,
                ) by {
                    assert(before.at(l) == running(o, ai, bi, l, lo as nat));
                    lemma_running_group(o, ai, bi, l, lo as nat, hi as nat);
                    assert(cur[ai[lo + l] as int] == o[ai[lo + l] as int]);
                    assert(cur[bi[lo + l] as int] == o[bi[lo + l] as int]);
                }
            }
        } else {
            let mut k: usize = lo;
            while k < hi
                invariant
                    lo <= k <= hi,
                    lo % 8 == 0,
                    hi <= n,
                    hi <= lo + 8,
                    n == a_idx@.len(),
                    a.wf(),
                    chains.wf(),
                    ai == a_idx@,
                    bi == b_idx@,
                    half == decode(HALF@),
                    pairs_ok(o, ai, bi),
                    first_pass(o, ai, bi, k as int, half, a@),
                    forall|l: int|
                        0 <= l < 8 ==> #[trigger] chains.at(l) == running(o, ai, bi, l, k as nat),
                decreases hi - k,
            {
                let ghost (cur, before) = (a@, chains);
                let (i, j) = (a_idx[k], b_idx[k]);
                proof {
                    assert(ai[k as int] < o.len());
                    assert(bi[k as int] < o.len());
                    assert(ai[k as int] != bi[k as int]);
                    assert(cur[ai[k as int] as int] == o[ai[k as int] as int]);
                    assert(cur[bi[k as int] as int] == o[bi[k as int] as int]);
                    assert(before.at(k - lo) == running(o, ai, bi, k - lo, k as nat));
                }
                loop_1_scalar(a, i, j, k - lo, &mut chains);
                proof {
                    assert(k as int % 8 == k - lo);
                    lemma_first_pass_step(o, ai, bi, k as int, half, cur, a@);
                    assert forall|l: int| 0 <= l < 8 implies #[trigger] chains.at(l) == running(
                        o,
                        ai,
                        bi,
                        l,
                        (k + 1) as nat,
                    ) by {
                        assert(before.at(l) == running(o, ai, bi, l, k as nat));
                    }
                }
                k += 1;
            }
        }
        lo = hi;
    }

    proof {
        assert forall|l: int| 0 <= l < 8 implies #[trigger] chains.at(l) != 0 by {
            lemma_running(o, ai, bi, l, n as nat);
        }
    }
    let mut acc: [[u64; LIMBS]; LANES] = chains.invert();
    proof {
        assert forall|l: int| 0 <= l < 8 implies fmul(
            decode(#[trigger] acc[l]@),
            running(o, ai, bi, l, n as nat),
        ) == 1 by {
            assert(chains.at(l) == running(o, ai, bi, l, n as nat));
        }
        assert(second_pass(o, ai, bi, n as int, n as int, n as int, half, a@));
    }

    let mut top: usize = n;
    while top > 0
        invariant
            top <= n,
            top == n || top % 8 == 0,
            n == a_idx@.len(),
            a.wf(),
            ai == a_idx@,
            bi == b_idx@,
            half == decode(HALF@),
            fadd(half, half) == 1,
            pairs_ok(o, ai, bi),
            forall|i: int| 0 <= i < o.len() ==> is_point(#[trigger] o[i]),
            second_pass(o, ai, bi, top as int, top as int, top as int, half, a@),
            forall|l: int| 0 <= l < 8 ==> canonical(#[trigger] acc[l]@),
            forall|l: int|
                0 <= l < 8 ==> fmul(
                    decode(#[trigger] acc[l]@),
                    running(o, ai, bi, l, top as nat),
                ) == 1,
        decreases top,
    {
        let lo: usize = (top - 1) / LANES * LANES;
        let hi: usize = top;
        assert(lo % 8 == 0 && lo < hi <= lo + 8);
        if hi - lo == LANES && all_generic(a, a_idx, b_idx, lo) {
            let ghost (cur, before) = (a@, acc);
            proof {
                assert forall|k: int| lo <= k < lo + 8 implies #[trigger] finite_at(
                    a@,
                    ai,
                    bi,
                    k,
                ) by {
                    assert(generic_at(a@, ai, bi, k));
                }
            }
            loop_2_x8(a, a_idx, b_idx, lo, &mut acc);
            proof {
                lemma_second_pass_group(o, ai, bi, lo as int, half, cur, before, a@, acc);
            }
        } else {
            let mut k: usize = lo;
            while k < hi
                invariant
                    lo <= k <= hi,
                    lo % 8 == 0,
                    hi <= n,
                    hi <= lo + 8,
                    n == a_idx@.len(),
                    a.wf(),
                    ai == a_idx@,
                    bi == b_idx@,
                    half == decode(HALF@),
                    fadd(half, half) == 1,
                    pairs_ok(o, ai, bi),
                    forall|i: int| 0 <= i < o.len() ==> is_point(#[trigger] o[i]),
                    second_pass(o, ai, bi, lo as int, k as int, hi as int, half, a@),
                    forall|l: int| 0 <= l < 8 ==> canonical(#[trigger] acc[l]@),
                    forall|l: int|
                        0 <= l < 8 ==> fmul(
                            decode(#[trigger] acc[l]@),
                            running(
                                o,
                                ai,
                                bi,
                                l,
                                if lo + l < k {
                                    lo as nat
                                } else {
                                    hi as nat
                                },
                            ),
                        ) == 1,
                decreases hi - k,
            {
                let ghost (cur, before) = (a@, acc);
                let (i, j) = (a_idx[k], b_idx[k]);
                let lane: usize = k - lo;
                assert(ai[k as int] < o.len());
                assert(bi[k as int] < o.len());
                loop_2_scalar(a, i, j, lane, &mut acc);
                proof {
                    lemma_second_pass_step(
                        o,
                        ai,
                        bi,
                        lo as int,
                        k as int,
                        hi as int,
                        half,
                        cur,
                        decode(before[lane as int]@),
                        a@,
                    );
                    assert forall|l: int| 0 <= l < 8 implies fmul(
                        decode(#[trigger] acc[l]@),
                        running(
                            o,
                            ai,
                            bi,
                            l,
                            if lo + l < k + 1 {
                                lo as nat
                            } else {
                                hi as nat
                            },
                        ),
                    ) == 1 by {
                        assert(canonical(before[l]@));
                    }
                }
                k += 1;
            }
            proof {
                assert forall|l: int| 0 <= l < 8 implies fmul(
                    decode(#[trigger] acc[l]@),
                    running(o, ai, bi, l, lo as nat),
                ) == 1 by {
                    lemma_running_group(o, ai, bi, l, lo as nat, hi as nat);
                }
                assert(second_pass(o, ai, bi, lo as int, lo as int, lo as int, half, a@));
            }
        }
        top = lo;
    }
}

/// One pair more in the second pass.
#[verifier::rlimit(40)]
proof fn lemma_second_pass_step(
    o: Seq<Point>,
    ai: Seq<usize>,
    bi: Seq<usize>,
    lo: int,
    k: int,
    hi: int,
    half: int,
    cur: Seq<Point>,
    inverse: int,
    next: Seq<Point>,
)
    requires
        pairs_ok(o, ai, bi),
        forall|i: int| 0 <= i < o.len() ==> is_point(#[trigger] o[i]),
        0 <= lo <= k < hi <= ai.len(),
        lo % 8 == 0,
        hi <= lo + 8,
        fadd(half, half) == 1,
        second_pass(o, ai, bi, lo, k, hi, half, cur),
        is_element(inverse),
        fmul(inverse, running(o, ai, bi, k - lo, hi as nat)) == 1,
        next == cur.update(
            ai[k] as int,
            finished(cur[ai[k] as int], cur[bi[k] as int], inverse),
        ),
    ensures
        second_pass(o, ai, bi, lo, k + 1, hi, half, next),
        fmul(
            peeled(cur[ai[k] as int], cur[bi[k] as int], inverse),
            running(o, ai, bi, k - lo, lo as nat),
        ) == 1,
{
    let (p, q) = pair_at(o, ai, bi, k);
    let before = running(o, ai, bi, k - lo, lo as nat);
    assert(ai[k] < o.len() && bi[k] < o.len());
    assert(k % 8 == k - lo);
    lemma_running_group(o, ai, bi, k - lo, lo as nat, hi as nat);
    lemma_running_group(o, ai, bi, k - lo, lo as nat, k as nat);
    lemma_running(o, ai, bi, k - lo, lo as nat);
    lemma_finished(p, q, before, half, inverse);
    assert(cur[ai[k] as int] == staged_first(p, q, before));
    assert(cur[bi[k] as int] == staged_second(p, q, half));
    assert forall|j: int| 0 <= j < ai.len() implies next[#[trigger] ai[j] as int] == (if j >= hi || lo
        <= j < k + 1 {
        ec_add(pair_at(o, ai, bi, j).0, pair_at(o, ai, bi, j).1)
    } else {
        staged_first(
            pair_at(o, ai, bi, j).0,
            pair_at(o, ai, bi, j).1,
            running(o, ai, bi, j % 8, j as nat),
        )
    }) by {
        if j < k {
            assert(ai[j] != ai[k]);
        } else if j > k {
            assert(ai[k] != ai[j]);
        }
    }
    assert forall|j: int| 0 <= j < bi.len() implies next[#[trigger] bi[j] as int] == staged_second(
        pair_at(o, ai, bi, j).0,
        pair_at(o, ai, bi, j).1,
        half,
    ) by {
        assert(ai[k] != bi[j]);
    }
    assert forall|i: int| 0 <= i < o.len() && untouched(o, ai, bi, i) implies #[trigger] next[i]
        == o[i] by {
        assert(ai[k] != i);
        assert(cur[i] == o[i]);
    }
}

/// What the second pass makes of one pair of a group that it has not touched yet.
proof fn lemma_second_pass_lane(
    o: Seq<Point>,
    ai: Seq<usize>,
    bi: Seq<usize>,
    lo: int,
    l: int,
    half: int,
    cur: Seq<Point>,
    inverse: int,
)
    requires
        pairs_ok(o, ai, bi),
        forall|i: int| 0 <= i < o.len() ==> is_point(#[trigger] o[i]),
        0 <= lo,
        0 <= l < 8,
        lo + 8 <= ai.len(),
        lo % 8 == 0,
        fadd(half, half) == 1,
        second_pass(o, ai, bi, lo + 8, lo + 8, lo + 8, half, cur),
        is_element(inverse),
        fmul(inverse, running(o, ai, bi, l, (lo + 8) as nat)) == 1,
    ensures
        finished(cur[ai[lo + l] as int], cur[bi[lo + l] as int], inverse) == ec_add(
            pair_at(o, ai, bi, lo + l).0,
            pair_at(o, ai, bi, lo + l).1,
        ),
        fmul(
            peeled(cur[ai[lo + l] as int], cur[bi[lo + l] as int], inverse),
            running(o, ai, bi, l, lo as nat),
        ) == 1,
{
    let k = lo + l;
    let (p, q) = pair_at(o, ai, bi, k);
    let run = running(o, ai, bi, l, lo as nat);
    assert(ai[k] < o.len() && bi[k] < o.len());
    assert(k % 8 == l);
    lemma_running_group(o, ai, bi, l, lo as nat, (lo + 8) as nat);
    lemma_running_group(o, ai, bi, l, lo as nat, k as nat);
    lemma_running(o, ai, bi, l, lo as nat);
    lemma_finished(p, q, run, half, inverse);
    assert(cur[ai[k] as int] == staged_first(p, q, run));
    assert(cur[bi[k] as int] == staged_second(p, q, half));
}

/// Eight pairs of finite points more in the second pass.
#[verifier::rlimit(40)]
proof fn lemma_second_pass_group(
    o: Seq<Point>,
    ai: Seq<usize>,
    bi: Seq<usize>,
    lo: int,
    half: int,
    cur: Seq<Point>,
    before: [[u64; LIMBS]; LANES],
    next: Seq<Point>,
    after: [[u64; LIMBS]; LANES],
)
    requires
        pairs_ok(o, ai, bi),
        forall|i: int| 0 <= i < o.len() ==> is_point(#[trigger] o[i]),
        0 <= lo,
        lo + 8 <= ai.len(),
        lo % 8 == 0,
        fadd(half, half) == 1,
        second_pass(o, ai, bi, lo + 8, lo + 8, lo + 8, half, cur),
        forall|l: int|
            0 <= l < 8 ==> fmul(
                decode(#[trigger] before[l]@),
                running(o, ai, bi, l, (lo + 8) as nat),
            ) == 1,
        next.len() == cur.len(),
        forall|l: int|
            0 <= l < 8 ==> next[#[trigger] ai[lo + l] as int] == finished(
                cur[ai[lo + l] as int],
                cur[bi[lo + l] as int],
                decode(before[l]@),
            ),
        forall|i: int|
            0 <= i < cur.len() && (forall|l: int| 0 <= l < 8 ==> #[trigger] ai[lo + l] != i)
                ==> #[trigger] next[i] == cur[i],
        forall|l: int|
            0 <= l < 8 ==> decode(#[trigger] after[l]@) == peeled(
                cur[ai[lo + l] as int],
                cur[bi[lo + l] as int],
                decode(before[l]@),
            ),
    ensures
        second_pass(o, ai, bi, lo, lo, lo, half, next),
        forall|l: int|
            0 <= l < 8 ==> fmul(decode(#[trigger] after[l]@), running(o, ai, bi, l, lo as nat))
                == 1,
{
    let made = |k: int| next[ai[k] as int] == ec_add(pair_at(o, ai, bi, k).0, pair_at(o, ai, bi, k).1);
    assert forall|l: int| 0 <= l < 8 implies #[trigger] made(lo + l) && fmul(
        decode(after[l]@),
        running(o, ai, bi, l, lo as nat),
    ) == 1 by {
        assert(fmul(decode(before[l]@), running(o, ai, bi, l, (lo + 8) as nat)) == 1);
        assert(decode(after[l]@) == peeled(
            cur[ai[lo + l] as int],
            cur[bi[lo + l] as int],
            decode(before[l]@),
        ));
        lemma_decode_element(before[l]@);
        lemma_second_pass_lane(o, ai, bi, lo, l, half, cur, decode(before[l]@));
        assert(next[ai[lo + l] as int] == finished(
            cur[ai[lo + l] as int],
            cur[bi[lo + l] as int],
            decode(before[l]@),
        ));
    }
    assert forall|l: int| 0 <= l < 8 implies fmul(
        decode(#[trigger] after[l]@),
        running(o, ai, bi, l, lo as nat),
    ) == 1 by {
        assert(made(lo + l));
    }
    assert forall|j: int| 0 <= j < ai.len() implies next[#[trigger] ai[j] as int] == (if j >= lo {
        ec_add(pair_at(o, ai, bi, j).0, pair_at(o, ai, bi, j).1)
    } else {
        staged_first(
            pair_at(o, ai, bi, j).0,
            pair_at(o, ai, bi, j).1,
            running(o, ai, bi, j % 8, j as nat),
        )
    }) by {
        if lo <= j < lo + 8 {
            assert(made(lo + (j - lo)));
        } else {
            assert forall|l: int| 0 <= l < 8 implies #[trigger] ai[lo + l] != ai[j] as int by {
                if lo + l < j {
                    assert(ai[lo + l] != ai[j]);
                } else {
                    assert(ai[j] != ai[lo + l]);
                }
            }
            assert(ai[j] < o.len());
            assert(next[ai[j] as int] == cur[ai[j] as int]);
        }
    }
    assert forall|j: int| 0 <= j < bi.len() implies next[#[trigger] bi[j] as int] == staged_second(
        pair_at(o, ai, bi, j).0,
        pair_at(o, ai, bi, j).1,
        half,
    ) by {
        assert forall|l: int| 0 <= l < 8 implies #[trigger] ai[lo + l] != bi[j] as int by {
            assert(ai[lo + l] != bi[j]);
        }
        assert(bi[j] < o.len());
        assert(next[bi[j] as int] == cur[bi[j] as int]);
    }
    assert forall|i: int| 0 <= i < o.len() && untouched(o, ai, bi, i) implies #[trigger] next[i]
        == o[i] by {
        assert forall|l: int| 0 <= l < 8 implies #[trigger] ai[lo + l] != i by {
            assert(ai[lo + l] != i);
        }
        assert(next[i] == cur[i]);
    }
}

/// The first indices of a list of pairs.
pub open spec fn firsts(index: Seq<(u32, u32)>) -> Seq<usize> {
    Seq::new(index.len(), |k: int| index[k].0 as usize)
}

/// The second indices of a list of pairs.
pub open spec fn seconds(index: Seq<(u32, u32)>) -> Seq<usize> {
    Seq::new(index.len(), |k: int| index[k].1 as usize)
}

/// Reusable index buffers, so that a batch addition does not allocate per call.
pub struct Scratch {
    a_idx: Vec<usize>,
    b_idx: Vec<usize>,
}

impl Scratch {
    /// The pairs that the buffers hold.
    pub closed spec fn pairs(self) -> Seq<(usize, usize)> {
        Seq::new(self.a_idx@.len(), |k: int| (self.a_idx@[k], self.b_idx@[k]))
    }

    /// Creates scratch sized for a batch of `capacity` pairs.
    pub fn with_capacity(capacity: usize) -> (scratch: Self)
        ensures
            scratch.pairs() == Seq::<(usize, usize)>::empty(),
    {
        let scratch = Scratch {
            a_idx: Vec::with_capacity(capacity),
            b_idx: Vec::with_capacity(capacity),
        };
        assert(scratch.pairs() =~= Seq::<(usize, usize)>::empty());
        scratch
    }

    /// Empties the buffers.
    fn clear(&mut self)
        ensures
            final(self).a_idx@.len() == 0,
            final(self).b_idx@.len() == 0,
            final(self).pairs() == Seq::<(usize, usize)>::empty(),
    {
        self.a_idx.clear();
        self.b_idx.clear();
        assert(self.pairs() =~= Seq::<(usize, usize)>::empty());
    }
}

impl Default for Scratch {
    /// Creates scratch without any room yet.
    fn default() -> (scratch: Self)
        ensures
            scratch.pairs() == Seq::<(usize, usize)>::empty(),
    {
        Scratch::with_capacity(0)
    }
}

/// What a batch of additions in place does to a buffer: for each pair `(i, j)` point `i`
/// becomes the sum of the two, and point `j` what the first pass stages for it, which is point
/// `j` itself but for a doubling or a negation. Every other point stays.
pub open spec fn sums_in_place(
    before: Seq<Point>,
    index: Seq<(u32, u32)>,
    after: Seq<Point>,
) -> bool {
    &&& after.len() == before.len()
    &&& forall|k: int|
        0 <= k < index.len() ==> after[(#[trigger] index[k]).0 as int] == ec_add(
            before[index[k].0 as int],
            before[index[k].1 as int],
        ) && after[index[k].1 as int] == staged_second(
            before[index[k].0 as int],
            before[index[k].1 as int],
            decode(HALF@),
        )
    &&& forall|i: int|
        0 <= i < before.len() && untouched(before, firsts(index), seconds(index), i)
            ==> #[trigger] after[i] == before[i]
}

/// For each `(i, j)` in `index`, sets point `i` to `point i + point j`. A point `j` that equals
/// point `i` or its negation is used up; every other point stays.
pub fn batch_add_in_place(buf: &mut PointBuf, index: &[(u32, u32)])
    requires
        old(buf).wf(),
        pairs_ok(old(buf)@, firsts(index@), seconds(index@)),
    ensures
        final(buf).wf(),
        sums_in_place(old(buf)@, index@, final(buf)@),
{
    let mut scratch: Scratch = Scratch::with_capacity(index.len());
    batch_add_in_place_with(buf, index, &mut scratch);
}

/// As [`batch_add_in_place`], reusing the caller's scratch.
#[verifier::rlimit(40)]
pub fn batch_add_in_place_with(buf: &mut PointBuf, index: &[(u32, u32)], scratch: &mut Scratch)
    requires
        old(buf).wf(),
        pairs_ok(old(buf)@, firsts(index@), seconds(index@)),
    ensures
        final(buf).wf(),
        sums_in_place(old(buf)@, index@, final(buf)@),
        final(scratch).pairs() == Seq::new(
            index@.len(),
            |k: int| (index@[k].0 as usize, index@[k].1 as usize),
        ),
{
    scratch.clear();
    let mut k: usize = 0;
    while k < index.len()
        invariant
            k <= index@.len(),
            scratch.a_idx@.len() == k,
            scratch.b_idx@.len() == k,
            forall|j: int| 0 <= j < k ==> #[trigger] scratch.a_idx@[j] == index@[j].0 as usize,
            forall|j: int| 0 <= j < k ==> #[trigger] scratch.b_idx@[j] == index@[j].1 as usize,
        decreases index@.len() - k,
    {
        scratch.a_idx.push(index[k].0 as usize);
        scratch.b_idx.push(index[k].1 as usize);
        k += 1;
    }
    proof {
        assert(scratch.a_idx@ =~= firsts(index@));
        assert(scratch.b_idx@ =~= seconds(index@));
    }
    let ghost o = buf@;
    pair_add(buf, scratch.a_idx.as_slice(), scratch.b_idx.as_slice());
    proof {
        assert(scratch.pairs() =~= Seq::new(
            index@.len(),
            |k: int| (index@[k].0 as usize, index@[k].1 as usize),
        ));
        assert forall|j: int| 0 <= j < index@.len() implies buf@[(#[trigger] index@[j]).0 as int]
            == ec_add(o[index@[j].0 as int], o[index@[j].1 as int]) && buf@[index@[j].1 as int]
            == staged_second(
            o[index@[j].0 as int],
            o[index@[j].1 as int],
            decode(HALF@),
        ) by {
            let (ai, bi) = (firsts(index@), seconds(index@));
            assert(ai[j] == index@[j].0 as usize);
            assert(bi[j] == index@[j].1 as usize);
            assert(buf@[bi[j] as int] == staged_second(
                pair_at(o, ai, bi, j).0,
                pair_at(o, ai, bi, j).1,
                decode(HALF@),
            ));
            assert(buf@[ai[j] as int] == ec_add(
                pair_at(o, ai, seconds(index@), j).0,
                pair_at(o, ai, seconds(index@), j).1,
            ));
        }
    }
}

/// The second index that stands for no second operand.
pub const ALONE: u32 = 0xffffffff;

/// What one instruction writes: a sum, or a copy where there is no second operand.
pub open spec fn written(bases: Seq<Point>, pair: (u32, u32)) -> Point {
    if pair.1 == ALONE {
        bases[pair.0 as int]
    } else {
        ec_add(bases[pair.0 as int], bases[pair.1 as int])
    }
}

/// One instruction refers to points that are there and whose sum is defined.
pub open spec fn writable(bases: Seq<Point>, pair: (u32, u32)) -> bool {
    &&& pair.0 < bases.len()
    &&& pair.1 != ALONE ==> {
        &&& pair.1 < bases.len()
        &&& summable(bases[pair.0 as int], bases[pair.1 as int])
    }
}

/// The pairs that writing leaves in the scratch: where in the output each sum stands, and
/// which base is its second operand.
pub open spec fn written_pairs(start: nat, index: Seq<(u32, u32)>) -> Seq<(usize, usize)>
    decreases index.len(),
{
    if index.len() == 0 {
        Seq::empty()
    } else {
        let rest = written_pairs(start, index.drop_last());
        if index.last().1 == ALONE {
            rest
        } else {
            rest.push(((start + index.len() - 1) as usize, index.last().1 as usize))
        }
    }
}

/// For each `(i, j)` writes `bases[i] + bases[j]` (or just `bases[i]` when `j` is the
/// [`ALONE`] sentinel) onto the end of `out`.
#[verifier::rlimit(40)]
pub fn batch_add_write(
    bases: &PointBuf,
    index: &[(u32, u32)],
    out: &mut PointBuf,
    scratch: &mut Scratch,
)
    requires
        bases.wf(),
        old(out).wf(),
        old(out)@.len() + 2 * index@.len() <= usize::MAX,
        forall|k: int| 0 <= k < index@.len() ==> writable(bases@, #[trigger] index@[k]),
    ensures
        final(out).wf(),
        final(out)@ == old(out)@ + index@.map_values(|pair: (u32, u32)| written(bases@, pair)),
        final(scratch).pairs() == written_pairs(old(out)@.len(), index@),
{
    scratch.clear();
    let ghost start = out@;
    let base_len: usize = out.len();
    let n: usize = index.len();
    let mut k: usize = 0;
    while k < n
        invariant
            k <= n,
            n == index@.len(),
            bases.wf(),
            out.wf(),
            base_len == start.len(),
            out@.len() == base_len + k,
            scratch.a_idx@.len() == 0,
            forall|i: int| 0 <= i < base_len ==> #[trigger] out@[i] == start[i],
            forall|j: int|
                0 <= j < k ==> #[trigger] out@[base_len + j] == bases@[index@[j].0 as int],
            forall|j: int| 0 <= j < n ==> writable(bases@, #[trigger] index@[j]),
        decreases n - k,
    {
        assert(writable(bases@, index@[k as int]));
        out.push_from_other(bases, index[k].0 as usize);
        k += 1;
    }
    // Copies of the second operands follow the written points, so that the batch works
    // within one buffer.
    let mut k: usize = 0;
    while k < n
        invariant
            k <= n,
            n == index@.len(),
            bases.wf(),
            out.wf(),
            base_len == start.len(),
            base_len + 2 * n <= usize::MAX,
            out@.len() == base_len + n + scratch.a_idx@.len(),
            scratch.a_idx@.len() == scratch.b_idx@.len(),
            scratch.a_idx@.len() <= k,
            forall|i: int| 0 <= i < base_len ==> #[trigger] out@[i] == start[i],
            forall|j: int|
                0 <= j < n ==> #[trigger] out@[base_len + j] == bases@[index@[j].0 as int],
            forall|j: int| 0 <= j < n ==> writable(bases@, #[trigger] index@[j]),
            forall|j: int|
                0 <= j < scratch.b_idx@.len() ==> #[trigger] scratch.b_idx@[j] == base_len + n + j,
            forall|j: int|
                0 <= j < scratch.a_idx@.len() ==> {
                    let m = #[trigger] scratch.a_idx@[j] - base_len;
                    &&& 0 <= m < k
                    &&& index@[m].1 != ALONE
                    &&& out@[base_len + n + j] == bases@[index@[m].1 as int]
                },
            forall|i: int, j: int|
                0 <= i < j < scratch.a_idx@.len() ==> #[trigger] scratch.a_idx@[i]
                    < #[trigger] scratch.a_idx@[j],
            forall|m: int|
                0 <= m < k && (#[trigger] index@[m]).1 != ALONE ==> scratch.a_idx@.contains(
                    (base_len + m) as usize,
                ),
        decreases n - k,
    {
        assert(writable(bases@, index@[k as int]));
        let second: u32 = index[k].1;
        if second != ALONE {
            let ghost (old_out, old_a) = (out@, scratch.a_idx@);
            let at: usize = out.len();
            scratch.a_idx.push(base_len + k);
            scratch.b_idx.push(at);
            out.push_from_other(bases, second as usize);
            proof {
                assert forall|m: int| 0 <= m < k + 1 && (#[trigger] index@[m]).1 != ALONE implies
                    scratch.a_idx@.contains((base_len + m) as usize) by {
                    if m < k {
                        let i = choose|i: int|
                            0 <= i < old_a.len() && old_a[i] == (base_len + m) as usize;
                        assert(old_a.contains((base_len + m) as usize));
                        assert(scratch.a_idx@[i] == old_a[i]);
                    } else {
                        assert(scratch.a_idx@[old_a.len() as int] == (base_len + m) as usize);
                    }
                }
            }
        }
        k += 1;
    }
    let ghost (o, ai, bi) = (out@, scratch.a_idx@, scratch.b_idx@);
    proof {
        assert forall|i: int| 0 <= i < ai.len() implies #[trigger] ai[i] < base_len + n && bi[i]
            >= base_len + n && summable(pair_at(o, ai, bi, i).0, pair_at(o, ai, bi, i).1) by {
            let m = ai[i] - base_len;
            assert(writable(bases@, index@[m]));
            assert(o[base_len + m] == bases@[index@[m].0 as int]);
            assert(o[base_len + n + i] == bases@[index@[m].1 as int]);
        }
        assert forall|i: int, j: int| 0 <= i < ai.len() && 0 <= j < bi.len() implies #[trigger] ai[i]
            != #[trigger] bi[j] by {
            assert(ai[i] < base_len + n);
            assert(bi[j] == base_len + n + j);
        }
        assert(pairs_ok(o, ai, bi));
    }
    pair_add(out, scratch.a_idx.as_slice(), scratch.b_idx.as_slice());
    let ghost added = out@;
    out.truncate(base_len + n);
    // The scratch names the bases, not their copies.
    scratch.clear();
    let mut k: usize = 0;
    while k < n
        invariant
            k <= n,
            n == index@.len(),
            base_len + 2 * n <= usize::MAX,
            scratch.a_idx@.len() == scratch.b_idx@.len(),
            scratch.pairs() == written_pairs(base_len as nat, index@.take(k as int)),
        decreases n - k,
    {
        let ghost before = scratch.pairs();
        let second: u32 = index[k].1;
        if second != ALONE {
            scratch.a_idx.push(base_len + k);
            scratch.b_idx.push(second as usize);
            assert(scratch.pairs() =~= before.push(((base_len + k) as usize, second as usize)));
        }
        assert(index@.take(k + 1).drop_last() =~= index@.take(k as int));
        k += 1;
    }
    assert(index@.take(k as int) =~= index@);
    proof {
        let want = start + index@.map_values(|pair: (u32, u32)| written(bases@, pair));
        assert forall|i: int| 0 <= i < base_len + n implies #[trigger] out@[i] == want[i] by {
            assert(out@[i] == added[i]);
            if i < base_len {
                assert forall|j: int| 0 <= j < ai.len() implies #[trigger] ai[j] != i by {}
                assert forall|j: int| 0 <= j < bi.len() implies #[trigger] bi[j] != i by {}
                assert(untouched(o, ai, bi, i));
            } else {
                let m = i - base_len;
                assert(o[base_len + m] == bases@[index@[m].0 as int]);
                if index@[m].1 != ALONE {
                    assert(ai.contains((base_len + m) as usize));
                    let j = choose|j: int| 0 <= j < ai.len() && ai[j] == (base_len + m) as usize;
                    assert(added[ai[j] as int] == ec_add(
                        pair_at(o, ai, bi, j).0,
                        pair_at(o, ai, bi, j).1,
                    ));
                    assert(o[base_len + n + j] == bases@[index@[m].1 as int]);
                } else {
                    assert forall|j: int| 0 <= j < ai.len() implies #[trigger] ai[j] != i by {
                        assert(index@[ai[j] - base_len].1 != ALONE);
                    }
                    assert forall|j: int| 0 <= j < bi.len() implies #[trigger] bi[j] != i by {}
                    assert(untouched(o, ai, bi, i));
                }
            }
        }
        assert(out@ =~= want);
    }
}

} // verus!
