//! Laws of the batched additions: what the two passes come to together, that the vectorized
//! passes do what eight scalar ones do, and that the inverted chains are inverses.

use crate::curve::{
    both_finite, ec_add, factor, finished, is_negation, is_point, lemma_factor, lemma_finished,
    peeled, staged_first, staged_second, summable, Point,
};
use crate::field::{
    fmul, is_element, lemma_closed, lemma_fmul_nonzero, lemma_fmul_one, lemma_modulus, modulus,
};
use crate::ifma::{
    canonical, decode, lemma_constants, lemma_decode_injective, r416_inv, val, HALF, ONE,
};
use crate::ifma_batch_add::{
    degenerate_at, finite_at, first_step, firsts, generic_at, indices_ok, pair_at, pairs_ok,
    second_step, seconds, sums_in_place, untouched, writable, written,
};
use crate::point_buf::PointBuf;
use vstd::arithmetic::div_mod::lemma_mod_bound;
use vstd::prelude::*;

verus! {

/// The first pass over a pair, the inverse of the running product with the pair in it, and
/// the second pass leave the sum of the two points in the first one's place, peel the pair's
/// factor off the inverse, and leave every other point but the second operand alone; that one
/// moves in a doubling or a negation only.
pub proof fn lemma_two_passes(o: Seq<Point>, i: int, j: int, before: int, inverse: int)
    requires
        0 <= i < o.len(),
        0 <= j < o.len(),
        i != j,
        is_point(o[i]),
        is_point(o[j]),
        summable(o[i], o[j]),
        is_element(before),
        is_element(inverse),
        fmul(inverse, fmul(before, factor(o[i], o[j]))) == 1,
    ensures
        ({
            let staged = first_step(o, i, j, before);
            let done = second_step(staged, i, j, inverse);
            &&& done.len() == o.len()
            &&& done[i] == ec_add(o[i], o[j])
            &&& done[j] == staged_second(o[i], o[j], decode(HALF@))
            &&& o[i].x != o[j].x || !both_finite(o[i], o[j]) ==> done[j] == o[j]
            &&& forall|k: int| 0 <= k < o.len() && k != i && k != j ==> #[trigger] done[k] == o[k]
            &&& fmul(peeled(staged[i], staged[j], inverse), before) == 1
        }),
{
    lemma_constants();
    lemma_finished(o[i], o[j], before, decode(HALF@), inverse);
}

/// The first pass keeps running products nonzero. Where an operand is at infinity it changes
/// neither the points nor the product; where the operands are opposite it keeps the product
/// and every coordinate, and marks both as infinite.
pub proof fn lemma_first_pass_keeps(o: Seq<Point>, i: int, j: int, before: int)
    requires
        0 <= i < o.len(),
        0 <= j < o.len(),
        i != j,
        is_point(o[i]),
        is_point(o[j]),
        summable(o[i], o[j]),
        is_element(before),
        before != 0,
    ensures
        is_element(fmul(before, factor(o[i], o[j]))),
        fmul(before, factor(o[i], o[j])) != 0,
        !both_finite(o[i], o[j]) ==> first_step(o, i, j, before) == o && fmul(
            before,
            factor(o[i], o[j]),
        ) == before,
        is_negation(o[i], o[j]) ==> first_step(o, i, j, before) == o.update(
            i,
            (Point { infinity: true, ..o[i] }),
        ).update(j, (Point { infinity: true, ..o[j] })) && fmul(before, factor(o[i], o[j]))
            == before,
{
    lemma_factor(o[i], o[j]);
    lemma_closed(before, factor(o[i], o[j]));
    lemma_fmul_nonzero(before, factor(o[i], o[j]));
    lemma_fmul_one(before);
    if !both_finite(o[i], o[j]) {
        assert(first_step(o, i, j, before) =~= o);
    }
}

/// What scalar second passes over the first `n` pairs of a group make of the points and of the
/// inverses of the lanes, one after the other.
pub open spec fn second_steps(
    pts: Seq<Point>,
    ai: Seq<usize>,
    bi: Seq<usize>,
    lo: int,
    inverses: Seq<int>,
    n: nat,
) -> (Seq<Point>, Seq<int>)
    decreases n,
{
    if n == 0 {
        (pts, inverses)
    } else {
        let l = n - 1;
        let (cur, acc) = second_steps(pts, ai, bi, lo, inverses, l as nat);
        let (i, j) = (ai[lo + l] as int, bi[lo + l] as int);
        (second_step(cur, i, j, acc[l]), acc.update(l, peeled(cur[i], cur[j], acc[l])))
    }
}

proof fn lemma_second_steps(
    pts: Seq<Point>,
    ai: Seq<usize>,
    bi: Seq<usize>,
    lo: int,
    inverses: Seq<int>,
    n: nat,
)
    requires
        indices_ok(pts.len(), ai, bi),
        0 <= lo,
        lo + 8 <= ai.len(),
        inverses.len() == 8,
        n <= 8,
    ensures
        ({
            let (cur, acc) = second_steps(pts, ai, bi, lo, inverses, n);
            &&& cur.len() == pts.len()
            &&& acc.len() == 8
            &&& forall|l: int|
                0 <= l < n ==> cur[#[trigger] ai[lo + l] as int] == finished(
                    pts[ai[lo + l] as int],
                    pts[bi[lo + l] as int],
                    inverses[l],
                )
            &&& forall|i: int|
                0 <= i < pts.len() && (forall|l: int| 0 <= l < n ==> #[trigger] ai[lo + l] != i)
                    ==> #[trigger] cur[i] == pts[i]
            &&& forall|l: int|
                0 <= l < 8 ==> #[trigger] acc[l] == (if l < n {
                    peeled(pts[ai[lo + l] as int], pts[bi[lo + l] as int], inverses[l])
                } else {
                    inverses[l]
                })
        }),
    decreases n,
{
    if n > 0 {
        let m = (n - 1) as nat;
        lemma_second_steps(pts, ai, bi, lo, inverses, m);
        let (cur, acc) = second_steps(pts, ai, bi, lo, inverses, m);
        let (i, j) = (ai[lo + m] as int, bi[lo + m] as int);
        assert(ai[lo + m] < pts.len() && bi[lo + m] < pts.len());
        // Neither operand has been written yet.
        assert(cur[i] == pts[i]) by {
            assert forall|l: int| 0 <= l < m implies #[trigger] ai[lo + l] != i by {
                assert(ai[lo + l] != ai[lo + m]);
            }
        }
        assert(cur[j] == pts[j]) by {
            assert forall|l: int| 0 <= l < m implies #[trigger] ai[lo + l] != j by {
                assert(ai[lo + l] != bi[lo + m]);
            }
        }
        let next = second_step(cur, i, j, acc[m as int]);
        assert forall|l: int| 0 <= l < n implies next[#[trigger] ai[lo + l] as int] == finished(
            pts[ai[lo + l] as int],
            pts[bi[lo + l] as int],
            inverses[l],
        ) by {
            if l < m {
                assert(ai[lo + l] != ai[lo + m]);
            } else {
                assert(acc[m as int] == inverses[m as int]);
            }
        }
        assert forall|k: int|
            0 <= k < pts.len() && (forall|l: int|
                0 <= l < n ==> #[trigger] ai[lo + l] != k) implies #[trigger] next[k] == pts[k] by {
            assert(ai[lo + m] != k);
            assert forall|l: int| 0 <= l < m implies #[trigger] ai[lo + l] != k by {}
            assert(cur[k] == pts[k]);
        }
        assert(acc[m as int] == inverses[m as int]);
    }
}

/// The vectorized second pass over eight pairs of finite points does what eight scalar ones
/// do: the same points, and the same inverses in every lane. Canonical limbs that stand for
/// the same elements are the same, so they agree limb for limb.
pub proof fn lemma_vector_second_pass(
    pts: Seq<Point>,
    ai: Seq<usize>,
    bi: Seq<usize>,
    lo: int,
    inverses: Seq<int>,
    next: Seq<Point>,
    after: Seq<int>,
)
    requires
        indices_ok(pts.len(), ai, bi),
        0 <= lo,
        lo + 8 <= ai.len(),
        forall|k: int| lo <= k < lo + 8 ==> #[trigger] finite_at(pts, ai, bi, k),
        inverses.len() == 8,
        after.len() == 8,
        next.len() == pts.len(),
        forall|l: int|
            0 <= l < 8 ==> next[#[trigger] ai[lo + l] as int] == finished(
                pts[ai[lo + l] as int],
                pts[bi[lo + l] as int],
                inverses[l],
            ),
        forall|i: int|
            0 <= i < pts.len() && (forall|l: int| 0 <= l < 8 ==> #[trigger] ai[lo + l] != i)
                ==> #[trigger] next[i] == pts[i],
        forall|l: int|
            0 <= l < 8 ==> #[trigger] after[l] == peeled(
                pts[ai[lo + l] as int],
                pts[bi[lo + l] as int],
                inverses[l],
            ),
    ensures
        second_steps(pts, ai, bi, lo, inverses, 8) == (next, after),
{
    lemma_second_steps(pts, ai, bi, lo, inverses, 8);
    let (cur, acc) = second_steps(pts, ai, bi, lo, inverses, 8);
    assert forall|i: int| 0 <= i < pts.len() implies cur[i] == next[i] by {
        if exists|l: int| 0 <= l < 8 && #[trigger] ai[lo + l] == i {
            let l = choose|l: int| 0 <= l < 8 && #[trigger] ai[lo + l] == i;
            assert(cur[ai[lo + l] as int] == next[ai[lo + l] as int]);
        } else {
            assert(cur[i] == pts[i]);
            assert(next[i] == pts[i]);
        }
    }
    assert(cur =~= next);
    assert(acc =~= after);
}

/// What scalar first passes over the first `n` pairs of a group make of the points and of the
/// running products of the lanes, one after the other.
pub open spec fn first_steps(
    pts: Seq<Point>,
    ai: Seq<usize>,
    bi: Seq<usize>,
    lo: int,
    products: Seq<int>,
    n: nat,
) -> (Seq<Point>, Seq<int>)
    decreases n,
{
    if n == 0 {
        (pts, products)
    } else {
        let l = n - 1;
        let (cur, acc) = first_steps(pts, ai, bi, lo, products, l as nat);
        let (i, j) = (ai[lo + l] as int, bi[lo + l] as int);
        (first_step(cur, i, j, acc[l]), acc.update(l, fmul(acc[l], factor(cur[i], cur[j]))))
    }
}

proof fn lemma_first_steps(
    pts: Seq<Point>,
    ai: Seq<usize>,
    bi: Seq<usize>,
    lo: int,
    products: Seq<int>,
    n: nat,
)
    requires
        indices_ok(pts.len(), ai, bi),
        0 <= lo,
        lo + 8 <= ai.len(),
        forall|k: int| lo <= k < lo + 8 ==> #[trigger] generic_at(pts, ai, bi, k),
        products.len() == 8,
        n <= 8,
    ensures
        ({
            let (cur, acc) = first_steps(pts, ai, bi, lo, products, n);
            &&& cur.len() == pts.len()
            &&& acc.len() == 8
            &&& forall|l: int|
                0 <= l < n ==> cur[#[trigger] ai[lo + l] as int] == staged_first(
                    pts[ai[lo + l] as int],
                    pts[bi[lo + l] as int],
                    products[l],
                )
            &&& forall|i: int|
                0 <= i < pts.len() && (forall|l: int| 0 <= l < n ==> #[trigger] ai[lo + l] != i)
                    ==> #[trigger] cur[i] == pts[i]
            &&& forall|l: int|
                0 <= l < 8 ==> #[trigger] acc[l] == (if l < n {
                    fmul(products[l], factor(pts[ai[lo + l] as int], pts[bi[lo + l] as int]))
                } else {
                    products[l]
                })
        }),
    decreases n,
{
    if n > 0 {
        let m = (n - 1) as nat;
        lemma_first_steps(pts, ai, bi, lo, products, m);
        let (cur, acc) = first_steps(pts, ai, bi, lo, products, m);
        let (i, j) = (ai[lo + m] as int, bi[lo + m] as int);
        assert(ai[lo + m] < pts.len() && bi[lo + m] < pts.len());
        assert(ai[lo + m] != bi[lo + m]);
        assert(cur[i] == pts[i]) by {
            assert forall|l: int| 0 <= l < m implies #[trigger] ai[lo + l] != i by {
                assert(ai[lo + l] != ai[lo + m]);
            }
        }
        assert(cur[j] == pts[j]) by {
            assert forall|l: int| 0 <= l < m implies #[trigger] ai[lo + l] != j by {
                assert(ai[lo + l] != bi[lo + m]);
            }
        }
        assert(generic_at(pts, ai, bi, lo + m));
        let next = first_step(cur, i, j, acc[m as int]);
        assert(next =~= cur.update(i, staged_first(pts[i], pts[j], acc[m as int])));
        assert forall|l: int| 0 <= l < n implies next[#[trigger] ai[lo + l] as int] == staged_first(
            pts[ai[lo + l] as int],
            pts[bi[lo + l] as int],
            products[l],
        ) by {
            if l < m {
                assert(ai[lo + l] != ai[lo + m]);
            } else {
                assert(acc[m as int] == products[m as int]);
            }
        }
        assert forall|k: int|
            0 <= k < pts.len() && (forall|l: int|
                0 <= l < n ==> #[trigger] ai[lo + l] != k) implies #[trigger] next[k] == pts[k] by {
            assert(ai[lo + m] != k);
            assert forall|l: int| 0 <= l < m implies #[trigger] ai[lo + l] != k by {}
            assert(cur[k] == pts[k]);
        }
        assert(acc[m as int] == products[m as int]);
    }
}

/// The vectorized first pass over eight generic pairs does what eight scalar ones do: the same
/// points, and the same running products in every lane.
pub proof fn lemma_vector_first_pass(
    pts: Seq<Point>,
    ai: Seq<usize>,
    bi: Seq<usize>,
    lo: int,
    products: Seq<int>,
    next: Seq<Point>,
    after: Seq<int>,
)
    requires
        indices_ok(pts.len(), ai, bi),
        0 <= lo,
        lo + 8 <= ai.len(),
        forall|k: int| lo <= k < lo + 8 ==> #[trigger] generic_at(pts, ai, bi, k),
        products.len() == 8,
        after.len() == 8,
        next.len() == pts.len(),
        forall|l: int|
            0 <= l < 8 ==> next[#[trigger] ai[lo + l] as int] == staged_first(
                pts[ai[lo + l] as int],
                pts[bi[lo + l] as int],
                products[l],
            ),
        forall|i: int|
            0 <= i < pts.len() && (forall|l: int| 0 <= l < 8 ==> #[trigger] ai[lo + l] != i)
                ==> #[trigger] next[i] == pts[i],
        forall|l: int|
            0 <= l < 8 ==> #[trigger] after[l] == fmul(
                products[l],
                factor(pts[ai[lo + l] as int], pts[bi[lo + l] as int]),
            ),
    ensures
        first_steps(pts, ai, bi, lo, products, 8) == (next, after),
{
    lemma_first_steps(pts, ai, bi, lo, products, 8);
    let (cur, acc) = first_steps(pts, ai, bi, lo, products, 8);
    assert forall|i: int| 0 <= i < pts.len() implies cur[i] == next[i] by {
        if exists|l: int| 0 <= l < 8 && #[trigger] ai[lo + l] == i {
            let l = choose|l: int| 0 <= l < 8 && #[trigger] ai[lo + l] == i;
            assert(cur[ai[lo + l] as int] == next[ai[lo + l] as int]);
        } else {
            assert(cur[i] == pts[i]);
            assert(next[i] == pts[i]);
        }
    }
    assert(cur =~= next);
    assert(acc =~= after);
}

/// A batch of additions in place leaves nothing open: whatever scratch was used, and whatever
/// it held, two buffers that start with the same points end with the same limbs.
pub proof fn lemma_scratch_has_no_influence(
    before: Seq<Point>,
    index: Seq<(u32, u32)>,
    one: PointBuf,
    other: PointBuf,
)
    requires
        one.wf(),
        other.wf(),
        sums_in_place(before, index, one@),
        sums_in_place(before, index, other@),
    ensures
        one@ == other@,
        one.limbs() == other.limbs(),
{
    let (a, b) = (one@, other@);
    let (ai, bi) = (firsts(index), seconds(index));
    assert forall|i: int| 0 <= i < before.len() implies a[i] == b[i] by {
        if exists|k: int| 0 <= k < index.len() && (#[trigger] index[k]).0 == i {
            let k = choose|k: int| 0 <= k < index.len() && (#[trigger] index[k]).0 == i;
            assert(a[index[k].0 as int] == b[index[k].0 as int]);
        } else if exists|k: int| 0 <= k < index.len() && (#[trigger] index[k]).1 == i {
            let k = choose|k: int| 0 <= k < index.len() && (#[trigger] index[k]).1 == i;
            assert(a[index[k].1 as int] == b[index[k].1 as int]);
        } else {
            assert forall|k: int| 0 <= k < ai.len() implies #[trigger] ai[k] != i by {
                assert(index[k].0 != i);
            }
            assert forall|k: int| 0 <= k < bi.len() implies #[trigger] bi[k] != i by {
                assert(index[k].1 != i);
            }
            assert(untouched(before, ai, bi, i));
        }
    }
    assert(a =~= b);
    one.lemma_same_limbs(other);
}

/// The inverse of a lane times the lane is [`ONE`], limb for limb.
pub proof fn lemma_inverted_lane(lane: Seq<u64>, inverse: Seq<u64>, product: Seq<u64>)
    requires
        product.len() == 8,
        canonical(product),
        fmul(decode(inverse), decode(lane)) == 1,
        decode(product) == fmul(decode(inverse), decode(lane)),
    ensures
        product == ONE@,
{
    lemma_constants();
    lemma_decode_injective(product, ONE@);
}

/// The inverse of a chain that holds nothing yet is [`ONE`], limb for limb.
pub proof fn lemma_inverted_fresh_lane(inverse: Seq<u64>)
    requires
        inverse.len() == 8,
        canonical(inverse),
        fmul(decode(inverse), 1) == 1,
    ensures
        inverse == ONE@,
{
    lemma_constants();
    lemma_modulus();
    lemma_mod_bound(val(inverse) * r416_inv(), modulus());
    lemma_fmul_one(decode(inverse));
    lemma_decode_injective(inverse, ONE@);
}

/// A batch of additions in place, slot by slot: the first point of each pair becomes the sum,
/// the second one stays unless the two lie over one abscissa, and a point that no pair names
/// stays.
pub proof fn lemma_in_place_slots(
    before: Seq<Point>,
    index: Seq<(u32, u32)>,
    after: Seq<Point>,
)
    requires
        sums_in_place(before, index, after),
    ensures
        after.len() == before.len(),
        forall|k: int|
            0 <= k < index.len() ==> after[(#[trigger] index[k]).0 as int] == ec_add(
                before[index[k].0 as int],
                before[index[k].1 as int],
            ),
        forall|k: int|
            0 <= k < index.len() && (before[(#[trigger] index[k]).0 as int].infinity
                || before[index[k].1 as int].infinity || before[index[k].0 as int].x
                != before[index[k].1 as int].x) ==> after[index[k].1 as int]
                == before[index[k].1 as int],
        forall|i: int|
            0 <= i < before.len() && (forall|k: int|
                0 <= k < index.len() ==> (#[trigger] index[k]).0 != i && index[k].1 != i)
                ==> #[trigger] after[i] == before[i],
{
    let (ai, bi) = (firsts(index), seconds(index));
    assert forall|i: int|
        0 <= i < before.len() && (forall|k: int|
            0 <= k < index.len() ==> (#[trigger] index[k]).0 != i && index[k].1
                != i) implies #[trigger] after[i] == before[i] by {
        assert forall|k: int| 0 <= k < ai.len() implies #[trigger] ai[k] != i by {
            assert(index[k].0 != i);
        }
        assert forall|k: int| 0 <= k < bi.len() implies #[trigger] bi[k] != i by {
            assert(index[k].1 != i);
        }
        assert(untouched(before, ai, bi, i));
    }
}

/// Which batches can be added in place: the indices are in range, no point is written twice or
/// written and read, no point with ordinate zero is doubled, and a second point over the
/// abscissa of the first is read by one pair alone.
pub proof fn lemma_batches_in_order(o: Seq<Point>, index: Seq<(u32, u32)>)
    requires
        forall|k: int|
            0 <= k < index.len() ==> (#[trigger] index[k]).0 < o.len() && index[k].1 < o.len(),
        forall|j: int, k: int|
            0 <= j < index.len() && 0 <= k < index.len() ==> (#[trigger] index[j]).0 != (
            #[trigger] index[k]).1,
        forall|j: int, k: int|
            0 <= j < k < index.len() ==> (#[trigger] index[j]).0 != (#[trigger] index[k]).0,
        forall|k: int|
            0 <= k < index.len() ==> o[(#[trigger] index[k]).0 as int].infinity
                || o[index[k].1 as int].infinity || o[index[k].0 as int].x != o[index[k].1 as int].x
                || o[index[k].0 as int].y != o[index[k].1 as int].y || o[index[k].0 as int].y != 0,
        forall|j: int, k: int|
            0 <= j < index.len() && 0 <= k < index.len() && j != k && (#[trigger] index[j]).1 == (
            #[trigger] index[k]).1 ==> o[index[j].0 as int].infinity || o[index[j].1 as int].infinity
                || o[index[j].0 as int].x != o[index[j].1 as int].x,
    ensures
        pairs_ok(o, firsts(index), seconds(index)),
{
    let (ai, bi) = (firsts(index), seconds(index));
    assert forall|k: int| 0 <= k < ai.len() implies #[trigger] ai[k] < o.len() by {
        assert(index[k].0 < o.len());
    }
    assert forall|k: int| 0 <= k < bi.len() implies #[trigger] bi[k] < o.len() by {
        assert(index[k].0 < o.len());
    }
    assert forall|j: int, k: int| 0 <= j < k < ai.len() implies #[trigger] ai[j]
        != #[trigger] ai[k] by {
        assert(index[j].0 != index[k].0);
    }
    assert forall|j: int, k: int| 0 <= j < ai.len() && 0 <= k < bi.len() implies #[trigger] ai[j]
        != #[trigger] bi[k] by {
        assert(index[j].0 != index[k].1);
    }
    assert forall|k: int| 0 <= k < ai.len() implies summable(
        (#[trigger] pair_at(o, ai, bi, k)).0,
        pair_at(o, ai, bi, k).1,
    ) by {
        assert(index[k].0 < o.len());
    }
    assert forall|j: int, k: int|
        0 <= j < bi.len() && 0 <= k < bi.len() && j != k && #[trigger] bi[j]
            == #[trigger] bi[k] implies !degenerate_at(o, ai, bi, j) by {
        assert(index[j].1 == index[k].1);
    }
}

/// An instruction with two operands writes their sum, and one without a second operand, whose
/// index is all ones, a copy of the first.
pub proof fn lemma_written(bases: Seq<Point>, i: u32, j: u32)
    ensures
        j != 0xffffffff ==> written(bases, (i, j)) == ec_add(bases[i as int], bases[j as int]),
        written(bases, (i, 0xffffffffu32)) == bases[i as int],
        i < bases.len() ==> writable(bases, (i, 0xffffffffu32)),
        i < bases.len() && j < bases.len() && summable(bases[i as int], bases[j as int])
            ==> writable(bases, (i, j)),
{
}

} // verus!
