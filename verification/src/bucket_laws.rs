//! The sum of a bucket depends on which points are in it, and not on their order.

use crate::bucket_add::lists_buckets;
use crate::buckets::{
    lemma_bucket_is_filter, lemma_members_push, lemma_pair_up_one, lemma_pair_up_two,
    lemma_round_keeps_sum, members, of_bucket, pair_up, tree_ok, tree_sum, BucketPosition,
};
use crate::curve::{ec_add, is_point, summable, Point};
use crate::curve_laws::{lemma_sum_on_curve, on_curve, same_point};
use crate::field::lemma_modulus;
use crate::group::{
    element, gadd, lemma_gadd_associates, lemma_gadd_commutes, lemma_gadd_neutral,
    lemma_gadd_valid, valid, Element,
};
use vstd::prelude::*;

verus! {

/// Points of the curve.
pub open spec fn all_on_curve(s: Seq<Point>) -> bool {
    forall|i: int| 0 <= i < s.len() ==> is_point(#[trigger] s[i]) && on_curve(s[i])
}

/// The sum of a list of points in the group, from the first one on.
pub open spec fn group_sum(s: Seq<Point>) -> Element
    decreases s.len(),
{
    if s.len() == 0 {
        None
    } else {
        gadd(group_sum(s.drop_last()), element(s.last()))
    }
}

/// A point of the curve stands for a valid group element.
proof fn lemma_element_valid(p: Point)
    requires
        is_point(p),
        on_curve(p),
    ensures
        valid(element(p)),
{
    lemma_modulus();
}

/// A defined sum of points stands for the sum of the elements.
proof fn lemma_element_of_sum(p: Point, q: Point)
    requires
        summable(p, q),
    ensures
        element(ec_add(p, q)) == gadd(element(p), element(q)),
{
}

/// A sum in the group is valid.
proof fn lemma_group_sum_valid(s: Seq<Point>)
    requires
        all_on_curve(s),
    ensures
        valid(group_sum(s)),
    decreases s.len(),
{
    if s.len() > 0 {
        let r = s.drop_last();
        assert(forall|i: int| 0 <= i < r.len() ==> #[trigger] r[i] == s[i]);
        assert(all_on_curve(r));
        lemma_group_sum_valid(r);
        assert(is_point(s[s.len() - 1]));
        lemma_element_valid(s.last());
        lemma_gadd_valid(group_sum(r), element(s.last()));
    } else {
        lemma_modulus();
    }
}

/// The sum of no points is the point at infinity, and one point more is added to the sum of the
/// others.
pub proof fn lemma_group_sum_push(s: Seq<Point>, p: Point)
    ensures
        group_sum(Seq::<Point>::empty()) is None,
        group_sum(s.push(p)) == gadd(group_sum(s), element(p)),
{
    assert(s.push(p).drop_last() =~= s);
}

/// A point can be taken out of the middle and added last.
proof fn lemma_group_sum_remove(s: Seq<Point>, i: int)
    requires
        all_on_curve(s),
        0 <= i < s.len(),
    ensures
        group_sum(s) == gadd(group_sum(s.remove(i)), element(s[i])),
        all_on_curve(s.remove(i)),
    decreases s.len(),
{
    let t = s.remove(i);
    assert forall|k: int| 0 <= k < t.len() implies is_point(#[trigger] t[k]) && on_curve(t[k]) by {
        if k < i {
            assert(t[k] == s[k]);
        } else {
            assert(t[k] == s[k + 1]);
        }
    }
    let r = s.drop_last();
    if i == s.len() - 1 {
        assert(t =~= r);
    } else {
        assert(forall|k: int| 0 <= k < r.len() ==> #[trigger] r[k] == s[k]);
        assert(all_on_curve(r));
        lemma_group_sum_remove(r, i);
        assert(t.drop_last() =~= r.remove(i));
        assert(t.last() == s.last());
        let (x, y, z) = (group_sum(r.remove(i)), element(s[i]), element(s.last()));
        assert(is_point(s[i]) && on_curve(s[i]));
        assert(is_point(s[s.len() - 1]) && on_curve(s[s.len() - 1]));
        lemma_element_valid(s[i]);
        lemma_element_valid(s.last());
        lemma_group_sum_valid(r.remove(i));
        // (x + y) + z = (x + z) + y
        lemma_gadd_associates(x, y, z);
        lemma_gadd_commutes(y, z);
        lemma_gadd_associates(x, z, y);
    }
}

/// The sum in the group does not depend on the order of the points.
pub proof fn lemma_group_sum_unordered(s: Seq<Point>, t: Seq<Point>)
    requires
        all_on_curve(s),
        all_on_curve(t),
        s.to_multiset() == t.to_multiset(),
    ensures
        group_sum(s) == group_sum(t),
    decreases s.len(),
{
    broadcast use vstd::seq_lib::group_to_multiset_ensures;

    assert(s.len() == s.to_multiset().len() && t.len() == t.to_multiset().len());
    if s.len() > 0 {
        let p = s.last();
        let k = s.len() - 1;
        assert(s.contains(p)) by {
            assert(s[k] == p);
        }
        assert(t.to_multiset().count(p) > 0);
        assert(t.contains(p));
        let i = choose|i: int| 0 <= i < t.len() && t[i] == p;
        lemma_group_sum_remove(s, k);
        lemma_group_sum_remove(t, i);
        assert(s.remove(k).to_multiset() =~= s.to_multiset().remove(p));
        assert(t.remove(i).to_multiset() =~= t.to_multiset().remove(p));
        lemma_group_sum_unordered(s.remove(k), t.remove(i));
    }
}

/// Adding in pairs does not change the sum.
proof fn lemma_group_sum_pairs(s: Seq<Point>)
    requires
        all_on_curve(s),
        forall|i: int|
            0 <= 2 * i && 2 * i + 1 < s.len() ==> summable(#[trigger] s[2 * i], s[2 * i + 1]),
    ensures
        group_sum(pair_up(s)) == group_sum(s),
        all_on_curve(pair_up(s)),
    decreases s.len(),
{
    let n = s.len();
    if n == 0 {
        assert(pair_up(s) =~= s);
    } else if n % 2 == 1 {
        let (r, x) = (s.drop_last(), s.last());
        assert(s =~= r.push(x));
        assert(forall|k: int| 0 <= k < r.len() ==> #[trigger] r[k] == s[k]);
        assert forall|i: int| 0 <= 2 * i && 2 * i + 1 < r.len() implies summable(
            #[trigger] r[2 * i],
            r[2 * i + 1],
        ) by {
            assert(summable(s[2 * i], s[2 * i + 1]));
        }
        lemma_group_sum_pairs(r);
        lemma_pair_up_one(r, x);
        lemma_group_sum_push(r, x);
        lemma_group_sum_push(pair_up(r), x);
        assert(is_point(s[n - 1]) && on_curve(s[n - 1]));
    } else {
        let (x, y) = (s[n - 2], s[n - 1]);
        let r = s.take(n - 2);
        assert(s =~= r.push(x).push(y));
        assert(forall|k: int| 0 <= k < r.len() ==> #[trigger] r[k] == s[k]);
        assert forall|i: int| 0 <= 2 * i && 2 * i + 1 < r.len() implies summable(
            #[trigger] r[2 * i],
            r[2 * i + 1],
        ) by {
            assert(summable(s[2 * i], s[2 * i + 1]));
        }
        lemma_group_sum_pairs(r);
        let h = (n - 2) / 2;
        assert(2 * h == n - 2);
        assert(summable(s[2 * h], s[2 * h + 1]));
        assert(is_point(s[n - 2]) && on_curve(s[n - 2]) && is_point(s[n - 1]) && on_curve(s[n - 1]));
        lemma_pair_up_two(r, x, y);
        lemma_sum_on_curve(x, y);
        lemma_group_sum_push(r, x);
        lemma_group_sum_push(r.push(x), y);
        lemma_group_sum_push(pair_up(r), ec_add(x, y));
        lemma_element_of_sum(x, y);
        lemma_element_valid(x);
        lemma_element_valid(y);
        lemma_group_sum_valid(r);
        lemma_gadd_associates(group_sum(r), element(x), element(y));
    }
}

/// The balanced tree of additions comes to the sum in the group, however the points are
/// grouped.
pub proof fn lemma_tree_is_group_sum(s: Seq<Point>)
    requires
        all_on_curve(s),
        tree_ok(s),
    ensures
        element(tree_sum(s)) == group_sum(s),
    decreases s.len(),
{
    if s.len() == 1 {
        reveal_with_fuel(group_sum, 2);
        lemma_gadd_neutral(element(s[0]));
    } else if s.len() > 1 {
        lemma_group_sum_pairs(s);
        lemma_tree_is_group_sum(pair_up(s));
    }
}

/// The sum of a bucket does not depend on the order of its points, nor on how the tree of
/// additions groups them.
pub proof fn lemma_bucket_sum_unordered(s: Seq<Point>, t: Seq<Point>)
    requires
        all_on_curve(s),
        all_on_curve(t),
        tree_ok(s),
        tree_ok(t),
        s.to_multiset() == t.to_multiset(),
    ensures
        same_point(tree_sum(s), tree_sum(t)),
{
    lemma_tree_is_group_sum(s);
    lemma_tree_is_group_sum(t);
    lemma_group_sum_unordered(s, t);
}

/// The points of a bucket are those that its positions name, in their order.
pub proof fn lemma_members_are(s: Seq<BucketPosition>, b: u32, pts: Seq<Point>)
    ensures
        members(s, b, pts) == s.filter(|p: BucketPosition| p.bucket_index == b).map_values(
            |p: BucketPosition| pts[p.scalar_index as int],
        ),
{
    lemma_bucket_is_filter(s, b);
    assert(members(s, b, pts) =~= s.filter(
        |p: BucketPosition| p.bucket_index == b,
    ).map_values(|p: BucketPosition| pts[p.scalar_index as int]));
}

/// A round leaves half as many points, rounded up: each is the sum of two neighbours, and a
/// last one without a neighbour stays. Rounds do not change the sum.
pub proof fn lemma_round(s: Seq<Point>)
    ensures
        2 * pair_up(s).len() == s.len() || 2 * pair_up(s).len() == s.len() + 1,
        forall|i: int|
            0 <= i && 2 * i + 1 < s.len() ==> #[trigger] pair_up(s)[i] == ec_add(
                s[2 * i],
                s[2 * i + 1],
            ),
        s.len() % 2 == 1 ==> pair_up(s).last() == s.last(),
        tree_sum(pair_up(s)) == tree_sum(s),
{
    lemma_round_keeps_sum(s);
}

/// The sum of no points is the point at infinity over `(0, 1)`, that of one point the point
/// itself, and that of two points their sum.
pub proof fn lemma_small_sums(p: Point, q: Point)
    ensures
        tree_sum(Seq::<Point>::empty()) == (Point { x: 0, y: 1, infinity: true }),
        tree_sum(seq![p]) == p,
        tree_sum(seq![p, q]) == ec_add(p, q),
{
    let s = seq![p, q];
    assert(pair_up(s) =~= seq![ec_add(p, q)]);
    reveal_with_fuel(tree_sum, 3);
}

/// The buckets that the positions list after a sum come in strictly ascending order, are in
/// range, and are exactly those that have a position.
pub proof fn lemma_listed_buckets(
    after: Seq<BucketPosition>,
    m: int,
    before: Seq<BucketPosition>,
    num_buckets: int,
)
    requires
        lists_buckets(after, m, before, num_buckets),
    ensures
        forall|i: int, j: int|
            0 <= i < j < m ==> (#[trigger] after[i]).bucket_index < (
            #[trigger] after[j]).bucket_index,
        forall|t: int| 0 <= t < m ==> (#[trigger] after[t]).bucket_index < num_buckets,
        forall|b: u32|
            b < num_buckets ==> (#[trigger] is_named(before, b) <==> is_named(after.take(m), b)),
{
    let cur = after.take(m);
    let none = Seq::<Point>::empty();
    assert forall|i: int, j: int| 0 <= i < j < m implies (#[trigger] after[i]).bucket_index < (
    #[trigger] after[j]).bucket_index by {
        assert(cur[i].bucket_index <= cur[j].bucket_index);
        if cur[i].bucket_index == cur[j].bucket_index {
            let b = cur[i].bucket_index;
            // Both would stand in one bucket.
            lemma_bucket_grows(cur, i, b);
            lemma_bucket_grows(cur, j, b);
            lemma_bucket_monotone(cur.take(j), i + 1, b);
            assert(cur.take(j).take(i + 1) =~= cur.take(i + 1));
            lemma_bucket_monotone(cur, j + 1, b);
            assert(of_bucket(after.take(m), b).len() <= 1);
        }
    }
    assert forall|t: int| 0 <= t < m implies (#[trigger] after[t]).bucket_index < num_buckets by {}
    assert forall|b: u32| b < num_buckets implies (#[trigger] is_named(before, b) <==> is_named(
        after.take(m),
        b,
    )) by {
        assert(of_bucket(after.take(m), b).len() == (if of_bucket(before, b).len() > 0 {
            1nat
        } else {
            0
        }));
        lemma_named(before, b);
        lemma_named(cur, b);
    }
}

/// Some position of the list names the bucket.
pub open spec fn is_named(s: Seq<BucketPosition>, b: u32) -> bool {
    exists|k: int| 0 <= k < s.len() && (#[trigger] s[k]).bucket_index == b
}

/// A bucket is empty exactly where no position names it.
proof fn lemma_named(s: Seq<BucketPosition>, b: u32)
    ensures
        is_named(s, b) <==> of_bucket(s, b).len() > 0,
{
    if is_named(s, b) {
        let k = choose|k: int| 0 <= k < s.len() && (#[trigger] s[k]).bucket_index == b;
        lemma_bucket_grows(s, k, b);
        lemma_bucket_monotone(s, k + 1, b);
    }
    if of_bucket(s, b).len() > 0 {
        let k = lemma_bucket_witness(s, b);
        assert(s[k].bucket_index == b);
    }
}

/// A position makes its bucket one longer.
proof fn lemma_bucket_grows(s: Seq<BucketPosition>, k: int, b: u32)
    requires
        0 <= k < s.len(),
        s[k].bucket_index == b,
    ensures
        of_bucket(s.take(k + 1), b).len() == of_bucket(s.take(k), b).len() + 1,
{
    assert(s.take(k + 1) =~= s.take(k).push(s[k]));
    lemma_members_push(s.take(k), s[k], b, Seq::empty());
}

/// Buckets only grow.
proof fn lemma_bucket_monotone(s: Seq<BucketPosition>, k: int, b: u32)
    requires
        0 <= k <= s.len(),
    ensures
        of_bucket(s.take(k), b).len() <= of_bucket(s, b).len(),
    decreases s.len() - k,
{
    if k == s.len() {
        assert(s.take(k) =~= s);
    } else {
        lemma_bucket_monotone(s, k + 1, b);
        assert(s.take(k + 1) =~= s.take(k).push(s[k]));
        lemma_members_push(s.take(k), s[k], b, Seq::empty());
    }
}

/// A bucket that is not empty has a position.
proof fn lemma_bucket_witness(s: Seq<BucketPosition>, b: u32) -> (k: int)
    requires
        of_bucket(s, b).len() > 0,
    ensures
        0 <= k < s.len(),
        s[k].bucket_index == b,
    decreases s.len(),
{
    if s.last().bucket_index == b {
        s.len() - 1
    } else {
        lemma_bucket_witness(s.drop_last(), b)
    }
}

} // verus!
