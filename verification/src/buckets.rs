//! Points grouped into buckets, and the sums that a bucket's points are folded into.

use crate::curve::{ec_add, summable, Point};
use vstd::prelude::*;

verus! {

/// Which bucket the point at `scalar_index` belongs to.
#[derive(Copy, Clone, Debug, PartialEq, Eq)]
pub struct BucketPosition {
    pub bucket_index: u32,
    pub scalar_index: u32,
}

/// The positions of one bucket, in the order in which they stand.
pub open spec fn of_bucket(s: Seq<BucketPosition>, b: u32) -> Seq<BucketPosition>
    decreases s.len(),
{
    if s.len() == 0 {
        Seq::empty()
    } else {
        let rest = of_bucket(s.drop_last(), b);
        if s.last().bucket_index == b {
            rest.push(s.last())
        } else {
            rest
        }
    }
}

/// A bucket holds exactly the positions that name it, in the order in which they stand.
pub proof fn lemma_bucket_is_filter(s: Seq<BucketPosition>, b: u32)
    ensures
        of_bucket(s, b) == s.filter(|p: BucketPosition| p.bucket_index == b),
    decreases s.len(),
{
    reveal(Seq::filter);
    if s.len() > 0 {
        lemma_bucket_is_filter(s.drop_last(), b);
    }
}

/// The points of one bucket, in the order in which their positions stand.
pub open spec fn members(s: Seq<BucketPosition>, b: u32, pts: Seq<Point>) -> Seq<Point> {
    of_bucket(s, b).map_values(|p: BucketPosition| pts[p.scalar_index as int])
}

/// The positions are in order of their buckets.
pub open spec fn in_bucket_order(s: Seq<BucketPosition>) -> bool {
    forall|i: int, j: int|
        0 <= i <= j < s.len() ==> (#[trigger] s[i]).bucket_index <= (#[trigger] s[j]).bucket_index
}

/// Adjacent points added in pairs; a last one without a partner stays.
pub open spec fn pair_up(s: Seq<Point>) -> Seq<Point> {
    Seq::new(
        (s.len() + 1) / 2,
        |i: int|
            if 2 * i + 1 < s.len() {
                ec_add(s[2 * i], s[2 * i + 1])
            } else {
                s[2 * i]
            },
    )
}

/// The sum of a list of points as a balanced tree: pairs are added until one point is left.
/// The sum of no points is the point at infinity.
pub open spec fn tree_sum(s: Seq<Point>) -> Point
    decreases s.len(),
{
    if s.len() == 0 {
        Point { x: 0, y: 1, infinity: true }
    } else if s.len() == 1 {
        s[0]
    } else {
        tree_sum(pair_up(s))
    }
}

/// Every addition in the tree is defined.
pub open spec fn tree_ok(s: Seq<Point>) -> bool
    decreases s.len(),
{
    s.len() <= 1 || {
        &&& forall|i: int| 0 <= 2 * i && 2 * i + 1 < s.len() ==> summable(#[trigger] s[2 * i], s[2 * i + 1])
        &&& tree_ok(pair_up(s))
    }
}

/// One round of pairing does not change the sum.
pub proof fn lemma_round_keeps_sum(s: Seq<Point>)
    ensures
        tree_sum(pair_up(s)) == tree_sum(s),
        tree_ok(s) ==> tree_ok(pair_up(s)),
{
    if s.len() <= 1 {
        assert(pair_up(s) =~= s);
    }
}

/// One position more.
pub proof fn lemma_members_push(s: Seq<BucketPosition>, p: BucketPosition, b: u32, pts: Seq<Point>)
    ensures
        of_bucket(s.push(p), b) == (if p.bucket_index == b {
            of_bucket(s, b).push(p)
        } else {
            of_bucket(s, b)
        }),
        members(s.push(p), b, pts) == (if p.bucket_index == b {
            members(s, b, pts).push(pts[p.scalar_index as int])
        } else {
            members(s, b, pts)
        }),
{
    assert(s.push(p).drop_last() =~= s);
    assert(members(s.push(p), b, pts) =~= (if p.bucket_index == b {
        members(s, b, pts).push(pts[p.scalar_index as int])
    } else {
        members(s, b, pts)
    }));
}

/// What stands in a bucket stands in the list.
pub proof fn lemma_of_bucket_from(s: Seq<BucketPosition>, b: u32)
    ensures
        forall|i: int|
            0 <= i < of_bucket(s, b).len() ==> s.contains(#[trigger] of_bucket(s, b)[i]),
        of_bucket(s, b).len() <= s.len(),
    decreases s.len(),
{
    if s.len() > 0 {
        let r = s.drop_last();
        lemma_of_bucket_from(r, b);
        assert forall|i: int| 0 <= i < of_bucket(s, b).len() implies s.contains(
            #[trigger] of_bucket(s, b)[i],
        ) by {
            if i < of_bucket(r, b).len() {
                assert(r.contains(of_bucket(r, b)[i]));
                let k = choose|k: int| 0 <= k < r.len() && r[k] == of_bucket(r, b)[i];
                assert(s[k] == of_bucket(s, b)[i]);
            } else {
                assert(s[s.len() - 1] == of_bucket(s, b)[i]);
            }
        }
    }
}

/// A bucket that no position names is empty.
pub proof fn lemma_members_none(s: Seq<BucketPosition>, b: u32)
    requires
        forall|i: int| 0 <= i < s.len() ==> (#[trigger] s[i]).bucket_index != b,
    ensures
        of_bucket(s, b) == Seq::<BucketPosition>::empty(),
    decreases s.len(),
{
    if s.len() > 0 {
        assert(s[s.len() - 1].bucket_index != b);
        lemma_members_none(s.drop_last(), b);
    }
}

/// The points of a bucket depend only on the points that its positions name.
pub proof fn lemma_members_same(s: Seq<BucketPosition>, b: u32, p: Seq<Point>, q: Seq<Point>)
    requires
        forall|i: int|
            0 <= i < s.len() ==> p[(#[trigger] s[i]).scalar_index as int]
                == q[s[i].scalar_index as int],
    ensures
        members(s, b, p) == members(s, b, q),
{
    lemma_of_bucket_from(s, b);
    assert forall|i: int| 0 <= i < of_bucket(s, b).len() implies members(s, b, p)[i] == members(
        s,
        b,
        q,
    )[i] by {
        let x = of_bucket(s, b)[i];
        assert(s.contains(x));
        let k = choose|k: int| 0 <= k < s.len() && s[k] == x;
        assert(p[s[k].scalar_index as int] == q[s[k].scalar_index as int]);
    }
    assert(members(s, b, p) =~= members(s, b, q));
}

/// A position of a bucket names the bucket's next point after those before it.
pub proof fn lemma_member_at(s: Seq<BucketPosition>, n: int, b: u32, pts: Seq<Point>)
    requires
        0 <= n <= s.len(),
    ensures
        members(s.take(n), b, pts).len() <= members(s, b, pts).len(),
        n < s.len() && s[n].bucket_index == b ==> {
            let m = members(s.take(n), b, pts).len() as int;
            &&& m < members(s, b, pts).len()
            &&& members(s, b, pts)[m] == pts[s[n].scalar_index as int]
        },
        forall|i: int|
            0 <= i < members(s.take(n), b, pts).len() ==> #[trigger] members(s, b, pts)[i]
                == members(s.take(n), b, pts)[i],
    decreases s.len() - n,
{
    if n == s.len() {
        assert(s.take(n) =~= s);
    } else {
        lemma_member_at(s, n + 1, b, pts);
        assert(s.take(n + 1) =~= s.take(n).push(s[n]));
        lemma_members_push(s.take(n), s[n], b, pts);
    }
}

/// Two points more behind an even number of them are one pair more.
pub proof fn lemma_pair_up_two(s: Seq<Point>, x: Point, y: Point)
    requires
        s.len() % 2 == 0,
    ensures
        pair_up(s.push(x).push(y)) == pair_up(s).push(ec_add(x, y)),
{
    let t = s.push(x).push(y);
    assert forall|i: int| 0 <= i < pair_up(t).len() implies pair_up(t)[i] == pair_up(s).push(
        ec_add(x, y),
    )[i] by {
        if i < pair_up(s).len() {
            assert(2 * i + 1 < s.len());
        }
    }
    assert(pair_up(t) =~= pair_up(s).push(ec_add(x, y)));
}

/// One point more behind an even number of them has no partner.
pub proof fn lemma_pair_up_one(s: Seq<Point>, x: Point)
    requires
        s.len() % 2 == 0,
    ensures
        pair_up(s.push(x)) == pair_up(s).push(x),
{
    let t = s.push(x);
    assert forall|i: int| 0 <= i < pair_up(t).len() implies pair_up(t)[i] == pair_up(s).push(
        x,
    )[i] by {
        if i < pair_up(s).len() {
            assert(2 * i + 1 < s.len());
        }
    }
    assert(pair_up(t) =~= pair_up(s).push(x));
}

/// Concatenation concatenates every bucket.
proof fn lemma_of_bucket_concat(s: Seq<BucketPosition>, t: Seq<BucketPosition>, b: u32)
    ensures
        of_bucket(s + t, b) == of_bucket(s, b) + of_bucket(t, b),
    decreases t.len(),
{
    if t.len() == 0 {
        assert(s + t =~= s);
        assert(of_bucket(s, b) + of_bucket(t, b) =~= of_bucket(s, b));
    } else {
        let r = t.drop_last();
        lemma_of_bucket_concat(s, r, b);
        assert((s + t).drop_last() =~= s + r);
        assert(of_bucket(s + t, b) =~= of_bucket(s, b) + of_bucket(t, b));
    }
}

/// What the merged part holds of every bucket: what it took from the left, then what it
/// took from the right.
spec fn merged(
    out: Seq<BucketPosition>,
    left: Seq<BucketPosition>,
    right: Seq<BucketPosition>,
) -> bool {
    forall|b: u32| #[trigger] of_bucket(out, b) == of_bucket(left, b) + of_bucket(right, b)
}

/// Merges two ordered lists into one; in every bucket the left ones come first.
#[verifier::rlimit(40)]
fn merge(left: &Vec<BucketPosition>, right: &Vec<BucketPosition>) -> (out: Vec<BucketPosition>)
    requires
        in_bucket_order(left@),
        in_bucket_order(right@),
        left@.len() + right@.len() <= usize::MAX,
    ensures
        in_bucket_order(out@),
        out@.len() == left@.len() + right@.len(),
        merged(out@, left@, right@),
{
    let mut out: Vec<BucketPosition> = Vec::with_capacity(left.len() + right.len());
    let mut i: usize = 0;
    let mut j: usize = 0;
    proof {
        assert forall|b: u32| #[trigger] of_bucket(out@, b) == of_bucket(left@.take(0), b)
            + of_bucket(right@.take(0), b) by {
            assert(of_bucket(left@.take(0), b) + of_bucket(right@.take(0), b) =~= of_bucket(
                out@,
                b,
            ));
        }
    }
    while i < left.len() || j < right.len()
        invariant
            i <= left@.len(),
            j <= right@.len(),
            in_bucket_order(left@),
            in_bucket_order(right@),
            out@.len() == i + j,
            in_bucket_order(out@),
            forall|k: int, m: int|
                0 <= k < out@.len() && i <= m < left@.len() ==> (#[trigger] out@[k]).bucket_index
                    <= (#[trigger] left@[m]).bucket_index,
            forall|k: int, m: int|
                0 <= k < out@.len() && j <= m < right@.len() ==> (#[trigger] out@[k]).bucket_index
                    <= (#[trigger] right@[m]).bucket_index,
            forall|k: int, m: int|
                0 <= k < j && i <= m < left@.len() ==> (#[trigger] right@[k]).bucket_index < (
                #[trigger] left@[m]).bucket_index,
            merged(out@, left@.take(i as int), right@.take(j as int)),
        decreases left@.len() - i + right@.len() - j,
    {
        let ghost before = out@;
        let from_left: bool = if i < left.len() {
            if j < right.len() {
                left[i].bucket_index <= right[j].bucket_index
            } else {
                true
            }
        } else {
            false
        };
        if from_left {
            let next: BucketPosition = left[i];
            out.push(next);
            proof {
                assert(left@.take(i + 1) =~= left@.take(i as int).push(next));
                assert forall|b: u32| #[trigger] of_bucket(out@, b) == of_bucket(
                    left@.take(i + 1),
                    b,
                ) + of_bucket(right@.take(j as int), b) by {
                    lemma_members_push(before, next, b, Seq::empty());
                    lemma_members_push(left@.take(i as int), next, b, Seq::empty());
                    assert(of_bucket(before, b) == of_bucket(left@.take(i as int), b) + of_bucket(
                        right@.take(j as int),
                        b,
                    ));
                    if next.bucket_index == b {
                        assert forall|k: int| 0 <= k < j implies (#[trigger] right@.take(
                            j as int,
                        )[k]).bucket_index != b by {
                            assert(right@[k].bucket_index < left@[i as int].bucket_index);
                        }
                        lemma_members_none(right@.take(j as int), b);
                    }
                    assert(of_bucket(out@, b) =~= of_bucket(left@.take(i + 1), b) + of_bucket(
                        right@.take(j as int),
                        b,
                    ));
                }
                assert forall|k: int, m: int| 0 <= k < out@.len() && j <= m < right@.len() implies (
                #[trigger] out@[k]).bucket_index <= (#[trigger] right@[m]).bucket_index by {
                    if k == before.len() {
                        assert(right@[j as int].bucket_index <= right@[m].bucket_index);
                    } else {
                        assert(before[k].bucket_index <= right@[m].bucket_index);
                    }
                }
                assert forall|k: int, m: int| 0 <= k < out@.len() && i + 1 <= m < left@.len() implies (
                #[trigger] out@[k]).bucket_index <= (#[trigger] left@[m]).bucket_index by {
                    if k == before.len() {
                        assert(left@[i as int].bucket_index <= left@[m].bucket_index);
                    } else {
                        assert(before[k].bucket_index <= left@[m].bucket_index);
                    }
                }
                assert forall|k: int, m: int| 0 <= k <= m < out@.len() implies (#[trigger] out@[k]).bucket_index
                    <= (#[trigger] out@[m]).bucket_index by {
                    if m < before.len() {
                        assert(before[k].bucket_index <= before[m].bucket_index);
                    } else if k < before.len() {
                        assert(before[k].bucket_index <= left@[i as int].bucket_index);
                    }
                }
            }
            i += 1;
        } else {
            let next: BucketPosition = right[j];
            out.push(next);
            proof {
                assert(right@.take(j + 1) =~= right@.take(j as int).push(next));
                assert forall|b: u32| #[trigger] of_bucket(out@, b) == of_bucket(
                    left@.take(i as int),
                    b,
                ) + of_bucket(right@.take(j + 1), b) by {
                    lemma_members_push(before, next, b, Seq::empty());
                    lemma_members_push(right@.take(j as int), next, b, Seq::empty());
                    assert(of_bucket(before, b) == of_bucket(left@.take(i as int), b) + of_bucket(
                        right@.take(j as int),
                        b,
                    ));
                    assert(of_bucket(out@, b) =~= of_bucket(left@.take(i as int), b) + of_bucket(
                        right@.take(j + 1),
                        b,
                    ));
                }
                assert forall|k: int, m: int| 0 <= k < j + 1 && i <= m < left@.len() implies (
                #[trigger] right@[k]).bucket_index < (#[trigger] left@[m]).bucket_index by {
                    assert(left@[i as int].bucket_index <= left@[m].bucket_index);
                    assert(right@[k].bucket_index <= right@[j as int].bucket_index);
                }
                assert forall|k: int, m: int| 0 <= k < out@.len() && j + 1 <= m < right@.len() implies (
                #[trigger] out@[k]).bucket_index <= (#[trigger] right@[m]).bucket_index by {
                    if k == before.len() {
                        assert(right@[j as int].bucket_index <= right@[m].bucket_index);
                    } else {
                        assert(before[k].bucket_index <= right@[m].bucket_index);
                    }
                }
                assert forall|k: int, m: int| 0 <= k < out@.len() && i <= m < left@.len() implies (
                #[trigger] out@[k]).bucket_index <= (#[trigger] left@[m]).bucket_index by {
                    if k == before.len() {
                        assert(right@[j as int].bucket_index < left@[m].bucket_index);
                    } else {
                        assert(before[k].bucket_index <= left@[m].bucket_index);
                    }
                }
                assert forall|k: int, m: int| 0 <= k <= m < out@.len() implies (#[trigger] out@[k]).bucket_index
                    <= (#[trigger] out@[m]).bucket_index by {
                    if m < before.len() {
                        assert(before[k].bucket_index <= before[m].bucket_index);
                    } else if k < before.len() {
                        assert(before[k].bucket_index <= right@[j as int].bucket_index);
                    }
                }
            }
            j += 1;
        }
    }
    proof {
        assert(left@.take(i as int) =~= left@);
        assert(right@.take(j as int) =~= right@);
    }
    out
}

/// The positions `from..to`, in order of their buckets; within a bucket their order stays.
fn sorted_range(s: &[BucketPosition], from: usize, to: usize) -> (out: Vec<BucketPosition>)
    requires
        from <= to <= s@.len(),
    ensures
        in_bucket_order(out@),
        out@.len() == to - from,
        forall|b: u32|
            #[trigger] of_bucket(out@, b) == of_bucket(s@.subrange(from as int, to as int), b),
    decreases to - from,
{
    if to - from <= 1 {
        let mut out: Vec<BucketPosition> = Vec::new();
        if from < to {
            out.push(s[from]);
        }
        assert(out@ =~= s@.subrange(from as int, to as int));
        out
    } else {
        let mid: usize = from + (to - from) / 2;
        let left: Vec<BucketPosition> = sorted_range(s, from, mid);
        let right: Vec<BucketPosition> = sorted_range(s, mid, to);
        let out: Vec<BucketPosition> = merge(&left, &right);
        proof {
            let whole = s@.subrange(from as int, to as int);
            let (a, b) = (s@.subrange(from as int, mid as int), s@.subrange(mid as int, to as int));
            assert(whole =~= a + b);
            assert forall|k: u32| #[trigger] of_bucket(out@, k) == of_bucket(whole, k) by {
                lemma_of_bucket_concat(a, b, k);
                assert(of_bucket(left@, k) == of_bucket(a, k));
                assert(of_bucket(right@, k) == of_bucket(b, k));
            }
        }
        out
    }
}

/// A position stands as often in a list as in its bucket of the list.
proof fn lemma_count_in_bucket(s: Seq<BucketPosition>, p: BucketPosition)
    ensures
        s.to_multiset().count(p) == of_bucket(s, p.bucket_index).to_multiset().count(p),
    decreases s.len(),
{
    broadcast use vstd::seq_lib::group_to_multiset_ensures;

    if s.len() > 0 {
        let (r, x) = (s.drop_last(), s.last());
        lemma_count_in_bucket(r, p);
        assert(s =~= r.push(x));
        lemma_members_push(r, x, p.bucket_index, Seq::empty());
    } else {
        assert(of_bucket(s, p.bucket_index) =~= s);
    }
}

/// Lists with the same buckets hold the same positions.
proof fn lemma_same_buckets(s: Seq<BucketPosition>, t: Seq<BucketPosition>)
    requires
        forall|b: u32| #[trigger] of_bucket(s, b) == of_bucket(t, b),
    ensures
        s.to_multiset() == t.to_multiset(),
{
    assert forall|p: BucketPosition| s.to_multiset().count(p) == t.to_multiset().count(p) by {
        lemma_count_in_bucket(s, p);
        lemma_count_in_bucket(t, p);
        assert(of_bucket(s, p.bucket_index) == of_bucket(t, p.bucket_index));
    }
    assert(s.to_multiset() =~= t.to_multiset());
}

/// Puts the positions in order of their buckets; within a bucket their order stays.
pub fn sort_by_bucket(s: &mut [BucketPosition])
    ensures
        final(s)@.to_multiset() == old(s)@.to_multiset(),
        forall|i: int, j: int|
            0 <= i <= j < final(s)@.len() ==> (#[trigger] final(s)@[i]).bucket_index <= (
            #[trigger] final(s)@[j]).bucket_index,
        final(s)@.len() == old(s)@.len(),
        in_bucket_order(final(s)@),
        forall|b: u32| #[trigger] of_bucket(final(s)@, b) == of_bucket(old(s)@, b),
{
    let n: usize = s.len();
    let ghost start = s@;
    let sorted: Vec<BucketPosition> = sorted_range(s, 0, n);
    let mut i: usize = 0;
    while i < n
        invariant
            i <= n,
            n == s@.len(),
            n == sorted@.len(),
            forall|k: int| 0 <= k < i ==> #[trigger] s@[k] == sorted@[k],
        decreases n - i,
    {
        s[i] = sorted[i];
        i += 1;
    }
    proof {
        assert(s@ =~= sorted@);
        assert(start.subrange(0, n as int) =~= start);
        lemma_same_buckets(s@, start);
    }
}

} // verus!
