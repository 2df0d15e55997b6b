//! The sum of every bucket's points, by rounds of batched pairwise additions.

use crate::buckets::{
    in_bucket_order, lemma_member_at, lemma_members_none, lemma_members_push, lemma_members_same,
    lemma_of_bucket_from, lemma_pair_up_one, lemma_pair_up_two, lemma_round_keeps_sum, members,
    of_bucket, pair_up, sort_by_bucket, tree_ok, tree_sum, BucketPosition,
};
use crate::curve::{ec_add, summable, G1Affine, Point};
use crate::ifma_batch_add::{
    batch_add_in_place_with, batch_add_write, degenerate_at, firsts, pair_at, pairs_ok, seconds,
    untouched, writable, written, ALONE, Scratch,
};
use crate::point_buf::PointBuf;
use vstd::prelude::*;

verus! {

/// Batch size for the vectorized path, in points.
///
/// A point costs 128 bytes in the domain, and each pair touches two of them, so this keeps
/// the working set near one mebibyte whatever the size of the whole sum.
pub fn ifma_batch_size(_msm_size: usize) -> (size: usize)
    ensures
        size == 4096,
{
    4096
}

/// Every bucket's points after a round are the pairwise sums of its points before.
pub open spec fn paired(
    before: Seq<BucketPosition>,
    after: Seq<BucketPosition>,
    num_buckets: int,
    pts: Seq<Point>,
    sums: Seq<Point>,
) -> bool {
    forall|b: u32|
        b < num_buckets ==> #[trigger] members(after, b, sums) == pair_up(members(before, b, pts))
}

/// Two positions of one bucket become one.
proof fn lemma_paired_two(
    before: Seq<BucketPosition>,
    x: BucketPosition,
    y: BucketPosition,
    after: Seq<BucketPosition>,
    e: BucketPosition,
    num_buckets: int,
    pts: Seq<Point>,
    sums: Seq<Point>,
    next: Seq<Point>,
)
    requires
        paired(before, after, num_buckets, pts, sums),
        x.bucket_index == y.bucket_index,
        e.bucket_index == x.bucket_index,
        members(before, x.bucket_index, pts).len() % 2 == 0,
        next[e.scalar_index as int] == ec_add(
            pts[x.scalar_index as int],
            pts[y.scalar_index as int],
        ),
        forall|t: int|
            0 <= t < after.len() ==> next[(#[trigger] after[t]).scalar_index as int]
                == sums[after[t].scalar_index as int],
    ensures
        paired(before.push(x).push(y), after.push(e), num_buckets, pts, next),
        members(before.push(x).push(y), x.bucket_index, pts).len() == members(
            before,
            x.bucket_index,
            pts,
        ).len() + 2,
{
    assert forall|b: u32| b < num_buckets implies #[trigger] members(after.push(e), b, next)
        == pair_up(members(before.push(x).push(y), b, pts)) by {
        lemma_members_push(before, x, b, pts);
        lemma_members_push(before.push(x), y, b, pts);
        lemma_members_push(after, e, b, next);
        lemma_members_same(after, b, next, sums);
        assert(members(after, b, sums) == pair_up(members(before, b, pts)));
        if b == x.bucket_index {
            lemma_pair_up_two(
                members(before, b, pts),
                pts[x.scalar_index as int],
                pts[y.scalar_index as int],
            );
        }
    }
    lemma_members_push(before, x, x.bucket_index, pts);
    lemma_members_push(before.push(x), y, x.bucket_index, pts);
}

/// A position without a partner stays.
proof fn lemma_paired_one(
    before: Seq<BucketPosition>,
    x: BucketPosition,
    after: Seq<BucketPosition>,
    e: BucketPosition,
    num_buckets: int,
    pts: Seq<Point>,
    sums: Seq<Point>,
    next: Seq<Point>,
)
    requires
        paired(before, after, num_buckets, pts, sums),
        e.bucket_index == x.bucket_index,
        members(before, x.bucket_index, pts).len() % 2 == 0,
        next[e.scalar_index as int] == pts[x.scalar_index as int],
        forall|t: int|
            0 <= t < after.len() ==> next[(#[trigger] after[t]).scalar_index as int]
                == sums[after[t].scalar_index as int],
    ensures
        paired(before.push(x), after.push(e), num_buckets, pts, next),
        members(before.push(x), x.bucket_index, pts).len() == members(
            before,
            x.bucket_index,
            pts,
        ).len() + 1,
{
    assert forall|b: u32| b < num_buckets implies #[trigger] members(after.push(e), b, next)
        == pair_up(members(before.push(x), b, pts)) by {
        lemma_members_push(before, x, b, pts);
        lemma_members_push(after, e, b, next);
        lemma_members_same(after, b, next, sums);
        assert(members(after, b, sums) == pair_up(members(before, b, pts)));
        if b == x.bucket_index {
            lemma_pair_up_one(members(before, b, pts), pts[x.scalar_index as int]);
        }
    }
    lemma_members_push(before, x, x.bucket_index, pts);
}

/// The pairing does not look at other points than those that it names.
proof fn lemma_paired_same(
    before: Seq<BucketPosition>,
    after: Seq<BucketPosition>,
    num_buckets: int,
    pts: Seq<Point>,
    sums: Seq<Point>,
    next: Seq<Point>,
)
    requires
        paired(before, after, num_buckets, pts, sums),
        forall|t: int|
            0 <= t < after.len() ==> next[(#[trigger] after[t]).scalar_index as int]
                == sums[after[t].scalar_index as int],
    ensures
        paired(before, after, num_buckets, pts, next),
{
    assert forall|b: u32| b < num_buckets implies #[trigger] members(after, b, next) == pair_up(
        members(before, b, pts),
    ) by {
        lemma_members_same(after, b, next, sums);
        assert(members(after, b, sums) == pair_up(members(before, b, pts)));
    }
}

/// No bucket in range has more than two points.
pub open spec fn at_most_two(s: Seq<BucketPosition>, num_buckets: int, pts: Seq<Point>) -> bool {
    forall|b: u32| b < num_buckets ==> (#[trigger] members(s, b, pts)).len() <= 2
}

/// A run of positions outside the buckets in range changes no bucket in range.
proof fn lemma_skip_run(
    s: Seq<BucketPosition>,
    from: int,
    to: int,
    num_buckets: int,
    pts: Seq<Point>,
)
    requires
        0 <= from <= to <= s.len(),
        forall|k: int| from <= k < to ==> (#[trigger] s[k]).bucket_index >= num_buckets,
    ensures
        forall|b: u32|
            b < num_buckets ==> #[trigger] members(s.take(to), b, pts) == members(
                s.take(from),
                b,
                pts,
            ),
    decreases to - from,
{
    if from < to {
        lemma_skip_run(s, from, to - 1, num_buckets, pts);
        assert forall|b: u32| b < num_buckets implies #[trigger] members(s.take(to), b, pts)
            == members(s.take(from), b, pts) by {
            assert(s.take(to) =~= s.take(to - 1).push(s[to - 1]));
            assert(s[to - 1].bucket_index >= num_buckets);
            lemma_members_push(s.take(to - 1), s[to - 1], b, pts);
            assert(members(s.take(to - 1), b, pts) == members(s.take(from), b, pts));
        }
    }
}

/// A run of positions of one bucket grows that bucket by its length and no other.
proof fn lemma_run_members(
    s: Seq<BucketPosition>,
    from: int,
    to: int,
    c: u32,
    pts: Seq<Point>,
)
    requires
        0 <= from <= to <= s.len(),
        forall|k: int| from <= k < to ==> (#[trigger] s[k]).bucket_index == c,
    ensures
        members(s.take(to), c, pts).len() == members(s.take(from), c, pts).len() + (to - from),
        forall|b: u32|
            b != c ==> #[trigger] members(s.take(to), b, pts) == members(s.take(from), b, pts),
    decreases to - from,
{
    if from < to {
        lemma_run_members(s, from, to - 1, c, pts);
        assert(s.take(to) =~= s.take(to - 1).push(s[to - 1]));
        assert(s[to - 1].bucket_index == c);
        lemma_members_push(s.take(to - 1), s[to - 1], c, pts);
        assert forall|b: u32| b != c implies #[trigger] members(s.take(to), b, pts) == members(
            s.take(from),
            b,
            pts,
        ) by {
            lemma_members_push(s.take(to - 1), s[to - 1], b, pts);
            assert(members(s.take(to - 1), b, pts) == members(s.take(from), b, pts));
        }
    }
}

/// Whether every bucket has two points at most, once one run more is counted.
proof fn lemma_count_run(
    s: Seq<BucketPosition>,
    from: int,
    to: int,
    c: u32,
    num_buckets: int,
    pts: Seq<Point>,
)
    requires
        0 <= from <= to <= s.len(),
        c < num_buckets,
        forall|k: int| from <= k < to ==> (#[trigger] s[k]).bucket_index == c,
        members(s.take(from), c, pts).len() == 0,
    ensures
        at_most_two(s.take(to), num_buckets, pts) <==> (at_most_two(s.take(from), num_buckets, pts)
            && to - from <= 2),
{
    lemma_run_members(s, from, to, c, pts);
    if at_most_two(s.take(to), num_buckets, pts) {
        assert(members(s.take(to), c, pts).len() <= 2);
        assert forall|b: u32| b < num_buckets implies (#[trigger] members(
            s.take(from),
            b,
            pts,
        )).len() <= 2 by {
            assert(members(s.take(to), b, pts).len() <= 2);
        }
    }
    if at_most_two(s.take(from), num_buckets, pts) && to - from <= 2 {
        assert forall|b: u32| b < num_buckets implies (#[trigger] members(
            s.take(to),
            b,
            pts,
        )).len() <= 2 by {
            assert(members(s.take(from), b, pts).len() <= 2);
        }
    }
}

/// The end of the run of positions of one bucket that starts at `start`.
fn run_end(positions: &[BucketPosition], start: usize, n: usize) -> (end: usize)
    requires
        start < n <= positions@.len(),
    ensures
        start < end <= n,
        forall|k: int|
            start <= k < end ==> (#[trigger] positions@[k]).bucket_index
                == positions@[start as int].bucket_index,
        end < n ==> positions@[end as int].bucket_index != positions@[start as int].bucket_index,
{
    let current: u32 = positions[start].bucket_index;
    let mut end: usize = start + 1;
    while end < n && positions[end].bucket_index == current
        invariant
            start < end <= n,
            n <= positions@.len(),
            current == positions@[start as int].bucket_index,
            forall|k: int|
                start <= k < end ==> (#[trigger] positions@[k]).bucket_index == current,
        decreases n - end,
    {
        end += 1;
    }
    end
}

/// The points that a buffer will hold once pending instructions are carried out.
spec fn planned(done: Seq<Point>, bases: Seq<Point>, instr: Seq<(u32, u32)>) -> Seq<Point> {
    done + instr.map_values(|pair: (u32, u32)| written(bases, pair))
}

/// What the first round has achieved: it has read the positions before `pos` of `s`, and
/// put as many as `out` back.
spec fn first_round_state(
    s: Seq<BucketPosition>,
    pos: int,
    cur: Seq<BucketPosition>,
    out: int,
    num_buckets: int,
    bases: Seq<Point>,
    sums: Seq<Point>,
) -> bool {
    &&& 0 <= out <= pos <= s.len()
    &&& cur.len() == s.len()
    &&& sums.len() == out
    &&& forall|k: int| pos <= k < s.len() ==> #[trigger] cur[k] == s[k]
    &&& forall|t: int|
        0 <= t < out ==> (#[trigger] cur[t]).scalar_index == t && cur[t].bucket_index < num_buckets
    &&& in_bucket_order(cur.take(out))
    &&& paired(s.take(pos), cur.take(out), num_buckets, bases, sums)
}

/// One instruction more, which reads `width` positions and puts one back.
#[verifier::rlimit(40)]
proof fn lemma_first_round_step(
    s: Seq<BucketPosition>,
    pos: int,
    width: int,
    cur: Seq<BucketPosition>,
    out: int,
    num_buckets: int,
    bases: Seq<Point>,
    sums: Seq<Point>,
    point: Point,
    next: Seq<BucketPosition>,
)
    requires
        first_round_state(s, pos, cur, out, num_buckets, bases, sums),
        1 <= width <= 2,
        pos + width <= s.len(),
        out <= u32::MAX,
        s[pos].bucket_index < num_buckets,
        s[pos + width - 1].bucket_index == s[pos].bucket_index,
        members(s.take(pos), s[pos].bucket_index, bases).len() % 2 == 0,
        point == (if width == 2 {
            ec_add(
                bases[s[pos].scalar_index as int],
                bases[s[pos + 1].scalar_index as int],
            )
        } else {
            bases[s[pos].scalar_index as int]
        }),
        forall|t: int|
            0 <= t < out ==> (#[trigger] cur[t]).bucket_index <= s[pos].bucket_index,
        next == cur.update(
            out,
            (BucketPosition { bucket_index: s[pos].bucket_index, scalar_index: out as u32 }),
        ),
    ensures
        first_round_state(s, pos + width, next, out + 1, num_buckets, bases, sums.push(point)),
        members(s.take(pos + width), s[pos].bucket_index, bases).len() == members(
            s.take(pos),
            s[pos].bucket_index,
            bases,
        ).len() + width,
        forall|t: int|
            0 <= t < out + 1 ==> (#[trigger] next[t]).bucket_index <= s[pos].bucket_index,
{
    let e = BucketPosition { bucket_index: s[pos].bucket_index, scalar_index: out as u32 };
    assert(next.take(out + 1) =~= cur.take(out).push(e));
    assert forall|t: int| 0 <= t < cur.take(out).len() implies sums.push(
        point,
    )[(#[trigger] cur.take(out)[t]).scalar_index as int]
        == sums[cur.take(out)[t].scalar_index as int] by {
        assert(cur[t].scalar_index == t);
    }
    if width == 2 {
        assert(s.take(pos + 2) =~= s.take(pos).push(s[pos]).push(s[pos + 1]));
        lemma_paired_two(
            s.take(pos),
            s[pos],
            s[pos + 1],
            cur.take(out),
            e,
            num_buckets,
            bases,
            sums,
            sums.push(point),
        );
    } else {
        assert(s.take(pos + 1) =~= s.take(pos).push(s[pos]));
        lemma_paired_one(
            s.take(pos),
            s[pos],
            cur.take(out),
            e,
            num_buckets,
            bases,
            sums,
            sums.push(point),
        );
    }
    assert forall|t: int| 0 <= t < out + 1 implies (#[trigger] next[t]).bucket_index
        <= s[pos].bucket_index && next[t].scalar_index == t && next[t].bucket_index < num_buckets by {
        if t < out {
            assert(cur[t].scalar_index == t);
        }
    }
    assert forall|i: int, j: int| 0 <= i <= j < next.take(out + 1).len() implies (#[trigger] next.take(
        out + 1,
    )[i]).bucket_index <= (#[trigger] next.take(out + 1)[j]).bucket_index by {
        if j < out {
            assert(cur.take(out)[i].bucket_index <= cur.take(out)[j].bucket_index);
        } else {
            assert(next[i].bucket_index <= s[pos].bucket_index);
        }
    }
}

/// The first round: adds every bucket's points in pairs, from the bases into a new buffer,
/// and renames the positions that are left to the new buffer's points. Returns how many
/// are left, and whether no bucket has more than one.
#[verifier::rlimit(60)]
fn first_round(
    num_buckets: usize,
    bases: &PointBuf,
    positions: &mut [BucketPosition],
    new_bases: &mut PointBuf,
    scratch: &mut Scratch,
) -> (r: (usize, bool))
    requires
        bases.wf(),
        old(new_bases).wf(),
        old(new_bases)@.len() == 0,
        in_bucket_order(old(positions)@),
        old(positions)@.len() <= u32::MAX,
        2 * old(positions)@.len() <= usize::MAX,
        forall|k: int|
            0 <= k < old(positions)@.len() && (#[trigger] old(positions)@[k]).bucket_index
                < num_buckets ==> old(positions)@[k].scalar_index < bases@.len() && old(
                positions,
            )@[k].scalar_index != ALONE,
        forall|b: u32|
            b < num_buckets ==> tree_ok(#[trigger] members(old(positions)@, b, bases@)),
    ensures
        final(positions)@.len() == old(positions)@.len(),
        final(new_bases).wf(),
        first_round_state(
            old(positions)@,
            old(positions)@.len() as int,
            final(positions)@,
            r.0 as int,
            num_buckets as int,
            bases@,
            final(new_bases)@,
        ),
        r.1 == at_most_two(old(positions)@, num_buckets as int, bases@),
{
    let n: usize = positions.len();
    let batch_size: usize = ifma_batch_size(bases.len());
    let ghost (s, nb, o) = (positions@, num_buckets as int, bases@);
    let mut instr: Vec<(u32, u32)> = Vec::with_capacity(batch_size);
    let mut all_ones: bool = true;
    let mut start: usize = 0;
    let mut out: usize = 0;
    let mut in_batch: usize = 0;
    proof {
        assert forall|b: u32| b < nb implies #[trigger] members(s.take(0), b, new_bases@) == pair_up(
            members(s.take(0), b, o),
        ) by {
            assert(members(s.take(0), b, new_bases@) =~= pair_up(members(s.take(0), b, o)));
        }
        assert(planned(new_bases@, o, instr@) =~= new_bases@);
        assert(at_most_two(s.take(0), nb, o));
    }
    while start < n
        invariant
            n == s.len(),
            n <= u32::MAX,
            2 * n <= usize::MAX,
            start <= n,
            in_batch <= start,
            o == bases@,
            nb == num_buckets,
            bases.wf(),
            new_bases.wf(),
            in_bucket_order(s),
            forall|k: int|
                0 <= k < s.len() && (#[trigger] s[k]).bucket_index < nb ==> s[k].scalar_index
                    < o.len() && s[k].scalar_index != ALONE,
            forall|b: u32| b < nb ==> tree_ok(#[trigger] members(s, b, o)),
            forall|k: int| 0 <= k < instr@.len() ==> writable(o, #[trigger] instr@[k]),
            first_round_state(
                s,
                start as int,
                positions@,
                out as int,
                nb,
                o,
                planned(new_bases@, o, instr@),
            ),
            0 < start < n ==> s[start - 1].bucket_index < s[start as int].bucket_index,
            forall|t: int|
                0 <= t < out && start < n ==> (#[trigger] positions@[t]).bucket_index
                    <= s[start as int].bucket_index,
            all_ones == at_most_two(s.take(start as int), nb, o),
        decreases n - start,
    {
        let end: usize = run_end(positions, start, n);
        let current: u32 = positions[start].bucket_index;
        proof {
            assert(positions@[start as int] == s[start as int]);
            assert forall|k: int| start <= k < end implies (#[trigger] s[k]).bucket_index
                == current by {
                assert(positions@[k] == s[k]);
            }
            assert forall|k: int| 0 <= k < start implies (#[trigger] s.take(
                start as int,
            )[k]).bucket_index != current by {
                assert(s[k].bucket_index <= s[start - 1].bucket_index);
            }
            lemma_members_none(s.take(start as int), current);
            assert(members(s.take(start as int), current, o).len() == 0);
            if end < n {
                assert(positions@[end as int] == s[end as int]);
                assert(s[end - 1].bucket_index == current);
                assert(s[end - 1].bucket_index <= s[end as int].bucket_index);
            }
        }
        if (current as usize) < num_buckets {
            if end - start > 2 {
                all_ones = false;
            }
            proof {
                lemma_count_run(s, start as int, end as int, current, nb, o);
            }
            let mut pos: usize = start;
            while end - pos >= 2
                invariant
                    n == s.len(),
                    n <= u32::MAX,
                    start <= pos <= end <= n,
                    (pos - start) % 2 == 0,
                    in_batch <= pos,
                    o == bases@,
                    nb == num_buckets,
                    current < nb,
                    new_bases.wf(),
                    in_bucket_order(s),
                    forall|k: int| start <= k < end ==> (#[trigger] s[k]).bucket_index == current,
                    forall|k: int|
                        0 <= k < s.len() && (#[trigger] s[k]).bucket_index < nb
                            ==> s[k].scalar_index < o.len() && s[k].scalar_index != ALONE,
                    forall|b: u32| b < nb ==> tree_ok(#[trigger] members(s, b, o)),
                    forall|k: int| 0 <= k < instr@.len() ==> writable(o, #[trigger] instr@[k]),
                    first_round_state(
                        s,
                        pos as int,
                        positions@,
                        out as int,
                        nb,
                        o,
                        planned(new_bases@, o, instr@),
                    ),
                    members(s.take(pos as int), current, o).len() == pos - start,
                    forall|t: int|
                        0 <= t < out ==> (#[trigger] positions@[t]).bucket_index <= current,
                decreases end - pos,
            {
                let ghost (cur, sums) = (positions@, planned(new_bases@, o, instr@));
                let first: u32 = positions[pos].scalar_index;
                let second: u32 = positions[pos + 1].scalar_index;
                instr.push((first, second));
                positions[out] = BucketPosition {
                    bucket_index: current,
                    scalar_index: out as u32,
                };
                proof {
                    assert(cur[pos as int] == s[pos as int]);
                    assert(cur[pos + 1] == s[pos + 1]);
                    assert(s[pos as int].bucket_index == current);
                    assert(s[pos + 1].bucket_index == current);
                    // The two points are an adjacent pair of the bucket.
                    let m = pos - start;
                    let whole = members(s, current, o);
                    lemma_member_at(s, pos as int, current, o);
                    lemma_member_at(s, pos + 1, current, o);
                    lemma_run_members(s, start as int, pos + 1, current, o);
                    lemma_run_members(s, start as int, pos as int, current, o);
                    assert(members(s.take(pos + 1), current, o).len() == m + 1);
                    assert(whole[m] == o[first as int]);
                    assert(whole[m + 1] == o[second as int]);
                    assert(tree_ok(whole));
                    let h = m / 2;
                    assert(2 * h == m);
                    assert(summable(whole[2 * h], whole[2 * h + 1]));
                    assert(writable(o, (first, second)));
                    let point = written(o, (first, second));
                    assert(planned(new_bases@, o, instr@) =~= sums.push(point));
                    lemma_first_round_step(
                        s,
                        pos as int,
                        2,
                        cur,
                        out as int,
                        nb,
                        o,
                        sums,
                        point,
                        positions@,
                    );
                }
                out += 1;
                pos += 2;
                in_batch += 1;
            }
            if pos < end {
                let ghost (cur, sums) = (positions@, planned(new_bases@, o, instr@));
                let only: u32 = positions[pos].scalar_index;
                instr.push((only, ALONE));
                positions[out] = BucketPosition {
                    bucket_index: current,
                    scalar_index: out as u32,
                };
                proof {
                    assert(cur[pos as int] == s[pos as int]);
                    assert(s[pos as int].bucket_index == current);
                    let point = written(o, (only, ALONE));
                    assert(writable(o, (only, ALONE)));
                    assert(planned(new_bases@, o, instr@) =~= sums.push(point));
                    lemma_first_round_step(
                        s,
                        pos as int,
                        1,
                        cur,
                        out as int,
                        nb,
                        o,
                        sums,
                        point,
                        positions@,
                    );
                }
                out += 1;
            }
            if in_batch >= batch_size / 2 {
                let ghost sums = planned(new_bases@, o, instr@);
                batch_add_write(bases, instr.as_slice(), new_bases, scratch);
                instr.clear();
                in_batch = 0;
                assert(planned(new_bases@, o, instr@) =~= sums);
            }
        } else {
            proof {
                let sums = planned(new_bases@, o, instr@);
                lemma_skip_run(s, start as int, end as int, nb, o);
                assert forall|b: u32| b < nb implies #[trigger] members(
                    positions@.take(out as int),
                    b,
                    sums,
                ) == pair_up(members(s.take(end as int), b, o)) by {
                    assert(members(s.take(end as int), b, o) == members(s.take(start as int), b, o));
                }
                if all_ones {
                    assert forall|b: u32| b < nb implies (#[trigger] members(
                        s.take(end as int),
                        b,
                        o,
                    )).len() <= 2 by {
                        assert(members(s.take(start as int), b, o).len() <= 2);
                    }
                } else {
                    if at_most_two(s.take(end as int), nb, o) {
                        assert forall|b: u32| b < nb implies (#[trigger] members(
                            s.take(start as int),
                            b,
                            o,
                        )).len() <= 2 by {
                            assert(members(s.take(end as int), b, o).len() <= 2);
                        }
                    }
                }
            }
        }
        proof {
            assert forall|t: int| 0 <= t < out && end < n implies (#[trigger] positions@[t]).bucket_index
                <= s[end as int].bucket_index by {
                assert(positions@[t].bucket_index <= current);
            }
        }
        start = end;
    }
    if instr.len() > 0 {
        let ghost sums = planned(new_bases@, o, instr@);
        batch_add_write(bases, instr.as_slice(), new_bases, scratch);
        assert(new_bases@ =~= sums);
    } else {
        assert(planned(new_bases@, o, instr@) =~= new_bases@);
    }
    assert(s.take(n as int) =~= s);
    (out, all_ones)
}

/// Positions that name different points of a buffer of `len` points, in order of their
/// buckets, which are all in range.
pub open spec fn positions_ok(s: Seq<BucketPosition>, num_buckets: int, len: nat) -> bool {
    &&& in_bucket_order(s)
    &&& forall|k: int|
        0 <= k < s.len() ==> (#[trigger] s[k]).bucket_index < num_buckets && s[k].scalar_index < len
    &&& forall|j: int, k: int|
        0 <= j < k < s.len() ==> (#[trigger] s[j]).scalar_index != (#[trigger] s[k]).scalar_index
}

/// Pending instructions on a buffer that holds `pts` and will hold `goal`.
spec fn pending(pts: Seq<Point>, goal: Seq<Point>, instr: Seq<(u32, u32)>) -> bool {
    &&& goal.len() == pts.len()
    &&& forall|k: int|
        0 <= k < instr.len() ==> {
            let (i, j) = #[trigger] instr[k];
            &&& i < pts.len()
            &&& j < pts.len()
            &&& summable(pts[i as int], pts[j as int])
            &&& goal[i as int] == ec_add(pts[i as int], pts[j as int])
        }
    &&& forall|j: int, k: int|
        0 <= j < k < instr.len() ==> (#[trigger] instr[j]).0 != (#[trigger] instr[k]).0
            && instr[j].1 != instr[k].1
    &&& forall|j: int, k: int|
        0 <= j < instr.len() && 0 <= k < instr.len() ==> (#[trigger] instr[j]).0 != (
        #[trigger] instr[k]).1
    &&& forall|i: int|
        0 <= i < pts.len() && (forall|k: int|
            0 <= k < instr.len() ==> (#[trigger] instr[k]).0 != i && instr[k].1 != i)
            ==> #[trigger] goal[i] == pts[i]
}

/// What a later round has achieved: it has read the positions before `pos` of `s`, and put
/// as many as `out` back.
spec fn next_round_state(
    s: Seq<BucketPosition>,
    pos: int,
    cur: Seq<BucketPosition>,
    out: int,
    num_buckets: int,
    o: Seq<Point>,
    pts: Seq<Point>,
    goal: Seq<Point>,
    instr: Seq<(u32, u32)>,
) -> bool {
    &&& 0 <= out <= pos <= s.len()
    &&& cur.len() == s.len()
    &&& pts.len() == o.len()
    &&& forall|k: int| pos <= k < s.len() ==> #[trigger] cur[k] == s[k]
    &&& positions_ok(cur.take(out), num_buckets, o.len())
    &&& paired(s.take(pos), cur.take(out), num_buckets, o, goal)
    &&& pending(pts, goal, instr)
    &&& forall|k: int|
        pos <= k < s.len() ==> pts[(#[trigger] s[k]).scalar_index as int]
            == o[s[k].scalar_index as int]
    &&& forall|t: int, k: int|
        0 <= t < out && pos <= k < s.len() ==> (#[trigger] cur[t]).scalar_index != (
        #[trigger] s[k]).scalar_index
    &&& forall|k: int, m: int|
        0 <= k < instr.len() && pos <= m < s.len() ==> (#[trigger] instr[k]).0 != (
        #[trigger] s[m]).scalar_index && instr[k].1 != s[m].scalar_index
    &&& forall|t: int, k: int|
        0 <= t < out && 0 <= k < instr.len() ==> (#[trigger] cur[t]).scalar_index != (
        #[trigger] instr[k]).1
}

/// One position put back keeps the positions in order.
proof fn lemma_put_back(
    s: Seq<BucketPosition>,
    pos: int,
    cur: Seq<BucketPosition>,
    out: int,
    num_buckets: int,
    len: nat,
)
    requires
        positions_ok(s, num_buckets, len),
        0 <= out <= pos < s.len(),
        cur.len() == s.len(),
        positions_ok(cur.take(out), num_buckets, len),
        forall|t: int|
            0 <= t < out ==> (#[trigger] cur[t]).bucket_index <= s[pos].bucket_index
                && cur[t].scalar_index != s[pos].scalar_index,
    ensures
        positions_ok(cur.update(out, s[pos]).take(out + 1), num_buckets, len),
        cur.update(out, s[pos]).take(out + 1) == cur.take(out).push(s[pos]),
{
    let next = cur.update(out, s[pos]).take(out + 1);
    assert(next =~= cur.take(out).push(s[pos]));
    assert forall|i: int, j: int| 0 <= i <= j < next.len() implies (#[trigger] next[i]).bucket_index
        <= (#[trigger] next[j]).bucket_index by {
        if j < out {
            assert(cur.take(out)[i].bucket_index <= cur.take(out)[j].bucket_index);
        } else if i < out {
            assert(cur[i].bucket_index <= s[pos].bucket_index);
        }
    }
    assert forall|k: int| 0 <= k < next.len() implies (#[trigger] next[k]).bucket_index < num_buckets
        && next[k].scalar_index < len by {
        if k < out {
            assert(cur.take(out)[k].scalar_index < len);
        } else {
            assert(s[pos].scalar_index < len);
        }
    }
    assert forall|j: int, k: int| 0 <= j < k < next.len() implies (#[trigger] next[j]).scalar_index
        != (#[trigger] next[k]).scalar_index by {
        if k < out {
            assert(cur.take(out)[j].scalar_index != cur.take(out)[k].scalar_index);
        } else {
            assert(cur[j].scalar_index != s[pos].scalar_index);
        }
    }
}

/// A pair more to be added.
#[verifier::rlimit(40)]
proof fn lemma_next_round_pair(
    s: Seq<BucketPosition>,
    pos: int,
    cur: Seq<BucketPosition>,
    out: int,
    num_buckets: int,
    o: Seq<Point>,
    pts: Seq<Point>,
    goal: Seq<Point>,
    instr: Seq<(u32, u32)>,
) -> (next_goal: Seq<Point>)
    requires
        positions_ok(s, num_buckets, o.len()),
        next_round_state(s, pos, cur, out, num_buckets, o, pts, goal, instr),
        pos + 2 <= s.len(),
        s[pos + 1].bucket_index == s[pos].bucket_index,
        members(s.take(pos), s[pos].bucket_index, o).len() % 2 == 0,
        summable(o[s[pos].scalar_index as int], o[s[pos + 1].scalar_index as int]),
        forall|t: int|
            0 <= t < out ==> (#[trigger] cur[t]).bucket_index <= s[pos].bucket_index,
    ensures
        next_round_state(
            s,
            pos + 2,
            cur.update(out, s[pos]),
            out + 1,
            num_buckets,
            o,
            pts,
            next_goal,
            instr.push((s[pos].scalar_index, s[pos + 1].scalar_index)),
        ),
        members(s.take(pos + 2), s[pos].bucket_index, o).len() == members(
            s.take(pos),
            s[pos].bucket_index,
            o,
        ).len() + 2,
{
    let (i, j) = (s[pos].scalar_index, s[pos + 1].scalar_index);
    let sum = ec_add(o[i as int], o[j as int]);
    let next_goal = goal.update(i as int, sum);
    let more = instr.push((i, j));
    let next = cur.update(out, s[pos]);
    assert(i < o.len() && j < o.len() && i != j);
    assert forall|t: int| 0 <= t < out implies (#[trigger] cur[t]).bucket_index
        <= s[pos].bucket_index && cur[t].scalar_index != s[pos].scalar_index by {}
    lemma_put_back(s, pos, cur, out, num_buckets, o.len());
    assert(s.take(pos + 2) =~= s.take(pos).push(s[pos]).push(s[pos + 1]));
    assert forall|t: int| 0 <= t < cur.take(out).len() implies next_goal[(#[trigger] cur.take(
        out,
    )[t]).scalar_index as int] == goal[cur.take(out)[t].scalar_index as int] by {
        assert(cur[t].scalar_index != s[pos].scalar_index);
    }
    lemma_paired_two(
        s.take(pos),
        s[pos],
        s[pos + 1],
        cur.take(out),
        s[pos],
        num_buckets,
        o,
        goal,
        next_goal,
    );
    assert(pts[i as int] == o[i as int] && pts[j as int] == o[j as int]);
    assert forall|k: int| 0 <= k < more.len() implies {
        let (a, b) = #[trigger] more[k];
        &&& a < pts.len()
        &&& b < pts.len()
        &&& summable(pts[a as int], pts[b as int])
        &&& next_goal[a as int] == ec_add(pts[a as int], pts[b as int])
    } by {
        if k < instr.len() {
            assert(instr[k].0 != s[pos].scalar_index);
        }
    }
    assert forall|a: int, b: int| 0 <= a < b < more.len() implies (#[trigger] more[a]).0 != (
    #[trigger] more[b]).0 && more[a].1 != more[b].1 by {
        if b == instr.len() {
            assert(instr[a].0 != s[pos].scalar_index);
            assert(instr[a].1 != s[pos + 1].scalar_index);
        }
    }
    assert forall|a: int, b: int| 0 <= a < more.len() && 0 <= b < more.len() implies (
    #[trigger] more[a]).0 != (#[trigger] more[b]).1 by {
        if a < instr.len() && b < instr.len() {
            assert(instr[a].0 != instr[b].1);
        } else if a < instr.len() {
            assert(instr[a].0 != s[pos + 1].scalar_index);
        } else if b < instr.len() {
            assert(instr[b].1 != s[pos].scalar_index);
        }
    }
    assert forall|q: int|
        0 <= q < pts.len() && (forall|k: int|
            0 <= k < more.len() ==> (#[trigger] more[k]).0 != q && more[k].1
                != q) implies #[trigger] next_goal[q] == pts[q] by {
        assert(more[instr.len() as int].0 != q);
        assert forall|k: int| 0 <= k < instr.len() implies (#[trigger] instr[k]).0 != q
            && instr[k].1 != q by {
            assert(more[k].0 != q);
        }
        assert(goal[q] == pts[q]);
    }
    assert(pending(pts, next_goal, more));
    assert forall|t: int, k: int| 0 <= t < out + 1 && pos + 2 <= k < s.len() implies (
    #[trigger] next[t]).scalar_index != (#[trigger] s[k]).scalar_index by {
        if t < out {
            assert(cur[t].scalar_index != s[k].scalar_index);
        } else {
            assert(s[pos].scalar_index != s[k].scalar_index);
        }
    }
    assert forall|k: int, m: int| 0 <= k < more.len() && pos + 2 <= m < s.len() implies (
    #[trigger] more[k]).0 != (#[trigger] s[m]).scalar_index && more[k].1 != s[m].scalar_index by {
        if k < instr.len() {
            assert(instr[k].0 != s[m].scalar_index);
        } else {
            assert(s[pos].scalar_index != s[m].scalar_index);
            assert(s[pos + 1].scalar_index != s[m].scalar_index);
        }
    }
    assert forall|t: int, k: int| 0 <= t < out + 1 && 0 <= k < more.len() implies (
    #[trigger] next[t]).scalar_index != (#[trigger] more[k]).1 by {
        if t < out {
            if k < instr.len() {
                assert(cur[t].scalar_index != instr[k].1);
            } else {
                assert(cur[t].scalar_index != s[pos + 1].scalar_index);
            }
        } else if k < instr.len() {
            assert(instr[k].1 != s[pos].scalar_index);
        } else {
            assert(s[pos].scalar_index != s[pos + 1].scalar_index);
        }
    }
    next_goal
}

/// A position without a partner more.
proof fn lemma_next_round_single(
    s: Seq<BucketPosition>,
    pos: int,
    cur: Seq<BucketPosition>,
    out: int,
    num_buckets: int,
    o: Seq<Point>,
    pts: Seq<Point>,
    goal: Seq<Point>,
    instr: Seq<(u32, u32)>,
)
    requires
        positions_ok(s, num_buckets, o.len()),
        next_round_state(s, pos, cur, out, num_buckets, o, pts, goal, instr),
        pos + 1 <= s.len(),
        members(s.take(pos), s[pos].bucket_index, o).len() % 2 == 0,
        forall|t: int|
            0 <= t < out ==> (#[trigger] cur[t]).bucket_index <= s[pos].bucket_index,
    ensures
        next_round_state(
            s,
            pos + 1,
            cur.update(out, s[pos]),
            out + 1,
            num_buckets,
            o,
            pts,
            goal,
            instr,
        ),
        members(s.take(pos + 1), s[pos].bucket_index, o).len() == members(
            s.take(pos),
            s[pos].bucket_index,
            o,
        ).len() + 1,
{
    let i = s[pos].scalar_index;
    let next = cur.update(out, s[pos]);
    assert(i < o.len());
    assert forall|t: int| 0 <= t < out implies (#[trigger] cur[t]).bucket_index
        <= s[pos].bucket_index && cur[t].scalar_index != s[pos].scalar_index by {}
    lemma_put_back(s, pos, cur, out, num_buckets, o.len());
    assert(s.take(pos + 1) =~= s.take(pos).push(s[pos]));
    assert forall|k: int| 0 <= k < instr.len() implies (#[trigger] instr[k]).0 != i as int
        && instr[k].1 != i as int by {
        assert(instr[k].0 != s[pos].scalar_index);
    }
    assert(goal[i as int] == pts[i as int]);
    assert(pts[i as int] == o[i as int]);
    lemma_paired_one(s.take(pos), s[pos], cur.take(out), s[pos], num_buckets, o, goal, goal);
    assert forall|t: int, k: int| 0 <= t < out + 1 && pos + 1 <= k < s.len() implies (
    #[trigger] next[t]).scalar_index != (#[trigger] s[k]).scalar_index by {
        if t < out {
            assert(cur[t].scalar_index != s[k].scalar_index);
        } else {
            assert(s[pos].scalar_index != s[k].scalar_index);
        }
    }
    assert forall|t: int, k: int| 0 <= t < out + 1 && 0 <= k < instr.len() implies (
    #[trigger] next[t]).scalar_index != (#[trigger] instr[k]).1 by {
        if t < out {
            assert(cur[t].scalar_index != instr[k].1);
        }
    }
}

/// Pending instructions form a batch that can be added in place.
proof fn lemma_pending_ok(pts: Seq<Point>, goal: Seq<Point>, instr: Seq<(u32, u32)>)
    requires
        pending(pts, goal, instr),
    ensures
        pairs_ok(pts, firsts(instr), seconds(instr)),
{
    let (ai, bi) = (firsts(instr), seconds(instr));
    assert forall|k: int| 0 <= k < ai.len() implies #[trigger] ai[k] < pts.len() by {
        let (i, j) = instr[k];
    }
    assert forall|k: int| 0 <= k < bi.len() implies #[trigger] bi[k] < pts.len() by {
        let (i, j) = instr[k];
    }
    assert forall|j: int, k: int| 0 <= j < k < ai.len() implies #[trigger] ai[j]
        != #[trigger] ai[k] by {
        assert(instr[j].0 != instr[k].0);
    }
    assert forall|j: int, k: int| 0 <= j < ai.len() && 0 <= k < bi.len() implies #[trigger] ai[j]
        != #[trigger] bi[k] by {
        assert(instr[j].0 != instr[k].1);
    }
    assert forall|k: int| 0 <= k < ai.len() implies summable(
        (#[trigger] pair_at(pts, ai, bi, k)).0,
        pair_at(pts, ai, bi, k).1,
    ) by {
        let (i, j) = instr[k];
    }
    assert forall|j: int, k: int|
        0 <= j < bi.len() && 0 <= k < bi.len() && j != k && #[trigger] bi[j]
            == #[trigger] bi[k] implies !degenerate_at(pts, ai, bi, j) by {
        if j < k {
            assert(instr[j].1 != instr[k].1);
        } else {
            assert(instr[k].1 != instr[j].1);
        }
    }
}

/// Carrying out the pending instructions reaches the goal.
#[verifier::rlimit(40)]
proof fn lemma_next_round_flush(
    s: Seq<BucketPosition>,
    pos: int,
    cur: Seq<BucketPosition>,
    out: int,
    num_buckets: int,
    o: Seq<Point>,
    pts: Seq<Point>,
    goal: Seq<Point>,
    instr: Seq<(u32, u32)>,
    after: Seq<Point>,
)
    requires
        positions_ok(s, num_buckets, o.len()),
        next_round_state(s, pos, cur, out, num_buckets, o, pts, goal, instr),
        after.len() == pts.len(),
        forall|k: int|
            0 <= k < instr.len() ==> after[(#[trigger] instr[k]).0 as int] == ec_add(
                pts[instr[k].0 as int],
                pts[instr[k].1 as int],
            ),
        forall|i: int|
            0 <= i < pts.len() && untouched(pts, firsts(instr), seconds(instr), i)
                ==> #[trigger] after[i] == pts[i],
    ensures
        next_round_state(
            s,
            pos,
            cur,
            out,
            num_buckets,
            o,
            after,
            after,
            Seq::<(u32, u32)>::empty(),
        ),
{
    let (ai, bi) = (firsts(instr), seconds(instr));
    assert forall|i: int|
        0 <= i < pts.len() && (forall|k: int|
            0 <= k < instr.len() ==> (#[trigger] instr[k]).0 != i && instr[k].1
                != i) implies #[trigger] after[i] == pts[i] by {
        assert forall|k: int| 0 <= k < ai.len() implies #[trigger] ai[k] != i by {
            assert(instr[k].0 != i);
        }
        assert forall|k: int| 0 <= k < bi.len() && #[trigger] bi[k] == i implies !degenerate_at(
            pts,
            ai,
            bi,
            k,
        ) by {
            assert(instr[k].1 != i);
        }
        assert(untouched(pts, ai, bi, i));
    }
    assert forall|t: int| 0 <= t < cur.take(out).len() implies after[(#[trigger] cur.take(
        out,
    )[t]).scalar_index as int] == goal[cur.take(out)[t].scalar_index as int] by {
        let i = cur[t].scalar_index as int;
        assert(cur.take(out)[t].scalar_index < o.len());
        if exists|k: int| 0 <= k < instr.len() && (#[trigger] instr[k]).0 == i {
            let k = choose|k: int| 0 <= k < instr.len() && (#[trigger] instr[k]).0 == i;
            let (a, b) = instr[k];
            assert(after[instr[k].0 as int] == goal[a as int]);
        } else {
            assert forall|k: int| 0 <= k < instr.len() implies (#[trigger] instr[k]).0 != i
                && instr[k].1 != i by {
                assert(cur[t].scalar_index != instr[k].1);
            }
            assert(after[i] == pts[i]);
            assert(goal[i] == pts[i]);
        }
    }
    lemma_paired_same(s.take(pos), cur.take(out), num_buckets, o, goal, after);
    assert forall|k: int| pos <= k < s.len() implies after[(#[trigger] s[k]).scalar_index as int]
        == o[s[k].scalar_index as int] by {
        let i = s[k].scalar_index as int;
        assert(s[k].scalar_index < o.len());
        assert forall|m: int| 0 <= m < instr.len() implies (#[trigger] instr[m]).0 != i
            && instr[m].1 != i by {
            assert(instr[m].0 != s[k].scalar_index);
        }
        assert(after[i] == pts[i]);
    }
    let none = Seq::<(u32, u32)>::empty();
    assert(pending(after, after, none));
    assert(positions_ok(cur.take(out), num_buckets, o.len()));
    assert(paired(s.take(pos), cur.take(out), num_buckets, o, after));
}

/// No bucket in range has more than one point.
pub open spec fn at_most_one(s: Seq<BucketPosition>, num_buckets: int, pts: Seq<Point>) -> bool {
    forall|b: u32| b < num_buckets ==> (#[trigger] members(s, b, pts)).len() <= 1
}

/// A later round: adds every bucket's points in pairs within the buffer, and moves the
/// positions that are left to the front. Returns how many are left, and whether no bucket
/// had more than two.
#[verifier::rlimit(60)]
fn next_round(
    num_buckets: usize,
    new_bases: &mut PointBuf,
    positions: &mut [BucketPosition],
    n: usize,
    scratch: &mut Scratch,
) -> (r: (usize, bool))
    requires
        old(new_bases).wf(),
        n <= old(positions)@.len(),
        positions_ok(
            old(positions)@.take(n as int),
            num_buckets as int,
            old(new_bases)@.len(),
        ),
        forall|b: u32|
            b < num_buckets ==> tree_ok(
                #[trigger] members(old(positions)@.take(n as int), b, old(new_bases)@),
            ),
    ensures
        final(positions)@.len() == old(positions)@.len(),
        final(new_bases).wf(),
        final(new_bases)@.len() == old(new_bases)@.len(),
        r.0 <= n,
        positions_ok(
            final(positions)@.take(r.0 as int),
            num_buckets as int,
            final(new_bases)@.len(),
        ),
        paired(
            old(positions)@.take(n as int),
            final(positions)@.take(r.0 as int),
            num_buckets as int,
            old(new_bases)@,
            final(new_bases)@,
        ),
        r.1 == at_most_two(
            old(positions)@.take(n as int),
            num_buckets as int,
            old(new_bases)@,
        ),
        r.0 == n ==> at_most_one(
            old(positions)@.take(n as int),
            num_buckets as int,
            old(new_bases)@,
        ),
{
    let batch_size: usize = ifma_batch_size(new_bases.len());
    let ghost (s, nb, o) = (positions@.take(n as int), num_buckets as int, new_bases@);
    let ghost total = positions@.len();
    let ghost mut goal = o;
    let mut instr: Vec<(u32, u32)> = Vec::with_capacity(batch_size);
    let mut all_ones: bool = true;
    let mut start: usize = 0;
    let mut out: usize = 0;
    let mut in_batch: usize = 0;
    proof {
        assert(s.take(0) =~= Seq::<BucketPosition>::empty());
        assert forall|b: u32| b < nb implies #[trigger] members(s.take(0), b, goal) == pair_up(
            members(s.take(0), b, o),
        ) by {
            assert(members(s.take(0), b, goal) =~= pair_up(members(s.take(0), b, o)));
        }
        assert(next_round_state(s, 0, s, 0, nb, o, o, goal, instr@));
        assert(at_most_two(s.take(0), nb, o));
        assert(at_most_one(s.take(0), nb, o));
    }
    while start < n
        invariant
            n == s.len(),
            positions@.len() == total,
            n <= total,
            start <= n,
            in_batch <= start,
            nb == num_buckets,
            new_bases.wf(),
            positions_ok(s, nb, o.len()),
            forall|b: u32| b < nb ==> tree_ok(#[trigger] members(s, b, o)),
            next_round_state(
                s,
                start as int,
                positions@.take(n as int),
                out as int,
                nb,
                o,
                new_bases@,
                goal,
                instr@,
            ),
            0 < start < n ==> s[start - 1].bucket_index < s[start as int].bucket_index,
            forall|t: int|
                0 <= t < out && start < n ==> (#[trigger] positions@[t]).bucket_index
                    <= s[start as int].bucket_index,
            all_ones == at_most_two(s.take(start as int), nb, o),
            out == start ==> at_most_one(s.take(start as int), nb, o),
        decreases n - start,
    {
        let end: usize = run_end(positions, start, n);
        let current: u32 = positions[start].bucket_index;
        proof {
            let cur = positions@.take(n as int);
            assert(cur[start as int] == s[start as int]);
            assert forall|k: int| start <= k < end implies (#[trigger] s[k]).bucket_index
                == current by {
                assert(cur[k] == s[k]);
                assert(positions@[k] == s[k]);
            }
            assert forall|k: int| 0 <= k < start implies (#[trigger] s.take(
                start as int,
            )[k]).bucket_index != current by {
                assert(s[k].bucket_index <= s[start - 1].bucket_index);
            }
            lemma_members_none(s.take(start as int), current);
            assert(members(s.take(start as int), current, o).len() == 0);
            if end < n {
                assert(cur[end as int] == s[end as int]);
                assert(positions@[end as int] == s[end as int]);
                assert(s[end - 1].bucket_index == current);
                assert(s[end - 1].bucket_index <= s[end as int].bucket_index);
            }
            assert(s[start as int].bucket_index < nb);
            lemma_count_run(s, start as int, end as int, current, nb, o);
            lemma_run_members(s, start as int, end as int, current, o);
        }
        if end - start > 2 {
            all_ones = false;
        }
        let ghost out_before = out;
        let mut pos: usize = start;
        while end - pos >= 2
            invariant
                n == s.len(),
                positions@.len() == total,
                n <= total,
                start <= pos <= end <= n,
                (pos - start) % 2 == 0,
                in_batch <= pos,
                out_before <= start,
                out == out_before + (pos - start) / 2,
                nb == num_buckets,
                current < nb,
                new_bases.wf(),
                positions_ok(s, nb, o.len()),
                forall|k: int| start <= k < end ==> (#[trigger] s[k]).bucket_index == current,
                forall|b: u32| b < nb ==> tree_ok(#[trigger] members(s, b, o)),
                next_round_state(
                    s,
                    pos as int,
                    positions@.take(n as int),
                    out as int,
                    nb,
                    o,
                    new_bases@,
                    goal,
                    instr@,
                ),
                members(s.take(pos as int), current, o).len() == pos - start,
                forall|t: int|
                    0 <= t < out ==> (#[trigger] positions@[t]).bucket_index <= current,
            decreases end - pos,
        {
            let ghost cur = positions@.take(n as int);
            let kept: BucketPosition = positions[pos];
            let second: u32 = positions[pos + 1].scalar_index;
            let ghost before = instr@;
            instr.push((kept.scalar_index, second));
            positions[out] = kept;
            proof {
                assert(cur[pos as int] == s[pos as int]);
                assert(cur[pos + 1] == s[pos + 1]);
                assert(s[pos as int].bucket_index == current);
                assert(s[pos + 1].bucket_index == current);
                // The two points are an adjacent pair of the bucket.
                let m = pos - start;
                let whole = members(s, current, o);
                lemma_member_at(s, pos as int, current, o);
                lemma_member_at(s, pos + 1, current, o);
                lemma_run_members(s, start as int, pos + 1, current, o);
                lemma_run_members(s, start as int, pos as int, current, o);
                assert(members(s.take(pos + 1), current, o).len() == m + 1);
                assert(whole[m] == o[s[pos as int].scalar_index as int]);
                assert(whole[m + 1] == o[s[pos + 1].scalar_index as int]);
                assert(tree_ok(whole));
                let h = m / 2;
                assert(2 * h == m);
                assert(summable(whole[2 * h], whole[2 * h + 1]));
                goal = lemma_next_round_pair(
                    s,
                    pos as int,
                    cur,
                    out as int,
                    nb,
                    o,
                    new_bases@,
                    goal,
                    before,
                );
                assert(positions@.take(n as int) =~= cur.update(out as int, s[pos as int]));
            }
            out += 1;
            pos += 2;
            in_batch += 1;
        }
        if pos < end {
            let ghost cur = positions@.take(n as int);
            let kept: BucketPosition = positions[pos];
            positions[out] = kept;
            proof {
                assert(cur[pos as int] == s[pos as int]);
                assert(s[pos as int].bucket_index == current);
                lemma_next_round_single(
                    s,
                    pos as int,
                    cur,
                    out as int,
                    nb,
                    o,
                    new_bases@,
                    goal,
                    instr@,
                );
                assert(positions@.take(n as int) =~= cur.update(out as int, s[pos as int]));
            }
            out += 1;
        }
        if in_batch >= batch_size / 2 {
            let ghost pts = new_bases@;
            proof {
                lemma_pending_ok(new_bases@, goal, instr@);
            }
            batch_add_in_place_with(new_bases, instr.as_slice(), scratch);
            proof {
                lemma_next_round_flush(
                    s,
                    end as int,
                    positions@.take(n as int),
                    out as int,
                    nb,
                    o,
                    pts,
                    goal,
                    instr@,
                    new_bases@,
                );
                goal = new_bases@;
            }
            instr.clear();
            in_batch = 0;
            assert(instr@ =~= Seq::<(u32, u32)>::empty());
        }
        proof {
            assert forall|t: int| 0 <= t < out && end < n implies (#[trigger] positions@[t]).bucket_index
                <= s[end as int].bucket_index by {
                assert(positions@[t].bucket_index <= current);
            }
            if out == end {
                assert(end - start == 1 && out_before == start);
                assert forall|b: u32| b < nb implies (#[trigger] members(
                    s.take(end as int),
                    b,
                    o,
                )).len() <= 1 by {
                    assert(members(s.take(start as int), b, o).len() <= 1);
                }
            }
        }
        start = end;
    }
    if instr.len() > 0 {
        let ghost pts = new_bases@;
        proof {
            lemma_pending_ok(new_bases@, goal, instr@);
        }
        batch_add_in_place_with(new_bases, instr.as_slice(), scratch);
        proof {
            lemma_next_round_flush(
                s,
                n as int,
                positions@.take(n as int),
                out as int,
                nb,
                o,
                pts,
                goal,
                instr@,
                new_bases@,
            );
        }
    } else {
        proof {
            assert(goal =~= new_bases@);
        }
    }
    proof {
        assert(s.take(n as int) =~= s);
        assert(positions@.take(n as int).take(out as int) =~= positions@.take(out as int));
    }
    (out, all_ones)
}

/// What stands in the list stands in its bucket.
proof fn lemma_of_bucket_has(s: Seq<BucketPosition>, k: int)
    requires
        0 <= k < s.len(),
    ensures
        of_bucket(s, s[k].bucket_index).contains(s[k]),
    decreases s.len(),
{
    let b = s[k].bucket_index;
    let r = s.drop_last();
    if k == s.len() - 1 {
        let bucket = of_bucket(s, b);
        assert(bucket[bucket.len() - 1] == s[k]);
    } else {
        lemma_of_bucket_has(r, k);
        let i = choose|i: int| 0 <= i < of_bucket(r, b).len() && of_bucket(r, b)[i] == r[k];
        assert(of_bucket(s, b)[i] == s[k]);
    }
}

/// The first `m` positions stand for the buckets in range that are not empty, each once and
/// in ascending order.
pub open spec fn lists_buckets(
    after: Seq<BucketPosition>,
    m: int,
    before: Seq<BucketPosition>,
    num_buckets: int,
) -> bool {
    &&& 0 <= m <= after.len()
    &&& in_bucket_order(after.take(m))
    &&& forall|t: int| 0 <= t < m ==> (#[trigger] after[t]).bucket_index < num_buckets
    &&& forall|b: u32|
        b < num_buckets ==> (#[trigger] of_bucket(after.take(m), b)).len() == (if of_bucket(
            before,
            b,
        ).len() > 0 {
            1nat
        } else {
            0
        })
}

/// What holds between the rounds: every bucket still has the sum that it is to have.
spec fn between_rounds(
    s: Seq<BucketPosition>,
    bases: Seq<Point>,
    cur: Seq<BucketPosition>,
    pts: Seq<Point>,
    num_buckets: int,
) -> bool {
    &&& positions_ok(cur, num_buckets, pts.len())
    &&& forall|b: u32|
        b < num_buckets ==> {
            let m = #[trigger] members(cur, b, pts);
            &&& tree_sum(m) == tree_sum(members(s, b, bases))
            &&& tree_ok(m)
            &&& (m.len() > 0 <==> members(s, b, bases).len() > 0)
        }
}

/// A round leaves every bucket's sum as it was, and its flag says whether it was the last.
proof fn lemma_round(
    s: Seq<BucketPosition>,
    bases: Seq<Point>,
    cur: Seq<BucketPosition>,
    pts: Seq<Point>,
    next: Seq<BucketPosition>,
    sums: Seq<Point>,
    num_buckets: int,
)
    requires
        positions_ok(next, num_buckets, sums.len()),
        paired(cur, next, num_buckets, pts, sums),
        forall|b: u32|
            b < num_buckets ==> {
                let m = #[trigger] members(cur, b, pts);
                &&& tree_sum(m) == tree_sum(members(s, b, bases))
                &&& tree_ok(m)
                &&& (m.len() > 0 <==> members(s, b, bases).len() > 0)
            },
    ensures
        between_rounds(s, bases, next, sums, num_buckets),
        at_most_one(next, num_buckets, sums) <==> at_most_two(cur, num_buckets, pts),
{
    assert forall|b: u32| b < num_buckets implies {
        let m = #[trigger] members(next, b, sums);
        &&& tree_sum(m) == tree_sum(members(s, b, bases))
        &&& tree_ok(m)
        &&& (m.len() > 0 <==> members(s, b, bases).len() > 0)
    } by {
        let m = members(cur, b, pts);
        assert(members(next, b, sums) == pair_up(m));
        lemma_round_keeps_sum(m);
    }
    if at_most_two(cur, num_buckets, pts) {
        assert forall|b: u32| b < num_buckets implies (#[trigger] members(next, b, sums)).len() <= 1 by {
            assert(members(cur, b, pts).len() <= 2);
        }
    }
    if at_most_one(next, num_buckets, sums) {
        assert forall|b: u32| b < num_buckets implies (#[trigger] members(cur, b, pts)).len() <= 2 by {
            assert(members(next, b, sums).len() <= 1);
        }
    }
}

/// Adds up the points of every bucket: entry `b` of the result is the sum of the points that
/// `bucket_positions` puts into bucket `b`, and the point at infinity where there are none.
/// Positions outside the `num_buckets` buckets are left out. The positions are used up; what
/// stays of them lists the buckets that have points.
#[verifier::rlimit(40)]
pub fn batch_add(
    num_buckets: usize,
    bases_ifma: &PointBuf,
    bucket_positions: &mut [BucketPosition],
) -> (res: Vec<G1Affine>)
    requires
        bases_ifma.wf(),
        bases_ifma@.len() > 0,
        bases_ifma@.len() >= old(bucket_positions)@.len(),
        old(bucket_positions)@.len() <= u32::MAX,
        2 * old(bucket_positions)@.len() <= usize::MAX,
        forall|k: int|
            0 <= k < old(bucket_positions)@.len() && (#[trigger] old(
                bucket_positions,
            )@[k]).bucket_index < num_buckets ==> old(bucket_positions)@[k].scalar_index
                < bases_ifma@.len() && old(bucket_positions)@[k].scalar_index != ALONE,
        forall|b: u32|
            b < num_buckets ==> tree_ok(
                #[trigger] members(old(bucket_positions)@, b, bases_ifma@),
            ),
    ensures
        res@.len() == num_buckets,
        forall|b: u32|
            b < num_buckets ==> (#[trigger] res@[b as int]).wf() && res@[b as int]@ == tree_sum(
                members(old(bucket_positions)@, b, bases_ifma@),
            ),
        final(bucket_positions)@.len() == old(bucket_positions)@.len(),
        exists|m: int|
            lists_buckets(
                final(bucket_positions)@,
                m,
                old(bucket_positions)@,
                num_buckets as int,
            ),
{
    let ghost (s0, nb, o) = (bucket_positions@, num_buckets as int, bases_ifma@);
    let batch_size: usize = ifma_batch_size(bases_ifma.len());
    sort_by_bucket(bucket_positions);
    let ghost s = bucket_positions@;
    proof {
        assert forall|k: int|
            0 <= k < s.len() && (#[trigger] s[k]).bucket_index < nb implies s[k].scalar_index
            < o.len() && s[k].scalar_index != ALONE by {
            let b = s[k].bucket_index;
            lemma_of_bucket_has(s, k);
            assert(of_bucket(s, b) == of_bucket(s0, b));
            let i = choose|i: int| 0 <= i < of_bucket(s, b).len() && of_bucket(s, b)[i] == s[k];
            lemma_of_bucket_from(s0, b);
            assert(s0.contains(of_bucket(s0, b)[i]));
            let j = choose|j: int| 0 <= j < s0.len() && s0[j] == s[k];
            assert(s0[j].bucket_index < nb);
        }
        assert forall|b: u32| b < nb implies tree_ok(#[trigger] members(s, b, o)) && members(
            s,
            b,
            o,
        ) == members(s0, b, o) by {
            assert(of_bucket(s, b) == of_bucket(s0, b));
            assert(tree_ok(members(s0, b, o)));
        }
    }
    let mut new_bases: PointBuf = PointBuf::with_capacity(bases_ifma.len());
    let mut scratch: Scratch = Scratch::with_capacity(batch_size);
    let (left, last) = first_round(
        num_buckets,
        bases_ifma,
        bucket_positions,
        &mut new_bases,
        &mut scratch,
    );
    let mut num_scalars: usize = left;
    let mut all_ones: bool = last;
    proof {
        let cur = bucket_positions@.take(num_scalars as int);
        assert(s.take(s.len() as int) =~= s);
        assert forall|k: int| 0 <= k < cur.len() implies (#[trigger] cur[k]).bucket_index < nb
            && cur[k].scalar_index < new_bases@.len() && cur[k].scalar_index == k by {
            assert(bucket_positions@[k].scalar_index == k);
        }
        assert(positions_ok(cur, nb, new_bases@.len()));
        lemma_round(s, o, s, o, cur, new_bases@, nb);
    }
    while !all_ones
        invariant
            nb == num_buckets,
            bucket_positions@.len() == s.len(),
            num_scalars <= s.len(),
            new_bases.wf(),
            between_rounds(s, o, bucket_positions@.take(num_scalars as int), new_bases@, nb),
            all_ones == at_most_one(
                bucket_positions@.take(num_scalars as int),
                nb,
                new_bases@,
            ),
        decreases num_scalars,
    {
        let ghost (cur, pts) = (bucket_positions@.take(num_scalars as int), new_bases@);
        let (left, last) = next_round(
            num_buckets,
            &mut new_bases,
            bucket_positions,
            num_scalars,
            &mut scratch,
        );
        proof {
            lemma_round(
                s,
                o,
                cur,
                pts,
                bucket_positions@.take(left as int),
                new_bases@,
                nb,
            );
        }
        num_scalars = left;
        all_ones = last;
    }

    let mut res: Vec<G1Affine> = Vec::with_capacity(num_buckets);
    let zero: G1Affine = G1Affine::zero();
    let mut i: usize = 0;
    while i < num_buckets
        invariant
            i <= num_buckets,
            res@.len() == i,
            zero.wf(),
            forall|k: int| 0 <= k < i ==> #[trigger] res@[k] == zero,
        decreases num_buckets - i,
    {
        res.push(zero);
        i += 1;
    }
    let ghost cur = bucket_positions@.take(num_scalars as int);
    proof {
        assert(cur.take(0) =~= Seq::<BucketPosition>::empty());
        assert forall|b: u32| b < nb implies (#[trigger] res@[b as int]).wf() && res@[b as int]@
            == tree_sum(members(cur.take(0), b, new_bases@)) by {
            assert(members(cur.take(0), b, new_bases@).len() == 0);
        }
    }
    let mut t: usize = 0;
    while t < num_scalars
        invariant
            t <= num_scalars,
            num_scalars <= bucket_positions@.len(),
            cur == bucket_positions@.take(num_scalars as int),
            nb == num_buckets,
            new_bases.wf(),
            positions_ok(cur, nb, new_bases@.len()),
            at_most_one(cur, nb, new_bases@),
            res@.len() == num_buckets,
            forall|b: u32|
                b < nb ==> (#[trigger] res@[b as int]).wf() && res@[b as int]@ == tree_sum(
                    members(cur.take(t as int), b, new_bases@),
                ),
        decreases num_scalars - t,
    {
        let position: BucketPosition = bucket_positions[t];
        assert(position == cur[t as int]);
        let ghost before = res@;
        let sum: G1Affine = new_bases.get(position.scalar_index as usize);
        res.set(position.bucket_index as usize, sum);
        proof {
            assert(cur.take(t + 1) =~= cur.take(t as int).push(position));
            assert forall|b: u32| b < nb implies (#[trigger] res@[b as int]).wf() && res@[b as int]@
                == tree_sum(members(cur.take(t + 1), b, new_bases@)) by {
                assert(before[b as int].wf());
                lemma_members_push(cur.take(t as int), position, b, new_bases@);
                lemma_member_at(cur, t + 1, b, new_bases@);
                assert(members(cur, b, new_bases@).len() <= 1);
            }
        }
        t += 1;
    }
    proof {
        assert(cur.take(num_scalars as int) =~= cur);
        assert forall|b: u32| b < nb implies (#[trigger] res@[b as int]).wf() && res@[b as int]@
            == tree_sum(members(s0, b, o)) by {
            assert(of_bucket(s, b) == of_bucket(s0, b));
            assert(tree_sum(members(cur, b, new_bases@)) == tree_sum(members(s, b, o)));
        }
        assert forall|b: u32| b < nb implies (#[trigger] of_bucket(cur, b)).len() == (if of_bucket(
            s0,
            b,
        ).len() > 0 {
            1nat
        } else {
            0
        }) by {
            assert(of_bucket(s, b) == of_bucket(s0, b));
            assert(members(cur, b, new_bases@).len() <= 1);
            assert(members(cur, b, new_bases@).len() > 0 <==> members(s, b, o).len() > 0);
        }
        assert forall|t: int| 0 <= t < num_scalars implies (
        #[trigger] bucket_positions@[t]).bucket_index < nb by {
            assert(cur[t].bucket_index < nb);
        }
        assert(lists_buckets(bucket_positions@, num_scalars as int, s0, nb));
    }
    res
}

} // verus!
