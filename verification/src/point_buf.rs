//! A buffer of affine points whose coordinates live in the eight-lane domain.

use crate::curve::{is_point, G1Affine, Point};
use crate::domain::{from_ifma, regroup_raw, shift_into_domain_slice, to_ifma};
use crate::field::{lemma_modulus, modulus};
use crate::ifma::{canonical, decode, lemma_decode_injective, limbs_ok, r416_inv, val, LIMBS};
use vstd::arithmetic::div_mod::lemma_mod_bound;
use vstd::prelude::*;

verus! {

/// Affine points held in the domain for as long as the buffer lives, so that the domain
/// conversion is paid once rather than once per addition.
pub struct PointBuf {
    pub(crate) x: Vec<[u64; LIMBS]>,
    pub(crate) y: Vec<[u64; LIMBS]>,
    pub(crate) infinity: Vec<bool>,
}

impl PointBuf {
    /// The three columns have one length, and every coordinate is canonical.
    pub closed spec fn wf(self) -> bool {
        &&& self.x@.len() == self.infinity@.len()
        &&& self.y@.len() == self.infinity@.len()
        &&& forall|i: int| 0 <= i < self.x@.len() ==> canonical(#[trigger] self.x@[i]@)
        &&& forall|i: int| 0 <= i < self.y@.len() ==> canonical(#[trigger] self.y@[i]@)
    }

    /// The points in the buffer.
    pub closed spec fn view(self) -> Seq<Point> {
        Seq::new(
            self.infinity@.len(),
            |i: int| Point {
                x: decode(self.x@[i]@),
                y: decode(self.y@[i]@),
                infinity: self.infinity@[i],
            },
        )
    }

    /// The contents of the columns at one position.
    pub(crate) proof fn lemma_at(self, i: int)
        requires
            self.wf(),
            0 <= i < self@.len(),
        ensures
            self@.len() == self.x@.len(),
            self@.len() == self.y@.len(),
            self@.len() == self.infinity@.len(),
            canonical(self.x@[i]@),
            canonical(self.y@[i]@),
            self@[i].x == decode(self.x@[i]@),
            self@[i].y == decode(self.y@[i]@),
            self@[i].infinity == self.infinity@[i],
            is_point(self@[i]),
    {
        lemma_modulus();
        lemma_mod_bound(val(self.x@[i]@) * r416_inv(), modulus());
        lemma_mod_bound(val(self.y@[i]@) * r416_inv(), modulus());
    }

    /// Everything in the buffer is a point.
    pub proof fn lemma_points(self)
        requires
            self.wf(),
        ensures
            forall|i: int| 0 <= i < self@.len() ==> is_point(#[trigger] self@[i]),
    {
        assert forall|i: int| 0 <= i < self@.len() implies is_point(#[trigger] self@[i]) by {
            self.lemma_at(i);
        }
    }

    /// The columns of the buffer, point by point: the limbs of the two coordinates, and the
    /// infinity flag.
    pub closed spec fn limbs(self) -> Seq<(Seq<u64>, Seq<u64>, bool)> {
        Seq::new(
            self.infinity@.len(),
            |i: int| (self.x@[i]@, self.y@[i]@, self.infinity@[i]),
        )
    }

    /// Buffers that hold the same points hold the same limbs.
    pub proof fn lemma_same_limbs(self, other: Self)
        requires
            self.wf(),
            other.wf(),
            self@ == other@,
        ensures
            self.limbs() == other.limbs(),
    {
        assert forall|i: int| 0 <= i < self@.len() implies self.limbs()[i] == other.limbs()[i] by {
            self.lemma_at(i);
            other.lemma_at(i);
            lemma_decode_injective(self.x@[i]@, other.x@[i]@);
            lemma_decode_injective(self.y@[i]@, other.y@[i]@);
        }
        assert(self@.len() == self.infinity@.len() && other@.len() == other.infinity@.len());
        assert(self.limbs() =~= other.limbs());
    }

    /// Converts affine points into the domain. The domain shift is done in bulk, since
    /// converting element by element costs more than the arithmetic it feeds.
    pub fn from_affine(points: &[G1Affine], available: bool) -> (buf: Self)
        ensures
            buf.wf(),
            buf@.len() == points@.len(),
            forall|i: int| 0 <= i < points@.len() ==> #[trigger] buf@[i] == points@[i]@,
    {
        let mut xs: Vec<[u64; LIMBS]> = Vec::with_capacity(points.len());
        let mut ys: Vec<[u64; LIMBS]> = Vec::with_capacity(points.len());
        let mut infinity: Vec<bool> = Vec::with_capacity(points.len());
        let mut i: usize = 0;
        while i < points.len()
            invariant
                i <= points@.len(),
                xs@.len() == i,
                ys@.len() == i,
                infinity@.len() == i,
                forall|k: int|
                    0 <= k < i ==> limbs_ok(#[trigger] xs@[k]@) && crate::domain::decode_raw(xs@[k]@)
                        == points@[k].x@,
                forall|k: int|
                    0 <= k < i ==> limbs_ok(#[trigger] ys@[k]@) && crate::domain::decode_raw(ys@[k]@)
                        == points@[k].y@,
                forall|k: int| 0 <= k < i ==> #[trigger] infinity@[k] == points@[k].infinity,
            decreases points@.len() - i,
        {
            xs.push(regroup_raw(&points[i].x));
            ys.push(regroup_raw(&points[i].y));
            infinity.push(points[i].infinity);
            i += 1;
        }
        let ghost (raw_x, raw_y) = (xs@, ys@);
        shift_into_domain_slice(xs.as_mut_slice(), available);
        shift_into_domain_slice(ys.as_mut_slice(), available);
        let buf = PointBuf { x: xs, y: ys, infinity };
        proof {
            assert forall|k: int| 0 <= k < points@.len() implies #[trigger] buf@[k] == points@[k]@ by {
                assert(limbs_ok(raw_x[k]@));
                assert(limbs_ok(raw_y[k]@));
                assert(canonical(xs@[k]@));
                assert(canonical(ys@[k]@));
            }
        }
        buf
    }

    /// Creates an empty buffer with room for `capacity` points.
    pub fn with_capacity(capacity: usize) -> (buf: Self)
        ensures
            buf.wf(),
            buf@ == Seq::<Point>::empty(),
    {
        let buf = PointBuf {
            x: Vec::with_capacity(capacity),
            y: Vec::with_capacity(capacity),
            infinity: Vec::with_capacity(capacity),
        };
        assert(buf@ =~= Seq::<Point>::empty());
        buf
    }

    /// Appends one affine point, converting it into the domain.
    pub fn push(&mut self, p: &G1Affine)
        requires
            old(self).wf(),
        ensures
            final(self).wf(),
            final(self)@ == old(self)@.push(p@),
    {
        let ghost start = self@;
        self.x.push(to_ifma(&p.x));
        self.y.push(to_ifma(&p.y));
        self.infinity.push(p.infinity);
        assert(self@ =~= start.push(p@));
    }

    /// Copies the point at `src` of `other` onto the end of this buffer.
    pub fn push_from_other(&mut self, other: &PointBuf, src: usize)
        requires
            old(self).wf(),
            other.wf(),
            src < other@.len(),
        ensures
            final(self).wf(),
            final(self)@ == old(self)@.push(other@[src as int]),
    {
        let ghost start = self@;
        proof {
            other.lemma_at(src as int);
        }
        self.x.push(other.x[src]);
        self.y.push(other.y[src]);
        self.infinity.push(other.infinity[src]);
        assert(self@ =~= start.push(other@[src as int]));
    }

    /// Overwrites the point at `dst` with `other`'s point at `src`.
    pub fn copy_from(&mut self, dst: usize, other: &PointBuf, src: usize)
        requires
            old(self).wf(),
            other.wf(),
            dst < old(self)@.len(),
            src < other@.len(),
        ensures
            final(self).wf(),
            final(self)@ == old(self)@.update(dst as int, other@[src as int]),
    {
        proof {
            other.lemma_at(src as int);
        }
        self.put(dst, other.x[src], other.y[src], other.infinity[src]);
    }

    /// Overwrites the point at `i`.
    pub(crate) fn put(&mut self, i: usize, x: [u64; LIMBS], y: [u64; LIMBS], infinity: bool)
        requires
            old(self).wf(),
            i < old(self)@.len(),
            canonical(x@),
            canonical(y@),
        ensures
            final(self).wf(),
            final(self)@ == old(self)@.update(
                i as int,
                (Point { x: decode(x@), y: decode(y@), infinity }),
            ),
    {
        let ghost start = self@;
        self.x.set(i, x);
        self.y.set(i, y);
        self.infinity.set(i, infinity);
        assert(self@ =~= start.update(
            i as int,
            (Point { x: decode(x@), y: decode(y@), infinity }),
        ));
    }

    /// Converts the point at `i` back to affine form. The coordinates are preserved even
    /// when the infinity flag is set.
    pub fn get(&self, i: usize) -> (p: G1Affine)
        requires
            self.wf(),
            i < self@.len(),
        ensures
            p.wf(),
            p@ == self@[i as int],
    {
        proof {
            self.lemma_at(i as int);
        }
        G1Affine::new(from_ifma(&self.x[i]), from_ifma(&self.y[i]), self.infinity[i])
    }

    /// The number of points in the buffer.
    pub fn len(&self) -> (n: usize)
        requires
            self.wf(),
        ensures
            n == self@.len(),
    {
        self.infinity.len()
    }

    /// Whether the buffer holds no point.
    pub fn is_empty(&self) -> (empty: bool)
        requires
            self.wf(),
        ensures
            empty == (self@.len() == 0),
    {
        self.infinity.len() == 0
    }

    /// Removes every point.
    pub fn clear(&mut self)
        requires
            old(self).wf(),
        ensures
            final(self).wf(),
            final(self)@ == Seq::<Point>::empty(),
    {
        self.x.clear();
        self.y.clear();
        self.infinity.clear();
        assert(self@ =~= Seq::<Point>::empty());
    }

    /// Drops every point from position `n` on.
    pub(crate) fn truncate(&mut self, n: usize)
        requires
            old(self).wf(),
            n <= old(self)@.len(),
        ensures
            final(self).wf(),
            final(self)@ == old(self)@.take(n as int),
    {
        let ghost start = self@;
        self.x.truncate(n);
        self.y.truncate(n);
        self.infinity.truncate(n);
        assert(self@ =~= start.take(n as int));
    }
}

} // verus!
