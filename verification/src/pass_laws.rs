//! What the two passes of a batched addition compute for one pair, in plain numbers, and what
//! a batch leaves in the scratch.

use crate::arith::{lemma_add_congruent, lemma_mul_congruent, lemma_sub_congruent};
use crate::curve::{factor, finished, peeled, staged_first, staged_second, triple_square, Point};
use crate::field::{fadd, fmul, fsub, lemma_modulus, modulus};
use crate::fq8::Fq8;
use crate::ifma::{canonical, decode, lemma_constants, HALF};
use crate::ifma_batch_add::written_pairs;
use vstd::arithmetic::div_mod::*;
use vstd::arithmetic::mul::*;
use vstd::prelude::*;

verus! {

proof fn lemma_triple(x: int)
    ensures
        triple_square(x) == (3 * (x * x)) % modulus(),
{
    let m = modulus();
    lemma_modulus();
    let square = fmul(x, x);
    lemma_mod_twice(x * x, m);
    lemma_add_congruent(square, x * x, square, x * x, m);
    lemma_mod_twice(square + square, m);
    lemma_add_congruent(fadd(square, square), x * x + x * x, square, x * x, m);
}

/// The first pass leaves a pair with an operand at infinity as it is, and marks both points of
/// an opposite pair as infinite; neither takes part in the running product.
pub proof fn lemma_staged_apart(p: Point, q: Point, before: int, half: int)
    ensures
        p.infinity || q.infinity ==> {
            &&& staged_first(p, q, before) == p
            &&& staged_second(p, q, half) == q
            &&& factor(p, q) == 1
        },
        !p.infinity && !q.infinity && p.x == q.x && p.y != q.y ==> {
            &&& staged_first(p, q, before) == (Point { x: p.x, y: p.y, infinity: true })
            &&& staged_second(p, q, half) == (Point { x: q.x, y: q.y, infinity: true })
            &&& factor(p, q) == 1
        },
{
}

/// Of two finite points over different abscissas, the first pass leaves the second one alone.
/// The first one becomes the difference of the abscissas, which is what the pair multiplies the
/// running product by, and the difference of the ordinates times the running product.
pub proof fn lemma_staged_chord(p: Point, q: Point, before: int, half: int)
    requires
        !p.infinity,
        !q.infinity,
        p.x != q.x,
    ensures
        staged_second(p, q, half) == q,
        !staged_first(p, q, before).infinity,
        staged_first(p, q, before).x == (p.x - q.x) % modulus(),
        staged_first(p, q, before).y == ((p.y - q.y) * before) % modulus(),
        factor(p, q) == (p.x - q.x) % modulus(),
{
    lemma_modulus();
    lemma_mul_mod_noop_left(p.y - q.y, before, modulus());
}

/// Of a finite point that is doubled, the first pass makes twice the ordinate, which is what
/// the pair multiplies the running product by, and three times the square of the abscissa times
/// the running product. The second operand is moved so that the second pass can take the pair
/// for a chord.
pub proof fn lemma_staged_tangent(p: Point, before: int, half: int)
    requires
        !p.infinity,
    ensures
        !staged_first(p, p, before).infinity,
        staged_first(p, p, before).x == (2 * p.y) % modulus(),
        staged_first(p, p, before).y == (3 * (p.x * p.x) * before) % modulus(),
        factor(p, p) == (2 * p.y) % modulus(),
        !staged_second(p, p, half).infinity,
        staged_second(p, p, half).x == (p.x - p.y) % modulus(),
        staged_second(p, p, half).y == (p.y - 3 * (p.x * p.x) * half) % modulus(),
{
    let m = modulus();
    let t = 3 * (p.x * p.x);
    lemma_modulus();
    lemma_triple(p.x);
    lemma_mul_mod_noop_left(t, before, m);
    lemma_mul_mod_noop_left(t, half, m);
    lemma_mod_twice(t * half, m);
    lemma_sub_congruent(p.y, p.y, fmul(triple_square(p.x), half), t * half, m);
}

/// The second pass takes the other operand where one is at infinity. Otherwise the line has the
/// slope that the staged ordinate times the inverse gives, and the inverse loses the factor that
/// the first point holds.
pub proof fn lemma_second_pass(a: Point, b: Point, inverse: int)
    ensures
        a.infinity ==> finished(a, b, inverse) == b && peeled(a, b, inverse) == inverse,
        b.infinity && !a.infinity ==> finished(a, b, inverse) == a && peeled(a, b, inverse)
            == inverse,
        !a.infinity && !b.infinity ==> {
            let s = a.y * inverse;
            let r = finished(a, b, inverse);
            &&& !r.infinity
            &&& r.x == (s * s - a.x - 2 * b.x) % modulus()
            &&& r.y == (s * (b.x - r.x) - b.y) % modulus()
            &&& peeled(a, b, inverse) == (inverse * a.x) % modulus()
        },
{
    let m = modulus();
    lemma_modulus();
    if !a.infinity && !b.infinity {
        let s = a.y * inverse;
        let t = fmul(a.y, inverse);
        lemma_mod_twice(s, m);
        lemma_mul_congruent(t, s, t, s, m);
        lemma_mod_twice(t * t, m);
        lemma_mod_twice(b.x + b.x, m);
        lemma_add_congruent(a.x, a.x, fadd(b.x, b.x), b.x + b.x, m);
        lemma_mod_twice(a.x + fadd(b.x, b.x), m);
        lemma_sub_congruent(
            fmul(t, t),
            s * s,
            fadd(a.x, fadd(b.x, b.x)),
            a.x + (b.x + b.x),
            m,
        );
        let x = finished(a, b, inverse).x;
        lemma_mod_twice(b.x - x, m);
        lemma_mul_congruent(t, s, fsub(b.x, x), b.x - x, m);
        lemma_mod_twice(t * fsub(b.x, x), m);
        lemma_sub_congruent(fmul(t, fsub(b.x, x)), s * (b.x - x), b.y, b.y, m);
    }
}

/// Half of one is what twice gives one.
pub proof fn lemma_half()
    ensures
        canonical(HALF@),
        (2 * decode(HALF@)) % modulus() == 1,
{
    lemma_constants();
}

/// Limb `j` of element `l` stands in row `j`, at `l`.
pub proof fn lemma_lanes(x: Fq8, l: int)
    requires
        0 <= l < 8,
    ensures
        x.lane(l).len() == 8,
        forall|j: int| 0 <= j < 8 ==> #[trigger] x.lane(l)[j] == x.0[j][l],
        x.canonical() ==> canonical(x.lane(l)),
{
}

/// Writing one instruction more leaves one pair more in the scratch, unless it has no second
/// operand: where its sum stands in the output, and the second operand.
pub proof fn lemma_written_pairs_push(start: nat, index: Seq<(u32, u32)>, i: u32, j: u32)
    ensures
        written_pairs(start, Seq::<(u32, u32)>::empty()) == Seq::<(usize, usize)>::empty(),
        j == 0xffffffff ==> written_pairs(start, index.push((i, j))) == written_pairs(start, index),
        j != 0xffffffff ==> written_pairs(start, index.push((i, j))) == written_pairs(
            start,
            index,
        ).push(((start + index.len()) as usize, j as usize)),
{
    assert(index.push((i, j)).drop_last() =~= index);
}

} // verus!
