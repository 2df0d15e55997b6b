//! The eight-lane vector kernel: eight independent operations per call.
//!
//! Each row operation below does to every lane what one 512-bit instruction does, so the
//! functions built from them read as the instruction sequence does.

use crate::field::{fadd, fmul, fsub, lemma_modulus, modulus};
use crate::ifma::{
    canonical, decode, lemma_difference_corrected, lemma_p, lemma_r416, lemma_split,
    lemma_sum_reduced, lemma_value_8, lemma_weights, limbs_ok, r416, r416_inv, radix, val, LANES,
    LIMBS, MASK, N0INV, P, WIDE,
};
use crate::arith::lemma_congruent_by;
use crate::limbs::{
    digits, lemma_add_column, lemma_sub_column, lemma_value_bound, lemma_value_nonnegative,
    lemma_value_same, value, weight,
};
use crate::montgomery::{lemma_clearing, lemma_decode_mul, lemma_round};
use vstd::arithmetic::div_mod::*;
use vstd::arithmetic::mul::*;
use vstd::prelude::*;

verus! {

/// The limbs of lane `l`, out of rows that hold one limb of every lane.
pub open spec fn column(rows: Seq<[u64; LANES]>, l: int) -> Seq<u64> {
    Seq::new(rows.len(), |j: int| rows[j][l])
}

/// The low 52 bits of the product of the low 52 bits of two operands.
spec fn low_product(a: u64, b: u64) -> int {
    ((a as int % radix()) * (b as int % radix())) % radix()
}

/// The high 52 bits of the product of the low 52 bits of two operands.
spec fn high_product(a: u64, b: u64) -> int {
    ((a as int % radix()) * (b as int % radix())) / radix()
}

/// The product of two 52-bit operands and its two halves.
proof fn lemma_halves(a: u64, b: u64)
    ensures
        0 <= low_product(a, b) < radix(),
        0 <= high_product(a, b) < radix(),
        a < radix() && b < radix() ==> low_product(a, b) + high_product(a, b) * radix() == a * b,
{
    let x = a as int % radix();
    let y = b as int % radix();
    assert(0 <= x * y < radix() * radix()) by (nonlinear_arith)
        requires
            0 <= x < radix(),
            0 <= y < radix(),
    ;
    lemma_fundamental_div_mod(x * y, radix());
}

/// The full product of the low 52 bits of two operands.
fn product(a: u64, b: u64) -> (prod: u128)
    ensures
        prod == (a as int % radix()) * (b as int % radix()),
        prod < 0x100000000000000000000000000,
{
    proof {
        lemma_split(a);
        lemma_split(b);
    }
    let x: u64 = a & MASK;
    let y: u64 = b & MASK;
    assert(x * y < 0x100000000000000000000000000) by (nonlinear_arith)
        requires
            x < 0x10000000000000,
            y < 0x10000000000000,
    ;
    (x as u128) * (y as u128)
}

/// Adds the low 52 bits of each product to the accumulator of its lane.
fn madd52lo(acc: &[u64; LANES], a: &[u64; LANES], b: &[u64; LANES]) -> (out: [u64; LANES])
    requires
        forall|l: int| 0 <= l < 8 ==> #[trigger] acc[l] < 0x8000000000000000,
    ensures
        forall|l: int| 0 <= l < 8 ==> #[trigger] out[l] == acc[l] + low_product(a[l], b[l]),
{
    let mut out: [u64; LANES] = [0u64; LANES];
    let mut l: usize = 0;
    while l < LANES
        invariant
            l <= LANES,
            forall|k: int| 0 <= k < 8 ==> #[trigger] acc[k] < 0x8000000000000000,
            forall|k: int| 0 <= k < l ==> #[trigger] out[k] == acc[k] + low_product(a[k], b[k]),
        decreases LANES - l,
    {
        let low: u128 = product(a[l], b[l]) % 0x10000000000000;
        assert(acc[l as int] < 0x8000000000000000);
        out[l] = acc[l] + (low as u64);
        l += 1;
    }
    out
}

/// The high 52 bits of each product.
fn madd52hi(a: &[u64; LANES], b: &[u64; LANES]) -> (out: [u64; LANES])
    ensures
        forall|l: int| 0 <= l < 8 ==> #[trigger] out[l] == high_product(a[l], b[l]),
{
    let mut out: [u64; LANES] = [0u64; LANES];
    let mut l: usize = 0;
    while l < LANES
        invariant
            l <= LANES,
            forall|k: int| 0 <= k < l ==> #[trigger] out[k] == high_product(a[k], b[k]),
        decreases LANES - l,
    {
        let high: u128 = product(a[l], b[l]) / 0x10000000000000;
        out[l] = high as u64;
        l += 1;
    }
    out
}

/// Lane-wise addition of rows that leave room for the sum.
fn add_rows(a: &[u64; LANES], b: &[u64; LANES]) -> (out: [u64; LANES])
    requires
        forall|l: int| 0 <= l < 8 ==> #[trigger] a[l] < 0x8000000000000000,
        forall|l: int| 0 <= l < 8 ==> #[trigger] b[l] < 0x8000000000000000,
    ensures
        forall|l: int| 0 <= l < 8 ==> #[trigger] out[l] == a[l] + b[l],
{
    let mut out: [u64; LANES] = [0u64; LANES];
    let mut l: usize = 0;
    while l < LANES
        invariant
            l <= LANES,
            forall|k: int| 0 <= k < 8 ==> #[trigger] a[k] < 0x8000000000000000,
            forall|k: int| 0 <= k < 8 ==> #[trigger] b[k] < 0x8000000000000000,
            forall|k: int| 0 <= k < l ==> #[trigger] out[k] == a[k] + b[k],
        decreases LANES - l,
    {
        assert(a[l as int] < 0x8000000000000000);
        assert(b[l as int] < 0x8000000000000000);
        out[l] = a[l] + b[l];
        l += 1;
    }
    out
}

/// Splits every lane into its low 52 bits and what lies above them.
fn split_rows(v: &[u64; LANES]) -> (r: ([u64; LANES], [u64; LANES]))
    ensures
        forall|l: int| 0 <= l < 8 ==> #[trigger] r.0[l] == v[l] as int % radix(),
        forall|l: int| 0 <= l < 8 ==> #[trigger] r.1[l] == v[l] as int / radix(),
{
    let mut low: [u64; LANES] = [0u64; LANES];
    let mut high: [u64; LANES] = [0u64; LANES];
    let mut l: usize = 0;
    while l < LANES
        invariant
            l <= LANES,
            forall|k: int| 0 <= k < l ==> #[trigger] low[k] == v[k] as int % radix(),
            forall|k: int| 0 <= k < l ==> #[trigger] high[k] == v[k] as int / radix(),
        decreases LANES - l,
    {
        proof {
            lemma_split(v[l as int]);
        }
        low[l] = v[l] & MASK;
        high[l] = v[l] >> 52;
        l += 1;
    }
    (low, high)
}

/// Lane-wise subtraction with borrow of 52-bit limbs. A negative intermediate sets bit 63,
/// and shifting it down yields the borrow.
fn sub_rows(a: &[u64; LANES], b: &[u64; LANES], borrow: &[u64; LANES]) -> (r: (
    [u64; LANES],
    [u64; LANES],
))
    requires
        forall|l: int| 0 <= l < 8 ==> #[trigger] a[l] < radix(),
        forall|l: int| 0 <= l < 8 ==> #[trigger] b[l] < radix(),
        forall|l: int| 0 <= l < 8 ==> #[trigger] borrow[l] <= 1,
    ensures
        forall|l: int|
            0 <= l < 8 ==> #[trigger] r.0[l] - r.1[l] * radix() == a[l] - b[l] - borrow[l],
        forall|l: int| 0 <= l < 8 ==> #[trigger] r.0[l] < radix(),
        forall|l: int| 0 <= l < 8 ==> #[trigger] r.1[l] <= 1,
{
    let mut low: [u64; LANES] = [0u64; LANES];
    let mut next: [u64; LANES] = [0u64; LANES];
    let mut l: usize = 0;
    while l < LANES
        invariant
            l <= LANES,
            forall|k: int| 0 <= k < 8 ==> #[trigger] a[k] < radix(),
            forall|k: int| 0 <= k < 8 ==> #[trigger] b[k] < radix(),
            forall|k: int| 0 <= k < 8 ==> #[trigger] borrow[k] <= 1,
            forall|k: int|
                0 <= k < l ==> #[trigger] low[k] - next[k] * radix() == a[k] - b[k] - borrow[k],
            forall|k: int| 0 <= k < l ==> #[trigger] low[k] < radix(),
            forall|k: int| 0 <= k < l ==> #[trigger] next[k] <= 1,
        decreases LANES - l,
    {
        assert(a[l as int] < radix());
        assert(b[l as int] < radix());
        assert(borrow[l as int] <= 1);
        let v: u64 = a[l].wrapping_sub(b[l]).wrapping_sub(borrow[l]);
        proof {
            lemma_split(v);
            assert((v >> 63) & 1 == v / 0x8000000000000000) by (bit_vector);
        }
        next[l] = (v >> 63) & 1;
        low[l] = v & MASK;
        l += 1;
    }
    (low, next)
}

/// The same word in every lane.
fn splat(x: u64) -> (out: [u64; LANES])
    ensures
        forall|l: int| 0 <= l < 8 ==> #[trigger] out[l] == x,
{
    [x; LANES]
}

/// Eight field elements, structure-of-arrays: `.0[j]` holds limb `j` of each.
#[derive(Copy, Clone)]
pub struct Fq8(pub [[u64; LANES]; LIMBS]);

impl Fq8 {
    /// The limbs of element `l`.
    pub open spec fn lane(self, l: int) -> Seq<u64> {
        column(self.0@, l)
    }

    /// Every element is canonical.
    pub open spec fn canonical(self) -> bool {
        forall|l: int| 0 <= l < 8 ==> canonical(#[trigger] self.lane(l))
    }

    /// Loads eight field elements.
    pub fn load(elems: &[[u64; LIMBS]; LANES]) -> (out: Self)
        ensures
            forall|l: int| 0 <= l < 8 ==> #[trigger] out.lane(l) == elems[l]@,
    {
        let mut rows: [[u64; LANES]; LIMBS] = [[0u64; LANES]; LIMBS];
        let mut j: usize = 0;
        while j < LIMBS
            invariant
                j <= LIMBS,
                forall|k: int, l: int|
                    0 <= k < j && 0 <= l < 8 ==> #[trigger] rows[k][l] == elems[l][k],
            decreases LIMBS - j,
        {
            rows[j] = [
                elems[0][j],
                elems[1][j],
                elems[2][j],
                elems[3][j],
                elems[4][j],
                elems[5][j],
                elems[6][j],
                elems[7][j],
            ];
            j += 1;
        }
        let out = Fq8(rows);
        assert forall|l: int| 0 <= l < 8 implies #[trigger] out.lane(l) == elems[l]@ by {
            assert(out.lane(l) =~= elems[l]@);
        }
        out
    }

    /// Stores eight field elements back out.
    pub fn store(&self) -> (out: [[u64; LIMBS]; LANES])
        ensures
            forall|l: int| 0 <= l < 8 ==> #[trigger] out[l]@ == self.lane(l),
    {
        let mut out: [[u64; LIMBS]; LANES] = [[0u64; LIMBS]; LANES];
        let mut l: usize = 0;
        while l < LANES
            invariant
                l <= LANES,
                forall|k: int| 0 <= k < l ==> #[trigger] out[k]@ == self.lane(k),
            decreases LANES - l,
        {
            out[l] = [
                self.0[0][l],
                self.0[1][l],
                self.0[2][l],
                self.0[3][l],
                self.0[4][l],
                self.0[5][l],
                self.0[6][l],
                self.0[7][l],
            ];
            assert(out[l as int]@ =~= self.lane(l as int));
            l += 1;
        }
        out
    }
}

/// Rows hold 52-bit limbs in every lane.
spec fn rows_ok(rows: Seq<[u64; LANES]>) -> bool {
    forall|j: int, l: int| 0 <= j < 8 && 0 <= l < 8 ==> #[trigger] rows[j][l] < radix()
}

/// What one round does to the limbs of one lane, from the accumulator `t` to the
/// unnormalized limbs `nt`.
spec fn round_lane(
    t: Seq<u64>,
    a: Seq<u64>,
    bi: u64,
    t1: Seq<u64>,
    m: u64,
    nt: Seq<u64>,
) -> bool {
    &&& t1[0] == t[0] + low_product(a[0], bi)
    &&& forall|j: int|
        1 <= j < 8 ==> #[trigger] t1[j] == t[j] + low_product(a[j], bi) + high_product(
            a[j - 1],
            bi,
        )
    &&& t1[8] == t[8] + high_product(a[7], bi)
    &&& m == low_product(t1[0], N0INV)
    &&& nt[0] == t1[1] + low_product(m, P[1]) + high_product(m, P[0]) + (t1[0] + low_product(
        m,
        P[0],
    )) / radix()
    &&& forall|j: int|
        1 <= j < 7 ==> #[trigger] nt[j] == t1[j + 1] + low_product(m, P[j + 1]) + high_product(
            m,
            P[j],
        )
    &&& nt[7] == t1[8] + high_product(m, P[7])
}

/// Multiplying limb by limb multiplies the value.
proof fn lemma_scaled(s: Seq<u64>, b: u64)
    requires
        digits(s, radix(), 8),
        b < radix(),
    ensures
        value(s, radix(), 8) * b == low_product(s[0], b)
            + (low_product(s[1], b) + high_product(s[0], b)) * 0x10000000000000int
            + (low_product(s[2], b) + high_product(s[1], b)) * 0x100000000000000000000000000int
            + (low_product(s[3], b) + high_product(s[2], b)) * 0x1000000000000000000000000000000000000000int
            + (low_product(s[4], b) + high_product(s[3], b)) * 0x10000000000000000000000000000000000000000000000000000int
            + (low_product(s[5], b) + high_product(s[4], b)) * 0x100000000000000000000000000000000000000000000000000000000000000000int
            + (low_product(s[6], b) + high_product(s[5], b)) * 0x1000000000000000000000000000000000000000000000000000000000000000000000000000000int
            + (low_product(s[7], b) + high_product(s[6], b)) * 0x10000000000000000000000000000000000000000000000000000000000000000000000000000000000000000000int
            + high_product(s[7], b) * 0x100000000000000000000000000000000000000000000000000000000000000000000000000000000000000000000000000000000int,
{
    lemma_value_8(s);
    lemma_weights();
    lemma_halves(s[0], b);
    lemma_halves(s[1], b);
    lemma_halves(s[2], b);
    lemma_halves(s[3], b);
    lemma_halves(s[4], b);
    lemma_halves(s[5], b);
    lemma_halves(s[6], b);
    lemma_halves(s[7], b);
    let w = radix();
    assert((s[0] + s[1] * 0x10000000000000int
            + s[2] * 0x100000000000000000000000000int
            + s[3] * 0x1000000000000000000000000000000000000000int
            + s[4] * 0x10000000000000000000000000000000000000000000000000000int
            + s[5] * 0x100000000000000000000000000000000000000000000000000000000000000000int
            + s[6] * 0x1000000000000000000000000000000000000000000000000000000000000000000000000000000int
            + s[7] * 0x10000000000000000000000000000000000000000000000000000000000000000000000000000000000000000000int) * b
        == s[0] * b + (s[1] * b) * 0x10000000000000int
            + (s[2] * b) * 0x100000000000000000000000000int
            + (s[3] * b) * 0x1000000000000000000000000000000000000000int
            + (s[4] * b) * 0x10000000000000000000000000000000000000000000000000000int
            + (s[5] * b) * 0x100000000000000000000000000000000000000000000000000000000000000000int
            + (s[6] * b) * 0x1000000000000000000000000000000000000000000000000000000000000000000000000000000int
            + (s[7] * b) * 0x10000000000000000000000000000000000000000000000000000000000000000000000000000000000000000000int) by (nonlinear_arith);
}

/// One round multiplies the accumulator's value by the limb, clears the lowest limb with a
/// multiple of the modulus and divides by the radix.
#[verifier::rlimit(40)]
proof fn lemma_round_lane(t: Seq<u64>, a: Seq<u64>, bi: u64, t1: Seq<u64>, m: u64, nt: Seq<u64>)
    requires
        digits(a, radix(), 8),
        bi < radix(),
        round_lane(t, a, bi, t1, m, nt),
    ensures
        value(nt, radix(), 8) * radix() == value(t, radix(), 8) + t[8] * 0x100000000000000000000000000000000000000000000000000000000000000000000000000000000000000000000000000000000int + value(
            a,
            radix(),
            8,
        ) * bi + value(P@, radix(), 8) * m,
        m < radix(),
{
    let w = radix();
    lemma_p();
    lemma_halves(t1[0], N0INV);
    lemma_scaled(a, bi);
    lemma_scaled(P@, m);
    lemma_halves(m, P[0]);
    // The lowest limb becomes a multiple of the radix.
    let x = t1[0] + m * P[0];
    assert(low_product(t1[0], N0INV) == (t1[0] * N0INV) % w) by {
        lemma_mul_mod_noop_general(t1[0] as int, N0INV as int, w);
        lemma_small_mod(N0INV as nat, w as nat);
    }
    lemma_clearing(w, N0INV as int, P[0] as int, t1[0] as int, m as int);
    let y = t1[0] + low_product(m, P[0]);
    lemma_congruent_by(x, y, high_product(m, P[0]), w);
    assert(y % w == 0);
    let carry = y / w;
    lemma_fundamental_div_mod(y, w);
    lemma_value_8(t);
    lemma_value_8(nt);
    lemma_weights();
    assert(nt[1] == t1[1int + 1] + low_product(m, P[1int + 1]) + high_product(m, P[1]));
    assert(nt[2] == t1[2int + 1] + low_product(m, P[2int + 1]) + high_product(m, P[2]));
    assert(nt[3] == t1[3int + 1] + low_product(m, P[3int + 1]) + high_product(m, P[3]));
    assert(nt[4] == t1[4int + 1] + low_product(m, P[4int + 1]) + high_product(m, P[4]));
    assert(nt[5] == t1[5int + 1] + low_product(m, P[5int + 1]) + high_product(m, P[5]));
    assert(nt[6] == t1[6int + 1] + low_product(m, P[6int + 1]) + high_product(m, P[6]));
    assert(t1[1] == t[1] + low_product(a[1], bi) + high_product(a[1int - 1], bi));
    assert(t1[2] == t[2] + low_product(a[2], bi) + high_product(a[2int - 1], bi));
    assert(t1[3] == t[3] + low_product(a[3], bi) + high_product(a[3int - 1], bi));
    assert(t1[4] == t[4] + low_product(a[4], bi) + high_product(a[4int - 1], bi));
    assert(t1[5] == t[5] + low_product(a[5], bi) + high_product(a[5int - 1], bi));
    assert(t1[6] == t[6] + low_product(a[6], bi) + high_product(a[6int - 1], bi));
    assert(t1[7] == t[7] + low_product(a[7], bi) + high_product(a[7int - 1], bi));
}

/// Brings every limb back inside 52 bits, and returns what is carried out of the top one.
#[verifier::rlimit(40)]
fn normalize(nt: &[[u64; LANES]; LIMBS], t: &mut [[u64; LANES]; WIDE])
    requires
        forall|j: int, l: int|
            0 <= j < 8 && 0 <= l < 8 ==> #[trigger] nt[j][l] < 0x100000000000000,
    ensures
        rows_ok(final(t)@),
        forall|l: int|
            0 <= l < 8 ==> value(#[trigger] column(final(t)@, l), radix(), 8) + final(t)[8][l]
                * r416() == value(column(nt@, l), radix(), 8),
        forall|l: int| 0 <= l < 8 ==> (#[trigger] final(t)[8][l]) < 0x20000,
{
    let mut carry: [u64; LANES] = splat(0);
    let mut j: usize = 0;
    while j < LIMBS
        invariant
            j <= LIMBS,
            forall|k: int, l: int|
                0 <= k < 8 && 0 <= l < 8 ==> #[trigger] nt[k][l] < 0x100000000000000,
            forall|l: int| 0 <= l < 8 ==> #[trigger] carry[l] < 0x20000,
            forall|k: int, l: int| 0 <= k < j && 0 <= l < 8 ==> #[trigger] t[k][l] < radix(),
            forall|l: int|
                0 <= l < 8 ==> value(#[trigger] column(t@, l), radix(), j as nat) + carry[l] * weight(
                    radix(),
                    j as nat,
                ) == value(column(nt@, l), radix(), j as nat),
        decreases LIMBS - j,
    {
        let ghost before = *t;
        let ghost old_carry = carry;
        assert forall|l: int| 0 <= l < 8 implies #[trigger] nt[j as int]@[l] < 0x8000000000000000 by {
            assert(nt[j as int][l] < 0x100000000000000);
        }
        let v: [u64; LANES] = add_rows(&nt[j], &carry);
        let (low, high) = split_rows(&v);
        t[j] = low;
        carry = high;
        proof {
            let w = radix();
            assert forall|l: int| 0 <= l < 8 implies #[trigger] carry[l] < 0x20000 by {
                assert(nt[j as int][l] < 0x100000000000000);
                assert(old_carry[l] < 0x20000);
                assert(v[l] == nt[j as int][l] + old_carry[l]);
            }
            assert forall|l: int| 0 <= l < 8 implies value(
                #[trigger] column(t@, l),
                w,
                (j + 1) as nat,
            ) + carry[l] * weight(w, (j + 1) as nat) == value(
                column(nt@, l),
                w,
                (j + 1) as nat,
            ) by {
                let c0 = column(before@, l);
                let c1 = column(t@, l);
                let n = column(nt@, l);
                assert(value(c0, w, j as nat) + old_carry[l] * weight(w, j as nat) == value(
                    n,
                    w,
                    j as nat,
                ));
                lemma_value_same(c0, c1, w, j as nat);
                assert(v[l] == nt[j as int][l] + old_carry[l]);
                lemma_fundamental_div_mod(v[l] as int, w);
                lemma_add_column(
                    w,
                    weight(w, j as nat),
                    value(c1, w, j as nat),
                    old_carry[l] as int,
                    value(n, w, j as nat),
                    0,
                    n[j as int] as int,
                    0,
                    low[l] as int,
                    high[l] as int,
                );
            }
        }
        j += 1;
    }
    let ghost before = *t;
    t[LIMBS] = carry;
    proof {
        assert forall|l: int| 0 <= l < 8 implies value(#[trigger] column(t@, l), radix(), 8)
            + t[8][l] * r416() == value(column(nt@, l), radix(), 8) by {
            lemma_value_same(column(before@, l), column(t@, l), radix(), 8);
            assert(value(column(before@, l), radix(), 8) + carry[l] * weight(radix(), 8) == value(
                column(nt@, l),
                radix(),
                8,
            ));
        }
    }
}

/// One round of the multiplication in every lane: `t := (t + a * bi + m P) / 2^52`, with
/// the multiplier `m` of each lane returned.
#[verifier::rlimit(40)]
fn mul_round(t: &mut [[u64; LANES]; WIDE], a: &Fq8, bi: &[u64; LANES]) -> (m: [u64; LANES])
    requires
        rows_ok(old(t)@),
        rows_ok(a.0@),
        forall|l: int| 0 <= l < 8 ==> (#[trigger] old(t)[8][l]) < 0x20000,
        forall|l: int| 0 <= l < 8 ==> #[trigger] bi[l] < radix(),
    ensures
        rows_ok(final(t)@),
        forall|l: int| 0 <= l < 8 ==> (#[trigger] final(t)[8][l]) < 0x20000,
        forall|l: int| 0 <= l < 8 ==> #[trigger] m[l] < radix(),
        forall|l: int|
            0 <= l < 8 ==> (value(#[trigger] column(final(t)@, l), radix(), 8) + final(t)[8][l]
                * r416()) * radix() == value(column(old(t)@, l), radix(), 8) + old(t)[8][l]
                * r416() + val(a.lane(l)) * bi[l] + modulus() * m[l],
{
    let zero: [u64; LANES] = splat(0);
    let ghost t0 = t@;

    // t += a * b[i]. Each 52x52 product is split across a low and a high half; the high
    // halves belong to the next limb up.
    let mut lo: [[u64; LANES]; LIMBS] = [zero; LIMBS];
    let mut hi: [[u64; LANES]; LIMBS] = [zero; LIMBS];
    let mut j: usize = 0;
    while j < LIMBS
        invariant
            j <= LIMBS,
            t@ == t0,
            rows_ok(t0),
            forall|k: int, l: int|
                0 <= k < j && 0 <= l < 8 ==> #[trigger] lo[k][l] == t0[k][l] + low_product(
                    a.0[k][l],
                    bi[l],
                ),
            forall|k: int, l: int|
                0 <= k < j && 0 <= l < 8 ==> #[trigger] hi[k][l] == high_product(a.0[k][l], bi[l]),
        decreases LIMBS - j,
    {
        assert forall|l: int| 0 <= l < 8 implies #[trigger] t[j as int]@[l] < 0x8000000000000000 by {
            assert(t0[j as int][l] < radix());
        }
        lo[j] = madd52lo(&t[j], &a.0[j], bi);
        hi[j] = madd52hi(&a.0[j], bi);
        j += 1;
    }
    proof {
        assert forall|k: int, l: int| 0 <= k < 8 && 0 <= l < 8 implies #[trigger] lo[k][l]
            < 0x20000000000000 by {
            assert(t0[k][l] < radix());
            lemma_halves(a.0[k][l], bi[l]);
        }
        assert forall|k: int, l: int| 0 <= k < 8 && 0 <= l < 8 implies #[trigger] hi[k][l]
            < 0x10000000000000 by {
            lemma_halves(a.0[k][l], bi[l]);
        }
    }
    t[0] = lo[0];
    let mut j: usize = 1;
    while j < LIMBS
        invariant
            1 <= j <= LIMBS,
            forall|k: int, l: int|
                0 <= k < 8 && 0 <= l < 8 ==> #[trigger] lo[k][l] < 0x20000000000000,
            forall|k: int, l: int|
                0 <= k < 8 && 0 <= l < 8 ==> #[trigger] hi[k][l] < 0x10000000000000,
            t[0] == lo[0],
            t[8] == t0[8],
            forall|k: int, l: int|
                1 <= k < j && 0 <= l < 8 ==> #[trigger] t[k][l] == lo[k][l] + hi[k - 1][l],
        decreases LIMBS - j,
    {
        assert forall|l: int| 0 <= l < 8 implies #[trigger] lo[j as int]@[l] < 0x8000000000000000 by {
            assert(lo[j as int][l] < 0x20000000000000);
        }
        assert forall|l: int| 0 <= l < 8 implies #[trigger] hi[j - 1]@[l] < 0x8000000000000000 by {
            assert(hi[j - 1][l] < 0x10000000000000);
        }
        t[j] = add_rows(&lo[j], &hi[j - 1]);
        j += 1;
    }
    assert forall|l: int| 0 <= l < 8 implies #[trigger] t[8]@[l] < 0x8000000000000000 by {
        assert(t0[8][l] < 0x20000);
    }
    assert forall|l: int| 0 <= l < 8 implies #[trigger] hi[7]@[l] < 0x8000000000000000 by {
        assert(hi[7][l] < 0x10000000000000);
    }
    t[LIMBS] = add_rows(&t[LIMBS], &hi[LIMBS - 1]);
    let ghost t1 = t@;
    proof {
        assert forall|k: int, l: int| 0 <= k < 8 && 0 <= l < 8 implies #[trigger] t1[k][l]
            < 0x30000000000000 by {
            if k > 0 {
                assert(lo[k][l] < 0x20000000000000);
                assert(hi[k - 1][l] < 0x10000000000000);
                assert(t[k][l] == lo[k][l] + hi[k - 1][l]);
            } else {
                assert(lo[0][l] < 0x20000000000000);
            }
        }
        assert forall|l: int| 0 <= l < 8 implies (#[trigger] t1[8][l]) < 0x20000000000000 by {
            assert(t0[8][l] < 0x20000);
            assert(hi[7][l] < 0x10000000000000);
        }
    }

    // m := t[0] * N0INV mod 2^52, the multiple of P that clears limb zero.
    let n0: [u64; LANES] = splat(N0INV);
    let m: [u64; LANES] = madd52lo(&zero, &t[0], &n0);
    proof {
        assert forall|l: int| 0 <= l < 8 implies #[trigger] m[l] == low_product(t1[0][l], N0INV)
            && m[l] < radix() by {
            lemma_halves(t1[0][l], N0INV);
        }
    }

    let mut lo2: [[u64; LANES]; LIMBS] = [zero; LIMBS];
    let mut hi2: [[u64; LANES]; LIMBS] = [zero; LIMBS];
    let mut j: usize = 0;
    while j < LIMBS
        invariant
            j <= LIMBS,
            t@ == t1,
            forall|k: int, l: int|
                0 <= k < 8 && 0 <= l < 8 ==> #[trigger] t1[k][l] < 0x30000000000000,
            forall|k: int, l: int|
                0 <= k < j && 0 <= l < 8 ==> #[trigger] lo2[k][l] == t1[k][l] + low_product(
                    m[l],
                    P[k],
                ),
            forall|k: int, l: int|
                0 <= k < j && 0 <= l < 8 ==> #[trigger] hi2[k][l] == high_product(m[l], P[k]),
        decreases LIMBS - j,
    {
        let p: [u64; LANES] = splat(P[j]);
        assert forall|l: int| 0 <= l < 8 implies #[trigger] t[j as int]@[l] < 0x8000000000000000 by {
            assert(t1[j as int][l] < 0x30000000000000);
        }
        lo2[j] = madd52lo(&t[j], &m, &p);
        hi2[j] = madd52hi(&m, &p);
        j += 1;
    }
    proof {
        assert forall|k: int, l: int| 0 <= k < 8 && 0 <= l < 8 implies #[trigger] lo2[k][l]
            < 0x40000000000000 by {
            assert(t1[k][l] < 0x30000000000000);
            lemma_halves(m[l], P[k]);
        }
        assert forall|k: int, l: int| 0 <= k < 8 && 0 <= l < 8 implies #[trigger] hi2[k][l]
            < 0x10000000000000 by {
            lemma_halves(m[l], P[k]);
        }
    }

    // Limb zero is now a multiple of 2^52, so shift the accumulator down.
    let (_, carry0) = split_rows(&lo2[0]);
    let mut nt: [[u64; LANES]; LIMBS] = [zero; LIMBS];
    let mut j: usize = 0;
    while j < LIMBS - 1
        invariant
            j <= LIMBS - 1,
            forall|k: int, l: int|
                0 <= k < 8 && 0 <= l < 8 ==> #[trigger] lo2[k][l] < 0x40000000000000,
            forall|k: int, l: int|
                0 <= k < 8 && 0 <= l < 8 ==> #[trigger] hi2[k][l] < 0x10000000000000,
            forall|l: int| 0 <= l < 8 ==> #[trigger] carry0[l] == lo2[0][l] as int / radix(),
            forall|k: int, l: int|
                0 <= k < j && 0 <= l < 8 ==> #[trigger] nt[k][l] == lo2[k + 1][l] + hi2[k][l] + (
                if k == 0 {
                    carry0[l] as int
                } else {
                    0
                }),
        decreases LIMBS - 1 - j,
    {
        assert forall|l: int| 0 <= l < 8 implies #[trigger] lo2[j + 1]@[l] < 0x8000000000000000 by {
            assert(lo2[j + 1][l] < 0x40000000000000);
        }
        assert forall|l: int| 0 <= l < 8 implies #[trigger] hi2[j as int]@[l] < 0x8000000000000000 by {
            assert(hi2[j as int][l] < 0x10000000000000);
        }
        let mut v: [u64; LANES] = add_rows(&lo2[j + 1], &hi2[j]);
        if j == 0 {
            assert forall|l: int| 0 <= l < 8 implies #[trigger] v[l] < 0x8000000000000000 by {
                assert(lo2[1][l] < 0x40000000000000);
                assert(hi2[0][l] < 0x10000000000000);
            }
            assert forall|l: int| 0 <= l < 8 implies #[trigger] carry0[l] < 0x8000000000000000 by {
                assert(lo2[0][l] < 0x40000000000000);
            }
            v = add_rows(&v, &carry0);
        }
        nt[j] = v;
        j += 1;
    }
    assert forall|l: int| 0 <= l < 8 implies #[trigger] t[8]@[l] < 0x8000000000000000 by {
        assert(t1[8][l] < 0x20000000000000);
    }
    assert forall|l: int| 0 <= l < 8 implies #[trigger] hi2[7]@[l] < 0x8000000000000000 by {
        assert(hi2[7][l] < 0x10000000000000);
    }
    nt[LIMBS - 1] = add_rows(&t[LIMBS], &hi2[LIMBS - 1]);
    proof {
        assert forall|k: int, l: int| 0 <= k < 8 && 0 <= l < 8 implies #[trigger] nt[k][l]
            < 0x100000000000000 by {
            assert(hi2[k][l] < 0x10000000000000);
            if k < 7 {
                assert(lo2[k + 1][l] < 0x40000000000000);
                assert(lo2[0][l] < 0x40000000000000);
                assert(carry0[l] == lo2[0][l] as int / radix());
            } else {
                assert(t1[8][l] < 0x20000000000000);
            }
        }
    }

    // Renormalize so every limb is back inside 52 bits.
    normalize(&nt, t);
    proof {
        let w = radix();
        assert forall|l: int| 0 <= l < 8 implies (value(#[trigger] column(t@, l), w, 8) + t[8][l]
            * r416()) * w == value(column(t0, l), w, 8) + t0[8][l] * r416() + val(a.lane(l)) * bi[l]
            + modulus() * m[l] by {
            let (c0, ca, c1, cn) = (column(t0, l), a.lane(l), column(t1, l), column(nt@, l));
            assert(digits(ca, w, 8)) by {
                assert forall|k: int| 0 <= k < 8 implies #[trigger] ca[k] < w by {
                    assert(a.0[k][l] < w);
                }
            }
            assert(t1[0] == lo[0]);
            assert(c1[0] == lo[0][l]);
            assert forall|k: int| 1 <= k < 8 implies #[trigger] c1[k] == c0[k] + low_product(
                ca[k],
                bi[l],
            ) + high_product(ca[k - 1], bi[l]) by {
                assert(t1[k][l] == lo[k][l] + hi[k - 1][l]);
            }
            assert(hi[7][l] == high_product(a.0[7][l], bi[l]));
            assert(m[l] == low_product(t1[0][l], N0INV));
            assert(nt[0][l] == lo2[0int + 1][l] + hi2[0][l] + carry0[l] as int);
            assert(lo2[0][l] == t1[0][l] + low_product(m[l], P[0]));
            assert(hi2[7][l] == high_product(m[l], P[7]));
            assert forall|k: int| 1 <= k < 7 implies #[trigger] cn[k] == c1[k + 1] + low_product(
                m[l],
                P[k + 1],
            ) + high_product(m[l], P[k]) by {
                assert(nt[k][l] == lo2[k + 1][l] + hi2[k][l]);
            }
            assert(round_lane(c0, ca, bi[l], c1, m[l], cn));
            lemma_round_lane(c0, ca, bi[l], c1, m[l], cn);
            lemma_p();
            lemma_weights();
        }
    }
    m
}

/// Lanes of 52-bit limbs are rows of 52-bit limbs.
proof fn lemma_rows_ok(x: Fq8)
    requires
        forall|l: int| 0 <= l < 8 ==> limbs_ok(#[trigger] x.lane(l)),
    ensures
        rows_ok(x.0@),
{
    assert forall|j: int, l: int| 0 <= j < 8 && 0 <= l < 8 implies #[trigger] x.0@[j][l]
        < radix() by {
        assert(limbs_ok(x.lane(l)));
        assert(x.lane(l)[j] < radix());
    }
}

/// Rows of 52-bit limbs are lanes of 52-bit limbs.
proof fn lemma_lane_ok(rows: Seq<[u64; LANES]>, l: int)
    requires
        rows_ok(rows),
        rows.len() >= 8,
        0 <= l < 8,
    ensures
        digits(column(rows, l), radix(), 8),
{
    assert forall|j: int| 0 <= j < 8 implies #[trigger] column(rows, l)[j] < radix() by {
        assert(rows[j][l] < radix());
    }
}

/// Conditionally subtracts `P` in each lane, producing canonical limbs of a value below
/// `2 P`.
#[verifier::rlimit(40)]
fn reduce_x8(x: &mut Fq8)
    requires
        forall|l: int| 0 <= l < 8 ==> limbs_ok(#[trigger] old(x).lane(l)),
    ensures
        forall|l: int| 0 <= l < 8 ==> limbs_ok(#[trigger] final(x).lane(l)),
        forall|l: int|
            0 <= l < 8 ==> val(#[trigger] final(x).lane(l)) == (if val(old(x).lane(l))
                >= modulus() {
                val(old(x).lane(l)) - modulus()
            } else {
                val(old(x).lane(l))
            }),
{
    let ghost start = *x;
    proof {
        lemma_p();
        lemma_rows_ok(*x);
    }
    // Subtract P with borrow propagation.
    let mut d: [[u64; LANES]; LIMBS] = [[0u64; LANES]; LIMBS];
    let mut borrow: [u64; LANES] = splat(0);
    let mut j: usize = 0;
    while j < LIMBS
        invariant
            j <= LIMBS,
            *x == start,
            rows_ok(start.0@),
            limbs_ok(P@),
            forall|l: int| 0 <= l < 8 ==> #[trigger] borrow[l] <= 1,
            forall|k: int, l: int| 0 <= k < j && 0 <= l < 8 ==> #[trigger] d[k][l] < radix(),
            forall|l: int|
                0 <= l < 8 ==> value(#[trigger] column(d@, l), radix(), j as nat) - borrow[l]
                    * weight(radix(), j as nat) == value(start.lane(l), radix(), j as nat) - value(
                    P@,
                    radix(),
                    j as nat,
                ),
        decreases LIMBS - j,
    {
        let p: [u64; LANES] = splat(P[j]);
        let ghost before = d@;
        let ghost old_borrow = borrow;
        assert forall|l: int| 0 <= l < 8 implies #[trigger] x.0[j as int]@[l] < radix() by {
            assert(start.0@[j as int][l] < radix());
        }
        assert(P[j as int] < radix());
        let (low, next) = sub_rows(&x.0[j], &p, &borrow);
        d[j] = low;
        borrow = next;
        proof {
            let w = radix();
            assert forall|l: int| 0 <= l < 8 implies value(
                #[trigger] column(d@, l),
                w,
                (j + 1) as nat,
            ) - borrow[l] * weight(w, (j + 1) as nat) == value(start.lane(l), w, (j + 1) as nat)
                - value(P@, w, (j + 1) as nat) by {
                let c0 = column(before, l);
                let c1 = column(d@, l);
                assert(value(c0, w, j as nat) - old_borrow[l] * weight(w, j as nat) == value(
                    start.lane(l),
                    w,
                    j as nat,
                ) - value(P@, w, j as nat));
                lemma_value_same(c0, c1, w, j as nat);
                assert(low[l] - next[l] * w == x.0[j as int][l] - p[l] - old_borrow[l]);
                lemma_sub_column(
                    w,
                    weight(w, j as nat),
                    value(c1, w, j as nat),
                    old_borrow[l] as int,
                    value(start.lane(l), w, j as nat),
                    value(P@, w, j as nat),
                    start.lane(l)[j as int] as int,
                    P[j as int] as int,
                    low[l] as int,
                    next[l] as int,
                );
            }
        }
        j += 1;
    }
    // Keep the difference only where no final borrow occurred, i.e. x >= P.
    let mut l: usize = 0;
    while l < LANES
        invariant
            l <= LANES,
            forall|k: int, i: int|
                0 <= k < 8 && 0 <= i < 8 ==> #[trigger] x.0[k][i] == (if i < l && borrow[i] == 0 {
                    d[k][i]
                } else {
                    start.0[k][i]
                }),
        decreases LANES - l,
    {
        if borrow[l] == 0 {
            let mut j: usize = 0;
            while j < LIMBS
                invariant
                    j <= LIMBS,
                    l < LANES,
                    borrow[l as int] == 0,
                    forall|k: int, i: int|
                        0 <= k < 8 && 0 <= i < 8 ==> #[trigger] x.0[k][i] == (if (i < l
                            && borrow[i] == 0) || (i == l && k < j) {
                            d[k][i]
                        } else {
                            start.0[k][i]
                        }),
                decreases LIMBS - j,
            {
                let mut row: [u64; LANES] = x.0[j];
                row[l] = d[j][l];
                let ghost before = *x;
                x.0[j] = row;
                assert forall|k: int, i: int| 0 <= k < 8 && 0 <= i < 8 implies #[trigger] x.0[k][i]
                    == (if (i < l && borrow[i] == 0) || (i == l && k < j + 1) {
                    d[k][i]
                } else {
                    start.0[k][i]
                }) by {
                    assert(before.0[k][i] == (if (i < l && borrow[i] == 0) || (i == l && k < j) {
                        d[k][i]
                    } else {
                        start.0[k][i]
                    }));
                }
                j += 1;
            }
        }
        l += 1;
    }
    proof {
        let w = radix();
        lemma_modulus();
        assert forall|i: int| 0 <= i < 8 implies limbs_ok(#[trigger] x.lane(i)) && val(x.lane(i))
            == (if val(start.lane(i)) >= modulus() {
            val(start.lane(i)) - modulus()
        } else {
            val(start.lane(i))
        }) by {
            lemma_lane_ok(d@, i);
            lemma_lane_ok(start.0@, i);
            lemma_value_bound(column(d@, i), w, 8);
            lemma_value_bound(start.lane(i), w, 8);
            assert(value(column(d@, i), w, 8) - borrow[i] * weight(w, 8) == value(
                start.lane(i),
                w,
                8,
            ) - value(P@, w, 8));
            let kept = if borrow[i] == 0 {
                column(d@, i)
            } else {
                start.lane(i)
            };
            assert forall|k: int| 0 <= k < 8 implies #[trigger] x.lane(i)[k] == kept[k] by {
                assert(x.0[k][i] == (if borrow[i] == 0 {
                    d[k][i]
                } else {
                    start.0[k][i]
                }));
            }
            lemma_value_same(x.lane(i), kept, w, 8);
        }
    }
}

/// Eight independent Montgomery multiplications.
#[verifier::rlimit(40)]
pub fn mul_x8(a: &Fq8, b: &Fq8) -> (out: Fq8)
    requires
        forall|l: int| 0 <= l < 8 ==> limbs_ok(#[trigger] a.lane(l)),
        forall|l: int| 0 <= l < 8 ==> limbs_ok(#[trigger] b.lane(l)),
        forall|l: int|
            0 <= l < 8 ==> val(#[trigger] a.lane(l)) * val(b.lane(l)) < modulus() * r416(),
    ensures
        out.canonical(),
        forall|l: int|
            0 <= l < 8 ==> (val(#[trigger] out.lane(l)) * r416()) % modulus() == (val(a.lane(l))
                * val(b.lane(l))) % modulus(),
        forall|l: int|
            0 <= l < 8 ==> decode(#[trigger] out.lane(l)) == fmul(
                decode(a.lane(l)),
                decode(b.lane(l)),
            ),
{
    let zero: [u64; LANES] = splat(0);
    let mut t: [[u64; LANES]; WIDE] = [zero; WIDE];
    let ghost mut ks: Seq<int> = Seq::new(8, |l: int| 0int);
    proof {
        lemma_rows_ok(*a);
        lemma_rows_ok(*b);
        lemma_weights();
        assert forall|l: int| 0 <= l < 8 implies value(#[trigger] column(t@, l), radix(), 8) == 0 by {
            lemma_value_8(column(t@, l));
        }
        assert forall|l: int| 0 <= l < 8 implies 0 <= val(#[trigger] a.lane(l)) < r416() by {
            lemma_value_bound(a.lane(l), radix(), 8);
        }
        assert forall|l: int| 0 <= l < 8 implies (value(#[trigger] column(t@, l), radix(), 8)
            + t[8][l] * r416()) * weight(radix(), 0) == val(a.lane(l)) * value(b.lane(l), radix(), 0)
            + ks[l] * modulus() by {
            lemma_mul_basics(val(a.lane(l)));
            lemma_mul_basics(modulus());
            lemma_mul_basics(r416());
            assert(t[8][l] == 0);
        }
    }
    let mut i: usize = 0;
    while i < LIMBS
        invariant
            i <= LIMBS,
            rows_ok(a.0@),
            rows_ok(b.0@),
            rows_ok(t@),
            ks.len() == 8,
            forall|l: int| 0 <= l < 8 ==> (#[trigger] t[8][l]) < 0x20000,
            forall|l: int| 0 <= l < 8 ==> 0 <= val(#[trigger] a.lane(l)) < r416(),
            forall|l: int| 0 <= l < 8 ==> 0 <= #[trigger] ks[l] < weight(radix(), i as nat),
            forall|l: int|
                0 <= l < 8 ==> (value(#[trigger] column(t@, l), radix(), 8) + t[8][l] * r416())
                    * weight(radix(), i as nat) == val(a.lane(l)) * value(
                    b.lane(l),
                    radix(),
                    i as nat,
                ) + ks[l] * modulus(),
        decreases LIMBS - i,
    {
        let ghost t0 = t@;
        assert forall|l: int| 0 <= l < 8 implies #[trigger] b.0[i as int]@[l] < radix() by {
            assert(b.0@[i as int][l] < radix());
        }
        let m: [u64; LANES] = mul_round(&mut t, a, &b.0[i]);
        proof {
            let w = radix();
            let next = Seq::new(8, |l: int| ks[l] + m[l] * weight(w, i as nat));
            assert forall|l: int| 0 <= l < 8 implies 0 <= #[trigger] next[l] < weight(
                w,
                (i + 1) as nat,
            ) && (value(column(t@, l), w, 8) + t[8][l] * r416()) * weight(w, (i + 1) as nat) == val(
                a.lane(l),
            ) * value(b.lane(l), w, (i + 1) as nat) + next[l] * modulus() by {
                assert(0 <= ks[l] < weight(w, i as nat));
                assert(0 <= val(a.lane(l)) < r416());
                assert((value(column(t0, l), w, 8) + t0[8][l] * r416()) * weight(w, i as nat) == val(
                    a.lane(l),
                ) * value(b.lane(l), w, i as nat) + ks[l] * modulus());
                assert(m[l] < w);
                assert((value(column(t@, l), w, 8) + t[8][l] * r416()) * w == value(
                    column(t0, l),
                    w,
                    8,
                ) + t0[8][l] * r416() + val(a.lane(l)) * b.0[i as int][l] + modulus() * m[l]);
                lemma_lane_ok(b.0@, l);
                lemma_value_bound(b.lane(l), w, i as nat);
                lemma_round(
                    w,
                    r416(),
                    i as nat,
                    value(column(t0, l), w, 8) + t0[8][l] * r416(),
                    val(a.lane(l)),
                    value(b.lane(l), w, i as nat),
                    b.lane(l)[i as int] as int,
                    ks[l],
                    m[l] as int,
                    value(column(t@, l), w, 8) + t[8][l] * r416(),
                );
            }
            ks = next;
            assert forall|l: int| 0 <= l < 8 implies (value(#[trigger] column(t@, l), w, 8)
                + t[8][l] * r416()) * weight(w, (i + 1) as nat) == val(a.lane(l)) * value(
                b.lane(l),
                w,
                (i + 1) as nat,
            ) + ks[l] * modulus() by {
                assert(0 <= next[l] < weight(w, (i + 1) as nat));
            }
        }
        i += 1;
    }
    let mut out: Fq8 = Fq8([t[0], t[1], t[2], t[3], t[4], t[5], t[6], t[7]]);
    proof {
        let w = radix();
        let p = modulus();
        lemma_modulus();
        lemma_r416();
        assert forall|l: int| 0 <= l < 8 implies limbs_ok(#[trigger] out.lane(l)) && val(
            out.lane(l),
        ) < 2 * p && val(out.lane(l)) * r416() == val(a.lane(l)) * val(b.lane(l)) + ks[l] * p by {
            lemma_lane_ok(t@, l);
            assert(forall|k: int| 0 <= k < 8 ==> #[trigger] out.lane(l)[k] == column(t@, l)[k]);
            lemma_value_same(out.lane(l), column(t@, l), w, 8);
            let total = value(column(t@, l), w, 8) + t[8][l] * r416();
            let (x, y) = (val(a.lane(l)), val(b.lane(l)));
            assert(total * r416() == x * y + ks[l] * p);
            assert(x * y < p * r416());
            assert(0 <= ks[l] < r416());
            assert(total * r416() < 2 * p * r416()) by (nonlinear_arith)
                requires
                    total * r416() == x * y + ks[l] * p,
                    x * y < p * r416(),
                    ks[l] < r416(),
                    p > 0,
            ;
            assert(total < 2 * p) by (nonlinear_arith)
                requires
                    total * r416() < 2 * p * r416(),
                    r416() > 0,
            ;
            lemma_value_nonnegative(column(t@, l), w, 8);
            let top = t[8][l];
            assert(top == 0) by (nonlinear_arith)
                requires
                    top * r416() < r416(),
                    r416() > 0,
            ;
        }
    }
    let ghost raw = out;
    reduce_x8(&mut out);
    proof {
        let p = modulus();
        assert forall|l: int| 0 <= l < 8 implies canonical(#[trigger] out.lane(l)) && (val(
            out.lane(l),
        ) * r416()) % p == (val(a.lane(l)) * val(b.lane(l))) % p && decode(out.lane(l)) == fmul(
            decode(a.lane(l)),
            decode(b.lane(l)),
        ) by {
            let total = val(raw.lane(l));
            let xy = val(a.lane(l)) * val(b.lane(l));
            assert(limbs_ok(raw.lane(l)) && total * r416() == xy + ks[l] * p && total < 2 * p);
            lemma_congruent_by(total * r416(), xy, ks[l], p);
            assert((total - p) * r416() - xy == (ks[l] - r416()) * p) by (nonlinear_arith)
                requires
                    total * r416() == xy + ks[l] * p,
            ;
            lemma_congruent_by((total - p) * r416(), xy, ks[l] - r416(), p);
            lemma_decode_mul(
                val(a.lane(l)),
                val(b.lane(l)),
                val(out.lane(l)),
                r416(),
                r416_inv(),
                p,
            );
        }
    }
    out
}

/// Eight independent modular additions of canonical inputs.
#[verifier::rlimit(40)]
pub fn add_x8(a: &Fq8, b: &Fq8) -> (out: Fq8)
    requires
        a.canonical(),
        b.canonical(),
    ensures
        out.canonical(),
        forall|l: int|
            0 <= l < 8 ==> decode(#[trigger] out.lane(l)) == fadd(
                decode(a.lane(l)),
                decode(b.lane(l)),
            ),
{
    let mut out: Fq8 = Fq8([[0u64; LANES]; LIMBS]);
    let mut carry: [u64; LANES] = splat(0);
    proof {
        assert(forall|l: int| 0 <= l < 8 ==> canonical(#[trigger] a.lane(l)));
        assert(forall|l: int| 0 <= l < 8 ==> canonical(#[trigger] b.lane(l)));
        lemma_rows_ok(*a);
        lemma_rows_ok(*b);
    }
    let mut j: usize = 0;
    while j < LIMBS
        invariant
            j <= LIMBS,
            rows_ok(a.0@),
            rows_ok(b.0@),
            forall|l: int| 0 <= l < 8 ==> #[trigger] carry[l] <= 1,
            forall|k: int, l: int| 0 <= k < j && 0 <= l < 8 ==> #[trigger] out.0[k][l] < radix(),
            forall|l: int|
                0 <= l < 8 ==> value(#[trigger] out.lane(l), radix(), j as nat) + carry[l]
                    * weight(radix(), j as nat) == value(a.lane(l), radix(), j as nat) + value(
                    b.lane(l),
                    radix(),
                    j as nat,
                ),
        decreases LIMBS - j,
    {
        let ghost before = out;
        let ghost old_carry = carry;
        assert forall|l: int| 0 <= l < 8 implies #[trigger] a.0[j as int]@[l] < radix() by {
            assert(a.0@[j as int][l] < radix());
        }
        assert forall|l: int| 0 <= l < 8 implies #[trigger] b.0[j as int]@[l] < radix() by {
            assert(b.0@[j as int][l] < radix());
        }
        let sum: [u64; LANES] = add_rows(&a.0[j], &b.0[j]);
        let v: [u64; LANES] = add_rows(&sum, &carry);
        let (low, high) = split_rows(&v);
        out.0[j] = low;
        carry = high;
        proof {
            let w = radix();
            assert forall|l: int| 0 <= l < 8 implies #[trigger] carry[l] <= 1 && value(
                out.lane(l),
                w,
                (j + 1) as nat,
            ) + carry[l] * weight(w, (j + 1) as nat) == value(a.lane(l), w, (j + 1) as nat) + value(
                b.lane(l),
                w,
                (j + 1) as nat,
            ) by {
                let (x, y) = (a.0[j as int][l], b.0[j as int][l]);
                assert(sum[l] == x + y);
                assert(old_carry[l] <= 1);
                assert(v[l] == sum[l] + old_carry[l]);
                assert(x < w && y < w);
                lemma_fundamental_div_mod(v[l] as int, w);
                assert(high[l] == v[l] as int / w);
                assert(low[l] == v[l] as int % w);
                assert(value(before.lane(l), w, j as nat) + old_carry[l] * weight(w, j as nat)
                    == value(a.lane(l), w, j as nat) + value(b.lane(l), w, j as nat));
                assert(forall|k: int| 0 <= k < j ==> #[trigger] before.lane(l)[k] == out.lane(l)[k]);
                lemma_value_same(before.lane(l), out.lane(l), w, j as nat);
                lemma_add_column(
                    w,
                    weight(w, j as nat),
                    value(out.lane(l), w, j as nat),
                    old_carry[l] as int,
                    value(a.lane(l), w, j as nat),
                    value(b.lane(l), w, j as nat),
                    x as int,
                    y as int,
                    low[l] as int,
                    high[l] as int,
                );
            }
            assert forall|l: int| 0 <= l < 8 implies value(
                #[trigger] out.lane(l),
                w,
                (j + 1) as nat,
            ) + carry[l] * weight(w, (j + 1) as nat) == value(a.lane(l), w, (j + 1) as nat) + value(
                b.lane(l),
                w,
                (j + 1) as nat,
            ) by {
                assert(carry[l] <= 1);
            }
        }
        j += 1;
    }
    proof {
        assert forall|l: int| 0 <= l < 8 implies limbs_ok(#[trigger] out.lane(l)) by {
            lemma_lane_ok(out.0@, l);
        }
    }
    let ghost raw = out;
    reduce_x8(&mut out);
    proof {
        assert forall|l: int| 0 <= l < 8 implies canonical(#[trigger] out.lane(l)) && decode(
            out.lane(l),
        ) == fadd(decode(a.lane(l)), decode(b.lane(l))) by {
            assert(limbs_ok(raw.lane(l)));
            assert(carry[l] <= 1);
            lemma_sum_reduced(a.lane(l), b.lane(l), raw.lane(l), carry[l] as int);
        }
    }
    out
}

/// Eight independent modular subtractions of canonical inputs.
#[verifier::rlimit(40)]
pub fn sub_x8(a: &Fq8, b: &Fq8) -> (out: Fq8)
    requires
        a.canonical(),
        b.canonical(),
    ensures
        out.canonical(),
        forall|l: int|
            0 <= l < 8 ==> decode(#[trigger] out.lane(l)) == fsub(
                decode(a.lane(l)),
                decode(b.lane(l)),
            ),
{
    let mut out: Fq8 = Fq8([[0u64; LANES]; LIMBS]);
    let mut borrow: [u64; LANES] = splat(0);
    proof {
        assert(forall|l: int| 0 <= l < 8 ==> canonical(#[trigger] a.lane(l)));
        assert(forall|l: int| 0 <= l < 8 ==> canonical(#[trigger] b.lane(l)));
        lemma_rows_ok(*a);
        lemma_rows_ok(*b);
        lemma_p();
    }
    let mut j: usize = 0;
    while j < LIMBS
        invariant
            j <= LIMBS,
            rows_ok(a.0@),
            rows_ok(b.0@),
            forall|l: int| 0 <= l < 8 ==> #[trigger] borrow[l] <= 1,
            forall|k: int, l: int| 0 <= k < j && 0 <= l < 8 ==> #[trigger] out.0[k][l] < radix(),
            forall|l: int|
                0 <= l < 8 ==> value(#[trigger] out.lane(l), radix(), j as nat) - borrow[l]
                    * weight(radix(), j as nat) == value(a.lane(l), radix(), j as nat) - value(
                    b.lane(l),
                    radix(),
                    j as nat,
                ),
        decreases LIMBS - j,
    {
        let ghost before = out;
        let ghost old_borrow = borrow;
        assert forall|l: int| 0 <= l < 8 implies #[trigger] a.0[j as int]@[l] < radix() by {
            assert(a.0@[j as int][l] < radix());
        }
        assert forall|l: int| 0 <= l < 8 implies #[trigger] b.0[j as int]@[l] < radix() by {
            assert(b.0@[j as int][l] < radix());
        }
        let (low, next) = sub_rows(&a.0[j], &b.0[j], &borrow);
        out.0[j] = low;
        borrow = next;
        proof {
            let w = radix();
            assert forall|l: int| 0 <= l < 8 implies value(
                #[trigger] out.lane(l),
                w,
                (j + 1) as nat,
            ) - borrow[l] * weight(w, (j + 1) as nat) == value(a.lane(l), w, (j + 1) as nat)
                - value(b.lane(l), w, (j + 1) as nat) by {
                assert(value(before.lane(l), w, j as nat) - old_borrow[l] * weight(w, j as nat)
                    == value(a.lane(l), w, j as nat) - value(b.lane(l), w, j as nat));
                assert(forall|k: int| 0 <= k < j ==> #[trigger] before.lane(l)[k] == out.lane(l)[k]);
                lemma_value_same(before.lane(l), out.lane(l), w, j as nat);
                assert(low[l] - next[l] * w == a.0[j as int][l] - b.0[j as int][l] - old_borrow[l]);
                lemma_sub_column(
                    w,
                    weight(w, j as nat),
                    value(out.lane(l), w, j as nat),
                    old_borrow[l] as int,
                    value(a.lane(l), w, j as nat),
                    value(b.lane(l), w, j as nat),
                    a.0[j as int][l] as int,
                    b.0[j as int][l] as int,
                    low[l] as int,
                    next[l] as int,
                );
            }
        }
        j += 1;
    }
    // Where the subtraction underflowed, add P back.
    let ghost raw = out;
    proof {
        assert forall|l: int| 0 <= l < 8 implies limbs_ok(#[trigger] raw.lane(l)) by {
            lemma_lane_ok(raw.0@, l);
        }
        lemma_rows_ok(raw);
    }
    let mut carry: [u64; LANES] = splat(0);
    let mut j: usize = 0;
    while j < LIMBS
        invariant
            j <= LIMBS,
            rows_ok(raw.0@),
            limbs_ok(P@),
            forall|l: int| 0 <= l < 8 ==> #[trigger] borrow[l] <= 1,
            forall|l: int| 0 <= l < 8 ==> #[trigger] carry[l] <= 1,
            forall|k: int| j <= k < 8 ==> #[trigger] out.0[k] == raw.0[k],
            forall|k: int, l: int| 0 <= k < j && 0 <= l < 8 ==> #[trigger] out.0[k][l] < radix(),
            forall|l: int|
                0 <= l < 8 ==> value(#[trigger] out.lane(l), radix(), j as nat) + carry[l]
                    * weight(radix(), j as nat) == value(raw.lane(l), radix(), j as nat)
                    + borrow[l] * value(P@, radix(), j as nat),
        decreases LIMBS - j,
    {
        let ghost before = out;
        let ghost old_carry = carry;
        let mut addend: [u64; LANES] = splat(0);
        let mut l: usize = 0;
        while l < LANES
            invariant
                l <= LANES,
                j < LIMBS,
                forall|k: int|
                    0 <= k < l ==> #[trigger] addend[k] == (if borrow[k] == 1 {
                        P[j as int]
                    } else {
                        0
                    }),
                forall|k: int| l <= k < 8 ==> #[trigger] addend[k] == 0,
            decreases LANES - l,
        {
            if borrow[l] == 1 {
                addend[l] = P[j];
            }
            l += 1;
        }
        assert(P[j as int] < radix());
        assert forall|l: int| 0 <= l < 8 implies #[trigger] out.0[j as int]@[l] < radix() by {
            assert(out.0[j as int] == raw.0[j as int]);
            assert(raw.0@[j as int][l] < radix());
        }
        let sum: [u64; LANES] = add_rows(&out.0[j], &addend);
        assert forall|l: int| 0 <= l < 8 implies #[trigger] sum[l] < 0x20000000000000 by {
            assert(out.0[j as int]@[l] < radix());
            assert(addend[l] < radix());
        }
        let v: [u64; LANES] = add_rows(&sum, &carry);
        let (low, high) = split_rows(&v);
        out.0[j] = low;
        carry = high;
        proof {
            let w = radix();
            assert forall|l: int| 0 <= l < 8 implies #[trigger] carry[l] <= 1 && value(
                out.lane(l),
                w,
                (j + 1) as nat,
            ) + carry[l] * weight(w, (j + 1) as nat) == value(raw.lane(l), w, (j + 1) as nat)
                + borrow[l] * value(P@, w, (j + 1) as nat) by {
                assert(before.0[j as int] == raw.0[j as int]);
                let x = raw.0[j as int][l];
                let y = addend[l];
                assert(x < w && y < w);
                assert(sum[l] == x + y);
                assert(old_carry[l] <= 1);
                assert(borrow[l] <= 1);
                assert(v[l] == sum[l] + old_carry[l]);
                lemma_fundamental_div_mod(v[l] as int, w);
                assert(high[l] == v[l] as int / w);
                assert(low[l] == v[l] as int % w);
                assert(value(before.lane(l), w, j as nat) + old_carry[l] * weight(w, j as nat)
                    == value(raw.lane(l), w, j as nat) + borrow[l] * value(P@, w, j as nat));
                assert(forall|k: int| 0 <= k < j ==> #[trigger] before.lane(l)[k] == out.lane(l)[k]);
                lemma_value_same(before.lane(l), out.lane(l), w, j as nat);
                lemma_add_column(
                    w,
                    weight(w, j as nat),
                    value(out.lane(l), w, j as nat),
                    old_carry[l] as int,
                    value(raw.lane(l), w, j as nat),
                    borrow[l] * value(P@, w, j as nat),
                    x as int,
                    y as int,
                    low[l] as int,
                    high[l] as int,
                );
                let (bl, pv, pj, r) = (
                    borrow[l] as int,
                    value(P@, w, j as nat),
                    P[j as int] as int,
                    weight(w, j as nat),
                );
                assert(y == bl * pj) by (nonlinear_arith)
                    requires
                        bl == 0 || bl == 1,
                        y == (if bl == 1 {
                            pj
                        } else {
                            0
                        }),
                ;
                assert(bl * pv + (bl * pj) * r == bl * (pv + pj * r)) by (nonlinear_arith);
            }
            assert forall|l: int| 0 <= l < 8 implies value(
                #[trigger] out.lane(l),
                w,
                (j + 1) as nat,
            ) + carry[l] * weight(w, (j + 1) as nat) == value(raw.lane(l), w, (j + 1) as nat)
                + borrow[l] * value(P@, w, (j + 1) as nat) by {
                assert(carry[l] <= 1);
            }
        }
        j += 1;
    }
    proof {
        let p = modulus();
        lemma_modulus();
        assert forall|l: int| 0 <= l < 8 implies canonical(#[trigger] out.lane(l)) && decode(
            out.lane(l),
        ) == fsub(decode(a.lane(l)), decode(b.lane(l))) by {
            lemma_lane_ok(out.0@, l);
            assert(limbs_ok(raw.lane(l)));
            assert(carry[l] <= 1);
            assert(borrow[l] <= 1);
            lemma_difference_corrected(a.lane(l), b.lane(l), raw.lane(l), borrow[l] as int);
            lemma_value_bound(out.lane(l), radix(), 8);
            lemma_value_bound(raw.lane(l), radix(), 8);
            if borrow[l] == 0 {
                let c = carry[l] as int;
                assert(c == 0) by (nonlinear_arith)
                    requires
                        c >= 0,
                        c * r416() < r416(),
                        r416() > 0,
                ;
            } else {
                lemma_fundamental_div_mod_converse(
                    val(raw.lane(l)) + p,
                    r416(),
                    carry[l] as int,
                    val(out.lane(l)),
                );
            }
        }
    }
    out
}

} // verus!
