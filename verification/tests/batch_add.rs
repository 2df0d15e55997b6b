use snarkvm_kit::bucket_add::{batch_add, ifma_batch_size};
use snarkvm_kit::buckets::{sort_by_bucket, BucketPosition};
use snarkvm_kit::curve::G1Affine;
use snarkvm_kit::fq::Fq;
use snarkvm_kit::ifma_batch_add::{
    batch_add_in_place, batch_add_in_place_with, batch_add_write, loop_1_scalar, loop_1_x8, loop_2_scalar,
    loop_2_x8, Chains, Scratch, ALONE,
};
use snarkvm_kit::ifma::{LANES, ONE};
use snarkvm_kit::point_buf::PointBuf;

/// A generator of the curve's prime-order group.
const G: G1Affine = G1Affine {
    x: Fq([0x260f33b9772451f4, 0xc54dd773169d5658, 0x5c1551c469a510dd, 0x761662e4425e1698, 0xc97d78cc6f065272, 0xa41206b361fd4d]),
    y: Fq([0x8193961fb8cb81f3, 0x638d4c5f44adb8, 0xfafaf3dad4daf54a, 0xc27849e2d655cd18, 0x2ec3ddb401d52814, 0x7da93326303c71]),
    infinity: false,
};

/// Twice the generator.
const G2: G1Affine = G1Affine {
    x: Fq([0xec1ba6429f83899c, 0x978aca3d5f2c68cb, 0xc38d9da5818da611, 0xbf6b39be8b3a0de2, 0xf7d589e86078b25d, 0x77872eca01b382]),
    y: Fq([0xf31bad49ae8c4e02, 0x7dc31d11a05bc189, 0xe84bfecedc921aac, 0x56b68746622fd067, 0x8919fda07737450a, 0x150814f057f23c7]),
    infinity: false,
};

fn negated(p: &G1Affine) -> G1Affine {
    G1Affine::new(p.x, p.y.negate(), p.infinity)
}

/// The textbook sum of two points.
fn sum(p: &G1Affine, q: &G1Affine) -> G1Affine {
    if p.infinity {
        return *q;
    }
    if q.infinity {
        return *p;
    }
    let slope = if p.x == q.x {
        if p.y != q.y {
            return G1Affine::new(q.x, q.y, true);
        }
        let square = p.x.times(&p.x);
        let three = square.plus(&square).plus(&square);
        three.times(&p.y.plus(&p.y).inverse().unwrap())
    } else {
        q.y.minus(&p.y).times(&q.x.minus(&p.x).inverse().unwrap())
    };
    let x = slope.times(&slope).minus(&p.x).minus(&q.x);
    let y = slope.times(&p.x.minus(&x)).minus(&p.y);
    G1Affine::new(x, y, false)
}

/// Points with unrelated coordinates: Fibonacci multiples of the generator.
fn points(n: usize) -> Vec<G1Affine> {
    let mut out = vec![G2, sum(&G2, &G)];
    while out.len() < n {
        let next = sum(&out[out.len() - 1], &out[out.len() - 2]);
        out.push(next);
    }
    out.truncate(n);
    out
}

fn pairs(n: usize) -> Vec<(u32, u32)> {
    (0..n).map(|k| (2 * k as u32, 2 * k as u32 + 1)).collect()
}

fn run_case(n_pairs: usize, mutate: impl Fn(&mut Vec<G1Affine>)) {
    let mut points = points(2 * n_pairs);
    let index = pairs(n_pairs);
    mutate(&mut points);
    for available in [true, false] {
        let mut buf = PointBuf::from_affine(&points, available);
        batch_add_in_place(&mut buf, &index);
        for (k, (i, j)) in index.iter().enumerate() {
            let expected = sum(&points[*i as usize], &points[*j as usize]);
            assert_eq!(buf.get(*i as usize), expected, "pair {k} (point {i})");
        }
    }
}

#[test]
fn test_matches_scalar_generic() {
    for n in [1usize, 7, 8, 9, 16, 33, 100] {
        run_case(n, |_| {});
    }
}

#[test]
fn test_matches_scalar_with_infinities() {
    run_case(64, |points| {
        points[0] = G1Affine::zero();
        points[3] = G1Affine::zero();
        points[20] = G1Affine::zero();
        points[21] = G1Affine::zero();
    });
}

#[test]
fn test_matches_scalar_with_doublings() {
    run_case(64, |points| {
        // Equal points force the doubling branch.
        points[1] = points[0];
        points[11] = points[10];
    });
}

#[test]
fn test_matches_scalar_with_negations() {
    run_case(64, |points| {
        // P + (-P) sends both operands to infinity.
        points[5] = negated(&points[4]);
        points[41] = negated(&points[40]);
    });
}

#[test]
fn test_sum_is_correct() {
    let points = points(64);
    let index: Vec<(u32, u32)> = (0..32).map(|k| (2 * k, 2 * k + 1)).collect();
    let mut buf = PointBuf::from_affine(&points, true);
    batch_add_in_place(&mut buf, &index);
    for k in 0..32usize {
        assert_eq!(buf.get(2 * k), sum(&points[2 * k], &points[2 * k + 1]), "pair {k}");
    }
}

#[test]
fn the_generator_doubles() {
    let mut buf = PointBuf::from_affine(&[G, G], true);
    batch_add_in_place(&mut buf, &[(0, 1)]);
    assert_eq!(buf.get(0), G2);
}

#[test]
fn other_points_stay() {
    let points = points(20);
    let mut buf = PointBuf::from_affine(&points, true);
    let mut scratch = Scratch::with_capacity(4);
    // The second operand is shared.
    batch_add_in_place_with(&mut buf, &[(3, 0), (5, 0), (7, 1)], &mut scratch);
    for i in 0..20usize {
        let expected = match i {
            3 | 5 => sum(&points[i], &points[0]),
            7 => sum(&points[7], &points[1]),
            _ => points[i],
        };
        assert_eq!(buf.get(i), expected, "point {i}");
    }
}

#[test]
fn an_empty_batch_changes_nothing() {
    let mut buf = PointBuf::from_affine(&[G, G2], true);
    batch_add_in_place(&mut buf, &[]);
    assert_eq!(buf.get(0), G);
    assert_eq!(buf.get(1), G2);
}

#[test]
fn written_sums_cover_degenerate_pairs() {
    let mut points = points(24);
    points[1] = points[0];
    points[3] = negated(&points[2]);
    points[4] = G1Affine::zero();
    let bases = PointBuf::from_affine(&points, true);
    let mut out = PointBuf::with_capacity(0);
    out.push(&G);
    let mut scratch = Scratch::with_capacity(0);
    let mut index: Vec<(u32, u32)> = vec![(0, 1), (2, 3), (4, 5), (6, 4), (7, ALONE), (8, 8), (8, 9)];
    index.extend((10..22).map(|k| (k, k + 1)));
    batch_add_write(&bases, &index, &mut out, &mut scratch);
    assert_eq!(out.len(), 1 + index.len());
    assert_eq!(out.get(0), G);
    for (k, (i, j)) in index.iter().enumerate() {
        let first = points[*i as usize];
        let expected = if *j == ALONE { first } else { sum(&first, &points[*j as usize]) };
        assert_eq!(out.get(k + 1), expected, "instruction {k}");
    }
    // The bases stay as they were.
    for (i, p) in points.iter().enumerate() {
        assert_eq!(bases.get(i), *p);
    }
}

#[test]
fn a_buffer_keeps_what_it_is_given() {
    let mut buf = PointBuf::with_capacity(4);
    assert!(buf.is_empty());
    buf.push(&G);
    buf.push(&G1Affine::new(G2.x, G.y, true));
    assert_eq!(buf.len(), 2);
    assert_eq!(buf.get(0), G);
    // Coordinates survive even where the infinity flag is set.
    assert_eq!(buf.get(1), G1Affine::new(G2.x, G.y, true));
    let mut other = PointBuf::from_affine(&[G2], false);
    other.push_from_other(&buf, 0);
    assert_eq!(other.get(1), G);
    buf.copy_from(1, &other, 0);
    assert_eq!(buf.get(1), G2);
    buf.clear();
    assert!(buf.is_empty());
}

fn position(bucket_index: u32, scalar_index: u32) -> BucketPosition {
    BucketPosition { bucket_index, scalar_index }
}

#[test]
fn sorting_keeps_the_order_within_a_bucket() {
    let mut s = [position(3, 0), position(1, 1), position(3, 2), position(0, 3), position(1, 4), position(3, 5)];
    sort_by_bucket(&mut s);
    assert_eq!(
        s,
        [position(0, 3), position(1, 1), position(1, 4), position(3, 0), position(3, 2), position(3, 5)]
    );
}

#[test]
fn buckets_add_up() {
    let points = points(300);
    let bases = PointBuf::from_affine(&points, true);
    // Bucket sizes 0, 1, 2, 3 and many, and positions that are out of range.
    let bucket_of = |i: usize| -> u32 {
        match i {
            0 => 1,
            1 | 2 => 2,
            3..=5 => 3,
            6..=9 => 77,
            _ => 4 + (i as u32 % 5),
        }
    };
    let mut positions: Vec<BucketPosition> =
        (0..points.len()).map(|i| position(bucket_of(i), i as u32)).collect();
    let res = batch_add(10, &bases, &mut positions);
    assert_eq!(res.len(), 10);
    for (b, got) in res.iter().enumerate() {
        let mut expected = G1Affine::zero();
        for (i, p) in points.iter().enumerate() {
            if bucket_of(i) == b as u32 {
                expected = sum(&expected, p);
            }
        }
        assert_eq!(*got, expected, "bucket {b}");
    }
    // What stays of the positions lists the buckets that have points.
    let left: Vec<u32> = positions.iter().take(8).map(|p| p.bucket_index).collect();
    assert_eq!(left, [1, 2, 3, 4, 5, 6, 7, 8]);
}

#[test]
fn buckets_with_equal_and_opposite_points_add_up() {
    let p = points(8);
    let bases = PointBuf::from_affine(&[p[0], p[0], p[1], negated(&p[1]), p[2], G1Affine::zero(), p[3]], true);
    let mut positions = [
        position(0, 0),
        position(0, 1),
        position(1, 2),
        position(1, 3),
        position(2, 4),
        position(2, 5),
        position(2, 6),
    ];
    let res = batch_add(3, &bases, &mut positions);
    assert_eq!(res[0], sum(&p[0], &p[0]));
    assert!(res[1].infinity);
    assert_eq!(res[2], sum(&p[2], &p[3]));
}

#[test]
fn more_pairs_than_one_batch_holds() {
    let few = points(64);
    let n = 5000usize;
    let bases: Vec<G1Affine> = (0..n).map(|i| few[i % 64]).collect();
    let buf = PointBuf::from_affine(&bases, true);
    let mut positions: Vec<BucketPosition> =
        (0..n).map(|i| position((i / 2) as u32, i as u32)).collect();
    let res = batch_add(n / 2, &buf, &mut positions);
    for b in [0usize, 1, 31, 1000, 2047, 2048, 2499] {
        assert_eq!(res[b], sum(&bases[2 * b], &bases[2 * b + 1]), "bucket {b}");
    }
    assert_eq!(ifma_batch_size(n), 4096);
}

#[test]
fn no_positions_leave_every_bucket_empty() {
    let bases = PointBuf::from_affine(&[G], true);
    let res = batch_add(2, &bases, &mut []);
    assert_eq!(res, vec![G1Affine::zero(), G1Affine::zero()]);
}

fn is_on_curve(p: &G1Affine) -> bool {
    p.infinity || p.y.times(&p.y) == p.x.times(&p.x).times(&p.x).plus(&Fq::one())
}

#[test]
fn sums_stay_on_the_curve() {
    assert!(is_on_curve(&G) && is_on_curve(&G2));
    assert!(!is_on_curve(&G1Affine::new(G.x, G2.y, false)));
    let mut points = points(40);
    points[1] = points[0];
    points[3] = negated(&points[2]);
    let mut buf = PointBuf::from_affine(&points, true);
    batch_add_in_place(&mut buf, &pairs(20));
    for k in 0..20usize {
        assert!(is_on_curve(&buf.get(2 * k)), "pair {k}");
    }
}

#[test]
fn the_order_of_summands_does_not_matter() {
    let mut points = points(18);
    points[3] = negated(&points[2]);
    points[4] = G1Affine::zero();
    let index = pairs(9);
    let swapped: Vec<(u32, u32)> = index.iter().map(|(i, j)| (*j, *i)).collect();
    let mut there = PointBuf::from_affine(&points, true);
    let mut back = PointBuf::from_affine(&points, true);
    batch_add_in_place(&mut there, &index);
    batch_add_in_place(&mut back, &swapped);
    for (i, j) in index {
        let (p, q) = (there.get(i as usize), back.get(j as usize));
        assert!((p.infinity && q.infinity) || p == q);
    }
}

#[test]
fn scratch_can_be_reused() {
    let points = points(32);
    let mut scratch = Scratch::default();
    let mut reused = PointBuf::from_affine(&points, true);
    batch_add_in_place_with(&mut reused, &[(0, 1), (2, 3), (4, 5)], &mut scratch);
    batch_add_in_place_with(&mut reused, &[(0, 2)], &mut scratch);
    let expected = sum(&sum(&points[0], &points[1]), &sum(&points[2], &points[3]));
    assert_eq!(reused.get(0), expected);
}

#[test]
fn the_order_within_a_bucket_does_not_matter() {
    let mut p = points(23);
    p[7] = p[3];
    p[12] = negated(&p[5]);
    p[20] = G1Affine::zero();
    let bases = PointBuf::from_affine(&p, true);
    let forwards: Vec<BucketPosition> = (0..23).map(|i| position(0, i)).collect();
    let backwards: Vec<BucketPosition> = (0..23).rev().map(|i| position(0, i)).collect();
    let shuffled: Vec<BucketPosition> = (0..23).map(|i| position(0, i * 9 % 23)).collect();
    let expected = p.iter().fold(G1Affine::zero(), |total, q| sum(&total, q));
    for mut positions in [forwards, backwards, shuffled] {
        assert_eq!(batch_add(1, &bases, &mut positions), vec![expected]);
    }
}

#[test]
fn fresh_chains_invert_to_one() {
    assert_eq!(Chains::new().invert(), [ONE; LANES]);
}

#[test]
fn the_two_scalar_passes_add() {
    let points = points(3);
    let mut buf = PointBuf::from_affine(&points, true);
    let mut chains = Chains::new();
    loop_1_scalar(&mut buf, 0, 1, 5, &mut chains);
    let mut acc = chains.invert();
    loop_2_scalar(&mut buf, 0, 1, 5, &mut acc);
    assert_eq!(buf.get(0), sum(&points[0], &points[1]));
    assert_eq!(buf.get(1), points[1]);
    assert_eq!(buf.get(2), points[2]);
    // The pair's factor is peeled off, and the other lanes never had one.
    assert_eq!(acc, [ONE; LANES]);
}

#[test]
fn the_first_pass_leaves_chains_alone_where_nothing_is_to_invert() {
    let p = points(2);
    let mut buf = PointBuf::from_affine(&[p[0], G1Affine::zero(), p[1], negated(&p[1])], true);
    let mut chains = Chains::new();
    loop_1_scalar(&mut buf, 0, 1, 0, &mut chains);
    loop_1_scalar(&mut buf, 2, 3, 1, &mut chains);
    assert_eq!(chains.invert(), [ONE; LANES]);
    assert_eq!(buf.get(0), p[0]);
    assert_eq!(buf.get(2), G1Affine::new(p[1].x, p[1].y, true));
    assert_eq!(buf.get(3), G1Affine::new(p[1].x, p[1].y.negate(), true));
}

#[test]
fn the_vector_passes_do_what_eight_scalar_ones_do() {
    let points = points(16);
    let a_idx: Vec<usize> = (0..8).map(|k| 2 * k).collect();
    let b_idx: Vec<usize> = (0..8).map(|k| 2 * k + 1).collect();
    let (mut vector, mut scalar) = (PointBuf::from_affine(&points, true), PointBuf::from_affine(&points, true));
    let (mut chains, mut other) = (Chains::new(), Chains::new());
    loop_1_x8(&mut vector, &a_idx, &b_idx, 0, &mut chains);
    for l in 0..8usize {
        loop_1_scalar(&mut scalar, a_idx[l], b_idx[l], l, &mut other);
    }
    for i in 0..16usize {
        assert_eq!(vector.get(i), scalar.get(i));
    }
    let (mut acc, mut one_by_one) = (chains.invert(), other.invert());
    assert_eq!(acc, one_by_one);
    loop_2_x8(&mut vector, &a_idx, &b_idx, 0, &mut acc);
    for l in 0..8usize {
        loop_2_scalar(&mut scalar, a_idx[l], b_idx[l], l, &mut one_by_one);
    }
    assert_eq!(acc, one_by_one);
    for i in 0..16usize {
        assert_eq!(vector.get(i), scalar.get(i));
    }
}

#[test]
fn scratch_has_no_influence() {
    let mut points = points(24);
    points[1] = points[0];
    points[3] = negated(&points[2]);
    let index = pairs(12);
    let mut used = Scratch::with_capacity(1);
    let mut other = PointBuf::from_affine(&points, true);
    batch_add_in_place_with(&mut other, &[(20, 23), (4, 9)], &mut used);
    let mut one = PointBuf::from_affine(&points, true);
    let mut two = PointBuf::from_affine(&points, true);
    batch_add_in_place_with(&mut one, &index, &mut used);
    batch_add_in_place(&mut two, &index);
    for i in 0..24usize {
        assert_eq!(one.get(i), two.get(i), "point {i}");
    }
    // Doubling moves the second operand by (-y, -3 x^2 / 2); a negation marks it.
    let (x, y) = (points[0].x, points[0].y);
    let square = x.times(&x);
    let half = square.plus(&square).plus(&square).halve();
    assert_eq!(one.get(1), G1Affine::new(x.minus(&y), y.minus(&half), false));
    assert_eq!(one.get(3), G1Affine::new(points[3].x, points[3].y, true));
    assert_eq!(one.get(5), points[5]);
}
