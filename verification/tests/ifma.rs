use snarkvm_kit::domain::{
    from_ifma, from_ifma_x8, is_available, is_enabled, regroup_52_to_64, regroup_64_to_52, regroup_raw,
    shift_into_domain, shift_into_domain_slice, to_ifma, to_ifma_x8,
};
use snarkvm_kit::fq::Fq;
use snarkvm_kit::fq8::{add_x8, mul_x8, sub_x8, Fq8};
use snarkvm_kit::ifma::{
    add_p, add_ref, half_of, mont_mul_ref, sub_p_if_ge, sub_ref, HALF, LANES, LIMBS, ONE, P,
};

const ITERATIONS: usize = 5000;

/// 123456789 in scalar form.
const FQ_123456789: Fq = Fq([0xe2a17ffb9f1318c2, 0xdd3aa22a197e9bc3, 0x918d0c03cce184aa, 0x28afd9c870a5c879, 0x92de344e13075d72, 0x9c8fe4b05116b1]);

struct Rng(u64);

impl Rng {
    fn next(&mut self) -> u64 {
        self.0 ^= self.0 << 13;
        self.0 ^= self.0 >> 7;
        self.0 ^= self.0 << 17;
        self.0.wrapping_mul(0x2545f4914f6cdd1d)
    }

    /// A field element: the top limb stays below that of the modulus.
    fn fq(&mut self) -> Fq {
        Fq([
            self.next(),
            self.next(),
            self.next(),
            self.next(),
            self.next(),
            self.next() % 0x01ae3a4617c510ea,
        ])
    }
}

fn array<T: Copy>(zero: T, mut f: impl FnMut(usize) -> T) -> [T; LANES] {
    let mut out = [zero; LANES];
    for (i, slot) in out.iter_mut().enumerate() {
        *slot = f(i);
    }
    out
}

fn fqs(rng: &mut Rng) -> [Fq; LANES] {
    array(Fq::zero(), |_| rng.fq())
}

fn all_to_ifma(x: &[Fq; LANES]) -> [[u64; LIMBS]; LANES] {
    array([0u64; LIMBS], |i| to_ifma(&x[i]))
}

#[test]
fn test_limb_regrouping_roundtrips() {
    let mut rng = Rng(1);
    for _ in 0..ITERATIONS {
        let repr = rng.fq().0;
        assert_eq!(regroup_52_to_64(&regroup_64_to_52(&repr)), repr);
    }
}

#[test]
fn regrouping_of_known_words() {
    let words = [0xa5a5a5a5a5a5a5a5, 0x1, 0xffffffffffffffff, 0x11223344556677, 0xfedcba9876543210, 0x123456789abcdef];
    assert_eq!(regroup_64_to_52(&words), [0x5a5a5a5a5a5a5, 0x1a5a, 0xfffffff000000, 0x6677fffffffff, 0x1122334455, 0xdcba987654321, 0x56789abcdeffe, 0x1234]);
    // Bits above 384 are dropped on the way back.
    let mut limbs = regroup_64_to_52(&words);
    limbs[7] |= 1 << 20;
    assert_eq!(regroup_52_to_64(&limbs), words);
}

#[test]
fn test_domain_conversion_roundtrips() {
    let mut rng = Rng(2);
    for _ in 0..ITERATIONS {
        let f = rng.fq();
        assert_eq!(from_ifma(&to_ifma(&f)), f);
    }
    assert_eq!(from_ifma(&to_ifma(&Fq::zero())), Fq::zero());
    assert_eq!(from_ifma(&to_ifma(&Fq::one())), Fq::one());
}

#[test]
fn test_domain_constants() {
    // Check the constants against the conversion and against their closed forms, 2^416 and
    // 2^415 mod P.
    assert_eq!(ONE, to_ifma(&Fq::one()));
    assert_eq!(HALF, to_ifma(&Fq::one().halve()));
    assert_eq!(
        ONE,
        [
            0x33f67abdcbccf,
            0x13a714cde2ff1,
            0x80ef04efd57bd,
            0x68acd5a37c3a6,
            0x8c63c8655a9bd,
            0x7b4891129d194,
            0xb78d3aa6ef92f,
            0x0000000000028
        ]
    );
    assert_eq!(
        HALF,
        [
            0xdffb3d5ee5e68,
            0x2beb8a66f1c20,
            0x10c1c278a318d,
            0x3e1dfa4b6f351,
            0x1f02fb0245559,
            0xdb2728bf9f314,
            0x2df75b7bff1fa,
            0x0000000000d86
        ]
    );
    assert_eq!(add_ref(&HALF, &HALF), ONE);
    // `ONE` really is the multiplicative identity in this domain.
    let x = to_ifma(&FQ_123456789);
    assert_eq!(x, [0x718c1a2d71b70, 0xa8b2381216ff2, 0xb7f52eeabf1ea, 0x533ef27d5786a, 0x35d9d9488b5ab, 0x2d2fa77f0346a, 0x428c2412d6233, 0xd39]);
    assert_eq!(mont_mul_ref(&x, &ONE), x);
}

#[test]
fn test_scalar_reference_matches_fq() {
    let mut rng = Rng(3);
    for _ in 0..ITERATIONS {
        let a = rng.fq();
        let b = rng.fq();
        assert_eq!(from_ifma(&mont_mul_ref(&to_ifma(&a), &to_ifma(&b))), a.times(&b));
    }
}

#[test]
fn test_mul_x8_matches_fq() {
    let mut rng = Rng(4);
    for _ in 0..ITERATIONS / LANES {
        let a = fqs(&mut rng);
        let b = fqs(&mut rng);
        let got = mul_x8(&Fq8::load(&all_to_ifma(&a)), &Fq8::load(&all_to_ifma(&b))).store();
        for (lane, r) in got.iter().enumerate() {
            assert_eq!(from_ifma(r), a[lane].times(&b[lane]), "lane {lane}");
        }
    }
}

#[test]
fn test_mul_x8_edge_cases() {
    // Zero, one, and P-1 exercise the conditional subtraction.
    let p_minus_one = Fq::one().negate();
    let cases = [Fq::zero(), Fq::one(), p_minus_one, p_minus_one.times(&p_minus_one)];
    for a in cases {
        for b in cases {
            let av = [to_ifma(&a); LANES];
            let bv = [to_ifma(&b); LANES];
            let got = mul_x8(&Fq8::load(&av), &Fq8::load(&bv)).store();
            for (lane, r) in got.iter().enumerate() {
                assert_eq!(from_ifma(r), a.times(&b), "lane {lane}");
            }
        }
    }
}

#[test]
fn test_add_sub_x8_match_fq() {
    let mut rng = Rng(5);
    for _ in 0..ITERATIONS / LANES {
        let a = fqs(&mut rng);
        let b = fqs(&mut rng);
        let av = all_to_ifma(&a);
        let bv = all_to_ifma(&b);
        let (x, y) = (Fq8::load(&av), Fq8::load(&bv));
        let (sum, diff) = (add_x8(&x, &y).store(), sub_x8(&x, &y).store());
        for lane in 0..LANES {
            assert_eq!(from_ifma(&sum[lane]), a[lane].plus(&b[lane]), "add lane {lane}");
            assert_eq!(from_ifma(&diff[lane]), a[lane].minus(&b[lane]), "sub lane {lane}");
            // The scalar reference must agree too.
            assert_eq!(add_ref(&av[lane], &bv[lane]), sum[lane]);
            assert_eq!(sub_ref(&av[lane], &bv[lane]), diff[lane]);
        }
    }
}

#[test]
fn test_add_sub_x8_edge_cases() {
    let minus_one = Fq::one().negate();
    let cases = [Fq::zero(), Fq::one(), minus_one, minus_one.minus(&Fq::one())];
    for a in cases {
        for b in cases {
            let (x, y) = (Fq8::load(&[to_ifma(&a); LANES]), Fq8::load(&[to_ifma(&b); LANES]));
            let (sum, diff) = (add_x8(&x, &y).store(), sub_x8(&x, &y).store());
            assert_eq!(from_ifma(&sum[0]), a.plus(&b));
            assert_eq!(from_ifma(&diff[0]), a.minus(&b));
        }
    }
}

#[test]
fn test_mul_x8_lanes_are_independent() {
    let mut rng = Rng(6);
    let a = fqs(&mut rng);
    let b = fqs(&mut rng);
    let got = mul_x8(&Fq8::load(&all_to_ifma(&a)), &Fq8::load(&all_to_ifma(&b))).store();
    // Each lane must equal the product of that lane's own inputs only.
    for lane in 0..LANES {
        assert_eq!(from_ifma(&got[lane]), a[lane].times(&b[lane]));
        for (other, b_other) in b.iter().enumerate() {
            if other != lane {
                assert_ne!(from_ifma(&got[lane]), a[lane].times(b_other), "lanes crossed");
            }
        }
    }
}

#[test]
fn product_of_known_elements() {
    let x = to_ifma(&FQ_123456789);
    let square = [0x25b7f69cf8432, 0x42f25b3d032e6, 0x1c4d4d9e0b08f, 0xadfd76c62b392, 0x8ac4a4e046b0, 0xe134d1890c4cd, 0x800cd2cd61cbe, 0x98];
    assert_eq!(mont_mul_ref(&x, &x), square);
    assert_eq!(mul_x8(&Fq8::load(&[x; LANES]), &Fq8::load(&[x; LANES])).store(), [square; LANES]);
    assert_eq!(from_ifma(&square), Fq([0xe0678f7d6facdb80, 0xd859cac6528e5f31, 0x53449831aec06df0, 0xcd69f22b91a78f4a, 0x590d00b671de2900, 0xfc67a00f4e06b0]));
}

#[test]
fn reductions_around_the_modulus() {
    assert_eq!(sub_p_if_ge(P), [0; LIMBS]);
    assert_eq!(sub_p_if_ge(ONE), ONE);
    let mut above = P;
    above[0] += 5;
    assert_eq!(sub_p_if_ge(above), [5, 0, 0, 0, 0, 0, 0, 0]);
    let mut x = [5, 0, 0, 0, 0, 0, 0, 0];
    add_p(&mut x);
    assert_eq!(x, above);
    // An underflowed difference is corrected by one addition, modulo 2^416.
    let mut wrapped = [0xfffffffffffff; LIMBS];
    add_p(&mut wrapped);
    let mut below = P;
    below[0] -= 1;
    assert_eq!(wrapped, below);
}

#[test]
fn halves_of_even_and_odd_values() {
    assert_eq!(half_of(&ONE), HALF);
    assert_eq!(half_of(&[6, 0, 0, 0, 0, 0, 0, 0]), [3, 0, 0, 0, 0, 0, 0, 0]);
    assert_eq!(half_of(&[7, 0, 0, 0, 0, 0, 0, 0]), [0x4600000000004, 0xa218000000428, 0xd04a4000b85ae, 0x89c78f79b117d, 0xd8d116cf9807a, 0x1d82e03650a49, 0xd230be2887563, 0xd71]);
}

#[test]
fn eight_conversions_agree_on_both_paths() {
    let mut rng = Rng(7);
    let x = fqs(&mut rng);
    let inside = to_ifma_x8(&x, true);
    assert_eq!(inside, to_ifma_x8(&x, false));
    assert_eq!(inside, all_to_ifma(&x));
    assert_eq!(from_ifma_x8(&inside, true), x);
    assert_eq!(from_ifma_x8(&inside, false), x);
}

#[test]
fn slices_shift_alike_on_both_paths() {
    let mut rng = Rng(8);
    for n in [0usize, 1, 7, 8, 9, 16, 21] {
        let raw: Vec<[u64; LIMBS]> = (0..n).map(|_| regroup_raw(&rng.fq())).collect();
        let expected: Vec<[u64; LIMBS]> = raw.iter().map(shift_into_domain).collect();
        for available in [true, false] {
            let mut shifted = raw.clone();
            shift_into_domain_slice(&mut shifted, available);
            assert_eq!(shifted, expected);
        }
    }
}

#[test]
fn the_path_is_taken_where_it_can_be() {
    assert!(is_available(true, true));
    assert!(!is_available(true, false));
    assert!(!is_available(false, true));
    assert!(is_enabled(true, false));
    assert!(!is_enabled(true, true));
    assert!(!is_enabled(false, false));
}

#[test]
fn subtraction_undoes_addition() {
    let mut rng = Rng(9);
    for _ in 0..100 {
        let (a, b) = (to_ifma(&rng.fq()), to_ifma(&rng.fq()));
        assert_eq!(sub_ref(&add_ref(&a, &b), &b), a);
        assert_eq!(add_ref(&sub_ref(&a, &b), &b), a);
        assert_eq!(mont_mul_ref(&a, &ONE), a);
        assert_eq!(add_ref(&half_of(&a), &half_of(&a)), a);
    }
}
