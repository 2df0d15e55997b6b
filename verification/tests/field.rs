use snarkvm_kit::fq::Fq;

const THREE: Fq = Fq([0x869fffffffffe38, 0xf3c1de8a7fffff13, 0xde791afc9f77bfd6, 0x71ebc7264b752910, 0xe6ddc13e80b58eb9, 0x1a83325a8f9ddce]);
const FIVE: Fq = Fq([0x88fd3ffffffffd07, 0x7f37c04d4ffffe74, 0xfe81201ffa68f7bb, 0x4e661ca22778db8c, 0xba8be6fd148d4f4f, 0x114c5a35730b618]);
const FIFTEEN: Fq = Fq([0x15eefffffffff714, 0x669be3a3bffffb5d, 0xdc8ffe3035319f32, 0xd10f7bf375757f17, 0x6968af36d106a4b2, 0x19016a3edcd115f]);
const EIGHT: Fq = Fq([0xc5e7ffffffffb3e, 0x5bee41939ffffd87, 0xbe06d8ecdfd76f92, 0xa62f09d571f8f10e, 0xdb2ea27b28a194cd, 0x10ebe82e86582fc]);
const MINUS_TWO: Fq = Fq([0x7f6cc00000000131, 0x748a1e3d3000009e, 0xdff7fadca50ec81b, 0x2385aa8423fc4d83, 0x2c51da416c283f6a, 0x936d8251c927b6]);
const THIRD: Fq = Fq([0x2d47955555555523, 0xcd6ea997e555553b, 0x94d05c9dc1822d50, 0x8725d08e2525d231, 0xb10fde7ff99f44b6, 0xbe8ae2a8ebac81]);

#[test]
fn small_numbers_add_and_multiply() {
    assert_eq!(THREE.plus(&FIVE), EIGHT);
    assert_eq!(THREE.times(&FIVE), FIFTEEN);
    assert_eq!(THREE.minus(&FIVE), MINUS_TWO);
    assert_eq!(FIVE.minus(&EIGHT).negate(), THREE);
    assert_eq!(Fq::one(), Fq([0x2cdffffffffff68, 0x51409f837fffffb1, 0x9f7db3a98a7d3ff2, 0x7b4e97b76e7c6305, 0x4cf495bf803c84e8, 0x8d6661e2fdf49a]));
    assert_eq!(Fq::zero(), Fq([0; 6]));
}

#[test]
fn halves_double_back() {
    assert_eq!(EIGHT.halve().plus(&EIGHT.halve()), EIGHT);
    assert_eq!(FIVE.halve(), Fq([0x8702fffffffffe84, 0xcb218ec8bfffff3a, 0xeba4127da391fdd, 0x34447b4a9436f78e, 0xc063765ec0974c45, 0x1617ff4b77ae381]));
}

#[test]
fn inverses_multiply_to_one() {
    assert_eq!(THREE.inverse(), Some(THIRD));
    assert_eq!(Fq::one().inverse(), Some(Fq::one()));
    assert_eq!(Fq::zero().inverse(), None);
    let x = MINUS_TWO.inverse().unwrap();
    assert_eq!(x.times(&MINUS_TWO), Fq::one());
    assert!(Fq::zero().is_zero());
    assert!(!THREE.is_zero());
}
