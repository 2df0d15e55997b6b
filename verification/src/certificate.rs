//! The primality certificate of the base-field modulus.
//!
//! Each step raises a residue to a known power one hexadecimal digit of the exponent
//! at a time; every remainder is written out, so that one multiplication of literals
//! settles each line.

use crate::prime::{
    is_prime, lemma_pow_next, lemma_pow_tower, lemma_pow_window, lemma_prime_by_certificate,
};
use vstd::arithmetic::power::lemma_pow0;
use vstd::prelude::*;

verus! {

proof fn lemma_prime_2()
    ensures
        is_prime(2),
{
}

proof fn lemma_prime_19()
    ensures
        is_prime(19),
{
    assert forall|d: int| 1 < d < 19 implies #[trigger] (19int % d) != 0 by {
        if 19int % d == 0 {
            let q = 19int / d;
            assert(19 == d * q) by (nonlinear_arith)
                requires
                    19int % d == 0,
                    q == 19int / d,
                    d > 0,
            ;
            assert(1 < q < 19) by (nonlinear_arith)
                requires
                    19 == d * q,
                    1 < d < 19,
            ;
            if d > 4 && q > 4 {
                assert(d * q >= 25) by (nonlinear_arith)
                    requires
                        d >= 5,
                        q >= 5,
                ;
            } else if d == 2 {
                assert(19 == 2 * q);
            } else if d == 3 {
                assert(19 == 3 * q);
            } else if d == 4 {
                assert(19 == 4 * q);
            } else if q == 2 {
                assert(19 == d * 2);
            } else if q == 3 {
                assert(19 == d * 3);
            } else if q == 4 {
                assert(19 == d * 4);
            }
        }
    }
}

proof fn lemma_prime_47()
    ensures
        is_prime(47),
{
    assert forall|d: int| 1 < d < 47 implies #[trigger] (47int % d) != 0 by {
        if 47int % d == 0 {
            let q = 47int / d;
            assert(47 == d * q) by (nonlinear_arith)
                requires
                    47int % d == 0,
                    q == 47int / d,
                    d > 0,
            ;
            assert(1 < q < 47) by (nonlinear_arith)
                requires
                    47 == d * q,
                    1 < d < 47,
            ;
            if d > 6 && q > 6 {
                assert(d * q >= 49) by (nonlinear_arith)
                    requires
                        d >= 7,
                        q >= 7,
                ;
            } else if d == 2 {
                assert(47 == 2 * q);
            } else if d == 3 {
                assert(47 == 3 * q);
            } else if d == 4 {
                assert(47 == 4 * q);
            } else if d == 5 {
                assert(47 == 5 * q);
            } else if d == 6 {
                assert(47 == 6 * q);
            } else if q == 2 {
                assert(47 == d * 2);
            } else if q == 3 {
                assert(47 == d * 3);
            } else if q == 4 {
                assert(47 == d * 4);
            } else if q == 5 {
                assert(47 == d * 5);
            } else if q == 6 {
                assert(47 == d * 6);
            }
        }
    }
}

proof fn lemma_prime_457()
    ensures
        is_prime(0x1c9int),
{
    lemma_prime_2();
    lemma_prime_19();
    lemma_pow0(0x101int);
    lemma_pow_next(0x1c9int, 0x101int, 0x0nat, 0x1int, 0x101int);
    lemma_pow_next(0x1c9int, 0x101int, 0x1nat, 0x101int, 0xf1int);
    lemma_pow0(0x101int);
    lemma_pow_next(0x1c9int, 0x101int, 0x0nat, 0x1int, 0x101int);
    lemma_pow_next(0x1c9int, 0x101int, 0x1nat, 0x101int, 0xf1int);
    lemma_pow_next(0x1c9int, 0x101int, 0x2nat, 0xf1int, 0xf2int);
    lemma_pow_window(0x1c9int, 0x101int, 0x1nat, 0x101int, 0x3nat, 0xf2int, 0x1c8int);
    lemma_pow0(0x1c8int);
    lemma_pow_next(0x1c9int, 0x1c8int, 0x0nat, 0x1int, 0x1c8int);
    lemma_pow_next(0x1c9int, 0x1c8int, 0x1nat, 0x1c8int, 0x1int);
    lemma_pow_tower(0x1c9int, 0x101int, 0x13nat, 0x1c8int, 0x2nat, 1);
    lemma_prime_by_certificate(0x1c9int, 0x2int, 0x13int, 0x101int, 0xf1int, 0x1c8int, 0x13eint, 0xe4int);
}

proof fn lemma_prime_53927()
    ensures
        is_prime(0xd2a7int),
{
    lemma_prime_2();
    lemma_prime_457();
    lemma_pow0(0x1f47int);
    lemma_pow_next(0xd2a7int, 0x1f47int, 0x0nat, 0x1int, 0x1f47int);
    lemma_pow_next(0xd2a7int, 0x1f47int, 0x1nat, 0x1f47int, 0xb6b5int);
    lemma_pow0(0x1f47int);
    lemma_pow_next(0xd2a7int, 0x1f47int, 0x0nat, 0x1int, 0x1f47int);
    lemma_pow_next(0xd2a7int, 0x1f47int, 0x1nat, 0x1f47int, 0xb6b5int);
    lemma_pow_next(0xd2a7int, 0x1f47int, 0x2nat, 0xb6b5int, 0xa553int);
    lemma_pow_next(0xd2a7int, 0x1f47int, 0x3nat, 0xa553int, 0xbb1int);
    lemma_pow_next(0xd2a7int, 0x1f47int, 0x4nat, 0xbb1int, 0x5373int);
    lemma_pow_next(0xd2a7int, 0x1f47int, 0x5nat, 0x5373int, 0xc750int);
    lemma_pow_next(0xd2a7int, 0x1f47int, 0x6nat, 0xc750int, 0xcbafint);
    lemma_pow_next(0xd2a7int, 0x1f47int, 0x7nat, 0xcbafint, 0x1817int);
    lemma_pow_next(0xd2a7int, 0x1f47int, 0x8nat, 0x1817int, 0x8c7cint);
    lemma_pow_next(0xd2a7int, 0x1f47int, 0x9nat, 0x8c7cint, 0xb987int);
    lemma_pow_next(0xd2a7int, 0x1f47int, 0xanat, 0xb987int, 0xcfc4int);
    lemma_pow_next(0xd2a7int, 0x1f47int, 0xbnat, 0xcfc4int, 0x39cdint);
    lemma_pow_window(0xd2a7int, 0x1f47int, 0x1nat, 0x1f47int, 0xcnat, 0x39cdint, 0x2972int);
    lemma_pow_window(0xd2a7int, 0x1f47int, 0x1cnat, 0x2972int, 0x9nat, 0x8c7cint, 0xd2a6int);
    lemma_pow0(0xd2a6int);
    lemma_pow_next(0xd2a7int, 0xd2a6int, 0x0nat, 0x1int, 0xd2a6int);
    lemma_pow_next(0xd2a7int, 0xd2a6int, 0x1nat, 0xd2a6int, 0x1int);
    lemma_pow_tower(0xd2a7int, 0x1f47int, 0x1c9nat, 0xd2a6int, 0x2nat, 1);
    lemma_prime_by_certificate(0xd2a7int, 0x2int, 0x1c9int, 0x1f47int, 0xb6b5int, 0xd2a6int, 0x368eint, 0x6953int);
}

proof fn lemma_prime_f25()
    ensures
        is_prime(0x1564f61int),
{
    lemma_prime_2();
    lemma_prime_53927();
    lemma_pow0(0x8e4eecint);
    lemma_pow_next(0x1564f61int, 0x8e4eecint, 0x0nat, 0x1int, 0x8e4eecint);
    lemma_pow_next(0x1564f61int, 0x8e4eecint, 0x1nat, 0x8e4eecint, 0x105cf4bint);
    lemma_pow0(0x8e4eecint);
    lemma_pow_next(0x1564f61int, 0x8e4eecint, 0x0nat, 0x1int, 0x8e4eecint);
    lemma_pow_next(0x1564f61int, 0x8e4eecint, 0x1nat, 0x8e4eecint, 0x105cf4bint);
    lemma_pow_next(0x1564f61int, 0x8e4eecint, 0x2nat, 0x105cf4bint, 0xb1daint);
    lemma_pow_next(0x1564f61int, 0x8e4eecint, 0x3nat, 0xb1daint, 0x334d08int);
    lemma_pow_next(0x1564f61int, 0x8e4eecint, 0x4nat, 0x334d08int, 0x113fc98int);
    lemma_pow_next(0x1564f61int, 0x8e4eecint, 0x5nat, 0x113fc98int, 0x8aa6c8int);
    lemma_pow_next(0x1564f61int, 0x8e4eecint, 0x6nat, 0x8aa6c8int, 0x947e89int);
    lemma_pow_next(0x1564f61int, 0x8e4eecint, 0x7nat, 0x947e89int, 0x9c008cint);
    lemma_pow_next(0x1564f61int, 0x8e4eecint, 0x8nat, 0x9c008cint, 0x1063be7int);
    lemma_pow_next(0x1564f61int, 0x8e4eecint, 0x9nat, 0x1063be7int, 0x1408444int);
    lemma_pow_next(0x1564f61int, 0x8e4eecint, 0xanat, 0x1408444int, 0xb98a4bint);
    lemma_pow_next(0x1564f61int, 0x8e4eecint, 0xbnat, 0xb98a4bint, 0x50a8d7int);
    lemma_pow_next(0x1564f61int, 0x8e4eecint, 0xcnat, 0x50a8d7int, 0x66e3c1int);
    lemma_pow_window(0x1564f61int, 0x8e4eecint, 0xdnat, 0x66e3c1int, 0x2nat, 0x105cf4bint, 0xc9dc50int);
    lemma_pow_window(0x1564f61int, 0x8e4eecint, 0xd2nat, 0xc9dc50int, 0xanat, 0x1408444int, 0xb4fcfcint);
    lemma_pow_window(0x1564f61int, 0x8e4eecint, 0xd2anat, 0xb4fcfcint, 0x7nat, 0x947e89int, 0x1564f60int);
    lemma_pow0(0x1564f60int);
    lemma_pow_next(0x1564f61int, 0x1564f60int, 0x0nat, 0x1int, 0x1564f60int);
    lemma_pow_next(0x1564f61int, 0x1564f60int, 0x1nat, 0x1564f60int, 0x1int);
    lemma_pow_tower(0x1564f61int, 0x8e4eecint, 0xd2a7nat, 0x1564f60int, 0x2nat, 1);
    lemma_prime_by_certificate(0x1564f61int, 0x2int, 0xd2a7int, 0x8e4eecint, 0x105cf4bint, 0x1564f60int, 0x10d0dcfint, 0xab27b0int);
}

proof fn lemma_prime_f39()
    ensures
        is_prime(0x73241b449dint),
{
    lemma_prime_2();
    lemma_prime_f25();
    lemma_pow0(0x18069e86c8int);
    lemma_pow_next(0x73241b449dint, 0x18069e86c8int, 0x0nat, 0x1int, 0x18069e86c8int);
    lemma_pow_next(0x73241b449dint, 0x18069e86c8int, 0x1nat, 0x18069e86c8int, 0x6b1717a72fint);
    lemma_pow0(0x18069e86c8int);
    lemma_pow_next(0x73241b449dint, 0x18069e86c8int, 0x0nat, 0x1int, 0x18069e86c8int);
    lemma_pow_next(0x73241b449dint, 0x18069e86c8int, 0x1nat, 0x18069e86c8int, 0x6b1717a72fint);
    lemma_pow_next(0x73241b449dint, 0x18069e86c8int, 0x2nat, 0x6b1717a72fint, 0x6b8fbbe388int);
    lemma_pow_next(0x73241b449dint, 0x18069e86c8int, 0x3nat, 0x6b8fbbe388int, 0x270fa7b7ebint);
    lemma_pow_next(0x73241b449dint, 0x18069e86c8int, 0x4nat, 0x270fa7b7ebint, 0x39d18969adint);
    lemma_pow_next(0x73241b449dint, 0x18069e86c8int, 0x5nat, 0x39d18969adint, 0x6dcc8a5c06int);
    lemma_pow_next(0x73241b449dint, 0x18069e86c8int, 0x6nat, 0x6dcc8a5c06int, 0x5d9a471e51int);
    lemma_pow_next(0x73241b449dint, 0x18069e86c8int, 0x7nat, 0x5d9a471e51int, 0x37bd684555int);
    lemma_pow_next(0x73241b449dint, 0x18069e86c8int, 0x8nat, 0x37bd684555int, 0x50fe716f9dint);
    lemma_pow_next(0x73241b449dint, 0x18069e86c8int, 0x9nat, 0x50fe716f9dint, 0x5d0b6000afint);
    lemma_pow_next(0x73241b449dint, 0x18069e86c8int, 0xanat, 0x5d0b6000afint, 0x54ad11ca7bint);
    lemma_pow_next(0x73241b449dint, 0x18069e86c8int, 0xbnat, 0x54ad11ca7bint, 0xdf2fa5b26int);
    lemma_pow_next(0x73241b449dint, 0x18069e86c8int, 0xcnat, 0xdf2fa5b26int, 0x467ad5fc7dint);
    lemma_pow_next(0x73241b449dint, 0x18069e86c8int, 0xdnat, 0x467ad5fc7dint, 0x120778811dint);
    lemma_pow_next(0x73241b449dint, 0x18069e86c8int, 0xenat, 0x120778811dint, 0x5c4ee7d3f0int);
    lemma_pow_window(0x73241b449dint, 0x18069e86c8int, 0x1nat, 0x18069e86c8int, 0x5nat, 0x39d18969adint, 0x2c6c6a6027int);
    lemma_pow_window(0x73241b449dint, 0x18069e86c8int, 0x15nat, 0x2c6c6a6027int, 0x6nat, 0x6dcc8a5c06int, 0xdf38569fint);
    lemma_pow_window(0x73241b449dint, 0x18069e86c8int, 0x156nat, 0xdf38569fint, 0x4nat, 0x270fa7b7ebint, 0x4379f6b714int);
    lemma_pow_window(0x73241b449dint, 0x18069e86c8int, 0x1564nat, 0x4379f6b714int, 0xfnat, 0x5c4ee7d3f0int, 0x5d9c565f02int);
    lemma_pow_window(0x73241b449dint, 0x18069e86c8int, 0x1564fnat, 0x5d9c565f02int, 0x6nat, 0x6dcc8a5c06int, 0x6b06699a43int);
    lemma_pow_window(0x73241b449dint, 0x18069e86c8int, 0x1564f6nat, 0x6b06699a43int, 0x1nat, 0x18069e86c8int, 0x73241b449cint);
    lemma_pow0(0x73241b449cint);
    lemma_pow_next(0x73241b449dint, 0x73241b449cint, 0x0nat, 0x1int, 0x73241b449cint);
    lemma_pow_next(0x73241b449dint, 0x73241b449cint, 0x1nat, 0x73241b449cint, 0x1int);
    lemma_pow_tower(0x73241b449dint, 0x18069e86c8int, 0x1564f61nat, 0x73241b449cint, 0x2nat, 1);
    lemma_prime_by_certificate(0x73241b449dint, 0x2int, 0x1564f61int, 0x18069e86c8int, 0x6b1717a72fint, 0x73241b449cint, 0x2ee40af6b2int, 0x39920da24eint);
}

proof fn lemma_prime_1693()
    ensures
        is_prime(0x69dint),
{
    lemma_prime_2();
    lemma_prime_47();
    lemma_pow0(0x58eint);
    lemma_pow_next(0x69dint, 0x58eint, 0x0nat, 0x1int, 0x58eint);
    lemma_pow_next(0x69dint, 0x58eint, 0x1nat, 0x58eint, 0x282int);
    lemma_pow0(0x58eint);
    lemma_pow_next(0x69dint, 0x58eint, 0x0nat, 0x1int, 0x58eint);
    lemma_pow_next(0x69dint, 0x58eint, 0x1nat, 0x58eint, 0x282int);
    lemma_pow_next(0x69dint, 0x58eint, 0x2nat, 0x282int, 0x18dint);
    lemma_pow_next(0x69dint, 0x58eint, 0x3nat, 0x18dint, 0x2fdint);
    lemma_pow_next(0x69dint, 0x58eint, 0x4nat, 0x2fdint, 0x39cint);
    lemma_pow_next(0x69dint, 0x58eint, 0x5nat, 0x39cint, 0xa0int);
    lemma_pow_next(0x69dint, 0x58eint, 0x6nat, 0xa0int, 0x292int);
    lemma_pow_next(0x69dint, 0x58eint, 0x7nat, 0x292int, 0x474int);
    lemma_pow_next(0x69dint, 0x58eint, 0x8nat, 0x474int, 0x36fint);
    lemma_pow_next(0x69dint, 0x58eint, 0x9nat, 0x36fint, 0x1f8int);
    lemma_pow_next(0x69dint, 0x58eint, 0xanat, 0x1f8int, 0x225int);
    lemma_pow_next(0x69dint, 0x58eint, 0xbnat, 0x225int, 0xcdint);
    lemma_pow_next(0x69dint, 0x58eint, 0xcnat, 0xcdint, 0x13aint);
    lemma_pow_next(0x69dint, 0x58eint, 0xdnat, 0x13aint, 0x4e1int);
    lemma_pow_next(0x69dint, 0x58eint, 0xenat, 0x4e1int, 0x79int);
    lemma_pow_window(0x69dint, 0x58eint, 0x2nat, 0x282int, 0xfnat, 0x79int, 0x69cint);
    lemma_pow0(0x69cint);
    lemma_pow_next(0x69dint, 0x69cint, 0x0nat, 0x1int, 0x69cint);
    lemma_pow_next(0x69dint, 0x69cint, 0x1nat, 0x69cint, 0x1int);
    lemma_pow_tower(0x69dint, 0x58eint, 0x2fnat, 0x69cint, 0x2nat, 1);
    lemma_prime_by_certificate(0x69dint, 0x2int, 0x2fint, 0x58eint, 0x282int, 0x69cint, 0x4dcint, 0x34eint);
}

proof fn lemma_prime_f24()
    ensures
        is_prime(0x82f957int),
{
    lemma_prime_2();
    lemma_prime_1693();
    lemma_pow0(0x3940f1int);
    lemma_pow_next(0x82f957int, 0x3940f1int, 0x0nat, 0x1int, 0x3940f1int);
    lemma_pow_next(0x82f957int, 0x3940f1int, 0x1nat, 0x3940f1int, 0x2daf0bint);
    lemma_pow0(0x3940f1int);
    lemma_pow_next(0x82f957int, 0x3940f1int, 0x0nat, 0x1int, 0x3940f1int);
    lemma_pow_next(0x82f957int, 0x3940f1int, 0x1nat, 0x3940f1int, 0x2daf0bint);
    lemma_pow_next(0x82f957int, 0x3940f1int, 0x2nat, 0x2daf0bint, 0x308b73int);
    lemma_pow_next(0x82f957int, 0x3940f1int, 0x3nat, 0x308b73int, 0x7d5a6cint);
    lemma_pow_next(0x82f957int, 0x3940f1int, 0x4nat, 0x7d5a6cint, 0x505a73int);
    lemma_pow_next(0x82f957int, 0x3940f1int, 0x5nat, 0x505a73int, 0x73ce11int);
    lemma_pow_next(0x82f957int, 0x3940f1int, 0x6nat, 0x73ce11int, 0x3bf6fbint);
    lemma_pow_next(0x82f957int, 0x3940f1int, 0x7nat, 0x3bf6fbint, 0x302f79int);
    lemma_pow_next(0x82f957int, 0x3940f1int, 0x8nat, 0x302f79int, 0xe81beint);
    lemma_pow_next(0x82f957int, 0x3940f1int, 0x9nat, 0xe81beint, 0x63d4d8int);
    lemma_pow_next(0x82f957int, 0x3940f1int, 0xanat, 0x63d4d8int, 0x5bb394int);
    lemma_pow_next(0x82f957int, 0x3940f1int, 0xbnat, 0x5bb394int, 0x7af83bint);
    lemma_pow_next(0x82f957int, 0x3940f1int, 0xcnat, 0x7af83bint, 0x63258dint);
    lemma_pow_window(0x82f957int, 0x3940f1int, 0x6nat, 0x73ce11int, 0x9nat, 0xe81beint, 0x5e025dint);
    lemma_pow_window(0x82f957int, 0x3940f1int, 0x69nat, 0x5e025dint, 0xdnat, 0x63258dint, 0x82f956int);
    lemma_pow0(0x82f956int);
    lemma_pow_next(0x82f957int, 0x82f956int, 0x0nat, 0x1int, 0x82f956int);
    lemma_pow_next(0x82f957int, 0x82f956int, 0x1nat, 0x82f956int, 0x1int);
    lemma_pow_tower(0x82f957int, 0x3940f1int, 0x69dnat, 0x82f956int, 0x2nat, 1);
    lemma_prime_by_certificate(0x82f957int, 0x2int, 0x69dint, 0x3940f1int, 0x2daf0bint, 0x82f956int, 0x30bb1fint, 0x417cabint);
}

proof fn lemma_prime_f53()
    ensures
        is_prime(0x126dc07596c9ffint),
{
    lemma_prime_19();
    lemma_prime_f24();
    lemma_pow0(0x9571c1b6dc59eint);
    lemma_pow_next(0x126dc07596c9ffint, 0x9571c1b6dc59eint, 0x0nat, 0x1int, 0x9571c1b6dc59eint);
    lemma_pow_next(0x126dc07596c9ffint, 0x9571c1b6dc59eint, 0x1nat, 0x9571c1b6dc59eint, 0xc7ddf254b8c80int);
    lemma_pow_next(0x126dc07596c9ffint, 0x9571c1b6dc59eint, 0x2nat, 0xc7ddf254b8c80int, 0x9efb272fd0e62int);
    lemma_pow_window(0x126dc07596c9ffint, 0x9571c1b6dc59eint, 0x1nat, 0x9571c1b6dc59eint, 0x3nat, 0x9efb272fd0e62int, 0x7a92c25a64b96int);
    lemma_pow0(0x9571c1b6dc59eint);
    lemma_pow_next(0x126dc07596c9ffint, 0x9571c1b6dc59eint, 0x0nat, 0x1int, 0x9571c1b6dc59eint);
    lemma_pow_next(0x126dc07596c9ffint, 0x9571c1b6dc59eint, 0x1nat, 0x9571c1b6dc59eint, 0xc7ddf254b8c80int);
    lemma_pow_next(0x126dc07596c9ffint, 0x9571c1b6dc59eint, 0x2nat, 0xc7ddf254b8c80int, 0x9efb272fd0e62int);
    lemma_pow_next(0x126dc07596c9ffint, 0x9571c1b6dc59eint, 0x3nat, 0x9efb272fd0e62int, 0x3b2b616fc13a9int);
    lemma_pow_next(0x126dc07596c9ffint, 0x9571c1b6dc59eint, 0x4nat, 0x3b2b616fc13a9int, 0x9542b2b5e6310int);
    lemma_pow_next(0x126dc07596c9ffint, 0x9571c1b6dc59eint, 0x5nat, 0x9542b2b5e6310int, 0x5c4e700134209int);
    lemma_pow_next(0x126dc07596c9ffint, 0x9571c1b6dc59eint, 0x6nat, 0x5c4e700134209int, 0x38c2e385a4bc2int);
    lemma_pow_next(0x126dc07596c9ffint, 0x9571c1b6dc59eint, 0x7nat, 0x38c2e385a4bc2int, 0x470f72e4cff43int);
    lemma_pow_next(0x126dc07596c9ffint, 0x9571c1b6dc59eint, 0x8nat, 0x470f72e4cff43int, 0x3b24804387a62int);
    lemma_pow_next(0x126dc07596c9ffint, 0x9571c1b6dc59eint, 0x9nat, 0x3b24804387a62int, 0x120d3785f20f4aint);
    lemma_pow_next(0x126dc07596c9ffint, 0x9571c1b6dc59eint, 0xanat, 0x120d3785f20f4aint, 0x1f6e8554a0a7eint);
    lemma_pow_next(0x126dc07596c9ffint, 0x9571c1b6dc59eint, 0xbnat, 0x1f6e8554a0a7eint, 0xabae1afd109f4int);
    lemma_pow_next(0x126dc07596c9ffint, 0x9571c1b6dc59eint, 0xcnat, 0xabae1afd109f4int, 0xac62d78d44971int);
    lemma_pow_next(0x126dc07596c9ffint, 0x9571c1b6dc59eint, 0xdnat, 0xac62d78d44971int, 0x10542ddf15e909int);
    lemma_pow_next(0x126dc07596c9ffint, 0x9571c1b6dc59eint, 0xenat, 0x10542ddf15e909int, 0xf8470d0250688int);
    lemma_pow_window(0x126dc07596c9ffint, 0x9571c1b6dc59eint, 0x8nat, 0x470f72e4cff43int, 0x2nat, 0xc7ddf254b8c80int, 0xfa4bacf3647aint);
    lemma_pow_window(0x126dc07596c9ffint, 0x9571c1b6dc59eint, 0x82nat, 0xfa4bacf3647aint, 0xfnat, 0xf8470d0250688int, 0xe8ed327233566int);
    lemma_pow_window(0x126dc07596c9ffint, 0x9571c1b6dc59eint, 0x82fnat, 0xe8ed327233566int, 0x9nat, 0x3b24804387a62int, 0xae92bf0c95f99int);
    lemma_pow_window(0x126dc07596c9ffint, 0x9571c1b6dc59eint, 0x82f9nat, 0xae92bf0c95f99int, 0x5nat, 0x9542b2b5e6310int, 0x1155c745870d52int);
    lemma_pow_window(0x126dc07596c9ffint, 0x9571c1b6dc59eint, 0x82f95nat, 0x1155c745870d52int, 0x7nat, 0x38c2e385a4bc2int, 0x61c0f46708c82int);
    lemma_pow0(0x61c0f46708c82int);
    lemma_pow_next(0x126dc07596c9ffint, 0x61c0f46708c82int, 0x0nat, 0x1int, 0x61c0f46708c82int);
    lemma_pow_next(0x126dc07596c9ffint, 0x61c0f46708c82int, 0x1nat, 0x61c0f46708c82int, 0x7038810a01333int);
    lemma_pow_next(0x126dc07596c9ffint, 0x61c0f46708c82int, 0x2nat, 0x7038810a01333int, 0x3e8f86bb61ad7int);
    lemma_pow_window(0x126dc07596c9ffint, 0x61c0f46708c82int, 0x1nat, 0x61c0f46708c82int, 0x3nat, 0x3e8f86bb61ad7int, 0x1int);
    lemma_pow_tower(0x126dc07596c9ffint, 0x9571c1b6dc59eint, 0x82f957nat, 0x61c0f46708c82int, 0x13nat, 1);
    lemma_prime_by_certificate(0x126dc07596c9ffint, 0x13int, 0x82f957int, 0x9571c1b6dc59eint, 0x7a92c25a64b96int, 0x61c0f46708c82int, 0x125c6defd3bb81int, 0x19c0998742447int);
}

proof fn lemma_prime_f93()
    ensures
        is_prime(0x1976dddce33da7c73fb5412fint),
{
    lemma_prime_2();
    lemma_prime_f53();
    lemma_pow0(0xae61a0d43bd892c7fd2f763int);
    lemma_pow_next(0x1976dddce33da7c73fb5412fint, 0xae61a0d43bd892c7fd2f763int, 0x0nat, 0x1int, 0xae61a0d43bd892c7fd2f763int);
    lemma_pow_next(0x1976dddce33da7c73fb5412fint, 0xae61a0d43bd892c7fd2f763int, 0x1nat, 0xae61a0d43bd892c7fd2f763int, 0xfa512ac47b85533f968f4abint);
    lemma_pow0(0xae61a0d43bd892c7fd2f763int);
    lemma_pow_next(0x1976dddce33da7c73fb5412fint, 0xae61a0d43bd892c7fd2f763int, 0x0nat, 0x1int, 0xae61a0d43bd892c7fd2f763int);
    lemma_pow_next(0x1976dddce33da7c73fb5412fint, 0xae61a0d43bd892c7fd2f763int, 0x1nat, 0xae61a0d43bd892c7fd2f763int, 0xfa512ac47b85533f968f4abint);
    lemma_pow_next(0x1976dddce33da7c73fb5412fint, 0xae61a0d43bd892c7fd2f763int, 0x2nat, 0xfa512ac47b85533f968f4abint, 0x11f2e0e8a4d42ac69e659eaint);
    lemma_pow_next(0x1976dddce33da7c73fb5412fint, 0xae61a0d43bd892c7fd2f763int, 0x3nat, 0x11f2e0e8a4d42ac69e659eaint, 0x627f466e4b7bb40417e2c83int);
    lemma_pow_next(0x1976dddce33da7c73fb5412fint, 0xae61a0d43bd892c7fd2f763int, 0x4nat, 0x627f466e4b7bb40417e2c83int, 0x15ac20c48e8dbd4f76b3f4ddint);
    lemma_pow_next(0x1976dddce33da7c73fb5412fint, 0xae61a0d43bd892c7fd2f763int, 0x5nat, 0x15ac20c48e8dbd4f76b3f4ddint, 0x1822061fa95a93214c078c94int);
    lemma_pow_next(0x1976dddce33da7c73fb5412fint, 0xae61a0d43bd892c7fd2f763int, 0x6nat, 0x1822061fa95a93214c078c94int, 0x3c32cccafc42e8ca3d4b47int);
    lemma_pow_next(0x1976dddce33da7c73fb5412fint, 0xae61a0d43bd892c7fd2f763int, 0x7nat, 0x3c32cccafc42e8ca3d4b47int, 0xfc294d4652cced00bf61628int);
    lemma_pow_next(0x1976dddce33da7c73fb5412fint, 0xae61a0d43bd892c7fd2f763int, 0x8nat, 0xfc294d4652cced00bf61628int, 0xe8b14ab46374575f9eec6ebint);
    lemma_pow_next(0x1976dddce33da7c73fb5412fint, 0xae61a0d43bd892c7fd2f763int, 0x9nat, 0xe8b14ab46374575f9eec6ebint, 0x1053418a2ac305d6d6001fcbint);
    lemma_pow_next(0x1976dddce33da7c73fb5412fint, 0xae61a0d43bd892c7fd2f763int, 0xanat, 0x1053418a2ac305d6d6001fcbint, 0x15948c07f0b68caf6ca72506int);
    lemma_pow_next(0x1976dddce33da7c73fb5412fint, 0xae61a0d43bd892c7fd2f763int, 0xbnat, 0x15948c07f0b68caf6ca72506int, 0x20c1a45db1b453285f63cb5int);
    lemma_pow_next(0x1976dddce33da7c73fb5412fint, 0xae61a0d43bd892c7fd2f763int, 0xcnat, 0x20c1a45db1b453285f63cb5int, 0x15897db0a7fab746bcacfdeaint);
    lemma_pow_next(0x1976dddce33da7c73fb5412fint, 0xae61a0d43bd892c7fd2f763int, 0xdnat, 0x15897db0a7fab746bcacfdeaint, 0x18d87f0368d2bcce3d490430int);
    lemma_pow_next(0x1976dddce33da7c73fb5412fint, 0xae61a0d43bd892c7fd2f763int, 0xenat, 0x18d87f0368d2bcce3d490430int, 0x10e87dce56ba8ea35012374int);
    lemma_pow_window(0x1976dddce33da7c73fb5412fint, 0xae61a0d43bd892c7fd2f763int, 0x1nat, 0xae61a0d43bd892c7fd2f763int, 0x2nat, 0xfa512ac47b85533f968f4abint, 0x10be099213247c878150619fint);
    lemma_pow_window(0x1976dddce33da7c73fb5412fint, 0xae61a0d43bd892c7fd2f763int, 0x12nat, 0x10be099213247c878150619fint, 0x6nat, 0x1822061fa95a93214c078c94int, 0x1437b1bfe8aedafcd3903af3int);
    lemma_pow_window(0x1976dddce33da7c73fb5412fint, 0xae61a0d43bd892c7fd2f763int, 0x126nat, 0x1437b1bfe8aedafcd3903af3int, 0xdnat, 0x15897db0a7fab746bcacfdeaint, 0x16d0964dd20e7f67af6f3eb4int);
    lemma_pow_window(0x1976dddce33da7c73fb5412fint, 0xae61a0d43bd892c7fd2f763int, 0x126dnat, 0x16d0964dd20e7f67af6f3eb4int, 0xcnat, 0x20c1a45db1b453285f63cb5int, 0x66c98e5c8f407bb06321356int);
    lemma_pow_window(0x1976dddce33da7c73fb5412fint, 0xae61a0d43bd892c7fd2f763int, 0x126dcnat, 0x66c98e5c8f407bb06321356int, 0x0nat, 0x1int, 0x9709ee30aa200f344f343f6int);
    lemma_pow_window(0x1976dddce33da7c73fb5412fint, 0xae61a0d43bd892c7fd2f763int, 0x126dc0nat, 0x9709ee30aa200f344f343f6int, 0x7nat, 0x3c32cccafc42e8ca3d4b47int, 0x18e11f079c00978efbea225dint);
    lemma_pow_window(0x1976dddce33da7c73fb5412fint, 0xae61a0d43bd892c7fd2f763int, 0x126dc07nat, 0x18e11f079c00978efbea225dint, 0x5nat, 0x15ac20c48e8dbd4f76b3f4ddint, 0xdda2837a6ebe7c1f5c55cd4int);
    lemma_pow_window(0x1976dddce33da7c73fb5412fint, 0xae61a0d43bd892c7fd2f763int, 0x126dc075nat, 0xdda2837a6ebe7c1f5c55cd4int, 0x9nat, 0xe8b14ab46374575f9eec6ebint, 0x12ab8e5e3db14cc418931e0cint);
    lemma_pow_window(0x1976dddce33da7c73fb5412fint, 0xae61a0d43bd892c7fd2f763int, 0x126dc0759nat, 0x12ab8e5e3db14cc418931e0cint, 0x6nat, 0x1822061fa95a93214c078c94int, 0x9298c9b00705014f381adc7int);
    lemma_pow_window(0x1976dddce33da7c73fb5412fint, 0xae61a0d43bd892c7fd2f763int, 0x126dc07596nat, 0x9298c9b00705014f381adc7int, 0xcnat, 0x20c1a45db1b453285f63cb5int, 0x5de93052fd875f662450fc4int);
    lemma_pow_window(0x1976dddce33da7c73fb5412fint, 0xae61a0d43bd892c7fd2f763int, 0x126dc07596cnat, 0x5de93052fd875f662450fc4int, 0x9nat, 0xe8b14ab46374575f9eec6ebint, 0x95d2c08f1974aa922c199d2int);
    lemma_pow_window(0x1976dddce33da7c73fb5412fint, 0xae61a0d43bd892c7fd2f763int, 0x126dc07596c9nat, 0x95d2c08f1974aa922c199d2int, 0xfnat, 0x10e87dce56ba8ea35012374int, 0x17cf689bb7f569411446fb5cint);
    lemma_pow_window(0x1976dddce33da7c73fb5412fint, 0xae61a0d43bd892c7fd2f763int, 0x126dc07596c9fnat, 0x17cf689bb7f569411446fb5cint, 0xfnat, 0x10e87dce56ba8ea35012374int, 0x1976dddce33da7c73fb5412eint);
    lemma_pow0(0x1976dddce33da7c73fb5412eint);
    lemma_pow_next(0x1976dddce33da7c73fb5412fint, 0x1976dddce33da7c73fb5412eint, 0x0nat, 0x1int, 0x1976dddce33da7c73fb5412eint);
    lemma_pow_next(0x1976dddce33da7c73fb5412fint, 0x1976dddce33da7c73fb5412eint, 0x1nat, 0x1976dddce33da7c73fb5412eint, 0x1int);
    lemma_pow_tower(0x1976dddce33da7c73fb5412fint, 0xae61a0d43bd892c7fd2f763int, 0x126dc07596c9ffnat, 0x1976dddce33da7c73fb5412eint, 0x2nat, 1);
    lemma_prime_by_certificate(0x1976dddce33da7c73fb5412fint, 0x2int, 0x126dc07596c9ffint, 0xae61a0d43bd892c7fd2f763int, 0xfa512ac47b85533f968f4abint, 0x1976dddce33da7c73fb5412eint, 0x7877268fbfc7c4e2b33edeint, 0xcbb6eee719ed3e39fdaa097int);
}

proof fn lemma_prime_cofactor()
    ensures
        is_prime(0x2b8da543801562d9d26c61b01f713d549bcb2bae4a040310174193095int),
{
    lemma_prime_f39();
    lemma_prime_f93();
    lemma_pow0(0x10f0353fb0573856abdbd70e35e24119336686676ba3264181d727814int);
    lemma_pow_next(0x2b8da543801562d9d26c61b01f713d549bcb2bae4a040310174193095int, 0x10f0353fb0573856abdbd70e35e24119336686676ba3264181d727814int, 0x0nat, 0x1int, 0x10f0353fb0573856abdbd70e35e24119336686676ba3264181d727814int);
    lemma_pow_next(0x2b8da543801562d9d26c61b01f713d549bcb2bae4a040310174193095int, 0x10f0353fb0573856abdbd70e35e24119336686676ba3264181d727814int, 0x1nat, 0x10f0353fb0573856abdbd70e35e24119336686676ba3264181d727814int, 0xc574f4a8f1a9a366061641d942a6e350d4f00ac9e4a043f1e4c3aa24int);
    lemma_pow_next(0x2b8da543801562d9d26c61b01f713d549bcb2bae4a040310174193095int, 0x10f0353fb0573856abdbd70e35e24119336686676ba3264181d727814int, 0x2nat, 0xc574f4a8f1a9a366061641d942a6e350d4f00ac9e4a043f1e4c3aa24int, 0x2323357fe848967826c7d2ee250adb6b38dfd1e7eb9a727c3ed0264bdint);
    lemma_pow_next(0x2b8da543801562d9d26c61b01f713d549bcb2bae4a040310174193095int, 0x10f0353fb0573856abdbd70e35e24119336686676ba3264181d727814int, 0x3nat, 0x2323357fe848967826c7d2ee250adb6b38dfd1e7eb9a727c3ed0264bdint, 0x1b42c3c68ad0532b6207f6cdb16f0a4563b381a10c637cee563524e47int);
    lemma_pow_next(0x2b8da543801562d9d26c61b01f713d549bcb2bae4a040310174193095int, 0x10f0353fb0573856abdbd70e35e24119336686676ba3264181d727814int, 0x4nat, 0x1b42c3c68ad0532b6207f6cdb16f0a4563b381a10c637cee563524e47int, 0x14d79e5b0c262dc185c275d867647dd17a461f1e0ee1fe263c19308fcint);
    lemma_pow_next(0x2b8da543801562d9d26c61b01f713d549bcb2bae4a040310174193095int, 0x10f0353fb0573856abdbd70e35e24119336686676ba3264181d727814int, 0x5nat, 0x14d79e5b0c262dc185c275d867647dd17a461f1e0ee1fe263c19308fcint, 0x293e59369d1d77890d833e7e49ede3d418adc02a01c28db352187bf69int);
    lemma_pow_next(0x2b8da543801562d9d26c61b01f713d549bcb2bae4a040310174193095int, 0x10f0353fb0573856abdbd70e35e24119336686676ba3264181d727814int, 0x6nat, 0x293e59369d1d77890d833e7e49ede3d418adc02a01c28db352187bf69int, 0x20d74bca664735568ab13fddd8c16af7e2f82dc47c166aa6571e579b0int);
    lemma_pow_next(0x2b8da543801562d9d26c61b01f713d549bcb2bae4a040310174193095int, 0x10f0353fb0573856abdbd70e35e24119336686676ba3264181d727814int, 0x7nat, 0x20d74bca664735568ab13fddd8c16af7e2f82dc47c166aa6571e579b0int, 0x10c41a3a44cedf5abdc7df6992d245c778096c8e1288ac79dab84e07eint);
    lemma_pow_next(0x2b8da543801562d9d26c61b01f713d549bcb2bae4a040310174193095int, 0x10f0353fb0573856abdbd70e35e24119336686676ba3264181d727814int, 0x8nat, 0x10c41a3a44cedf5abdc7df6992d245c778096c8e1288ac79dab84e07eint, 0x1d52951452a72dfc5a93bc4fdba683bfb9aa994d18c2c8efb0389f92int);
    lemma_pow_next(0x2b8da543801562d9d26c61b01f713d549bcb2bae4a040310174193095int, 0x10f0353fb0573856abdbd70e35e24119336686676ba3264181d727814int, 0x9nat, 0x1d52951452a72dfc5a93bc4fdba683bfb9aa994d18c2c8efb0389f92int, 0x289e8e2c53d478e08681fd2057d979c6631167d3d81d73a12e9a3d060int);
    lemma_pow_next(0x2b8da543801562d9d26c61b01f713d549bcb2bae4a040310174193095int, 0x10f0353fb0573856abdbd70e35e24119336686676ba3264181d727814int, 0xanat, 0x289e8e2c53d478e08681fd2057d979c6631167d3d81d73a12e9a3d060int, 0x25ef52dc36b2fc1575d2f8174796bb08cf49f30db7b1d14b293af72a0int);
    lemma_pow_next(0x2b8da543801562d9d26c61b01f713d549bcb2bae4a040310174193095int, 0x10f0353fb0573856abdbd70e35e24119336686676ba3264181d727814int, 0xbnat, 0x25ef52dc36b2fc1575d2f8174796bb08cf49f30db7b1d14b293af72a0int, 0xcb7c857fe5f2fc65afca06e78c1c10a59f72627b4f6095d2f9b47127int);
    lemma_pow_next(0x2b8da543801562d9d26c61b01f713d549bcb2bae4a040310174193095int, 0x10f0353fb0573856abdbd70e35e24119336686676ba3264181d727814int, 0xcnat, 0xcb7c857fe5f2fc65afca06e78c1c10a59f72627b4f6095d2f9b47127int, 0x2964158ce67bf890e20bda50df7fe49843e59e1993a63d7a80598e63fint);
    lemma_pow_window(0x2b8da543801562d9d26c61b01f713d549bcb2bae4a040310174193095int, 0x10f0353fb0573856abdbd70e35e24119336686676ba3264181d727814int, 0x7nat, 0x20d74bca664735568ab13fddd8c16af7e2f82dc47c166aa6571e579b0int, 0x3nat, 0x2323357fe848967826c7d2ee250adb6b38dfd1e7eb9a727c3ed0264bdint, 0x65fd76a10bf6caf25e6ed11091d654b99cdbed06cd67148c181c0df4int);
    lemma_pow_window(0x2b8da543801562d9d26c61b01f713d549bcb2bae4a040310174193095int, 0x10f0353fb0573856abdbd70e35e24119336686676ba3264181d727814int, 0x73nat, 0x65fd76a10bf6caf25e6ed11091d654b99cdbed06cd67148c181c0df4int, 0x2nat, 0xc574f4a8f1a9a366061641d942a6e350d4f00ac9e4a043f1e4c3aa24int, 0x2b02496bc63a133172b25d7e5f40e494791e4c2e00c336d1c21d8190dint);
    lemma_pow_window(0x2b8da543801562d9d26c61b01f713d549bcb2bae4a040310174193095int, 0x10f0353fb0573856abdbd70e35e24119336686676ba3264181d727814int, 0x732nat, 0x2b02496bc63a133172b25d7e5f40e494791e4c2e00c336d1c21d8190dint, 0x4nat, 0x1b42c3c68ad0532b6207f6cdb16f0a4563b381a10c637cee563524e47int, 0x1a6f22bbb76fc4658a200d31af9c40b875282e49d41e54bef05b3a7caint);
    lemma_pow_window(0x2b8da543801562d9d26c61b01f713d549bcb2bae4a040310174193095int, 0x10f0353fb0573856abdbd70e35e24119336686676ba3264181d727814int, 0x7324nat, 0x1a6f22bbb76fc4658a200d31af9c40b875282e49d41e54bef05b3a7caint, 0x1nat, 0x10f0353fb0573856abdbd70e35e24119336686676ba3264181d727814int, 0x1a91f157299b2e258d4ef2c101cebd00b50fb980f9526fec1599fbf3fint);
    lemma_pow_window(0x2b8da543801562d9d26c61b01f713d549bcb2bae4a040310174193095int, 0x10f0353fb0573856abdbd70e35e24119336686676ba3264181d727814int, 0x73241nat, 0x1a91f157299b2e258d4ef2c101cebd00b50fb980f9526fec1599fbf3fint, 0xbnat, 0x25ef52dc36b2fc1575d2f8174796bb08cf49f30db7b1d14b293af72a0int, 0x177552820e4937d19a764960bd72526b64b626a1b5c3f0d9b56bce6f5int);
    lemma_pow_window(0x2b8da543801562d9d26c61b01f713d549bcb2bae4a040310174193095int, 0x10f0353fb0573856abdbd70e35e24119336686676ba3264181d727814int, 0x73241bnat, 0x177552820e4937d19a764960bd72526b64b626a1b5c3f0d9b56bce6f5int, 0x4nat, 0x1b42c3c68ad0532b6207f6cdb16f0a4563b381a10c637cee563524e47int, 0x19fcbc34bf9be5b64054f71265bd59b0e0b7720d790fbbf9d1de8eeecint);
    lemma_pow_window(0x2b8da543801562d9d26c61b01f713d549bcb2bae4a040310174193095int, 0x10f0353fb0573856abdbd70e35e24119336686676ba3264181d727814int, 0x73241b4nat, 0x19fcbc34bf9be5b64054f71265bd59b0e0b7720d790fbbf9d1de8eeecint, 0x4nat, 0x1b42c3c68ad0532b6207f6cdb16f0a4563b381a10c637cee563524e47int, 0x2234b5b050a40522c5af5b6b09b00e7cd9761b0d1b1f618647f9ef319int);
    lemma_pow_window(0x2b8da543801562d9d26c61b01f713d549bcb2bae4a040310174193095int, 0x10f0353fb0573856abdbd70e35e24119336686676ba3264181d727814int, 0x73241b44nat, 0x2234b5b050a40522c5af5b6b09b00e7cd9761b0d1b1f618647f9ef319int, 0x9nat, 0x1d52951452a72dfc5a93bc4fdba683bfb9aa994d18c2c8efb0389f92int, 0xdd0f713443b6d33ced824a9ee5f4463e13bfebeb92abe5cacc52887int);
    lemma_pow_window(0x2b8da543801562d9d26c61b01f713d549bcb2bae4a040310174193095int, 0x10f0353fb0573856abdbd70e35e24119336686676ba3264181d727814int, 0x73241b449nat, 0xdd0f713443b6d33ced824a9ee5f4463e13bfebeb92abe5cacc52887int, 0xdnat, 0x2964158ce67bf890e20bda50df7fe49843e59e1993a63d7a80598e63fint, 0xd6aa489a8fc0066b1075bc152bf42262eb4ff2347f277d542507d47bint);
    lemma_pow0(0x10f0353fb0573856abdbd70e35e24119336686676ba3264181d727814int);
    lemma_pow_next(0x2b8da543801562d9d26c61b01f713d549bcb2bae4a040310174193095int, 0x10f0353fb0573856abdbd70e35e24119336686676ba3264181d727814int, 0x0nat, 0x1int, 0x10f0353fb0573856abdbd70e35e24119336686676ba3264181d727814int);
    lemma_pow_next(0x2b8da543801562d9d26c61b01f713d549bcb2bae4a040310174193095int, 0x10f0353fb0573856abdbd70e35e24119336686676ba3264181d727814int, 0x1nat, 0x10f0353fb0573856abdbd70e35e24119336686676ba3264181d727814int, 0xc574f4a8f1a9a366061641d942a6e350d4f00ac9e4a043f1e4c3aa24int);
    lemma_pow_next(0x2b8da543801562d9d26c61b01f713d549bcb2bae4a040310174193095int, 0x10f0353fb0573856abdbd70e35e24119336686676ba3264181d727814int, 0x2nat, 0xc574f4a8f1a9a366061641d942a6e350d4f00ac9e4a043f1e4c3aa24int, 0x2323357fe848967826c7d2ee250adb6b38dfd1e7eb9a727c3ed0264bdint);
    lemma_pow_next(0x2b8da543801562d9d26c61b01f713d549bcb2bae4a040310174193095int, 0x10f0353fb0573856abdbd70e35e24119336686676ba3264181d727814int, 0x3nat, 0x2323357fe848967826c7d2ee250adb6b38dfd1e7eb9a727c3ed0264bdint, 0x1b42c3c68ad0532b6207f6cdb16f0a4563b381a10c637cee563524e47int);
    lemma_pow_next(0x2b8da543801562d9d26c61b01f713d549bcb2bae4a040310174193095int, 0x10f0353fb0573856abdbd70e35e24119336686676ba3264181d727814int, 0x4nat, 0x1b42c3c68ad0532b6207f6cdb16f0a4563b381a10c637cee563524e47int, 0x14d79e5b0c262dc185c275d867647dd17a461f1e0ee1fe263c19308fcint);
    lemma_pow_next(0x2b8da543801562d9d26c61b01f713d549bcb2bae4a040310174193095int, 0x10f0353fb0573856abdbd70e35e24119336686676ba3264181d727814int, 0x5nat, 0x14d79e5b0c262dc185c275d867647dd17a461f1e0ee1fe263c19308fcint, 0x293e59369d1d77890d833e7e49ede3d418adc02a01c28db352187bf69int);
    lemma_pow_next(0x2b8da543801562d9d26c61b01f713d549bcb2bae4a040310174193095int, 0x10f0353fb0573856abdbd70e35e24119336686676ba3264181d727814int, 0x6nat, 0x293e59369d1d77890d833e7e49ede3d418adc02a01c28db352187bf69int, 0x20d74bca664735568ab13fddd8c16af7e2f82dc47c166aa6571e579b0int);
    lemma_pow_next(0x2b8da543801562d9d26c61b01f713d549bcb2bae4a040310174193095int, 0x10f0353fb0573856abdbd70e35e24119336686676ba3264181d727814int, 0x7nat, 0x20d74bca664735568ab13fddd8c16af7e2f82dc47c166aa6571e579b0int, 0x10c41a3a44cedf5abdc7df6992d245c778096c8e1288ac79dab84e07eint);
    lemma_pow_next(0x2b8da543801562d9d26c61b01f713d549bcb2bae4a040310174193095int, 0x10f0353fb0573856abdbd70e35e24119336686676ba3264181d727814int, 0x8nat, 0x10c41a3a44cedf5abdc7df6992d245c778096c8e1288ac79dab84e07eint, 0x1d52951452a72dfc5a93bc4fdba683bfb9aa994d18c2c8efb0389f92int);
    lemma_pow_next(0x2b8da543801562d9d26c61b01f713d549bcb2bae4a040310174193095int, 0x10f0353fb0573856abdbd70e35e24119336686676ba3264181d727814int, 0x9nat, 0x1d52951452a72dfc5a93bc4fdba683bfb9aa994d18c2c8efb0389f92int, 0x289e8e2c53d478e08681fd2057d979c6631167d3d81d73a12e9a3d060int);
    lemma_pow_next(0x2b8da543801562d9d26c61b01f713d549bcb2bae4a040310174193095int, 0x10f0353fb0573856abdbd70e35e24119336686676ba3264181d727814int, 0xanat, 0x289e8e2c53d478e08681fd2057d979c6631167d3d81d73a12e9a3d060int, 0x25ef52dc36b2fc1575d2f8174796bb08cf49f30db7b1d14b293af72a0int);
    lemma_pow_next(0x2b8da543801562d9d26c61b01f713d549bcb2bae4a040310174193095int, 0x10f0353fb0573856abdbd70e35e24119336686676ba3264181d727814int, 0xbnat, 0x25ef52dc36b2fc1575d2f8174796bb08cf49f30db7b1d14b293af72a0int, 0xcb7c857fe5f2fc65afca06e78c1c10a59f72627b4f6095d2f9b47127int);
    lemma_pow_next(0x2b8da543801562d9d26c61b01f713d549bcb2bae4a040310174193095int, 0x10f0353fb0573856abdbd70e35e24119336686676ba3264181d727814int, 0xcnat, 0xcb7c857fe5f2fc65afca06e78c1c10a59f72627b4f6095d2f9b47127int, 0x2964158ce67bf890e20bda50df7fe49843e59e1993a63d7a80598e63fint);
    lemma_pow_next(0x2b8da543801562d9d26c61b01f713d549bcb2bae4a040310174193095int, 0x10f0353fb0573856abdbd70e35e24119336686676ba3264181d727814int, 0xdnat, 0x2964158ce67bf890e20bda50df7fe49843e59e1993a63d7a80598e63fint, 0xc98b1e4d9e620ceeb3d1e54a55d7b4b174f6bcbdd7c3354f03c546f4int);
    lemma_pow_next(0x2b8da543801562d9d26c61b01f713d549bcb2bae4a040310174193095int, 0x10f0353fb0573856abdbd70e35e24119336686676ba3264181d727814int, 0xenat, 0xc98b1e4d9e620ceeb3d1e54a55d7b4b174f6bcbdd7c3354f03c546f4int, 0x13cfd1ce03f78bbaaedfe5fe10ad3c501701f5530bdac6c12a7b2bd90int);
    lemma_pow_window(0x2b8da543801562d9d26c61b01f713d549bcb2bae4a040310174193095int, 0x10f0353fb0573856abdbd70e35e24119336686676ba3264181d727814int, 0x1nat, 0x10f0353fb0573856abdbd70e35e24119336686676ba3264181d727814int, 0x9nat, 0x1d52951452a72dfc5a93bc4fdba683bfb9aa994d18c2c8efb0389f92int, 0x2c42e2296af037e429cdbd52864b253b54eeeeb41ad46f384bd9afcaint);
    lemma_pow_window(0x2b8da543801562d9d26c61b01f713d549bcb2bae4a040310174193095int, 0x10f0353fb0573856abdbd70e35e24119336686676ba3264181d727814int, 0x19nat, 0x2c42e2296af037e429cdbd52864b253b54eeeeb41ad46f384bd9afcaint, 0x7nat, 0x20d74bca664735568ab13fddd8c16af7e2f82dc47c166aa6571e579b0int, 0x1eed08938ef2887b4c4b2a6ea5135c48ec9e9c0dcd102b26f37d36f4eint);
    lemma_pow_window(0x2b8da543801562d9d26c61b01f713d549bcb2bae4a040310174193095int, 0x10f0353fb0573856abdbd70e35e24119336686676ba3264181d727814int, 0x197nat, 0x1eed08938ef2887b4c4b2a6ea5135c48ec9e9c0dcd102b26f37d36f4eint, 0x6nat, 0x293e59369d1d77890d833e7e49ede3d418adc02a01c28db352187bf69int, 0x26d988d6b72a717f6a5088725fb0269081fa5b470776235c105a86c8eint);
    lemma_pow_window(0x2b8da543801562d9d26c61b01f713d549bcb2bae4a040310174193095int, 0x10f0353fb0573856abdbd70e35e24119336686676ba3264181d727814int, 0x1976nat, 0x26d988d6b72a717f6a5088725fb0269081fa5b470776235c105a86c8eint, 0xdnat, 0x2964158ce67bf890e20bda50df7fe49843e59e1993a63d7a80598e63fint, 0xfa42cabb23f1c8ebd2a94ade4dcec8df9ac39cb731a353be27dc591int);
    lemma_pow_window(0x2b8da543801562d9d26c61b01f713d549bcb2bae4a040310174193095int, 0x10f0353fb0573856abdbd70e35e24119336686676ba3264181d727814int, 0x1976dnat, 0xfa42cabb23f1c8ebd2a94ade4dcec8df9ac39cb731a353be27dc591int, 0xdnat, 0x2964158ce67bf890e20bda50df7fe49843e59e1993a63d7a80598e63fint, 0x18f949618a73e25f24bc63eea1b0941386da10fe605d42ac2ad34d10aint);
    lemma_pow_window(0x2b8da543801562d9d26c61b01f713d549bcb2bae4a040310174193095int, 0x10f0353fb0573856abdbd70e35e24119336686676ba3264181d727814int, 0x1976ddnat, 0x18f949618a73e25f24bc63eea1b0941386da10fe605d42ac2ad34d10aint, 0xdnat, 0x2964158ce67bf890e20bda50df7fe49843e59e1993a63d7a80598e63fint, 0x235f72c06f90268b06356d3d803ef76a0486d37d8f7346f3d9190e152int);
    lemma_pow_window(0x2b8da543801562d9d26c61b01f713d549bcb2bae4a040310174193095int, 0x10f0353fb0573856abdbd70e35e24119336686676ba3264181d727814int, 0x1976dddnat, 0x235f72c06f90268b06356d3d803ef76a0486d37d8f7346f3d9190e152int, 0xcnat, 0xcb7c857fe5f2fc65afca06e78c1c10a59f72627b4f6095d2f9b47127int, 0x3d5b0aeb9c6904c01b888f2e04f9983249048dfbb4781dabae328896int);
    lemma_pow_window(0x2b8da543801562d9d26c61b01f713d549bcb2bae4a040310174193095int, 0x10f0353fb0573856abdbd70e35e24119336686676ba3264181d727814int, 0x1976dddcnat, 0x3d5b0aeb9c6904c01b888f2e04f9983249048dfbb4781dabae328896int, 0xenat, 0xc98b1e4d9e620ceeb3d1e54a55d7b4b174f6bcbdd7c3354f03c546f4int, 0x63ce956798a3dadc3005217c22408c5a1af4b17dfd63d6a5d029e5b1int);
    lemma_pow_window(0x2b8da543801562d9d26c61b01f713d549bcb2bae4a040310174193095int, 0x10f0353fb0573856abdbd70e35e24119336686676ba3264181d727814int, 0x1976dddcenat, 0x63ce956798a3dadc3005217c22408c5a1af4b17dfd63d6a5d029e5b1int, 0x3nat, 0x2323357fe848967826c7d2ee250adb6b38dfd1e7eb9a727c3ed0264bdint, 0x17a35e5fee23bdd103504b2ef7a0aa9b49687d4db648fc9eb7f0a6008int);
    lemma_pow_window(0x2b8da543801562d9d26c61b01f713d549bcb2bae4a040310174193095int, 0x10f0353fb0573856abdbd70e35e24119336686676ba3264181d727814int, 0x1976dddce3nat, 0x17a35e5fee23bdd103504b2ef7a0aa9b49687d4db648fc9eb7f0a6008int, 0x3nat, 0x2323357fe848967826c7d2ee250adb6b38dfd1e7eb9a727c3ed0264bdint, 0x8499975dd60f081ee9e47bbe9f7ee220f45b6688b3bdc2aa33bffcc1int);
    lemma_pow_window(0x2b8da543801562d9d26c61b01f713d549bcb2bae4a040310174193095int, 0x10f0353fb0573856abdbd70e35e24119336686676ba3264181d727814int, 0x1976dddce33nat, 0x8499975dd60f081ee9e47bbe9f7ee220f45b6688b3bdc2aa33bffcc1int, 0xdnat, 0x2964158ce67bf890e20bda50df7fe49843e59e1993a63d7a80598e63fint, 0x1335c8c3a71fdc2a840dfe64c9e16af36433d8cadb3ee672f7a2c0cb5int);
    lemma_pow_window(0x2b8da543801562d9d26c61b01f713d549bcb2bae4a040310174193095int, 0x10f0353fb0573856abdbd70e35e24119336686676ba3264181d727814int, 0x1976dddce33dnat, 0x1335c8c3a71fdc2a840dfe64c9e16af36433d8cadb3ee672f7a2c0cb5int, 0xanat, 0x289e8e2c53d478e08681fd2057d979c6631167d3d81d73a12e9a3d060int, 0x592e715784fa5215a50d5d86dd866f7181960425665016ac036d6e9aint);
    lemma_pow_window(0x2b8da543801562d9d26c61b01f713d549bcb2bae4a040310174193095int, 0x10f0353fb0573856abdbd70e35e24119336686676ba3264181d727814int, 0x1976dddce33danat, 0x592e715784fa5215a50d5d86dd866f7181960425665016ac036d6e9aint, 0x7nat, 0x20d74bca664735568ab13fddd8c16af7e2f82dc47c166aa6571e579b0int, 0x180bf60caf6744a098f1d50b97a5bd6099213e67eae83fc9789ac8297int);
    lemma_pow_window(0x2b8da543801562d9d26c61b01f713d549bcb2bae4a040310174193095int, 0x10f0353fb0573856abdbd70e35e24119336686676ba3264181d727814int, 0x1976dddce33da7nat, 0x180bf60caf6744a098f1d50b97a5bd6099213e67eae83fc9789ac8297int, 0xcnat, 0xcb7c857fe5f2fc65afca06e78c1c10a59f72627b4f6095d2f9b47127int, 0x1210dfc3b3e77b06cc921190b5495f889f2bdf6c7a8e12df61c7093d8int);
    lemma_pow_window(0x2b8da543801562d9d26c61b01f713d549bcb2bae4a040310174193095int, 0x10f0353fb0573856abdbd70e35e24119336686676ba3264181d727814int, 0x1976dddce33da7cnat, 0x1210dfc3b3e77b06cc921190b5495f889f2bdf6c7a8e12df61c7093d8int, 0x7nat, 0x20d74bca664735568ab13fddd8c16af7e2f82dc47c166aa6571e579b0int, 0x1c50a602d54d46f78427548c22ef313c92468053141ba59b15d6f1f2aint);
    lemma_pow_window(0x2b8da543801562d9d26c61b01f713d549bcb2bae4a040310174193095int, 0x10f0353fb0573856abdbd70e35e24119336686676ba3264181d727814int, 0x1976dddce33da7c7nat, 0x1c50a602d54d46f78427548c22ef313c92468053141ba59b15d6f1f2aint, 0x3nat, 0x2323357fe848967826c7d2ee250adb6b38dfd1e7eb9a727c3ed0264bdint, 0xd86898bfb475cba7c587ffd17a6b76ed7cfb4e8d7642e234b2b47a43int);
    lemma_pow_window(0x2b8da543801562d9d26c61b01f713d549bcb2bae4a040310174193095int, 0x10f0353fb0573856abdbd70e35e24119336686676ba3264181d727814int, 0x1976dddce33da7c73nat, 0xd86898bfb475cba7c587ffd17a6b76ed7cfb4e8d7642e234b2b47a43int, 0xfnat, 0x13cfd1ce03f78bbaaedfe5fe10ad3c501701f5530bdac6c12a7b2bd90int, 0x29e26d5d2a32916f9b563ac21194536ddc7e688f22162d013e6d9bd8aint);
    lemma_pow_window(0x2b8da543801562d9d26c61b01f713d549bcb2bae4a040310174193095int, 0x10f0353fb0573856abdbd70e35e24119336686676ba3264181d727814int, 0x1976dddce33da7c73fnat, 0x29e26d5d2a32916f9b563ac21194536ddc7e688f22162d013e6d9bd8aint, 0xbnat, 0x25ef52dc36b2fc1575d2f8174796bb08cf49f30db7b1d14b293af72a0int, 0xbc44b291e06a53071509160835893d42aa9bd56457dc3f0171c36f9eint);
    lemma_pow_window(0x2b8da543801562d9d26c61b01f713d549bcb2bae4a040310174193095int, 0x10f0353fb0573856abdbd70e35e24119336686676ba3264181d727814int, 0x1976dddce33da7c73fbnat, 0xbc44b291e06a53071509160835893d42aa9bd56457dc3f0171c36f9eint, 0x5nat, 0x14d79e5b0c262dc185c275d867647dd17a461f1e0ee1fe263c19308fcint, 0x1d9e05b33fedc0bc5f568471682309cbd5ffc04416888303337afbec4int);
    lemma_pow_window(0x2b8da543801562d9d26c61b01f713d549bcb2bae4a040310174193095int, 0x10f0353fb0573856abdbd70e35e24119336686676ba3264181d727814int, 0x1976dddce33da7c73fb5nat, 0x1d9e05b33fedc0bc5f568471682309cbd5ffc04416888303337afbec4int, 0x4nat, 0x1b42c3c68ad0532b6207f6cdb16f0a4563b381a10c637cee563524e47int, 0x2350abb385425d47d2468ee8d625b94f0077fb2f992702376793d2bb2int);
    lemma_pow_window(0x2b8da543801562d9d26c61b01f713d549bcb2bae4a040310174193095int, 0x10f0353fb0573856abdbd70e35e24119336686676ba3264181d727814int, 0x1976dddce33da7c73fb54nat, 0x2350abb385425d47d2468ee8d625b94f0077fb2f992702376793d2bb2int, 0x1nat, 0x10f0353fb0573856abdbd70e35e24119336686676ba3264181d727814int, 0xa3a5cb2a9dc8bfcca48c8431c1eb5695460dab0660dde3e7ba1f467int);
    lemma_pow_window(0x2b8da543801562d9d26c61b01f713d549bcb2bae4a040310174193095int, 0x10f0353fb0573856abdbd70e35e24119336686676ba3264181d727814int, 0x1976dddce33da7c73fb541nat, 0xa3a5cb2a9dc8bfcca48c8431c1eb5695460dab0660dde3e7ba1f467int, 0x2nat, 0xc574f4a8f1a9a366061641d942a6e350d4f00ac9e4a043f1e4c3aa24int, 0x8e4f97d1a5d32128098aee7c4dae8f701939f43def172550e439fb8bint);
    lemma_pow_window(0x2b8da543801562d9d26c61b01f713d549bcb2bae4a040310174193095int, 0x10f0353fb0573856abdbd70e35e24119336686676ba3264181d727814int, 0x1976dddce33da7c73fb5412nat, 0x8e4f97d1a5d32128098aee7c4dae8f701939f43def172550e439fb8bint, 0xfnat, 0x13cfd1ce03f78bbaaedfe5fe10ad3c501701f5530bdac6c12a7b2bd90int, 0x24c1568a80a9e32af0f865075de155be51423baa518be185e54a0e57eint);
    lemma_pow0(0x24c1568a80a9e32af0f865075de155be51423baa518be185e54a0e57eint);
    lemma_pow_next(0x2b8da543801562d9d26c61b01f713d549bcb2bae4a040310174193095int, 0x24c1568a80a9e32af0f865075de155be51423baa518be185e54a0e57eint, 0x0nat, 0x1int, 0x24c1568a80a9e32af0f865075de155be51423baa518be185e54a0e57eint);
    lemma_pow_next(0x2b8da543801562d9d26c61b01f713d549bcb2bae4a040310174193095int, 0x24c1568a80a9e32af0f865075de155be51423baa518be185e54a0e57eint, 0x1nat, 0x24c1568a80a9e32af0f865075de155be51423baa518be185e54a0e57eint, 0x1dd948a4504f2132901c079b0bf812a7c82fd3b56aa7886901562fc13int);
    lemma_pow_next(0x2b8da543801562d9d26c61b01f713d549bcb2bae4a040310174193095int, 0x24c1568a80a9e32af0f865075de155be51423baa518be185e54a0e57eint, 0x2nat, 0x1dd948a4504f2132901c079b0bf812a7c82fd3b56aa7886901562fc13int, 0x10b58919fabe9942e6e2855b2cd3382123226dde5dde42246bb3b5d56int);
    lemma_pow_next(0x2b8da543801562d9d26c61b01f713d549bcb2bae4a040310174193095int, 0x24c1568a80a9e32af0f865075de155be51423baa518be185e54a0e57eint, 0x3nat, 0x10b58919fabe9942e6e2855b2cd3382123226dde5dde42246bb3b5d56int, 0x299933dbdc7f9010bef290b1407085d5637fa5aad84c62dfd8b016165int);
    lemma_pow_next(0x2b8da543801562d9d26c61b01f713d549bcb2bae4a040310174193095int, 0x24c1568a80a9e32af0f865075de155be51423baa518be185e54a0e57eint, 0x4nat, 0x299933dbdc7f9010bef290b1407085d5637fa5aad84c62dfd8b016165int, 0x126a50b1f404ab6b9f5b086b869ad163caed1a8e1a462f3da88810eaint);
    lemma_pow_next(0x2b8da543801562d9d26c61b01f713d549bcb2bae4a040310174193095int, 0x24c1568a80a9e32af0f865075de155be51423baa518be185e54a0e57eint, 0x5nat, 0x126a50b1f404ab6b9f5b086b869ad163caed1a8e1a462f3da88810eaint, 0x1a9fcc7c4207b4a63c176f71e564e7c9b4fdac94409e31d5db4b0ef59int);
    lemma_pow_next(0x2b8da543801562d9d26c61b01f713d549bcb2bae4a040310174193095int, 0x24c1568a80a9e32af0f865075de155be51423baa518be185e54a0e57eint, 0x6nat, 0x1a9fcc7c4207b4a63c176f71e564e7c9b4fdac94409e31d5db4b0ef59int, 0x4fdf220b0b3ccdd243139e769b1475c9f0145637786f0b6caa471680int);
    lemma_pow_next(0x2b8da543801562d9d26c61b01f713d549bcb2bae4a040310174193095int, 0x24c1568a80a9e32af0f865075de155be51423baa518be185e54a0e57eint, 0x7nat, 0x4fdf220b0b3ccdd243139e769b1475c9f0145637786f0b6caa471680int, 0x1598eefba91299bbf8dfea6ee40088dbc6bd4d1f69ec68b076d08c68eint);
    lemma_pow_next(0x2b8da543801562d9d26c61b01f713d549bcb2bae4a040310174193095int, 0x24c1568a80a9e32af0f865075de155be51423baa518be185e54a0e57eint, 0x8nat, 0x1598eefba91299bbf8dfea6ee40088dbc6bd4d1f69ec68b076d08c68eint, 0x621f1dde8521778f33c249b3541aae1cd3120da4b3dae7abece107a6int);
    lemma_pow_next(0x2b8da543801562d9d26c61b01f713d549bcb2bae4a040310174193095int, 0x24c1568a80a9e32af0f865075de155be51423baa518be185e54a0e57eint, 0x9nat, 0x621f1dde8521778f33c249b3541aae1cd3120da4b3dae7abece107a6int, 0xec6a14848c6ae99356399c9b58903add3b2b96bff93af2a0081a2ce5int);
    lemma_pow_next(0x2b8da543801562d9d26c61b01f713d549bcb2bae4a040310174193095int, 0x24c1568a80a9e32af0f865075de155be51423baa518be185e54a0e57eint, 0xanat, 0xec6a14848c6ae99356399c9b58903add3b2b96bff93af2a0081a2ce5int, 0x14f99fc566b1ed9e22ff1a3791d5a7675480cd65ebadaf7760ac77c16int);
    lemma_pow_next(0x2b8da543801562d9d26c61b01f713d549bcb2bae4a040310174193095int, 0x24c1568a80a9e32af0f865075de155be51423baa518be185e54a0e57eint, 0xbnat, 0x14f99fc566b1ed9e22ff1a3791d5a7675480cd65ebadaf7760ac77c16int, 0x1aa0e2935a9657e790e1c950f61850a397d3577207ce578949a7a823aint);
    lemma_pow_next(0x2b8da543801562d9d26c61b01f713d549bcb2bae4a040310174193095int, 0x24c1568a80a9e32af0f865075de155be51423baa518be185e54a0e57eint, 0xcnat, 0x1aa0e2935a9657e790e1c950f61850a397d3577207ce578949a7a823aint, 0x283d8522027481b72337f49b29c095093f06b7ff8472e9c46ffee0538int);
    lemma_pow_window(0x2b8da543801562d9d26c61b01f713d549bcb2bae4a040310174193095int, 0x24c1568a80a9e32af0f865075de155be51423baa518be185e54a0e57eint, 0x7nat, 0x4fdf220b0b3ccdd243139e769b1475c9f0145637786f0b6caa471680int, 0x3nat, 0x10b58919fabe9942e6e2855b2cd3382123226dde5dde42246bb3b5d56int, 0x21b9fd7a5fe0b81a98546e1885824ec6aa56650b0187096b01a01f08cint);
    lemma_pow_window(0x2b8da543801562d9d26c61b01f713d549bcb2bae4a040310174193095int, 0x24c1568a80a9e32af0f865075de155be51423baa518be185e54a0e57eint, 0x73nat, 0x21b9fd7a5fe0b81a98546e1885824ec6aa56650b0187096b01a01f08cint, 0x2nat, 0x1dd948a4504f2132901c079b0bf812a7c82fd3b56aa7886901562fc13int, 0x141f0be87d4b19ab3b58ba271afb0612b39b1bfb6513a57191afb584fint);
    lemma_pow_window(0x2b8da543801562d9d26c61b01f713d549bcb2bae4a040310174193095int, 0x24c1568a80a9e32af0f865075de155be51423baa518be185e54a0e57eint, 0x732nat, 0x141f0be87d4b19ab3b58ba271afb0612b39b1bfb6513a57191afb584fint, 0x4nat, 0x299933dbdc7f9010bef290b1407085d5637fa5aad84c62dfd8b016165int, 0x1a27ef37c48dab9448ae5c55c2805a31630d64ad9e56708e5393bad6aint);
    lemma_pow_window(0x2b8da543801562d9d26c61b01f713d549bcb2bae4a040310174193095int, 0x24c1568a80a9e32af0f865075de155be51423baa518be185e54a0e57eint, 0x7324nat, 0x1a27ef37c48dab9448ae5c55c2805a31630d64ad9e56708e5393bad6aint, 0x1nat, 0x24c1568a80a9e32af0f865075de155be51423baa518be185e54a0e57eint, 0x15a903d9d9177998a5b107cfd3e23853596fe564955ce9ab6bf1bfc4dint);
    lemma_pow_window(0x2b8da543801562d9d26c61b01f713d549bcb2bae4a040310174193095int, 0x24c1568a80a9e32af0f865075de155be51423baa518be185e54a0e57eint, 0x73241nat, 0x15a903d9d9177998a5b107cfd3e23853596fe564955ce9ab6bf1bfc4dint, 0xbnat, 0x14f99fc566b1ed9e22ff1a3791d5a7675480cd65ebadaf7760ac77c16int, 0xd2e35dad4e59e2f7d3bd063435a1d703f1f419cf8c6384a8ee203950int);
    lemma_pow_window(0x2b8da543801562d9d26c61b01f713d549bcb2bae4a040310174193095int, 0x24c1568a80a9e32af0f865075de155be51423baa518be185e54a0e57eint, 0x73241bnat, 0xd2e35dad4e59e2f7d3bd063435a1d703f1f419cf8c6384a8ee203950int, 0x4nat, 0x299933dbdc7f9010bef290b1407085d5637fa5aad84c62dfd8b016165int, 0x1f85882022ec63cd2d49199a9cf6674b7d22c7d4b7501b0336bdcdcdeint);
    lemma_pow_window(0x2b8da543801562d9d26c61b01f713d549bcb2bae4a040310174193095int, 0x24c1568a80a9e32af0f865075de155be51423baa518be185e54a0e57eint, 0x73241b4nat, 0x1f85882022ec63cd2d49199a9cf6674b7d22c7d4b7501b0336bdcdcdeint, 0x4nat, 0x299933dbdc7f9010bef290b1407085d5637fa5aad84c62dfd8b016165int, 0x29d7085aeed58d8777bade3606aabd04ed63b7905f286b8c12cdada7dint);
    lemma_pow_window(0x2b8da543801562d9d26c61b01f713d549bcb2bae4a040310174193095int, 0x24c1568a80a9e32af0f865075de155be51423baa518be185e54a0e57eint, 0x73241b44nat, 0x29d7085aeed58d8777bade3606aabd04ed63b7905f286b8c12cdada7dint, 0x9nat, 0x621f1dde8521778f33c249b3541aae1cd3120da4b3dae7abece107a6int, 0xe261d800263cf34cb5f50d88074cc8d3ded7d782b0c50db2dfc3f67cint);
    lemma_pow_window(0x2b8da543801562d9d26c61b01f713d549bcb2bae4a040310174193095int, 0x24c1568a80a9e32af0f865075de155be51423baa518be185e54a0e57eint, 0x73241b449nat, 0xe261d800263cf34cb5f50d88074cc8d3ded7d782b0c50db2dfc3f67cint, 0xdnat, 0x283d8522027481b72337f49b29c095093f06b7ff8472e9c46ffee0538int, 0x1int);
    lemma_pow_tower(0x2b8da543801562d9d26c61b01f713d549bcb2bae4a040310174193095int, 0x10f0353fb0573856abdbd70e35e24119336686676ba3264181d727814int, 0x1976dddce33da7c73fb5412fnat, 0x24c1568a80a9e32af0f865075de155be51423baa518be185e54a0e57eint, 0x73241b449dnat, 1);
    lemma_prime_by_certificate(0x2b8da543801562d9d26c61b01f713d549bcb2bae4a040310174193095int, 0x73241b449dint, 0x1976dddce33da7c73fb5412fint, 0x10f0353fb0573856abdbd70e35e24119336686676ba3264181d727814int, 0xd6aa489a8fc0066b1075bc152bf42262eb4ff2347f277d542507d47bint, 0x24c1568a80a9e32af0f865075de155be51423baa518be185e54a0e57eint, 0x68888d56827a80e050db729a42d6ea57eb280612d4e2da1de90b4ca9int, 0x28d78d33524390a6d430a107aba961fa27060ef0fc4e0917751b81458int);
}

/// The base-field modulus is a prime number.
pub proof fn lemma_prime_modulus()
    ensures
        is_prime(0x1ae3a4617c510eac63b05c06ca1493b1a22d9f300f5138f1ef3622fba094800170b5d44300000008508c00000000001int),
{
    lemma_prime_2();
    lemma_prime_cofactor();
    lemma_pow0(0xe3005aa38409061ce83091d9d5340c1119daaf118adfe9196cbe5bcac146cb18d995e19e49f79803fdc5bba0e25791int);
    lemma_pow_next(0x1ae3a4617c510eac63b05c06ca1493b1a22d9f300f5138f1ef3622fba094800170b5d44300000008508c00000000001int, 0xe3005aa38409061ce83091d9d5340c1119daaf118adfe9196cbe5bcac146cb18d995e19e49f79803fdc5bba0e25791int, 0x0nat, 0x1int, 0xe3005aa38409061ce83091d9d5340c1119daaf118adfe9196cbe5bcac146cb18d995e19e49f79803fdc5bba0e25791int);
    lemma_pow_next(0x1ae3a4617c510eac63b05c06ca1493b1a22d9f300f5138f1ef3622fba094800170b5d44300000008508c00000000001int, 0xe3005aa38409061ce83091d9d5340c1119daaf118adfe9196cbe5bcac146cb18d995e19e49f79803fdc5bba0e25791int, 0x1nat, 0xe3005aa38409061ce83091d9d5340c1119daaf118adfe9196cbe5bcac146cb18d995e19e49f79803fdc5bba0e25791int, 0x6f9977c937b8b5e866517da484e16a0fbe3158ef4db505b3921e1f97ac4f146acc423c6e8c504f59ee0f25719bfb03int);
    lemma_pow0(0xe3005aa38409061ce83091d9d5340c1119daaf118adfe9196cbe5bcac146cb18d995e19e49f79803fdc5bba0e25791int);
    lemma_pow_next(0x1ae3a4617c510eac63b05c06ca1493b1a22d9f300f5138f1ef3622fba094800170b5d44300000008508c00000000001int, 0xe3005aa38409061ce83091d9d5340c1119daaf118adfe9196cbe5bcac146cb18d995e19e49f79803fdc5bba0e25791int, 0x0nat, 0x1int, 0xe3005aa38409061ce83091d9d5340c1119daaf118adfe9196cbe5bcac146cb18d995e19e49f79803fdc5bba0e25791int);
    lemma_pow_next(0x1ae3a4617c510eac63b05c06ca1493b1a22d9f300f5138f1ef3622fba094800170b5d44300000008508c00000000001int, 0xe3005aa38409061ce83091d9d5340c1119daaf118adfe9196cbe5bcac146cb18d995e19e49f79803fdc5bba0e25791int, 0x1nat, 0xe3005aa38409061ce83091d9d5340c1119daaf118adfe9196cbe5bcac146cb18d995e19e49f79803fdc5bba0e25791int, 0x6f9977c937b8b5e866517da484e16a0fbe3158ef4db505b3921e1f97ac4f146acc423c6e8c504f59ee0f25719bfb03int);
    lemma_pow_next(0x1ae3a4617c510eac63b05c06ca1493b1a22d9f300f5138f1ef3622fba094800170b5d44300000008508c00000000001int, 0xe3005aa38409061ce83091d9d5340c1119daaf118adfe9196cbe5bcac146cb18d995e19e49f79803fdc5bba0e25791int, 0x2nat, 0x6f9977c937b8b5e866517da484e16a0fbe3158ef4db505b3921e1f97ac4f146acc423c6e8c504f59ee0f25719bfb03int, 0x17dbc1e0b2aedf20d56edb36793d35024c3565bcb3440d57a2f995976666480fded25372d5f3c12d93906fccb21182fint);
    lemma_pow_next(0x1ae3a4617c510eac63b05c06ca1493b1a22d9f300f5138f1ef3622fba094800170b5d44300000008508c00000000001int, 0xe3005aa38409061ce83091d9d5340c1119daaf118adfe9196cbe5bcac146cb18d995e19e49f79803fdc5bba0e25791int, 0x3nat, 0x17dbc1e0b2aedf20d56edb36793d35024c3565bcb3440d57a2f995976666480fded25372d5f3c12d93906fccb21182fint, 0xe7343ab79ef3bf0faf687d998d2496db962500abdc83e985687791b2c7e5b5e11906d804e7b7408aebd11cef4c2682int);
    lemma_pow_next(0x1ae3a4617c510eac63b05c06ca1493b1a22d9f300f5138f1ef3622fba094800170b5d44300000008508c00000000001int, 0xe3005aa38409061ce83091d9d5340c1119daaf118adfe9196cbe5bcac146cb18d995e19e49f79803fdc5bba0e25791int, 0x4nat, 0xe7343ab79ef3bf0faf687d998d2496db962500abdc83e985687791b2c7e5b5e11906d804e7b7408aebd11cef4c2682int, 0x1a3f9c3a0bcd745f6cba05f43826c1801509842caf6af4a5e37651f37a7b0539df51a17ff6fa46d3bd666086563f929int);
    lemma_pow_next(0x1ae3a4617c510eac63b05c06ca1493b1a22d9f300f5138f1ef3622fba094800170b5d44300000008508c00000000001int, 0xe3005aa38409061ce83091d9d5340c1119daaf118adfe9196cbe5bcac146cb18d995e19e49f79803fdc5bba0e25791int, 0x5nat, 0x1a3f9c3a0bcd745f6cba05f43826c1801509842caf6af4a5e37651f37a7b0539df51a17ff6fa46d3bd666086563f929int, 0x7b3ed93f07c39b8d22ec4cc949435808a67975fcb9f483afce2b25436e85f73bc9e5b5d067ac84f15b883f5d86e175int);
    lemma_pow_next(0x1ae3a4617c510eac63b05c06ca1493b1a22d9f300f5138f1ef3622fba094800170b5d44300000008508c00000000001int, 0xe3005aa38409061ce83091d9d5340c1119daaf118adfe9196cbe5bcac146cb18d995e19e49f79803fdc5bba0e25791int, 0x6nat, 0x7b3ed93f07c39b8d22ec4cc949435808a67975fcb9f483afce2b25436e85f73bc9e5b5d067ac84f15b883f5d86e175int, 0x13182ee28a6adb0cb78312f9f404e0229e4b830dc137172847e0a143bbe73e57f25e3dd3eb2cdf406793f4ff4ee6f81int);
    lemma_pow_next(0x1ae3a4617c510eac63b05c06ca1493b1a22d9f300f5138f1ef3622fba094800170b5d44300000008508c00000000001int, 0xe3005aa38409061ce83091d9d5340c1119daaf118adfe9196cbe5bcac146cb18d995e19e49f79803fdc5bba0e25791int, 0x7nat, 0x13182ee28a6adb0cb78312f9f404e0229e4b830dc137172847e0a143bbe73e57f25e3dd3eb2cdf406793f4ff4ee6f81int, 0x65b19ebebe15fcb24ba152830db04e0a21705d8ee41c85732a8e101bf1a77e147f0f620ae2d420972a7bbd290b70a1int);
    lemma_pow_next(0x1ae3a4617c510eac63b05c06ca1493b1a22d9f300f5138f1ef3622fba094800170b5d44300000008508c00000000001int, 0xe3005aa38409061ce83091d9d5340c1119daaf118adfe9196cbe5bcac146cb18d995e19e49f79803fdc5bba0e25791int, 0x8nat, 0x65b19ebebe15fcb24ba152830db04e0a21705d8ee41c85732a8e101bf1a77e147f0f620ae2d420972a7bbd290b70a1int, 0xacb82de213cf363a54cdddf0d849eb95df1e2e79f547634afccd12459fba950fa5c0bb235c34681b619c64265abf08int);
    lemma_pow_next(0x1ae3a4617c510eac63b05c06ca1493b1a22d9f300f5138f1ef3622fba094800170b5d44300000008508c00000000001int, 0xe3005aa38409061ce83091d9d5340c1119daaf118adfe9196cbe5bcac146cb18d995e19e49f79803fdc5bba0e25791int, 0x9nat, 0xacb82de213cf363a54cdddf0d849eb95df1e2e79f547634afccd12459fba950fa5c0bb235c34681b619c64265abf08int, 0x5c3d1b0e47f9d8373702567d409e7cc0b925585fcb35f4b177d07c75948d130836d7376a4e877975ecc702170ed29eint);
    lemma_pow_next(0x1ae3a4617c510eac63b05c06ca1493b1a22d9f300f5138f1ef3622fba094800170b5d44300000008508c00000000001int, 0xe3005aa38409061ce83091d9d5340c1119daaf118adfe9196cbe5bcac146cb18d995e19e49f79803fdc5bba0e25791int, 0xanat, 0x5c3d1b0e47f9d8373702567d409e7cc0b925585fcb35f4b177d07c75948d130836d7376a4e877975ecc702170ed29eint, 0x16f10d0fb8411449fe134a905a8a77450f5a32707bcf53dceefa3f672c241a718c0b31beaba6c7c6bc66707992e348int);
    lemma_pow_next(0x1ae3a4617c510eac63b05c06ca1493b1a22d9f300f5138f1ef3622fba094800170b5d44300000008508c00000000001int, 0xe3005aa38409061ce83091d9d5340c1119daaf118adfe9196cbe5bcac146cb18d995e19e49f79803fdc5bba0e25791int, 0xbnat, 0x16f10d0fb8411449fe134a905a8a77450f5a32707bcf53dceefa3f672c241a718c0b31beaba6c7c6bc66707992e348int, 0x10c0b388d0470bee4d233bc8f9b0dd84697fe2049efba0bab397c2c2b01c58060140c5a8549535aba0ed691961ef816int);
    lemma_pow_next(0x1ae3a4617c510eac63b05c06ca1493b1a22d9f300f5138f1ef3622fba094800170b5d44300000008508c00000000001int, 0xe3005aa38409061ce83091d9d5340c1119daaf118adfe9196cbe5bcac146cb18d995e19e49f79803fdc5bba0e25791int, 0xcnat, 0x10c0b388d0470bee4d233bc8f9b0dd84697fe2049efba0bab397c2c2b01c58060140c5a8549535aba0ed691961ef816int, 0x29c849b704b8d8460cca0119196a7360487811b4a236b9d51b626b56b8dd8638899b1ca0746e85960674545c29290cint);
    lemma_pow_next(0x1ae3a4617c510eac63b05c06ca1493b1a22d9f300f5138f1ef3622fba094800170b5d44300000008508c00000000001int, 0xe3005aa38409061ce83091d9d5340c1119daaf118adfe9196cbe5bcac146cb18d995e19e49f79803fdc5bba0e25791int, 0xdnat, 0x29c849b704b8d8460cca0119196a7360487811b4a236b9d51b626b56b8dd8638899b1ca0746e85960674545c29290cint, 0xf3bb1700c33e38dfb10a646d30110354d05747a45f031f1fb9b13c5b8d8d722cb4da2c7fd862caa7d0d33acfeb5befint);
    lemma_pow_next(0x1ae3a4617c510eac63b05c06ca1493b1a22d9f300f5138f1ef3622fba094800170b5d44300000008508c00000000001int, 0xe3005aa38409061ce83091d9d5340c1119daaf118adfe9196cbe5bcac146cb18d995e19e49f79803fdc5bba0e25791int, 0xenat, 0xf3bb1700c33e38dfb10a646d30110354d05747a45f031f1fb9b13c5b8d8d722cb4da2c7fd862caa7d0d33acfeb5befint, 0x19d5d5ea32497e9b51a284beaa4455d368e8163571732a9cc1f39b9265ec5828b77426b576f322e05616f14db0a4092int);
    lemma_pow_window(0x1ae3a4617c510eac63b05c06ca1493b1a22d9f300f5138f1ef3622fba094800170b5d44300000008508c00000000001int, 0xe3005aa38409061ce83091d9d5340c1119daaf118adfe9196cbe5bcac146cb18d995e19e49f79803fdc5bba0e25791int, 0x2nat, 0x6f9977c937b8b5e866517da484e16a0fbe3158ef4db505b3921e1f97ac4f146acc423c6e8c504f59ee0f25719bfb03int, 0xbnat, 0x16f10d0fb8411449fe134a905a8a77450f5a32707bcf53dceefa3f672c241a718c0b31beaba6c7c6bc66707992e348int, 0x22ffe56fcaadd6d92768093d9666b2abd132abe1ca9d01541c3a4399fdaac13b999887776d358c29cc1e23ee9e6ec6int);
    lemma_pow_window(0x1ae3a4617c510eac63b05c06ca1493b1a22d9f300f5138f1ef3622fba094800170b5d44300000008508c00000000001int, 0xe3005aa38409061ce83091d9d5340c1119daaf118adfe9196cbe5bcac146cb18d995e19e49f79803fdc5bba0e25791int, 0x2bnat, 0x22ffe56fcaadd6d92768093d9666b2abd132abe1ca9d01541c3a4399fdaac13b999887776d358c29cc1e23ee9e6ec6int, 0x8nat, 0x65b19ebebe15fcb24ba152830db04e0a21705d8ee41c85732a8e101bf1a77e147f0f620ae2d420972a7bbd290b70a1int, 0x174030e28fed8d7e1bd10222e5ab1419fce39eefdc5fca000b3a2c986707b84156f2600e795ee728286fa6ec660a402int);
    lemma_pow_window(0x1ae3a4617c510eac63b05c06ca1493b1a22d9f300f5138f1ef3622fba094800170b5d44300000008508c00000000001int, 0xe3005aa38409061ce83091d9d5340c1119daaf118adfe9196cbe5bcac146cb18d995e19e49f79803fdc5bba0e25791int, 0x2b8nat, 0x174030e28fed8d7e1bd10222e5ab1419fce39eefdc5fca000b3a2c986707b84156f2600e795ee728286fa6ec660a402int, 0xdnat, 0x29c849b704b8d8460cca0119196a7360487811b4a236b9d51b626b56b8dd8638899b1ca0746e85960674545c29290cint, 0x88581fece2f5592e1bae06ae62d15903a63d3a65d6c13a8eb948323be8eb142fdf0d11b5524180450219dc7a7d5ac3int);
    lemma_pow_window(0x1ae3a4617c510eac63b05c06ca1493b1a22d9f300f5138f1ef3622fba094800170b5d44300000008508c00000000001int, 0xe3005aa38409061ce83091d9d5340c1119daaf118adfe9196cbe5bcac146cb18d995e19e49f79803fdc5bba0e25791int, 0x2b8dnat, 0x88581fece2f5592e1bae06ae62d15903a63d3a65d6c13a8eb948323be8eb142fdf0d11b5524180450219dc7a7d5ac3int, 0xanat, 0x5c3d1b0e47f9d8373702567d409e7cc0b925585fcb35f4b177d07c75948d130836d7376a4e877975ecc702170ed29eint, 0x9dacceb32f8a48561a0384ed256d69f87ac074f761d010741f6b46ca8c6bd68cc5f279a3a6777c1856d0867b7e87c7int);
    lemma_pow_window(0x1ae3a4617c510eac63b05c06ca1493b1a22d9f300f5138f1ef3622fba094800170b5d44300000008508c00000000001int, 0xe3005aa38409061ce83091d9d5340c1119daaf118adfe9196cbe5bcac146cb18d995e19e49f79803fdc5bba0e25791int, 0x2b8danat, 0x9dacceb32f8a48561a0384ed256d69f87ac074f761d010741f6b46ca8c6bd68cc5f279a3a6777c1856d0867b7e87c7int, 0x5nat, 0x1a3f9c3a0bcd745f6cba05f43826c1801509842caf6af4a5e37651f37a7b0539df51a17ff6fa46d3bd666086563f929int, 0x9c404cca866ade5792eea3f5f89413475e97e8cf4e5c2cb0758ed6862227a8e77a5cbe46b7c8a21eb3d0c3e00207c2int);
    lemma_pow_window(0x1ae3a4617c510eac63b05c06ca1493b1a22d9f300f5138f1ef3622fba094800170b5d44300000008508c00000000001int, 0xe3005aa38409061ce83091d9d5340c1119daaf118adfe9196cbe5bcac146cb18d995e19e49f79803fdc5bba0e25791int, 0x2b8da5nat, 0x9c404cca866ade5792eea3f5f89413475e97e8cf4e5c2cb0758ed6862227a8e77a5cbe46b7c8a21eb3d0c3e00207c2int, 0x4nat, 0xe7343ab79ef3bf0faf687d998d2496db962500abdc83e985687791b2c7e5b5e11906d804e7b7408aebd11cef4c2682int, 0x80109c493896c87e08bab00fb84453e18f841d941b3610a9149e069e0420566704231db082aa4c27418519e03d76d6int);
    lemma_pow_window(0x1ae3a4617c510eac63b05c06ca1493b1a22d9f300f5138f1ef3622fba094800170b5d44300000008508c00000000001int, 0xe3005aa38409061ce83091d9d5340c1119daaf118adfe9196cbe5bcac146cb18d995e19e49f79803fdc5bba0e25791int, 0x2b8da54nat, 0x80109c493896c87e08bab00fb84453e18f841d941b3610a9149e069e0420566704231db082aa4c27418519e03d76d6int, 0x3nat, 0x17dbc1e0b2aedf20d56edb36793d35024c3565bcb3440d57a2f995976666480fded25372d5f3c12d93906fccb21182fint, 0x17efc92d930cd4cd3fc058dde30415eb09b833d6652af61a781f2cf8ab92036d94bdd3dc39c03b4d169a7044469cd39int);
    lemma_pow_window(0x1ae3a4617c510eac63b05c06ca1493b1a22d9f300f5138f1ef3622fba094800170b5d44300000008508c00000000001int, 0xe3005aa38409061ce83091d9d5340c1119daaf118adfe9196cbe5bcac146cb18d995e19e49f79803fdc5bba0e25791int, 0x2b8da543nat, 0x17efc92d930cd4cd3fc058dde30415eb09b833d6652af61a781f2cf8ab92036d94bdd3dc39c03b4d169a7044469cd39int, 0x8nat, 0x65b19ebebe15fcb24ba152830db04e0a21705d8ee41c85732a8e101bf1a77e147f0f620ae2d420972a7bbd290b70a1int, 0xa3e444f553716f6add1f5497efe13cdb40f88f79312617253dce9aff648d0104dcdda80718c8f98ec1825231c46334int);
    lemma_pow_window(0x1ae3a4617c510eac63b05c06ca1493b1a22d9f300f5138f1ef3622fba094800170b5d44300000008508c00000000001int, 0xe3005aa38409061ce83091d9d5340c1119daaf118adfe9196cbe5bcac146cb18d995e19e49f79803fdc5bba0e25791int, 0x2b8da5438nat, 0xa3e444f553716f6add1f5497efe13cdb40f88f79312617253dce9aff648d0104dcdda80718c8f98ec1825231c46334int, 0x0nat, 0x1int, 0xbee0bbdb89a20032883bb1cbc33e12108a71076bb409177dc1c3a74b12e8e87f09204fcd686e913c7d8e3b79f5fb8dint);
    lemma_pow_window(0x1ae3a4617c510eac63b05c06ca1493b1a22d9f300f5138f1ef3622fba094800170b5d44300000008508c00000000001int, 0xe3005aa38409061ce83091d9d5340c1119daaf118adfe9196cbe5bcac146cb18d995e19e49f79803fdc5bba0e25791int, 0x2b8da54380nat, 0xbee0bbdb89a20032883bb1cbc33e12108a71076bb409177dc1c3a74b12e8e87f09204fcd686e913c7d8e3b79f5fb8dint, 0x1nat, 0xe3005aa38409061ce83091d9d5340c1119daaf118adfe9196cbe5bcac146cb18d995e19e49f79803fdc5bba0e25791int, 0x509cad654fc7dcbdd6f5fe84ba500f0376a2393b07fdda21c779612c0406ac367da156327691a334bb3e81ee7c0ca6int);
    lemma_pow_window(0x1ae3a4617c510eac63b05c06ca1493b1a22d9f300f5138f1ef3622fba094800170b5d44300000008508c00000000001int, 0xe3005aa38409061ce83091d9d5340c1119daaf118adfe9196cbe5bcac146cb18d995e19e49f79803fdc5bba0e25791int, 0x2b8da543801nat, 0x509cad654fc7dcbdd6f5fe84ba500f0376a2393b07fdda21c779612c0406ac367da156327691a334bb3e81ee7c0ca6int, 0x5nat, 0x1a3f9c3a0bcd745f6cba05f43826c1801509842caf6af4a5e37651f37a7b0539df51a17ff6fa46d3bd666086563f929int, 0xc13b7ad3cb166f6727b2d5b80927ea957530d127c558e7dcb3a70e85c5fd56235da5016bd5b711e35feb4d5bd883daint);
    lemma_pow_window(0x1ae3a4617c510eac63b05c06ca1493b1a22d9f300f5138f1ef3622fba094800170b5d44300000008508c00000000001int, 0xe3005aa38409061ce83091d9d5340c1119daaf118adfe9196cbe5bcac146cb18d995e19e49f79803fdc5bba0e25791int, 0x2b8da5438015nat, 0xc13b7ad3cb166f6727b2d5b80927ea957530d127c558e7dcb3a70e85c5fd56235da5016bd5b711e35feb4d5bd883daint, 0x6nat, 0x7b3ed93f07c39b8d22ec4cc949435808a67975fcb9f483afce2b25436e85f73bc9e5b5d067ac84f15b883f5d86e175int, 0x19bcc76fe4dcd3a5b04490a8247eb10af9d386631625674b19110637eafcc26aed1272ce03c96c2c755f2a5bd69b73aint);
    lemma_pow_window(0x1ae3a4617c510eac63b05c06ca1493b1a22d9f300f5138f1ef3622fba094800170b5d44300000008508c00000000001int, 0xe3005aa38409061ce83091d9d5340c1119daaf118adfe9196cbe5bcac146cb18d995e19e49f79803fdc5bba0e25791int, 0x2b8da54380156nat, 0x19bcc76fe4dcd3a5b04490a8247eb10af9d386631625674b19110637eafcc26aed1272ce03c96c2c755f2a5bd69b73aint, 0x2nat, 0x6f9977c937b8b5e866517da484e16a0fbe3158ef4db505b3921e1f97ac4f146acc423c6e8c504f59ee0f25719bfb03int, 0x3ce347376fbe6c726ba5e20ad864694a2894f5c8434a8e378b22f6c6b8e6330517a6ff9ff0d9f37e2f10a8adacbf91int);
    lemma_pow_window(0x1ae3a4617c510eac63b05c06ca1493b1a22d9f300f5138f1ef3622fba094800170b5d44300000008508c00000000001int, 0xe3005aa38409061ce83091d9d5340c1119daaf118adfe9196cbe5bcac146cb18d995e19e49f79803fdc5bba0e25791int, 0x2b8da543801562nat, 0x3ce347376fbe6c726ba5e20ad864694a2894f5c8434a8e378b22f6c6b8e6330517a6ff9ff0d9f37e2f10a8adacbf91int, 0xdnat, 0x29c849b704b8d8460cca0119196a7360487811b4a236b9d51b626b56b8dd8638899b1ca0746e85960674545c29290cint, 0x339ad5e39f63594c4bf528c0397295564053a5c9423e9a6a86535edde7ff03d65621bd32e2856b58428d363f6672daint);
    lemma_pow_window(0x1ae3a4617c510eac63b05c06ca1493b1a22d9f300f5138f1ef3622fba094800170b5d44300000008508c00000000001int, 0xe3005aa38409061ce83091d9d5340c1119daaf118adfe9196cbe5bcac146cb18d995e19e49f79803fdc5bba0e25791int, 0x2b8da543801562dnat, 0x339ad5e39f63594c4bf528c0397295564053a5c9423e9a6a86535edde7ff03d65621bd32e2856b58428d363f6672daint, 0x9nat, 0xacb82de213cf363a54cdddf0d849eb95df1e2e79f547634afccd12459fba950fa5c0bb235c34681b619c64265abf08int, 0xe5c365fc99f9371505b49eb7c9d3e56a3351a6e0c7f6fe7dfa524f290c20b3c7a6ab694d27b0817acef3f7c02a1fa8int);
    lemma_pow_window(0x1ae3a4617c510eac63b05c06ca1493b1a22d9f300f5138f1ef3622fba094800170b5d44300000008508c00000000001int, 0xe3005aa38409061ce83091d9d5340c1119daaf118adfe9196cbe5bcac146cb18d995e19e49f79803fdc5bba0e25791int, 0x2b8da543801562d9nat, 0xe5c365fc99f9371505b49eb7c9d3e56a3351a6e0c7f6fe7dfa524f290c20b3c7a6ab694d27b0817acef3f7c02a1fa8int, 0xdnat, 0x29c849b704b8d8460cca0119196a7360487811b4a236b9d51b626b56b8dd8638899b1ca0746e85960674545c29290cint, 0x50d8409f3f0a2f5ed797d3af009c974bb27344ee1737bec885681ee57798d07036931e3b9701f072267304f8e066d7int);
    lemma_pow_window(0x1ae3a4617c510eac63b05c06ca1493b1a22d9f300f5138f1ef3622fba094800170b5d44300000008508c00000000001int, 0xe3005aa38409061ce83091d9d5340c1119daaf118adfe9196cbe5bcac146cb18d995e19e49f79803fdc5bba0e25791int, 0x2b8da543801562d9dnat, 0x50d8409f3f0a2f5ed797d3af009c974bb27344ee1737bec885681ee57798d07036931e3b9701f072267304f8e066d7int, 0x2nat, 0x6f9977c937b8b5e866517da484e16a0fbe3158ef4db505b3921e1f97ac4f146acc423c6e8c504f59ee0f25719bfb03int, 0x15ac7014d13af188473941935a0999cdc18cef99773a3d83b14f1de77dc17bea7a153d06abb01f3bbaffa4ef6d4a26aint);
    lemma_pow_window(0x1ae3a4617c510eac63b05c06ca1493b1a22d9f300f5138f1ef3622fba094800170b5d44300000008508c00000000001int, 0xe3005aa38409061ce83091d9d5340c1119daaf118adfe9196cbe5bcac146cb18d995e19e49f79803fdc5bba0e25791int, 0x2b8da543801562d9d2nat, 0x15ac7014d13af188473941935a0999cdc18cef99773a3d83b14f1de77dc17bea7a153d06abb01f3bbaffa4ef6d4a26aint, 0x6nat, 0x7b3ed93f07c39b8d22ec4cc949435808a67975fcb9f483afce2b25436e85f73bc9e5b5d067ac84f15b883f5d86e175int, 0x13bc70a5ad0caa36a422e1eedca8781dc629bf5a5816ac790882272b38d5cf8681fe336d6b03ffdb4d70adc2de27628int);
    lemma_pow_window(0x1ae3a4617c510eac63b05c06ca1493b1a22d9f300f5138f1ef3622fba094800170b5d44300000008508c00000000001int, 0xe3005aa38409061ce83091d9d5340c1119daaf118adfe9196cbe5bcac146cb18d995e19e49f79803fdc5bba0e25791int, 0x2b8da543801562d9d26nat, 0x13bc70a5ad0caa36a422e1eedca8781dc629bf5a5816ac790882272b38d5cf8681fe336d6b03ffdb4d70adc2de27628int, 0xcnat, 0x10c0b388d0470bee4d233bc8f9b0dd84697fe2049efba0bab397c2c2b01c58060140c5a8549535aba0ed691961ef816int, 0xca2e838b18fb08b532303a11a1befc07ff4d1d13bed591e7faa5c3cfd8618e837e31df36b33710df3e03fef2c47afeint);
    lemma_pow_window(0x1ae3a4617c510eac63b05c06ca1493b1a22d9f300f5138f1ef3622fba094800170b5d44300000008508c00000000001int, 0xe3005aa38409061ce83091d9d5340c1119daaf118adfe9196cbe5bcac146cb18d995e19e49f79803fdc5bba0e25791int, 0x2b8da543801562d9d26cnat, 0xca2e838b18fb08b532303a11a1befc07ff4d1d13bed591e7faa5c3cfd8618e837e31df36b33710df3e03fef2c47afeint, 0x6nat, 0x7b3ed93f07c39b8d22ec4cc949435808a67975fcb9f483afce2b25436e85f73bc9e5b5d067ac84f15b883f5d86e175int, 0x28791b8e132e3df30e104207ceee490d8ff14171c8593979ae7fccb4da1ce49570c9fc300ade28b7ffc99a4c1e2e21int);
    lemma_pow_window(0x1ae3a4617c510eac63b05c06ca1493b1a22d9f300f5138f1ef3622fba094800170b5d44300000008508c00000000001int, 0xe3005aa38409061ce83091d9d5340c1119daaf118adfe9196cbe5bcac146cb18d995e19e49f79803fdc5bba0e25791int, 0x2b8da543801562d9d26c6nat, 0x28791b8e132e3df30e104207ceee490d8ff14171c8593979ae7fccb4da1ce49570c9fc300ade28b7ffc99a4c1e2e21int, 0x1nat, 0xe3005aa38409061ce83091d9d5340c1119daaf118adfe9196cbe5bcac146cb18d995e19e49f79803fdc5bba0e25791int, 0x13f5b0b9ab546f2776211ca51ffe7d7aa9a9a979f90acb7f53cac665a70528a434b05966ad012f748bbf68dd6a2c42fint);
    lemma_pow_window(0x1ae3a4617c510eac63b05c06ca1493b1a22d9f300f5138f1ef3622fba094800170b5d44300000008508c00000000001int, 0xe3005aa38409061ce83091d9d5340c1119daaf118adfe9196cbe5bcac146cb18d995e19e49f79803fdc5bba0e25791int, 0x2b8da543801562d9d26c61nat, 0x13f5b0b9ab546f2776211ca51ffe7d7aa9a9a979f90acb7f53cac665a70528a434b05966ad012f748bbf68dd6a2c42fint, 0xbnat, 0x16f10d0fb8411449fe134a905a8a77450f5a32707bcf53dceefa3f672c241a718c0b31beaba6c7c6bc66707992e348int, 0x11d10523d8daf2648b7cc4dab92e7dcb4806e390b722778d4274c32bccdabc346cac27441a530de5d5aae9861c0b678int);
    lemma_pow_window(0x1ae3a4617c510eac63b05c06ca1493b1a22d9f300f5138f1ef3622fba094800170b5d44300000008508c00000000001int, 0xe3005aa38409061ce83091d9d5340c1119daaf118adfe9196cbe5bcac146cb18d995e19e49f79803fdc5bba0e25791int, 0x2b8da543801562d9d26c61bnat, 0x11d10523d8daf2648b7cc4dab92e7dcb4806e390b722778d4274c32bccdabc346cac27441a530de5d5aae9861c0b678int, 0x0nat, 0x1int, 0x169c39ecb07d4d3aa587bf7fc2ac54823eb75ace15c9c6e1e8d898b5ecaa7beb76f45550e0e50765a89b1ea47ab5f0eint);
    lemma_pow_window(0x1ae3a4617c510eac63b05c06ca1493b1a22d9f300f5138f1ef3622fba094800170b5d44300000008508c00000000001int, 0xe3005aa38409061ce83091d9d5340c1119daaf118adfe9196cbe5bcac146cb18d995e19e49f79803fdc5bba0e25791int, 0x2b8da543801562d9d26c61b0nat, 0x169c39ecb07d4d3aa587bf7fc2ac54823eb75ace15c9c6e1e8d898b5ecaa7beb76f45550e0e50765a89b1ea47ab5f0eint, 0x1nat, 0xe3005aa38409061ce83091d9d5340c1119daaf118adfe9196cbe5bcac146cb18d995e19e49f79803fdc5bba0e25791int, 0x167d1b4e56b47613c3d901897d8fc1f47ddf2d0c8f54d81f64a9f431f66623d1040b7a3326d50fdd4448fdd89726cf8int);
    lemma_pow_window(0x1ae3a4617c510eac63b05c06ca1493b1a22d9f300f5138f1ef3622fba094800170b5d44300000008508c00000000001int, 0xe3005aa38409061ce83091d9d5340c1119daaf118adfe9196cbe5bcac146cb18d995e19e49f79803fdc5bba0e25791int, 0x2b8da543801562d9d26c61b01nat, 0x167d1b4e56b47613c3d901897d8fc1f47ddf2d0c8f54d81f64a9f431f66623d1040b7a3326d50fdd4448fdd89726cf8int, 0xfnat, 0x19d5d5ea32497e9b51a284beaa4455d368e8163571732a9cc1f39b9265ec5828b77426b576f322e05616f14db0a4092int, 0xf494f55d582973785bd57510e4d5acc0f6b58600e0a6d9008c468c56f51a185124be51ebfd1deb3a6edb7ee1e07353int);
    lemma_pow_window(0x1ae3a4617c510eac63b05c06ca1493b1a22d9f300f5138f1ef3622fba094800170b5d44300000008508c00000000001int, 0xe3005aa38409061ce83091d9d5340c1119daaf118adfe9196cbe5bcac146cb18d995e19e49f79803fdc5bba0e25791int, 0x2b8da543801562d9d26c61b01fnat, 0xf494f55d582973785bd57510e4d5acc0f6b58600e0a6d9008c468c56f51a185124be51ebfd1deb3a6edb7ee1e07353int, 0x7nat, 0x13182ee28a6adb0cb78312f9f404e0229e4b830dc137172847e0a143bbe73e57f25e3dd3eb2cdf406793f4ff4ee6f81int, 0xfcf78ebd24ff3921b77156bb1f70b5b325d75adeaf984d253197a31c5e861813f0330e74b0424222ea3403d5850861int);
    lemma_pow_window(0x1ae3a4617c510eac63b05c06ca1493b1a22d9f300f5138f1ef3622fba094800170b5d44300000008508c00000000001int, 0xe3005aa38409061ce83091d9d5340c1119daaf118adfe9196cbe5bcac146cb18d995e19e49f79803fdc5bba0e25791int, 0x2b8da543801562d9d26c61b01f7nat, 0xfcf78ebd24ff3921b77156bb1f70b5b325d75adeaf984d253197a31c5e861813f0330e74b0424222ea3403d5850861int, 0x1nat, 0xe3005aa38409061ce83091d9d5340c1119daaf118adfe9196cbe5bcac146cb18d995e19e49f79803fdc5bba0e25791int, 0xb1ef26c50e8cb473bee54b111ca14e6e11e04ccbfd759802ca8bc3b3bd86f4d2916b1685bc41c8dbcbdd1d605d38eaint);
    lemma_pow_window(0x1ae3a4617c510eac63b05c06ca1493b1a22d9f300f5138f1ef3622fba094800170b5d44300000008508c00000000001int, 0xe3005aa38409061ce83091d9d5340c1119daaf118adfe9196cbe5bcac146cb18d995e19e49f79803fdc5bba0e25791int, 0x2b8da543801562d9d26c61b01f71nat, 0xb1ef26c50e8cb473bee54b111ca14e6e11e04ccbfd759802ca8bc3b3bd86f4d2916b1685bc41c8dbcbdd1d605d38eaint, 0x3nat, 0x17dbc1e0b2aedf20d56edb36793d35024c3565bcb3440d57a2f995976666480fded25372d5f3c12d93906fccb21182fint, 0x115ce8c071a6038d896daa89a3995106572e92532f467534f062e282c6224940a6b5fa68c8bfd374174fd26253488c7int);
    lemma_pow_window(0x1ae3a4617c510eac63b05c06ca1493b1a22d9f300f5138f1ef3622fba094800170b5d44300000008508c00000000001int, 0xe3005aa38409061ce83091d9d5340c1119daaf118adfe9196cbe5bcac146cb18d995e19e49f79803fdc5bba0e25791int, 0x2b8da543801562d9d26c61b01f713nat, 0x115ce8c071a6038d896daa89a3995106572e92532f467534f062e282c6224940a6b5fa68c8bfd374174fd26253488c7int, 0xdnat, 0x29c849b704b8d8460cca0119196a7360487811b4a236b9d51b626b56b8dd8638899b1ca0746e85960674545c29290cint, 0x7c0f9e3bc30b132f499b3305e20037300c3ba1518b5538c10e2611628d0c44da2ec2bc9500a0b5e6fcba682772d307int);
    lemma_pow_window(0x1ae3a4617c510eac63b05c06ca1493b1a22d9f300f5138f1ef3622fba094800170b5d44300000008508c00000000001int, 0xe3005aa38409061ce83091d9d5340c1119daaf118adfe9196cbe5bcac146cb18d995e19e49f79803fdc5bba0e25791int, 0x2b8da543801562d9d26c61b01f713dnat, 0x7c0f9e3bc30b132f499b3305e20037300c3ba1518b5538c10e2611628d0c44da2ec2bc9500a0b5e6fcba682772d307int, 0x5nat, 0x1a3f9c3a0bcd745f6cba05f43826c1801509842caf6af4a5e37651f37a7b0539df51a17ff6fa46d3bd666086563f929int, 0x3a5e355bc4d57a297c1126f7894f32bb6e85fb9bb77b62f06015ba6cab82d2e04ac4a4b3dd37505293bcbcf73dcc91int);
    lemma_pow_window(0x1ae3a4617c510eac63b05c06ca1493b1a22d9f300f5138f1ef3622fba094800170b5d44300000008508c00000000001int, 0xe3005aa38409061ce83091d9d5340c1119daaf118adfe9196cbe5bcac146cb18d995e19e49f79803fdc5bba0e25791int, 0x2b8da543801562d9d26c61b01f713d5nat, 0x3a5e355bc4d57a297c1126f7894f32bb6e85fb9bb77b62f06015ba6cab82d2e04ac4a4b3dd37505293bcbcf73dcc91int, 0x4nat, 0xe7343ab79ef3bf0faf687d998d2496db962500abdc83e985687791b2c7e5b5e11906d804e7b7408aebd11cef4c2682int, 0x1a90d10c1d42eab2a7296a12a8e6aa0a1f4aeefc9ef0c0ac84e276f9c5f666103d238e87f8d5c0eaedad86e050bc727int);
    lemma_pow_window(0x1ae3a4617c510eac63b05c06ca1493b1a22d9f300f5138f1ef3622fba094800170b5d44300000008508c00000000001int, 0xe3005aa38409061ce83091d9d5340c1119daaf118adfe9196cbe5bcac146cb18d995e19e49f79803fdc5bba0e25791int, 0x2b8da543801562d9d26c61b01f713d54nat, 0x1a90d10c1d42eab2a7296a12a8e6aa0a1f4aeefc9ef0c0ac84e276f9c5f666103d238e87f8d5c0eaedad86e050bc727int, 0x9nat, 0xacb82de213cf363a54cdddf0d849eb95df1e2e79f547634afccd12459fba950fa5c0bb235c34681b619c64265abf08int, 0x5f92ba315f512d6b4d8c15762bb44d4c2e3a663b662f2914c18c37ffbd456aa1e531b9311c62ee4bf240660ea74700int);
    lemma_pow_window(0x1ae3a4617c510eac63b05c06ca1493b1a22d9f300f5138f1ef3622fba094800170b5d44300000008508c00000000001int, 0xe3005aa38409061ce83091d9d5340c1119daaf118adfe9196cbe5bcac146cb18d995e19e49f79803fdc5bba0e25791int, 0x2b8da543801562d9d26c61b01f713d549nat, 0x5f92ba315f512d6b4d8c15762bb44d4c2e3a663b662f2914c18c37ffbd456aa1e531b9311c62ee4bf240660ea74700int, 0xbnat, 0x16f10d0fb8411449fe134a905a8a77450f5a32707bcf53dceefa3f672c241a718c0b31beaba6c7c6bc66707992e348int, 0xbb58da88c2413066aca424d73ec97630b3eca35cdf8f5b1791cd67daef68fce74a67198205970c4f565879771229d7int);
    lemma_pow_window(0x1ae3a4617c510eac63b05c06ca1493b1a22d9f300f5138f1ef3622fba094800170b5d44300000008508c00000000001int, 0xe3005aa38409061ce83091d9d5340c1119daaf118adfe9196cbe5bcac146cb18d995e19e49f79803fdc5bba0e25791int, 0x2b8da543801562d9d26c61b01f713d549bnat, 0xbb58da88c2413066aca424d73ec97630b3eca35cdf8f5b1791cd67daef68fce74a67198205970c4f565879771229d7int, 0xcnat, 0x10c0b388d0470bee4d233bc8f9b0dd84697fe2049efba0bab397c2c2b01c58060140c5a8549535aba0ed691961ef816int, 0x125d28174abb143e9845c75959c03387eab2ddafdd4a0788c54c71152cd700b1d63aab2e44899b209b2949fc4c1564dint);
    lemma_pow_window(0x1ae3a4617c510eac63b05c06ca1493b1a22d9f300f5138f1ef3622fba094800170b5d44300000008508c00000000001int, 0xe3005aa38409061ce83091d9d5340c1119daaf118adfe9196cbe5bcac146cb18d995e19e49f79803fdc5bba0e25791int, 0x2b8da543801562d9d26c61b01f713d549bcnat, 0x125d28174abb143e9845c75959c03387eab2ddafdd4a0788c54c71152cd700b1d63aab2e44899b209b2949fc4c1564dint, 0xbnat, 0x16f10d0fb8411449fe134a905a8a77450f5a32707bcf53dceefa3f672c241a718c0b31beaba6c7c6bc66707992e348int, 0x770062217b02e4a204a5db8a53c1400c8ceb20a044013bc68691287b785790486af249cbd31ae8ca41c473a6238125int);
    lemma_pow_window(0x1ae3a4617c510eac63b05c06ca1493b1a22d9f300f5138f1ef3622fba094800170b5d44300000008508c00000000001int, 0xe3005aa38409061ce83091d9d5340c1119daaf118adfe9196cbe5bcac146cb18d995e19e49f79803fdc5bba0e25791int, 0x2b8da543801562d9d26c61b01f713d549bcbnat, 0x770062217b02e4a204a5db8a53c1400c8ceb20a044013bc68691287b785790486af249cbd31ae8ca41c473a6238125int, 0x2nat, 0x6f9977c937b8b5e866517da484e16a0fbe3158ef4db505b3921e1f97ac4f146acc423c6e8c504f59ee0f25719bfb03int, 0x1a5b199c8e4ed974aeae5585b32421a2ed2c7c4127accbf96a6ea8b45b77869f39398e474c7fc34307885fed1a7ea5int);
    lemma_pow_window(0x1ae3a4617c510eac63b05c06ca1493b1a22d9f300f5138f1ef3622fba094800170b5d44300000008508c00000000001int, 0xe3005aa38409061ce83091d9d5340c1119daaf118adfe9196cbe5bcac146cb18d995e19e49f79803fdc5bba0e25791int, 0x2b8da543801562d9d26c61b01f713d549bcb2nat, 0x1a5b199c8e4ed974aeae5585b32421a2ed2c7c4127accbf96a6ea8b45b77869f39398e474c7fc34307885fed1a7ea5int, 0xbnat, 0x16f10d0fb8411449fe134a905a8a77450f5a32707bcf53dceefa3f672c241a718c0b31beaba6c7c6bc66707992e348int, 0xa19b7f7695c765149cd98667e229fda372cdf722f6ebb5c20faec8631d2f98f80c501a987e8c3e4bbccb13a7ae16d8int);
    lemma_pow_window(0x1ae3a4617c510eac63b05c06ca1493b1a22d9f300f5138f1ef3622fba094800170b5d44300000008508c00000000001int, 0xe3005aa38409061ce83091d9d5340c1119daaf118adfe9196cbe5bcac146cb18d995e19e49f79803fdc5bba0e25791int, 0x2b8da543801562d9d26c61b01f713d549bcb2bnat, 0xa19b7f7695c765149cd98667e229fda372cdf722f6ebb5c20faec8631d2f98f80c501a987e8c3e4bbccb13a7ae16d8int, 0xanat, 0x5c3d1b0e47f9d8373702567d409e7cc0b925585fcb35f4b177d07c75948d130836d7376a4e877975ecc702170ed29eint, 0x3738192fc1f2cf27c0fb3396cb680e3eba8e9565777d0f351a2f1fa0161d765f87f958d5ba31d5a648bb9300456746int);
    lemma_pow_window(0x1ae3a4617c510eac63b05c06ca1493b1a22d9f300f5138f1ef3622fba094800170b5d44300000008508c00000000001int, 0xe3005aa38409061ce83091d9d5340c1119daaf118adfe9196cbe5bcac146cb18d995e19e49f79803fdc5bba0e25791int, 0x2b8da543801562d9d26c61b01f713d549bcb2banat, 0x3738192fc1f2cf27c0fb3396cb680e3eba8e9565777d0f351a2f1fa0161d765f87f958d5ba31d5a648bb9300456746int, 0xenat, 0xf3bb1700c33e38dfb10a646d30110354d05747a45f031f1fb9b13c5b8d8d722cb4da2c7fd862caa7d0d33acfeb5befint, 0xf0a95090c0ab9b6469aa47f6921d715cd373bb8352ceeef441bd20a36dbaf850a6ad087047bd0c23234cb374bc4a0eint);
    lemma_pow_window(0x1ae3a4617c510eac63b05c06ca1493b1a22d9f300f5138f1ef3622fba094800170b5d44300000008508c00000000001int, 0xe3005aa38409061ce83091d9d5340c1119daaf118adfe9196cbe5bcac146cb18d995e19e49f79803fdc5bba0e25791int, 0x2b8da543801562d9d26c61b01f713d549bcb2baenat, 0xf0a95090c0ab9b6469aa47f6921d715cd373bb8352ceeef441bd20a36dbaf850a6ad087047bd0c23234cb374bc4a0eint, 0x4nat, 0xe7343ab79ef3bf0faf687d998d2496db962500abdc83e985687791b2c7e5b5e11906d804e7b7408aebd11cef4c2682int, 0x149dcb4d8b0cf32f84cc285f2f8e6bc8281897b08dd6a4b8e84a60c2f074b42e68e4d704a4c952abf759c54687c9d01int);
    lemma_pow_window(0x1ae3a4617c510eac63b05c06ca1493b1a22d9f300f5138f1ef3622fba094800170b5d44300000008508c00000000001int, 0xe3005aa38409061ce83091d9d5340c1119daaf118adfe9196cbe5bcac146cb18d995e19e49f79803fdc5bba0e25791int, 0x2b8da543801562d9d26c61b01f713d549bcb2bae4nat, 0x149dcb4d8b0cf32f84cc285f2f8e6bc8281897b08dd6a4b8e84a60c2f074b42e68e4d704a4c952abf759c54687c9d01int, 0xanat, 0x5c3d1b0e47f9d8373702567d409e7cc0b925585fcb35f4b177d07c75948d130836d7376a4e877975ecc702170ed29eint, 0x15f4853c36ade152a20f981ea2b26253b145f9870426724818dc09cb47029540d08e7d7ba373f56384dc42ede4939fbint);
    lemma_pow_window(0x1ae3a4617c510eac63b05c06ca1493b1a22d9f300f5138f1ef3622fba094800170b5d44300000008508c00000000001int, 0xe3005aa38409061ce83091d9d5340c1119daaf118adfe9196cbe5bcac146cb18d995e19e49f79803fdc5bba0e25791int, 0x2b8da543801562d9d26c61b01f713d549bcb2bae4anat, 0x15f4853c36ade152a20f981ea2b26253b145f9870426724818dc09cb47029540d08e7d7ba373f56384dc42ede4939fbint, 0x0nat, 0x1int, 0x73b267ae183ed8dcf8238fd0a199503d55957691e972bfff4c37e337df6ac62dfdf1711ab308a02686871bd070a90cint);
    lemma_pow_window(0x1ae3a4617c510eac63b05c06ca1493b1a22d9f300f5138f1ef3622fba094800170b5d44300000008508c00000000001int, 0xe3005aa38409061ce83091d9d5340c1119daaf118adfe9196cbe5bcac146cb18d995e19e49f79803fdc5bba0e25791int, 0x2b8da543801562d9d26c61b01f713d549bcb2bae4a0nat, 0x73b267ae183ed8dcf8238fd0a199503d55957691e972bfff4c37e337df6ac62dfdf1711ab308a02686871bd070a90cint, 0x4nat, 0xe7343ab79ef3bf0faf687d998d2496db962500abdc83e985687791b2c7e5b5e11906d804e7b7408aebd11cef4c2682int, 0x95a128c8b8b370a08cb9b551120d8ef451e21b79e0fc8efbaed83ba3e148a37820bfc3cec85b9b5c0473d3098f688cint);
    lemma_pow_window(0x1ae3a4617c510eac63b05c06ca1493b1a22d9f300f5138f1ef3622fba094800170b5d44300000008508c00000000001int, 0xe3005aa38409061ce83091d9d5340c1119daaf118adfe9196cbe5bcac146cb18d995e19e49f79803fdc5bba0e25791int, 0x2b8da543801562d9d26c61b01f713d549bcb2bae4a04nat, 0x95a128c8b8b370a08cb9b551120d8ef451e21b79e0fc8efbaed83ba3e148a37820bfc3cec85b9b5c0473d3098f688cint, 0x0nat, 0x1int, 0xbd36593ef9677307ec1b86499483b8a3812b05bd9a6e8b617551e5cfb9f4d2118c9e19f64b9bf8fc99cb1a07c7d466int);
    lemma_pow_window(0x1ae3a4617c510eac63b05c06ca1493b1a22d9f300f5138f1ef3622fba094800170b5d44300000008508c00000000001int, 0xe3005aa38409061ce83091d9d5340c1119daaf118adfe9196cbe5bcac146cb18d995e19e49f79803fdc5bba0e25791int, 0x2b8da543801562d9d26c61b01f713d549bcb2bae4a040nat, 0xbd36593ef9677307ec1b86499483b8a3812b05bd9a6e8b617551e5cfb9f4d2118c9e19f64b9bf8fc99cb1a07c7d466int, 0x3nat, 0x17dbc1e0b2aedf20d56edb36793d35024c3565bcb3440d57a2f995976666480fded25372d5f3c12d93906fccb21182fint, 0x36a6ac8585ea227e358863442a1ee28b2fefd801eab6df68acf3646dce91403715c70ad8d9d3639642087d61c63a8aint);
    lemma_pow_window(0x1ae3a4617c510eac63b05c06ca1493b1a22d9f300f5138f1ef3622fba094800170b5d44300000008508c00000000001int, 0xe3005aa38409061ce83091d9d5340c1119daaf118adfe9196cbe5bcac146cb18d995e19e49f79803fdc5bba0e25791int, 0x2b8da543801562d9d26c61b01f713d549bcb2bae4a0403nat, 0x36a6ac8585ea227e358863442a1ee28b2fefd801eab6df68acf3646dce91403715c70ad8d9d3639642087d61c63a8aint, 0x1nat, 0xe3005aa38409061ce83091d9d5340c1119daaf118adfe9196cbe5bcac146cb18d995e19e49f79803fdc5bba0e25791int, 0x1abec063c2255b308320ce4eedbeca423d0dd6e1f6e1adfdd09955421b4e617c5c362f8b61e91f8453edec3da0c2dccint);
    lemma_pow_window(0x1ae3a4617c510eac63b05c06ca1493b1a22d9f300f5138f1ef3622fba094800170b5d44300000008508c00000000001int, 0xe3005aa38409061ce83091d9d5340c1119daaf118adfe9196cbe5bcac146cb18d995e19e49f79803fdc5bba0e25791int, 0x2b8da543801562d9d26c61b01f713d549bcb2bae4a04031nat, 0x1abec063c2255b308320ce4eedbeca423d0dd6e1f6e1adfdd09955421b4e617c5c362f8b61e91f8453edec3da0c2dccint, 0x0nat, 0x1int, 0x136dafa560180c93a3f99343547dd396322dbbd1c41571f75b72e8234ca1259465c949c73081ff8dae7885f8e3d3f1fint);
    lemma_pow_window(0x1ae3a4617c510eac63b05c06ca1493b1a22d9f300f5138f1ef3622fba094800170b5d44300000008508c00000000001int, 0xe3005aa38409061ce83091d9d5340c1119daaf118adfe9196cbe5bcac146cb18d995e19e49f79803fdc5bba0e25791int, 0x2b8da543801562d9d26c61b01f713d549bcb2bae4a040310nat, 0x136dafa560180c93a3f99343547dd396322dbbd1c41571f75b72e8234ca1259465c949c73081ff8dae7885f8e3d3f1fint, 0x1nat, 0xe3005aa38409061ce83091d9d5340c1119daaf118adfe9196cbe5bcac146cb18d995e19e49f79803fdc5bba0e25791int, 0x171efb28abc759455854cbe88c156b71d829579fb7f824158a86d8848011e0e232b8638f975f6728ded39f56b3f198int);
    lemma_pow_window(0x1ae3a4617c510eac63b05c06ca1493b1a22d9f300f5138f1ef3622fba094800170b5d44300000008508c00000000001int, 0xe3005aa38409061ce83091d9d5340c1119daaf118adfe9196cbe5bcac146cb18d995e19e49f79803fdc5bba0e25791int, 0x2b8da543801562d9d26c61b01f713d549bcb2bae4a0403101nat, 0x171efb28abc759455854cbe88c156b71d829579fb7f824158a86d8848011e0e232b8638f975f6728ded39f56b3f198int, 0x7nat, 0x13182ee28a6adb0cb78312f9f404e0229e4b830dc137172847e0a143bbe73e57f25e3dd3eb2cdf406793f4ff4ee6f81int, 0x11207ebb290f63b95af76017d95ddfe33fbf2411b228a00d1c544fbba31f7c6783e2b0c2488355420eb7963baae6121int);
    lemma_pow_window(0x1ae3a4617c510eac63b05c06ca1493b1a22d9f300f5138f1ef3622fba094800170b5d44300000008508c00000000001int, 0xe3005aa38409061ce83091d9d5340c1119daaf118adfe9196cbe5bcac146cb18d995e19e49f79803fdc5bba0e25791int, 0x2b8da543801562d9d26c61b01f713d549bcb2bae4a04031017nat, 0x11207ebb290f63b95af76017d95ddfe33fbf2411b228a00d1c544fbba31f7c6783e2b0c2488355420eb7963baae6121int, 0x4nat, 0xe7343ab79ef3bf0faf687d998d2496db962500abdc83e985687791b2c7e5b5e11906d804e7b7408aebd11cef4c2682int, 0x1217ab529ada671fde6841681f3e5a647976aa3dda26686818d9467aea9dcf2ddaad492ba48e62e60747e9f75d89853int);
    lemma_pow_window(0x1ae3a4617c510eac63b05c06ca1493b1a22d9f300f5138f1ef3622fba094800170b5d44300000008508c00000000001int, 0xe3005aa38409061ce83091d9d5340c1119daaf118adfe9196cbe5bcac146cb18d995e19e49f79803fdc5bba0e25791int, 0x2b8da543801562d9d26c61b01f713d549bcb2bae4a040310174nat, 0x1217ab529ada671fde6841681f3e5a647976aa3dda26686818d9467aea9dcf2ddaad492ba48e62e60747e9f75d89853int, 0x1nat, 0xe3005aa38409061ce83091d9d5340c1119daaf118adfe9196cbe5bcac146cb18d995e19e49f79803fdc5bba0e25791int, 0x13d821ef72096fc31a7d5cbc21b4bd9cb949089e2e274e1096869a380ab551753b48b439e2a123255ec84fcea383828int);
    lemma_pow_window(0x1ae3a4617c510eac63b05c06ca1493b1a22d9f300f5138f1ef3622fba094800170b5d44300000008508c00000000001int, 0xe3005aa38409061ce83091d9d5340c1119daaf118adfe9196cbe5bcac146cb18d995e19e49f79803fdc5bba0e25791int, 0x2b8da543801562d9d26c61b01f713d549bcb2bae4a0403101741nat, 0x13d821ef72096fc31a7d5cbc21b4bd9cb949089e2e274e1096869a380ab551753b48b439e2a123255ec84fcea383828int, 0x9nat, 0xacb82de213cf363a54cdddf0d849eb95df1e2e79f547634afccd12459fba950fa5c0bb235c34681b619c64265abf08int, 0xf245f1882d7aab2c6c1768d52425fb2a72047ee7f5c73cb853b2e1163efdc615c6c05fffac9b7cc7179de53c182ca1int);
    lemma_pow_window(0x1ae3a4617c510eac63b05c06ca1493b1a22d9f300f5138f1ef3622fba094800170b5d44300000008508c00000000001int, 0xe3005aa38409061ce83091d9d5340c1119daaf118adfe9196cbe5bcac146cb18d995e19e49f79803fdc5bba0e25791int, 0x2b8da543801562d9d26c61b01f713d549bcb2bae4a04031017419nat, 0xf245f1882d7aab2c6c1768d52425fb2a72047ee7f5c73cb853b2e1163efdc615c6c05fffac9b7cc7179de53c182ca1int, 0x3nat, 0x17dbc1e0b2aedf20d56edb36793d35024c3565bcb3440d57a2f995976666480fded25372d5f3c12d93906fccb21182fint, 0x175f100ff294e3a5c16b7c2a8c3a97df199a7469c568f9b66d0617943795050c0e9e0018aa58974c888bcaadc7599b9int);
    lemma_pow_window(0x1ae3a4617c510eac63b05c06ca1493b1a22d9f300f5138f1ef3622fba094800170b5d44300000008508c00000000001int, 0xe3005aa38409061ce83091d9d5340c1119daaf118adfe9196cbe5bcac146cb18d995e19e49f79803fdc5bba0e25791int, 0x2b8da543801562d9d26c61b01f713d549bcb2bae4a040310174193nat, 0x175f100ff294e3a5c16b7c2a8c3a97df199a7469c568f9b66d0617943795050c0e9e0018aa58974c888bcaadc7599b9int, 0x0nat, 0x1int, 0x7bcbad322186a49ab9d63f9e2d2ec94fb3225afdc882911e3d7642a89b119fde26d458392516de5e5f8610e613e29bint);
    lemma_pow_window(0x1ae3a4617c510eac63b05c06ca1493b1a22d9f300f5138f1ef3622fba094800170b5d44300000008508c00000000001int, 0xe3005aa38409061ce83091d9d5340c1119daaf118adfe9196cbe5bcac146cb18d995e19e49f79803fdc5bba0e25791int, 0x2b8da543801562d9d26c61b01f713d549bcb2bae4a0403101741930nat, 0x7bcbad322186a49ab9d63f9e2d2ec94fb3225afdc882911e3d7642a89b119fde26d458392516de5e5f8610e613e29bint, 0x9nat, 0xacb82de213cf363a54cdddf0d849eb95df1e2e79f547634afccd12459fba950fa5c0bb235c34681b619c64265abf08int, 0x520b0d60c14dbd26acd346cbfe7ee35cc329dd7007d8658f6c07564daff25a255ac15a2bec0599c9085feae07b43c4int);
    lemma_pow_window(0x1ae3a4617c510eac63b05c06ca1493b1a22d9f300f5138f1ef3622fba094800170b5d44300000008508c00000000001int, 0xe3005aa38409061ce83091d9d5340c1119daaf118adfe9196cbe5bcac146cb18d995e19e49f79803fdc5bba0e25791int, 0x2b8da543801562d9d26c61b01f713d549bcb2bae4a04031017419309nat, 0x520b0d60c14dbd26acd346cbfe7ee35cc329dd7007d8658f6c07564daff25a255ac15a2bec0599c9085feae07b43c4int, 0x5nat, 0x1a3f9c3a0bcd745f6cba05f43826c1801509842caf6af4a5e37651f37a7b0539df51a17ff6fa46d3bd666086563f929int, 0x1ae3a4617c510eac63b05c06ca1493b1a22d9f300f5138f1ef3622fba094800170b5d44300000008508c00000000000int);
    lemma_pow0(0x1ae3a4617c510eac63b05c06ca1493b1a22d9f300f5138f1ef3622fba094800170b5d44300000008508c00000000000int);
    lemma_pow_next(0x1ae3a4617c510eac63b05c06ca1493b1a22d9f300f5138f1ef3622fba094800170b5d44300000008508c00000000001int, 0x1ae3a4617c510eac63b05c06ca1493b1a22d9f300f5138f1ef3622fba094800170b5d44300000008508c00000000000int, 0x0nat, 0x1int, 0x1ae3a4617c510eac63b05c06ca1493b1a22d9f300f5138f1ef3622fba094800170b5d44300000008508c00000000000int);
    lemma_pow_next(0x1ae3a4617c510eac63b05c06ca1493b1a22d9f300f5138f1ef3622fba094800170b5d44300000008508c00000000001int, 0x1ae3a4617c510eac63b05c06ca1493b1a22d9f300f5138f1ef3622fba094800170b5d44300000008508c00000000000int, 0x1nat, 0x1ae3a4617c510eac63b05c06ca1493b1a22d9f300f5138f1ef3622fba094800170b5d44300000008508c00000000000int, 0x1int);
    lemma_pow_tower(0x1ae3a4617c510eac63b05c06ca1493b1a22d9f300f5138f1ef3622fba094800170b5d44300000008508c00000000001int, 0xe3005aa38409061ce83091d9d5340c1119daaf118adfe9196cbe5bcac146cb18d995e19e49f79803fdc5bba0e25791int, 0x2b8da543801562d9d26c61b01f713d549bcb2bae4a040310174193095nat, 0x1ae3a4617c510eac63b05c06ca1493b1a22d9f300f5138f1ef3622fba094800170b5d44300000008508c00000000000int, 0x2nat, 1);
    lemma_prime_by_certificate(0x1ae3a4617c510eac63b05c06ca1493b1a22d9f300f5138f1ef3622fba094800170b5d44300000008508c00000000001int, 0x2int, 0x2b8da543801562d9d26c61b01f713d549bcb2bae4a040310174193095int, 0xe3005aa38409061ce83091d9d5340c1119daaf118adfe9196cbe5bcac146cb18d995e19e49f79803fdc5bba0e25791int, 0x6f9977c937b8b5e866517da484e16a0fbe3158ef4db505b3921e1f97ac4f146acc423c6e8c504f59ee0f25719bfb03int, 0x1ae3a4617c510eac63b05c06ca1493b1a22d9f300f5138f1ef3622fba094800170b5d44300000008508c00000000000int, 0x549e933a77a154de03dfc66722fd747de773ec07b2a7d4b0c0640c5bca8081a061335c01071d55a90c84c4f41d8767int, 0xd71d230be28875631d82e03650a49d8d116cf9807a89c78f79b117dd04a4000b85aea2180000004284600000000000int);
}

} // verus!
