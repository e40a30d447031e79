//! Every element of the field that is not zero has an inverse.
//!
//! Seven generates the multiplicative group: its power `p - 1` is one and
//! none of its powers `(p - 1) / q`, for the prime factors `q` of `p - 1`,
//! is. So its `p - 1` first powers are distinct, and as they are nonzero
//! residues, of which there are `p - 1`, they are all of them. Hence every
//! nonzero residue is a power of seven, and its power `p - 1` is one.

use crate::field::{field_inv, field_mul, field_pow, modulus};
use crate::field_lemmas::{
    lemma_cong_mod, lemma_field_ops, lemma_field_pow_add, lemma_field_pow_base,
    lemma_field_pow_cong, lemma_field_pow_mul, lemma_field_pow_of_one, lemma_field_pow_succ,
    lemma_field_pow_one,
};
use crate::primes::{
    lemma_cancel_prime, lemma_prime_17, lemma_prime_2, lemma_prime_257, lemma_prime_3,
    lemma_prime_5, lemma_prime_65537,
};
use vstd::arithmetic::div_mod::{
    lemma_fundamental_div_mod, lemma_fundamental_div_mod_converse, lemma_mod_bound,
    lemma_small_mod,
};
use vstd::arithmetic::power2::{lemma2_to64, lemma2_to64_rest, lemma_pow2_unfold, pow2};
use vstd::prelude::*;
use vstd::relations::injective_on;
use vstd::set_lib::{lemma_int_range, lemma_map_size, lemma_subset_equality, set_int_range};

verus! {

/// The powers `7^(2^k)` for `k` up to 63.
closed spec fn seven_power(k: nat) -> int {
    if k == 0 {
        0x7
    } else if k == 1 {
        0x31
    } else if k == 2 {
        0x961
    } else if k == 3 {
        0x57f6c1
    } else if k == 4 {
        0x1e39a5057d81
    } else if k == 5 {
        0x33cdc3006affab59
    } else if k == 6 {
        0x9c232dfb69ab851e
    } else if k == 7 {
        0xa8c0042254470173
    } else if k == 8 {
        0x15535ad69462d090
    } else if k == 9 {
        0xfef45a869aab8679
    } else if k == 10 {
        0x21beccb8b6d8f6fa
    } else if k == 11 {
        0x583cf0d902a86abc
    } else if k == 12 {
        0x8bf128731ab1a0b5
    } else if k == 13 {
        0xd17ad58ee893a7d2
    } else if k == 14 {
        0xfaa379da87a7f914
    } else if k == 15 {
        0x9220d622d5cf1603
    } else if k == 16 {
        0x9ad50a054da1207f
    } else if k == 17 {
        0xa452f750dd9b8a44
    } else if k == 18 {
        0x1415f3b2bce09454
    } else if k == 19 {
        0xd3db3f11768ae838
    } else if k == 20 {
        0xb44626e05edf0086
    } else if k == 21 {
        0xe4de14a4047cb0bf
    } else if k == 22 {
        0xf4d85bd7e852ec36
    } else if k == 23 {
        0x3d56e129723521fd
    } else if k == 24 {
        0x6402e9b28e42bfe3
    } else if k == 25 {
        0xf7fd0e6632895a3a
    } else if k == 26 {
        0x44447512bd52434a
    } else if k == 27 {
        0xc878161102d0f705
    } else if k == 28 {
        0xf52dac93873eb7ce
    } else if k == 29 {
        0x4bf5466963dd8aae
    } else if k == 30 {
        0x392ec7049f67a8b5
    } else if k == 31 {
        0xf1323b7acab09084
    } else if k == 32 {
        0xaa5b2509f86bb4d4
    } else if k == 33 {
        0x420265815f3416fd
    } else if k == 34 {
        0x735a2fcd9a778a82
    } else if k == 35 {
        0x3330c100e58d1cf5
    } else if k == 36 {
        0x5aadd62ae39d63b6
    } else if k == 37 {
        0xa9e387dec6c58c34
    } else if k == 38 {
        0x5eae3c75b470a9fd
    } else if k == 39 {
        0xcc9002922470305d
    } else if k == 40 {
        0xc50ac421108ac564
    } else if k == 41 {
        0xe3372be9840bf885
    } else if k == 42 {
        0x5495a82fa4f8d217
    } else if k == 43 {
        0xb268f85e9acf4b4d
    } else if k == 44 {
        0x3f6c070ab73894af
    } else if k == 45 {
        0xb8c128224dca6f31
    } else if k == 46 {
        0xf5e147f3c47243f9
    } else if k == 47 {
        0x23cd79d6d2ec282d
    } else if k == 48 {
        0x4e5f29dcce8d1acf
    } else if k == 49 {
        0x8bfd885ff03ed0d2
    } else if k == 50 {
        0xbe3318f23e5578f2
    } else if k == 51 {
        0xdf599324ad0ddb0b
    } else if k == 52 {
        0xba793228c1b0989
    } else if k == 53 {
        0xb3b4355970b4752
    } else if k == 54 {
        0xefe118167a47efc2
    } else if k == 55 {
        0xbcd7b71893484119
    } else if k == 56 {
        0x75e5a9bdb2c281d9
    } else if k == 57 {
        0x6b04ea071921117e
    } else if k == 58 {
        0xcb5c2e5dddc57680
    } else if k == 59 {
        0x3dc10de1bcba7f4c
    } else if k == 60 {
        0xe78c148247c6c647
    } else if k == 61 {
        0x96502d2e524bf547
    } else if k == 62 {
        0x6fb99f6738fb276a
    } else {
        0xecdc484354f6f7d
    }
}

/// Each stored power is the square of the one before.
proof fn lemma_seven_squares(k: nat)
    requires
        1 <= k <= 63,
    ensures
        field_mul(seven_power((k - 1) as nat), seven_power((k - 1) as nat)) == seven_power(k),
{
    if k == 1 {
        assert(field_mul(0x7, 0x7) == 0x31);
    } else if k == 2 {
        assert(field_mul(0x31, 0x31) == 0x961);
    } else if k == 3 {
        assert(field_mul(0x961, 0x961) == 0x57f6c1);
    } else if k == 4 {
        assert(field_mul(0x57f6c1, 0x57f6c1) == 0x1e39a5057d81);
    } else if k == 5 {
        assert(field_mul(0x1e39a5057d81, 0x1e39a5057d81) == 0x33cdc3006affab59);
    } else if k == 6 {
        assert(field_mul(0x33cdc3006affab59, 0x33cdc3006affab59) == 0x9c232dfb69ab851e);
    } else if k == 7 {
        assert(field_mul(0x9c232dfb69ab851e, 0x9c232dfb69ab851e) == 0xa8c0042254470173);
    } else if k == 8 {
        assert(field_mul(0xa8c0042254470173, 0xa8c0042254470173) == 0x15535ad69462d090);
    } else if k == 9 {
        assert(field_mul(0x15535ad69462d090, 0x15535ad69462d090) == 0xfef45a869aab8679);
    } else if k == 10 {
        assert(field_mul(0xfef45a869aab8679, 0xfef45a869aab8679) == 0x21beccb8b6d8f6fa);
    } else if k == 11 {
        assert(field_mul(0x21beccb8b6d8f6fa, 0x21beccb8b6d8f6fa) == 0x583cf0d902a86abc);
    } else if k == 12 {
        assert(field_mul(0x583cf0d902a86abc, 0x583cf0d902a86abc) == 0x8bf128731ab1a0b5);
    } else if k == 13 {
        assert(field_mul(0x8bf128731ab1a0b5, 0x8bf128731ab1a0b5) == 0xd17ad58ee893a7d2);
    } else if k == 14 {
        assert(field_mul(0xd17ad58ee893a7d2, 0xd17ad58ee893a7d2) == 0xfaa379da87a7f914);
    } else if k == 15 {
        assert(field_mul(0xfaa379da87a7f914, 0xfaa379da87a7f914) == 0x9220d622d5cf1603);
    } else if k == 16 {
        assert(field_mul(0x9220d622d5cf1603, 0x9220d622d5cf1603) == 0x9ad50a054da1207f);
    } else if k == 17 {
        assert(field_mul(0x9ad50a054da1207f, 0x9ad50a054da1207f) == 0xa452f750dd9b8a44);
    } else if k == 18 {
        assert(field_mul(0xa452f750dd9b8a44, 0xa452f750dd9b8a44) == 0x1415f3b2bce09454);
    } else if k == 19 {
        assert(field_mul(0x1415f3b2bce09454, 0x1415f3b2bce09454) == 0xd3db3f11768ae838);
    } else if k == 20 {
        assert(field_mul(0xd3db3f11768ae838, 0xd3db3f11768ae838) == 0xb44626e05edf0086);
    } else if k == 21 {
        assert(field_mul(0xb44626e05edf0086, 0xb44626e05edf0086) == 0xe4de14a4047cb0bf);
    } else if k == 22 {
        assert(field_mul(0xe4de14a4047cb0bf, 0xe4de14a4047cb0bf) == 0xf4d85bd7e852ec36);
    } else if k == 23 {
        assert(field_mul(0xf4d85bd7e852ec36, 0xf4d85bd7e852ec36) == 0x3d56e129723521fd);
    } else if k == 24 {
        assert(field_mul(0x3d56e129723521fd, 0x3d56e129723521fd) == 0x6402e9b28e42bfe3);
    } else if k == 25 {
        assert(field_mul(0x6402e9b28e42bfe3, 0x6402e9b28e42bfe3) == 0xf7fd0e6632895a3a);
    } else if k == 26 {
        assert(field_mul(0xf7fd0e6632895a3a, 0xf7fd0e6632895a3a) == 0x44447512bd52434a);
    } else if k == 27 {
        assert(field_mul(0x44447512bd52434a, 0x44447512bd52434a) == 0xc878161102d0f705);
    } else if k == 28 {
        assert(field_mul(0xc878161102d0f705, 0xc878161102d0f705) == 0xf52dac93873eb7ce);
    } else if k == 29 {
        assert(field_mul(0xf52dac93873eb7ce, 0xf52dac93873eb7ce) == 0x4bf5466963dd8aae);
    } else if k == 30 {
        assert(field_mul(0x4bf5466963dd8aae, 0x4bf5466963dd8aae) == 0x392ec7049f67a8b5);
    } else if k == 31 {
        assert(field_mul(0x392ec7049f67a8b5, 0x392ec7049f67a8b5) == 0xf1323b7acab09084);
    } else if k == 32 {
        assert(field_mul(0xf1323b7acab09084, 0xf1323b7acab09084) == 0xaa5b2509f86bb4d4);
    } else if k == 33 {
        assert(field_mul(0xaa5b2509f86bb4d4, 0xaa5b2509f86bb4d4) == 0x420265815f3416fd);
    } else if k == 34 {
        assert(field_mul(0x420265815f3416fd, 0x420265815f3416fd) == 0x735a2fcd9a778a82);
    } else if k == 35 {
        assert(field_mul(0x735a2fcd9a778a82, 0x735a2fcd9a778a82) == 0x3330c100e58d1cf5);
    } else if k == 36 {
        assert(field_mul(0x3330c100e58d1cf5, 0x3330c100e58d1cf5) == 0x5aadd62ae39d63b6);
    } else if k == 37 {
        assert(field_mul(0x5aadd62ae39d63b6, 0x5aadd62ae39d63b6) == 0xa9e387dec6c58c34);
    } else if k == 38 {
        assert(field_mul(0xa9e387dec6c58c34, 0xa9e387dec6c58c34) == 0x5eae3c75b470a9fd);
    } else if k == 39 {
        assert(field_mul(0x5eae3c75b470a9fd, 0x5eae3c75b470a9fd) == 0xcc9002922470305d);
    } else if k == 40 {
        assert(field_mul(0xcc9002922470305d, 0xcc9002922470305d) == 0xc50ac421108ac564);
    } else if k == 41 {
        assert(field_mul(0xc50ac421108ac564, 0xc50ac421108ac564) == 0xe3372be9840bf885);
    } else if k == 42 {
        assert(field_mul(0xe3372be9840bf885, 0xe3372be9840bf885) == 0x5495a82fa4f8d217);
    } else if k == 43 {
        assert(field_mul(0x5495a82fa4f8d217, 0x5495a82fa4f8d217) == 0xb268f85e9acf4b4d);
    } else if k == 44 {
        assert(field_mul(0xb268f85e9acf4b4d, 0xb268f85e9acf4b4d) == 0x3f6c070ab73894af);
    } else if k == 45 {
        assert(field_mul(0x3f6c070ab73894af, 0x3f6c070ab73894af) == 0xb8c128224dca6f31);
    } else if k == 46 {
        assert(field_mul(0xb8c128224dca6f31, 0xb8c128224dca6f31) == 0xf5e147f3c47243f9);
    } else if k == 47 {
        assert(field_mul(0xf5e147f3c47243f9, 0xf5e147f3c47243f9) == 0x23cd79d6d2ec282d);
    } else if k == 48 {
        assert(field_mul(0x23cd79d6d2ec282d, 0x23cd79d6d2ec282d) == 0x4e5f29dcce8d1acf);
    } else if k == 49 {
        assert(field_mul(0x4e5f29dcce8d1acf, 0x4e5f29dcce8d1acf) == 0x8bfd885ff03ed0d2);
    } else if k == 50 {
        assert(field_mul(0x8bfd885ff03ed0d2, 0x8bfd885ff03ed0d2) == 0xbe3318f23e5578f2);
    } else if k == 51 {
        assert(field_mul(0xbe3318f23e5578f2, 0xbe3318f23e5578f2) == 0xdf599324ad0ddb0b);
    } else if k == 52 {
        assert(field_mul(0xdf599324ad0ddb0b, 0xdf599324ad0ddb0b) == 0xba793228c1b0989);
    } else if k == 53 {
        assert(field_mul(0xba793228c1b0989, 0xba793228c1b0989) == 0xb3b4355970b4752);
    } else if k == 54 {
        assert(field_mul(0xb3b4355970b4752, 0xb3b4355970b4752) == 0xefe118167a47efc2);
    } else if k == 55 {
        assert(field_mul(0xefe118167a47efc2, 0xefe118167a47efc2) == 0xbcd7b71893484119);
    } else if k == 56 {
        assert(field_mul(0xbcd7b71893484119, 0xbcd7b71893484119) == 0x75e5a9bdb2c281d9);
    } else if k == 57 {
        assert(field_mul(0x75e5a9bdb2c281d9, 0x75e5a9bdb2c281d9) == 0x6b04ea071921117e);
    } else if k == 58 {
        assert(field_mul(0x6b04ea071921117e, 0x6b04ea071921117e) == 0xcb5c2e5dddc57680);
    } else if k == 59 {
        assert(field_mul(0xcb5c2e5dddc57680, 0xcb5c2e5dddc57680) == 0x3dc10de1bcba7f4c);
    } else if k == 60 {
        assert(field_mul(0x3dc10de1bcba7f4c, 0x3dc10de1bcba7f4c) == 0xe78c148247c6c647);
    } else if k == 61 {
        assert(field_mul(0xe78c148247c6c647, 0xe78c148247c6c647) == 0x96502d2e524bf547);
    } else if k == 62 {
        assert(field_mul(0x96502d2e524bf547, 0x96502d2e524bf547) == 0x6fb99f6738fb276a);
    } else if k == 63 {
        assert(field_mul(0x6fb99f6738fb276a, 0x6fb99f6738fb276a) == 0xecdc484354f6f7d);
    }
}

/// The stored powers are what they stand for.
proof fn lemma_seven_power(k: nat)
    requires
        k <= 63,
    ensures
        seven_power(k) == field_pow(7, pow2(k)),
    decreases k,
{
    if k == 0 {
        lemma2_to64();
        lemma_field_pow_one(7);
    } else {
        lemma_seven_power((k - 1) as nat);
        lemma_seven_squares(k);
        lemma_pow2_unfold(k);
        let e = pow2((k - 1) as nat);
        lemma_field_pow_add(7, e, e);
    }
}

/// The power `p - 1` of seven is one.
proof fn lemma_seven_full()
    ensures
        field_pow(7, 0xffffffff00000000) == 0x1,
{
    lemma2_to64();
    lemma2_to64_rest();
    lemma_seven_power(32);
    lemma_seven_power(33);
    lemma_field_pow_add(7, 0x100000000, 0x200000000);
    assert(field_mul(0xaa5b2509f86bb4d4, 0x420265815f3416fd) == 0x11c37210161a0aa8);
    lemma_seven_power(34);
    lemma_field_pow_add(7, 0x300000000, 0x400000000);
    assert(field_mul(0x11c37210161a0aa8, 0x735a2fcd9a778a82) == 0x3f228a16c54e4a16);
    lemma_seven_power(35);
    lemma_field_pow_add(7, 0x700000000, 0x800000000);
    assert(field_mul(0x3f228a16c54e4a16, 0x3330c100e58d1cf5) == 0x9c7864a42339f298);
    lemma_seven_power(36);
    lemma_field_pow_add(7, 0xf00000000, 0x1000000000);
    assert(field_mul(0x9c7864a42339f298, 0x5aadd62ae39d63b6) == 0x3bbcb9be397fd294);
    lemma_seven_power(37);
    lemma_field_pow_add(7, 0x1f00000000, 0x2000000000);
    assert(field_mul(0x3bbcb9be397fd294, 0xa9e387dec6c58c34) == 0xe38658e727be3526);
    lemma_seven_power(38);
    lemma_field_pow_add(7, 0x3f00000000, 0x4000000000);
    assert(field_mul(0xe38658e727be3526, 0x5eae3c75b470a9fd) == 0x33110ac2153a2abd);
    lemma_seven_power(39);
    lemma_field_pow_add(7, 0x7f00000000, 0x8000000000);
    assert(field_mul(0x33110ac2153a2abd, 0xcc9002922470305d) == 0xf41555f9bcddefbf);
    lemma_seven_power(40);
    lemma_field_pow_add(7, 0xff00000000, 0x10000000000);
    assert(field_mul(0xf41555f9bcddefbf, 0xc50ac421108ac564) == 0xbafdaf299ad5d996);
    lemma_seven_power(41);
    lemma_field_pow_add(7, 0x1ff00000000, 0x20000000000);
    assert(field_mul(0xbafdaf299ad5d996, 0xe3372be9840bf885) == 0x2f855003f35e4188);
    lemma_seven_power(42);
    lemma_field_pow_add(7, 0x3ff00000000, 0x40000000000);
    assert(field_mul(0x2f855003f35e4188, 0x5495a82fa4f8d217) == 0x2c944e74888279f3);
    lemma_seven_power(43);
    lemma_field_pow_add(7, 0x7ff00000000, 0x80000000000);
    assert(field_mul(0x2c944e74888279f3, 0xb268f85e9acf4b4d) == 0x7861fc30e7b747fb);
    lemma_seven_power(44);
    lemma_field_pow_add(7, 0xfff00000000, 0x100000000000);
    assert(field_mul(0x7861fc30e7b747fb, 0x3f6c070ab73894af) == 0x69acbfa74472b3f6);
    lemma_seven_power(45);
    lemma_field_pow_add(7, 0x1fff00000000, 0x200000000000);
    assert(field_mul(0x69acbfa74472b3f6, 0xb8c128224dca6f31) == 0x7da3796aa870df2);
    lemma_seven_power(46);
    lemma_field_pow_add(7, 0x3fff00000000, 0x400000000000);
    assert(field_mul(0x7da3796aa870df2, 0xf5e147f3c47243f9) == 0x166973e1a008e402);
    lemma_seven_power(47);
    lemma_field_pow_add(7, 0x7fff00000000, 0x800000000000);
    assert(field_mul(0x166973e1a008e402, 0x23cd79d6d2ec282d) == 0x75ab0de70cf3ed11);
    lemma_seven_power(48);
    lemma_field_pow_add(7, 0xffff00000000, 0x1000000000000);
    assert(field_mul(0x75ab0de70cf3ed11, 0x4e5f29dcce8d1acf) == 0xe52928f7e9ccf9b0);
    lemma_seven_power(49);
    lemma_field_pow_add(7, 0x1ffff00000000, 0x2000000000000);
    assert(field_mul(0xe52928f7e9ccf9b0, 0x8bfd885ff03ed0d2) == 0x96fb1004784670b9);
    lemma_seven_power(50);
    lemma_field_pow_add(7, 0x3ffff00000000, 0x4000000000000);
    assert(field_mul(0x96fb1004784670b9, 0xbe3318f23e5578f2) == 0xc93825ef98ecca81);
    lemma_seven_power(51);
    lemma_field_pow_add(7, 0x7ffff00000000, 0x8000000000000);
    assert(field_mul(0xc93825ef98ecca81, 0xdf599324ad0ddb0b) == 0xbd041e02f1318e70);
    lemma_seven_power(52);
    lemma_field_pow_add(7, 0xfffff00000000, 0x10000000000000);
    assert(field_mul(0xbd041e02f1318e70, 0xba793228c1b0989) == 0xde6a4b457b39e61b);
    lemma_seven_power(53);
    lemma_field_pow_add(7, 0x1fffff00000000, 0x20000000000000);
    assert(field_mul(0xde6a4b457b39e61b, 0xb3b4355970b4752) == 0xb6cadb16ca3c93f0);
    lemma_seven_power(54);
    lemma_field_pow_add(7, 0x3fffff00000000, 0x40000000000000);
    assert(field_mul(0xb6cadb16ca3c93f0, 0xefe118167a47efc2) == 0x9419c823a52dc1b5);
    lemma_seven_power(55);
    lemma_field_pow_add(7, 0x7fffff00000000, 0x80000000000000);
    assert(field_mul(0x9419c823a52dc1b5, 0xbcd7b71893484119) == 0x79e90c6bd360f830);
    lemma_seven_power(56);
    lemma_field_pow_add(7, 0xffffff00000000, 0x100000000000000);
    assert(field_mul(0x79e90c6bd360f830, 0x75e5a9bdb2c281d9) == 0xc14dd0ccb30c4350);
    lemma_seven_power(57);
    lemma_field_pow_add(7, 0x1ffffff00000000, 0x200000000000000);
    assert(field_mul(0xc14dd0ccb30c4350, 0x6b04ea071921117e) == 0x1e24ea31ce03e5f6);
    lemma_seven_power(58);
    lemma_field_pow_add(7, 0x3ffffff00000000, 0x400000000000000);
    assert(field_mul(0x1e24ea31ce03e5f6, 0xcb5c2e5dddc57680) == 0xe697f925b26ff82b);
    lemma_seven_power(59);
    lemma_field_pow_add(7, 0x7ffffff00000000, 0x800000000000000);
    assert(field_mul(0xe697f925b26ff82b, 0x3dc10de1bcba7f4c) == 0x47bc87e552d03588);
    lemma_seven_power(60);
    lemma_field_pow_add(7, 0xfffffff00000000, 0x1000000000000000);
    assert(field_mul(0x47bc87e552d03588, 0xe78c148247c6c647) == 0x379fbdc163d89516);
    lemma_seven_power(61);
    lemma_field_pow_add(7, 0x1fffffff00000000, 0x2000000000000000);
    assert(field_mul(0x379fbdc163d89516, 0x96502d2e524bf547) == 0x176bdb8fcea783f8);
    lemma_seven_power(62);
    lemma_field_pow_add(7, 0x3fffffff00000000, 0x4000000000000000);
    assert(field_mul(0x176bdb8fcea783f8, 0x6fb99f6738fb276a) == 0x676669cb3be57916);
    lemma_seven_power(63);
    lemma_field_pow_add(7, 0x7fffffff00000000, 0x8000000000000000);
    assert(field_mul(0x676669cb3be57916, 0xecdc484354f6f7d) == 0x1);
}

/// The power `(p - 1) / 2` of seven.
proof fn lemma_seven_half()
    ensures
        field_pow(7, 0x7fffffff80000000) == 0xffffffff00000000,
{
    lemma2_to64();
    lemma2_to64_rest();
    lemma_seven_power(31);
    lemma_seven_power(32);
    lemma_field_pow_add(7, 0x80000000, 0x100000000);
    assert(field_mul(0xf1323b7acab09084, 0xaa5b2509f86bb4d4) == 0xe2c7cbf74fd4fabc);
    lemma_seven_power(33);
    lemma_field_pow_add(7, 0x180000000, 0x200000000);
    assert(field_mul(0xe2c7cbf74fd4fabc, 0x420265815f3416fd) == 0xf78ec55fe1be25ac);
    lemma_seven_power(34);
    lemma_field_pow_add(7, 0x380000000, 0x400000000);
    assert(field_mul(0xf78ec55fe1be25ac, 0x735a2fcd9a778a82) == 0xc9f8e7322f37943a);
    lemma_seven_power(35);
    lemma_field_pow_add(7, 0x780000000, 0x800000000);
    assert(field_mul(0xc9f8e7322f37943a, 0x3330c100e58d1cf5) == 0xb337f1b0edbd6837);
    lemma_seven_power(36);
    lemma_field_pow_add(7, 0xf80000000, 0x1000000000);
    assert(field_mul(0xb337f1b0edbd6837, 0x5aadd62ae39d63b6) == 0x949fab23607f6692);
    lemma_seven_power(37);
    lemma_field_pow_add(7, 0x1f80000000, 0x2000000000);
    assert(field_mul(0x949fab23607f6692, 0xa9e387dec6c58c34) == 0x6818c2d019824257);
    lemma_seven_power(38);
    lemma_field_pow_add(7, 0x3f80000000, 0x4000000000);
    assert(field_mul(0x6818c2d019824257, 0x5eae3c75b470a9fd) == 0x7c6d90cec1eedb1f);
    lemma_seven_power(39);
    lemma_field_pow_add(7, 0x7f80000000, 0x8000000000);
    assert(field_mul(0x7c6d90cec1eedb1f, 0xcc9002922470305d) == 0xb43994aaf8d28bc9);
    lemma_seven_power(40);
    lemma_field_pow_add(7, 0xff80000000, 0x10000000000);
    assert(field_mul(0xb43994aaf8d28bc9, 0xc50ac421108ac564) == 0xafacf108da664a28);
    lemma_seven_power(41);
    lemma_field_pow_add(7, 0x1ff80000000, 0x20000000000);
    assert(field_mul(0xafacf108da664a28, 0xe3372be9840bf885) == 0x48f04f0d4b63008);
    lemma_seven_power(42);
    lemma_field_pow_add(7, 0x3ff80000000, 0x40000000000);
    assert(field_mul(0x48f04f0d4b63008, 0x5495a82fa4f8d217) == 0x98816feb9b9bb1cd);
    lemma_seven_power(43);
    lemma_field_pow_add(7, 0x7ff80000000, 0x80000000000);
    assert(field_mul(0x98816feb9b9bb1cd, 0xb268f85e9acf4b4d) == 0xcc9f388f0d4fd651);
    lemma_seven_power(44);
    lemma_field_pow_add(7, 0xfff80000000, 0x100000000000);
    assert(field_mul(0xcc9f388f0d4fd651, 0x3f6c070ab73894af) == 0x98575ccadba9602d);
    lemma_seven_power(45);
    lemma_field_pow_add(7, 0x1fff80000000, 0x200000000000);
    assert(field_mul(0x98575ccadba9602d, 0xb8c128224dca6f31) == 0x96c0e6b7a7791414);
    lemma_seven_power(46);
    lemma_field_pow_add(7, 0x3fff80000000, 0x400000000000);
    assert(field_mul(0x96c0e6b7a7791414, 0xf5e147f3c47243f9) == 0x658f57b6adaa80c2);
    lemma_seven_power(47);
    lemma_field_pow_add(7, 0x7fff80000000, 0x800000000000);
    assert(field_mul(0x658f57b6adaa80c2, 0x23cd79d6d2ec282d) == 0x8c7f932fc2bd8306);
    lemma_seven_power(48);
    lemma_field_pow_add(7, 0xffff80000000, 0x1000000000000);
    assert(field_mul(0x8c7f932fc2bd8306, 0x4e5f29dcce8d1acf) == 0x1d06d43c03635ca);
    lemma_seven_power(49);
    lemma_field_pow_add(7, 0x1ffff80000000, 0x2000000000000);
    assert(field_mul(0x1d06d43c03635ca, 0x8bfd885ff03ed0d2) == 0xf51a1ab0f0af8100);
    lemma_seven_power(50);
    lemma_field_pow_add(7, 0x3ffff80000000, 0x4000000000000);
    assert(field_mul(0xf51a1ab0f0af8100, 0xbe3318f23e5578f2) == 0x57f8b80ee48777a5);
    lemma_seven_power(51);
    lemma_field_pow_add(7, 0x7ffff80000000, 0x8000000000000);
    assert(field_mul(0x57f8b80ee48777a5, 0xdf599324ad0ddb0b) == 0x98d519fe9a6b1fce);
    lemma_seven_power(52);
    lemma_field_pow_add(7, 0xfffff80000000, 0x10000000000000);
    assert(field_mul(0x98d519fe9a6b1fce, 0xba793228c1b0989) == 0xc4b9e9d87f9e6528);
    lemma_seven_power(53);
    lemma_field_pow_add(7, 0x1fffff80000000, 0x20000000000000);
    assert(field_mul(0xc4b9e9d87f9e6528, 0xb3b4355970b4752) == 0xcfa6c45b167f1d50);
    lemma_seven_power(54);
    lemma_field_pow_add(7, 0x3fffff80000000, 0x40000000000000);
    assert(field_mul(0xcfa6c45b167f1d50, 0xefe118167a47efc2) == 0xb4a65c73bb51f0df);
    lemma_seven_power(55);
    lemma_field_pow_add(7, 0x7fffff80000000, 0x80000000000000);
    assert(field_mul(0xb4a65c73bb51f0df, 0xbcd7b71893484119) == 0x6f5c8c66793e57b0);
    lemma_seven_power(56);
    lemma_field_pow_add(7, 0xffffff80000000, 0x100000000000000);
    assert(field_mul(0x6f5c8c66793e57b0, 0x75e5a9bdb2c281d9) == 0x445c03e2c544999e);
    lemma_seven_power(57);
    lemma_field_pow_add(7, 0x1ffffff80000000, 0x200000000000000);
    assert(field_mul(0x445c03e2c544999e, 0x6b04ea071921117e) == 0xc993ae94ebfb5e82);
    lemma_seven_power(58);
    lemma_field_pow_add(7, 0x3ffffff80000000, 0x400000000000000);
    assert(field_mul(0xc993ae94ebfb5e82, 0xcb5c2e5dddc57680) == 0xfdf083ece7de3189);
    lemma_seven_power(59);
    lemma_field_pow_add(7, 0x7ffffff80000000, 0x800000000000000);
    assert(field_mul(0xfdf083ece7de3189, 0x3dc10de1bcba7f4c) == 0xa47f2ecb61aa80ee);
    lemma_seven_power(60);
    lemma_field_pow_add(7, 0xfffffff80000000, 0x1000000000000000);
    assert(field_mul(0xa47f2ecb61aa80ee, 0xe78c148247c6c647) == 0x886216ad589625cf);
    lemma_seven_power(61);
    lemma_field_pow_add(7, 0x1fffffff80000000, 0x2000000000000000);
    assert(field_mul(0x886216ad589625cf, 0x96502d2e524bf547) == 0xdbe9819cc1dc4ff0);
    lemma_seven_power(62);
    lemma_field_pow_add(7, 0x3fffffff80000000, 0x4000000000000000);
    assert(field_mul(0xdbe9819cc1dc4ff0, 0x6fb99f6738fb276a) == 0xffffffff00000000);
}

/// The power `(p - 1) / 3` of seven.
proof fn lemma_seven_third()
    ensures
        field_pow(7, 0x5555555500000000) == 0xfffffffe00000001,
{
    lemma2_to64();
    lemma2_to64_rest();
    lemma_seven_power(32);
    lemma_seven_power(34);
    lemma_field_pow_add(7, 0x100000000, 0x400000000);
    assert(field_mul(0xaa5b2509f86bb4d4, 0x735a2fcd9a778a82) == 0x6bfbc41872478fa8);
    lemma_seven_power(36);
    lemma_field_pow_add(7, 0x500000000, 0x1000000000);
    assert(field_mul(0x6bfbc41872478fa8, 0x5aadd62ae39d63b6) == 0x72720a272d46a246);
    lemma_seven_power(38);
    lemma_field_pow_add(7, 0x1500000000, 0x4000000000);
    assert(field_mul(0x72720a272d46a246, 0x5eae3c75b470a9fd) == 0x41b105bbc9cfbbc7);
    lemma_seven_power(40);
    lemma_field_pow_add(7, 0x5500000000, 0x10000000000);
    assert(field_mul(0x41b105bbc9cfbbc7, 0xc50ac421108ac564) == 0xfed003ca67449250);
    lemma_seven_power(42);
    lemma_field_pow_add(7, 0x15500000000, 0x40000000000);
    assert(field_mul(0xfed003ca67449250, 0x5495a82fa4f8d217) == 0xc9c6c2a5a2ea7f90);
    lemma_seven_power(44);
    lemma_field_pow_add(7, 0x55500000000, 0x100000000000);
    assert(field_mul(0xc9c6c2a5a2ea7f90, 0x3f6c070ab73894af) == 0x9cf64193d3172414);
    lemma_seven_power(46);
    lemma_field_pow_add(7, 0x155500000000, 0x400000000000);
    assert(field_mul(0x9cf64193d3172414, 0xf5e147f3c47243f9) == 0x20281364bc500de);
    lemma_seven_power(48);
    lemma_field_pow_add(7, 0x555500000000, 0x1000000000000);
    assert(field_mul(0x20281364bc500de, 0x4e5f29dcce8d1acf) == 0xfe8c8e4fc356bc27);
    lemma_seven_power(50);
    lemma_field_pow_add(7, 0x1555500000000, 0x4000000000000);
    assert(field_mul(0xfe8c8e4fc356bc27, 0xbe3318f23e5578f2) == 0xe5d4a039e4f4b169);
    lemma_seven_power(52);
    lemma_field_pow_add(7, 0x5555500000000, 0x10000000000000);
    assert(field_mul(0xe5d4a039e4f4b169, 0xba793228c1b0989) == 0x4f3c8cd21a2a1a7e);
    lemma_seven_power(54);
    lemma_field_pow_add(7, 0x15555500000000, 0x40000000000000);
    assert(field_mul(0x4f3c8cd21a2a1a7e, 0xefe118167a47efc2) == 0x6c478021afff48fc);
    lemma_seven_power(56);
    lemma_field_pow_add(7, 0x55555500000000, 0x100000000000000);
    assert(field_mul(0x6c478021afff48fc, 0x75e5a9bdb2c281d9) == 0xb5b4a275b4b81a54);
    lemma_seven_power(58);
    lemma_field_pow_add(7, 0x155555500000000, 0x400000000000000);
    assert(field_mul(0xb5b4a275b4b81a54, 0xcb5c2e5dddc57680) == 0x5a6b57b3a0a804b7);
    lemma_seven_power(60);
    lemma_field_pow_add(7, 0x555555500000000, 0x1000000000000000);
    assert(field_mul(0x5a6b57b3a0a804b7, 0xe78c148247c6c647) == 0x9dc5d18c24167e63);
    lemma_seven_power(62);
    lemma_field_pow_add(7, 0x1555555500000000, 0x4000000000000000);
    assert(field_mul(0x9dc5d18c24167e63, 0x6fb99f6738fb276a) == 0xfffffffe00000001);
}

/// The power `(p - 1) / 5` of seven.
proof fn lemma_seven_fifth()
    ensures
        field_pow(7, 0x3333333300000000) == 0x130e07948a9d41d6,
{
    lemma2_to64();
    lemma2_to64_rest();
    lemma_seven_power(32);
    lemma_seven_power(33);
    lemma_field_pow_add(7, 0x100000000, 0x200000000);
    assert(field_mul(0xaa5b2509f86bb4d4, 0x420265815f3416fd) == 0x11c37210161a0aa8);
    lemma_seven_power(36);
    lemma_field_pow_add(7, 0x300000000, 0x1000000000);
    assert(field_mul(0x11c37210161a0aa8, 0x5aadd62ae39d63b6) == 0x2e159f592b864b04);
    lemma_seven_power(37);
    lemma_field_pow_add(7, 0x1300000000, 0x2000000000);
    assert(field_mul(0x2e159f592b864b04, 0xa9e387dec6c58c34) == 0x2abf65c0506e72fb);
    lemma_seven_power(40);
    lemma_field_pow_add(7, 0x3300000000, 0x10000000000);
    assert(field_mul(0x2abf65c0506e72fb, 0xc50ac421108ac564) == 0x74949ec1ed485adc);
    lemma_seven_power(41);
    lemma_field_pow_add(7, 0x13300000000, 0x20000000000);
    assert(field_mul(0x74949ec1ed485adc, 0xe3372be9840bf885) == 0x7234c9b2ef7521b5);
    lemma_seven_power(44);
    lemma_field_pow_add(7, 0x33300000000, 0x100000000000);
    assert(field_mul(0x7234c9b2ef7521b5, 0x3f6c070ab73894af) == 0x4a994cd9b51fe760);
    lemma_seven_power(45);
    lemma_field_pow_add(7, 0x133300000000, 0x200000000000);
    assert(field_mul(0x4a994cd9b51fe760, 0xb8c128224dca6f31) == 0xb60b27c45efda2d3);
    lemma_seven_power(48);
    lemma_field_pow_add(7, 0x333300000000, 0x1000000000000);
    assert(field_mul(0xb60b27c45efda2d3, 0x4e5f29dcce8d1acf) == 0x9ca6b5636d758bae);
    lemma_seven_power(49);
    lemma_field_pow_add(7, 0x1333300000000, 0x2000000000000);
    assert(field_mul(0x9ca6b5636d758bae, 0x8bfd885ff03ed0d2) == 0x338c6bbf65756fc7);
    lemma_seven_power(52);
    lemma_field_pow_add(7, 0x3333300000000, 0x10000000000000);
    assert(field_mul(0x338c6bbf65756fc7, 0xba793228c1b0989) == 0x9271caeee785ae4);
    lemma_seven_power(53);
    lemma_field_pow_add(7, 0x13333300000000, 0x20000000000000);
    assert(field_mul(0x9271caeee785ae4, 0xb3b4355970b4752) == 0xa69b3f1bab2a317);
    lemma_seven_power(56);
    lemma_field_pow_add(7, 0x33333300000000, 0x100000000000000);
    assert(field_mul(0xa69b3f1bab2a317, 0x75e5a9bdb2c281d9) == 0xa30f1b47e593b240);
    lemma_seven_power(57);
    lemma_field_pow_add(7, 0x133333300000000, 0x200000000000000);
    assert(field_mul(0xa30f1b47e593b240, 0x6b04ea071921117e) == 0x6b56ea33f52e376c);
    lemma_seven_power(60);
    lemma_field_pow_add(7, 0x333333300000000, 0x1000000000000000);
    assert(field_mul(0x6b56ea33f52e376c, 0xe78c148247c6c647) == 0xcd796622cdf2835b);
    lemma_seven_power(61);
    lemma_field_pow_add(7, 0x1333333300000000, 0x2000000000000000);
    assert(field_mul(0xcd796622cdf2835b, 0x96502d2e524bf547) == 0x130e07948a9d41d6);
}

/// The power `(p - 1) / 17` of seven.
proof fn lemma_seven_part_17()
    ensures
        field_pow(7, 0xf0f0f0f00000000) == 0xe23ae4f949f9787a,
{
    lemma2_to64();
    lemma2_to64_rest();
    lemma_seven_power(32);
    lemma_seven_power(33);
    lemma_field_pow_add(7, 0x100000000, 0x200000000);
    assert(field_mul(0xaa5b2509f86bb4d4, 0x420265815f3416fd) == 0x11c37210161a0aa8);
    lemma_seven_power(34);
    lemma_field_pow_add(7, 0x300000000, 0x400000000);
    assert(field_mul(0x11c37210161a0aa8, 0x735a2fcd9a778a82) == 0x3f228a16c54e4a16);
    lemma_seven_power(35);
    lemma_field_pow_add(7, 0x700000000, 0x800000000);
    assert(field_mul(0x3f228a16c54e4a16, 0x3330c100e58d1cf5) == 0x9c7864a42339f298);
    lemma_seven_power(40);
    lemma_field_pow_add(7, 0xf00000000, 0x10000000000);
    assert(field_mul(0x9c7864a42339f298, 0xc50ac421108ac564) == 0x4180d520879e8d70);
    lemma_seven_power(41);
    lemma_field_pow_add(7, 0x10f00000000, 0x20000000000);
    assert(field_mul(0x4180d520879e8d70, 0xe3372be9840bf885) == 0x8ef106d7a1f9f668);
    lemma_seven_power(42);
    lemma_field_pow_add(7, 0x30f00000000, 0x40000000000);
    assert(field_mul(0x8ef106d7a1f9f668, 0x5495a82fa4f8d217) == 0x28906fc03b99667f);
    lemma_seven_power(43);
    lemma_field_pow_add(7, 0x70f00000000, 0x80000000000);
    assert(field_mul(0x28906fc03b99667f, 0xb268f85e9acf4b4d) == 0xed0bef760f3b1b9d);
    lemma_seven_power(48);
    lemma_field_pow_add(7, 0xf0f00000000, 0x1000000000000);
    assert(field_mul(0xed0bef760f3b1b9d, 0x4e5f29dcce8d1acf) == 0x9f0d1009602ee677);
    lemma_seven_power(49);
    lemma_field_pow_add(7, 0x10f0f00000000, 0x2000000000000);
    assert(field_mul(0x9f0d1009602ee677, 0x8bfd885ff03ed0d2) == 0x3ac0816a8f736746);
    lemma_seven_power(50);
    lemma_field_pow_add(7, 0x30f0f00000000, 0x4000000000000);
    assert(field_mul(0x3ac0816a8f736746, 0xbe3318f23e5578f2) == 0x498da5042fb0a35);
    lemma_seven_power(51);
    lemma_field_pow_add(7, 0x70f0f00000000, 0x8000000000000);
    assert(field_mul(0x498da5042fb0a35, 0xdf599324ad0ddb0b) == 0xd07841fcb5fcb92f);
    lemma_seven_power(56);
    lemma_field_pow_add(7, 0xf0f0f00000000, 0x100000000000000);
    assert(field_mul(0xd07841fcb5fcb92f, 0x75e5a9bdb2c281d9) == 0xbf41820edbffd1b7);
    lemma_seven_power(57);
    lemma_field_pow_add(7, 0x10f0f0f00000000, 0x200000000000000);
    assert(field_mul(0xbf41820edbffd1b7, 0x6b04ea071921117e) == 0xbd74f3be6fd7b77c);
    lemma_seven_power(58);
    lemma_field_pow_add(7, 0x30f0f0f00000000, 0x400000000000000);
    assert(field_mul(0xbd74f3be6fd7b77c, 0xcb5c2e5dddc57680) == 0x5a5bfea0ebd1d2f6);
    lemma_seven_power(59);
    lemma_field_pow_add(7, 0x70f0f0f00000000, 0x800000000000000);
    assert(field_mul(0x5a5bfea0ebd1d2f6, 0x3dc10de1bcba7f4c) == 0xe23ae4f949f9787a);
}

/// The power `(p - 1) / 257` of seven.
proof fn lemma_seven_part_257()
    ensures
        field_pow(7, 0xff00ff00000000) == 0xdcf40d2948736a7,
{
    lemma2_to64();
    lemma2_to64_rest();
    lemma_seven_power(32);
    lemma_seven_power(33);
    lemma_field_pow_add(7, 0x100000000, 0x200000000);
    assert(field_mul(0xaa5b2509f86bb4d4, 0x420265815f3416fd) == 0x11c37210161a0aa8);
    lemma_seven_power(34);
    lemma_field_pow_add(7, 0x300000000, 0x400000000);
    assert(field_mul(0x11c37210161a0aa8, 0x735a2fcd9a778a82) == 0x3f228a16c54e4a16);
    lemma_seven_power(35);
    lemma_field_pow_add(7, 0x700000000, 0x800000000);
    assert(field_mul(0x3f228a16c54e4a16, 0x3330c100e58d1cf5) == 0x9c7864a42339f298);
    lemma_seven_power(36);
    lemma_field_pow_add(7, 0xf00000000, 0x1000000000);
    assert(field_mul(0x9c7864a42339f298, 0x5aadd62ae39d63b6) == 0x3bbcb9be397fd294);
    lemma_seven_power(37);
    lemma_field_pow_add(7, 0x1f00000000, 0x2000000000);
    assert(field_mul(0x3bbcb9be397fd294, 0xa9e387dec6c58c34) == 0xe38658e727be3526);
    lemma_seven_power(38);
    lemma_field_pow_add(7, 0x3f00000000, 0x4000000000);
    assert(field_mul(0xe38658e727be3526, 0x5eae3c75b470a9fd) == 0x33110ac2153a2abd);
    lemma_seven_power(39);
    lemma_field_pow_add(7, 0x7f00000000, 0x8000000000);
    assert(field_mul(0x33110ac2153a2abd, 0xcc9002922470305d) == 0xf41555f9bcddefbf);
    lemma_seven_power(48);
    lemma_field_pow_add(7, 0xff00000000, 0x1000000000000);
    assert(field_mul(0xf41555f9bcddefbf, 0x4e5f29dcce8d1acf) == 0xcdc76a2ec404b9a6);
    lemma_seven_power(49);
    lemma_field_pow_add(7, 0x100ff00000000, 0x2000000000000);
    assert(field_mul(0xcdc76a2ec404b9a6, 0x8bfd885ff03ed0d2) == 0xa18f101265371d2a);
    lemma_seven_power(50);
    lemma_field_pow_add(7, 0x300ff00000000, 0x4000000000000);
    assert(field_mul(0xa18f101265371d2a, 0xbe3318f23e5578f2) == 0x8c76da1ec1d0414f);
    lemma_seven_power(51);
    lemma_field_pow_add(7, 0x700ff00000000, 0x8000000000000);
    assert(field_mul(0x8c76da1ec1d0414f, 0xdf599324ad0ddb0b) == 0xecedda77b6d7a9cf);
    lemma_seven_power(52);
    lemma_field_pow_add(7, 0xf00ff00000000, 0x10000000000000);
    assert(field_mul(0xecedda77b6d7a9cf, 0xba793228c1b0989) == 0xab6e29da49c570cc);
    lemma_seven_power(53);
    lemma_field_pow_add(7, 0x1f00ff00000000, 0x20000000000000);
    assert(field_mul(0xab6e29da49c570cc, 0xb3b4355970b4752) == 0x1f0976725c9d3ec0);
    lemma_seven_power(54);
    lemma_field_pow_add(7, 0x3f00ff00000000, 0x40000000000000);
    assert(field_mul(0x1f0976725c9d3ec0, 0xefe118167a47efc2) == 0x4a78e0944b31583f);
    lemma_seven_power(55);
    lemma_field_pow_add(7, 0x7f00ff00000000, 0x80000000000000);
    assert(field_mul(0x4a78e0944b31583f, 0xbcd7b71893484119) == 0xdcf40d2948736a7);
}

/// The power `(p - 1) / 65537` of seven.
proof fn lemma_seven_part_65537()
    ensures
        field_pow(7, 0xffff00000000) == 0x75ab0de70cf3ed11,
{
    lemma2_to64();
    lemma2_to64_rest();
    lemma_seven_power(32);
    lemma_seven_power(33);
    lemma_field_pow_add(7, 0x100000000, 0x200000000);
    assert(field_mul(0xaa5b2509f86bb4d4, 0x420265815f3416fd) == 0x11c37210161a0aa8);
    lemma_seven_power(34);
    lemma_field_pow_add(7, 0x300000000, 0x400000000);
    assert(field_mul(0x11c37210161a0aa8, 0x735a2fcd9a778a82) == 0x3f228a16c54e4a16);
    lemma_seven_power(35);
    lemma_field_pow_add(7, 0x700000000, 0x800000000);
    assert(field_mul(0x3f228a16c54e4a16, 0x3330c100e58d1cf5) == 0x9c7864a42339f298);
    lemma_seven_power(36);
    lemma_field_pow_add(7, 0xf00000000, 0x1000000000);
    assert(field_mul(0x9c7864a42339f298, 0x5aadd62ae39d63b6) == 0x3bbcb9be397fd294);
    lemma_seven_power(37);
    lemma_field_pow_add(7, 0x1f00000000, 0x2000000000);
    assert(field_mul(0x3bbcb9be397fd294, 0xa9e387dec6c58c34) == 0xe38658e727be3526);
    lemma_seven_power(38);
    lemma_field_pow_add(7, 0x3f00000000, 0x4000000000);
    assert(field_mul(0xe38658e727be3526, 0x5eae3c75b470a9fd) == 0x33110ac2153a2abd);
    lemma_seven_power(39);
    lemma_field_pow_add(7, 0x7f00000000, 0x8000000000);
    assert(field_mul(0x33110ac2153a2abd, 0xcc9002922470305d) == 0xf41555f9bcddefbf);
    lemma_seven_power(40);
    lemma_field_pow_add(7, 0xff00000000, 0x10000000000);
    assert(field_mul(0xf41555f9bcddefbf, 0xc50ac421108ac564) == 0xbafdaf299ad5d996);
    lemma_seven_power(41);
    lemma_field_pow_add(7, 0x1ff00000000, 0x20000000000);
    assert(field_mul(0xbafdaf299ad5d996, 0xe3372be9840bf885) == 0x2f855003f35e4188);
    lemma_seven_power(42);
    lemma_field_pow_add(7, 0x3ff00000000, 0x40000000000);
    assert(field_mul(0x2f855003f35e4188, 0x5495a82fa4f8d217) == 0x2c944e74888279f3);
    lemma_seven_power(43);
    lemma_field_pow_add(7, 0x7ff00000000, 0x80000000000);
    assert(field_mul(0x2c944e74888279f3, 0xb268f85e9acf4b4d) == 0x7861fc30e7b747fb);
    lemma_seven_power(44);
    lemma_field_pow_add(7, 0xfff00000000, 0x100000000000);
    assert(field_mul(0x7861fc30e7b747fb, 0x3f6c070ab73894af) == 0x69acbfa74472b3f6);
    lemma_seven_power(45);
    lemma_field_pow_add(7, 0x1fff00000000, 0x200000000000);
    assert(field_mul(0x69acbfa74472b3f6, 0xb8c128224dca6f31) == 0x7da3796aa870df2);
    lemma_seven_power(46);
    lemma_field_pow_add(7, 0x3fff00000000, 0x400000000000);
    assert(field_mul(0x7da3796aa870df2, 0xf5e147f3c47243f9) == 0x166973e1a008e402);
    lemma_seven_power(47);
    lemma_field_pow_add(7, 0x7fff00000000, 0x800000000000);
    assert(field_mul(0x166973e1a008e402, 0x23cd79d6d2ec282d) == 0x75ab0de70cf3ed11);
}

/// If two powers of `g` are one, so is the power with the remainder of
/// the two exponents.
proof fn lemma_power_one_mod(g: int, a: nat, b: nat)
    requires
        b > 0,
        field_pow(g, a) == 1,
        field_pow(g, b) == 1,
    ensures
        field_pow(g, a % b) == 1,
{
    let k = a / b;
    let r = a % b;
    lemma_fundamental_div_mod(a as int, b as int);
    lemma_mod_bound(a as int, b as int);
    assert(k >= 0) by {
        vstd::arithmetic::div_mod::lemma_div_pos_is_pos(a as int, b as int);
    }
    lemma_field_pow_mul(g, b, k);
    lemma_field_pow_of_one(k);
    lemma_field_pow_add(g, b * k, r);
    lemma_field_pow_cong(g, r);
    lemma_field_ops(1, field_pow(g, r));
    assert(1 * field_pow(g, r) == field_pow(g, r));
    lemma_small_mod(field_pow(g, r) as nat, modulus() as nat);
}

/// Whether `d` is a positive common divisor of `a` and `b` whose power of
/// `g` is one.
spec fn common_order(g: int, a: nat, b: nat, d: nat) -> bool {
    d > 0 && field_pow(g, d) == 1 && a % d == 0 && b % d == 0
}

/// A multiple of `d` plus a multiple of `d` is a multiple of `d`.
proof fn lemma_divides_sum(d: int, x: int, k: int, y: int)
    requires
        d > 0,
        x % d == 0,
        y % d == 0,
    ensures
        (x * k + y) % d == 0,
{
    let u = x / d;
    let v = y / d;
    lemma_fundamental_div_mod(x, d);
    lemma_fundamental_div_mod(y, d);
    assert(x * k + y == (u * k + v) * d) by (nonlinear_arith)
        requires
            x == d * u,
            y == d * v,
    ;
    lemma_fundamental_div_mod_converse(x * k + y, d, u * k + v, 0);
}

/// If two powers of `g` are one, then so is the power of `g` with a common
/// divisor of the two exponents.
proof fn lemma_power_one_gcd(g: int, a: nat, b: nat)
    requires
        a > 0,
        field_pow(g, a) == 1,
        field_pow(g, b) == 1,
    ensures
        exists|d: nat| common_order(g, a, b, d),
    decreases b,
{
    if b == 0 {
        vstd::arithmetic::div_mod::lemma_mod_self_0(a as int);
        assert(common_order(g, a, b, a));
    } else {
        let r = a % b;
        lemma_mod_bound(a as int, b as int);
        lemma_power_one_mod(g, a, b);
        lemma_power_one_gcd(g, b, r);
        let d = choose|d: nat| common_order(g, b, r, d);
        lemma_fundamental_div_mod(a as int, b as int);
        lemma_divides_sum(d as int, b as int, a as int / b as int, r as int);
        assert(common_order(g, a, b, d));
    }
}

/// An odd number that divides `2^k * x` divides `x`.
proof fn lemma_cancel_twos(m: int, x: int, k: nat)
    requires
        m > 0,
        m % 2 != 0,
        (pow2(k) * x) % m == 0,
    ensures
        x % m == 0,
    decreases k,
{
    if k == 0 {
        lemma2_to64();
        assert(1 * x == x);
    } else {
        lemma_pow2_unfold(k);
        let h = pow2((k - 1) as nat) as int;
        assert(pow2(k) * x == 2 * (h * x)) by (nonlinear_arith)
            requires
                pow2(k) == 2 * h,
        ;
        lemma_prime_2();
        lemma_cancel_prime(2, m, h * x);
        lemma_cancel_twos(m, x, (k - 1) as nat);
    }
}

/// A divisor of `p - 1` other than one is a multiple of one of the primes
/// 2, 3, 5, 17, 257 and 65537.
proof fn lemma_divisor_has_prime(m: int)
    requires
        m > 1,
        (modulus() - 1) % m == 0,
    ensures
        m % 2 == 0 || m % 3 == 0 || m % 5 == 0 || m % 17 == 0 || m % 257 == 0 || m % 65537 == 0,
{
    if !(m % 2 == 0 || m % 3 == 0 || m % 5 == 0 || m % 17 == 0 || m % 257 == 0 || m % 65537 == 0) {
        lemma2_to64();
        assert(modulus() - 1 == pow2(32) * 4294967295);
        lemma_cancel_twos(m, 4294967295, 32);
        lemma_prime_3();
        assert(4294967295int == 3 * 1431655765);
        lemma_cancel_prime(3, m, 1431655765);
        lemma_prime_5();
        assert(1431655765int == 5 * 286331153);
        lemma_cancel_prime(5, m, 286331153);
        lemma_prime_17();
        assert(286331153int == 17 * 16843009);
        lemma_cancel_prime(17, m, 16843009);
        lemma_prime_257();
        assert(16843009int == 257 * 65537);
        lemma_cancel_prime(257, m, 65537);
        lemma_prime_65537();
        assert(65537int == 65537 * 1);
        lemma_cancel_prime(65537, m, 1);
        // m divides one, so it is one
        lemma_small_mod(1, m as nat);
    }
}

/// The power of seven with a multiple of an exponent whose power is one is
/// one.
proof fn lemma_seven_multiple(d: nat, t: nat)
    requires
        field_pow(7, d) == 1,
    ensures
        field_pow(7, d * t) == 1,
{
    lemma_field_pow_mul(7, d, t);
    lemma_field_pow_of_one(t);
}

/// Seven has order `p - 1`: no smaller positive power of it is one.
pub proof fn lemma_seven_order(d: nat)
    requires
        0 < d < modulus() - 1,
    ensures
        field_pow(7, d) != 1,
{
    let n = (modulus() - 1) as nat;
    if field_pow(7, d) == 1 {
        lemma_seven_full();
        lemma_power_one_gcd(7, d, n);
        let e = choose|e: nat| common_order(7, d, n, e);
        // e divides d, so it is below p - 1; the quotient has a prime factor
        assert(e <= d) by {
            if e > d {
                lemma_small_mod(d, e);
            }
        }
        let m = n as int / e as int;
        lemma_fundamental_div_mod(n as int, e as int);
        assert(n == e * m);
        assert(m > 1) by (nonlinear_arith)
            requires
                n == e * m,
                0 < e < n,
        ;
        assert(n as int % m == 0) by {
            lemma_fundamental_div_mod_converse(n as int, m, e as int, 0);
            assert(m * e == e * m) by (nonlinear_arith);
        }
        lemma_divisor_has_prime(m);
        if m % 2 == 0 {
            lemma_prime_power_is_one(e, m, 2);
            lemma_seven_half();
        } else if m % 3 == 0 {
            lemma_prime_power_is_one(e, m, 3);
            lemma_seven_third();
        } else if m % 5 == 0 {
            lemma_prime_power_is_one(e, m, 5);
            lemma_seven_fifth();
        } else if m % 17 == 0 {
            lemma_prime_power_is_one(e, m, 17);
            lemma_seven_part_17();
        } else if m % 257 == 0 {
            lemma_prime_power_is_one(e, m, 257);
            lemma_seven_part_257();
        } else {
            lemma_prime_power_is_one(e, m, 65537);
            lemma_seven_part_65537();
        }
    }
}

/// If the power `e` of seven is one and `e * m` is `p - 1`, then for a
/// divisor `q` of `m` the power `(p - 1) / q` of seven is one.
proof fn lemma_prime_power_is_one(e: nat, m: int, q: int)
    requires
        field_pow(7, e) == 1,
        e * m == modulus() - 1,
        q > 1,
        m > 0,
        m % q == 0,
    ensures
        (modulus() - 1) % q == 0,
        field_pow(7, ((modulus() - 1) / q) as nat) == 1,
{
    let t = m / q;
    lemma_fundamental_div_mod(m, q);
    assert(t > 0) by (nonlinear_arith)
        requires
            m == q * t,
            m > 0,
            q > 1,
    ;
    assert(modulus() - 1 == q * (e * t)) by (nonlinear_arith)
        requires
            e * m == modulus() - 1,
            m == q * t,
    ;
    assert(e * t >= 0) by (nonlinear_arith)
        requires
            e >= 0,
            t > 0,
    ;
    lemma_fundamental_div_mod_converse(modulus() - 1, q, e * t, 0);
    lemma_seven_multiple(e, t as nat);
}

/// The power `i` of seven, as a function of `i`.
spec fn seven_to() -> spec_fn(int) -> int {
    |i: int| field_pow(7, i as nat)
}

/// The powers of seven with exponents below `p - 1` are not zero, and a
/// smaller exponent gives another power than a larger one.
proof fn lemma_seven_powers_ordered(i: int, j: int)
    requires
        0 <= i <= j < modulus() - 1,
    ensures
        i != j ==> field_pow(7, i as nat) != field_pow(7, j as nat),
        1 <= field_pow(7, i as nat) < modulus(),
{
    let n = (modulus() - 1) as nat;
    let u = field_pow(7, i as nat);
    let v = field_pow(7, (n - i) as nat);
    lemma_seven_full();
    lemma_field_pow_cong(7, i as nat);
    lemma_field_pow_add(7, (n - i) as nat, i as nat);
    assert(field_mul(v, u) == 1);
    if u == 0 {
        assert(v * 0 == 0);
        lemma_small_mod(0, modulus() as nat);
    }
    if i < j && u == field_pow(7, j as nat) {
        let w = field_pow(7, (j - i) as nat);
        lemma_field_pow_add(7, i as nat, (j - i) as nat);
        assert(u == field_mul(u, w));
        // v * u = 1 and v * (u * w) = (v * u) * w = w
        crate::field_lemmas::lemma_field_mul_laws(v, u, w);
        lemma_field_pow_cong(7, (j - i) as nat);
        lemma_field_ops(1, w);
        assert(1 * w == w);
        lemma_small_mod(w as nat, modulus() as nat);
        assert(w == 1);
        lemma_seven_order((j - i) as nat);
    }
}

/// Two different exponents below `p - 1` give different powers of seven,
/// and none of these powers is zero.
proof fn lemma_seven_powers_differ(i: int, j: int)
    requires
        0 <= i < modulus() - 1,
        0 <= j < modulus() - 1,
    ensures
        i != j ==> field_pow(7, i as nat) != field_pow(7, j as nat),
        1 <= field_pow(7, i as nat) < modulus(),
{
    if i <= j {
        lemma_seven_powers_ordered(i, j);
    } else {
        lemma_seven_powers_ordered(j, i);
        lemma_seven_powers_ordered(i, i);
    }
}

/// Every nonzero residue is a power of seven.
pub proof fn lemma_seven_generates(a: int)
    requires
        1 <= a < modulus(),
    ensures
        exists|i: int| 0 <= i < modulus() - 1 && #[trigger] field_pow(7, i as nat) == a,
{
    let n = modulus() - 1;
    let f = seven_to();
    let x = set_int_range(0, n);
    let y = x.map(f);
    let z = set_int_range(1, modulus());
    lemma_int_range(0, n);
    lemma_int_range(1, modulus());
    assert(injective_on(f, x)) by {
        assert forall|i: int, j: int|
            x.contains(i) && x.contains(j) && #[trigger] f(i) == #[trigger] f(j) implies i
            == j by {
            lemma_seven_powers_differ(i, j);
        }
    }
    lemma_map_size(x, y, f);
    assert(y.subset_of(z)) by {
        assert forall|b: int| y.contains(b) implies z.contains(b) by {
            let i = choose|i: int| x.contains(i) && b == f(i);
            lemma_seven_powers_differ(i, i);
        }
    }
    lemma_subset_equality(y, z);
    assert(z.contains(a));
    assert(y.contains(a));
    let i = choose|i: int| x.contains(i) && a == f(i);
    assert(field_pow(7, i as nat) == a);
}

/// Fermat's little theorem: the power `p - 1` of an element that is not
/// zero is one.
pub proof fn lemma_fermat(a: int)
    requires
        a % modulus() != 0,
    ensures
        field_pow(a, (modulus() - 1) as nat) == 1,
{
    let n = (modulus() - 1) as nat;
    let r = a % modulus();
    lemma_cong_mod(a);
    lemma_seven_generates(r);
    let i = choose|i: int| 0 <= i < modulus() - 1 && #[trigger] field_pow(7, i as nat) == r;
    lemma_field_pow_mul(7, i as nat, n);
    lemma_field_pow_mul(7, n, i as nat);
    assert(i * n == n * i) by (nonlinear_arith);
    lemma_seven_full();
    lemma_field_pow_of_one(i as nat);
    lemma_field_pow_base(a, r, n);
}

/// Every element that is not zero has an inverse, and Fermat's exponent
/// `p - 2` gives it.
pub proof fn lemma_field_inverse(a: int)
    requires
        a % modulus() != 0,
    ensures
        field_mul(a, field_inv(a)) == 1,
        field_mul(field_inv(a), a) == 1,
        field_inv(a) % modulus() != 0,
{
    lemma_fermat(a);
    lemma_field_pow_succ(a, (modulus() - 2) as nat);
    crate::field_lemmas::lemma_field_mul_laws(a, field_inv(a), 0);
    if field_inv(a) % modulus() == 0 {
        lemma_field_pow_cong(a, (modulus() - 2) as nat);
        lemma_small_mod(field_inv(a) as nat, modulus() as nat);
        assert(a * 0 == 0);
        lemma_small_mod(0, modulus() as nat);
    }
}

/// The field has no zero divisors: a product is zero only if a factor is.
pub proof fn lemma_no_zero_divisors(a: int, b: int)
    requires
        field_mul(a, b) == 0,
    ensures
        a % modulus() == 0 || b % modulus() == 0,
{
    if a % modulus() != 0 {
        lemma_field_inverse(a);
        let k = field_inv(a);
        // b = (k * a) * b = k * (a * b) = k * 0 = 0
        crate::field_lemmas::lemma_field_mul_laws(k, a, b);
        lemma_field_ops(1, b);
        assert(1 * b == b);
        lemma_field_ops(k, 0);
        assert(k * 0 == 0);
        lemma_small_mod(0, modulus() as nat);
    }
}

} // verus!
