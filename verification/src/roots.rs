//! Roots of unity of power-of-two order.
//!
//! The multiplicative group of the field has a cyclic subgroup of order
//! `2^32`. A fixed generator of it gives, by repeated squaring, one root
//! for each order `2^k` with `k <= 32`.

use crate::field::{field_mul, field_pow, modulus, reduced, Belt, FieldError};
use crate::field_lemmas::{
    lemma_field_pow_add, lemma_field_pow_mul, lemma_field_pow_one, lemma_field_pow_square_base,
    lemma_field_pow_succ, lemma_field_pow_zero,
};
use vstd::arithmetic::div_mod::lemma_small_mod;
use vstd::arithmetic::mul::lemma_mul_is_commutative;
use vstd::arithmetic::power::lemma_pow0;
use vstd::arithmetic::power2::{
    lemma_pow2_pos, lemma_pow2_strictly_increases, lemma_pow2_unfold, pow2,
};
use vstd::prelude::*;

verus! {

/// The largest exponent `k` for which a root of order `2^k` exists here.
pub const MAX_ORDER_LOG: u32 = 32;

/// The generator of the subgroup of order `2^32`.
pub open spec fn generator() -> int {
    0x185629dcda58878c
}

/// Whether `n` is a power of two.
pub open spec fn is_power_of_two(n: int) -> bool {
    exists|k: nat| n == pow2(k)
}

/// Whether a root of the given order is available: the order is `2^k` for
/// some `k <= 32`.
pub open spec fn supported_order(order: int) -> bool {
    exists|k: nat| k <= 32 && order == pow2(k)
}

/// The root of order `2^k`: the generator raised to `2^(32-k)`.
pub open spec fn root_of_unity(k: nat) -> int {
    field_pow(generator(), pow2((32 - k) as nat))
}

/// The stored roots, by the logarithm of their order.
pub closed spec fn root_table(k: nat) -> int {
    if k == 0 {
        0x0000000000000001
    } else if k == 1 {
        0xffffffff00000000
    } else if k == 2 {
        0x0001000000000000
    } else if k == 3 {
        0xfffffffeff000001
    } else if k == 4 {
        0xefffffff00000001
    } else if k == 5 {
        0x00003fffffffc000
    } else if k == 6 {
        0x0000008000000000
    } else if k == 7 {
        0xf80007ff08000001
    } else if k == 8 {
        0xbf79143ce60ca966
    } else if k == 9 {
        0x1905d02a5c411f4e
    } else if k == 10 {
        0x9d8f2ad78bfed972
    } else if k == 11 {
        0x0653b4801da1c8cf
    } else if k == 12 {
        0xf2c35199959dfcb6
    } else if k == 13 {
        0x1544ef2335d17997
    } else if k == 14 {
        0xe0ee099310bba1e2
    } else if k == 15 {
        0xf6b2cffe2306baac
    } else if k == 16 {
        0x54df9630bf79450e
    } else if k == 17 {
        0xabd0a6e8aa3d8a0e
    } else if k == 18 {
        0x81281a7b05f9beac
    } else if k == 19 {
        0xfbd41c6b8caa3302
    } else if k == 20 {
        0x30ba2ecd5e93e76d
    } else if k == 21 {
        0xf502aef532322654
    } else if k == 22 {
        0x4b2a18ade67246b5
    } else if k == 23 {
        0xea9d5a1336fbc98b
    } else if k == 24 {
        0x86cdcc31c307e171
    } else if k == 25 {
        0x4bbaf5976ecfefd8
    } else if k == 26 {
        0xed41d05b78d6e286
    } else if k == 27 {
        0x10d78dd8915a171d
    } else if k == 28 {
        0x59049500004a4485
    } else if k == 29 {
        0xdfa8c93ba46d2666
    } else if k == 30 {
        0x7e9bd009b86a0845
    } else if k == 31 {
        0x400a7f755588e659
    } else {
        0x185629dcda58878c
    }
}

/// Each stored root is the square of the next one.
proof fn lemma_table_squares(k: nat)
    requires
        1 <= k <= 32,
    ensures
        field_mul(root_table(k), root_table(k)) == root_table((k - 1) as nat),
{
    if k == 1 {
        assert(field_mul(0xffffffff00000000, 0xffffffff00000000) == 0x0000000000000001);
    } else if k == 2 {
        assert(field_mul(0x0001000000000000, 0x0001000000000000) == 0xffffffff00000000);
    } else if k == 3 {
        assert(field_mul(0xfffffffeff000001, 0xfffffffeff000001) == 0x0001000000000000);
    } else if k == 4 {
        assert(field_mul(0xefffffff00000001, 0xefffffff00000001) == 0xfffffffeff000001);
    } else if k == 5 {
        assert(field_mul(0x00003fffffffc000, 0x00003fffffffc000) == 0xefffffff00000001);
    } else if k == 6 {
        assert(field_mul(0x0000008000000000, 0x0000008000000000) == 0x00003fffffffc000);
    } else if k == 7 {
        assert(field_mul(0xf80007ff08000001, 0xf80007ff08000001) == 0x0000008000000000);
    } else if k == 8 {
        assert(field_mul(0xbf79143ce60ca966, 0xbf79143ce60ca966) == 0xf80007ff08000001);
    } else if k == 9 {
        assert(field_mul(0x1905d02a5c411f4e, 0x1905d02a5c411f4e) == 0xbf79143ce60ca966);
    } else if k == 10 {
        assert(field_mul(0x9d8f2ad78bfed972, 0x9d8f2ad78bfed972) == 0x1905d02a5c411f4e);
    } else if k == 11 {
        assert(field_mul(0x0653b4801da1c8cf, 0x0653b4801da1c8cf) == 0x9d8f2ad78bfed972);
    } else if k == 12 {
        assert(field_mul(0xf2c35199959dfcb6, 0xf2c35199959dfcb6) == 0x0653b4801da1c8cf);
    } else if k == 13 {
        assert(field_mul(0x1544ef2335d17997, 0x1544ef2335d17997) == 0xf2c35199959dfcb6);
    } else if k == 14 {
        assert(field_mul(0xe0ee099310bba1e2, 0xe0ee099310bba1e2) == 0x1544ef2335d17997);
    } else if k == 15 {
        assert(field_mul(0xf6b2cffe2306baac, 0xf6b2cffe2306baac) == 0xe0ee099310bba1e2);
    } else if k == 16 {
        assert(field_mul(0x54df9630bf79450e, 0x54df9630bf79450e) == 0xf6b2cffe2306baac);
    } else if k == 17 {
        assert(field_mul(0xabd0a6e8aa3d8a0e, 0xabd0a6e8aa3d8a0e) == 0x54df9630bf79450e);
    } else if k == 18 {
        assert(field_mul(0x81281a7b05f9beac, 0x81281a7b05f9beac) == 0xabd0a6e8aa3d8a0e);
    } else if k == 19 {
        assert(field_mul(0xfbd41c6b8caa3302, 0xfbd41c6b8caa3302) == 0x81281a7b05f9beac);
    } else if k == 20 {
        assert(field_mul(0x30ba2ecd5e93e76d, 0x30ba2ecd5e93e76d) == 0xfbd41c6b8caa3302);
    } else if k == 21 {
        assert(field_mul(0xf502aef532322654, 0xf502aef532322654) == 0x30ba2ecd5e93e76d);
    } else if k == 22 {
        assert(field_mul(0x4b2a18ade67246b5, 0x4b2a18ade67246b5) == 0xf502aef532322654);
    } else if k == 23 {
        assert(field_mul(0xea9d5a1336fbc98b, 0xea9d5a1336fbc98b) == 0x4b2a18ade67246b5);
    } else if k == 24 {
        assert(field_mul(0x86cdcc31c307e171, 0x86cdcc31c307e171) == 0xea9d5a1336fbc98b);
    } else if k == 25 {
        assert(field_mul(0x4bbaf5976ecfefd8, 0x4bbaf5976ecfefd8) == 0x86cdcc31c307e171);
    } else if k == 26 {
        assert(field_mul(0xed41d05b78d6e286, 0xed41d05b78d6e286) == 0x4bbaf5976ecfefd8);
    } else if k == 27 {
        assert(field_mul(0x10d78dd8915a171d, 0x10d78dd8915a171d) == 0xed41d05b78d6e286);
    } else if k == 28 {
        assert(field_mul(0x59049500004a4485, 0x59049500004a4485) == 0x10d78dd8915a171d);
    } else if k == 29 {
        assert(field_mul(0xdfa8c93ba46d2666, 0xdfa8c93ba46d2666) == 0x59049500004a4485);
    } else if k == 30 {
        assert(field_mul(0x7e9bd009b86a0845, 0x7e9bd009b86a0845) == 0xdfa8c93ba46d2666);
    } else if k == 31 {
        assert(field_mul(0x400a7f755588e659, 0x400a7f755588e659) == 0x7e9bd009b86a0845);
    } else if k == 32 {
        assert(field_mul(0x185629dcda58878c, 0x185629dcda58878c) == 0x400a7f755588e659);
    }
}

/// The stored roots are the powers of the generator that they stand for.
pub proof fn lemma_root_table(k: nat)
    requires
        k <= 32,
    ensures
        root_table(k) == root_of_unity(k),
        reduced(root_table(k)),
    decreases 32 - k,
{
    if k == 32 {
        assert(pow2(0) == 1) by {
            lemma_pow0(2);
        }
        lemma_field_pow_one(generator());
    } else {
        lemma_root_table(k + 1);
        lemma_table_squares(k + 1);
        let e = pow2((32 - (k + 1)) as nat);
        lemma_field_pow_add(generator(), e, e);
        assert(pow2((32 - k) as nat) == e + e) by {
            lemma_pow2_unfold((32 - k) as nat);
        }
    }
}

/// The stored root of order `2^k`.
fn root_of_log(k: u32) -> (r: u64)
    requires
        k <= 32,
    ensures
        r == root_table(k as nat),
{
    match k {
        0 => 0x0000000000000001,
        1 => 0xffffffff00000000,
        2 => 0x0001000000000000,
        3 => 0xfffffffeff000001,
        4 => 0xefffffff00000001,
        5 => 0x00003fffffffc000,
        6 => 0x0000008000000000,
        7 => 0xf80007ff08000001,
        8 => 0xbf79143ce60ca966,
        9 => 0x1905d02a5c411f4e,
        10 => 0x9d8f2ad78bfed972,
        11 => 0x0653b4801da1c8cf,
        12 => 0xf2c35199959dfcb6,
        13 => 0x1544ef2335d17997,
        14 => 0xe0ee099310bba1e2,
        15 => 0xf6b2cffe2306baac,
        16 => 0x54df9630bf79450e,
        17 => 0xabd0a6e8aa3d8a0e,
        18 => 0x81281a7b05f9beac,
        19 => 0xfbd41c6b8caa3302,
        20 => 0x30ba2ecd5e93e76d,
        21 => 0xf502aef532322654,
        22 => 0x4b2a18ade67246b5,
        23 => 0xea9d5a1336fbc98b,
        24 => 0x86cdcc31c307e171,
        25 => 0x4bbaf5976ecfefd8,
        26 => 0xed41d05b78d6e286,
        27 => 0x10d78dd8915a171d,
        28 => 0x59049500004a4485,
        29 => 0xdfa8c93ba46d2666,
        30 => 0x7e9bd009b86a0845,
        31 => 0x400a7f755588e659,
        _ => 0x185629dcda58878c,
    }
}

/// An odd number greater than one times a power of two is no power of two.
proof fn lemma_odd_multiple_not_pow2(m: int, k: nat, j: nat)
    requires
        m > 1,
        m % 2 == 1,
    ensures
        m * pow2(k) != pow2(j),
    decreases k,
{
    lemma_pow2_pos(k);
    lemma_pow2_pos(j);
    if k == 0 {
        assert(pow2(0) == 1) by {
            lemma_pow0(2);
        }
        if j > 0 {
            lemma_pow2_unfold(j);
        }
    } else {
        lemma_pow2_unfold(k);
        let h = pow2((k - 1) as nat);
        assert(m * (2 * h) == 2 * (m * h)) by (nonlinear_arith);
        assert(m * h >= 1) by (nonlinear_arith)
            requires
                m > 1,
                h >= 1,
        ;
        if j == 0 {
            assert(pow2(0) == 1) by {
                lemma_pow0(2);
            }
        } else {
            lemma_pow2_unfold(j);
            lemma_odd_multiple_not_pow2(m, (k - 1) as nat, (j - 1) as nat);
        }
    }
}

/// The exponent `k` with `n == 2^k`, if there is one.
pub fn exact_log2(n: u64) -> (r: Option<u32>)
    ensures
        match r {
            Some(k) => k < 64 && n == pow2(k as nat),
            None => !is_power_of_two(n as int),
        },
{
    if n == 0 {
        proof {
            assert forall|k: nat| 0 != pow2(k) by {
                lemma_pow2_pos(k);
            }
        }
        return None;
    }
    let mut m: u64 = n;
    let mut k: u32 = 0;
    proof {
        assert(pow2(0) == 1) by {
            lemma_pow0(2);
        }
    }
    while m % 2 == 0
        invariant
            m > 0,
            n == m * pow2(k as nat),
            k < 64,
        decreases m,
    {
        proof {
            let h = pow2(k as nat);
            lemma_pow2_unfold((k + 1) as nat);
            lemma_pow2_pos(k as nat);
            assert(m * h == (m / 2) * (2 * h)) by (nonlinear_arith)
                requires
                    m % 2 == 0,
            ;
            assert((m / 2) * (2 * h) >= 2 * h) by (nonlinear_arith)
                requires
                    m / 2 >= 1,
                    h >= 1,
            ;
            if k + 1 >= 64 {
                vstd::arithmetic::power2::lemma2_to64();
                if k + 1 > 64 {
                    lemma_pow2_strictly_increases(64, (k + 1) as nat);
                }
            }
        }
        m = m / 2;
        k = k + 1;
    }
    if m == 1 {
        Some(k)
    } else {
        proof {
            assert forall|j: nat| n != pow2(j) by {
                lemma_odd_multiple_not_pow2(m as int, k as nat, j);
            }
        }
        None
    }
}

/// The root that `ordered_root` returns for a supported order: the
/// generator raised to `2^32 / order`.
pub open spec fn ordered_root_of(order: int) -> int {
    field_pow(generator(), (0x1_0000_0000int / order) as nat)
}

/// For `k <= 32`, `2^32 / 2^k` is `2^(32-k)`.
pub proof fn lemma_order_quotient(k: nat)
    requires
        k <= 32,
    ensures
        0x1_0000_0000int / (pow2(k) as int) == pow2((32 - k) as nat),
        pow2(k) <= 0x1_0000_0000,
{
    vstd::arithmetic::power2::lemma2_to64();
    let a = pow2(k) as int;
    let b = pow2((32 - k) as nat) as int;
    lemma_pow2_pos(k);
    lemma_pow2_pos((32 - k) as nat);
    vstd::arithmetic::power2::lemma_pow2_adds(k, (32 - k) as nat);
    assert(a * b == 0x1_0000_0000);
    lemma_mul_is_commutative(a, b);
    vstd::arithmetic::div_mod::lemma_fundamental_div_mod_converse(0x1_0000_0000, a, b, 0);
    assert(a <= a * b) by (nonlinear_arith)
        requires
            a >= 1,
            b >= 1,
    ;
}

impl Belt {
    /// A generator of the cyclic subgroup whose order is the stored word.
    ///
    /// Succeeds exactly for the orders `2^k` with `k <= 32`, and so fails
    /// for every order that does not divide `p - 1`. The root that is
    /// returned is primitive: its power with the order is one, and no
    /// smaller positive power of it is.
    pub fn ordered_root(&self) -> (r: Result<Belt, FieldError>)
        ensures
            match r {
                Ok(w) => supported_order(self@) && w@ == ordered_root_of(self@) && reduced(w@)
                    && primitive_root(w@, self@),
                Err(e) => !supported_order(self@) && e == FieldError::OrderedRootError,
            },
            (modulus() - 1) % self@ != 0 ==> r is Err,
    {
        proof {
            if supported_order(self@) {
                lemma_supported_order_divides(self@);
                lemma_ordered_root_primitive(self@);
            }
        }
        match exact_log2(self.0) {
            Some(k) => {
                if k <= MAX_ORDER_LOG {
                    proof {
                        lemma_root_table(k as nat);
                        lemma_order_quotient(k as nat);
                    }
                    Ok(Belt(root_of_log(k)))
                } else {
                    proof {
                        assert forall|j: nat| j <= 32 implies self@ != pow2(j) by {
                            lemma_pow2_strictly_increases(j, k as nat);
                        }
                    }
                    Err(FieldError::OrderedRootError)
                }
            },
            None => Err(FieldError::OrderedRootError),
        }
    }
}

/// A supported order divides `p - 1`.
pub proof fn lemma_supported_order_divides(order: int)
    requires
        supported_order(order),
    ensures
        (modulus() - 1) % order == 0,
{
    let k = choose|k: nat| k <= 32 && order == pow2(k);
    lemma_order_quotient(k);
    let b = pow2((32 - k) as nat) as int;
    lemma_pow2_pos(k);
    lemma_pow2_pos((32 - k) as nat);
    vstd::arithmetic::power2::lemma_pow2_adds(k, (32 - k) as nat);
    vstd::arithmetic::power2::lemma2_to64();
    assert(order * b == 0x1_0000_0000);
    let q = b * 0xffff_ffff;
    assert(q * order == modulus() - 1) by (nonlinear_arith)
        requires
            order * b == 0x1_0000_0000,
            q == b * 0xffff_ffff,
            modulus() == 0xffff_ffff_0000_0001,
    ;
    vstd::arithmetic::div_mod::lemma_fundamental_div_mod_converse(modulus() - 1, order, q, 0);
}

/// Whether `w` is a root of order `2^k` whose power `2^(k-1)` is `-1`.
/// In a field this is what makes a root of that order primitive.
pub open spec fn principal_root(w: int, k: nat) -> bool {
    if k == 0 {
        w % modulus() == 1
    } else {
        field_pow(w, pow2((k - 1) as nat)) == modulus() - 1
    }
}

/// Whether the `n`-th power of `w` is one and no smaller positive power is.
pub open spec fn primitive_root(w: int, n: int) -> bool {
    &&& field_pow(w, n as nat) == 1
    &&& forall|j: nat| 0 < j < n ==> field_pow(w, j) != 1
}

/// The square of `-1` is `1`.
pub proof fn lemma_minus_one_squared()
    ensures
        field_mul(modulus() - 1, modulus() - 1) == 1,
        field_mul(modulus() - 1, 1) == modulus() - 1,
{
    assert(modulus() - 1 == 0xffff_ffff_0000_0000int);
    assert(field_mul(0xffff_ffff_0000_0000, 0xffff_ffff_0000_0000) == 1);
    assert(field_mul(0xffff_ffff_0000_0000, 1) == 0xffff_ffff_0000_0000int);
}

/// Odd powers of `-1` are `-1`, even powers are `1`.
pub proof fn lemma_minus_one_powers(j: nat)
    ensures
        j % 2 == 1 ==> field_pow(modulus() - 1, j) == modulus() - 1,
        j % 2 == 0 ==> field_pow(modulus() - 1, j) == 1,
    decreases j,
{
    let m = modulus() - 1;
    if j == 0 {
        lemma_field_pow_zero(m);
    } else {
        lemma_minus_one_powers((j - 1) as nat);
        lemma_field_pow_succ(m, (j - 1) as nat);
        lemma_minus_one_squared();
    }
}

/// A principal root of order `2^k` is primitive: its `2^k`-th power is one
/// and no smaller positive power is.
pub proof fn lemma_principal_is_primitive(w: int, k: nat)
    requires
        principal_root(w, k),
    ensures
        primitive_root(w, pow2(k) as int),
    decreases k,
{
    let p = modulus();
    if k == 0 {
        assert(pow2(0) == 1) by {
            lemma_pow0(2);
        }
        lemma_field_pow_one(w);
    } else {
        let h = pow2((k - 1) as nat);
        lemma_pow2_unfold(k);
        lemma_pow2_pos((k - 1) as nat);
        assert(field_pow(w, pow2(k)) == 1) by {
            lemma_field_pow_add(w, h, h);
            lemma_minus_one_squared();
        }
        assert forall|j: nat| 0 < j < pow2(k) implies field_pow(w, j) != 1 by {
            if field_pow(w, j) == 1 {
                if j % 2 == 1 {
                    // (w^j)^h = (w^h)^j = (-1)^j = -1
                    lemma_field_pow_mul(w, j, h);
                    lemma_field_pow_mul(w, h, j);
                    lemma_mul_is_commutative(j as int, h as int);
                    vstd::arithmetic::power::lemma1_pow(h);
                    lemma_small_mod(1, p as nat);
                    lemma_minus_one_powers(j);
                } else {
                    let i = j / 2;
                    let v = field_mul(w, w);
                    lemma_field_pow_square_base(w, i);
                    if k == 1 {
                        assert(pow2(0) == 1) by {
                            lemma_pow0(2);
                        }
                    } else {
                        let q = pow2((k - 2) as nat);
                        lemma_pow2_unfold((k - 1) as nat);
                        lemma_field_pow_square_base(w, q);
                        lemma_principal_is_primitive(v, (k - 1) as nat);
                    }
                }
            }
        }
    }
}

/// The root of order `2^k` is principal.
pub proof fn lemma_root_is_principal(k: nat)
    requires
        k <= 32,
    ensures
        principal_root(root_of_unity(k), k),
{
    let g = generator();
    if k == 0 {
        lemma_root_table(0);
        lemma_small_mod(1, modulus() as nat);
    } else {
        let a = pow2((32 - k) as nat);
        let b = pow2((k - 1) as nat);
        lemma_field_pow_mul(g, a, b);
        vstd::arithmetic::power2::lemma_pow2_adds((32 - k) as nat, (k - 1) as nat);
        lemma_root_table(1);
    }
}

/// The root returned for a supported order is primitive: its `order`-th
/// power is one and no smaller positive power is one.
pub proof fn lemma_ordered_root_primitive(order: int)
    requires
        supported_order(order),
    ensures
        primitive_root(ordered_root_of(order), order),
{
    let k = choose|k: nat| k <= 32 && order == pow2(k);
    lemma_order_quotient(k);
    lemma_root_is_principal(k);
    lemma_principal_is_primitive(root_of_unity(k), k);
}

/// A primitive root of order `2^k` is principal: as the field has no zero
/// divisors, the only square roots of one are one and minus one, and the
/// power `2^(k-1)` of a primitive root is not one.
pub proof fn lemma_primitive_is_principal(w: int, k: nat)
    requires
        primitive_root(w, pow2(k) as int),
    ensures
        principal_root(w, k),
{
    let p = modulus();
    if k == 0 {
        assert(pow2(0) == 1) by {
            lemma_pow0(2);
        }
        crate::field_lemmas::lemma_field_pow_one(w);
    } else {
        let h = pow2((k - 1) as nat);
        lemma_pow2_unfold(k);
        lemma_pow2_pos((k - 1) as nat);
        let x = field_pow(w, h);
        crate::field_lemmas::lemma_field_pow_cong(w, h);
        crate::field_lemmas::lemma_field_pow_add(w, h, h);
        assert(field_mul(x, x) == 1);
        assert(x != 1);
        // (x - 1) * (x + 1) = x * x - 1, which is zero in the field
        assert((x - 1) * (x + 1) == x * x - 1) by (nonlinear_arith);
        crate::field_lemmas::lemma_cong_mod(x * x);
        crate::field_lemmas::lemma_cong_sub(x * x, 1, 1, 1);
        lemma_small_mod(0, p as nat);
        assert(field_mul(x - 1, x + 1) == 0);
        crate::units::lemma_no_zero_divisors(x - 1, x + 1);
        if (x - 1) % p == 0 {
            lemma_small_mod((x - 1) as nat, p as nat);
        } else {
            if x + 1 < p {
                lemma_small_mod((x + 1) as nat, p as nat);
            }
        }
    }
}

} // verus!
