//! Laws of the field operations, stated over mathematical integers.
//!
//! Most proofs elsewhere work with congruence modulo the prime: a field
//! value is tied to an ordinary integer expression, and equality of reduced
//! values follows from congruence.

use crate::field::{field_add, field_mul, field_neg, field_pow, field_sub, modulus, reduced};
use vstd::arithmetic::div_mod::*;
use vstd::arithmetic::mul::*;
use vstd::arithmetic::power::*;
use vstd::prelude::*;

verus! {

/// Congruence modulo the prime.
pub open spec fn cong(a: int, b: int) -> bool {
    a % modulus() == b % modulus()
}

/// Two reduced integers that are congruent are equal.
pub proof fn lemma_cong_reduced(a: int, b: int)
    requires
        reduced(a),
        reduced(b),
        cong(a, b),
    ensures
        a == b,
{
    lemma_small_mod(a as nat, modulus() as nat);
    lemma_small_mod(b as nat, modulus() as nat);
}

/// A reduced integer is its own remainder.
pub proof fn lemma_reduced_mod(a: int)
    requires
        reduced(a),
    ensures
        a % modulus() == a,
{
    lemma_small_mod(a as nat, modulus() as nat);
}

/// Every integer is congruent to its remainder, which is reduced.
pub proof fn lemma_cong_mod(a: int)
    ensures
        cong(a % modulus(), a),
        reduced(a % modulus()),
{
    lemma_mod_twice(a, modulus());
    lemma_mod_bound(a, modulus());
}

/// Congruence is preserved by addition.
pub proof fn lemma_cong_add(a: int, b: int, c: int, d: int)
    requires
        cong(a, b),
        cong(c, d),
    ensures
        cong(a + c, b + d),
{
    lemma_add_mod_noop(a, c, modulus());
    lemma_add_mod_noop(b, d, modulus());
}

/// Congruence is preserved by subtraction.
pub proof fn lemma_cong_sub(a: int, b: int, c: int, d: int)
    requires
        cong(a, b),
        cong(c, d),
    ensures
        cong(a - c, b - d),
{
    lemma_sub_mod_noop(a, c, modulus());
    lemma_sub_mod_noop(b, d, modulus());
}

/// Congruence is preserved by multiplication.
pub proof fn lemma_cong_mul(a: int, b: int, c: int, d: int)
    requires
        cong(a, b),
        cong(c, d),
    ensures
        cong(a * c, b * d),
{
    lemma_mul_mod_noop(a, c, modulus());
    lemma_mul_mod_noop(b, d, modulus());
}

/// Congruence is preserved by negation.
pub proof fn lemma_cong_neg(a: int, b: int)
    requires
        cong(a, b),
    ensures
        cong(-a, -b),
{
    lemma_cong_sub(0, 0, a, b);
}

/// Congruence of the base is preserved by integer powers.
pub proof fn lemma_cong_pow(a: int, b: int, e: nat)
    requires
        cong(a, b),
    ensures
        cong(pow(a, e), pow(b, e)),
{
    lemma_pow_mod_noop(a, e, modulus());
    lemma_pow_mod_noop(b, e, modulus());
}

/// The field operations are congruent to the integer operations and give
/// reduced results.
pub proof fn lemma_field_ops(a: int, b: int)
    ensures
        cong(field_add(a, b), a + b),
        cong(field_sub(a, b), a - b),
        cong(field_mul(a, b), a * b),
        cong(field_neg(a), -a),
        reduced(field_add(a, b)),
        reduced(field_sub(a, b)),
        reduced(field_mul(a, b)),
        reduced(field_neg(a)),
{
    lemma_cong_mod(a + b);
    lemma_cong_mod(a - b);
    lemma_cong_mod(a * b);
    lemma_cong_mod(-a);
}

/// A field power is congruent to the integer power and is reduced.
pub proof fn lemma_field_pow_cong(b: int, e: nat)
    ensures
        cong(field_pow(b, e), pow(b, e)),
        reduced(field_pow(b, e)),
{
    lemma_cong_mod(pow(b, e));
}

/// The zeroth power is one.
pub proof fn lemma_field_pow_zero(b: int)
    ensures
        field_pow(b, 0) == 1,
{
    lemma_pow0(b);
    lemma_reduced_mod(1);
}

/// The first power of a reduced base is the base.
pub proof fn lemma_field_pow_one(b: int)
    ensures
        field_pow(b, 1) == b % modulus(),
{
    lemma_pow1(b);
}

/// One more factor: `b^(e+1) = b * b^e`.
pub proof fn lemma_field_pow_succ(b: int, e: nat)
    ensures
        field_pow(b, e + 1) == field_mul(b, field_pow(b, e)),
{
    assert(pow(b, e + 1) == b * pow(b, e)) by {
        reveal(pow);
    }
    lemma_mul_mod_noop_right(b, pow(b, e), modulus());
}

/// Exponents add: `b^(e1+e2) = b^e1 * b^e2`.
pub proof fn lemma_field_pow_add(b: int, e1: nat, e2: nat)
    ensures
        field_pow(b, e1 + e2) == field_mul(field_pow(b, e1), field_pow(b, e2)),
{
    lemma_pow_adds(b, e1, e2);
    lemma_mul_mod_noop(pow(b, e1), pow(b, e2), modulus());
}

/// Exponents multiply: `(b^e1)^e2 = b^(e1*e2)`.
pub proof fn lemma_field_pow_mul(b: int, e1: nat, e2: nat)
    ensures
        field_pow(field_pow(b, e1), e2) == field_pow(b, e1 * e2),
{
    lemma_pow_multiplies(b, e1, e2);
    lemma_pow_mod_noop(pow(b, e1), e2, modulus());
}

/// The power of a product is the product of the powers.
pub proof fn lemma_field_pow_of_product(a: int, b: int, e: nat)
    ensures
        field_pow(field_mul(a, b), e) == field_mul(field_pow(a, e), field_pow(b, e)),
{
    lemma_pow_distributes(a, b, e);
    lemma_pow_mod_noop(a * b, e, modulus());
    lemma_mul_mod_noop(pow(a, e), pow(b, e), modulus());
}

/// A power depends on its base only modulo the prime.
pub proof fn lemma_field_pow_base(a: int, b: int, e: nat)
    requires
        cong(a, b),
    ensures
        field_pow(a, e) == field_pow(b, e),
{
    lemma_cong_pow(a, b, e);
}

/// Squaring the base halves the exponent: `(b*b)^e = b^(2e)`.
pub proof fn lemma_field_pow_square_base(b: int, e: nat)
    ensures
        field_pow(field_mul(b, b), e) == field_pow(b, 2 * e),
{
    lemma_field_pow_of_product(b, b, e);
    lemma_field_pow_add(b, e, e);
}

/// Every power of one is one.
pub proof fn lemma_field_pow_of_one(e: nat)
    ensures
        field_pow(1, e) == 1,
{
    lemma1_pow(e);
    lemma_reduced_mod(1);
}

/// Multiplication in the field is commutative and associative, and one is
/// its unit on reduced values.
pub proof fn lemma_field_mul_laws(a: int, b: int, c: int)
    ensures
        field_mul(a, b) == field_mul(b, a),
        field_mul(field_mul(a, b), c) == field_mul(a, field_mul(b, c)),
        field_mul(1, a) == a % modulus(),
        field_mul(a, 1) == a % modulus(),
{
    lemma_mul_is_commutative(a, b);
    lemma_mul_is_associative(a, b, c);
    lemma_mul_mod_noop_left(a * b, c, modulus());
    lemma_mul_mod_noop_right(a, b * c, modulus());
    lemma_mul_basics(a);
}

} // verus!
