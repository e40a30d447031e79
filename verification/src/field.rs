//! Scalar arithmetic modulo the prime `2^64 - 2^32 + 1`.
//!
//! Every operation is total: an operand that is not reduced is read modulo
//! the prime, and every result of an operation is reduced.

use vstd::arithmetic::div_mod::*;
use vstd::arithmetic::mul::*;
use vstd::arithmetic::power::*;
use vstd::prelude::*;

verus! {

/// The field modulus, `2^64 - 2^32 + 1`.
pub const PRIME: u64 = 0xffff_ffff_0000_0001;

/// The modulus as a mathematical integer.
pub open spec fn modulus() -> int {
    0xffff_ffff_0000_0001
}

/// Sum in the field.
pub open spec fn field_add(a: int, b: int) -> int {
    (a + b) % modulus()
}

/// Difference in the field.
pub open spec fn field_sub(a: int, b: int) -> int {
    (a - b) % modulus()
}

/// Additive inverse in the field.
pub open spec fn field_neg(a: int) -> int {
    (-a) % modulus()
}

/// Product in the field.
pub open spec fn field_mul(a: int, b: int) -> int {
    (a * b) % modulus()
}

/// `b` raised to the power `e` in the field.
pub open spec fn field_pow(b: int, e: nat) -> int {
    pow(b, e) % modulus()
}

/// The multiplicative inverse, given by Fermat's exponent `p - 2`. For
/// zero it is zero.
pub open spec fn field_inv(a: int) -> int {
    field_pow(a, (modulus() - 2) as nat)
}

/// Whether `a` is a canonical representative, that is, lies in `[0, p)`.
pub open spec fn reduced(a: int) -> bool {
    0 <= a < modulus()
}

/// Sum of two field elements given as machine words.
pub fn badd(a: u64, b: u64) -> (r: u64)
    ensures
        r == field_add(a as int, b as int),
        reduced(r as int),
{
    let s: u128 = (a as u128 + b as u128) % (PRIME as u128);
    s as u64
}

/// Additive inverse of a field element given as a machine word.
pub fn bneg(a: u64) -> (r: u64)
    ensures
        r == field_neg(a as int),
        reduced(r as int),
{
    let m: u64 = a % PRIME;
    proof {
        lemma_neg_of_reduced(a as int);
    }
    if m == 0 {
        0
    } else {
        PRIME - m
    }
}

/// Difference of two field elements given as machine words.
pub fn bsub(a: u64, b: u64) -> (r: u64)
    ensures
        r == field_sub(a as int, b as int),
        reduced(r as int),
{
    let nb: u64 = bneg(b);
    proof {
        lemma_add_mod_noop_right(a as int, -(b as int), modulus());
    }
    badd(a, nb)
}

/// Product of two field elements given as machine words.
pub fn bmul(a: u64, b: u64) -> (r: u64)
    ensures
        r == field_mul(a as int, b as int),
        reduced(r as int),
{
    proof {
        lemma_mul_upper_bound(a as int, u64::MAX as int, b as int, u64::MAX as int);
        lemma_mul_nonnegative(a as int, b as int);
    }
    let wide: u128 = (a as u128) * (b as u128);
    (wide % (PRIME as u128)) as u64
}

/// `(-a) mod p` is `0` when `a mod p` is `0`, and `p - (a mod p)` otherwise.
pub proof fn lemma_neg_of_reduced(a: int)
    ensures
        a % modulus() == 0 ==> field_neg(a) == 0,
        a % modulus() != 0 ==> field_neg(a) == modulus() - a % modulus(),
{
    let p = modulus();
    let m = a % p;
    lemma_fundamental_div_mod(a, p);
    let q = a / p;
    assert(p * q == q * p) by {
        lemma_mul_is_commutative(p, q);
    }
    if m == 0 {
        lemma_fundamental_div_mod_converse(-a, p, -q, 0);
        assert((-q) * p == -(q * p)) by {
            lemma_mul_unary_negation(q, p);
        }
    } else {
        assert((-q - 1) * p == -(q * p) - p) by {
            lemma_mul_is_distributive_sub_other_way(p, -q, 1);
            lemma_mul_unary_negation(q, p);
        }
        lemma_fundamental_div_mod_converse(-a, p, -q - 1, p - m);
    }
}

/// One step of square-and-multiply keeps `acc * base^exp` unchanged.
proof fn lemma_pow_step(acc: int, base: int, exp: nat)
    requires
        exp > 0,
    ensures
        exp % 2 == 1 ==> field_mul(
            field_mul(acc, base),
            field_pow(field_mul(base, base), exp / 2),
        ) == field_mul(acc, field_pow(base, exp)),
        exp % 2 == 0 ==> field_mul(acc, field_pow(field_mul(base, base), exp / 2)) == field_mul(
            acc,
            field_pow(base, exp),
        ),
{
    let p = modulus();
    let q = exp / 2;
    let sq = field_pow(field_mul(base, base), q);
    assert(pow(base * base, q) == pow(base, 2 * q)) by {
        lemma_pow_distributes(base, base, q);
        lemma_pow_adds(base, q, q);
    }
    assert(sq == field_pow(base, 2 * q)) by {
        lemma_pow_mod_noop(base * base, q, p);
    }
    if exp % 2 == 1 {
        assert(exp == 2 * q + 1);
        assert(pow(base, exp) == pow(base, 2 * q) * base) by {
            lemma_pow_adds(base, 2 * q, 1);
            lemma_pow1(base);
        }
        // (acc * base % p) * sq % p == acc * (base^(2q) * base % p) % p
        let x = pow(base, 2 * q);
        assert(field_mul(field_mul(acc, base), sq) == (acc * base * x) % p) by {
            lemma_mul_mod_noop(acc * base, x, p);
            lemma_mod_twice(acc * base, p);
            lemma_mul_mod_noop(acc * base % p, x % p, p);
            lemma_mod_twice(x, p);
        }
        assert(field_mul(acc, field_pow(base, exp)) == (acc * (x * base)) % p) by {
            lemma_mul_mod_noop_right(acc, x * base, p);
        }
        assert(acc * base * x == acc * (x * base)) by {
            lemma_mul_is_associative(acc, base, x);
            lemma_mul_is_commutative(base, x);
        }
    } else {
        assert(exp == 2 * q);
    }
}

/// `a` raised to the power `e`, by repeated squaring.
pub fn bpow(a: u64, e: u64) -> (r: u64)
    ensures
        r == field_pow(a as int, e as nat),
        reduced(r as int),
{
    let mut base: u64 = a % PRIME;
    let mut exp: u64 = e;
    let mut acc: u64 = 1;
    proof {
        lemma_pow_mod_noop(a as int, e as nat, modulus());
        // acc = 1: field_mul(1, field_pow(base, e)) == field_pow(a, e)
        lemma_mul_basics(field_pow(base as int, e as nat));
        lemma_mod_twice(pow(base as int, e as nat), modulus());
    }
    while exp > 0
        invariant
            field_mul(acc as int, field_pow(base as int, exp as nat)) == field_pow(
                a as int,
                e as nat,
            ),
            reduced(acc as int),
        decreases exp,
    {
        proof {
            lemma_pow_step(acc as int, base as int, exp as nat);
        }
        if exp % 2 == 1 {
            acc = bmul(acc, base);
        }
        base = bmul(base, base);
        exp = exp / 2;
    }
    proof {
        lemma_pow0(base as int);
        lemma_mul_basics(acc as int);
        lemma_small_mod(1, modulus() as nat);
        lemma_small_mod(acc as nat, modulus() as nat);
    }
    acc
}

/// The multiplicative inverse of `a`, computed as `a^(p-2)`. Zero, which
/// has no inverse, is given zero.
pub fn binv(a: u64) -> (r: u64)
    ensures
        r == field_inv(a as int),
        reduced(r as int),
        a as int % modulus() != 0 ==> field_mul(a as int, r as int) == 1,
        a as int % modulus() == 0 ==> r == 0,
{
    proof {
        if a as int % modulus() != 0 {
            crate::units::lemma_field_inverse(a as int);
        } else {
            crate::field_lemmas::lemma_field_pow_base(a as int, 0, (modulus() - 2) as nat);
            vstd::arithmetic::power::lemma0_pow((modulus() - 2) as nat);
            lemma_small_mod(0, modulus() as nat);
        }
    }
    bpow(a, PRIME - 2)
}

/// Failure of a field operation.
#[derive(Clone, Copy, Debug, PartialEq, Eq, Structural)]
pub enum FieldError {
    /// No subgroup of the requested order is available.
    OrderedRootError,
}

/// An element of the field, held as a 64-bit word.
#[derive(Clone, Copy, Debug, PartialEq, Eq, Hash, Structural)]
pub struct Belt(pub u64);

impl View for Belt {
    type V = int;

    open spec fn view(&self) -> int {
        self.0 as int
    }
}

/// The integers held by a sequence of field elements.
pub open spec fn values(s: Seq<Belt>) -> Seq<int> {
    Seq::new(s.len(), |i: int| s[i]@)
}

impl Belt {
    /// The additive identity.
    pub fn zero() -> (r: Belt)
        ensures
            r@ == 0,
    {
        Belt(0)
    }

    /// The multiplicative identity.
    pub fn one() -> (r: Belt)
        ensures
            r@ == 1,
    {
        Belt(1)
    }

    /// The element that `v` stands for, in reduced form.
    pub fn new(v: u64) -> (r: Belt)
        ensures
            r@ == v as int % modulus(),
            reduced(r@),
    {
        Belt(v % PRIME)
    }

    /// Whether the stored word is reduced.
    pub fn is_reduced(&self) -> (b: bool)
        ensures
            b == reduced(self@),
    {
        self.0 < PRIME
    }

    /// Whether the element is zero in the field.
    pub fn is_zero(&self) -> (b: bool)
        ensures
            b == (self@ % modulus() == 0),
    {
        self.0 % PRIME == 0
    }

    /// Field sum.
    pub fn add(self, rhs: Belt) -> (r: Belt)
        ensures
            r@ == field_add(self@, rhs@),
            reduced(r@),
    {
        Belt(badd(self.0, rhs.0))
    }

    /// Field difference.
    pub fn sub(self, rhs: Belt) -> (r: Belt)
        ensures
            r@ == field_sub(self@, rhs@),
            reduced(r@),
    {
        Belt(bsub(self.0, rhs.0))
    }

    /// Field negation.
    pub fn neg(self) -> (r: Belt)
        ensures
            r@ == field_neg(self@),
            reduced(r@),
    {
        Belt(bneg(self.0))
    }

    /// Field product.
    pub fn mul(self, rhs: Belt) -> (r: Belt)
        ensures
            r@ == field_mul(self@, rhs@),
            reduced(r@),
    {
        Belt(bmul(self.0, rhs.0))
    }

    /// Field power.
    pub fn pow(self, e: u64) -> (r: Belt)
        ensures
            r@ == field_pow(self@, e as nat),
            reduced(r@),
    {
        Belt(bpow(self.0, e))
    }

    /// The multiplicative inverse, computed as `self^(p-2)`. Zero, which
    /// has no inverse, is given zero.
    pub fn inv(self) -> (r: Belt)
        ensures
            r@ == field_inv(self@),
            reduced(r@),
            self@ % modulus() != 0 ==> field_mul(self@, r@) == 1,
            self@ % modulus() == 0 ==> r@ == 0,
    {
        Belt(binv(self.0))
    }
}

} // verus!
