//! The cubic extension of the field: the polynomials of degree below three
//! over the field, multiplied modulo `X^3 - X + 1`.

use crate::field::{field_add, field_inv, field_mul, field_neg, field_sub, modulus, reduced, Belt};
use crate::field_lemmas::{
    cong, lemma_cong_add, lemma_cong_mod, lemma_cong_mul, lemma_cong_neg, lemma_cong_reduced,
    lemma_cong_sub, lemma_field_ops,
};
use vstd::prelude::*;

verus! {

/// An element of the extension: the coefficients of `1`, `X` and `X^2`.
#[derive(Clone, Copy, Debug, PartialEq, Eq)]
pub struct Felt(pub [Belt; 3]);

/// An element of the extension as three integers.
pub struct FeltView {
    pub c0: int,
    pub c1: int,
    pub c2: int,
}

impl View for Felt {
    type V = FeltView;

    open spec fn view(&self) -> FeltView {
        FeltView { c0: self.0@[0]@, c1: self.0@[1]@, c2: self.0@[2]@ }
    }
}

/// The elements held by a sequence.
pub open spec fn felts(s: Seq<Felt>) -> Seq<FeltView> {
    Seq::new(s.len(), |i: int| s[i]@)
}

/// Zero of the extension.
pub open spec fn felt_zero() -> FeltView {
    FeltView { c0: 0, c1: 0, c2: 0 }
}

/// One of the extension.
pub open spec fn felt_one() -> FeltView {
    FeltView { c0: 1, c1: 0, c2: 0 }
}

/// Whether all three coefficients are reduced.
pub open spec fn felt_reduced(a: FeltView) -> bool {
    reduced(a.c0) && reduced(a.c1) && reduced(a.c2)
}

/// Sum in the extension.
pub open spec fn felt_add(a: FeltView, b: FeltView) -> FeltView {
    FeltView {
        c0: field_add(a.c0, b.c0),
        c1: field_add(a.c1, b.c1),
        c2: field_add(a.c2, b.c2),
    }
}

/// Additive inverse in the extension.
pub open spec fn felt_neg(a: FeltView) -> FeltView {
    FeltView { c0: field_neg(a.c0), c1: field_neg(a.c1), c2: field_neg(a.c2) }
}

/// Difference in the extension.
pub open spec fn felt_sub(a: FeltView, b: FeltView) -> FeltView {
    FeltView {
        c0: field_sub(a.c0, b.c0),
        c1: field_sub(a.c1, b.c1),
        c2: field_sub(a.c2, b.c2),
    }
}

/// Product in the extension: the product of the two polynomials with
/// `X^3` replaced by `X - 1` and `X^4` by `X^2 - X`.
pub open spec fn felt_mul(a: FeltView, b: FeltView) -> FeltView {
    let x3 = a.c1 * b.c2 + a.c2 * b.c1;
    let x4 = a.c2 * b.c2;
    FeltView {
        c0: (a.c0 * b.c0 - x3) % modulus(),
        c1: (a.c0 * b.c1 + a.c1 * b.c0 + x3 - x4) % modulus(),
        c2: (a.c0 * b.c2 + a.c1 * b.c1 + a.c2 * b.c0 + x4) % modulus(),
    }
}

/// Every coefficient multiplied by the field element `s`.
pub open spec fn felt_scale(a: FeltView, s: int) -> FeltView {
    FeltView { c0: field_mul(a.c0, s), c1: field_mul(a.c1, s), c2: field_mul(a.c2, s) }
}

/// The coefficients of the element that, multiplied by `a`, gives the
/// norm of `a`.
pub open spec fn felt_adjoint(a: FeltView) -> FeltView {
    let p = modulus();
    FeltView {
        c0: ((a.c0 + a.c2) * (a.c0 + a.c2) - a.c1 * a.c1 + a.c1 * a.c2) % p,
        c1: (-(a.c0 * a.c1 + a.c2 * a.c2)) % p,
        c2: (a.c1 * a.c1 - a.c0 * a.c2 - a.c2 * a.c2) % p,
    }
}

/// The norm of `a`: the field element that `a` times its adjoint is.
pub open spec fn felt_norm(a: FeltView) -> int {
    let d = felt_adjoint(a);
    (a.c0 * d.c0 - a.c2 * d.c1 - a.c1 * d.c2) % modulus()
}

/// The inverse of `a`: its adjoint divided by its norm. Zero where the
/// norm is zero.
pub open spec fn felt_inv(a: FeltView) -> FeltView {
    felt_scale(felt_adjoint(a), field_inv(felt_norm(a)))
}

/// The quotient `a / b`: `a` times the inverse of `b`.
pub open spec fn felt_div(a: FeltView, b: FeltView) -> FeltView {
    felt_mul(a, felt_inv(b))
}

impl Felt {
    /// Zero of the extension.
    pub fn zero() -> (r: Felt)
        ensures
            r@ == felt_zero(),
    {
        Felt([Belt(0), Belt(0), Belt(0)])
    }

    /// One of the extension.
    pub fn one() -> (r: Felt)
        ensures
            r@ == felt_one(),
    {
        Felt([Belt(1), Belt(0), Belt(0)])
    }
}

/// `res = a + b`.
pub fn fadd(a: &Felt, b: &Felt, res: &mut Felt)
    ensures
        final(res)@ == felt_add(a@, b@),
        felt_reduced(final(res)@),
{
    *res = Felt([a.0[0].add(b.0[0]), a.0[1].add(b.0[1]), a.0[2].add(b.0[2])]);
}

/// `res = -a`.
pub fn fneg(a: &Felt, res: &mut Felt)
    ensures
        final(res)@ == felt_neg(a@),
        felt_reduced(final(res)@),
{
    *res = Felt([a.0[0].neg(), a.0[1].neg(), a.0[2].neg()]);
}

/// `res = a - b`.
pub fn fsub(a: &Felt, b: &Felt, res: &mut Felt)
    ensures
        final(res)@ == felt_sub(a@, b@),
        felt_reduced(final(res)@),
{
    *res = Felt([a.0[0].sub(b.0[0]), a.0[1].sub(b.0[1]), a.0[2].sub(b.0[2])]);
}

/// The product of two field elements, with the integer that it is
/// congruent to.
fn mul_cong(x: Belt, y: Belt, Ghost(a): Ghost<int>, Ghost(b): Ghost<int>) -> (r: Belt)
    requires
        cong(x@, a),
        cong(y@, b),
    ensures
        cong(r@, a * b),
        reduced(r@),
{
    proof {
        lemma_field_ops(x@, y@);
        lemma_cong_mul(x@, a, y@, b);
    }
    x.mul(y)
}

/// The sum of two field elements, with the integer that it is congruent
/// to.
fn add_cong(x: Belt, y: Belt, Ghost(a): Ghost<int>, Ghost(b): Ghost<int>) -> (r: Belt)
    requires
        cong(x@, a),
        cong(y@, b),
    ensures
        cong(r@, a + b),
        reduced(r@),
{
    proof {
        lemma_field_ops(x@, y@);
        lemma_cong_add(x@, a, y@, b);
    }
    x.add(y)
}

/// The difference of two field elements, with the integer that it is
/// congruent to.
fn sub_cong(x: Belt, y: Belt, Ghost(a): Ghost<int>, Ghost(b): Ghost<int>) -> (r: Belt)
    requires
        cong(x@, a),
        cong(y@, b),
    ensures
        cong(r@, a - b),
        reduced(r@),
{
    proof {
        lemma_field_ops(x@, y@);
        lemma_cong_sub(x@, a, y@, b);
    }
    x.sub(y)
}

/// A reduced value that is congruent to `e` is the remainder of `e`.
proof fn lemma_is_remainder(v: int, e: int)
    requires
        reduced(v),
        cong(v, e),
    ensures
        v == e % modulus(),
{
    lemma_cong_mod(e);
    lemma_cong_reduced(v, e % modulus());
}

/// `res = a * b`.
pub fn fmul(a: &Felt, b: &Felt, res: &mut Felt)
    ensures
        final(res)@ == felt_mul(a@, b@),
        felt_reduced(final(res)@),
{
    let a0 = a.0[0];
    let a1 = a.0[1];
    let a2 = a.0[2];
    let b0 = b.0[0];
    let b1 = b.0[1];
    let b2 = b.0[2];
    let ghost (x0, x1, x2) = (a0@, a1@, a2@);
    let ghost (y0, y1, y2) = (b0@, b1@, b2@);
    let a1b2 = mul_cong(a1, b2, Ghost(x1), Ghost(y2));
    let a2b1 = mul_cong(a2, b1, Ghost(x2), Ghost(y1));
    let x3 = add_cong(a1b2, a2b1, Ghost(x1 * y2), Ghost(x2 * y1));
    let x4 = mul_cong(a2, b2, Ghost(x2), Ghost(y2));
    let a0b0 = mul_cong(a0, b0, Ghost(x0), Ghost(y0));
    let c0 = sub_cong(a0b0, x3, Ghost(x0 * y0), Ghost(x1 * y2 + x2 * y1));
    let a0b1 = mul_cong(a0, b1, Ghost(x0), Ghost(y1));
    let a1b0 = mul_cong(a1, b0, Ghost(x1), Ghost(y0));
    let s1 = add_cong(a0b1, a1b0, Ghost(x0 * y1), Ghost(x1 * y0));
    let s2 = add_cong(s1, x3, Ghost(x0 * y1 + x1 * y0), Ghost(x1 * y2 + x2 * y1));
    let c1 = sub_cong(
        s2,
        x4,
        Ghost(x0 * y1 + x1 * y0 + (x1 * y2 + x2 * y1)),
        Ghost(x2 * y2),
    );
    let a0b2 = mul_cong(a0, b2, Ghost(x0), Ghost(y2));
    let a1b1 = mul_cong(a1, b1, Ghost(x1), Ghost(y1));
    let a2b0 = mul_cong(a2, b0, Ghost(x2), Ghost(y0));
    let t1 = add_cong(a0b2, a1b1, Ghost(x0 * y2), Ghost(x1 * y1));
    let t2 = add_cong(t1, a2b0, Ghost(x0 * y2 + x1 * y1), Ghost(x2 * y0));
    let c2 = add_cong(t2, x4, Ghost(x0 * y2 + x1 * y1 + x2 * y0), Ghost(x2 * y2));
    proof {
        lemma_is_remainder(c0@, x0 * y0 - (x1 * y2 + x2 * y1));
        lemma_is_remainder(c1@, x0 * y1 + x1 * y0 + (x1 * y2 + x2 * y1) - x2 * y2);
        lemma_is_remainder(c2@, x0 * y2 + x1 * y1 + x2 * y0 + x2 * y2);
    }
    *res = Felt([c0, c1, c2]);
}

/// `res` is the inverse of `a`: its adjoint divided by its norm. For an
/// element whose norm is zero, which has no inverse, it is zero.
pub fn finv(a: &Felt, res: &mut Felt)
    ensures
        final(res)@ == felt_inv(a@),
        felt_reduced(final(res)@),
        felt_norm(a@) != 0 ==> felt_mul(a@, final(res)@) == felt_one(),
        felt_norm(a@) == 0 ==> final(res)@ == felt_zero(),
{
    proof {
        lemma_felt_inverse_total(a@);
    }
    let a0 = a.0[0];
    let a1 = a.0[1];
    let a2 = a.0[2];
    let ghost (x0, x1, x2) = (a0@, a1@, a2@);
    let s = add_cong(a0, a2, Ghost(x0), Ghost(x2));
    let ss = mul_cong(s, s, Ghost(x0 + x2), Ghost(x0 + x2));
    let a1a1 = mul_cong(a1, a1, Ghost(x1), Ghost(x1));
    let a1a2 = mul_cong(a1, a2, Ghost(x1), Ghost(x2));
    let a2a2 = mul_cong(a2, a2, Ghost(x2), Ghost(x2));
    let a0a1 = mul_cong(a0, a1, Ghost(x0), Ghost(x1));
    let a0a2 = mul_cong(a0, a2, Ghost(x0), Ghost(x2));
    let u = sub_cong(ss, a1a1, Ghost((x0 + x2) * (x0 + x2)), Ghost(x1 * x1));
    let d0 = add_cong(u, a1a2, Ghost((x0 + x2) * (x0 + x2) - x1 * x1), Ghost(x1 * x2));
    let v = add_cong(a0a1, a2a2, Ghost(x0 * x1), Ghost(x2 * x2));
    proof {
        lemma_field_ops(v@, 0);
        lemma_cong_neg(v@, x0 * x1 + x2 * x2);
    }
    let d1 = v.neg();
    let w = sub_cong(a1a1, a0a2, Ghost(x1 * x1), Ghost(x0 * x2));
    let d2 = sub_cong(w, a2a2, Ghost(x1 * x1 - x0 * x2), Ghost(x2 * x2));
    proof {
        lemma_is_remainder(d0@, (x0 + x2) * (x0 + x2) - x1 * x1 + x1 * x2);
        lemma_is_remainder(d1@, -(x0 * x1 + x2 * x2));
        lemma_is_remainder(d2@, x1 * x1 - x0 * x2 - x2 * x2);
        assert(felt_adjoint(a@) == (FeltView { c0: d0@, c1: d1@, c2: d2@ }));
    }
    let n0 = mul_cong(a0, d0, Ghost(x0), Ghost(d0@));
    let n1 = mul_cong(a2, d1, Ghost(x2), Ghost(d1@));
    let n2 = mul_cong(a1, d2, Ghost(x1), Ghost(d2@));
    let m = sub_cong(n0, n1, Ghost(x0 * d0@), Ghost(x2 * d1@));
    let norm = sub_cong(m, n2, Ghost(x0 * d0@ - x2 * d1@), Ghost(x1 * d2@));
    proof {
        lemma_is_remainder(norm@, x0 * d0@ - x2 * d1@ - x1 * d2@);
    }
    let k = norm.inv();
    *res = Felt([d0.mul(k), d1.mul(k), d2.mul(k)]);
}

/// `res = a / b`, the product of `a` and the inverse of `b`.
pub fn fdiv(a: &Felt, b: &Felt, res: &mut Felt)
    ensures
        final(res)@ == felt_div(a@, b@),
        felt_reduced(final(res)@),
{
    let mut inv = Felt::zero();
    finv(b, &mut inv);
    fmul(a, &inv, res);
}

/// Rearrangements of a product of three factors.
proof fn lemma_mul3(x: int, y: int, z: int)
    ensures
        x * (y * z) == (x * y) * z,
        x * (y * z) == x * (z * y),
        x * (y * z) == y * (x * z),
        x * (y * z) == y * (z * x),
        x * (y * z) == z * (x * y),
        x * (y * z) == z * (y * x),
{
    vstd::arithmetic::mul::lemma_mul_is_associative(x, y, z);
    vstd::arithmetic::mul::lemma_mul_is_associative(y, x, z);
    vstd::arithmetic::mul::lemma_mul_is_commutative(x, y);
    vstd::arithmetic::mul::lemma_mul_is_commutative(y, z);
    vstd::arithmetic::mul::lemma_mul_is_commutative(x, z);
    vstd::arithmetic::mul::lemma_mul_is_commutative(z, x * y);
}

/// `k * -(x + y)` multiplied out.
proof fn lemma_dist_neg(k: int, x: int, y: int)
    by (nonlinear_arith)
    ensures
        k * (-(x + y)) == -(k * x) - (k * y),
{
}

/// `k * (x - y - z)` multiplied out.
proof fn lemma_dist_sub(k: int, x: int, y: int, z: int)
    by (nonlinear_arith)
    ensures
        k * (x - y - z) == k * x - k * y - k * z,
{
}

/// `k * (a + 2b + c - d + e)` multiplied out.
proof fn lemma_dist_five(k: int, a: int, b: int, c: int, d: int, e: int)
    by (nonlinear_arith)
    ensures
        k * (a + 2 * b + c - d + e) == k * a + 2 * (k * b) + k * c - k * d + k * e,
{
}

/// The square of a sum.
proof fn lemma_square_sum(a: int, c: int)
    by (nonlinear_arith)
    ensures
        (a + c) * (a + c) == a * a + 2 * (a * c) + c * c,
{
}

/// `(x + y + z + w) * k` multiplied out.
proof fn lemma_dist_right(x: int, y: int, z: int, w: int, k: int)
    by (nonlinear_arith)
    ensures
        (x + y + z + w) * k == x * k + y * k + z * k + w * k,
        (x - (y + z)) * k == x * k - (y * k + z * k),
        (x + y + (z + w)) * k == x * k + y * k + (z * k + w * k),
{
}

/// An element times its adjoint is its norm.
pub proof fn lemma_adjoint_product(a: FeltView)
    ensures
        felt_mul(a, felt_adjoint(a)) == (FeltView { c0: felt_norm(a), c1: 0, c2: 0 }),
{
    let p = modulus();
    let (a0, a1, a2) = (a.c0, a.c1, a.c2);
    let e0 = (a0 + a2) * (a0 + a2) - a1 * a1 + a1 * a2;
    let e1 = -(a0 * a1 + a2 * a2);
    let e2 = a1 * a1 - a0 * a2 - a2 * a2;
    let d = felt_adjoint(a);
    lemma_cong_mod(e0);
    lemma_cong_mod(e1);
    lemma_cong_mod(e2);
    // the products of a coefficient and an entry of the adjoint, multiplied
    // out into monomials of degree three
    lemma_square_sum(a0, a2);
    assert(e0 == a0 * a0 + 2 * (a0 * a2) + a2 * a2 - a1 * a1 + a1 * a2);
    lemma_dist_neg(a0, a0 * a1, a2 * a2);
    lemma_dist_neg(a1, a0 * a1, a2 * a2);
    lemma_dist_neg(a2, a0 * a1, a2 * a2);
    lemma_dist_sub(a0, a1 * a1, a0 * a2, a2 * a2);
    lemma_dist_sub(a1, a1 * a1, a0 * a2, a2 * a2);
    lemma_dist_sub(a2, a1 * a1, a0 * a2, a2 * a2);
    lemma_dist_five(a1, a0 * a0, a0 * a2, a2 * a2, a1 * a1, a1 * a2);
    lemma_dist_five(a2, a0 * a0, a0 * a2, a2 * a2, a1 * a1, a1 * a2);
    lemma_mul3(a1, a0, a0);
    lemma_mul3(a1, a0, a2);
    lemma_mul3(a2, a0, a1);
    lemma_mul3(a2, a1, a1);
    lemma_mul3(a2, a0, a2);
    lemma_mul3(a1, a0, a1);
    lemma_mul3(a2, a0, a0);
    lemma_mul3(a2, a1, a2);
    let c001 = a0 * (a0 * a1);
    let c002 = a0 * (a0 * a2);
    let c011 = a0 * (a1 * a1);
    let c012 = a0 * (a1 * a2);
    let c022 = a0 * (a2 * a2);
    let c111 = a1 * (a1 * a1);
    let c112 = a1 * (a1 * a2);
    let c122 = a1 * (a2 * a2);
    let c222 = a2 * (a2 * a2);
    assert(a0 * e1 == -c001 - c022);
    assert(a1 * e1 == -c011 - c122);
    assert(a2 * e1 == -c012 - c222);
    assert(a0 * e2 == c011 - c002 - c022);
    assert(a1 * e2 == c111 - c012 - c122);
    assert(a2 * e2 == c112 - c022 - c222);
    assert(a1 * e0 == c001 + 2 * c012 + c122 - c111 + c112);
    assert(a2 * e0 == c002 + 2 * c022 + c222 - c112 + c122);
    assert(a0 * e1 + a1 * e0 + (a1 * e2 + a2 * e1) - a2 * e2 == 0);
    assert(a0 * e2 + a1 * e1 + a2 * e0 + a2 * e2 == 0);
    // the coefficient of X
    lemma_cong_mul(a0, a0, d.c1, e1);
    lemma_cong_mul(a1, a1, d.c0, e0);
    lemma_cong_mul(a1, a1, d.c2, e2);
    lemma_cong_mul(a2, a2, d.c1, e1);
    lemma_cong_mul(a2, a2, d.c2, e2);
    lemma_cong_add(a0 * d.c1, a0 * e1, a1 * d.c0, a1 * e0);
    lemma_cong_add(a1 * d.c2, a1 * e2, a2 * d.c1, a2 * e1);
    lemma_cong_add(
        a0 * d.c1 + a1 * d.c0,
        a0 * e1 + a1 * e0,
        a1 * d.c2 + a2 * d.c1,
        a1 * e2 + a2 * e1,
    );
    lemma_cong_sub(
        a0 * d.c1 + a1 * d.c0 + (a1 * d.c2 + a2 * d.c1),
        a0 * e1 + a1 * e0 + (a1 * e2 + a2 * e1),
        a2 * d.c2,
        a2 * e2,
    );
    // the coefficient of X^2
    lemma_cong_mul(a0, a0, d.c2, e2);
    lemma_cong_mul(a1, a1, d.c1, e1);
    lemma_cong_mul(a2, a2, d.c0, e0);
    lemma_cong_add(a0 * d.c2, a0 * e2, a1 * d.c1, a1 * e1);
    lemma_cong_add(a0 * d.c2 + a1 * d.c1, a0 * e2 + a1 * e1, a2 * d.c0, a2 * e0);
    lemma_cong_add(
        a0 * d.c2 + a1 * d.c1 + a2 * d.c0,
        a0 * e2 + a1 * e1 + a2 * e0,
        a2 * d.c2,
        a2 * e2,
    );
    vstd::arithmetic::div_mod::lemma_small_mod(0, p as nat);
}

/// An element whose norm is a unit of the field has an inverse: its
/// inverse candidate.
pub proof fn lemma_felt_inverse(a: FeltView)
    requires
        field_mul(felt_norm(a), field_inv(felt_norm(a))) == 1,
    ensures
        felt_mul(a, felt_inv(a)) == felt_one(),
{
    let p = modulus();
    let (a0, a1, a2) = (a.c0, a.c1, a.c2);
    let d = felt_adjoint(a);
    let n = felt_norm(a);
    let k = field_inv(n);
    let b = felt_inv(a);
    lemma_adjoint_product(a);
    let q = felt_mul(a, d);
    // b is d scaled by k, so a * b is (a * d) scaled by k
    lemma_field_ops(d.c0, k);
    lemma_field_ops(d.c1, k);
    lemma_field_ops(d.c2, k);
    let x3 = a1 * d.c2 + a2 * d.c1;
    let x4 = a2 * d.c2;
    let y3 = a1 * b.c2 + a2 * b.c1;
    let y4 = a2 * b.c2;
    lemma_cong_mul(a1, a1, b.c2, d.c2 * k);
    lemma_cong_mul(a2, a2, b.c1, d.c1 * k);
    lemma_cong_mul(a2, a2, b.c2, d.c2 * k);
    lemma_cong_mul(a0, a0, b.c0, d.c0 * k);
    lemma_cong_mul(a0, a0, b.c1, d.c1 * k);
    lemma_cong_mul(a0, a0, b.c2, d.c2 * k);
    lemma_cong_mul(a1, a1, b.c0, d.c0 * k);
    lemma_cong_mul(a1, a1, b.c1, d.c1 * k);
    lemma_cong_mul(a2, a2, b.c0, d.c0 * k);
    lemma_cong_add(a1 * b.c2, a1 * (d.c2 * k), a2 * b.c1, a2 * (d.c1 * k));
    lemma_mul3(a0, d.c0, k);
    lemma_mul3(a0, d.c1, k);
    lemma_mul3(a0, d.c2, k);
    lemma_mul3(a1, d.c0, k);
    lemma_mul3(a1, d.c1, k);
    lemma_mul3(a1, d.c2, k);
    lemma_mul3(a2, d.c0, k);
    lemma_mul3(a2, d.c1, k);
    lemma_mul3(a2, d.c2, k);
    // coefficient of 1
    let i0 = a0 * d.c0 - x3;
    lemma_cong_sub(a0 * b.c0, a0 * (d.c0 * k), y3, a1 * (d.c2 * k) + a2 * (d.c1 * k));
    lemma_dist_right(a0 * d.c0, a1 * d.c2, a2 * d.c1, 0, k);
    assert(a0 * (d.c0 * k) - (a1 * (d.c2 * k) + a2 * (d.c1 * k)) == i0 * k);
    lemma_cong_mod(i0);
    lemma_cong_mul(i0, q.c0, k, k);
    lemma_cong_mod(n * k);
    lemma_is_remainder(1, n * k);
    lemma_cong_mod(a0 * b.c0 - y3);
    assert(cong(felt_mul(a, b).c0, 1));
    lemma_cong_reduced(felt_mul(a, b).c0, 1);
    // coefficient of X
    let i1 = a0 * d.c1 + a1 * d.c0 + x3 - x4;
    lemma_cong_add(a0 * b.c1, a0 * (d.c1 * k), a1 * b.c0, a1 * (d.c0 * k));
    lemma_cong_add(
        a0 * b.c1 + a1 * b.c0,
        a0 * (d.c1 * k) + a1 * (d.c0 * k),
        y3,
        a1 * (d.c2 * k) + a2 * (d.c1 * k),
    );
    lemma_cong_sub(
        a0 * b.c1 + a1 * b.c0 + y3,
        a0 * (d.c1 * k) + a1 * (d.c0 * k) + (a1 * (d.c2 * k) + a2 * (d.c1 * k)),
        y4,
        a2 * (d.c2 * k),
    );
    lemma_dist_right(a0 * d.c1, a1 * d.c0, x3, -x4, k);
    lemma_dist_right(a1 * d.c2, a2 * d.c1, 0, 0, k);
    assert((-x4) * k == -(x4 * k)) by {
        vstd::arithmetic::mul::lemma_mul_unary_negation(x4, k);
    }
    assert(a0 * (d.c1 * k) + a1 * (d.c0 * k) + (a1 * (d.c2 * k) + a2 * (d.c1 * k)) - a2 * (d.c2
        * k) == i1 * k);
    lemma_cong_mod(i1);
    lemma_cong_mul(i1, 0, k, k);
    assert(0 * k == 0);
    lemma_cong_mod(a0 * b.c1 + a1 * b.c0 + y3 - y4);
    lemma_cong_reduced(felt_mul(a, b).c1, 0);
    // coefficient of X^2
    let i2 = a0 * d.c2 + a1 * d.c1 + a2 * d.c0 + x4;
    lemma_cong_add(a0 * b.c2, a0 * (d.c2 * k), a1 * b.c1, a1 * (d.c1 * k));
    lemma_cong_add(
        a0 * b.c2 + a1 * b.c1,
        a0 * (d.c2 * k) + a1 * (d.c1 * k),
        a2 * b.c0,
        a2 * (d.c0 * k),
    );
    lemma_cong_add(
        a0 * b.c2 + a1 * b.c1 + a2 * b.c0,
        a0 * (d.c2 * k) + a1 * (d.c1 * k) + a2 * (d.c0 * k),
        y4,
        a2 * (d.c2 * k),
    );
    lemma_dist_right(a0 * d.c2, a1 * d.c1, a2 * d.c0, x4, k);
    assert(a0 * (d.c2 * k) + a1 * (d.c1 * k) + a2 * (d.c0 * k) + a2 * (d.c2 * k) == i2 * k);
    lemma_cong_mod(i2);
    lemma_cong_mul(i2, 0, k, k);
    lemma_cong_mod(a0 * b.c2 + a1 * b.c1 + a2 * b.c0 + y4);
    lemma_cong_reduced(felt_mul(a, b).c2, 0);
}

/// An element with a norm other than zero has an inverse; for an element
/// with norm zero the inverse function gives zero.
pub proof fn lemma_felt_inverse_total(a: FeltView)
    ensures
        felt_norm(a) != 0 ==> felt_mul(a, felt_inv(a)) == felt_one(),
        felt_norm(a) == 0 ==> felt_inv(a) == felt_zero(),
{
    let n = felt_norm(a);
    let d = felt_adjoint(a);
    lemma_cong_mod(a.c0 * d.c0 - a.c2 * d.c1 - a.c1 * d.c2);
    vstd::arithmetic::div_mod::lemma_small_mod(n as nat, modulus() as nat);
    if n != 0 {
        crate::units::lemma_field_inverse(n);
        lemma_felt_inverse(a);
    } else {
        vstd::arithmetic::power::lemma0_pow((modulus() - 2) as nat);
        vstd::arithmetic::div_mod::lemma_small_mod(0, modulus() as nat);
        assert(field_inv(0) == 0);
        assert(d.c0 * 0 == 0);
        assert(d.c1 * 0 == 0);
        assert(d.c2 * 0 == 0);
    }
}

} // verus!
