//! Polynomials over the cubic extension as coefficient sequences, lowest
//! degree first.

use crate::fext::{
    fadd, fdiv, felt_add, felt_div, felt_mul, felt_neg, felt_one, felt_sub, felt_zero, felts,
    fmul, fneg, fsub, Felt, FeltView,
};
use crate::field::{field_add, field_neg, field_sub};
use crate::field_lemmas::{lemma_cong_add, lemma_cong_reduced, lemma_field_ops};
use vstd::prelude::*;

verus! {

/// Coefficient `i` of a polynomial: zero beyond its length.
pub open spec fn coefficient(p: Seq<FeltView>, i: int) -> FeltView {
    if 0 <= i < p.len() {
        p[i]
    } else {
        felt_zero()
    }
}

/// The larger of two lengths.
pub open spec fn longer(a: nat, b: nat) -> nat {
    if a >= b {
        a
    } else {
        b
    }
}

/// The sum of two polynomials.
pub open spec fn fp_add(p: Seq<FeltView>, q: Seq<FeltView>) -> Seq<FeltView> {
    Seq::new(longer(p.len(), q.len()), |i: int| felt_add(coefficient(p, i), coefficient(q, i)))
}

/// The difference of two polynomials.
pub open spec fn fp_sub(p: Seq<FeltView>, q: Seq<FeltView>) -> Seq<FeltView> {
    Seq::new(longer(p.len(), q.len()), |i: int| felt_sub(coefficient(p, i), coefficient(q, i)))
}

/// The negative of a polynomial.
pub open spec fn fp_neg(p: Seq<FeltView>) -> Seq<FeltView> {
    Seq::new(p.len(), |i: int| felt_neg(p[i]))
}

/// A polynomial multiplied by the element `c`.
pub open spec fn fp_scal(c: FeltView, p: Seq<FeltView>) -> Seq<FeltView> {
    Seq::new(p.len(), |i: int| felt_mul(c, p[i]))
}

/// A vector of `n` zeros of the extension.
pub fn felt_zeros(n: usize) -> (r: Vec<Felt>)
    ensures
        r@.len() == n,
        forall|i: int| 0 <= i < n ==> (#[trigger] r@[i])@ == felt_zero(),
{
    let mut r: Vec<Felt> = Vec::new();
    let mut i: usize = 0;
    while i < n
        invariant
            i <= n,
            r@.len() == i,
            forall|k: int| 0 <= k < i ==> (#[trigger] r@[k])@ == felt_zero(),
        decreases n - i,
    {
        r.push(Felt::zero());
        i = i + 1;
    }
    r
}

/// Sums and differences in the field that are built up from zero.
proof fn lemma_from_zero(p: int, q: int)
    ensures
        field_add(q, field_add(p, 0)) == field_add(p, q),
        field_add(field_add(p, 0), 0) == field_add(p, 0),
        field_add(q, 0) == field_add(0, q),
        field_add(field_neg(q), field_add(p, 0)) == field_sub(p, q),
        field_add(field_neg(q), 0) == field_sub(0, q),
        field_add(p, 0) == field_sub(p, 0),
{
    let x = field_add(p, 0);
    let n = field_neg(q);
    lemma_field_ops(p, 0);
    lemma_field_ops(q, x);
    lemma_field_ops(p, q);
    lemma_field_ops(x, 0);
    lemma_field_ops(q, 0);
    lemma_field_ops(0, q);
    lemma_field_ops(n, x);
    lemma_field_ops(n, 0);
    lemma_cong_add(q, q, x, p);
    lemma_cong_reduced(field_add(q, x), field_add(p, q));
    lemma_cong_reduced(field_add(x, 0), x);
    lemma_cong_add(n, -q, x, p);
    lemma_cong_reduced(field_add(n, x), field_sub(p, q));
    lemma_cong_reduced(field_add(n, 0), field_sub(0, q));
}

/// Sums and differences in the extension that are built up from zero.
proof fn lemma_add_from_zero(p: FeltView, q: FeltView)
    ensures
        felt_add(q, felt_add(p, felt_zero())) == felt_add(p, q),
        felt_add(felt_add(p, felt_zero()), felt_zero()) == felt_add(p, felt_zero()),
        felt_add(q, felt_zero()) == felt_add(felt_zero(), q),
        felt_add(felt_neg(q), felt_add(p, felt_zero())) == felt_sub(p, q),
        felt_add(felt_neg(q), felt_zero()) == felt_sub(felt_zero(), q),
        felt_add(p, felt_zero()) == felt_sub(p, felt_zero()),
{
    lemma_from_zero(p.c0, q.c0);
    lemma_from_zero(p.c1, q.c1);
    lemma_from_zero(p.c2, q.c2);
}

/// The sum of `p` and `q`, written to `res`.
pub fn fpadd_poly(p: &[Felt], q: &[Felt], res: &mut [Felt])
    requires
        old(res)@.len() == longer(p@.len(), q@.len()),
    ensures
        final(res)@.len() == old(res)@.len(),
        felts(final(res)@) == fp_add(felts(p@), felts(q@)),
{
    let lp = p.len();
    let lq = q.len();
    let m = if lp >= lq {
        lp
    } else {
        lq
    };
    let ghost vp = felts(p@);
    let ghost vq = felts(q@);
    let mut i: usize = 0;
    while i < m
        invariant
            m == res@.len(),
            i <= m,
            forall|k: int| 0 <= k < i ==> (#[trigger] res@[k])@ == felt_zero(),
        decreases m - i,
    {
        res[i] = Felt::zero();
        i = i + 1;
    }
    let mut i: usize = 0;
    while i < lp
        invariant
            m == res@.len(),
            lp == p@.len(),
            lp <= m,
            i <= lp,
            vp == felts(p@),
            forall|k: int| 0 <= k < i ==> (#[trigger] res@[k])@ == felt_add(vp[k], felt_zero()),
            forall|k: int| i <= k < m ==> (#[trigger] res@[k])@ == felt_zero(),
        decreases lp - i,
    {
        let temp = res[i];
        let mut sum = Felt::zero();
        fadd(&p[i], &temp, &mut sum);
        res[i] = sum;
        i = i + 1;
    }
    let mut i: usize = 0;
    while i < lq
        invariant
            m == res@.len(),
            lp == p@.len(),
            lq == q@.len(),
            m == longer(lp as nat, lq as nat),
            i <= lq,
            vp == felts(p@),
            vq == felts(q@),
            forall|k: int|
                0 <= k < i ==> (#[trigger] res@[k])@ == felt_add(
                    coefficient(vp, k),
                    coefficient(vq, k),
                ),
            forall|k: int|
                i <= k < m ==> (#[trigger] res@[k])@ == if k < lp {
                    felt_add(vp[k], felt_zero())
                } else {
                    felt_zero()
                },
        decreases lq - i,
    {
        let temp = res[i];
        let mut sum = Felt::zero();
        fadd(&q[i], &temp, &mut sum);
        proof {
            lemma_add_from_zero(coefficient(vp, i as int), vq[i as int]);
        }
        res[i] = sum;
        i = i + 1;
    }
    proof {
        assert forall|k: int| 0 <= k < m implies felts(res@)[k] == fp_add(vp, vq)[k] by {
            if k >= lq {
                lemma_add_from_zero(vp[k], felt_zero());
            }
        }
        assert(felts(res@) =~= fp_add(vp, vq));
    }
}

/// The negative of `p`, written to `res`.
pub fn fpneg_poly(p: &[Felt], res: &mut [Felt])
    requires
        old(res)@.len() == p@.len(),
    ensures
        final(res)@.len() == old(res)@.len(),
        felts(final(res)@) == fp_neg(felts(p@)),
{
    let n = p.len();
    let mut i: usize = 0;
    while i < n
        invariant
            n == p@.len(),
            n == res@.len(),
            i <= n,
            forall|k: int| 0 <= k < i ==> (#[trigger] res@[k])@ == felt_neg(p@[k]@),
        decreases n - i,
    {
        let mut out = Felt::zero();
        fneg(&p[i], &mut out);
        res[i] = out;
        i = i + 1;
    }
    proof {
        assert(felts(res@) =~= fp_neg(felts(p@)));
    }
}

/// The difference of `p` and `q`, written to `res`.
pub fn fpsub_poly(p: &[Felt], q: &[Felt], res: &mut [Felt])
    requires
        old(res)@.len() == longer(p@.len(), q@.len()),
    ensures
        final(res)@.len() == old(res)@.len(),
        felts(final(res)@) == fp_sub(felts(p@), felts(q@)),
{
    let lp = p.len();
    let lq = q.len();
    let m = if lp >= lq {
        lp
    } else {
        lq
    };
    let ghost vp = felts(p@);
    let ghost vq = felts(q@);
    let mut i: usize = 0;
    while i < m
        invariant
            m == res@.len(),
            i <= m,
            forall|k: int| 0 <= k < i ==> (#[trigger] res@[k])@ == felt_zero(),
        decreases m - i,
    {
        res[i] = Felt::zero();
        i = i + 1;
    }
    let mut i: usize = 0;
    while i < lp
        invariant
            m == res@.len(),
            lp == p@.len(),
            lp <= m,
            i <= lp,
            vp == felts(p@),
            forall|k: int| 0 <= k < i ==> (#[trigger] res@[k])@ == felt_add(vp[k], felt_zero()),
            forall|k: int| i <= k < m ==> (#[trigger] res@[k])@ == felt_zero(),
        decreases lp - i,
    {
        let temp = res[i];
        let mut sum = Felt::zero();
        fadd(&p[i], &temp, &mut sum);
        res[i] = sum;
        i = i + 1;
    }
    let mut i: usize = 0;
    while i < lq
        invariant
            m == res@.len(),
            lp == p@.len(),
            lq == q@.len(),
            m == longer(lp as nat, lq as nat),
            i <= lq,
            vp == felts(p@),
            vq == felts(q@),
            forall|k: int|
                0 <= k < i ==> (#[trigger] res@[k])@ == felt_sub(
                    coefficient(vp, k),
                    coefficient(vq, k),
                ),
            forall|k: int|
                i <= k < m ==> (#[trigger] res@[k])@ == if k < lp {
                    felt_add(vp[k], felt_zero())
                } else {
                    felt_zero()
                },
        decreases lq - i,
    {
        let mut neg_q = Felt::zero();
        fneg(&q[i], &mut neg_q);
        let temp = res[i];
        let mut sum = Felt::zero();
        fadd(&neg_q, &temp, &mut sum);
        proof {
            lemma_add_from_zero(coefficient(vp, i as int), vq[i as int]);
        }
        res[i] = sum;
        i = i + 1;
    }
    proof {
        assert forall|k: int| 0 <= k < m implies felts(res@)[k] == fp_sub(vp, vq)[k] by {
            if k >= lq {
                lemma_add_from_zero(vp[k], felt_zero());
            }
        }
        assert(felts(res@) =~= fp_sub(vp, vq));
    }
}

/// `p` multiplied by the element `c`, written to `res`.
pub fn fpscal_poly(c: &Felt, p: &[Felt], res: &mut [Felt])
    requires
        old(res)@.len() == p@.len(),
    ensures
        final(res)@.len() == old(res)@.len(),
        felts(final(res)@) == fp_scal(c@, felts(p@)),
{
    let n = p.len();
    let mut i: usize = 0;
    while i < n
        invariant
            n == p@.len(),
            n == res@.len(),
            i <= n,
            forall|k: int| 0 <= k < i ==> (#[trigger] res@[k])@ == felt_mul(c@, p@[k]@),
        decreases n - i,
    {
        let mut out = Felt::zero();
        fmul(c, &p[i], &mut out);
        res[i] = out;
        i = i + 1;
    }
    proof {
        assert(felts(res@) =~= fp_scal(c@, felts(p@)));
    }
}

/// Copies `p` to `res`. No transform of the extension is available; the
/// coefficients are handed on as they are.
pub fn fp_fft_poly(p: &[Felt], res: &mut [Felt])
    requires
        old(res)@.len() == p@.len(),
    ensures
        final(res)@ == p@,
{
    let n = p.len();
    let mut i: usize = 0;
    while i < n
        invariant
            n == p@.len(),
            n == res@.len(),
            i <= n,
            forall|k: int| 0 <= k < i ==> #[trigger] res@[k] == p@[k],
        decreases n - i,
    {
        res[i] = p[i];
        i = i + 1;
    }
    proof {
        assert(res@ =~= p@);
    }
}

/// Copies `p` to `res`. No inverse transform of the extension is
/// available; the values are handed on as they are.
pub fn fp_ifft_poly(p: &[Felt], res: &mut [Felt])
    requires
        old(res)@.len() == p@.len(),
    ensures
        final(res)@ == p@,
{
    let n = p.len();
    let mut i: usize = 0;
    while i < n
        invariant
            n == p@.len(),
            n == res@.len(),
            i <= n,
            forall|k: int| 0 <= k < i ==> #[trigger] res@[k] == p@[k],
        decreases n - i,
    {
        res[i] = p[i];
        i = i + 1;
    }
    proof {
        assert(res@ =~= p@);
    }
}

/// Coefficient `k` of the product of `p` and `q`, built up from the
/// first `upto` coefficients of `p`.
pub open spec fn fp_conv(p: Seq<FeltView>, q: Seq<FeltView>, k: int, upto: nat) -> FeltView
    decreases upto,
{
    if upto == 0 {
        felt_zero()
    } else {
        let i = upto - 1;
        let acc = fp_conv(p, q, k, i as nat);
        if 0 <= k - i < q.len() {
            felt_add(felt_mul(p[i], q[k - i]), acc)
        } else {
            acc
        }
    }
}

/// The product of two polynomials that both have a coefficient.
pub open spec fn fp_mul(p: Seq<FeltView>, q: Seq<FeltView>) -> Seq<FeltView> {
    Seq::new((p.len() + q.len() - 1) as nat, |k: int| fp_conv(p, q, k, p.len()))
}

/// The schoolbook product of `p` and `q`, written to `res`. If one of the
/// two is empty, `res` is left as it is.
pub fn fpmul_poly(p: &[Felt], q: &[Felt], res: &mut [Felt])
    requires
        p@.len() == 0 || q@.len() == 0 || old(res)@.len() == p@.len() + q@.len() - 1,
    ensures
        final(res)@.len() == old(res)@.len(),
        p@.len() == 0 || q@.len() == 0 ==> final(res)@ == old(res)@,
        p@.len() > 0 && q@.len() > 0 ==> felts(final(res)@) == fp_mul(felts(p@), felts(q@)),
{
    let lp = p.len();
    let lq = q.len();
    if lp == 0 || lq == 0 {
        return ;
    }
    let n = res.len();
    let ghost vp = felts(p@);
    let ghost vq = felts(q@);
    let mut z: usize = 0;
    while z < n
        invariant
            n == res@.len(),
            z <= n,
            forall|k: int| 0 <= k < z ==> (#[trigger] res@[k])@ == felt_zero(),
        decreases n - z,
    {
        res[z] = Felt::zero();
        z = z + 1;
    }
    let mut i: usize = 0;
    while i < lp
        invariant
            lp == p@.len(),
            lq == q@.len(),
            lq > 0,
            n == res@.len(),
            n == lp + lq - 1,
            vp == felts(p@),
            vq == felts(q@),
            i <= lp,
            forall|k: int| 0 <= k < n ==> (#[trigger] res@[k])@ == fp_conv(vp, vq, k, i as nat),
        decreases lp - i,
    {
        let mut j: usize = 0;
        while j < lq
            invariant
                lp == p@.len(),
                lq == q@.len(),
                n == res@.len(),
                n == lp + lq - 1,
                vp == felts(p@),
                vq == felts(q@),
                i < lp,
                j <= lq,
                forall|k: int|
                    0 <= k < n ==> (#[trigger] res@[k])@ == if i <= k < i + j {
                        felt_add(felt_mul(vp[i as int], vq[k - i]), fp_conv(vp, vq, k, i as nat))
                    } else {
                        fp_conv(vp, vq, k, i as nat)
                    },
            decreases lq - j,
        {
            let mut prod = Felt::zero();
            fmul(&p[i], &q[j], &mut prod);
            let temp = res[i + j];
            let mut sum = Felt::zero();
            fadd(&prod, &temp, &mut sum);
            res[i + j] = sum;
            j = j + 1;
        }
        i = i + 1;
    }
    proof {
        assert(felts(res@) =~= fp_mul(vp, vq));
    }
}

/// Horner's scheme from coefficient `from` upwards: the value at `x` of
/// the polynomial whose coefficients are those of `p` from `from` on.
pub open spec fn fp_horner(p: Seq<FeltView>, x: FeltView, from: int) -> FeltView
    decreases p.len() - from,
{
    if from >= p.len() - 1 {
        coefficient(p, from)
    } else {
        felt_add(felt_mul(fp_horner(p, x, from + 1), x), p[from])
    }
}

/// The value of the polynomial `p` at `x`, by Horner's scheme; zero for the
/// empty polynomial.
pub fn fpeval_poly(p: &[Felt], x: &Felt) -> (r: Felt)
    ensures
        r@ == fp_horner(felts(p@), x@, 0),
{
    let n = p.len();
    if n == 0 {
        return Felt::zero();
    }
    let ghost vp = felts(p@);
    let mut result = p[n - 1];
    let mut i: usize = n - 1;
    while i > 0
        invariant
            n == p@.len(),
            vp == felts(p@),
            i < n,
            result@ == fp_horner(vp, x@, i as int),
        decreases i,
    {
        i = i - 1;
        let mut temp = Felt::zero();
        fmul(&result, x, &mut temp);
        let mut next = Felt::zero();
        fadd(&temp, &p[i], &mut next);
        result = next;
    }
    result
}

/// The product of the differences `dom[i] - dom[j]` over the `j < upto`
/// other than `i`.
pub open spec fn fp_denominator(dom: Seq<FeltView>, i: int, upto: nat) -> FeltView
    decreases upto,
{
    if upto == 0 {
        felt_one()
    } else {
        let j = upto - 1;
        let d = fp_denominator(dom, i, j as nat);
        if j != i {
            felt_mul(d, felt_sub(dom[i], dom[j]))
        } else {
            d
        }
    }
}

/// The sum over `i < upto` of `vals[i]` divided by the product of the
/// differences of `dom[i]` and the other points.
pub open spec fn fp_weight_sum(dom: Seq<FeltView>, vals: Seq<FeltView>, upto: nat) -> FeltView
    decreases upto,
{
    if upto == 0 {
        felt_zero()
    } else {
        let i = upto - 1;
        felt_add(
            felt_div(vals[i], fp_denominator(dom, i, dom.len())),
            fp_weight_sum(dom, vals, i as nat),
        )
    }
}

/// Writes to `res[0]` the sum of the values, each divided by the product
/// of the differences of its point and the other points, and zero to the
/// other coefficients. This is the leading coefficient of the polynomial
/// through the points; the other coefficients are not computed.
pub fn interpolate_poly(domain: &[Felt], values: &[Felt], res: &mut [Felt])
    requires
        values@.len() == domain@.len(),
        old(res)@.len() == domain@.len(),
    ensures
        final(res)@.len() == old(res)@.len(),
        domain@.len() > 0 ==> final(res)@[0]@ == fp_weight_sum(
            felts(domain@),
            felts(values@),
            domain@.len(),
        ),
        forall|k: int| 1 <= k < domain@.len() ==> (#[trigger] final(res)@[k])@ == felt_zero(),
{
    let n = domain.len();
    let ghost dom = felts(domain@);
    let ghost vals = felts(values@);
    let mut z: usize = 0;
    while z < n
        invariant
            n == res@.len(),
            z <= n,
            forall|k: int| 0 <= k < z ==> (#[trigger] res@[k])@ == felt_zero(),
        decreases n - z,
    {
        res[z] = Felt::zero();
        z = z + 1;
    }
    let mut i: usize = 0;
    while i < n
        invariant
            n == res@.len(),
            n == domain@.len(),
            n == values@.len(),
            dom == felts(domain@),
            vals == felts(values@),
            i <= n,
            n > 0 ==> res@[0]@ == fp_weight_sum(dom, vals, i as nat),
            forall|k: int| 1 <= k < n ==> (#[trigger] res@[k])@ == felt_zero(),
        decreases n - i,
    {
        let mut denom = Felt::one();
        let mut j: usize = 0;
        while j < n
            invariant
                n == domain@.len(),
                dom == felts(domain@),
                i < n,
                j <= n,
                denom@ == fp_denominator(dom, i as int, j as nat),
            decreases n - j,
        {
            if i != j {
                let mut diff = Felt::zero();
                fsub(&domain[i], &domain[j], &mut diff);
                let mut new_denom = Felt::zero();
                fmul(&denom, &diff, &mut new_denom);
                denom = new_denom;
            }
            j = j + 1;
        }
        let mut scale = Felt::zero();
        fdiv(&values[i], &denom, &mut scale);
        let temp = res[0];
        let mut sum = Felt::zero();
        fadd(&scale, &temp, &mut sum);
        res[0] = sum;
        i = i + 1;
    }
}

/// The `i`-th power of the polynomial `q`.
pub open spec fn fp_power(q: Seq<FeltView>, i: nat) -> Seq<FeltView>
    decreases i,
{
    if i == 0 {
        seq![felt_one()]
    } else {
        fp_mul(fp_power(q, (i - 1) as nat), q)
    }
}

/// Coefficient `t` of the composition of `p` and `q`, built up from the
/// first `upto` coefficients of `p`.
pub open spec fn fp_compose_coeff(p: Seq<FeltView>, q: Seq<FeltView>, t: int, upto: nat)
    -> FeltView
    decreases upto,
{
    if upto == 0 {
        felt_zero()
    } else if upto == 1 {
        if t == 0 {
            p[0]
        } else {
            felt_zero()
        }
    } else {
        let i = (upto - 1) as nat;
        let acc = fp_compose_coeff(p, q, t, i);
        if t < fp_power(q, i).len() {
            felt_add(felt_mul(p[i as int], fp_power(q, i)[t]), acc)
        } else {
            acc
        }
    }
}

/// The first `len` coefficients of the composition `p(q(X))`.
pub open spec fn fp_compose(p: Seq<FeltView>, q: Seq<FeltView>, len: nat) -> Seq<FeltView> {
    Seq::new(len, |t: int| fp_compose_coeff(p, q, t, p.len()))
}

/// The length of the `i`-th power of a polynomial with `lq` coefficients.
proof fn lemma_power_len(q: Seq<FeltView>, i: nat)
    requires
        q.len() >= 1,
    ensures
        fp_power(q, i).len() == i * (q.len() - 1) + 1,
    decreases i,
{
    if i > 0 {
        lemma_power_len(q, (i - 1) as nat);
        assert(i * (q.len() - 1) == (i - 1) * (q.len() - 1) + (q.len() - 1)) by (nonlinear_arith);
    } else {
        assert(0 * (q.len() - 1) == 0);
    }
}

/// The composition `p(q(X))`, as far as it fits, written to `res`. If one
/// of the two is empty, `res` is left as it is.
pub fn fpcompose_poly(p: &[Felt], q: &[Felt], res: &mut [Felt])
    requires
        p@.len() == 0 || q@.len() == 0 || old(res)@.len() >= 1,
        p@.len() == 0 || q@.len() == 0 || (p@.len() - 1) * (q@.len() - 1) + 1 <= usize::MAX,
    ensures
        final(res)@.len() == old(res)@.len(),
        p@.len() == 0 || q@.len() == 0 ==> final(res)@ == old(res)@,
        p@.len() > 0 && q@.len() > 0 ==> felts(final(res)@) == fp_compose(
            felts(p@),
            felts(q@),
            old(res)@.len(),
        ),
{
    let lp = p.len();
    let lq = q.len();
    if lp == 0 || lq == 0 {
        return ;
    }
    let n = res.len();
    let ghost vp = felts(p@);
    let ghost vq = felts(q@);
    let mut z: usize = 0;
    while z < n
        invariant
            n == res@.len(),
            z <= n,
            forall|k: int| 0 <= k < z ==> (#[trigger] res@[k])@ == felt_zero(),
        decreases n - z,
    {
        res[z] = Felt::zero();
        z = z + 1;
    }
    res[0] = p[0];
    let mut q_power: Vec<Felt> = Vec::new();
    q_power.push(Felt::one());
    proof {
        assert(felts(q_power@) =~= fp_power(vq, 0));
    }
    let mut i: usize = 1;
    while i < lp
        invariant
            lp == p@.len(),
            lq == q@.len(),
            lq >= 1,
            n == res@.len(),
            n >= 1,
            vp == felts(p@),
            vq == felts(q@),
            1 <= i <= lp,
            (lp - 1) * (lq - 1) + 1 <= usize::MAX,
            felts(q_power@) == fp_power(vq, (i - 1) as nat),
            forall|t: int|
                0 <= t < n ==> (#[trigger] res@[t])@ == fp_compose_coeff(vp, vq, t, i as nat),
        decreases lp - i,
    {
        proof {
            lemma_power_len(vq, (i - 1) as nat);
            lemma_power_len(vq, i as nat);
            assert(i * (lq - 1) <= (lp - 1) * (lq - 1)) by (nonlinear_arith)
                requires
                    i <= lp - 1,
                    lq - 1 >= 0,
            ;
            assert(i * (lq - 1) == (i - 1) * (lq - 1) + (lq - 1)) by (nonlinear_arith);
        }
        let new_len = q_power.len() + (lq - 1);
        let mut new_q_power = felt_zeros(new_len);
        fpmul_poly(q_power.as_slice(), q, new_q_power.as_mut_slice());
        q_power = new_q_power;
        let limit = if q_power.len() < n {
            q_power.len()
        } else {
            n
        };
        let ghost qp = fp_power(vq, i as nat);
        let mut j: usize = 0;
        while j < limit
            invariant
                lp == p@.len(),
                n == res@.len(),
                vp == felts(p@),
                vq == felts(q@),
                1 <= i < lp,
                qp == fp_power(vq, i as nat),
                felts(q_power@) == qp,
                limit <= n,
                limit <= q_power@.len(),
                limit == n || limit == q_power@.len(),
                j <= limit,
                forall|t: int|
                    0 <= t < n ==> (#[trigger] res@[t])@ == if t < j {
                        fp_compose_coeff(vp, vq, t, (i + 1) as nat)
                    } else {
                        fp_compose_coeff(vp, vq, t, i as nat)
                    },
            decreases limit - j,
        {
            let mut term = Felt::zero();
            proof {
                assert(qp[j as int] == q_power@[j as int]@);
            }
            fmul(&p[i], &q_power[j], &mut term);
            let temp = res[j];
            let mut sum = Felt::zero();
            fadd(&term, &temp, &mut sum);
            res[j] = sum;
            j = j + 1;
        }
        i = i + 1;
    }
    proof {
        assert(felts(res@) =~= fp_compose(vp, vq, n as nat));
    }
}

} // verus!
