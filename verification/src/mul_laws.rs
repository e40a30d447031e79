//! Laws that tie the transform to polynomial multiplication: units of the
//! field that the inverse transform needs, the round trip, and the
//! convolution theorem.

use crate::eval::{lemma_eval_coeffs, lemma_eval_constant, lemma_eval_pad, poly_eval};
use crate::field::{field_inv, field_mul, field_pow, modulus, reduced};
use crate::field_lemmas::{
    cong, lemma_cong_mod, lemma_cong_mul, lemma_cong_reduced, lemma_field_ops, lemma_field_pow_mul,
    lemma_field_pow_of_one, lemma_field_pow_succ,
};
use crate::ntt_laws::{lemma_inverse_entry, lemma_ntt_evaluates};
use crate::ntt_spec::{lemma_ntt_len, ntt};
use crate::poly::{conv_sum, hadamard, pad, poly_mul, product_len, scale};
use crate::roots::{
    lemma_order_quotient, lemma_principal_is_primitive, lemma_root_is_principal,
    lemma_supported_order_divides, ordered_root_of, principal_root, root_of_unity,
    supported_order,
};
use crate::sums::{
    lemma_sum_eq, lemma_sum_exchange, lemma_sum_scale, lemma_sum_split, lemma_sum_zero, sum,
};
use vstd::arithmetic::div_mod::lemma_fundamental_div_mod;
use vstd::arithmetic::power::{lemma_pow_adds, pow};
use vstd::arithmetic::power2::{lemma2_to64, lemma_pow2_pos, pow2};
use vstd::prelude::*;

verus! {

/// An element whose `e`-th power is one, for an `e` that divides `p - 1`,
/// is a unit, and Fermat's exponent gives its inverse.
pub proof fn lemma_inverse_from_order(a: int, e: nat)
    requires
        e >= 1,
        (modulus() - 1) % (e as int) == 0,
        field_pow(a, e) == 1,
    ensures
        field_mul(a, field_inv(a)) == 1,
{
    let p = modulus();
    let q = (p - 1) / (e as int);
    lemma_fundamental_div_mod(p - 1, e as int);
    assert(q >= 0) by (nonlinear_arith)
        requires
            p - 1 == (e as int) * q,
            e >= 1,
            p - 1 > 0,
    ;
    lemma_field_pow_mul(a, e, q as nat);
    lemma_field_pow_of_one(q as nat);
    assert(e * (q as nat) == p - 1);
    lemma_field_pow_succ(a, (p - 2) as nat);
}

/// The root of order `2^k` is a unit.
pub proof fn lemma_root_unit(k: nat)
    requires
        k <= 32,
    ensures
        field_mul(root_of_unity(k), field_inv(root_of_unity(k))) == 1,
{
    let w = root_of_unity(k);
    lemma_root_is_principal(k);
    lemma_principal_is_primitive(w, k);
    lemma_pow2_pos(k);
    assert(supported_order(pow2(k) as int));
    lemma_supported_order_divides(pow2(k) as int);
    lemma_inverse_from_order(w, pow2(k));
}

/// Every power of two is a unit.
pub proof fn lemma_pow2_unit(k: nat)
    ensures
        field_mul(pow2(k) as int, field_inv(pow2(k) as int)) == 1,
{
    let p = modulus();
    // 2^192 is one
    lemma2_to64();
    vstd::arithmetic::power::lemma_pow_positive(2, 64);
    assert(pow(2, 64) == 0x1_0000_0000_0000_0000int);
    assert(field_pow(2, 64) == 0xffff_ffffint);
    lemma_field_pow_mul(2, 64, 3);
    assert(field_pow(0xffff_ffff, 3) == 1) by {
        lemma_field_pow_succ(0xffff_ffff, 2);
        lemma_field_pow_succ(0xffff_ffff, 1);
        lemma_field_pow_succ(0xffff_ffff, 0);
        crate::field_lemmas::lemma_field_pow_zero(0xffff_ffff);
        assert(field_mul(0xffff_ffff, 1) == 0xffff_ffffint);
        assert(field_mul(0xffff_ffff, 0xffff_ffff) == 0xfffffffe00000001int);
        assert(field_mul(0xffff_ffff, 0xfffffffe00000001) == 1);
    }
    assert(field_pow(2, 192) == 1);
    // (2^k)^192 = (2^192)^k
    lemma_field_pow_mul(2, k, 192);
    lemma_field_pow_mul(2, 192, k);
    assert(k * 192 == 192 * k);
    lemma_field_pow_of_one(k);
    let a = pow2(k) as int;
    lemma_pow2_pos(k);
    vstd::arithmetic::power::lemma_pow_positive(2, k);
    assert(a == pow(2, k));
    assert(field_pow(field_pow(2, k), 192) == 1);
    crate::field_lemmas::lemma_field_pow_cong(2, k);
    crate::field_lemmas::lemma_field_pow_base(field_pow(2, k), a, 192);
    assert((p - 1) % 192 == 0);
    lemma_inverse_from_order(a, 192);
}

/// The transform with an inverse root, scaled by an inverse of the length,
/// recovers the coefficients from the values at the powers of the root.
pub proof fn lemma_interpolates(
    c: Seq<int>,
    y: Seq<int>,
    w: int,
    winv: int,
    ninv: int,
    k: nat,
)
    requires
        c.len() == pow2(k),
        y.len() == pow2(k),
        principal_root(w, k),
        field_mul(w, winv) == 1,
        field_mul(pow2(k) as int, ninv) == 1,
        forall|i: int| 0 <= i < c.len() ==> reduced(#[trigger] c[i]),
        forall|i: int|
            0 <= i < y.len() ==> cong(#[trigger] y[i], poly_eval(c, field_pow(w, i as nat))),
    ensures
        scale(ntt(y, winv), ninv) == c,
{
    let n = pow2(k) as int;
    let z = ntt(y, winv);
    lemma_ntt_len(y, winv, k);
    let s = scale(z, ninv);
    assert forall|t: int| 0 <= t < n implies s[t] == c[t] by {
        lemma_inverse_entry(c, y, w, winv, k, t);
        lemma_field_ops(z[t], ninv);
        lemma_cong_mul(z[t], n * c[t], ninv, ninv);
        assert((n * c[t]) * ninv == c[t] * (n * ninv)) by (nonlinear_arith);
        lemma_field_ops(n, ninv);
        lemma_cong_mul(c[t], c[t], n * ninv, 1);
        assert(c[t] * 1 == c[t]);
        assert(reduced(c[t]));
        lemma_cong_reduced(s[t], c[t]);
    }
    assert(s =~= c);
}

/// Round trip: for an input of `2^k` reduced entries, `k <= 32`, the
/// transform with the root of that order, followed by the transform with
/// the inverse root and scaling by the inverse of the length, gives the
/// input back.
pub proof fn lemma_round_trip(x: Seq<int>, k: nat)
    requires
        k <= 32,
        x.len() == pow2(k),
        forall|i: int| 0 <= i < x.len() ==> reduced(#[trigger] x[i]),
    ensures
        scale(
            ntt(ntt(x, root_of_unity(k)), field_inv(root_of_unity(k))),
            field_inv(pow2(k) as int),
        ) == x,
        root_of_unity(k) == ordered_root_of(x.len() as int),
{
    let w = root_of_unity(k);
    let y = ntt(x, w);
    lemma_root_is_principal(k);
    lemma_root_unit(k);
    lemma_pow2_unit(k);
    lemma_ntt_len(x, w, k);
    lemma_order_quotient(k);
    assert forall|i: int| 0 <= i < y.len() implies cong(
        #[trigger] y[i],
        poly_eval(x, field_pow(w, i as nat)),
    ) by {
        lemma_ntt_evaluates(x, w, k, i);
    }
    lemma_interpolates(x, y, w, field_inv(w), field_inv(pow2(k) as int), k);
}

/// The coefficients of the product of two polynomials as ordinary
/// integers: entry `k` is the sum of the `a[i] * b[k - i]`.
pub open spec fn conv(a: Seq<int>, b: Seq<int>) -> Seq<int> {
    Seq::new((a.len() + b.len() - 1) as nat, |k: int| conv_sum(a, b, k, a.len()))
}

/// The term of `a[i] * b[k - i]` in coefficient `k` of the product.
pub open spec fn conv_term(a: Seq<int>, b: Seq<int>, k: int, i: int) -> int {
    if 0 <= k - i < b.len() {
        a[i] * b[k - i]
    } else {
        0
    }
}

/// `conv_sum` is the sum of its terms.
pub proof fn lemma_conv_sum(a: Seq<int>, b: Seq<int>, k: int, upto: nat)
    ensures
        conv_sum(a, b, k, upto) == sum(|i: int| conv_term(a, b, k, i), upto),
    decreases upto,
{
    if upto > 0 {
        lemma_conv_sum(a, b, k, (upto - 1) as nat);
    }
}

/// With an empty operand every coefficient of the product is zero.
pub proof fn lemma_conv_empty(a: Seq<int>, b: Seq<int>, k: int, upto: nat)
    requires
        a.len() == 0 || b.len() == 0,
        upto <= a.len(),
    ensures
        conv_sum(a, b, k, upto) == 0,
    decreases upto,
{
    if upto > 0 {
        lemma_conv_empty(a, b, k, (upto - 1) as nat);
    }
}

/// Evaluation is multiplicative: the value of the product is the product
/// of the values.
pub proof fn lemma_eval_product(a: Seq<int>, b: Seq<int>, x: int)
    requires
        a.len() >= 1,
        b.len() >= 1,
    ensures
        poly_eval(conv(a, b), x) == poly_eval(a, x) * poly_eval(b, x),
{
    let la = a.len();
    let lb = b.len();
    let n = (la + lb - 1) as nat;
    let c = conv(a, b);
    let pb = poly_eval(b, x);
    let fb = |j: int| b[j] * pow(x, j as nat);
    let fa = |i: int| a[i] * pow(x, i as nat);
    // rows: coefficient k times x^k; columns: everything that a[i] contributes
    let f = |k: int, i: int| pow(x, k as nat) * conv_term(a, b, k, i);
    let row = |k: int| c[k] * pow(x, k as nat);
    let col = |i: int| sum(|k: int| f(k, i), n);
    assert forall|k: int| 0 <= k < n implies #[trigger] row(k) == sum(|i: int| f(k, i), la) by {
        lemma_conv_sum(a, b, k, la);
        lemma_sum_scale(|i: int| conv_term(a, b, k, i), |i: int| f(k, i), pow(x, k as nat), la);
        assert(c[k] * pow(x, k as nat) == pow(x, k as nat) * c[k]) by (nonlinear_arith);
    }
    lemma_sum_exchange(f, row, col, n, la);
    let scaled = |i: int| pb * fa(i);
    assert forall|i: int| 0 <= i < la implies #[trigger] col(i) == scaled(i) by {
        let g = |k: int| f(k, i);
        // the terms before i are zero, then come lb terms, then zeros
        let mid = |j: int| g(i + j);
        let rest = |j: int| g(i + lb + j);
        let tail = |j: int| g(i + j);
        lemma_sum_split(g, tail, i as nat, (n - i) as nat);
        assert forall|k: int| 0 <= k < i implies #[trigger] g(k) == 0 by {
            assert(pow(x, k as nat) * 0 == 0);
        }
        lemma_sum_zero(g, i as nat);
        let rest2 = |j: int| tail(lb + j);
        lemma_sum_split(tail, rest2, lb, (n - i - lb) as nat);
        assert forall|j: int| 0 <= j < n - i - lb implies #[trigger] rest2(j) == 0 by {
            assert(pow(x, (i + (lb + j)) as nat) * 0 == 0);
        }
        lemma_sum_zero(rest2, (n - i - lb) as nat);
        let want = |j: int| fa(i) * fb(j);
        assert forall|j: int| 0 <= j < lb implies #[trigger] tail(j) == want(j) by {
            lemma_pow_adds(x, i as nat, j as nat);
            let xi = pow(x, i as nat);
            let xj = pow(x, j as nat);
            assert(conv_term(a, b, i + j, i) == a[i] * b[j]);
            assert((xi * xj) * (a[i] * b[j]) == (a[i] * xi) * (b[j] * xj)) by (nonlinear_arith);
        }
        lemma_sum_eq(tail, want, lb);
        lemma_sum_scale(fb, want, fa(i), lb);
        assert(fa(i) * pb == pb * fa(i)) by (nonlinear_arith);
    }
    lemma_sum_eq(col, scaled, la);
    lemma_sum_scale(fa, scaled, pb, la);
    assert(pb * poly_eval(a, x) == poly_eval(a, x) * pb) by (nonlinear_arith);
}

/// The convolution theorem: pad both operands to `n = 2^k` entries, where
/// `n` is at least the length of the product; transform both, multiply
/// pointwise, transform back with the inverse root and scale by the
/// inverse of `n`. The first entries of the result are the product of the
/// two polynomials, the rest is zero.
pub proof fn lemma_convolution(
    a: Seq<int>,
    b: Seq<int>,
    w: int,
    winv: int,
    ninv: int,
    k: nat,
)
    requires
        a.len() <= pow2(k),
        b.len() <= pow2(k),
        product_len(a.len(), b.len()) <= pow2(k),
        principal_root(w, k),
        field_mul(w, winv) == 1,
        field_mul(pow2(k) as int, ninv) == 1,
    ensures
        scale(
            ntt(hadamard(ntt(pad(a, pow2(k)), w), ntt(pad(b, pow2(k)), w)), winv),
            ninv,
        ) == pad(poly_mul(a, b), pow2(k)),
{
    let n = pow2(k);
    let pa = pad(a, n);
    let pb = pad(b, n);
    let ya = ntt(pa, w);
    let yb = ntt(pb, w);
    lemma_ntt_len(pa, w, k);
    lemma_ntt_len(pb, w, k);
    let y = hadamard(ya, yb);
    let prod = poly_mul(a, b);
    let c = pad(prod, n);
    assert forall|i: int| 0 <= i < c.len() implies reduced(#[trigger] c[i]) by {
        if i < prod.len() {
            lemma_cong_mod(conv_sum(a, b, i, a.len()));
        }
    }
    assert forall|i: int| 0 <= i < n implies cong(
        #[trigger] y[i],
        poly_eval(c, field_pow(w, i as nat)),
    ) by {
        let x = field_pow(w, i as nat);
        lemma_ntt_evaluates(pa, w, k, i);
        lemma_ntt_evaluates(pb, w, k, i);
        lemma_eval_pad(a, n, x);
        lemma_eval_pad(b, n, x);
        lemma_eval_pad(prod, n, x);
        lemma_field_ops(ya[i], yb[i]);
        lemma_cong_mul(ya[i], poly_eval(a, x), yb[i], poly_eval(b, x));
        if a.len() == 0 || b.len() == 0 {
            lemma_conv_empty(a, b, 0, a.len());
            lemma_eval_constant(prod, x);
            if a.len() == 0 {
                assert(poly_eval(a, x) == 0);
                assert(0 * poly_eval(b, x) == 0);
            } else {
                assert(poly_eval(b, x) == 0);
                assert(poly_eval(a, x) * 0 == 0);
            }
        } else {
            lemma_eval_product(a, b, x);
            let cv = conv(a, b);
            assert forall|j: int| 0 <= j < cv.len() implies cong(#[trigger] cv[j], prod[j]) by {
                lemma_cong_mod(cv[j]);
            }
            lemma_eval_coeffs(cv, prod, x);
        }
    }
    lemma_interpolates(c, y, w, winv, ninv, k);
}

/// The value of the shifted polynomial at `x` is the value of the
/// polynomial at `c * x`.
pub proof fn lemma_eval_shift(f: Seq<int>, c: int, x: int)
    ensures
        cong(poly_eval(crate::poly::shift(f, c), x), poly_eval(f, c * x)),
{
    let g = crate::poly::shift(f, c);
    let fg = |j: int| g[j] * pow(x, j as nat);
    let ff = |j: int| f[j] * pow(c * x, j as nat);
    assert forall|j: int| 0 <= j < f.len() implies cong(#[trigger] fg(j), ff(j)) by {
        let cj = pow(c, j as nat);
        let xj = pow(x, j as nat);
        lemma_field_ops(f[j], field_pow(c, j as nat));
        crate::field_lemmas::lemma_field_pow_cong(c, j as nat);
        lemma_cong_mul(f[j], f[j], field_pow(c, j as nat), cj);
        lemma_cong_mul(g[j], f[j] * cj, xj, xj);
        vstd::arithmetic::power::lemma_pow_distributes(c, x, j as nat);
        assert((f[j] * cj) * xj == f[j] * (cj * xj)) by (nonlinear_arith);
    }
    crate::sums::lemma_sum_cong(fg, ff, f.len());
}

/// Shifting by an element and then by its inverse gives a polynomial with
/// reduced coefficients back.
pub proof fn lemma_shift_back(f: Seq<int>, c: int)
    requires
        c % modulus() != 0,
        forall|i: int| 0 <= i < f.len() ==> reduced(#[trigger] f[i]),
    ensures
        crate::poly::shift(crate::poly::shift(f, c), field_inv(c)) == f,
{
    let g = crate::poly::shift(f, c);
    let h = crate::poly::shift(g, field_inv(c));
    crate::units::lemma_field_inverse(c);
    assert forall|j: int| 0 <= j < f.len() implies h[j] == f[j] by {
        let cj = field_pow(c, j as nat);
        let dj = field_pow(field_inv(c), j as nat);
        crate::field_lemmas::lemma_field_pow_of_product(c, field_inv(c), j as nat);
        lemma_field_pow_of_one(j as nat);
        assert(field_mul(cj, dj) == 1);
        crate::field_lemmas::lemma_field_mul_laws(f[j], cj, dj);
        crate::field_lemmas::lemma_field_mul_laws(f[j], 0, 0);
        assert(reduced(f[j]));
        vstd::arithmetic::div_mod::lemma_small_mod(f[j] as nat, modulus() as nat);
    }
    assert(h =~= f);
}

/// The inverse coset transform interpolates: from the values of a
/// polynomial with reduced coefficients at the points `offset * w^i`,
/// where `w` is the root of the order, it recovers the coefficients.
pub proof fn lemma_intercosate_interpolates(f: Seq<int>, vals: Seq<int>, offset: int, k: nat)
    requires
        k <= 32,
        f.len() == pow2(k),
        vals.len() == pow2(k),
        offset % modulus() != 0,
        forall|i: int| 0 <= i < f.len() ==> reduced(#[trigger] f[i]),
        forall|i: int|
            0 <= i < vals.len() ==> cong(
                #[trigger] vals[i],
                poly_eval(f, field_mul(offset, field_pow(root_of_unity(k), i as nat))),
            ),
    ensures
        crate::domain_cache::intercosate(vals, offset, pow2(k) as int) == f,
{
    let w = root_of_unity(k);
    let g = crate::poly::shift(f, offset);
    lemma_root_is_principal(k);
    lemma_root_unit(k);
    lemma_pow2_unit(k);
    lemma_order_quotient(k);
    assert forall|i: int| 0 <= i < g.len() implies reduced(#[trigger] g[i]) by {
        lemma_field_ops(f[i], field_pow(offset, i as nat));
    }
    assert forall|i: int| 0 <= i < vals.len() implies cong(
        #[trigger] vals[i],
        poly_eval(g, field_pow(w, i as nat)),
    ) by {
        let x = field_pow(w, i as nat);
        lemma_eval_shift(f, offset, x);
        lemma_field_ops(offset, x);
        crate::eval::lemma_eval_point(f, field_mul(offset, x), offset * x);
    }
    lemma_interpolates(g, vals, w, field_inv(w), field_inv(pow2(k) as int), k);
    lemma_shift_back(f, offset);
}

/// The value of a scaled polynomial is the scaled value.
pub proof fn lemma_eval_scale(z: Seq<int>, s: int, x: int)
    ensures
        cong(poly_eval(scale(z, s), x), s * poly_eval(z, x)),
{
    let c = scale(z, s);
    let fc = |j: int| c[j] * pow(x, j as nat);
    let fz = |j: int| z[j] * pow(x, j as nat);
    let fs = |j: int| s * fz(j);
    assert forall|j: int| 0 <= j < z.len() implies cong(#[trigger] fc(j), fs(j)) by {
        let xj = pow(x, j as nat);
        lemma_field_ops(z[j], s);
        lemma_cong_mul(c[j], z[j] * s, xj, xj);
        assert((z[j] * s) * xj == s * (z[j] * xj)) by (nonlinear_arith);
    }
    crate::sums::lemma_sum_cong(fc, fs, z.len());
    lemma_sum_scale(fz, fs, s, z.len());
}

/// The inverse transform interpolates: its result is the polynomial whose
/// values at the powers of the root of the order are the input.
pub proof fn lemma_ifft_interpolates(y: Seq<int>, k: nat, t: int)
    requires
        k <= 32,
        y.len() == pow2(k),
        0 <= t < y.len(),
    ensures
        cong(
            poly_eval(
                scale(ntt(y, field_inv(root_of_unity(k))), field_inv(pow2(k) as int)),
                field_pow(root_of_unity(k), t as nat),
            ),
            y[t],
        ),
{
    let n = pow2(k) as int;
    let w = root_of_unity(k);
    let winv = field_inv(w);
    let ninv = field_inv(n);
    let z = ntt(y, winv);
    let x = field_pow(w, t as nat);
    lemma_root_is_principal(k);
    lemma_root_unit(k);
    lemma_pow2_unit(k);
    crate::ntt_laws::lemma_inverse_principal(w, winv, k);
    crate::field_lemmas::lemma_field_mul_laws(w, winv, 0);
    lemma_ntt_len(y, winv, k);
    assert forall|i: int| 0 <= i < z.len() implies cong(
        #[trigger] z[i],
        poly_eval(y, field_pow(winv, i as nat)),
    ) by {
        lemma_ntt_evaluates(y, winv, k, i);
    }
    // the transform of z with w is n times y
    lemma_inverse_entry(y, z, winv, w, k, t);
    lemma_ntt_evaluates(z, w, k, t);
    lemma_eval_scale(z, ninv, x);
    lemma_cong_mul(ninv, ninv, poly_eval(z, x), n * y[t]);
    assert(ninv * (n * y[t]) == y[t] * (n * ninv)) by (nonlinear_arith);
    lemma_field_ops(n, ninv);
    lemma_cong_mul(y[t], y[t], n * ninv, 1);
    assert(y[t] * 1 == y[t]);
}

} // verus!
