//! Laws of the transform: with a principal root it evaluates the input
//! polynomial at the powers of the root, and the transform with the
//! inverse root, scaled by the inverse of the length, undoes it.

use crate::bits::lemma_pow2_zero;
use crate::eval::{lemma_eval_constant, lemma_eval_point, lemma_eval_split, poly_eval};
use crate::field::{field_mul, field_pow, modulus, reduced};
use crate::field_lemmas::{
    cong, lemma_cong_add, lemma_cong_mul, lemma_cong_pow, lemma_cong_sub, lemma_field_ops,
    lemma_field_mul_laws, lemma_field_pow_add, lemma_field_pow_cong, lemma_field_pow_mul,
    lemma_field_pow_of_one, lemma_field_pow_of_product, lemma_field_pow_one,
    lemma_field_pow_square_base,
};
use crate::ntt_spec::{evens, lemma_ntt_len, ntt, odds};
use crate::roots::{lemma_minus_one_powers, lemma_minus_one_squared, principal_root};
use crate::sums::{
    lemma_sum_cong, lemma_sum_exchange, lemma_sum_scale, lemma_sum_single, lemma_sum_split, sum,
};
use vstd::arithmetic::power::{lemma1_pow, lemma_pow_adds, lemma_pow_distributes, pow};
use vstd::arithmetic::power2::{lemma_pow2_pos, lemma_pow2_unfold, pow2};
use vstd::prelude::*;

verus! {

/// The square of a principal root of order `2^k` is a principal root of
/// order `2^(k-1)`.
pub proof fn lemma_principal_square(w: int, k: nat)
    requires
        k >= 1,
        principal_root(w, k),
    ensures
        principal_root(field_mul(w, w), (k - 1) as nat),
{
    if k == 1 {
        lemma_pow2_zero();
        lemma_field_pow_one(w);
        // w is -1 modulo the prime, so its square is 1
        vstd::arithmetic::div_mod::lemma_mul_mod_noop(w, w, modulus());
        assert(field_mul(0xffff_ffff_0000_0000, 0xffff_ffff_0000_0000) == 1);
        vstd::arithmetic::div_mod::lemma_mod_twice(w * w, modulus());
    } else {
        lemma_pow2_unfold((k - 1) as nat);
        lemma_field_pow_square_base(w, pow2((k - 2) as nat));
    }
}

/// With a principal root of order `n = 2^k`, entry `i` of the transform is
/// congruent to the value of the input polynomial at the `i`-th power of
/// the root.
pub proof fn lemma_ntt_evaluates(x: Seq<int>, w: int, k: nat, i: int)
    requires
        x.len() == pow2(k),
        principal_root(w, k),
        0 <= i < x.len(),
    ensures
        cong(ntt(x, w)[i], poly_eval(x, field_pow(w, i as nat))),
    decreases k,
{
    if k == 0 {
        lemma_pow2_zero();
        lemma_eval_constant(x, field_pow(w, i as nat));
    } else {
        let h = pow2((k - 1) as nat);
        lemma_pow2_unfold(k);
        lemma_pow2_pos((k - 1) as nat);
        let ww = field_mul(w, w);
        let ev = evens(x);
        let od = odds(x);
        let e = ntt(ev, ww);
        let o = ntt(od, ww);
        lemma_ntt_len(ev, ww, (k - 1) as nat);
        lemma_ntt_len(od, ww, (k - 1) as nat);
        let r: int = if i < h {
            i
        } else {
            i - h
        };
        lemma_principal_square(w, k);
        lemma_ntt_evaluates(ev, ww, (k - 1) as nat, r);
        lemma_ntt_evaluates(od, ww, (k - 1) as nat, r);
        let zr = field_pow(w, r as nat);
        let z = field_pow(w, i as nat);
        let zz = field_pow(ww, r as nat);
        // zz is zr squared, and z is zr or its negative
        lemma_field_pow_square_base(w, r as nat);
        lemma_field_pow_add(w, r as nat, r as nat);
        lemma_field_ops(zr, zr);
        assert(cong(zz, zr * zr));
        if i < h {
            assert(z == zr);
        } else {
            lemma_field_pow_add(w, r as nat, h);
            assert(z == field_mul(zr, modulus() - 1));
            lemma_field_ops(zr, modulus() - 1);
            assert(cong(modulus() - 1, -1)) by {
                vstd::arithmetic::div_mod::lemma_mod_add_multiples_vanish(-1, modulus());
            }
            lemma_cong_mul(zr, zr, modulus() - 1, -1);
            assert(zr * (-1) == -zr);
            assert(cong(z, -zr));
            lemma_cong_mul(z, -zr, z, -zr);
            assert((-zr) * (-zr) == zr * zr) by (nonlinear_arith);
        }
        assert(cong(z * z, zz));
        // the value at z from the two halves
        lemma_eval_split(x, z, h);
        lemma_eval_point(ev, z * z, zz);
        lemma_eval_point(od, z * z, zz);
        let pe = poly_eval(ev, z * z);
        let po = poly_eval(od, z * z);
        assert(cong(pe, e[r]));
        assert(cong(po, o[r]));
        lemma_cong_mul(z, z, po, o[r]);
        lemma_cong_add(pe, e[r], z * po, z * o[r]);
        assert(cong(poly_eval(x, z), e[r] + z * o[r]));
        let t = field_mul(o[r], zr);
        lemma_field_ops(o[r], zr);
        if i < h {
            lemma_field_ops(e[r], t);
            lemma_cong_add(e[r], e[r], t, o[r] * zr);
            assert(o[r] * zr == z * o[r]) by (nonlinear_arith)
                requires
                    z == zr,
            ;
        } else {
            lemma_field_ops(e[r], t);
            lemma_cong_sub(e[r], e[r], t, o[r] * zr);
            lemma_cong_mul(z, -zr, o[r], o[r]);
            assert((-zr) * o[r] == -(o[r] * zr)) by (nonlinear_arith);
            lemma_cong_add(e[r], e[r], z * o[r], -(o[r] * zr));
        }
    }
}

/// The geometric sum `1 + v + ... + v^(n-1)`, not reduced.
pub open spec fn geo(v: int, n: nat) -> int {
    sum(|i: int| pow(v, i as nat), n)
}

/// The geometric sum of `a + b` terms from those of `a` and of `b` terms.
pub proof fn lemma_geo_split(v: int, a: nat, b: nat)
    ensures
        geo(v, a + b) == geo(v, a) + pow(v, a) * geo(v, b),
{
    let f = |i: int| pow(v, i as nat);
    let g = |i: int| f(a + i);
    lemma_sum_split(f, g, a, b);
    assert forall|i: int| 0 <= i < b implies #[trigger] g(i) == pow(v, a) * f(i) by {
        lemma_pow_adds(v, a, i as nat);
    }
    lemma_sum_scale(f, g, pow(v, a), b);
}

/// The geometric sum with ratio one counts its terms.
pub proof fn lemma_geo_one(n: nat)
    ensures
        geo(1, n) == n,
    decreases n,
{
    if n > 0 {
        lemma_geo_one((n - 1) as nat);
        lemma1_pow((n - 1) as nat);
        let f = |i: int| pow(1, i as nat);
        assert(sum(f, n) == sum(f, (n - 1) as nat) + f(n - 1));
    }
}

/// Over a full period, the powers of a principal root other than one sum
/// to zero: for `0 < d < 2^k` the geometric sum of `2^k` terms with ratio
/// `r^d` is congruent to zero.
pub proof fn lemma_geo_vanishes(r: int, k: nat, d: nat)
    requires
        k >= 1,
        principal_root(r, k),
        0 < d < pow2(k),
    ensures
        cong(geo(field_pow(r, d), pow2(k)), 0),
    decreases k,
{
    let p = modulus();
    let h = pow2((k - 1) as nat);
    lemma_pow2_unfold(k);
    lemma_pow2_pos((k - 1) as nat);
    let v = field_pow(r, d);
    lemma_geo_split(v, h, h);
    let gh = geo(v, h);
    // v^h in the field
    lemma_field_pow_cong(v, h);
    lemma_field_pow_mul(r, d, h);
    lemma_field_pow_mul(r, h, d);
    assert(d * h == h * d) by (nonlinear_arith);
    assert(field_pow(v, h) == field_pow(modulus() - 1, d));
    lemma_minus_one_powers(d);
    if d % 2 == 1 {
        assert(cong(pow(v, h), -1)) by {
            vstd::arithmetic::div_mod::lemma_mod_add_multiples_vanish(-1, p);
        }
        lemma_cong_mul(pow(v, h), -1, gh, gh);
        lemma_cong_add(gh, gh, pow(v, h) * gh, (-1) * gh);
    } else {
        let e = d / 2;
        let rr = field_mul(r, r);
        lemma_principal_square(r, k);
        lemma_field_pow_square_base(r, e);
        assert(v == field_pow(rr, e));
        if k == 1 {
            lemma_pow2_zero();
            assert(false);
        }
        lemma_geo_vanishes(rr, (k - 1) as nat, e);
        assert(cong(gh, 0));
        lemma_cong_mul(pow(v, h), pow(v, h), gh, 0);
        assert(pow(v, h) * 0 == 0);
        lemma_cong_add(gh, 0, pow(v, h) * gh, 0);
    }
}

/// An inverse of a principal root is a principal root of the same order.
pub proof fn lemma_inverse_principal(w: int, winv: int, k: nat)
    requires
        principal_root(w, k),
        field_mul(w, winv) == 1,
    ensures
        principal_root(winv, k),
{
    let p = modulus();
    if k == 0 {
        vstd::arithmetic::div_mod::lemma_mul_mod_noop_left(w, winv, p);
        assert(1 * winv == winv);
    } else {
        let h = pow2((k - 1) as nat);
        let x = field_pow(winv, h);
        lemma_field_pow_of_product(w, winv, h);
        lemma_field_pow_of_one(h);
        assert(field_mul(p - 1, x) == 1);
        lemma_field_mul_laws(p - 1, p - 1, x);
        lemma_minus_one_squared();
        lemma_field_pow_cong(winv, h);
        lemma_field_mul_laws(x, 0, 0);
        vstd::arithmetic::div_mod::lemma_small_mod(x as nat, p as nat);
    }
}

/// The product of the `j`-th power of a principal root and the `t`-th
/// power of its inverse sums to `n` over a full period if `j == t`, and to
/// zero otherwise.
proof fn lemma_orthogonal(w: int, winv: int, k: nat, j: int, t: int)
    requires
        principal_root(w, k),
        field_mul(w, winv) == 1,
        0 <= j < pow2(k),
        0 <= t < pow2(k),
    ensures
        cong(
            geo(field_mul(field_pow(w, j as nat), field_pow(winv, t as nat)), pow2(k)),
            if j == t {
                pow2(k) as int
            } else {
                0
            },
        ),
{
    let n = pow2(k);
    let v = field_mul(field_pow(w, j as nat), field_pow(winv, t as nat));
    lemma_inverse_principal(w, winv, k);
    if j == t {
        lemma_field_pow_of_product(w, winv, j as nat);
        lemma_field_pow_of_one(j as nat);
        assert(v == 1);
        lemma_geo_one(n);
    } else {
        if k == 0 {
            lemma_pow2_zero();
        }
        if j > t {
            let d = (j - t) as nat;
            lemma_field_pow_add(w, d, t as nat);
            lemma_field_pow_of_product(w, winv, t as nat);
            lemma_field_pow_of_one(t as nat);
            // v = (w^d * w^t) * winv^t = w^d * (w^t * winv^t) = w^d
            lemma_field_mul_laws(
                field_pow(w, d),
                field_pow(w, t as nat),
                field_pow(winv, t as nat),
            );
            lemma_field_mul_laws(field_pow(w, d), 0, 0);
            lemma_field_pow_cong(w, d);
            vstd::arithmetic::div_mod::lemma_small_mod(field_pow(w, d) as nat, modulus() as nat);
            assert(v == field_pow(w, d));
            lemma_geo_vanishes(w, k, d);
        } else {
            let d = (t - j) as nat;
            lemma_field_pow_add(winv, j as nat, d);
            lemma_field_pow_of_product(w, winv, j as nat);
            lemma_field_pow_of_one(j as nat);
            // v = w^j * (winv^j * winv^d) = (w^j * winv^j) * winv^d = winv^d
            lemma_field_mul_laws(
                field_pow(w, j as nat),
                field_pow(winv, j as nat),
                field_pow(winv, d),
            );
            lemma_field_mul_laws(field_pow(winv, d), 0, 0);
            lemma_field_pow_cong(winv, d);
            vstd::arithmetic::div_mod::lemma_small_mod(field_pow(winv, d) as nat, modulus() as nat);
            assert(v == field_pow(winv, d));
            lemma_geo_vanishes(winv, k, d);
        }
    }
}

/// If `y` holds the values of the polynomial `c` at the powers of a
/// principal root, then the transform of `y` with the inverse root holds
/// the coefficients of `c`, each multiplied by the length.
pub proof fn lemma_inverse_entry(c: Seq<int>, y: Seq<int>, w: int, winv: int, k: nat, t: int)
    requires
        c.len() == pow2(k),
        y.len() == pow2(k),
        principal_root(w, k),
        field_mul(w, winv) == 1,
        forall|i: int|
            0 <= i < y.len() ==> cong(#[trigger] y[i], poly_eval(c, field_pow(w, i as nat))),
        0 <= t < pow2(k),
    ensures
        cong(ntt(y, winv)[t], pow2(k) * c[t]),
{
    let n = pow2(k);
    let ut = field_pow(winv, t as nat);
    lemma_inverse_principal(w, winv, k);
    lemma_ntt_evaluates(y, winv, k, t);
    // the value of y at ut, term by term
    let fy = |i: int| y[i] * pow(ut, i as nat);
    let row = |i: int| pow(ut, i as nat) * poly_eval(c, field_pow(w, i as nat));
    assert forall|i: int| 0 <= i < n implies cong(#[trigger] fy(i), row(i)) by {
        assert(cong(y[i], poly_eval(c, field_pow(w, i as nat))));
        let value = poly_eval(c, field_pow(w, i as nat));
        let power = pow(ut, i as nat);
        lemma_cong_mul(y[i], value, power, power);
        assert(value * power == power * value) by (nonlinear_arith);
    }
    lemma_sum_cong(fy, row, n);
    // exchange the two sums
    let f = |i: int, j: int| pow(ut, i as nat) * (c[j] * pow(field_pow(w, i as nat), j as nat));
    let col = |j: int| sum(|i: int| f(i, j), n);
    assert forall|i: int| 0 <= i < n implies #[trigger] row(i) == sum(|j: int| f(i, j), n) by {
        let inner = |j: int| c[j] * pow(field_pow(w, i as nat), j as nat);
        lemma_sum_scale(inner, |j: int| f(i, j), pow(ut, i as nat), n);
    }
    lemma_sum_exchange(f, row, col, n, n);
    // each column is a geometric sum
    let pick = |j: int|
        if j == t {
            n * c[j]
        } else {
            0
        };
    assert forall|j: int| 0 <= j < n implies cong(#[trigger] col(j), pick(j)) by {
        let v = field_mul(field_pow(w, j as nat), ut);
        let fj = |i: int| f(i, j);
        let gj = |i: int| c[j] * pow(v, i as nat);
        assert forall|i: int| 0 <= i < n implies cong(#[trigger] fj(i), gj(i)) by {
            lemma_power_swap(w, ut, i as nat, j as nat);
            let a = pow(ut, i as nat);
            let b = pow(field_pow(w, i as nat), j as nat);
            lemma_cong_mul(c[j], c[j], a * b, pow(v, i as nat));
            assert(a * (c[j] * b) == c[j] * (a * b)) by (nonlinear_arith);
        }
        lemma_sum_cong(fj, gj, n);
        lemma_sum_scale(|i: int| pow(v, i as nat), gj, c[j], n);
        lemma_orthogonal(w, winv, k, j, t);
        let target: int = if j == t {
            n as int
        } else {
            0
        };
        lemma_cong_mul(c[j], c[j], geo(v, n), target);
        if j == t {
            assert(c[j] * (n as int) == n * c[j]) by (nonlinear_arith);
        } else {
            assert(c[j] * 0 == 0);
        }
    }
    lemma_sum_cong(col, pick, n);
    lemma_sum_single(pick, t, n);
}

/// `u^i * (w^i)^j` is congruent to `(w^j * u)^i`.
proof fn lemma_power_swap(w: int, u: int, i: nat, j: nat)
    ensures
        cong(pow(u, i) * pow(field_pow(w, i), j), pow(field_mul(field_pow(w, j), u), i)),
{
    let wi = field_pow(w, i);
    let wj = field_pow(w, j);
    // (w^i)^j and (w^j)^i agree in the field
    lemma_field_pow_mul(w, i, j);
    lemma_field_pow_mul(w, j, i);
    assert(i * j == j * i) by (nonlinear_arith);
    lemma_field_pow_cong(wi, j);
    lemma_field_pow_cong(wj, i);
    assert(cong(pow(wi, j), pow(wj, i)));
    lemma_cong_mul(pow(u, i), pow(u, i), pow(wi, j), pow(wj, i));
    // u^i * (w^j)^i = (u * w^j)^i
    lemma_pow_distributes(u, wj, i);
    lemma_field_ops(wj, u);
    assert(u * wj == wj * u) by (nonlinear_arith);
    lemma_cong_pow(wj * u, field_mul(wj, u), i);
}

/// With a primitive root of its order, the transform of a sequence whose
/// length is a power of two holds the values of the polynomial at the
/// powers of the root.
pub proof fn lemma_ntt_of_primitive(x: Seq<int>, w: int)
    requires
        crate::roots::is_power_of_two(x.len() as int),
        crate::roots::primitive_root(w, x.len() as int),
    ensures
        ntt(x, w).len() == x.len(),
        forall|i: int|
            0 <= i < x.len() ==> #[trigger] ntt(x, w)[i] % modulus() == crate::eval::field_eval(
                x,
                field_pow(w, i as nat),
            ),
{
    let k = choose|k: nat| x.len() as int == pow2(k);
    crate::roots::lemma_primitive_is_principal(w, k);
    lemma_ntt_len(x, w, k);
    assert forall|i: int| 0 <= i < x.len() implies #[trigger] ntt(x, w)[i] % modulus()
        == crate::eval::field_eval(x, field_pow(w, i as nat)) by {
        lemma_ntt_evaluates(x, w, k, i);
    }
}

/// The root of a supported order is primitive, so the transform with it
/// holds the values of the polynomial at the powers of the root.
pub proof fn lemma_fft_evaluates(x: Seq<int>)
    requires
        crate::roots::supported_order(x.len() as int),
    ensures
        forall|i: int|
            0 <= i < x.len() ==> #[trigger] ntt(x, crate::roots::ordered_root_of(x.len() as int))[i]
                % modulus() == crate::eval::field_eval(
                x,
                field_pow(crate::roots::ordered_root_of(x.len() as int), i as nat),
            ),
{
    crate::roots::lemma_ordered_root_primitive(x.len() as int);
    lemma_ntt_of_primitive(x, crate::roots::ordered_root_of(x.len() as int));
}

} // verus!
