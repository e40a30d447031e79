//! Evaluation of a polynomial at a point, as an ordinary integer sum, and
//! its basic laws.

use crate::field::modulus;
use crate::field_lemmas::{cong, lemma_cong_mul, lemma_cong_pow};
use crate::ntt_spec::{evens, odds};
use crate::poly::pad;
use crate::sums::{lemma_sum_cong, lemma_sum_eq, lemma_sum_split, lemma_sum_zero, sum};
use vstd::arithmetic::power::{lemma_pow0, lemma_pow1, lemma_pow_adds, pow};
use vstd::prelude::*;

verus! {

/// The value of the polynomial with coefficients `c` at `x`: the sum of
/// `c[j] * x^j`, not reduced.
pub open spec fn poly_eval(c: Seq<int>, x: int) -> int {
    sum(|j: int| c[j] * pow(x, j as nat), c.len())
}

/// The value of the polynomial with coefficients `c` at `x` in the field.
pub open spec fn field_eval(c: Seq<int>, x: int) -> int {
    poly_eval(c, x) % modulus()
}

/// The value at a point depends on the point only modulo the prime.
pub proof fn lemma_eval_point(c: Seq<int>, x: int, y: int)
    requires
        cong(x, y),
    ensures
        cong(poly_eval(c, x), poly_eval(c, y)),
{
    let f = |j: int| c[j] * pow(x, j as nat);
    let g = |j: int| c[j] * pow(y, j as nat);
    assert forall|j: int| 0 <= j < c.len() implies cong(#[trigger] f(j), g(j)) by {
        lemma_cong_pow(x, y, j as nat);
        lemma_cong_mul(c[j], c[j], pow(x, j as nat), pow(y, j as nat));
    }
    lemma_sum_cong(f, g, c.len());
}

/// The value at a point depends on the coefficients only modulo the prime.
pub proof fn lemma_eval_coeffs(c: Seq<int>, d: Seq<int>, x: int)
    requires
        c.len() == d.len(),
        forall|j: int| 0 <= j < c.len() ==> cong(#[trigger] c[j], d[j]),
    ensures
        cong(poly_eval(c, x), poly_eval(d, x)),
{
    let f = |j: int| c[j] * pow(x, j as nat);
    let g = |j: int| d[j] * pow(x, j as nat);
    assert forall|j: int| 0 <= j < c.len() implies cong(#[trigger] f(j), g(j)) by {
        assert(cong(c[j], d[j]));
        lemma_cong_mul(c[j], d[j], pow(x, j as nat), pow(x, j as nat));
    }
    lemma_sum_cong(f, g, c.len());
}

/// A polynomial with one coefficient is constant.
pub proof fn lemma_eval_constant(c: Seq<int>, x: int)
    requires
        c.len() == 1,
    ensures
        poly_eval(c, x) == c[0],
{
    let f = |j: int| c[j] * pow(x, j as nat);
    lemma_pow0(x);
    assert(sum(f, 1) == sum(f, 0) + f(0));
    assert(c[0] * 1 == c[0]);
}

/// Zeros appended to the coefficients do not change the value.
pub proof fn lemma_eval_pad(a: Seq<int>, n: nat, x: int)
    requires
        a.len() <= n,
    ensures
        poly_eval(pad(a, n), x) == poly_eval(a, x),
{
    let p = pad(a, n);
    let f = |j: int| p[j] * pow(x, j as nat);
    let g = |j: int| a[j] * pow(x, j as nat);
    let la = a.len();
    let tail = |i: int| f(la + i);
    lemma_sum_split(f, tail, la, (n - la) as nat);
    assert forall|i: int| 0 <= i < n - la implies #[trigger] tail(i) == 0 by {
        assert(p[la + i] == 0);
        assert(0 * pow(x, (la + i) as nat) == 0);
    }
    lemma_sum_zero(tail, (n - la) as nat);
    lemma_sum_eq(f, g, la);
}

/// A sum over `2h` terms is the sum of its even terms plus the sum of its
/// odd terms, the latter with a common factor `z` taken out.
proof fn lemma_interleave(
    f: spec_fn(int) -> int,
    fe: spec_fn(int) -> int,
    fo: spec_fn(int) -> int,
    z: int,
    h: nat,
)
    requires
        forall|i: int| 0 <= i < h ==> #[trigger] fe(i) == f(2 * i),
        forall|i: int| 0 <= i < h ==> z * #[trigger] fo(i) == f(2 * i + 1),
    ensures
        sum(f, 2 * h) == sum(fe, h) + z * sum(fo, h),
    decreases h,
{
    if h == 0 {
        assert(z * 0 == 0);
    } else {
        lemma_interleave(f, fe, fo, z, (h - 1) as nat);
        let n = 2 * h;
        assert(sum(f, n) == sum(f, (n - 1) as nat) + f(n - 1));
        assert(sum(f, (n - 1) as nat) == sum(f, (n - 2) as nat) + f(n - 2));
        assert(fe(h - 1) == f(2 * (h - 1)));
        assert(z * fo(h - 1) == f(2 * (h - 1) + 1));
        let a = sum(fo, (h - 1) as nat);
        let b = fo(h - 1);
        assert(z * (a + b) == z * a + z * b) by (nonlinear_arith);
    }
}

/// The value at `z` from the values of the even and the odd part at `z * z`.
pub proof fn lemma_eval_split(c: Seq<int>, z: int, h: nat)
    requires
        c.len() == 2 * h,
    ensures
        poly_eval(c, z) == poly_eval(evens(c), z * z) + z * poly_eval(odds(c), z * z),
{
    let zz = z * z;
    let f = |j: int| c[j] * pow(z, j as nat);
    let ev = evens(c);
    let od = odds(c);
    let fe = |i: int| ev[i] * pow(zz, i as nat);
    let fo = |i: int| od[i] * pow(zz, i as nat);
    assert forall|i: int| 0 <= i < h implies #[trigger] fe(i) == f(2 * i) by {
        lemma_square_power(z, i as nat);
    }
    assert forall|i: int| 0 <= i < h implies z * #[trigger] fo(i) == f(2 * i + 1) by {
        lemma_square_power(z, i as nat);
        let q = pow(z, (2 * i) as nat);
        assert(pow(z, (2 * i + 1) as nat) == q * z) by {
            lemma_pow_adds(z, (2 * i) as nat, 1);
            lemma_pow1(z);
        }
        let ci = c[2 * i + 1];
        assert(z * (ci * q) == ci * (q * z)) by (nonlinear_arith);
    }
    lemma_interleave(f, fe, fo, z, h);
}

/// `(z * z)^i` is `z^(2i)`.
pub proof fn lemma_square_power(z: int, i: nat)
    ensures
        pow(z * z, i) == pow(z, 2 * i),
{
    vstd::arithmetic::power::lemma_pow_distributes(z, z, i);
    lemma_pow_adds(z, i, i);
}

} // verus!
