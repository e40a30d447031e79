//! Polynomials over the field as coefficient sequences, lowest degree
//! first: pointwise product, coset shift, scaling and the schoolbook
//! product.

use crate::field::{field_mul, field_pow, modulus, values, Belt};
use crate::field_lemmas::{lemma_field_mul_laws, lemma_field_pow_succ, lemma_field_pow_zero};
use vstd::arithmetic::div_mod::{lemma_add_mod_noop, lemma_small_mod};
use vstd::prelude::*;

verus! {

/// The pointwise product of two sequences of equal length.
pub open spec fn hadamard(a: Seq<int>, b: Seq<int>) -> Seq<int> {
    Seq::new(a.len(), |i: int| field_mul(a[i], b[i]))
}

/// Every entry multiplied by `s`.
pub open spec fn scale(a: Seq<int>, s: int) -> Seq<int> {
    Seq::new(a.len(), |i: int| field_mul(a[i], s))
}

/// Entry `i` multiplied by `c^i`: the coefficients of `a(c * X)`.
pub open spec fn shift(a: Seq<int>, c: int) -> Seq<int> {
    Seq::new(a.len(), |i: int| field_mul(a[i], field_pow(c, i as nat)))
}

/// `a` followed by zeros up to length `n`.
pub open spec fn pad(a: Seq<int>, n: nat) -> Seq<int> {
    Seq::new(n, |i: int| if i < a.len() { a[i] } else { 0 })
}

/// The sum of the products `a[i] * b[k - i]` over the `i < upto` for which
/// `k - i` is an index of `b`, as an ordinary integer.
pub open spec fn conv_sum(a: Seq<int>, b: Seq<int>, k: int, upto: nat) -> int
    decreases upto,
{
    if upto == 0 {
        0
    } else {
        let i = upto - 1;
        conv_sum(a, b, k, i as nat) + if 0 <= k - i < b.len() {
            a[i] * b[k - i]
        } else {
            0
        }
    }
}

/// The length of a product: one for an empty operand, else
/// `len(a) + len(b) - 1`.
pub open spec fn product_len(la: nat, lb: nat) -> nat {
    if la == 0 || lb == 0 {
        1
    } else {
        (la + lb - 1) as nat
    }
}

/// The product of two polynomials. An empty operand is the zero
/// polynomial, and the product is then the single coefficient zero.
pub open spec fn poly_mul(a: Seq<int>, b: Seq<int>) -> Seq<int> {
    Seq::new(product_len(a.len(), b.len()), |k: int| conv_sum(a, b, k, a.len()) % modulus())
}

/// A vector of `n` zeros.
pub fn zeros(n: usize) -> (r: Vec<Belt>)
    ensures
        r@.len() == n,
        forall|i: int| 0 <= i < n ==> (#[trigger] r@[i]).0 == 0,
{
    let mut r: Vec<Belt> = Vec::new();
    let mut i: usize = 0;
    while i < n
        invariant
            i <= n,
            r@.len() == i,
            forall|k: int| 0 <= k < i ==> (#[trigger] r@[k]).0 == 0,
        decreases n - i,
    {
        r.push(Belt(0));
        i = i + 1;
    }
    r
}

/// The pointwise product of `a` and `b`, written to `res`.
pub fn bp_hadamard(a: &[Belt], b: &[Belt], res: &mut [Belt])
    requires
        a@.len() == b@.len(),
        old(res)@.len() == a@.len(),
    ensures
        final(res)@.len() == old(res)@.len(),
        values(final(res)@) == hadamard(values(a@), values(b@)),
{
    let n = a.len();
    let mut i: usize = 0;
    while i < n
        invariant
            n == a@.len(),
            n == b@.len(),
            n == res@.len(),
            i <= n,
            forall|k: int| 0 <= k < i ==> (#[trigger] res@[k])@ == field_mul(a@[k]@, b@[k]@),
        decreases n - i,
    {
        res[i] = a[i].mul(b[i]);
        i = i + 1;
    }
    proof {
        assert(values(res@) =~= hadamard(values(a@), values(b@)));
    }
}

/// The coset shift of `a` by `c`, written to `res`: entry `i` times `c^i`.
pub fn bp_shift(a: &[Belt], c: &Belt, res: &mut [Belt])
    requires
        old(res)@.len() == a@.len(),
    ensures
        final(res)@.len() == old(res)@.len(),
        values(final(res)@) == shift(values(a@), c@),
{
    let n = a.len();
    let mut power = Belt(1);
    let mut i: usize = 0;
    proof {
        lemma_field_pow_zero(c@);
    }
    while i < n
        invariant
            n == a@.len(),
            n == res@.len(),
            i <= n,
            power@ == field_pow(c@, i as nat),
            forall|k: int|
                0 <= k < i ==> (#[trigger] res@[k])@ == field_mul(a@[k]@, field_pow(c@, k as nat)),
        decreases n - i,
    {
        res[i] = a[i].mul(power);
        proof {
            lemma_field_pow_succ(c@, i as nat);
            lemma_field_mul_laws(c@, field_pow(c@, i as nat), 0);
        }
        power = power.mul(*c);
        i = i + 1;
    }
    proof {
        assert(values(res@) =~= shift(values(a@), c@));
    }
}

/// Every entry of `x` multiplied by `s`, in place.
pub fn bp_scale(x: &mut [Belt], s: Belt)
    ensures
        final(x)@.len() == old(x)@.len(),
        values(final(x)@) == scale(values(old(x)@), s@),
{
    let n = x.len();
    let mut i: usize = 0;
    while i < n
        invariant
            n == x@.len(),
            n == old(x)@.len(),
            i <= n,
            forall|k: int| 0 <= k < i ==> (#[trigger] x@[k])@ == field_mul(old(x)@[k]@, s@),
            forall|k: int| i <= k < n ==> #[trigger] x@[k] == old(x)@[k],
        decreases n - i,
    {
        let v = x[i];
        x[i] = v.mul(s);
        i = i + 1;
    }
    proof {
        assert(values(x@) =~= scale(values(old(x)@), s@));
    }
}

/// The schoolbook product of `a` and `b`, written to `res`.
pub fn bpmul(a: &[Belt], b: &[Belt], res: &mut [Belt])
    requires
        old(res)@.len() == product_len(a@.len(), b@.len()),
    ensures
        final(res)@.len() == old(res)@.len(),
        values(final(res)@) == poly_mul(values(a@), values(b@)),
{
    let la = a.len();
    let lb = b.len();
    let n = res.len();
    let ghost va = values(a@);
    let ghost vb = values(b@);
    let mut z: usize = 0;
    while z < n
        invariant
            n == res@.len(),
            z <= n,
            forall|k: int| 0 <= k < z ==> (#[trigger] res@[k]).0 == 0,
        decreases n - z,
    {
        res[z] = Belt(0);
        z = z + 1;
    }
    proof {
        lemma_small_mod(0, modulus() as nat);
    }
    let mut i: usize = 0;
    while i < la
        invariant
            la == a@.len(),
            lb == b@.len(),
            n == res@.len(),
            n == product_len(la as nat, lb as nat),
            va == values(a@),
            vb == values(b@),
            i <= la,
            forall|k: int|
                0 <= k < n ==> (#[trigger] res@[k])@ == conv_sum(va, vb, k, i as nat) % modulus(),
        decreases la - i,
    {
        let mut j: usize = 0;
        while j < lb
            invariant
                la == a@.len(),
                lb == b@.len(),
                n == res@.len(),
                n == product_len(la as nat, lb as nat),
                va == values(a@),
                vb == values(b@),
                i < la,
                j <= lb,
                forall|k: int|
                    0 <= k < n ==> (#[trigger] res@[k])@ == (conv_sum(va, vb, k, i as nat) + if i
                        <= k < i + j {
                        va[i as int] * vb[k - i]
                    } else {
                        0
                    }) % modulus(),
            decreases lb - j,
        {
            let cur = res[i + j];
            proof {
                let c = conv_sum(va, vb, (i + j) as int, i as nat);
                lemma_add_mod_noop(c, va[i as int] * vb[j as int], modulus());
            }
            res[i + j] = cur.add(a[i].mul(b[j]));
            j = j + 1;
        }
        i = i + 1;
    }
    proof {
        assert(values(res@) =~= poly_mul(va, vb));
    }
}

} // verus!
