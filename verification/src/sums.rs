//! Finite sums of integer terms, the tool behind the laws of polynomial
//! evaluation and of the transform.

use crate::field_lemmas::{cong, lemma_cong_add};
use vstd::prelude::*;

verus! {

/// The sum of `f(0), ..., f(n - 1)`.
pub open spec fn sum(f: spec_fn(int) -> int, n: nat) -> int
    decreases n,
{
    if n == 0 {
        0
    } else {
        sum(f, (n - 1) as nat) + f(n - 1)
    }
}

/// Sums of termwise equal functions are equal.
pub proof fn lemma_sum_eq(f: spec_fn(int) -> int, g: spec_fn(int) -> int, n: nat)
    requires
        forall|i: int| 0 <= i < n ==> #[trigger] f(i) == g(i),
    ensures
        sum(f, n) == sum(g, n),
    decreases n,
{
    if n > 0 {
        lemma_sum_eq(f, g, (n - 1) as nat);
    }
}

/// Sums of termwise congruent functions are congruent.
pub proof fn lemma_sum_cong(f: spec_fn(int) -> int, g: spec_fn(int) -> int, n: nat)
    requires
        forall|i: int| 0 <= i < n ==> cong(#[trigger] f(i), g(i)),
    ensures
        cong(sum(f, n), sum(g, n)),
    decreases n,
{
    if n > 0 {
        lemma_sum_cong(f, g, (n - 1) as nat);
        lemma_cong_add(sum(f, (n - 1) as nat), sum(g, (n - 1) as nat), f(n - 1), g(n - 1));
    }
}

/// A sum of zeros is zero.
pub proof fn lemma_sum_zero(f: spec_fn(int) -> int, n: nat)
    requires
        forall|i: int| 0 <= i < n ==> #[trigger] f(i) == 0,
    ensures
        sum(f, n) == 0,
    decreases n,
{
    if n > 0 {
        lemma_sum_zero(f, (n - 1) as nat);
    }
}

/// The sum of termwise sums is the sum of the sums.
pub proof fn lemma_sum_add(
    f: spec_fn(int) -> int,
    g: spec_fn(int) -> int,
    h: spec_fn(int) -> int,
    n: nat,
)
    requires
        forall|i: int| 0 <= i < n ==> #[trigger] h(i) == f(i) + g(i),
    ensures
        sum(h, n) == sum(f, n) + sum(g, n),
    decreases n,
{
    if n > 0 {
        lemma_sum_add(f, g, h, (n - 1) as nat);
    }
}

/// A common factor moves out of a sum.
pub proof fn lemma_sum_scale(f: spec_fn(int) -> int, g: spec_fn(int) -> int, c: int, n: nat)
    requires
        forall|i: int| 0 <= i < n ==> #[trigger] g(i) == c * f(i),
    ensures
        sum(g, n) == c * sum(f, n),
    decreases n,
{
    if n > 0 {
        lemma_sum_scale(f, g, c, (n - 1) as nat);
        let a = sum(f, (n - 1) as nat);
        let b = f(n - 1);
        assert(c * a + c * b == c * (a + b)) by (nonlinear_arith);
    } else {
        assert(c * 0 == 0);
    }
}

/// A sum whose only nonzero term is at `t` is that term.
pub proof fn lemma_sum_single(f: spec_fn(int) -> int, t: int, n: nat)
    requires
        0 <= t < n,
        forall|i: int| 0 <= i < n && i != t ==> #[trigger] f(i) == 0,
    ensures
        sum(f, n) == f(t),
    decreases n,
{
    if n - 1 == t {
        lemma_sum_zero(f, (n - 1) as nat);
    } else {
        lemma_sum_single(f, t, (n - 1) as nat);
    }
}

/// A sum can be cut in two: the first `a` terms, and the next `b` terms
/// counted from zero.
pub proof fn lemma_sum_split(f: spec_fn(int) -> int, g: spec_fn(int) -> int, a: nat, b: nat)
    requires
        forall|i: int| 0 <= i < b ==> #[trigger] g(i) == f(a + i),
    ensures
        sum(f, a + b) == sum(f, a) + sum(g, b),
    decreases b,
{
    if b > 0 {
        lemma_sum_split(f, g, a, (b - 1) as nat);
        assert(g(b - 1) == f(a + (b - 1)));
    }
}

/// The order of two nested sums can be exchanged: `row(i)` is the sum of
/// `f(i, j)` over `j < m`, `col(j)` the sum over `i < n`.
pub proof fn lemma_sum_exchange(
    f: spec_fn(int, int) -> int,
    row: spec_fn(int) -> int,
    col: spec_fn(int) -> int,
    n: nat,
    m: nat,
)
    requires
        forall|i: int| 0 <= i < n ==> #[trigger] row(i) == sum(|j: int| f(i, j), m),
        forall|j: int| 0 <= j < m ==> #[trigger] col(j) == sum(|i: int| f(i, j), n),
    ensures
        sum(row, n) == sum(col, m),
    decreases n,
{
    if n == 0 {
        lemma_sum_zero(col, m);
    } else {
        // the columns without the last row
        let col1 = |j: int| sum(|i: int| f(i, j), (n - 1) as nat);
        let last = |j: int| f(n - 1, j);
        lemma_sum_exchange(f, row, col1, (n - 1) as nat, m);
        assert forall|j: int| 0 <= j < m implies #[trigger] col(j) == col1(j) + last(j) by {
            let fj = |i: int| f(i, j);
            assert(sum(fj, n) == sum(fj, (n - 1) as nat) + fj(n - 1));
        }
        lemma_sum_add(col1, last, col, m);
        assert(row(n - 1) == sum(last, m)) by {
            lemma_sum_eq(|j: int| f(n - 1, j), last, m);
        }
    }
}

} // verus!
