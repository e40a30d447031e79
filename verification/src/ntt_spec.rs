//! What the transform computes.
//!
//! `ntt` is the radix-2 decimation-in-time recursion, defined for every
//! root `w`. The executable transform permutes its input by bit reversal
//! and then runs butterfly stages over ever larger blocks; `blocks_done`
//! says what the blocks hold between two stages.

use crate::bits::{bitrev, lemma_bitrev_double, lemma_pow2_zero};
use crate::field::{field_add, field_mul, field_pow, field_sub};
use crate::field_lemmas::{
    cong, lemma_cong_mod, lemma_cong_mul, lemma_field_pow_add, lemma_field_pow_base,
    lemma_field_pow_one,
};
use vstd::arithmetic::div_mod::lemma_fundamental_div_mod_converse;
use vstd::arithmetic::power2::{lemma_pow2_adds, lemma_pow2_pos, lemma_pow2_unfold, pow2};
use vstd::prelude::*;

verus! {

/// The entries of `x` at even indices.
pub open spec fn evens(x: Seq<int>) -> Seq<int> {
    Seq::new(x.len() / 2, |i: int| x[2 * i])
}

/// The entries of `x` at odd indices.
pub open spec fn odds(x: Seq<int>) -> Seq<int> {
    Seq::new(x.len() / 2, |i: int| x[2 * i + 1])
}

/// One layer of butterflies: from the transforms `e` and `o` of the even
/// and odd entries to the transform of the whole, with twiddles `w^i`.
pub open spec fn butterflies(e: Seq<int>, o: Seq<int>, w: int) -> Seq<int> {
    Seq::new(
        2 * e.len(),
        |i: int|
            if i < e.len() {
                field_add(e[i], field_mul(o[i], field_pow(w, i as nat)))
            } else {
                field_sub(
                    e[i - e.len()],
                    field_mul(o[i - e.len()], field_pow(w, (i - e.len()) as nat)),
                )
            },
    )
}

/// The transform of `x` with root `w`: `x` itself for a length up to one,
/// else the butterflies of the transforms of its even and odd entries with
/// root `w * w`.
pub open spec fn ntt(x: Seq<int>, w: int) -> Seq<int>
    decreases x.len(),
{
    if x.len() <= 1 {
        x
    } else {
        butterflies(ntt(evens(x), field_mul(w, w)), ntt(odds(x), field_mul(w, w)), w)
    }
}

/// Every `t`-th entry of `x`, starting at `r`.
pub open spec fn stride(x: Seq<int>, r: int, t: int) -> Seq<int> {
    Seq::new((x.len() as int / t) as nat, |i: int| x[r + t * i])
}

/// The `b`-th block of `size` entries of `x`.
pub open spec fn block(x: Seq<int>, b: int, size: int) -> Seq<int> {
    x.subrange(b * size, (b + 1) * size)
}

/// The entry at `i` after a butterfly stage over blocks of `2 * m` entries.
pub open spec fn butterfly_at(x: Seq<int>, m: int, w: int, i: int) -> int {
    let j = i % (2 * m);
    let base = i - j;
    if j < m {
        field_add(x[base + j], field_mul(x[base + j + m], field_pow(w, j as nat)))
    } else {
        field_sub(x[base + j - m], field_mul(x[base + j], field_pow(w, (j - m) as nat)))
    }
}

/// The entry at `i` after the butterflies of the one group of `2 * m`
/// entries that starts at `k`.
pub open spec fn group_butterfly_at(x: Seq<int>, k: int, m: int, w: int, i: int) -> int {
    let j = i - k;
    if j < m {
        field_add(x[i], field_mul(x[i + m], field_pow(w, j as nat)))
    } else {
        field_sub(x[i - m], field_mul(x[i], field_pow(w, (j - m) as nat)))
    }
}

/// A whole butterfly stage over blocks of `2 * m` entries with root `w`.
pub open spec fn stage(x: Seq<int>, m: int, w: int) -> Seq<int> {
    Seq::new(x.len(), |i: int| butterfly_at(x, m, w, i))
}

/// After `s` stages on an input of `2^total` entries: each block of `2^s`
/// entries holds the transform of one strided part of the input `x0`.
pub open spec fn blocks_done(x: Seq<int>, x0: Seq<int>, w: int, total: nat, s: nat) -> bool {
    &&& s <= total
    &&& x.len() == pow2(total)
    &&& x0.len() == pow2(total)
    &&& forall|b: int|
        0 <= b < pow2((total - s) as nat) ==> #[trigger] block(x, b, pow2(s) as int) == ntt(
            stride(
                x0,
                bitrev(b as nat, (total - s) as nat) as int,
                pow2((total - s) as nat) as int,
            ),
            field_pow(w, pow2((total - s) as nat)),
        )
}

/// The transform keeps the length of an input of `2^k` entries.
pub proof fn lemma_ntt_len(x: Seq<int>, w: int, k: nat)
    requires
        x.len() == pow2(k),
    ensures
        ntt(x, w).len() == x.len(),
    decreases k,
{
    if k == 0 {
        lemma_pow2_zero();
    } else {
        lemma_pow2_unfold(k);
        lemma_pow2_pos((k - 1) as nat);
        lemma_ntt_len(evens(x), field_mul(w, w), (k - 1) as nat);
    }
}

/// The transform depends on its root only modulo the prime.
pub proof fn lemma_ntt_root(x: Seq<int>, w: int, v: int)
    requires
        cong(w, v),
    ensures
        ntt(x, w) == ntt(x, v),
{
    if x.len() > 1 {
        lemma_cong_mul(w, v, w, v);
        let e = ntt(evens(x), field_mul(w, w));
        let o = ntt(odds(x), field_mul(w, w));
        assert forall|i: nat| field_pow(w, i) == field_pow(v, i) by {
            lemma_field_pow_base(w, v, i);
        }
        assert(butterflies(e, o, w) =~= butterflies(e, o, v));
    }
}

/// The even and odd entries of a strided part are strided parts with twice
/// the step.
pub proof fn lemma_stride_split(x: Seq<int>, r: int, t: int, len: int)
    requires
        t >= 1,
        len >= 0,
        x.len() == 2 * len * t,
    ensures
        stride(x, r, t).len() == 2 * len,
        evens(stride(x, r, t)) == stride(x, r, 2 * t),
        odds(stride(x, r, t)) == stride(x, r + t, 2 * t),
{
    assert(x.len() as int == (2 * len) * t) by (nonlinear_arith)
        requires
            x.len() == 2 * len * t,
    ;
    assert(x.len() as int == len * (2 * t)) by (nonlinear_arith)
        requires
            x.len() == 2 * len * t,
    ;
    lemma_fundamental_div_mod_converse(x.len() as int, t, 2 * len, 0);
    lemma_fundamental_div_mod_converse(x.len() as int, 2 * t, len, 0);
    let s = stride(x, r, t);
    assert(s.len() == 2 * len);
    assert(stride(x, r, 2 * t).len() == len);
    let ev = stride(x, r, 2 * t);
    let od = stride(x, r + t, 2 * t);
    assert forall|i: int| 0 <= i < len implies #[trigger] evens(s)[i] == ev[i] by {
        assert(t * (2 * i) == (2 * t) * i) by (nonlinear_arith);
    }
    assert forall|i: int| 0 <= i < len implies #[trigger] odds(s)[i] == od[i] by {
        assert(t * (2 * i + 1) == t + (2 * t) * i) by (nonlinear_arith);
    }
    assert(evens(s) =~= ev);
    assert(odds(s) =~= od);
}

/// The position `b * size + j` lies in block `b` at offset `j`.
pub proof fn lemma_block_index(b: int, size: int, j: int)
    requires
        size > 0,
        0 <= j < size,
        b >= 0,
    ensures
        (b * size + j) % size == j,
        (b * size + j) / size == b,
        b * size + j >= 0,
{
    lemma_fundamental_div_mod_converse(b * size + j, size, b, j);
    assert(b * size >= 0) by (nonlinear_arith)
        requires
            b >= 0,
            size > 0,
    ;
}

/// Blocks lie inside the sequence: `count` blocks of `size` entries.
pub proof fn lemma_block_range(b: int, count: int, size: int)
    requires
        0 <= b < count,
        size >= 0,
    ensures
        0 <= b * size,
        (b + 1) * size <= count * size,
        (b + 1) * size == b * size + size,
{
    assert(0 <= b * size) by (nonlinear_arith)
        requires
            0 <= b,
            size >= 0,
    ;
    assert((b + 1) * size <= count * size) by (nonlinear_arith)
        requires
            b + 1 <= count,
            size >= 0,
    ;
    assert((b + 1) * size == b * size + size) by (nonlinear_arith);
}

/// A bit-reversed copy of the input is the state before the first stage.
pub proof fn lemma_blocks_start(x: Seq<int>, x0: Seq<int>, w: int, total: nat)
    requires
        x.len() == pow2(total),
        x0.len() == pow2(total),
        forall|k: int| 0 <= k < x.len() ==> x[k] == x0[bitrev(k as nat, total) as int],
    ensures
        blocks_done(x, x0, w, total, 0),
{
    lemma_pow2_zero();
    let n = pow2(total) as int;
    lemma_pow2_pos(total);
    assert forall|b: int| 0 <= b < n implies #[trigger] block(x, b, 1) == ntt(
        stride(x0, bitrev(b as nat, total) as int, n),
        field_pow(w, pow2(total)),
    ) by {
        let r = bitrev(b as nat, total) as int;
        lemma_fundamental_div_mod_converse(n, n, 1, 0);
        let s = stride(x0, r, n);
        assert(s.len() == 1);
        assert(n * 0 == 0);
        assert(s[0] == x0[r]);
        assert(block(x, b, 1) =~= s);
    }
}

/// When all stages are done the sequence is the transform of the input.
pub proof fn lemma_blocks_end(x: Seq<int>, x0: Seq<int>, w: int, total: nat)
    requires
        blocks_done(x, x0, w, total, total),
    ensures
        x == ntt(x0, w),
{
    lemma_pow2_zero();
    let n = pow2(total) as int;
    assert(block(x, 0, n) =~= x);
    assert(bitrev(0, 0) == 0);
    assert(stride(x0, 0, 1) =~= x0);
    lemma_field_pow_one(w);
    lemma_cong_mod(w);
    lemma_ntt_root(x0, field_pow(w, 1), w);
}

/// One butterfly stage takes the state after `s` stages to the state after
/// `s + 1` stages.
pub proof fn lemma_stage_step(x: Seq<int>, x0: Seq<int>, w: int, total: nat, s: nat)
    requires
        blocks_done(x, x0, w, total, s),
        s < total,
    ensures
        blocks_done(
            stage(x, pow2(s) as int, field_pow(w, pow2((total - s - 1) as nat))),
            x0,
            w,
            total,
            s + 1,
        ),
{
    let m = pow2(s) as int;
    let d = (total - s - 1) as nat;
    let t = pow2(d) as int;
    let wt = field_pow(w, pow2(d));
    let y = stage(x, m, wt);
    lemma_pow2_pos(s);
    lemma_pow2_pos(d);
    lemma_pow2_unfold(s + 1);
    lemma_pow2_unfold((total - s) as nat);
    lemma_pow2_adds(d, s + 1);
    assert(t * (2 * m) == pow2(total));
    assert(x0.len() == 2 * m * t) by (nonlinear_arith)
        requires
            t * (2 * m) == x0.len(),
    ;
    assert forall|b: int| 0 <= b < t implies #[trigger] block(y, b, 2 * m) == ntt(
        stride(x0, bitrev(b as nat, d) as int, t),
        wt,
    ) by {
        let r = bitrev(b as nat, d) as int;
        let part = stride(x0, r, t);
        lemma_stride_split(x0, r, t, m);
        lemma_bitrev_double(b as nat, d);
        lemma_field_pow_add(w, pow2(d), pow2(d));
        let ww = field_mul(wt, wt);
        assert(ww == field_pow(w, pow2((total - s) as nat)));
        // the two blocks of the previous state that make up this block
        let e = block(x, 2 * b, m);
        let o = block(x, 2 * b + 1, m);
        assert(e == ntt(evens(part), ww));
        assert(o == ntt(odds(part), ww));
        lemma_block_range(b, t, 2 * m);
        lemma_block_range(2 * b, 2 * t, m);
        lemma_block_range(2 * b + 1, 2 * t, m);
        assert((2 * t) * m == t * (2 * m)) by (nonlinear_arith);
        assert((2 * b) * m == b * (2 * m)) by (nonlinear_arith);
        assert((2 * b + 1) * m == b * (2 * m) + m) by (nonlinear_arith);
        assert(e.len() == m);
        assert(o.len() == m);
        assert(part.len() == 2 * m);
        assert(part.len() > 1);
        assert(ntt(part, wt) == butterflies(e, o, wt));
        let lhs = block(y, b, 2 * m);
        let rhs = butterflies(e, o, wt);
        assert(lhs.len() == rhs.len());
        assert forall|j: int| 0 <= j < 2 * m implies lhs[j] == rhs[j] by {
            let i = b * (2 * m) + j;
            lemma_block_index(b, 2 * m, j);
            assert(lhs[j] == butterfly_at(x, m, wt, i));
            if j < m {
                assert(e[j] == x[i]);
                assert(o[j] == x[i + m]);
            } else {
                assert(e[j - m] == x[i - m]);
                assert(o[j - m] == x[i]);
            }
        }
        assert(lhs =~= rhs);
    }
}

} // verus!
