//! The transform and the product of polynomials with their independent
//! parts handed to a pool of compute threads: the bit-reversal gather, the
//! groups of one butterfly stage, the two forward transforms of a product,
//! and pointwise products and scalings by chunks.
//!
//! The number of threads and the sizes from which the pool is used decide
//! how long a call takes, never what it returns.
//!
//! The thread pool is rayon's. Each use of it is a small function whose
//! contract is taken on trust: it says that the pool applied a verified
//! function of this crate to every item, and nothing else.

use crate::bits::{bitrev, bitreverse, lemma_bitrev_bound};
use crate::eval::field_eval;
use crate::field::{bpow, field_mul, field_pow, modulus, values, Belt, FieldError};
use crate::ntt::{bit_reverse_permute, butterfly_group_at, butterfly_stage};
use crate::ntt_spec::{
    blocks_done, butterfly_at, group_butterfly_at, lemma_blocks_end, lemma_blocks_start,
    lemma_stage_step, ntt, stage,
};
use crate::poly::{bp_hadamard, hadamard, pad, poly_mul, product_len, scale, zeros};
use crate::roots::{
    exact_log2, is_power_of_two, ordered_root_of, primitive_root, supported_order,
};
use rayon::iter::{
    IndexedParallelIterator, IntoParallelIterator, IntoParallelRefMutIterator, ParallelIterator,
};
use rayon::slice::{ParallelSlice, ParallelSliceMut};
use vstd::arithmetic::div_mod::{lemma_fundamental_div_mod, lemma_fundamental_div_mod_converse};
use vstd::arithmetic::power2::{lemma_pow2_adds, lemma_pow2_pos, lemma_pow2_unfold, pow2};
use vstd::prelude::*;
use vstd::slice::slice_to_vec;

verus! {

/// From this many entries on, the bit-reversal gather runs on the pool.
pub const PARALLEL_PERMUTE_MIN: usize = 32;

/// From this many entries on, the gather is handed out in chunks.
pub const CHUNKED_PERMUTE_MIN: usize = 256;

/// From this half-group size on, a butterfly stage runs on the pool.
pub const PARALLEL_STAGE_MIN: usize = 8;

/// The entry of `x` at the bit reversal of `k`.
pub fn pick_bit_reversed(x: &[Belt], k: usize, log_n: u32) -> (r: Belt)
    requires
        x@.len() == pow2(log_n as nat),
        log_n <= 64,
        k < x@.len(),
    ensures
        r == x@[bitrev(k as nat, log_n as nat) as int],
{
    let rk = bitreverse(k as u64, log_n);
    x[rk as usize]
}

/// Fills `part`, the chunk number `c` of chunks of `chunk` entries, with
/// the bit-reversal gather of `x`.
pub fn fill_bit_reversed(part: &mut [Belt], c: usize, chunk: usize, x: &[Belt], log_n: u32)
    requires
        x@.len() == pow2(log_n as nat),
        log_n <= 64,
        c * chunk + old(part)@.len() <= x@.len(),
    ensures
        final(part)@.len() == old(part)@.len(),
        forall|i: int|
            0 <= i < old(part)@.len() ==> #[trigger] final(part)@[i] == x@[bitrev(
                (c * chunk + i) as nat,
                log_n as nat,
            ) as int],
{
    let len = part.len();
    let n = x.len();
    proof {
        assert(c * chunk >= 0) by (nonlinear_arith);
    }
    let start = c * chunk;
    let mut i: usize = 0;
    while i < len
        invariant
            len == part@.len(),
            len == old(part)@.len(),
            n == x@.len(),
            n == pow2(log_n as nat),
            log_n <= 64,
            start == c * chunk,
            start + len <= n,
            i <= len,
            forall|j: int|
                0 <= j < i ==> #[trigger] part@[j] == x@[bitrev(
                    (start + j) as nat,
                    log_n as nat,
                ) as int],
        decreases len - i,
    {
        part[i] = pick_bit_reversed(x, start + i, log_n);
        i = i + 1;
    }
}

/// The butterflies of one group that fills `part`.
pub fn butterfly_group(part: &mut [Belt], m: usize, w: Belt)
    requires
        m >= 1,
        old(part)@.len() == 2 * m,
    ensures
        group_done(old(part)@, final(part)@, m as int, w@),
{
    butterfly_group_at(part, 0, m, w);
}

/// What `butterfly_group` does to one group of `2 * m` entries.
pub open spec fn group_done(before: Seq<Belt>, after: Seq<Belt>, m: int, w: int) -> bool {
    &&& after.len() == before.len()
    &&& forall|i: int|
        0 <= i < 2 * m ==> (#[trigger] after[i])@ == group_butterfly_at(values(before), 0, m, w, i)
}

/// Runs `pick_bit_reversed` for every index on rayon's pool and collects
/// the picks in index order (`into_par_iter` on a range, `map`, `collect`).
///
/// Trusted: the result has one entry for each index, in order, and entry
/// `k` is what `pick_bit_reversed` returns for `k`.
#[verifier::external_body]
fn par_gather_bit_reversed(x: &[Belt], log_n: u32) -> (out: Vec<Belt>)
    requires
        x@.len() == pow2(log_n as nat),
        log_n <= 64,
    ensures
        out@.len() == x@.len(),
        forall|k: int|
            0 <= k < x@.len() ==> #[trigger] out@[k] == x@[bitrev(k as nat, log_n as nat) as int],
{
    (0..x.len()).into_par_iter().map(|k| pick_bit_reversed(x, k, log_n)).collect()
}

/// Runs `fill_bit_reversed` on rayon's pool for every chunk of `chunk`
/// entries of `out`, each with its number (`par_chunks_mut`, `enumerate`,
/// `for_each`). The chunks do not overlap and cover `out`; the last one
/// may be shorter.
///
/// Trusted: every entry of `out` is what `fill_bit_reversed` writes at its
/// place.
#[verifier::external_body]
fn par_fill_bit_reversed(out: &mut [Belt], x: &[Belt], log_n: u32, chunk: usize)
    requires
        chunk >= 1,
        x@.len() == pow2(log_n as nat),
        old(out)@.len() == x@.len(),
        log_n <= 64,
    ensures
        final(out)@.len() == old(out)@.len(),
        forall|k: int|
            0 <= k < x@.len() ==> #[trigger] final(out)@[k] == x@[bitrev(
                k as nat,
                log_n as nat,
            ) as int],
{
    out.par_chunks_mut(chunk).enumerate().for_each(
        |(c, part)| fill_bit_reversed(part, c, chunk, x, log_n),
    );
}

/// Runs `butterfly_group` on rayon's pool for every chunk of `group`
/// entries of `x` (`par_chunks_mut`, `for_each`). The length of `x` is a
/// multiple of `group`, so every chunk has exactly `group` entries.
///
/// Trusted: every chunk is changed as `butterfly_group` changes it, and
/// nothing else is.
#[verifier::external_body]
fn par_butterfly_groups(x: &mut [Belt], m: usize, group: usize, w: Belt)
    requires
        m >= 1,
        group == 2 * m,
        old(x)@.len() as int % group as int == 0,
    ensures
        final(x)@.len() == old(x)@.len(),
        forall|g: int|
            0 <= g < old(x)@.len() as int / group as int ==> group_done(
                #[trigger] old(x)@.subrange(g * group, (g + 1) * group),
                final(x)@.subrange(g * group, (g + 1) * group),
                m as int,
                w@,
            ),
{
    x.par_chunks_mut(group).for_each(|part| butterfly_group(part, m, w));
}

/// One butterfly stage over all groups of `2 * m` entries, the groups
/// handed to the pool.
pub fn butterfly_stage_parallel(x: &mut [Belt], m: usize, w: Belt)
    requires
        m >= 1,
        2 * m <= usize::MAX,
        old(x)@.len() as int % (2 * m) as int == 0,
    ensures
        final(x)@.len() == old(x)@.len(),
        values(final(x)@) == stage(values(old(x)@), m as int, w@),
{
    let ghost before = x@;
    par_butterfly_groups(x, m, 2 * m, w);
    proof {
        let n = before.len() as int;
        let group = (2 * m) as int;
        let count = n / group;
        lemma_fundamental_div_mod(n, group);
        let orig = values(before);
        assert forall|i: int| 0 <= i < n implies values(x@)[i] == butterfly_at(
            orig,
            m as int,
            w@,
            i,
        ) by {
            let g = i / group;
            let j = i % group;
            lemma_fundamental_div_mod(i, group);
            assert(0 <= g < count) by (nonlinear_arith)
                requires
                    0 <= i < n,
                    n == group * count,
                    i == group * g + j,
                    0 <= j < group,
            ;
            assert(group * g == g * group) by (nonlinear_arith);
            assert((g + 1) * group <= n) by (nonlinear_arith)
                requires
                    g + 1 <= count,
                    n == group * count,
                    group > 0,
            ;
            assert((g + 1) * group == g * group + group) by (nonlinear_arith);
            let b = before.subrange(g * group, (g + 1) * group);
            let a = x@.subrange(g * group, (g + 1) * group);
            assert(group_done(b, a, m as int, w@));
            assert(a[j] == x@[i]);
            let vb = values(b);
            if j < m {
                assert(vb[j] == orig[i]);
                assert(vb[j + m] == orig[i + m]);
            } else {
                assert(vb[j] == orig[i]);
                assert(vb[j - m] == orig[i - m]);
            }
        }
        assert(values(x@) =~= stage(orig, m as int, w@));
    }
}

/// The transform of `bp` with root `root`, with `threads` compute threads
/// at hand.
///
/// The result does not depend on `threads`: it is the result of `bp_ntt`.
pub fn bp_ntt_parallel(bp: &[Belt], root: &Belt, threads: usize) -> (r: Vec<Belt>)
    requires
        is_power_of_two(bp@.len() as int),
    ensures
        values(r@) == ntt(values(bp@), root@),
        r@.len() == bp@.len(),
        primitive_root(root@, bp@.len() as int) ==> forall|i: int|
            0 <= i < bp@.len() ==> #[trigger] values(r@)[i] % modulus() == field_eval(
                values(bp@),
                field_pow(root@, i as nat),
            ),
{
    let n = bp.len();
    proof {
        if primitive_root(root@, n as int) {
            crate::ntt_laws::lemma_ntt_of_primitive(values(bp@), root@);
        }
    }
    if n == 1 {
        let mut r: Vec<Belt> = Vec::new();
        r.push(bp[0]);
        proof {
            assert(values(r@) =~= values(bp@));
        }
        return r;
    }
    let log_n = match exact_log2(n as u64) {
        Some(k) => k,
        None => {
            proof {
                assert(false);
            }
            0
        },
    };
    let mut x: Vec<Belt>;
    if n >= PARALLEL_PERMUTE_MIN && threads > 1 {
        if n < CHUNKED_PERMUTE_MIN {
            x = par_gather_bit_reversed(bp, log_n);
        } else {
            let share = n / threads;
            let chunk = if share == 0 {
                1
            } else {
                share
            };
            x = zeros(n);
            par_fill_bit_reversed(x.as_mut_slice(), bp, log_n, chunk);
        }
    } else {
        x = slice_to_vec(bp);
        bit_reverse_permute(x.as_mut_slice(), log_n);
    }
    let ghost x0 = values(bp@);
    let ghost total = log_n as nat;
    proof {
        assert forall|k: int| 0 <= k < n implies values(x@)[k] == x0[bitrev(
            k as nat,
            total,
        ) as int] by {
            lemma_bitrev_bound(k as nat, total);
        }
        lemma_blocks_start(values(x@), x0, root@, total);
        crate::bits::lemma_pow2_zero();
    }
    let mut s: u32 = 0;
    let mut m: usize = 1;
    while s < log_n
        invariant
            s <= log_n < 64,
            total == log_n,
            m == pow2(s as nat),
            n == pow2(total),
            n == bp@.len(),
            x@.len() == n,
            x0 == values(bp@),
            blocks_done(values(x@), x0, root@, total, s as nat),
        decreases log_n - s,
    {
        let ghost d = (total - s - 1) as nat;
        proof {
            lemma_pow2_pos(d);
            lemma_pow2_pos(s as nat);
            lemma_pow2_unfold((s + 1) as nat);
            lemma_pow2_adds(d, (s + 1) as nat);
            let t = pow2(d) as int;
            assert(n == t * (2 * m));
            assert(2 * m <= t * (2 * m)) by (nonlinear_arith)
                requires
                    t >= 1,
                    m >= 1,
            ;
            assert(t * (2 * m) == (2 * m) * t) by (nonlinear_arith);
            lemma_fundamental_div_mod_converse(n as int, (2 * m) as int, t, 0);
        }
        let w_m = Belt(bpow(root.0, (n / (2 * m)) as u64));
        proof {
            lemma_stage_step(values(x@), x0, root@, total, s as nat);
        }
        if m >= PARALLEL_STAGE_MIN && threads > 1 {
            butterfly_stage_parallel(x.as_mut_slice(), m, w_m);
        } else {
            butterfly_stage(x.as_mut_slice(), m, w_m);
        }
        m = m * 2;
        s = s + 1;
    }
    proof {
        lemma_blocks_end(values(x@), x0, root@, total);
    }
    x
}

/// The transform of `bp` with the root that belongs to its length, with
/// `threads` compute threads at hand.
///
/// Fails exactly when no root of order `bp.len()` is available.
pub fn bp_fft_parallel(bp: &[Belt], threads: usize) -> (r: Result<Vec<Belt>, FieldError>)
    ensures
        fft_outcome(bp@, r),
{
    proof {
        if supported_order(bp@.len() as int) {
            crate::ntt_laws::lemma_fft_evaluates(values(bp@));
        }
    }
    let order = Belt(bp.len() as u64);
    match order.ordered_root() {
        Ok(root) => Ok(bp_ntt_parallel(bp, &root, threads)),
        Err(e) => Err(e),
    }
}

/// What `bp_fft` and `bp_fft_parallel` return for the input `bp`.
pub open spec fn fft_outcome(bp: Seq<Belt>, r: Result<Vec<Belt>, FieldError>) -> bool {
    match r {
        Ok(v) => supported_order(bp.len() as int) && v@.len() == bp.len() && values(v@) == ntt(
            values(bp),
            ordered_root_of(bp.len() as int),
        ) && forall|i: int|
            0 <= i < bp.len() ==> #[trigger] values(v@)[i] % modulus() == field_eval(
                values(bp),
                field_pow(ordered_root_of(bp.len() as int), i as nat),
            ),
        Err(e) => !supported_order(bp.len() as int) && e == FieldError::OrderedRootError,
    }
}

/// From this many entries on, a pointwise product runs on the pool.
pub const PARALLEL_HADAMARD_MIN: usize = 32;

/// Products longer than this are computed with transforms.
pub const FFT_MUL_MIN: usize = 16;

/// Multiplies `v` by `s` in place.
pub fn scale_entry(v: &mut Belt, s: Belt)
    ensures
        final(v)@ == field_mul(old(v)@, s@),
{
    *v = v.mul(s);
}

/// Runs `bp_hadamard` on rayon's pool for every chunk of `chunk` entries
/// of `out`, together with the chunks of `a` and of `b` at the same place
/// (`par_chunks_mut`, `par_chunks`, `zip`, `for_each`). The three have the
/// same length, so the chunks are aligned.
///
/// Trusted: every entry of `out` is what `bp_hadamard` writes at its place:
/// the product of the entries of `a` and `b` there.
#[verifier::external_body]
fn par_hadamard(out: &mut [Belt], a: &[Belt], b: &[Belt], chunk: usize)
    requires
        chunk >= 1,
        a@.len() == b@.len(),
        old(out)@.len() == a@.len(),
    ensures
        final(out)@.len() == old(out)@.len(),
        values(final(out)@) == hadamard(values(a@), values(b@)),
{
    out.par_chunks_mut(chunk).zip(a.par_chunks(chunk).zip(b.par_chunks(chunk))).for_each(
        |(r, (x, y))| bp_hadamard(x, y, r),
    );
}

/// Runs `scale_entry` on rayon's pool for every entry of `x`
/// (`par_iter_mut`, `for_each`).
///
/// Trusted: every entry is changed as `scale_entry` changes it.
#[verifier::external_body]
fn par_scale(x: &mut [Belt], s: Belt)
    ensures
        final(x)@.len() == old(x)@.len(),
        values(final(x)@) == scale(values(old(x)@), s@),
{
    x.par_iter_mut().for_each(|v| scale_entry(v, s));
}

/// Runs `bp_fft_parallel` on `a` and on `b`, possibly at the same time
/// (rayon's `join`), and returns both results.
///
/// Trusted: each result is what `bp_fft_parallel` returns for its input.
#[verifier::external_body]
fn join_ffts(a: &[Belt], b: &[Belt], threads: usize) -> (r: (
    Result<Vec<Belt>, FieldError>,
    Result<Vec<Belt>, FieldError>,
))
    ensures
        fft_outcome(a@, r.0),
        fft_outcome(b@, r.1),
{
    rayon::join(|| bp_fft_parallel(a, threads), || bp_fft_parallel(b, threads))
}

/// The pointwise product of `a` and `b`, written to `res`, with `threads`
/// compute threads at hand.
pub fn bp_hadamard_parallel(a: &[Belt], b: &[Belt], res: &mut [Belt], threads: usize)
    requires
        a@.len() == b@.len(),
        old(res)@.len() == a@.len(),
    ensures
        final(res)@.len() == old(res)@.len(),
        values(final(res)@) == hadamard(values(a@), values(b@)),
{
    let n = a.len();
    if n > PARALLEL_HADAMARD_MIN && threads > 1 {
        // the smallest chunk with which `threads` chunks cover `n` entries
        proof {
            vstd::arithmetic::div_mod::lemma_div_is_ordered_by_denominator(
                n as int,
                2,
                threads as int,
            );
        }
        let chunk = if n % threads == 0 {
            n / threads
        } else {
            n / threads + 1
        };
        let chunk = if chunk == 0 {
            1
        } else {
            chunk
        };
        par_hadamard(res, a, b, chunk);
    } else {
        bp_hadamard(a, b, res);
    }
}

/// The smallest power of two that is at least `n`, if it fits.
pub fn next_power_of_two(n: usize) -> (r: Option<usize>)
    ensures
        match r {
            Some(p) => is_power_of_two(p as int) && n <= p && forall|j: nat|
                n <= pow2(j) ==> p <= #[trigger] pow2(j),
            None => forall|j: nat| n <= pow2(j) ==> #[trigger] pow2(j) > usize::MAX,
        },
{
    let mut p: usize = 1;
    let ghost mut k: nat = 0;
    proof {
        crate::bits::lemma_pow2_zero();
        assert forall|j: nat| 1 <= #[trigger] pow2(j) by {
            lemma_pow2_pos(j);
        }
    }
    while p < n
        invariant
            p == pow2(k),
            p >= 1,
            forall|j: nat| n <= pow2(j) ==> p <= #[trigger] pow2(j),
        decreases usize::MAX - p,
    {
        proof {
            lemma_pow2_unfold(k + 1);
            assert forall|j: nat| n <= pow2(j) implies 2 * p <= #[trigger] pow2(j) by {
                if j <= k {
                    if j < k {
                        vstd::arithmetic::power2::lemma_pow2_strictly_increases(j, k);
                    }
                } else {
                    if k + 1 < j {
                        vstd::arithmetic::power2::lemma_pow2_strictly_increases(k + 1, j);
                    }
                }
            }
        }
        if p > usize::MAX / 2 {
            return None;
        }
        p = p * 2;
        proof {
            k = k + 1;
        }
    }
    Some(p)
}

/// Whether a transform size for a product of `n` coefficients is
/// available: a power of two that is at least `n`, has a root of its
/// order, and fits a machine word.
pub open spec fn fft_size_available(n: int) -> bool {
    exists|k: nat| k <= 32 && n <= #[trigger] pow2(k) && pow2(k) <= usize::MAX
}

/// If the smallest power of two that is at least `n` has no root of its
/// order, then no transform size for `n` is available.
proof fn lemma_no_smaller_size(n: int, size: int)
    requires
        is_power_of_two(size),
        forall|j: nat| n <= pow2(j) ==> size <= #[trigger] pow2(j),
        !supported_order(size),
    ensures
        !fft_size_available(n),
{
    if fft_size_available(n) {
        let k = choose|k: nat| k <= 32 && n <= #[trigger] pow2(k) && pow2(k) <= usize::MAX;
        let s = choose|s: nat| size == pow2(s);
        assert(size <= pow2(k));
        if s > k {
            vstd::arithmetic::power2::lemma_pow2_strictly_increases(k, s);
        }
        assert(s <= 32 && size == pow2(s));
    }
}

/// `a` followed by zeros, `n` entries in all.
pub fn padded(a: &[Belt], n: usize) -> (r: Vec<Belt>)
    requires
        a@.len() <= n,
    ensures
        r@.len() == n,
        values(r@) == pad(values(a@), n as nat),
{
    let mut r = zeros(n);
    let la = a.len();
    let mut i: usize = 0;
    while i < la
        invariant
            la == a@.len(),
            la <= n,
            r@.len() == n,
            i <= la,
            forall|j: int| 0 <= j < i ==> #[trigger] r@[j] == a@[j],
            forall|j: int| i <= j < n ==> (#[trigger] r@[j]).0 == 0,
        decreases la - i,
    {
        r[i] = a[i];
        i = i + 1;
    }
    proof {
        assert(values(r@) =~= pad(values(a@), n as nat));
    }
    r
}

/// The product of `a` and `b` by transforms, written to `result`, with
/// `threads` compute threads at hand.
///
/// Succeeds exactly when an operand is empty or a transform size for the
/// product is available; the product is then the schoolbook product. On
/// failure `result` is left as it was.
pub fn bpmul_fft_parallel(a: &[Belt], b: &[Belt], result: &mut [Belt], threads: usize) -> (r:
    Result<(), FieldError>)
    requires
        old(result)@.len() == product_len(a@.len(), b@.len()),
    ensures
        final(result)@.len() == old(result)@.len(),
        match r {
            Ok(_) => values(final(result)@) == poly_mul(values(a@), values(b@)),
            Err(e) => e == FieldError::OrderedRootError && final(result)@ == old(result)@,
        },
        r is Ok <==> a@.len() == 0 || b@.len() == 0 || fft_size_available(
            old(result)@.len() as int,
        ),
{
    let n = result.len();
    let ghost va = values(a@);
    let ghost vb = values(b@);
    if a.len() == 0 || b.len() == 0 {
        result[0] = Belt(0);
        proof {
            crate::mul_laws::lemma_conv_empty(va, vb, 0, va.len());
            vstd::arithmetic::div_mod::lemma_small_mod(0, crate::field::modulus() as nat);
            assert(values(result@) =~= poly_mul(va, vb));
        }
        return Ok(());
    }
    let size = match next_power_of_two(n) {
        Some(p) => p,
        None => {
            return Err(FieldError::OrderedRootError);
        },
    };
    let root = match Belt(size as u64).ordered_root() {
        Ok(w) => w,
        Err(e) => {
            proof {
                lemma_no_smaller_size(n as int, size as int);
            }
            return Err(e);
        },
    };
    let ghost k = choose|k: nat| k <= 32 && size == pow2(k);
    let a_padded = padded(a, size);
    let b_padded = padded(b, size);
    let (a_res, b_res) = join_ffts(a_padded.as_slice(), b_padded.as_slice(), threads);
    let a_fft = match a_res {
        Ok(v) => v,
        Err(e) => {
            return Err(e);
        },
    };
    let b_fft = match b_res {
        Ok(v) => v,
        Err(e) => {
            return Err(e);
        },
    };
    let mut c_fft = zeros(size);
    if size >= PARALLEL_HADAMARD_MIN && threads > 1 {
        let share = size / threads;
        let chunk = if share == 0 {
            1
        } else {
            share
        };
        par_hadamard(c_fft.as_mut_slice(), a_fft.as_slice(), b_fft.as_slice(), chunk);
    } else {
        bp_hadamard(a_fft.as_slice(), b_fft.as_slice(), c_fft.as_mut_slice());
    }
    let root_inv = root.inv();
    let mut c_result = bp_ntt_parallel(c_fft.as_slice(), &root_inv, threads);
    let n_inv = Belt(size as u64).inv();
    par_scale(c_result.as_mut_slice(), n_inv);
    proof {
        crate::roots::lemma_order_quotient(k);
        crate::roots::lemma_root_is_principal(k);
        crate::mul_laws::lemma_root_unit(k);
        crate::mul_laws::lemma_pow2_unit(k);
        crate::mul_laws::lemma_convolution(va, vb, root@, root_inv@, n_inv@, k);
        assert(values(c_result@) == pad(poly_mul(va, vb), size as nat));
    }
    let mut i: usize = 0;
    while i < n
        invariant
            n == result@.len(),
            n == product_len(va.len(), vb.len()),
            n <= size,
            c_result@.len() == size,
            values(c_result@) == pad(poly_mul(va, vb), size as nat),
            i <= n,
            forall|j: int| 0 <= j < i ==> (#[trigger] result@[j])@ == poly_mul(va, vb)[j],
        decreases n - i,
    {
        proof {
            assert(values(c_result@)[i as int] == c_result@[i as int]@);
        }
        result[i] = c_result[i];
        i = i + 1;
    }
    proof {
        assert(values(result@) =~= poly_mul(va, vb));
    }
    Ok(())
}

} // verus!
