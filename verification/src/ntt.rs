//! The sequential transform: bit-reversal permutation, then butterfly
//! stages over blocks of doubling size.

use crate::bits::{bitrev, bitreverse, lemma_bitrev_bound, lemma_bitrev_involution, lemma_pow2_zero};
use crate::eval::field_eval;
use crate::field::{bpow, field_inv, field_pow, modulus, values, Belt, FieldError};
use crate::ntt_laws::lemma_ntt_of_primitive;
use crate::field_lemmas::{lemma_field_mul_laws, lemma_field_pow_succ, lemma_field_pow_zero};
use crate::ntt_spec::{
    blocks_done, butterfly_at, group_butterfly_at, lemma_block_index, lemma_blocks_end,
    lemma_blocks_start, lemma_stage_step, ntt, stage,
};
use crate::poly::{bp_scale, scale};
use crate::roots::{
    exact_log2, is_power_of_two, ordered_root_of, primitive_root, supported_order,
};
use vstd::arithmetic::div_mod::{lemma_fundamental_div_mod, lemma_fundamental_div_mod_converse};
use vstd::arithmetic::power2::{lemma_pow2_adds, lemma_pow2_pos, lemma_pow2_unfold, pow2};
use vstd::prelude::*;
use vstd::slice::slice_to_vec;

verus! {

/// Permutes `x` in place so that position `k` holds what position
/// `bitrev(k)` held.
pub fn bit_reverse_permute(x: &mut [Belt], log_n: u32)
    requires
        old(x)@.len() == pow2(log_n as nat),
        log_n <= 64,
    ensures
        final(x)@.len() == old(x)@.len(),
        forall|k: int|
            0 <= k < old(x)@.len() ==> final(x)@[k] == old(x)@[bitrev(
                k as nat,
                log_n as nat,
            ) as int],
{
    let n = x.len();
    let ghost l = log_n as nat;
    let mut k: usize = 0;
    proof {
        assert forall|i: int| 0 <= i < n implies bitrev(i as nat, l) < n && bitrev(
            #[trigger] bitrev(i as nat, l),
            l,
        ) == i by {
            lemma_bitrev_bound(i as nat, l);
            lemma_bitrev_involution(i as nat, l);
        }
    }
    while k < n
        invariant
            x@.len() == n,
            n == old(x)@.len(),
            n == pow2(l),
            l == log_n,
            log_n <= 64,
            k <= n,
            forall|i: int|
                0 <= i < n ==> bitrev(i as nat, l) < n && bitrev(#[trigger] bitrev(i as nat, l), l)
                    == i,
            forall|i: int|
                0 <= i < n ==> #[trigger] x@[i] == if i < k || bitrev(i as nat, l) < k {
                    old(x)@[bitrev(i as nat, l) as int]
                } else {
                    old(x)@[i]
                },
        decreases n - k,
    {
        proof {
            lemma_bitrev_bound(k as nat, l);
            lemma_bitrev_involution(k as nat, l);
        }
        let rk = bitreverse(k as u64, log_n) as usize;
        if k < rk {
            let a = x[k];
            let b = x[rk];
            x[k] = b;
            x[rk] = a;
        }
        k = k + 1;
    }
}

/// The butterflies of the one group of `2 * m` entries that starts at `k`,
/// in place, with twiddles `w^0, w^1, ...`.
pub fn butterfly_group_at(x: &mut [Belt], k: usize, m: usize, w: Belt)
    requires
        m >= 1,
        k + 2 * m <= old(x)@.len(),
    ensures
        final(x)@.len() == old(x)@.len(),
        forall|i: int|
            0 <= i < k || k + 2 * m <= i < old(x)@.len() ==> final(x)@[i] == old(x)@[i],
        forall|i: int|
            k <= i < k + 2 * m ==> (#[trigger] final(x)@[i])@ == group_butterfly_at(
                values(old(x)@),
                k as int,
                m as int,
                w@,
                i,
            ),
{
    let ghost orig = values(old(x)@);
    let n = x.len();
    let mut tw = Belt(1);
    let mut j: usize = 0;
    proof {
        lemma_field_pow_zero(w@);
    }
    while j < m
        invariant
            m >= 1,
            k + 2 * m <= n,
            x@.len() == n,
            n == old(x)@.len(),
            orig == values(old(x)@),
            j <= m,
            tw@ == field_pow(w@, j as nat),
            forall|i: int|
                0 <= i < k || k + j <= i < k + m || k + m + j <= i < x@.len() ==> #[trigger] x@[i]
                    == old(x)@[i],
            forall|i: int|
                k <= i < k + j || k + m <= i < k + m + j ==> (#[trigger] x@[i])@
                    == group_butterfly_at(orig, k as int, m as int, w@, i),
        decreases m - j,
    {
        let u = x[k + j];
        let v = x[k + j + m].mul(tw);
        x[k + j] = u.add(v);
        x[k + j + m] = u.sub(v);
        proof {
            lemma_field_pow_succ(w@, j as nat);
            lemma_field_mul_laws(w@, field_pow(w@, j as nat), 0);
        }
        tw = tw.mul(w);
        j = j + 1;
    }
}

/// One butterfly stage over all groups of `2 * m` entries, in place.
pub fn butterfly_stage(x: &mut [Belt], m: usize, w: Belt)
    requires
        m >= 1,
        2 * m <= usize::MAX,
        old(x)@.len() as int % (2 * m) as int == 0,
    ensures
        final(x)@.len() == old(x)@.len(),
        values(final(x)@) == stage(values(old(x)@), m as int, w@),
{
    let n = x.len();
    let ghost orig = values(old(x)@);
    let ghost count = n as int / (2 * m) as int;
    let ghost mut g: int = 0;
    let mut k: usize = 0;
    proof {
        lemma_fundamental_div_mod(n as int, (2 * m) as int);
        assert(g * (2 * m) == 0);
    }
    while k < n
        invariant
            m >= 1,
            2 * m <= usize::MAX,
            x@.len() == n,
            n == old(x)@.len(),
            orig == values(old(x)@),
            n == (2 * m) * count,
            k == g * (2 * m),
            0 <= g <= count,
            forall|i: int|
                0 <= i < k ==> (#[trigger] x@[i])@ == butterfly_at(orig, m as int, w@, i),
            forall|i: int| k <= i < n ==> #[trigger] x@[i] == old(x)@[i],
        decreases n - k,
    {
        proof {
            assert(g < count) by (nonlinear_arith)
                requires
                    g * (2 * m) < (2 * m) * count,
                    m >= 1,
            ;
            assert((g + 1) * (2 * m) <= (2 * m) * count) by (nonlinear_arith)
                requires
                    g + 1 <= count,
                    m >= 1,
            ;
            assert((g + 1) * (2 * m) == g * (2 * m) + 2 * m) by (nonlinear_arith);
        }
        let ghost before = x@;
        butterfly_group_at(x, k, m, w);
        proof {
            assert forall|i: int| k <= i < k + 2 * m implies (#[trigger] x@[i])@ == butterfly_at(
                orig,
                m as int,
                w@,
                i,
            ) by {
                lemma_block_index(g, (2 * m) as int, i - k);
                let vb = values(before);
                if i - k < m {
                    assert(vb[i] == orig[i]);
                    assert(vb[i + m] == orig[i + m]);
                } else {
                    assert(vb[i] == orig[i]);
                    assert(vb[i - m] == orig[i - m]);
                }
            }
            g = g + 1;
        }
        k = k + 2 * m;
    }
    proof {
        assert(values(x@) =~= stage(orig, m as int, w@));
    }
}

/// The transform of `bp` with root `root`.
///
/// For every root the result is the butterfly recursion `ntt`; for a
/// principal root of order `bp.len()` that is the evaluation of the
/// polynomial `bp` at the powers of the root.
pub fn bp_ntt(bp: &[Belt], root: &Belt) -> (r: Vec<Belt>)
    requires
        is_power_of_two(bp@.len() as int),
    ensures
        values(r@) == ntt(values(bp@), root@),
        r@.len() == bp@.len(),
        primitive_root(root@, bp@.len() as int) ==> forall|i: int|
            0 <= i < bp@.len() ==> #[trigger] values(r@)[i] % modulus() == field_eval(
                values(bp@),
                field_pow(root@, i as nat),
            ),
{
    let n = bp.len();
    proof {
        if primitive_root(root@, n as int) {
            lemma_ntt_of_primitive(values(bp@), root@);
        }
    }
    if n == 1 {
        let mut r: Vec<Belt> = Vec::new();
        r.push(bp[0]);
        proof {
            assert(values(r@) =~= values(bp@));
        }
        return r;
    }
    let log_n = match exact_log2(n as u64) {
        Some(k) => k,
        None => {
            proof {
                assert(false);
            }
            0
        },
    };
    let mut x = slice_to_vec(bp);
    bit_reverse_permute(x.as_mut_slice(), log_n);
    run_stages(&mut x, bp, root, log_n);
    x
}

/// Runs all butterfly stages on a bit-reversed copy `x` of `bp`.
fn run_stages(x: &mut Vec<Belt>, bp: &[Belt], root: &Belt, log_n: u32)
    requires
        log_n < 64,
        bp@.len() == pow2(log_n as nat),
        old(x)@.len() == bp@.len(),
        forall|k: int|
            0 <= k < bp@.len() ==> old(x)@[k] == bp@[bitrev(k as nat, log_n as nat) as int],
    ensures
        final(x)@.len() == bp@.len(),
        values(final(x)@) == ntt(values(bp@), root@),
{
    let n = bp.len();
    let ghost x0 = values(bp@);
    let ghost total = log_n as nat;
    proof {
        assert forall|k: int| 0 <= k < n implies values(x@)[k] == x0[bitrev(
            k as nat,
            total,
        ) as int] by {
            lemma_bitrev_bound(k as nat, total);
        }
        lemma_blocks_start(values(x@), x0, root@, total);
    }
    let mut s: u32 = 0;
    let mut m: usize = 1;
    proof {
        lemma_pow2_zero();
    }
    while s < log_n
        invariant
            s <= log_n < 64,
            total == log_n,
            m == pow2(s as nat),
            n == pow2(total),
            n == bp@.len(),
            x@.len() == n,
            x0 == values(bp@),
            blocks_done(values(x@), x0, root@, total, s as nat),
        decreases log_n - s,
    {
        let ghost d = (total - s - 1) as nat;
        proof {
            lemma_pow2_pos(d);
            lemma_pow2_pos(s as nat);
            lemma_pow2_unfold((s + 1) as nat);
            lemma_pow2_adds(d, (s + 1) as nat);
            let t = pow2(d) as int;
            assert(n == t * (2 * m));
            assert(2 * m <= t * (2 * m)) by (nonlinear_arith)
                requires
                    t >= 1,
                    m >= 1,
            ;
            assert(t * (2 * m) == (2 * m) * t) by (nonlinear_arith);
            lemma_fundamental_div_mod_converse(n as int, (2 * m) as int, t, 0);
        }
        let w_m = Belt(bpow(root.0, (n / (2 * m)) as u64));
        proof {
            lemma_stage_step(values(x@), x0, root@, total, s as nat);
        }
        butterfly_stage(x.as_mut_slice(), m, w_m);
        m = m * 2;
        s = s + 1;
    }
    proof {
        lemma_blocks_end(values(x@), x0, root@, total);
    }
}

/// The transform of `bp` with the root that belongs to its length.
///
/// Fails exactly when no root of order `bp.len()` is available.
pub fn bp_fft(bp: &[Belt]) -> (r: Result<Vec<Belt>, FieldError>)
    ensures
        match r {
            Ok(v) => supported_order(bp@.len() as int) && values(v@) == ntt(
                values(bp@),
                ordered_root_of(bp@.len() as int),
            ) && v@.len() == bp@.len() && forall|i: int|
                0 <= i < bp@.len() ==> #[trigger] values(v@)[i] % modulus() == field_eval(
                    values(bp@),
                    field_pow(ordered_root_of(bp@.len() as int), i as nat),
                ),
            Err(e) => !supported_order(bp@.len() as int) && e == FieldError::OrderedRootError,
        },
{
    proof {
        if supported_order(bp@.len() as int) {
            crate::ntt_laws::lemma_fft_evaluates(values(bp@));
        }
    }
    let order = Belt(bp.len() as u64);
    match order.ordered_root() {
        Ok(root) => Ok(bp_ntt(bp, &root)),
        Err(e) => Err(e),
    }
}

/// The inverse transform of `bp`: the transform with the inverse of the
/// root that belongs to the length, every entry then multiplied by the
/// inverse of the length.
///
/// Fails exactly when no root of order `bp.len()` is available. The
/// result is the polynomial whose values at the powers of the root are the
/// input; applied to the transform of reduced values it gives them back.
pub fn bp_ifft(bp: &[Belt]) -> (r: Result<Vec<Belt>, FieldError>)
    ensures
        match r {
            Ok(v) => supported_order(bp@.len() as int) && v@.len() == bp@.len() && values(v@)
                == scale(
                ntt(values(bp@), field_inv(ordered_root_of(bp@.len() as int))),
                field_inv(bp@.len() as int),
            ) && forall|i: int|
                0 <= i < bp@.len() ==> field_eval(
                    values(v@),
                    field_pow(ordered_root_of(bp@.len() as int), i as nat),
                ) == (#[trigger] values(bp@)[i]) % modulus(),
            Err(e) => !supported_order(bp@.len() as int) && e == FieldError::OrderedRootError,
        },
{
    proof {
        if supported_order(bp@.len() as int) {
            let k = choose|k: nat| k <= 32 && bp@.len() as int == vstd::arithmetic::power2::pow2(k);
            crate::roots::lemma_order_quotient(k);
            assert forall|i: int| 0 <= i < bp@.len() implies field_eval(
                scale(
                    ntt(values(bp@), field_inv(ordered_root_of(bp@.len() as int))),
                    field_inv(bp@.len() as int),
                ),
                field_pow(ordered_root_of(bp@.len() as int), i as nat),
            ) == (#[trigger] values(bp@)[i]) % modulus() by {
                crate::mul_laws::lemma_ifft_interpolates(values(bp@), k, i);
            }
        }
    }
    let order = Belt(bp.len() as u64);
    match order.ordered_root() {
        Ok(root) => {
            let root_inv = root.inv();
            let mut x = bp_ntt(bp, &root_inv);
            bp_scale(x.as_mut_slice(), order.inv());
            Ok(x)
        },
        Err(e) => Err(e),
    }
}

} // verus!
