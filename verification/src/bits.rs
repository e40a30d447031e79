//! Bit reversal of indices, the permutation that precedes the butterfly
//! stages of an in-place transform.

use vstd::arithmetic::power::lemma_pow0;
use vstd::arithmetic::power2::{
    lemma2_to64_rest, lemma_pow2_pos, lemma_pow2_strictly_increases, lemma_pow2_unfold, pow2,
};
use vstd::prelude::*;

verus! {

/// The number whose `l` low bits are the `l` low bits of `k` in reverse
/// order: the lowest bit of `k` becomes the highest of the result.
pub open spec fn bitrev(k: nat, l: nat) -> nat
    decreases l,
{
    if l == 0 {
        0
    } else {
        (k % 2) * pow2((l - 1) as nat) + bitrev(k / 2, (l - 1) as nat)
    }
}

/// `2^0` is one.
pub proof fn lemma_pow2_zero()
    ensures
        pow2(0) == 1,
{
    lemma_pow0(2);
}

/// A reversal of `l` bits is below `2^l`.
pub proof fn lemma_bitrev_bound(k: nat, l: nat)
    ensures
        bitrev(k, l) < pow2(l),
    decreases l,
{
    if l == 0 {
        lemma_pow2_zero();
    } else {
        lemma_bitrev_bound(k / 2, (l - 1) as nat);
        lemma_pow2_unfold(l);
        let h = pow2((l - 1) as nat);
        assert((k % 2) * h <= h) by (nonlinear_arith)
            requires
                k % 2 <= 1,
                h >= 0,
        ;
    }
}

/// Reversing one more bit of an even or an odd index.
pub proof fn lemma_bitrev_double(b: nat, l: nat)
    ensures
        bitrev(2 * b, l + 1) == bitrev(b, l),
        bitrev(2 * b + 1, l + 1) == pow2(l) + bitrev(b, l),
{
    assert((2 * b) % 2 == 0 && (2 * b) / 2 == b);
    assert((2 * b + 1) % 2 == 1 && (2 * b + 1) / 2 == b);
    assert(0 * pow2(l) == 0);
    assert(1 * pow2(l) == pow2(l));
}

/// The highest of `l + 1` bits becomes the lowest bit of the reversal.
pub proof fn lemma_bitrev_top(b: nat, y: nat, l: nat)
    requires
        b <= 1,
        y < pow2(l),
    ensures
        bitrev(b * pow2(l) + y, l + 1) == 2 * bitrev(y, l) + b,
    decreases l,
{
    let x = b * pow2(l) + y;
    if l == 0 {
        lemma_pow2_zero();
        assert(y == 0);
        assert(x == b) by (nonlinear_arith)
            requires
                x == b * 1 + 0,
        ;
        assert(bitrev(x / 2, 0) == 0);
        assert(b * 1 == b) by (nonlinear_arith);
    } else {
        let h = pow2((l - 1) as nat);
        lemma_pow2_unfold(l);
        // x = b * 2h + y, so x % 2 == y % 2 and x / 2 == b * h + y / 2
        assert(x == 2 * (b * h + y / 2) + y % 2) by (nonlinear_arith)
            requires
                x == b * (2 * h) + y,
        ;
        assert(x % 2 == y % 2);
        assert(x / 2 == b * h + y / 2);
        lemma_bitrev_top(b, y / 2, (l - 1) as nat);
        // bitrev(x, l+1) = (y%2) * 2^l + bitrev(b*h + y/2, l)
        //               = (y%2) * 2h + 2 * bitrev(y/2, l-1) + b
        // 2 * bitrev(y, l) + b = 2 * ((y%2) * h + bitrev(y/2, l-1)) + b
        assert((y % 2) * (2 * h) == 2 * ((y % 2) * h)) by (nonlinear_arith);
    }
}

/// Reversing twice gives the index back.
pub proof fn lemma_bitrev_involution(k: nat, l: nat)
    requires
        k < pow2(l),
    ensures
        bitrev(bitrev(k, l), l) == k,
    decreases l,
{
    if l == 0 {
        lemma_pow2_zero();
    } else {
        let h = pow2((l - 1) as nat);
        lemma_pow2_unfold(l);
        let y = bitrev(k / 2, (l - 1) as nat);
        lemma_bitrev_bound(k / 2, (l - 1) as nat);
        lemma_bitrev_involution(k / 2, (l - 1) as nat);
        lemma_bitrev_top(k % 2, y, (l - 1) as nat);
    }
}

/// Shifting in the low bit of `n`, on words with the top bit clear.
proof fn lemma_shift_in(r: u64, n: u64)
    by (bit_vector)
    requires
        r < 0x8000_0000_0000_0000,
    ensures
        (r << 1) | (n & 1) == 2 * r + n % 2,
        n >> 1 == n / 2,
{
}

/// The `l` low bits of `n` in reverse order.
pub fn bitreverse(n: u64, l: u32) -> (r: u64)
    requires
        l <= 64,
    ensures
        r == bitrev(n as nat, l as nat),
        r < pow2(l as nat),
{
    let mut r: u64 = 0;
    let mut m: u64 = n;
    let mut i: u32 = 0;
    proof {
        lemma_pow2_zero();
        lemma_pow2_pos(l as nat);
        assert(0 * pow2(l as nat) == 0);
    }
    while i < l
        invariant
            i <= l <= 64,
            r < pow2(i as nat),
            bitrev(n as nat, l as nat) == r * pow2((l - i) as nat) + bitrev(
                m as nat,
                (l - i) as nat,
            ),
        decreases l - i,
    {
        proof {
            lemma2_to64_rest();
            if i < 63 {
                lemma_pow2_strictly_increases(i as nat, 63);
            }
            lemma_shift_in(r, m);
            let h = pow2((l - i - 1) as nat);
            lemma_pow2_unfold((l - i) as nat);
            lemma_pow2_unfold((i + 1) as nat);
            assert(r * (2 * h) + (m % 2) * h == (2 * r + m % 2) * h) by (nonlinear_arith);
        }
        r = (r << 1) | (m & 1);
        m = m >> 1;
        i = i + 1;
    }
    proof {
        lemma_pow2_zero();
        assert(r * 1 == r);
    }
    r
}

} // verus!
