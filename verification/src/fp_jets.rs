//! The accelerated operations on polynomials over the cubic extension, as
//! the interpreter sees them: plain values in, a result or a typed failure
//! out.

use crate::fext::{felts, Felt, FeltView};
use crate::field::Belt;
use crate::fp_poly::{
    felt_zeros, fp_add, fp_compose, fp_fft_poly, fp_horner, fp_ifft_poly, fp_mul, fp_neg, fp_scal,
    fp_sub, fp_weight_sum, fpadd_poly, fpcompose_poly, fpeval_poly, fpmul_poly, fpneg_poly,
    fpscal_poly, fpsub_poly, interpolate_poly,
};
use crate::fext::felt_zero;
use crate::jets::JetError;
use vstd::prelude::*;

verus! {

/// The sum of two polynomials.
pub fn fp_add_jet(fp: &[Felt], fq: &[Felt]) -> (r: Vec<Felt>)
    ensures
        felts(r@) == fp_add(felts(fp@), felts(fq@)),
{
    let res_len = if fp.len() >= fq.len() {
        fp.len()
    } else {
        fq.len()
    };
    let mut res = felt_zeros(res_len);
    fpadd_poly(fp, fq, res.as_mut_slice());
    res
}

/// The negative of a polynomial.
pub fn fp_neg_jet(fp: &[Felt]) -> (r: Vec<Felt>)
    ensures
        felts(r@) == fp_neg(felts(fp@)),
{
    let mut res = felt_zeros(fp.len());
    fpneg_poly(fp, res.as_mut_slice());
    res
}

/// The difference of two polynomials.
pub fn fp_sub_jet(p: &[Felt], q: &[Felt]) -> (r: Vec<Felt>)
    ensures
        felts(r@) == fp_sub(felts(p@), felts(q@)),
{
    let res_len = if p.len() >= q.len() {
        p.len()
    } else {
        q.len()
    };
    let mut res = felt_zeros(res_len);
    fpsub_poly(p, q, res.as_mut_slice());
    res
}

/// A polynomial multiplied by an element.
pub fn fp_scal_jet(c: &Felt, fp: &[Felt]) -> (r: Vec<Felt>)
    ensures
        felts(r@) == fp_scal(c@, felts(fp@)),
{
    let mut res = felt_zeros(fp.len());
    fpscal_poly(c, fp, res.as_mut_slice());
    res
}

/// The product of two polynomials; empty if one of them is empty.
///
/// Fails exactly when the length of the product does not fit a machine
/// word.
pub fn fp_mul_jet(fp: &[Felt], fq: &[Felt]) -> (r: Result<Vec<Felt>, JetError>)
    ensures
        match r {
            Ok(v) => if fp@.len() == 0 || fq@.len() == 0 {
                v@.len() == 0
            } else {
                felts(v@) == fp_mul(felts(fp@), felts(fq@))
            },
            Err(e) => e == JetError::BadArguments && fp@.len() > 0 && fq@.len() > 0 && fp@.len()
                + fq@.len() - 1 > usize::MAX,
        },
{
    let res_len = if fp.len() == 0 || fq.len() == 0 {
        0
    } else {
        match fp.len().checked_add(fq.len() - 1) {
            Some(n) => n,
            None => {
                return Err(JetError::BadArguments);
            },
        }
    };
    let mut res = felt_zeros(res_len);
    fpmul_poly(fp, fq, res.as_mut_slice());
    Ok(res)
}

/// The value of a polynomial at a point, by Horner's scheme.
pub fn fp_eval_jet(fp: &[Felt], x: &Felt) -> (r: Felt)
    ensures
        r@ == fp_horner(felts(fp@), x@, 0),
{
    fpeval_poly(fp, x)
}

/// The coefficients handed on as they are: no transform of the extension
/// is available.
pub fn fp_fft_jet(fp: &[Felt]) -> (r: Vec<Felt>)
    ensures
        r@ == fp@,
{
    let mut res = felt_zeros(fp.len());
    fp_fft_poly(fp, res.as_mut_slice());
    res
}

/// The values handed on as they are: no inverse transform of the extension
/// is available.
pub fn fp_ifft_jet(fp: &[Felt]) -> (r: Vec<Felt>)
    ensures
        r@ == fp@,
{
    let mut res = felt_zeros(fp.len());
    fp_ifft_poly(fp, res.as_mut_slice());
    res
}

/// The leading coefficient of the polynomial through the points, in the
/// first place of a sequence that is zero otherwise.
///
/// Fails exactly when there are not as many values as points.
pub fn interpolate_jet(domain: &[Felt], values: &[Felt]) -> (r: Result<Vec<Felt>, JetError>)
    ensures
        match r {
            Ok(v) => {
                &&& values@.len() == domain@.len()
                &&& v@.len() == domain@.len()
                &&& domain@.len() > 0 ==> v@[0]@ == fp_weight_sum(
                    felts(domain@),
                    felts(values@),
                    domain@.len(),
                )
                &&& forall|k: int| 1 <= k < domain@.len() ==> (#[trigger] v@[k])@ == felt_zero()
            },
            Err(e) => e == JetError::LengthMismatch && values@.len() != domain@.len(),
        },
{
    if domain.len() != values.len() {
        return Err(JetError::LengthMismatch);
    }
    let mut res = felt_zeros(domain.len());
    interpolate_poly(domain, values, res.as_mut_slice());
    Ok(res)
}

/// The composition `p(q(X))`; empty if one of the two is empty.
///
/// Fails exactly when the length of the composition does not fit a machine
/// word.
pub fn fpcompose_jet(p: &[Felt], q: &[Felt]) -> (r: Result<Vec<Felt>, JetError>)
    ensures
        match r {
            Ok(v) => if p@.len() == 0 || q@.len() == 0 {
                v@.len() == 0
            } else {
                v@.len() == (p@.len() - 1) * (q@.len() - 1) + 1 && felts(v@) == fp_compose(
                    felts(p@),
                    felts(q@),
                    v@.len(),
                )
            },
            Err(e) => e == JetError::BadArguments && p@.len() > 0 && q@.len() > 0 && (p@.len() - 1)
                * (q@.len() - 1) + 1 > usize::MAX,
        },
{
    let res_len = if p.len() == 0 || q.len() == 0 {
        0
    } else {
        match (p.len() - 1).checked_mul(q.len() - 1) {
            Some(n) => match n.checked_add(1) {
                Some(m) => m,
                None => {
                    return Err(JetError::BadArguments);
                },
            },
            None => {
                return Err(JetError::BadArguments);
            },
        }
    };
    let mut res = felt_zeros(res_len);
    fpcompose_poly(p, q, res.as_mut_slice());
    Ok(res)
}

/// The element that four words of an atom stand for: the first three are
/// its coefficients, the fourth closes the atom. Any other number of words
/// is no element.
pub fn felt_from_words(words: &[u64]) -> (r: Option<Felt>)
    ensures
        match r {
            Some(f) => words@.len() == 4 && f@ == (FeltView {
                c0: words@[0] as int,
                c1: words@[1] as int,
                c2: words@[2] as int,
            }),
            None => words@.len() != 4,
        },
{
    if words.len() == 4 {
        Some(Felt([Belt(words[0]), Belt(words[1]), Belt(words[2])]))
    } else {
        None
    }
}

/// Byte `j` of the little-endian form of `x`.
pub open spec fn le_byte(x: u64, j: int) -> u8 {
    ((x as int / vstd::arithmetic::power::pow(256, j as nat)) % 256) as u8
}

/// The bytes of an element: its three coefficients, eight bytes each, low
/// byte first.
pub open spec fn felt_byte_seq(f: Felt) -> Seq<u8> {
    Seq::new(24, |i: int| le_byte(f.0@[i / 8].0, i % 8))
}

/// Shifting right by whole bytes and keeping the low byte.
proof fn lemma_shift_byte(x: u64, j: u64)
    requires
        j < 8,
    ensures
        ((x >> (8 * j)) & 0xff) as u8 == le_byte(x, j as int),
{
    let p = vstd::arithmetic::power::pow(256, j as nat);
    assert(p == if j == 0 {
        1int
    } else if j == 1 {
        0x100int
    } else if j == 2 {
        0x1_0000int
    } else if j == 3 {
        0x100_0000int
    } else if j == 4 {
        0x1_0000_0000int
    } else if j == 5 {
        0x100_0000_0000int
    } else if j == 6 {
        0x1_0000_0000_0000int
    } else {
        0x100_0000_0000_0000int
    }) by {
        reveal_with_fuel(vstd::arithmetic::power::pow, 9);
    }
    assert(((x >> (8 * j)) & 0xff) == if j == 0 {
        x % 0x100
    } else if j == 1 {
        (x / 0x100) % 0x100
    } else if j == 2 {
        (x / 0x1_0000) % 0x100
    } else if j == 3 {
        (x / 0x100_0000) % 0x100
    } else if j == 4 {
        (x / 0x1_0000_0000) % 0x100
    } else if j == 5 {
        (x / 0x100_0000_0000) % 0x100
    } else if j == 6 {
        (x / 0x1_0000_0000_0000) % 0x100
    } else {
        (x / 0x100_0000_0000_0000) % 0x100
    }) by (bit_vector)
        requires
            j < 8,
    ;
}

/// The bytes of an element, as an atom holds them: 24 bytes, the three
/// coefficients one after the other, each low byte first.
pub fn felt_bytes(f: &Felt) -> (bytes: Vec<u8>)
    ensures
        bytes@ == felt_byte_seq(*f),
{
    let mut bytes: Vec<u8> = Vec::new();
    let mut i: usize = 0;
    while i < 3
        invariant
            i <= 3,
            bytes@.len() == 8 * i,
            forall|k: int| 0 <= k < 8 * i ==> #[trigger] bytes@[k] == le_byte(f.0@[k / 8].0, k % 8),
        decreases 3 - i,
    {
        let word = f.0[i].0;
        let mut j: u64 = 0;
        while j < 8
            invariant
                i < 3,
                j <= 8,
                word == f.0@[i as int].0,
                bytes@.len() == 8 * i + j,
                forall|k: int|
                    0 <= k < 8 * i + j ==> #[trigger] bytes@[k] == le_byte(f.0@[k / 8].0, k % 8),
            decreases 8 - j,
        {
            proof {
                lemma_shift_byte(word, j);
            }
            bytes.push(((word >> (8 * j)) & 0xff) as u8);
            j = j + 1;
        }
        i = i + 1;
    }
    proof {
        assert(bytes@ =~= felt_byte_seq(*f));
    }
    bytes
}

/// The bytes of every coefficient of a polynomial, in order: what the
/// list form of the polynomial holds.
pub fn fpoly_to_list(fpoly: &[Felt]) -> (list: Vec<Vec<u8>>)
    ensures
        list@.len() == fpoly@.len(),
        forall|i: int| 0 <= i < fpoly@.len() ==> (#[trigger] list@[i])@ == felt_byte_seq(fpoly@[i]),
{
    let n = fpoly.len();
    let mut list: Vec<Vec<u8>> = Vec::new();
    let mut i: usize = 0;
    while i < n
        invariant
            n == fpoly@.len(),
            i <= n,
            list@.len() == i,
            forall|k: int| 0 <= k < i ==> (#[trigger] list@[k])@ == felt_byte_seq(fpoly@[k]),
        decreases n - i,
    {
        list.push(felt_bytes(&fpoly[i]));
        i = i + 1;
    }
    list
}

} // verus!
