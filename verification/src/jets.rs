//! The accelerated operations as the interpreter sees them: each takes its
//! arguments as plain values and returns a result or a typed failure.

use crate::domain_cache::{
    bp_intercosate_cached_jet, bp_shift_cached_jet, intercosate, DomainCache,
};
use crate::field::{values, Belt, FieldError};
use crate::ntt_spec::ntt;
use crate::parallel::{
    bp_fft_parallel, bp_hadamard_parallel, bp_ntt_parallel, bpmul_fft_parallel,
    fft_size_available, FFT_MUL_MIN,
};
use crate::poly::{bpmul, hadamard, poly_mul, product_len, shift, zeros};
use crate::roots::{exact_log2, is_power_of_two, ordered_root_of, supported_order};
use vstd::prelude::*;
use vstd::string::StrSliceExecFns;

verus! {

/// Why an accelerated operation refused its arguments.
#[derive(Clone, Copy, Debug, PartialEq, Eq, Structural)]
pub enum JetError {
    /// The arguments do not have the shape that the operation takes.
    BadArguments,
    /// Two polynomials that must have the same length do not, or a
    /// polynomial does not have the length that was announced.
    LengthMismatch,
    /// A length or an order that must be a power of two is not.
    NotPowerOfTwo,
    /// No root of unity of the requested order is available.
    UnsupportedOrder,
    /// The operation does not handle these arguments; the interpreter has
    /// to run its own code.
    Punt,
}

impl JetError {
    /// The failure that a failure of a field operation becomes.
    pub fn from_field(e: FieldError) -> (r: JetError)
        ensures
            r == JetError::UnsupportedOrder,
    {
        match e {
            FieldError::OrderedRootError => JetError::UnsupportedOrder,
        }
    }
}

/// The transform of `p` with the root that belongs to its length.
///
/// Fails exactly when no root of order `p.len()` is available.
pub fn bp_fft_parallel_jet(p: &[Belt], threads: usize) -> (r: Result<Vec<Belt>, JetError>)
    ensures
        match r {
            Ok(v) => supported_order(p@.len() as int) && v@.len() == p@.len() && values(v@) == ntt(
                values(p@),
                ordered_root_of(p@.len() as int),
            ),
            Err(e) => !supported_order(p@.len() as int) && e == JetError::UnsupportedOrder,
        },
{
    match bp_fft_parallel(p, threads) {
        Ok(v) => Ok(v),
        Err(e) => Err(JetError::from_field(e)),
    }
}

/// The transform of `bp` with the root `root`.
///
/// Fails exactly when the length of `bp` is no power of two.
pub fn bp_ntt_parallel_jet(bp: &[Belt], root: u64, threads: usize) -> (r: Result<
    Vec<Belt>,
    JetError,
>)
    ensures
        match r {
            Ok(v) => is_power_of_two(bp@.len() as int) && v@.len() == bp@.len() && values(v@)
                == ntt(values(bp@), root as int),
            Err(e) => !is_power_of_two(bp@.len() as int) && e == JetError::NotPowerOfTwo,
        },
{
    if exact_log2(bp.len() as u64).is_none() {
        return Err(JetError::NotPowerOfTwo);
    }
    Ok(bp_ntt_parallel(bp, &Belt(root), threads))
}

/// Whether the product of polynomials with `la` and `lb` coefficients can
/// be computed: it is short, or a transform size for it is available.
pub open spec fn product_available(la: nat, lb: nat) -> bool {
    la == 0 || lb == 0 || la + lb - 1 <= FFT_MUL_MIN || fft_size_available(la + lb - 1)
}

/// The product of the polynomials `bp` and `bq`.
///
/// A product of up to 16 coefficients is computed by the schoolbook
/// method and a longer one with transforms; the result is the same. The
/// product of an empty operand is the single coefficient zero.
pub fn bpmul_parallel_jet(bp: &[Belt], bq: &[Belt], threads: usize) -> (r: Result<
    Vec<Belt>,
    JetError,
>)
    ensures
        match r {
            Ok(v) => v@.len() == product_len(bp@.len(), bq@.len()) && values(v@) == poly_mul(
                values(bp@),
                values(bq@),
            ),
            Err(e) => e == JetError::UnsupportedOrder,
        },
        r is Ok <==> product_available(bp@.len(), bq@.len()),
{
    let la = bp.len();
    let lb = bq.len();
    let res_len: usize = if la == 0 || lb == 0 {
        1
    } else {
        match la.checked_add(lb - 1) {
            Some(n) => n,
            None => {
                return Err(JetError::UnsupportedOrder);
            },
        }
    };
    let mut res = zeros(res_len);
    if res_len > FFT_MUL_MIN {
        match bpmul_fft_parallel(bp, bq, res.as_mut_slice(), threads) {
            Ok(_) => Ok(res),
            Err(e) => Err(JetError::from_field(e)),
        }
    } else {
        bpmul(bp, bq, res.as_mut_slice());
        Ok(res)
    }
}

/// The pointwise product of `bp` and `bq`.
///
/// Fails exactly when the two do not have the same length.
pub fn bp_hadamard_parallel_jet(bp: &[Belt], bq: &[Belt], threads: usize) -> (r: Result<
    Vec<Belt>,
    JetError,
>)
    ensures
        match r {
            Ok(v) => bp@.len() == bq@.len() && v@.len() == bp@.len() && values(v@) == hadamard(
                values(bp@),
                values(bq@),
            ),
            Err(e) => bp@.len() != bq@.len() && e == JetError::LengthMismatch,
        },
{
    if bp.len() != bq.len() {
        return Err(JetError::LengthMismatch);
    }
    let mut res = zeros(bp.len());
    bp_hadamard_parallel(bp, bq, res.as_mut_slice(), threads);
    Ok(res)
}

/// The accelerated operations.
#[derive(Clone, Copy, Debug, PartialEq, Eq, Structural)]
pub enum Accelerator {
    /// The transform with the root of the length.
    BpFft,
    /// The transform with a given root.
    BpNtt,
    /// The product of two polynomials.
    BpMul,
    /// The pointwise product of two polynomials.
    BpHadamard,
    /// The coset shift of a polynomial.
    BpShift,
    /// The inverse coset transform.
    BpIntercosate,
}

/// The name under which an operation is registered.
pub open spec fn label_text(op: Accelerator) -> Seq<char> {
    match op {
        Accelerator::BpFft => "bp-fft"@,
        Accelerator::BpNtt => "bp-ntt"@,
        Accelerator::BpMul => "bpmul"@,
        Accelerator::BpHadamard => "bp-hadamard"@,
        Accelerator::BpShift => "bp-shift"@,
        Accelerator::BpIntercosate => "bp-intercosate"@,
    }
}

/// Whether two texts are the same.
pub fn text_eq(a: &str, b: &str) -> (r: bool)
    ensures
        r == (a@ == b@),
{
    let n = a.unicode_len();
    if n != b.unicode_len() {
        return false;
    }
    let mut i: usize = 0;
    while i < n
        invariant
            n == a@.len(),
            n == b@.len(),
            i <= n,
            forall|j: int| 0 <= j < i ==> a@[j] == b@[j],
        decreases n - i,
    {
        if a.get_char(i) != b.get_char(i) {
            return false;
        }
        i = i + 1;
    }
    proof {
        assert(a@ =~= b@);
    }
    true
}

impl Accelerator {
    /// The name under which the operation is registered.
    pub fn label(&self) -> (r: &'static str)
        ensures
            r@ == label_text(*self),
    {
        match self {
            Accelerator::BpFft => "bp-fft",
            Accelerator::BpNtt => "bp-ntt",
            Accelerator::BpMul => "bpmul",
            Accelerator::BpHadamard => "bp-hadamard",
            Accelerator::BpShift => "bp-shift",
            Accelerator::BpIntercosate => "bp-intercosate",
        }
    }

    /// The operation that is registered under `name`, if there is one.
    pub fn from_label(name: &str) -> (r: Option<Accelerator>)
        ensures
            match r {
                Some(op) => name@ == label_text(op),
                None => forall|op: Accelerator| name@ != label_text(op),
            },
    {
        if text_eq(name, Accelerator::BpFft.label()) {
            Some(Accelerator::BpFft)
        } else if text_eq(name, Accelerator::BpNtt.label()) {
            Some(Accelerator::BpNtt)
        } else if text_eq(name, Accelerator::BpMul.label()) {
            Some(Accelerator::BpMul)
        } else if text_eq(name, Accelerator::BpHadamard.label()) {
            Some(Accelerator::BpHadamard)
        } else if text_eq(name, Accelerator::BpShift.label()) {
            Some(Accelerator::BpShift)
        } else if text_eq(name, Accelerator::BpIntercosate.label()) {
            Some(Accelerator::BpIntercosate)
        } else {
            None
        }
    }
}

/// No two operations are registered under the same name.
pub proof fn lemma_labels_differ(a: Accelerator, b: Accelerator)
    requires
        label_text(a) == label_text(b),
    ensures
        a == b,
{
    reveal_strlit("bp-fft");
    reveal_strlit("bp-ntt");
    reveal_strlit("bpmul");
    reveal_strlit("bp-hadamard");
    reveal_strlit("bp-shift");
    reveal_strlit("bp-intercosate");
    let s = label_text(a);
    let t = label_text(b);
    assert(s.len() == t.len());
    if s.len() == 6 {
        assert(s[3] == t[3]);
    }
}

/// The arguments of an accelerated operation, unpacked.
#[derive(Debug)]
pub enum JetArgs {
    /// One polynomial.
    Poly(Vec<Belt>),
    /// A polynomial and a root.
    PolyAndRoot(Vec<Belt>, u64),
    /// Two polynomials.
    TwoPolys(Vec<Belt>, Vec<Belt>),
    /// A polynomial and a coset offset.
    PolyAndOffset(Vec<Belt>, Belt),
    /// A coset offset, a domain size and the values on the coset.
    Coset(Belt, u64, Vec<Belt>),
}

/// What an operation returns: the coefficients of the result, or the
/// failure. Arguments of another shape than the operation takes are bad
/// arguments.
pub open spec fn jet_outcome(op: Accelerator, args: JetArgs) -> Result<Seq<int>, JetError> {
    match (op, args) {
        (Accelerator::BpFft, JetArgs::Poly(p)) => if supported_order(p@.len() as int) {
            Ok(ntt(values(p@), ordered_root_of(p@.len() as int)))
        } else {
            Err(JetError::UnsupportedOrder)
        },
        (Accelerator::BpNtt, JetArgs::PolyAndRoot(p, root)) => if is_power_of_two(
            p@.len() as int,
        ) {
            Ok(ntt(values(p@), root as int))
        } else {
            Err(JetError::NotPowerOfTwo)
        },
        (Accelerator::BpMul, JetArgs::TwoPolys(p, q)) => if product_available(p@.len(), q@.len()) {
            Ok(poly_mul(values(p@), values(q@)))
        } else {
            Err(JetError::UnsupportedOrder)
        },
        (Accelerator::BpHadamard, JetArgs::TwoPolys(p, q)) => if p@.len() == q@.len() {
            Ok(hadamard(values(p@), values(q@)))
        } else {
            Err(JetError::LengthMismatch)
        },
        (Accelerator::BpShift, JetArgs::PolyAndOffset(p, c)) => Ok(shift(values(p@), c@)),
        (Accelerator::BpIntercosate, JetArgs::Coset(offset, order, vals)) => if !is_power_of_two(
            order as int,
        ) {
            Err(JetError::NotPowerOfTwo)
        } else if vals@.len() != order {
            Err(JetError::LengthMismatch)
        } else if !supported_order(order as int) {
            Err(JetError::UnsupportedOrder)
        } else {
            Ok(intercosate(values(vals@), offset@, order as int))
        },
        _ => Err(JetError::BadArguments),
    }
}

/// Runs the operation `op` on `args`.
///
/// Arguments of another shape than the operation takes are refused;
/// otherwise the result is that of the operation. The cache is consulted
/// by the coset operations only, and no entry is added to it.
pub fn invoke(op: Accelerator, args: &JetArgs, cache: &mut DomainCache, threads: usize) -> (r:
    Result<Vec<Belt>, JetError>)
    requires
        old(cache).wf(),
    ensures
        final(cache).wf(),
        forall|s: usize, o: usize| final(cache).has(s, o) == old(cache).has(s, o),
        match r {
            Ok(v) => jet_outcome(op, *args) == Ok::<Seq<int>, JetError>(values(v@)),
            Err(e) => jet_outcome(op, *args) == Err::<Seq<int>, JetError>(e),
        },
{
    match op {
        Accelerator::BpFft => match args {
            JetArgs::Poly(p) => bp_fft_parallel_jet(p.as_slice(), threads),
            _ => Err(JetError::BadArguments),
        },
        Accelerator::BpNtt => match args {
            JetArgs::PolyAndRoot(p, root) => bp_ntt_parallel_jet(p.as_slice(), *root, threads),
            _ => Err(JetError::BadArguments),
        },
        Accelerator::BpMul => match args {
            JetArgs::TwoPolys(p, q) => bpmul_parallel_jet(p.as_slice(), q.as_slice(), threads),
            _ => Err(JetError::BadArguments),
        },
        Accelerator::BpHadamard => match args {
            JetArgs::TwoPolys(p, q) => bp_hadamard_parallel_jet(
                p.as_slice(),
                q.as_slice(),
                threads,
            ),
            _ => Err(JetError::BadArguments),
        },
        Accelerator::BpShift => match args {
            JetArgs::PolyAndOffset(p, c) => Ok(bp_shift_cached_jet(cache, p.as_slice(), c)),
            _ => Err(JetError::BadArguments),
        },
        Accelerator::BpIntercosate => match args {
            JetArgs::Coset(offset, order, vals) => bp_intercosate_cached_jet(
                cache,
                offset,
                *order,
                vals.as_slice(),
            ),
            _ => Err(JetError::BadArguments),
        },
    }
}

/// The texts of a sequence of names.
pub open spec fn names(v: Seq<&'static str>) -> Seq<Seq<char>> {
    Seq::new(v.len(), |i: int| v[i]@)
}

/// The cores above the polynomial operations in the registry of the
/// interpreter, outermost first.
pub open spec fn core_path() -> Seq<Seq<char>> {
    seq!["one"@, "two"@, "tri"@, "qua"@, "pen"@, "zeke"@]
}

/// The names under which a polynomial operation is registered with the
/// interpreter: the cores above it, outermost first, then its own name.
pub fn hot_path(op: Accelerator) -> (path: Vec<&'static str>)
    ensures
        names(path@) == core_path().push(label_text(op)),
{
    let mut path: Vec<&'static str> = Vec::new();
    path.push("one");
    path.push("two");
    path.push("tri");
    path.push("qua");
    path.push("pen");
    path.push("zeke");
    path.push(op.label());
    proof {
        assert(names(path@) =~= core_path().push(label_text(op)));
    }
    path
}

} // verus!
