//! The search for a proof over a list of nonces: the arguments are read
//! from the subject, every nonce is tried, independently of the others,
//! and the first nonce with a proof decides the result.
//!
//! The prover itself is not part of this crate: an attempt never finds a
//! proof here, so the search always comes back empty.

use crate::jets::JetError;
use crate::noun::{create_safe_atom_from_bytes, part_at, slot, Noun};
use rayon::iter::{IntoParallelRefIterator, ParallelIterator};
use vstd::prelude::*;
use vstd::slice::slice_to_vec;

verus! {

/// The number of bytes of a block commitment and of a nonce.
pub const DIGEST_BYTES: usize = 32;

/// A proof and its hash.
pub struct FoundProof {
    pub proof: Vec<u8>,
    pub hash: Vec<u8>,
}

/// The bytes of a digest, if the noun is one: an atom of 32 bytes.
pub open spec fn digest_of(n: Noun) -> Option<Seq<u8>> {
    match n {
        Noun::BigAtom(bytes) => if bytes@.len() == 32 {
            Some(bytes@)
        } else {
            None
        },
        _ => None,
    }
}

/// The nonces of a list of nonces, if the noun is one: a list of digests,
/// closed by the atom zero.
pub open spec fn nonces_of(list: Noun) -> Option<Seq<Seq<u8>>>
    decreases list,
{
    match list {
        Noun::Atom(v) => if v == 0 {
            Some(Seq::empty())
        } else {
            None
        },
        Noun::Cell(head, tail) => match (digest_of(*head), nonces_of(*tail)) {
            (Some(nonce), Some(rest)) => Some(seq![nonce] + rest),
            _ => None,
        },
        _ => None,
    }
}

/// Whether the subject holds the arguments of the search: at axis six a
/// sample with a length that fits a word at axis two, a block commitment
/// at axis six and a list of nonces at axis seven.
pub open spec fn search_arguments(subject: Noun) -> bool {
    match part_at(subject, 6) {
        Some(sam) => match (part_at(sam, 2), part_at(sam, 6), part_at(sam, 7)) {
            (Some(Noun::Atom(_)), Some(commitment), Some(nonces)) => digest_of(commitment) is Some
                && nonces_of(nonces) is Some,
            _ => false,
        },
        None => false,
    }
}

/// The byte strings held by a sequence of vectors.
pub open spec fn byte_strings(v: Seq<Vec<u8>>) -> Seq<Seq<u8>> {
    Seq::new(v.len(), |i: int| v[i]@)
}

/// Reads a digest.
fn read_digest(n: &Noun) -> (r: Option<Vec<u8>>)
    ensures
        match r {
            Some(bytes) => digest_of(*n) == Some(bytes@),
            None => digest_of(*n) is None,
        },
{
    match n {
        Noun::BigAtom(bytes) => if bytes.len() == DIGEST_BYTES {
            Some(slice_to_vec(bytes.as_slice()))
        } else {
            None
        },
        _ => None,
    }
}

/// Reads a list of nonces.
fn read_nonces(list: &Noun) -> (r: Option<Vec<Vec<u8>>>)
    ensures
        match r {
            Some(nonces) => nonces_of(*list) == Some(byte_strings(nonces@)),
            None => nonces_of(*list) is None,
        },
    decreases *list,
{
    match list {
        Noun::Atom(v) => if *v == 0 {
            let nonces: Vec<Vec<u8>> = Vec::new();
            proof {
                assert(byte_strings(nonces@) =~= Seq::<Seq<u8>>::empty());
            }
            Some(nonces)
        } else {
            None
        },
        Noun::Cell(head, tail) => {
            let nonce = match read_digest(&**head) {
                Some(n) => n,
                None => {
                    return None;
                },
            };
            let rest = match read_nonces(&**tail) {
                Some(r) => r,
                None => {
                    return None;
                },
            };
            let mut nonces: Vec<Vec<u8>> = Vec::new();
            let ghost first = nonce@;
            nonces.push(nonce);
            let mut rest = rest;
            let ghost tail_strings = byte_strings(rest@);
            nonces.append(&mut rest);
            proof {
                assert(byte_strings(nonces@) =~= seq![first] + tail_strings);
            }
            Some(nonces)
        },
        _ => None,
    }
}

/// One attempt: the proof for the block with the given nonce, if there is
/// one. No prover is at hand, so there never is.
pub fn generate_proof_for_nonce(length: u64, block_commitment: &[u8], nonce: &[u8]) -> (r: Option<
    FoundProof,
>)
    ensures
        r is None,
{
    None
}

/// Runs `generate_proof_for_nonce` on rayon's pool for every nonce and
/// collects the results in the order of the nonces (`par_iter`, `map`,
/// `collect`).
///
/// Trusted: there is one result for every nonce, and each is what
/// `generate_proof_for_nonce` returns, which is never a proof.
#[verifier::external_body]
fn par_attempts(length: u64, block_commitment: &[u8], nonces: &Vec<Vec<u8>>) -> (results: Vec<
    Option<FoundProof>,
>)
    ensures
        results@.len() == nonces@.len(),
        forall|i: int| 0 <= i < results@.len() ==> #[trigger] results@[i] is None,
{
    nonces
        .par_iter()
        .map(|nonce| generate_proof_for_nonce(length, block_commitment, nonce))
        .collect()
}

/// The position of the first result that is a proof.
pub fn first_found(results: &Vec<Option<FoundProof>>) -> (r: Option<usize>)
    ensures
        match r {
            Some(i) => i < results@.len() && results@[i as int] is Some && forall|j: int|
                0 <= j < i ==> #[trigger] results@[j] is None,
            None => forall|j: int| 0 <= j < results@.len() ==> #[trigger] results@[j] is None,
        },
{
    let n = results.len();
    let mut i: usize = 0;
    while i < n
        invariant
            n == results@.len(),
            i <= n,
            forall|j: int| 0 <= j < i ==> #[trigger] results@[j] is None,
        decreases n - i,
    {
        if results[i].is_some() {
            return Some(i);
        }
        i = i + 1;
    }
    None
}

/// The atom that holds the bytes of a proof.
pub fn proof_to_noun(proof: &[u8]) -> (r: Noun)
    ensures
        proof@.len() <= 8 ==> r == Noun::Atom(crate::noun::le_value(proof@) as u64),
        proof@.len() > 8 ==> (r matches Noun::BigAtom(held) && held@ == proof@),
{
    create_safe_atom_from_bytes(proof)
}

/// The search for a proof of the block over the nonces of the subject.
///
/// Fails exactly when the subject does not hold the arguments. Otherwise
/// the result is the atom zero, which says that no proof was found.
pub fn prove_block_parallel_jet(subject: &Noun) -> (r: Result<Noun, JetError>)
    ensures
        match r {
            Ok(found) => search_arguments(*subject) && found == Noun::Atom(0),
            Err(e) => !search_arguments(*subject) && e == JetError::BadArguments,
        },
{
    let sam = match slot(subject, 6) {
        Some(s) => s,
        None => {
            return Err(JetError::BadArguments);
        },
    };
    let length_noun = match slot(sam, 2) {
        Some(n) => n,
        None => {
            return Err(JetError::BadArguments);
        },
    };
    let block_commitment_noun = match slot(sam, 6) {
        Some(n) => n,
        None => {
            return Err(JetError::BadArguments);
        },
    };
    let nonces_list_noun = match slot(sam, 7) {
        Some(n) => n,
        None => {
            return Err(JetError::BadArguments);
        },
    };
    let length = match length_noun.as_u64() {
        Some(l) => l,
        None => {
            return Err(JetError::BadArguments);
        },
    };
    let block_commitment = match read_digest(block_commitment_noun) {
        Some(c) => c,
        None => {
            return Err(JetError::BadArguments);
        },
    };
    let nonces = match read_nonces(nonces_list_noun) {
        Some(n) => n,
        None => {
            return Err(JetError::BadArguments);
        },
    };
    if nonces.len() == 0 {
        return Ok(Noun::Atom(0));
    }
    let results = par_attempts(length, block_commitment.as_slice(), &nonces);
    match first_found(&results) {
        Some(idx) => {
            match &results[idx] {
                Some(found) => {
                    let proof_noun = proof_to_noun(found.proof.as_slice());
                    let hash_atom = create_safe_atom_from_bytes(found.hash.as_slice());
                    let nonce_atom = create_safe_atom_from_bytes(nonces[idx].as_slice());
                    let tuple = Noun::cell(proof_noun, Noun::cell(hash_atom, nonce_atom));
                    Ok(Noun::cell(Noun::Atom(0), tuple))
                },
                None => Ok(Noun::Atom(0)),
            }
        },
        None => Ok(Noun::Atom(0)),
    }
}

} // verus!
