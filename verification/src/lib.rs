//! Proof-generation acceleration for a proof-of-work node: arithmetic in the
//! 64-bit prime field, number-theoretic transforms over it, a cache of
//! per-domain transform constants, and the supervision rules of the mining
//! worker pool.

pub mod field;
pub mod field_lemmas;
pub mod primes;
pub mod units;
pub mod roots;
pub mod sums;
pub mod eval;
pub mod poly;
pub mod bits;
pub mod ntt_spec;
pub mod ntt;
pub mod parallel;
pub mod ntt_laws;
pub mod mul_laws;
pub mod domain_cache;
pub mod fext;
pub mod fp_poly;
pub mod noun;
pub mod jets;
pub mod fp_jets;
pub mod table_jets;
pub mod proof_jets;
pub mod key_config;
pub mod mining;
pub mod dispatcher;
