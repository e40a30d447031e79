//! A cache of the constants of an evaluation domain: the powers of the
//! coset offset and the root of unity and its inverse for the domain size.
//!
//! An entry is computed once for its key `(size, offset)` and never changed
//! or removed. What an entry holds is a function of its key, so a lookup
//! gives the same data whenever it is made.

use crate::field::{field_inv, field_mul, field_pow, values, Belt};
use crate::field_lemmas::{lemma_field_mul_laws, lemma_field_pow_succ, lemma_field_pow_zero};
use crate::jets::JetError;
use crate::ntt::bp_ntt;
use crate::ntt_spec::ntt;
use crate::poly::{bp_scale, bp_shift, scale, shift, zeros};
use crate::roots::{exact_log2, is_power_of_two, ordered_root_of, supported_order};
use std::collections::HashMap;
use std::sync::Arc;
use vstd::prelude::*;

verus! {

/// The constants of one evaluation domain.
#[derive(Clone, Debug)]
pub struct DomainData {
    /// The powers of the offset: `1, c, c^2, ..., c^(size-1)`.
    pub powers: Vec<Belt>,
    /// The root of unity of order `size`, if there is one; else empty.
    pub twiddle_factors: Vec<Belt>,
    /// The inverse of that root, if there is one; else empty.
    pub inv_twiddles: Vec<Belt>,
}

/// The constants of one evaluation domain as mathematical sequences.
pub struct DomainView {
    pub powers: Seq<int>,
    pub twiddle_factors: Seq<int>,
    pub inv_twiddles: Seq<int>,
}

impl View for DomainData {
    type V = DomainView;

    open spec fn view(&self) -> DomainView {
        DomainView {
            powers: values(self.powers@),
            twiddle_factors: values(self.twiddle_factors@),
            inv_twiddles: values(self.inv_twiddles@),
        }
    }
}

/// What the cache holds for the key `(size, offset)`.
pub open spec fn domain_of(size: nat, offset: int) -> DomainView {
    DomainView {
        powers: Seq::new(size, |i: int| field_pow(offset, i as nat)),
        twiddle_factors: if supported_order(size as int) {
            seq![ordered_root_of(size as int)]
        } else {
            Seq::empty()
        },
        inv_twiddles: if supported_order(size as int) {
            seq![field_inv(ordered_root_of(size as int))]
        } else {
            Seq::empty()
        },
    }
}

/// The sizes that a new cache holds with offset one: the powers of two
/// from 32 to 4096.
pub open spec fn in_ladder(size: int) -> bool {
    size == 32 || size == 64 || size == 128 || size == 256 || size == 512 || size == 1024 || size
        == 2048 || size == 4096
}

/// A counter one higher, unless it is at its maximum.
pub open spec fn bumped(n: u64) -> u64 {
    if n < u64::MAX {
        (n + 1) as u64
    } else {
        n
    }
}

/// The key under which the entry for `(size, offset)` is stored.
pub open spec fn key_of(size: usize, offset: usize) -> u128 {
    (size as u128 * 0x1_0000_0000_0000_0000 + offset as u128) as u128
}

/// The constants for the domain of `size` elements with offset `offset`.
pub fn compute_domain(size: usize, offset: usize) -> (d: DomainData)
    ensures
        d@ == domain_of(size as nat, offset as int),
{
    let offset_belt = Belt(offset as u64);
    let mut powers: Vec<Belt> = Vec::new();
    let mut power = Belt::one();
    let mut i: usize = 0;
    proof {
        lemma_field_pow_zero(offset as int);
    }
    while i < size
        invariant
            i <= size,
            powers@.len() == i,
            offset_belt@ == offset,
            power@ == field_pow(offset as int, i as nat),
            forall|j: int|
                0 <= j < i ==> (#[trigger] powers@[j])@ == field_pow(offset as int, j as nat),
        decreases size - i,
    {
        powers.push(power);
        proof {
            lemma_field_pow_succ(offset as int, i as nat);
            lemma_field_mul_laws(offset as int, field_pow(offset as int, i as nat), 0);
        }
        power = power.mul(offset_belt);
        i = i + 1;
    }
    let mut twiddle_factors: Vec<Belt> = Vec::new();
    let mut inv_twiddles: Vec<Belt> = Vec::new();
    match Belt(size as u64).ordered_root() {
        Ok(root) => {
            twiddle_factors.push(root);
            inv_twiddles.push(root.inv());
        },
        Err(_) => {},
    }
    let d = DomainData { powers, twiddle_factors, inv_twiddles };
    proof {
        let m = domain_of(size as nat, offset as int);
        assert(d@.powers =~= m.powers);
        assert(d@.twiddle_factors =~= m.twiddle_factors);
        assert(d@.inv_twiddles =~= m.inv_twiddles);
    }
    d
}

/// Another handle to the same shared entry (`Arc::clone` of std).
///
/// Trusted: the new handle refers to the value that the given one refers
/// to.
#[verifier::external_body]
fn share(entry: &Arc<DomainData>) -> (r: Arc<DomainData>)
    ensures
        r == *entry,
{
    Arc::clone(entry)
}

/// The cache of domain constants, with its counters.
pub struct DomainCache {
    domains: HashMap<u128, Arc<DomainData>>,
    hits: u64,
    misses: u64,
    bp_shift_calls: u64,
    bp_intercosate_calls: u64,
}

/// The four counters of a cache: lookups that found their entry, lookups
/// that did not, coset shifts and inverse coset transforms.
pub struct CacheStats {
    pub hits: u64,
    pub misses: u64,
    pub bp_shift_calls: u64,
    pub bp_intercosate_calls: u64,
}

impl DomainCache {
    /// Every stored entry holds what belongs to its key.
    pub closed spec fn wf(&self) -> bool {
        forall|size: usize, offset: usize|
            self.domains@.contains_key(#[trigger] key_of(size, offset)) ==> self.domains@[key_of(
                size,
                offset,
            )]@ == domain_of(size as nat, offset as int)
    }

    /// Whether an entry for `(size, offset)` is stored.
    pub closed spec fn has(&self, size: usize, offset: usize) -> bool {
        self.domains@.contains_key(key_of(size, offset))
    }

    /// The counters.
    pub closed spec fn stats(&self) -> CacheStats {
        CacheStats {
            hits: self.hits,
            misses: self.misses,
            bp_shift_calls: self.bp_shift_calls,
            bp_intercosate_calls: self.bp_intercosate_calls,
        }
    }

    /// The key under which the entry for `(size, offset)` is stored.
    fn key(size: usize, offset: usize) -> (k: u128)
        ensures
            k == key_of(size, offset),
    {
        (size as u128) * 0x1_0000_0000_0000_0000u128 + (offset as u128)
    }

    /// Distinct pairs have distinct keys.
    proof fn lemma_key_injective(s1: usize, o1: usize, s2: usize, o2: usize)
        ensures
            key_of(s1, o1) == key_of(s2, o2) ==> s1 == s2 && o1 == o2,
    {
    }

    /// A cache without entries, all counters zero.
    pub fn empty() -> (c: DomainCache)
        ensures
            c.wf(),
            forall|size: usize, offset: usize| !c.has(size, offset),
            c.stats() == (CacheStats {
                hits: 0,
                misses: 0,
                bp_shift_calls: 0,
                bp_intercosate_calls: 0,
            }),
    {
        DomainCache {
            domains: HashMap::new(),
            hits: 0,
            misses: 0,
            bp_shift_calls: 0,
            bp_intercosate_calls: 0,
        }
    }

    /// A cache that holds the common sizes, the powers of two from 32 to
    /// 4096, each with offset one; all counters zero.
    pub fn new() -> (c: DomainCache)
        ensures
            c.wf(),
            forall|size: usize, offset: usize|
                c.has(size, offset) <==> offset == 1 && in_ladder(size as int),
            c.stats() == (CacheStats {
                hits: 0,
                misses: 0,
                bp_shift_calls: 0,
                bp_intercosate_calls: 0,
            }),
    {
        let mut cache = DomainCache::empty();
        let mut size: usize = 32;
        while size <= 4096
            invariant
                cache.wf(),
                in_ladder(size as int) || size == 8192,
                forall|s: usize, o: usize|
                    cache.has(s, o) <==> o == 1 && in_ladder(s as int) && s < size,
                cache.stats() == (CacheStats {
                    hits: 0,
                    misses: 0,
                    bp_shift_calls: 0,
                    bp_intercosate_calls: 0,
                }),
            decreases 8192 - size,
        {
            cache.precompute_domain(size, 1);
            size = size * 2;
        }
        cache
    }

    /// Computes and stores the entry for `(size, offset)` unless it is
    /// stored already.
    pub fn precompute_domain(&mut self, size: usize, offset: usize)
        requires
            old(self).wf(),
        ensures
            final(self).wf(),
            forall|s: usize, o: usize|
                final(self).has(s, o) <==> old(self).has(s, o) || (s == size && o == offset),
            final(self).stats() == old(self).stats(),
    {
        let key = Self::key(size, offset);
        if self.domains.contains_key(&key) {
            return ;
        }
        let data = compute_domain(size, offset);
        self.domains.insert(key, Arc::new(data));
        proof {
            assert forall|s: usize, o: usize|
                self.domains@.contains_key(#[trigger] key_of(s, o)) implies self.domains@[key_of(
                s,
                o,
            )]@ == domain_of(s as nat, o as int) by {
                Self::lemma_key_injective(s, o, size, offset);
            }
            assert forall|s: usize, o: usize|
                self.has(s, o) <==> old(self).has(s, o) || (s == size && o == offset) by {
                Self::lemma_key_injective(s, o, size, offset);
            }
        }
    }

    /// The entry for `(size, offset)`, computed and stored now if it was
    /// not stored before.
    ///
    /// A request that finds its entry counts as a hit, one that has to
    /// compute it as a miss.
    pub fn get(&mut self, size: usize, offset: usize) -> (r: Arc<DomainData>)
        requires
            old(self).wf(),
        ensures
            get_step(*old(self), *final(self), size, offset, r@),
    {
        let key = Self::key(size, offset);
        if self.domains.contains_key(&key) {
            self.hits = self.hits.saturating_add(1);
        } else {
            self.misses = self.misses.saturating_add(1);
            self.precompute_domain(size, offset);
        }
        match self.domains.get(&key) {
            Some(entry) => share(entry),
            None => {
                proof {
                    assert(false);
                }
                Arc::new(compute_domain(size, offset))
            },
        }
    }

    /// The entry for `(size, offset)` if it is stored. Nothing is computed
    /// or stored; the lookup counts as a hit or as a miss.
    pub fn lookup(&mut self, size: usize, offset: usize) -> (r: Option<Arc<DomainData>>)
        requires
            old(self).wf(),
        ensures
            final(self).wf(),
            forall|s: usize, o: usize| final(self).has(s, o) == old(self).has(s, o),
            r is Some <==> old(self).has(size, offset),
            r matches Some(d) ==> d@ == domain_of(size as nat, offset as int),
            final(self).stats() == (CacheStats {
                hits: if r is Some {
                    bumped(old(self).stats().hits)
                } else {
                    old(self).stats().hits
                },
                misses: if r is Some {
                    old(self).stats().misses
                } else {
                    bumped(old(self).stats().misses)
                },
                ..old(self).stats()
            }),
    {
        let key = Self::key(size, offset);
        match self.domains.get(&key) {
            Some(entry) => {
                let shared = share(entry);
                self.hits = self.hits.saturating_add(1);
                Some(shared)
            },
            None => {
                self.misses = self.misses.saturating_add(1);
                None
            },
        }
    }

    /// The entry for `(size, offset)` if it is stored. Nothing is counted.
    pub fn peek(&self, size: usize, offset: usize) -> (r: Option<Arc<DomainData>>)
        requires
            self.wf(),
        ensures
            r is Some <==> self.has(size, offset),
            r matches Some(d) ==> d@ == domain_of(size as nat, offset as int),
    {
        let key = Self::key(size, offset);
        match self.domains.get(&key) {
            Some(entry) => Some(share(entry)),
            None => None,
        }
    }

    /// Whether an entry for `(size, offset)` is stored.
    pub fn contains(&self, size: usize, offset: usize) -> (b: bool)
        ensures
            b == self.has(size, offset),
    {
        let key = Self::key(size, offset);
        self.domains.contains_key(&key)
    }

    /// The number of entries.
    pub fn len(&self) -> (n: usize)
        ensures
            n == self.entry_count(),
    {
        self.domains.len()
    }

    /// The number of entries.
    pub closed spec fn entry_count(&self) -> nat {
        self.domains@.len()
    }

    /// The number of lookups that found their entry.
    pub fn hits(&self) -> (n: u64)
        ensures
            n == self.stats().hits,
    {
        self.hits
    }

    /// The number of lookups that did not find their entry.
    pub fn misses(&self) -> (n: u64)
        ensures
            n == self.stats().misses,
    {
        self.misses
    }

    /// Counts one coset shift.
    fn count_shift(&mut self)
        requires
            old(self).wf(),
        ensures
            final(self).wf(),
            forall|s: usize, o: usize| final(self).has(s, o) == old(self).has(s, o),
            final(self).stats() == (CacheStats {
                bp_shift_calls: bumped(old(self).stats().bp_shift_calls),
                ..old(self).stats()
            }),
    {
        self.bp_shift_calls = self.bp_shift_calls.saturating_add(1);
    }

    /// Counts one inverse coset transform.
    fn count_intercosate(&mut self)
        requires
            old(self).wf(),
        ensures
            final(self).wf(),
            forall|s: usize, o: usize| final(self).has(s, o) == old(self).has(s, o),
            final(self).stats() == (CacheStats {
                bp_intercosate_calls: bumped(old(self).stats().bp_intercosate_calls),
                ..old(self).stats()
            }),
    {
        self.bp_intercosate_calls = self.bp_intercosate_calls.saturating_add(1);
    }
}

/// What one request `get(size, offset)` does: it returns the data of the
/// key; a stored key is a hit and changes nothing else; a new key is a miss
/// and is stored from then on.
pub open spec fn get_step(
    pre: DomainCache,
    post: DomainCache,
    size: usize,
    offset: usize,
    r: DomainView,
) -> bool {
    &&& post.wf()
    &&& r == domain_of(size as nat, offset as int)
    &&& post.has(size, offset)
    &&& forall|s: usize, o: usize| post.has(s, o) <==> pre.has(s, o) || (s == size && o == offset)
    &&& post.stats() == (CacheStats {
        hits: if pre.has(size, offset) {
            bumped(pre.stats().hits)
        } else {
            pre.stats().hits
        },
        misses: if pre.has(size, offset) {
            pre.stats().misses
        } else {
            bumped(pre.stats().misses)
        },
        ..pre.stats()
    })
}

/// The counters of a cache: hits, misses, coset shifts, inverse coset
/// transforms.
pub fn get_cache_stats(cache: &DomainCache) -> (r: (u64, u64, u64, u64))
    ensures
        r.0 == cache.stats().hits,
        r.1 == cache.stats().misses,
        r.2 == cache.stats().bp_shift_calls,
        r.3 == cache.stats().bp_intercosate_calls,
{
    (cache.hits, cache.misses, cache.bp_shift_calls, cache.bp_intercosate_calls)
}

/// A key requested twice: both requests return the same data, the second
/// one is a hit, and it leaves the misses and the stored keys as they
/// were. The first request is at most one miss.
pub proof fn lemma_second_request_hits(
    c0: DomainCache,
    c1: DomainCache,
    c2: DomainCache,
    size: usize,
    offset: usize,
    r1: DomainView,
    r2: DomainView,
)
    requires
        get_step(c0, c1, size, offset, r1),
        get_step(c1, c2, size, offset, r2),
    ensures
        r1 == r2,
        c2.stats().hits == bumped(c1.stats().hits),
        c2.stats().misses == c1.stats().misses,
        c1.stats().misses == c0.stats().misses || c1.stats().misses == bumped(c0.stats().misses),
        !c0.has(size, offset) ==> c1.stats().misses == bumped(c0.stats().misses) && c1.stats().hits
            == c0.stats().hits,
        forall|s: usize, o: usize| c2.has(s, o) == c1.has(s, o),
{
}

/// The inverse coset transform of `v`: the transform with the inverse of
/// the root of order `order`, scaled by the inverse of `order`, then entry
/// `i` multiplied by the `i`-th power of the inverse of `offset`.
pub open spec fn intercosate(v: Seq<int>, offset: int, order: int) -> Seq<int> {
    shift(scale(ntt(v, field_inv(ordered_root_of(order))), field_inv(order)), field_inv(offset))
}

/// The coset shift of `bp` by `c`: entry `i` multiplied by `c^i`.
///
/// The powers come from the cache if it holds the entry for
/// `(bp.len(), c)`, and are computed otherwise; the result is the same.
/// The call is counted, and so is the lookup, as a hit or as a miss.
pub fn bp_shift_cached_jet(cache: &mut DomainCache, bp: &[Belt], c: &Belt) -> (r: Vec<Belt>)
    requires
        old(cache).wf(),
    ensures
        final(cache).wf(),
        r@.len() == bp@.len(),
        values(r@) == shift(values(bp@), c@),
        forall|s: usize, o: usize| final(cache).has(s, o) == old(cache).has(s, o),
        final(cache).stats() == shift_stats(*old(cache), bp@.len(), c.0),
{
    let n = bp.len();
    cache.count_shift();
    let mut res = zeros(n);
    if c.0 > usize::MAX as u64 {
        bp_shift(bp, c, res.as_mut_slice());
        return res;
    }
    let offset = c.0 as usize;
    match cache.lookup(n, offset) {
        Some(data) => {
            let mut i: usize = 0;
            while i < n
                invariant
                    n == bp@.len(),
                    n == res@.len(),
                    i <= n,
                    data@ == domain_of(n as nat, c@),
                    forall|k: int|
                        0 <= k < i ==> (#[trigger] res@[k])@ == field_mul(
                            bp@[k]@,
                            field_pow(c@, k as nat),
                        ),
                decreases n - i,
            {
                proof {
                    assert(data@.powers[i as int] == field_pow(c@, i as nat));
                    assert(data@.powers.len() == n);
                }
                res[i] = bp[i].mul(data.powers[i]);
                i = i + 1;
            }
            proof {
                assert(values(res@) =~= shift(values(bp@), c@));
            }
        },
        None => {
            bp_shift(bp, c, res.as_mut_slice());
        },
    }
    res
}

/// The counters after a coset shift of `len` entries by the word `c`.
pub open spec fn shift_stats(pre: DomainCache, len: nat, c: u64) -> CacheStats {
    let s = pre.stats();
    let calls = bumped(s.bp_shift_calls);
    if c > usize::MAX {
        CacheStats { bp_shift_calls: calls, ..s }
    } else if pre.has(len as usize, c as usize) {
        CacheStats { hits: bumped(s.hits), bp_shift_calls: calls, ..s }
    } else {
        CacheStats { misses: bumped(s.misses), bp_shift_calls: calls, ..s }
    }
}

/// The inverse coset transform of `vals` on the coset of the subgroup of
/// order `order` with offset `offset`.
///
/// The inverse root comes from the cache if it holds the entry for
/// `(order, offset)`, and is computed otherwise; the result is the same.
/// The order must be a power of two, `vals` must have `order` entries, and
/// a root of that order must be available. A call that passes the first
/// two tests is counted.
pub fn bp_intercosate_cached_jet(
    cache: &mut DomainCache,
    offset: &Belt,
    order: u64,
    vals: &[Belt],
) -> (r: Result<Vec<Belt>, JetError>)
    requires
        old(cache).wf(),
    ensures
        final(cache).wf(),
        forall|s: usize, o: usize| final(cache).has(s, o) == old(cache).has(s, o),
        match r {
            Ok(v) => supported_order(order as int) && vals@.len() == order && v@.len() == order
                && values(v@) == intercosate(values(vals@), offset@, order as int),
            Err(JetError::NotPowerOfTwo) => !is_power_of_two(order as int),
            Err(JetError::LengthMismatch) => is_power_of_two(order as int) && vals@.len() != order,
            Err(JetError::UnsupportedOrder) => is_power_of_two(order as int) && vals@.len() == order
                && !supported_order(order as int),
            Err(JetError::BadArguments) => false,
            Err(JetError::Punt) => false,
        },
        final(cache).stats() == if r is Err && !(r matches Err(JetError::UnsupportedOrder)) {
            old(cache).stats()
        } else {
            CacheStats {
                bp_intercosate_calls: bumped(old(cache).stats().bp_intercosate_calls),
                ..old(cache).stats()
            }
        },
{
    if exact_log2(order).is_none() {
        return Err(JetError::NotPowerOfTwo);
    }
    if vals.len() as u64 != order {
        return Err(JetError::LengthMismatch);
    }
    let n = vals.len();
    cache.count_intercosate();
    let cached: Option<Arc<DomainData>> = if offset.0 > usize::MAX as u64 {
        None
    } else {
        cache.peek(n, offset.0 as usize)
    };
    let order_belt = Belt(order);
    let mut inv_root: Option<Belt> = None;
    match cached {
        Some(data) => {
            if data.inv_twiddles.len() > 0 {
                proof {
                    assert(data@.inv_twiddles.len() > 0);
                    assert(data@.inv_twiddles[0] == data.inv_twiddles@[0]@);
                }
                inv_root = Some(data.inv_twiddles[0]);
            }
        },
        None => {},
    }
    let inv_root = match inv_root {
        Some(w) => w,
        None => match order_belt.ordered_root() {
            Ok(root) => root.inv(),
            Err(e) => {
                return Err(JetError::from_field(e));
            },
        },
    };
    let mut spectrum = bp_ntt(vals, &inv_root);
    let n_inv = order_belt.inv();
    bp_scale(spectrum.as_mut_slice(), n_inv);
    let offset_inv = offset.inv();
    let mut res = zeros(n);
    bp_shift(spectrum.as_slice(), &offset_inv, res.as_mut_slice());
    Ok(res)
}

} // verus!
