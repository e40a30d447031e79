use zkvm_jetpack::domain_cache::{
    bp_intercosate_cached_jet, bp_shift_cached_jet, compute_domain, get_cache_stats, DomainCache,
};
use zkvm_jetpack::field::{Belt, PRIME};
use zkvm_jetpack::jets::JetError;
use zkvm_jetpack::poly::{bp_shift, zeros};

#[test]
fn test_domain_cache_creation() {
    let cache = DomainCache::new();

    // Check that common sizes are pre-populated with offset=1
    let offset_one = 1;
    assert!(cache.contains(32, offset_one));
    assert!(cache.contains(64, offset_one));
    assert!(cache.contains(128, offset_one));
    assert!(cache.contains(256, offset_one));
}

#[test]
fn test_cache_hit_miss() {
    let mut cache = DomainCache::new();
    let offset_one = 1;

    // First access should be a hit (pre-computed)
    let _ = cache.get(64, offset_one);
    assert_eq!(cache.hits(), 1);
    assert_eq!(cache.misses(), 0);

    // Access uncommon size should be a miss
    let offset_two = 2;
    let _ = cache.get(37, offset_two);
    assert_eq!(cache.hits(), 1);
    assert_eq!(cache.misses(), 1);

    // Second access to same size should be a hit
    let _ = cache.get(37, offset_two);
    assert_eq!(cache.hits(), 2);
    assert_eq!(cache.misses(), 1);
}

#[test]
fn new_cache_holds_exactly_the_ladder() {
    let cache = DomainCache::new();
    assert_eq!(cache.len(), 8);
    for size in [32usize, 64, 128, 256, 512, 1024, 2048, 4096] {
        assert!(cache.contains(size, 1));
        assert!(!cache.contains(size, 2));
    }
    assert!(!cache.contains(16, 1));
    assert!(!cache.contains(8192, 1));
    assert_eq!(get_cache_stats(&cache), (0, 0, 0, 0));
}

#[test]
fn empty_cache_holds_nothing() {
    let cache = DomainCache::empty();
    assert_eq!(cache.len(), 0);
    assert!(!cache.contains(32, 1));
}

#[test]
fn domain_data_holds_powers_and_roots() {
    let d = compute_domain(4, 3);
    assert_eq!(d.powers, vec![Belt(1), Belt(3), Belt(9), Belt(27)]);
    assert_eq!(d.twiddle_factors, vec![Belt(281474976710656)]);
    assert_eq!(d.inv_twiddles, vec![Belt(281474976710656).inv()]);
    assert_eq!(d.twiddle_factors[0].mul(d.inv_twiddles[0]), Belt(1));

    let d = compute_domain(37, 2);
    assert_eq!(d.powers.len(), 37);
    assert_eq!(d.powers[36], Belt(1 << 36));
    assert!(d.twiddle_factors.is_empty());
    assert!(d.inv_twiddles.is_empty());

    let d = compute_domain(0, 5);
    assert!(d.powers.is_empty());
}

#[test]
fn a_key_requested_twice_gives_the_same_data() {
    let mut cache = DomainCache::empty();
    let first = cache.get(16, 7);
    assert_eq!(get_cache_stats(&cache), (0, 1, 0, 0));
    assert!(cache.contains(16, 7));
    let second = cache.get(16, 7);
    assert_eq!(get_cache_stats(&cache), (1, 1, 0, 0));
    assert_eq!(first.powers, second.powers);
    assert_eq!(first.twiddle_factors, second.twiddle_factors);
    assert_eq!(first.inv_twiddles, second.inv_twiddles);
    assert!(std::sync::Arc::ptr_eq(&first, &second));
    assert_eq!(first.powers[2], Belt(49));
    assert_eq!(cache.len(), 1);
}

#[test]
fn keys_with_the_same_numbers_swapped_are_distinct() {
    let mut cache = DomainCache::empty();
    let _ = cache.get(2, 4);
    assert!(cache.contains(2, 4));
    assert!(!cache.contains(4, 2));
}

#[test]
fn lookup_counts_but_does_not_store() {
    let mut cache = DomainCache::new();
    assert!(cache.lookup(5, 5).is_none());
    assert!(!cache.contains(5, 5));
    assert_eq!(get_cache_stats(&cache), (0, 1, 0, 0));
    let found = cache.lookup(32, 1).unwrap();
    assert_eq!(found.powers.len(), 32);
    assert_eq!(get_cache_stats(&cache), (1, 1, 0, 0));
}

#[test]
fn peek_counts_nothing() {
    let cache = DomainCache::new();
    assert!(cache.peek(64, 1).is_some());
    assert!(cache.peek(65, 1).is_none());
    assert_eq!(get_cache_stats(&cache), (0, 0, 0, 0));
}

#[test]
fn precompute_keeps_an_entry_that_is_there() {
    let mut cache = DomainCache::empty();
    cache.precompute_domain(8, 3);
    cache.precompute_domain(8, 3);
    assert_eq!(cache.len(), 1);
    assert_eq!(get_cache_stats(&cache), (0, 0, 0, 0));
}

#[test]
fn cached_shift_equals_direct_shift() {
    let poly: Vec<Belt> = (0..32u64).map(|i| Belt(i * i + 1)).collect();
    for c in [1u64, 2, 5, PRIME - 1] {
        let mut direct = zeros(32);
        bp_shift(&poly, &Belt(c), &mut direct);

        let mut cold = DomainCache::empty();
        assert_eq!(bp_shift_cached_jet(&mut cold, &poly, &Belt(c)), direct);
        assert_eq!(get_cache_stats(&cold), (0, 1, 1, 0));

        let mut warm = DomainCache::empty();
        warm.precompute_domain(32, c as usize);
        assert_eq!(bp_shift_cached_jet(&mut warm, &poly, &Belt(c)), direct);
        assert_eq!(get_cache_stats(&warm), (1, 0, 1, 0));
    }
}

#[test]
fn cached_shift_known_values() {
    let poly: Vec<Belt> = [1u64, 2, 3, 4].iter().map(|&v| Belt(v)).collect();
    let mut cache = DomainCache::empty();
    cache.precompute_domain(4, 5);
    assert_eq!(
        bp_shift_cached_jet(&mut cache, &poly, &Belt(5)),
        vec![Belt(1), Belt(10), Belt(75), Belt(500)]
    );
}

#[test]
fn intercosate_known_values() {
    let vals: Vec<Belt> = [10u64, 20, 30, 40].iter().map(|&v| Belt(v)).collect();
    let expected: Vec<Belt> =
        [25u64, 469124961184425, 16397105839479630507, 17080266457795594620]
            .iter()
            .map(|&v| Belt(v))
            .collect();
    let mut cache = DomainCache::empty();
    assert_eq!(bp_intercosate_cached_jet(&mut cache, &Belt(3), 4, &vals), Ok(expected.clone()));
    assert_eq!(get_cache_stats(&cache), (0, 0, 0, 1));
    cache.precompute_domain(4, 3);
    assert_eq!(bp_intercosate_cached_jet(&mut cache, &Belt(3), 4, &vals), Ok(expected));
    assert_eq!(get_cache_stats(&cache), (0, 0, 0, 2));
}

#[test]
fn intercosate_recovers_coefficients_from_coset_values() {
    let vals: Vec<Belt> =
        [142u64, 18418033621790097383, 18446744069414584235, 28710447624486886]
            .iter()
            .map(|&v| Belt(v))
            .collect();
    let mut cache = DomainCache::new();
    assert_eq!(
        bp_intercosate_cached_jet(&mut cache, &Belt(3), 4, &vals),
        Ok(vec![Belt(1), Belt(2), Belt(3), Belt(4)])
    );
}

#[test]
fn intercosate_with_and_without_cache_agree() {
    let vals: Vec<Belt> = (0..64u64).map(|i| Belt(i * 7 + 3)).collect();
    let mut cold = DomainCache::empty();
    let mut warm = DomainCache::new();
    let a = bp_intercosate_cached_jet(&mut cold, &Belt(1), 64, &vals).unwrap();
    let b = bp_intercosate_cached_jet(&mut warm, &Belt(1), 64, &vals).unwrap();
    assert_eq!(a, b);
    assert_ne!(a, vals);
}

#[test]
fn intercosate_refuses_bad_arguments() {
    let vals: Vec<Belt> = (0..6u64).map(Belt).collect();
    let mut cache = DomainCache::empty();
    assert_eq!(
        bp_intercosate_cached_jet(&mut cache, &Belt(1), 6, &vals),
        Err(JetError::NotPowerOfTwo)
    );
    assert_eq!(
        bp_intercosate_cached_jet(&mut cache, &Belt(1), 0, &vals),
        Err(JetError::NotPowerOfTwo)
    );
    assert_eq!(
        bp_intercosate_cached_jet(&mut cache, &Belt(1), 8, &vals),
        Err(JetError::LengthMismatch)
    );
    assert_eq!(get_cache_stats(&cache), (0, 0, 0, 0));
}
