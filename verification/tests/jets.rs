use zkvm_jetpack::domain_cache::{get_cache_stats, DomainCache};
use zkvm_jetpack::field::{Belt, FieldError};
use zkvm_jetpack::jets::{
    bp_fft_parallel_jet, bp_hadamard_parallel_jet, bp_ntt_parallel_jet, bpmul_parallel_jet,
    invoke, text_eq, Accelerator, JetArgs, JetError,
};
use zkvm_jetpack::ntt::{bp_fft, bp_ntt};
use zkvm_jetpack::poly::{bpmul, zeros};

fn belts(values: &[u64]) -> Vec<Belt> {
    values.iter().map(|&v| Belt(v)).collect()
}

#[test]
fn fft_jet() {
    let p = belts(&[1, 2, 3, 4]);
    assert_eq!(bp_fft_parallel_jet(&p, 4), Ok(bp_fft(&p).unwrap()));
    assert_eq!(bp_fft_parallel_jet(&belts(&[1, 2, 3]), 4), Err(JetError::UnsupportedOrder));
    assert_eq!(bp_fft_parallel_jet(&[], 4), Err(JetError::UnsupportedOrder));
}

#[test]
fn ntt_jet() {
    let p = belts(&[1, 2, 3, 4, 5, 6, 7, 8]);
    assert_eq!(bp_ntt_parallel_jet(&p, 99, 4), Ok(bp_ntt(&p, &Belt(99))));
    assert_eq!(bp_ntt_parallel_jet(&p[..5], 99, 4), Err(JetError::NotPowerOfTwo));
    assert_eq!(bp_ntt_parallel_jet(&[], 99, 4), Err(JetError::NotPowerOfTwo));
}

#[test]
fn product_jet_short_and_long() {
    assert_eq!(
        bpmul_parallel_jet(&belts(&[1, 2, 3]), &belts(&[4, 5]), 4),
        Ok(belts(&[4, 13, 22, 15]))
    );
    // 17 coefficients: computed with transforms
    let a: Vec<Belt> = (1..10u64).map(Belt).collect();
    let b: Vec<Belt> = (3..12u64).map(Belt).collect();
    let mut naive = zeros(17);
    bpmul(&a, &b, &mut naive);
    assert_eq!(bpmul_parallel_jet(&a, &b, 4), Ok(naive));
    // 16 coefficients: schoolbook
    let mut naive = zeros(16);
    bpmul(&a, &b[..8], &mut naive);
    assert_eq!(bpmul_parallel_jet(&a, &b[..8], 4), Ok(naive));
}

#[test]
fn product_jet_with_an_empty_operand() {
    assert_eq!(bpmul_parallel_jet(&[], &belts(&[4, 5]), 4), Ok(belts(&[0])));
    assert_eq!(bpmul_parallel_jet(&belts(&[4, 5]), &[], 4), Ok(belts(&[0])));
    assert_eq!(bpmul_parallel_jet(&[], &[], 4), Ok(belts(&[0])));
}

#[test]
fn hadamard_jet() {
    assert_eq!(
        bp_hadamard_parallel_jet(&belts(&[1, 2, 3]), &belts(&[4, 5, 6]), 4),
        Ok(belts(&[4, 10, 18]))
    );
    assert_eq!(
        bp_hadamard_parallel_jet(&belts(&[1, 2, 3]), &belts(&[4, 5]), 4),
        Err(JetError::LengthMismatch)
    );
    assert_eq!(bp_hadamard_parallel_jet(&[], &[], 4), Ok(vec![]));
}

#[test]
fn field_failures_become_unsupported_order() {
    assert_eq!(JetError::from_field(FieldError::OrderedRootError), JetError::UnsupportedOrder);
}

#[test]
fn labels_round_trip() {
    let all = [
        (Accelerator::BpFft, "bp-fft"),
        (Accelerator::BpNtt, "bp-ntt"),
        (Accelerator::BpMul, "bpmul"),
        (Accelerator::BpHadamard, "bp-hadamard"),
        (Accelerator::BpShift, "bp-shift"),
        (Accelerator::BpIntercosate, "bp-intercosate"),
    ];
    for (op, label) in all {
        assert_eq!(op.label(), label);
        assert_eq!(Accelerator::from_label(label), Some(op));
    }
    assert_eq!(Accelerator::from_label("bp-fftx"), None);
    assert_eq!(Accelerator::from_label(""), None);
    assert_eq!(Accelerator::from_label("BP-FFT"), None);
}

#[test]
fn texts_compare_by_characters() {
    assert!(text_eq("", ""));
    assert!(text_eq("bp-ntt", "bp-ntt"));
    assert!(!text_eq("bp-ntt", "bp-nt"));
    assert!(!text_eq("bp-ntt", "bp-ntu"));
    assert!(text_eq("é", "é"));
}

#[test]
fn invoke_runs_the_operation() {
    let mut cache = DomainCache::new();
    let p = belts(&[1, 2, 3, 4]);
    assert_eq!(
        invoke(Accelerator::BpFft, &JetArgs::Poly(p.clone()), &mut cache, 4),
        Ok(bp_fft(&p).unwrap())
    );
    assert_eq!(
        invoke(Accelerator::BpNtt, &JetArgs::PolyAndRoot(p.clone(), 5), &mut cache, 4),
        Ok(bp_ntt(&p, &Belt(5)))
    );
    assert_eq!(
        invoke(
            Accelerator::BpMul,
            &JetArgs::TwoPolys(belts(&[1, 2, 3]), belts(&[4, 5])),
            &mut cache,
            4
        ),
        Ok(belts(&[4, 13, 22, 15]))
    );
    assert_eq!(
        invoke(
            Accelerator::BpHadamard,
            &JetArgs::TwoPolys(belts(&[1, 2]), belts(&[4, 5])),
            &mut cache,
            4
        ),
        Ok(belts(&[4, 10]))
    );
    assert_eq!(get_cache_stats(&cache), (0, 0, 0, 0));
    assert_eq!(
        invoke(Accelerator::BpShift, &JetArgs::PolyAndOffset(p.clone(), Belt(5)), &mut cache, 4),
        Ok(belts(&[1, 10, 75, 500]))
    );
    assert_eq!(get_cache_stats(&cache), (0, 1, 1, 0));
    assert_eq!(
        invoke(
            Accelerator::BpIntercosate,
            &JetArgs::Coset(Belt(3), 4, belts(&[10, 20, 30, 40])),
            &mut cache,
            4
        ),
        Ok(belts(&[25, 469124961184425, 16397105839479630507, 17080266457795594620]))
    );
    assert_eq!(get_cache_stats(&cache), (0, 1, 1, 1));
}

#[test]
fn invoke_refuses_arguments_of_another_shape() {
    let mut cache = DomainCache::empty();
    let p = belts(&[1, 2, 3, 4]);
    assert_eq!(
        invoke(Accelerator::BpFft, &JetArgs::TwoPolys(p.clone(), p.clone()), &mut cache, 4),
        Err(JetError::BadArguments)
    );
    assert_eq!(
        invoke(Accelerator::BpMul, &JetArgs::Poly(p.clone()), &mut cache, 4),
        Err(JetError::BadArguments)
    );
    assert_eq!(
        invoke(Accelerator::BpShift, &JetArgs::PolyAndRoot(p.clone(), 3), &mut cache, 4),
        Err(JetError::BadArguments)
    );
    assert_eq!(
        invoke(Accelerator::BpIntercosate, &JetArgs::Poly(p.clone()), &mut cache, 4),
        Err(JetError::BadArguments)
    );
    assert_eq!(
        invoke(Accelerator::BpNtt, &JetArgs::Poly(p.clone()), &mut cache, 4),
        Err(JetError::BadArguments)
    );
    assert_eq!(
        invoke(Accelerator::BpHadamard, &JetArgs::Poly(p), &mut cache, 4),
        Err(JetError::BadArguments)
    );
    assert_eq!(get_cache_stats(&cache), (0, 0, 0, 0));
}
