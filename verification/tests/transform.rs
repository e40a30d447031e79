use zkvm_jetpack::bits::bitreverse;
use zkvm_jetpack::field::{Belt, FieldError, PRIME};
use zkvm_jetpack::ntt::{bit_reverse_permute, bp_fft, bp_ifft, bp_ntt, butterfly_stage};
use zkvm_jetpack::parallel::{
    bp_fft_parallel, bp_hadamard_parallel, bp_ntt_parallel, bpmul_fft_parallel,
    butterfly_stage_parallel, next_power_of_two, padded,
};
use zkvm_jetpack::poly::{bp_hadamard, bp_scale, bp_shift, bpmul, zeros};

fn ramp(n: usize) -> Vec<Belt> {
    (0..n).map(|i| Belt(i as u64)).collect()
}

fn scrambled(n: usize) -> Vec<Belt> {
    let mut x: u64 = 0x9e3779b97f4a7c15;
    (0..n)
        .map(|_| {
            x = x.wrapping_mul(6364136223846793005).wrapping_add(1442695040888963407);
            Belt(x % PRIME)
        })
        .collect()
}

fn naive_dft(x: &[Belt], root: Belt) -> Vec<Belt> {
    let n = x.len();
    (0..n)
        .map(|i| {
            let point = root.pow(i as u64);
            let mut acc = Belt(0);
            for j in (0..n).rev() {
                acc = acc.mul(point).add(x[j]);
            }
            acc
        })
        .collect()
}

#[test]
fn test_parallel_fft_correctness() {
    // Test that parallel FFT produces same results as sequential
    let test_sizes = vec![8, 16, 32, 64, 128, 256, 512, 1024];

    for size in test_sizes {
        let input: Vec<Belt> = (0..size).map(|i| Belt(i as u64)).collect();

        let seq_result = bp_fft(&input).unwrap();
        let par_result = bp_fft_parallel(&input, 4).unwrap();

        for (i, (s, p)) in seq_result.iter().zip(par_result.iter()).enumerate() {
            assert_eq!(s, p, "Mismatch at index {} for size {}", i, size);
        }
    }
}

#[test]
fn test_parallel_multiplication() {
    let a = vec![Belt(1), Belt(2), Belt(3)];
    let b = vec![Belt(4), Belt(5)];
    let mut result = vec![Belt(0); 4];

    bpmul_fft_parallel(&a, &b, &mut result, 4).unwrap();

    // Expected: [4, 13, 22, 15]
    assert_eq!(result, vec![Belt(4), Belt(13), Belt(22), Belt(15)]);
}

#[test]
fn bit_reversal_of_indices() {
    assert_eq!(bitreverse(0b001, 3), 0b100);
    assert_eq!(bitreverse(0b110, 3), 0b011);
    assert_eq!(bitreverse(1, 10), 512);
    assert_eq!(bitreverse(5, 0), 0);
    assert_eq!(bitreverse(1, 64), 1 << 63);
    for k in 0..64u64 {
        assert_eq!(bitreverse(bitreverse(k, 6), 6), k);
    }
}

#[test]
fn bit_reverse_permutation_of_eight() {
    let mut x = ramp(8);
    bit_reverse_permute(&mut x, 3);
    let expected: Vec<Belt> = [0u64, 4, 2, 6, 1, 5, 3, 7].iter().map(|&v| Belt(v)).collect();
    assert_eq!(x, expected);
}

#[test]
fn transform_of_length_one_is_the_identity() {
    let x = vec![Belt(42)];
    assert_eq!(bp_ntt(&x, &Belt(12345)), x);
    assert_eq!(bp_ntt_parallel(&x, &Belt(12345), 8), x);
    assert_eq!(bp_fft(&x).unwrap(), x);
    assert_eq!(bp_fft_parallel(&x, 8).unwrap(), x);
}

#[test]
fn transform_known_values() {
    let x: Vec<Belt> = [1u64, 2, 3, 4].iter().map(|&v| Belt(v)).collect();
    let expected: Vec<Belt> =
        [10u64, 18446181119461163007, 18446744069414584319, 562949953421310]
            .iter()
            .map(|&v| Belt(v))
            .collect();
    assert_eq!(bp_fft(&x).unwrap(), expected);
    assert_eq!(bp_ntt(&x, &Belt(281474976710656)), expected);
    let expected8: Vec<Belt> = [
        28u64,
        18445622567621360637,
        18445618169507741693,
        1130298020461564,
        18446744069414584317,
        18445613771394122749,
        1125899906842620,
        1121501793223676,
    ]
    .iter()
    .map(|&v| Belt(v))
    .collect();
    assert_eq!(bp_fft(&ramp(8)).unwrap(), expected8);
}

#[test]
fn transform_evaluates_at_the_powers_of_the_root() {
    for n in [2usize, 4, 8, 16, 32, 64] {
        let x = scrambled(n);
        let root = Belt(n as u64).ordered_root().unwrap();
        assert_eq!(bp_ntt(&x, &root), naive_dft(&x, root), "size {}", n);
    }
}

#[test]
fn parallel_and_sequential_transform_agree() {
    let mut n = 2usize;
    while n <= 1024 {
        let x = scrambled(n);
        let root = Belt(n as u64).ordered_root().unwrap();
        let seq = bp_ntt(&x, &root);
        for threads in [0usize, 1, 2, 3, 4, 7, 16, 5000] {
            assert_eq!(bp_ntt_parallel(&x, &root, threads), seq, "size {} threads {}", n, threads);
        }
        n *= 2;
    }
}

#[test]
fn parallel_and_sequential_transform_agree_for_any_root() {
    for n in [4usize, 64, 512] {
        let x = scrambled(n);
        let root = Belt(987654321);
        assert_eq!(bp_ntt_parallel(&x, &root, 4), bp_ntt(&x, &root));
    }
}

#[test]
fn parallel_stage_matches_sequential_stage() {
    for (n, m) in [(64usize, 8usize), (64, 16), (256, 32), (32, 1)] {
        let mut a = scrambled(n);
        let mut b = a.clone();
        butterfly_stage(&mut a, m, Belt(17));
        butterfly_stage_parallel(&mut b, m, Belt(17));
        assert_eq!(a, b);
        assert_ne!(a, scrambled(n));
    }
}

#[test]
fn fft_fails_for_lengths_without_a_root() {
    assert_eq!(bp_fft(&ramp(3)), Err(FieldError::OrderedRootError));
    assert_eq!(bp_fft(&ramp(0)), Err(FieldError::OrderedRootError));
    assert_eq!(bp_fft_parallel(&ramp(12), 4), Err(FieldError::OrderedRootError));
    assert_eq!(bp_ifft(&ramp(6)), Err(FieldError::OrderedRootError));
}

#[test]
fn round_trip_recovers_the_input() {
    let mut n = 1usize;
    while n <= 1024 {
        let x = scrambled(n);
        let y = bp_fft(&x).unwrap();
        assert_eq!(bp_ifft(&y).unwrap(), x, "size {}", n);
        let yp = bp_fft_parallel(&x, 4).unwrap();
        assert_eq!(bp_ifft(&yp).unwrap(), x, "size {}", n);
        n *= 2;
    }
}

#[test]
fn inverse_transform_interpolates() {
    // the transform of the inverse transform is the input
    let mut n = 1usize;
    while n <= 256 {
        let y = scrambled(n);
        let c = bp_ifft(&y).unwrap();
        assert_eq!(bp_fft(&c).unwrap(), y, "size {}", n);
        n *= 2;
    }
    let y: Vec<Belt> = [10u64, 20, 30, 40].iter().map(|&v| Belt(v)).collect();
    let c = bp_ifft(&y).unwrap();
    let root = Belt(4).ordered_root().unwrap();
    assert_eq!(naive_dft(&c, root), y);
}

#[test]
fn pointwise_product() {
    let a: Vec<Belt> = [1u64, 2, 3, PRIME - 1].iter().map(|&v| Belt(v)).collect();
    let b: Vec<Belt> = [5u64, 6, 7, PRIME - 1].iter().map(|&v| Belt(v)).collect();
    let mut res = zeros(4);
    bp_hadamard(&a, &b, &mut res);
    assert_eq!(res, vec![Belt(5), Belt(12), Belt(21), Belt(1)]);
}

#[test]
fn parallel_pointwise_product_matches_sequential() {
    for n in [0usize, 1, 32, 33, 100, 1000] {
        let a = scrambled(n);
        let b: Vec<Belt> = scrambled(n).iter().map(|v| v.add(Belt(3))).collect();
        let mut seq = zeros(n);
        bp_hadamard(&a, &b, &mut seq);
        for threads in [1usize, 2, 3, 8, 2000] {
            let mut par = zeros(n);
            bp_hadamard_parallel(&a, &b, &mut par, threads);
            assert_eq!(par, seq, "size {} threads {}", n, threads);
        }
        if n > 0 {
            assert_ne!(seq, zeros(n));
        }
    }
}

#[test]
fn coset_shift_multiplies_by_powers() {
    let a: Vec<Belt> = [1u64, 2, 3, 4].iter().map(|&v| Belt(v)).collect();
    let mut res = zeros(4);
    bp_shift(&a, &Belt(5), &mut res);
    assert_eq!(res, vec![Belt(1), Belt(10), Belt(75), Belt(500)]);
}

#[test]
fn scaling_multiplies_every_entry() {
    let mut a: Vec<Belt> = [1u64, 2, PRIME - 1].iter().map(|&v| Belt(v)).collect();
    bp_scale(&mut a, Belt(3));
    assert_eq!(a, vec![Belt(3), Belt(6), Belt(PRIME - 3)]);
}

#[test]
fn schoolbook_product() {
    let a: Vec<Belt> = [1u64, 2, 3].iter().map(|&v| Belt(v)).collect();
    let b: Vec<Belt> = [4u64, 5].iter().map(|&v| Belt(v)).collect();
    let mut res = zeros(4);
    bpmul(&a, &b, &mut res);
    assert_eq!(res, vec![Belt(4), Belt(13), Belt(22), Belt(15)]);

    let a: Vec<Belt> = [PRIME - 1, 5].iter().map(|&v| Belt(v)).collect();
    let b: Vec<Belt> = [PRIME - 2, 7, 9].iter().map(|&v| Belt(v)).collect();
    let mut res = zeros(4);
    bpmul(&a, &b, &mut res);
    assert_eq!(res, vec![Belt(2), Belt(18446744069414584304), Belt(26), Belt(45)]);
}

#[test]
fn product_with_an_empty_operand_is_a_single_zero() {
    let a = ramp(5);
    let empty: Vec<Belt> = Vec::new();
    let mut res = vec![Belt(9)];
    bpmul(&a, &empty, &mut res);
    assert_eq!(res, vec![Belt(0)]);
    let mut res = vec![Belt(9)];
    bpmul(&empty, &a, &mut res);
    assert_eq!(res, vec![Belt(0)]);
    let mut res = vec![Belt(9)];
    assert_eq!(bpmul_fft_parallel(&a, &empty, &mut res, 4), Ok(()));
    assert_eq!(res, vec![Belt(0)]);
    let mut res = vec![Belt(9)];
    assert_eq!(bpmul_fft_parallel(&empty, &empty, &mut res, 4), Ok(()));
    assert_eq!(res, vec![Belt(0)]);
}

#[test]
fn fft_product_matches_schoolbook_product() {
    for (la, lb) in [(1usize, 1usize), (1, 2), (3, 2), (8, 9), (20, 20), (33, 17), (100, 29), (64, 65)] {
        let a = scrambled(la);
        let b: Vec<Belt> = scrambled(lb + 1)[1..].to_vec();
        let mut naive = zeros(la + lb - 1);
        bpmul(&a, &b, &mut naive);
        for threads in [1usize, 4, 300] {
            let mut fast = zeros(la + lb - 1);
            assert_eq!(bpmul_fft_parallel(&a, &b, &mut fast, threads), Ok(()));
            assert_eq!(fast, naive, "lengths {} {} threads {}", la, lb, threads);
        }
    }
}

#[test]
fn fft_product_known_values() {
    let a: Vec<Belt> = (1..21u64).map(Belt).collect();
    let b: Vec<Belt> = (5..25u64).map(Belt).collect();
    let expected: Vec<Belt> = [
        5u64, 16, 34, 60, 95, 140, 196, 264, 345, 440, 550, 676, 819, 980, 1160, 1360, 1581, 1824,
        2090, 2380, 2565, 2724, 2856, 2960, 3035, 3080, 3094, 3076, 3025, 2940, 2820, 2664, 2471,
        2240, 1970, 1660, 1309, 916, 480,
    ]
    .iter()
    .map(|&v| Belt(v))
    .collect();
    let mut res = zeros(39);
    assert_eq!(bpmul_fft_parallel(&a, &b, &mut res, 4), Ok(()));
    assert_eq!(res, expected);
}

#[test]
fn next_power_of_two_is_the_smallest_one_that_fits() {
    assert_eq!(next_power_of_two(0), Some(1));
    assert_eq!(next_power_of_two(1), Some(1));
    assert_eq!(next_power_of_two(2), Some(2));
    assert_eq!(next_power_of_two(3), Some(4));
    assert_eq!(next_power_of_two(1024), Some(1024));
    assert_eq!(next_power_of_two(1025), Some(2048));
    assert_eq!(next_power_of_two(usize::MAX), None);
    assert_eq!(next_power_of_two(usize::MAX / 2 + 1), Some(usize::MAX / 2 + 1));
    assert_eq!(next_power_of_two(usize::MAX / 2 + 2), None);
}

#[test]
fn padding_appends_zeros() {
    let a = vec![Belt(1), Belt(2)];
    assert_eq!(padded(&a, 4), vec![Belt(1), Belt(2), Belt(0), Belt(0)]);
    assert_eq!(padded(&a, 2), a);
}
