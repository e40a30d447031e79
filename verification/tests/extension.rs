use zkvm_jetpack::fext::{fadd, fdiv, finv, fmul, fneg, fsub, Felt};
use zkvm_jetpack::field::{Belt, PRIME};
use zkvm_jetpack::fp_jets::{
    felt_bytes, felt_from_words, fp_add_jet, fp_eval_jet, fp_fft_jet, fp_ifft_jet, fp_mul_jet,
    fp_neg_jet, fp_scal_jet, fp_sub_jet, fpcompose_jet, fpoly_to_list, interpolate_jet,
};
use zkvm_jetpack::fp_poly::{
    felt_zeros, fp_fft_poly, fp_ifft_poly, fpadd_poly, fpcompose_poly, fpeval_poly, fpmul_poly,
    fpneg_poly, fpscal_poly, fpsub_poly, interpolate_poly,
};
use zkvm_jetpack::jets::JetError;

fn felt(a: u64, b: u64, c: u64) -> Felt {
    Felt([Belt(a), Belt(b), Belt(c)])
}

fn product(a: Felt, b: Felt) -> Felt {
    let mut r = Felt::zero();
    fmul(&a, &b, &mut r);
    r
}

#[test]
fn extension_sum_difference_negative() {
    let a = felt(1, 2, 3);
    let b = felt(4, 5, 6);
    let mut r = Felt::zero();
    fadd(&a, &b, &mut r);
    assert_eq!(r, felt(5, 7, 9));
    fsub(&a, &b, &mut r);
    assert_eq!(r, felt(PRIME - 3, PRIME - 3, PRIME - 3));
    fneg(&a, &mut r);
    assert_eq!(r, felt(PRIME - 1, PRIME - 2, PRIME - 3));
    fadd(&felt(PRIME - 1, 0, PRIME - 1), &felt(1, 0, 2), &mut r);
    assert_eq!(r, felt(0, 0, 1));
}

#[test]
fn extension_product() {
    assert_eq!(product(felt(1, 2, 3), felt(4, 5, 6)), felt(18446744069414584298, 22, 46));
    assert_eq!(product(felt(1, 0, 0), felt(4, 5, 6)), felt(4, 5, 6));
    assert_eq!(product(felt(0, 0, 0), felt(4, 5, 6)), felt(0, 0, 0));
    // X^3 = X - 1
    let x = felt(0, 1, 0);
    assert_eq!(product(x, product(x, x)), felt(PRIME - 1, 1, 0));
}

#[test]
fn extension_inverse_and_quotient() {
    let a = felt(1, 2, 3);
    let mut inv = Felt::zero();
    finv(&a, &mut inv);
    assert_eq!(inv, felt(7709087073785199418, 9636358842231499272, 17070121377667227282));
    assert_eq!(product(a, inv), Felt::one());
    let mut q = Felt::zero();
    fdiv(&felt(4, 5, 6), &a, &mut q);
    assert_eq!(q, felt(16794796839317755877, 7158437997086256602, 6883113458736785194));
    assert_eq!(product(q, a), felt(4, 5, 6));
    for a in [felt(5, 0, 0), felt(0, 1, 0), felt(0, 0, 1), felt(PRIME - 1, 7, 11)] {
        finv(&a, &mut inv);
        assert_eq!(product(a, inv), Felt::one());
    }
    finv(&Felt::zero(), &mut inv);
    assert_eq!(inv, Felt::zero());
}

#[test]
fn zero_and_one_of_the_extension() {
    assert_eq!(Felt::zero(), felt(0, 0, 0));
    assert_eq!(Felt::one(), felt(1, 0, 0));
}

#[test]
fn polynomial_sum_and_difference() {
    let p = vec![felt(1, 2, 3), felt(4, 5, 6), felt(7, 8, 9)];
    let q = vec![felt(10, 20, 30)];
    let mut res = felt_zeros(3);
    fpadd_poly(&p, &q, &mut res);
    assert_eq!(res, vec![felt(11, 22, 33), felt(4, 5, 6), felt(7, 8, 9)]);
    fpadd_poly(&q, &p, &mut res);
    assert_eq!(res, vec![felt(11, 22, 33), felt(4, 5, 6), felt(7, 8, 9)]);
    fpsub_poly(&p, &q, &mut res);
    assert_eq!(
        res,
        vec![felt(PRIME - 9, PRIME - 18, PRIME - 27), felt(4, 5, 6), felt(7, 8, 9)]
    );
    fpsub_poly(&q, &p, &mut res);
    assert_eq!(
        res,
        vec![
            felt(9, 18, 27),
            felt(PRIME - 4, PRIME - 5, PRIME - 6),
            felt(PRIME - 7, PRIME - 8, PRIME - 9)
        ]
    );
    assert_eq!(fp_add_jet(&p, &q), vec![felt(11, 22, 33), felt(4, 5, 6), felt(7, 8, 9)]);
    assert_eq!(fp_sub_jet(&q, &q), vec![felt(0, 0, 0)]);
    assert_eq!(fp_add_jet(&[], &[]), vec![]);
}

#[test]
fn polynomial_negative_and_multiple() {
    let p = vec![felt(1, 2, 3), felt(0, 0, 0)];
    let mut res = felt_zeros(2);
    fpneg_poly(&p, &mut res);
    assert_eq!(res, vec![felt(PRIME - 1, PRIME - 2, PRIME - 3), felt(0, 0, 0)]);
    fpscal_poly(&felt(4, 5, 6), &p, &mut res);
    assert_eq!(res, vec![felt(18446744069414584298, 22, 46), felt(0, 0, 0)]);
    assert_eq!(fp_neg_jet(&p), vec![felt(PRIME - 1, PRIME - 2, PRIME - 3), felt(0, 0, 0)]);
    assert_eq!(
        fp_scal_jet(&felt(4, 5, 6), &p),
        vec![felt(18446744069414584298, 22, 46), felt(0, 0, 0)]
    );
}

#[test]
fn polynomial_product() {
    let p = vec![felt(1, 2, 3), felt(4, 5, 6)];
    let q = vec![felt(7, 8, 9), felt(1, 0, 0), felt(0, 1, 0)];
    let expected = vec![
        felt(18446744069414584286, 37, 73),
        felt(18446744069414584257, 108, 175),
        felt(1, 9, 8),
        felt(18446744069414584315, 10, 5),
    ];
    let mut res = felt_zeros(4);
    fpmul_poly(&p, &q, &mut res);
    assert_eq!(res, expected);
    assert_eq!(fp_mul_jet(&p, &q), Ok(expected));
    assert_eq!(fp_mul_jet(&p, &[]), Ok(vec![]));
    assert_eq!(fp_mul_jet(&[], &q), Ok(vec![]));
    // an empty operand leaves the result as it was
    let mut res = vec![felt(9, 9, 9)];
    fpmul_poly(&p, &[], &mut res);
    assert_eq!(res, vec![felt(9, 9, 9)]);
}

#[test]
fn polynomial_value_by_horner() {
    let q = vec![felt(7, 8, 9), felt(1, 0, 0), felt(0, 1, 0)];
    assert_eq!(fpeval_poly(&q, &felt(2, 3, 4)), felt(18446744069414584289, 32, 33));
    assert_eq!(fp_eval_jet(&q, &felt(2, 3, 4)), felt(18446744069414584289, 32, 33));
    assert_eq!(fpeval_poly(&[], &felt(2, 3, 4)), Felt::zero());
    assert_eq!(fpeval_poly(&[felt(5, 6, 7)], &felt(2, 3, 4)), felt(5, 6, 7));
    assert_eq!(fpeval_poly(&q, &Felt::zero()), felt(7, 8, 9));
}

#[test]
fn transforms_of_the_extension_hand_the_input_on() {
    let p = vec![felt(1, 2, 3), felt(4, 5, 6)];
    let mut res = felt_zeros(2);
    fp_fft_poly(&p, &mut res);
    assert_eq!(res, p);
    let mut res = felt_zeros(2);
    fp_ifft_poly(&p, &mut res);
    assert_eq!(res, p);
    assert_eq!(fp_fft_jet(&p), p);
    assert_eq!(fp_ifft_jet(&p), p);
}

#[test]
fn leading_coefficient_through_points() {
    // the points (1, 1), (2, 4), (3, 9) lie on X^2
    let dom = vec![felt(1, 0, 0), felt(2, 0, 0), felt(3, 0, 0)];
    let vals = vec![felt(1, 0, 0), felt(4, 0, 0), felt(9, 0, 0)];
    let mut res = vec![felt(5, 5, 5); 3];
    interpolate_poly(&dom, &vals, &mut res);
    assert_eq!(res, vec![felt(1, 0, 0), felt(0, 0, 0), felt(0, 0, 0)]);

    let dom = vec![felt(1, 1, 0), felt(2, 0, 5), felt(3, 7, 0)];
    let vals = vec![felt(1, 2, 3), felt(4, 0, 6), felt(9, 9, 9)];
    assert_eq!(
        interpolate_jet(&dom, &vals),
        Ok(vec![
            felt(5487342559526755492, 927337259148797499, 5409741897527670480),
            felt(0, 0, 0),
            felt(0, 0, 0)
        ])
    );
    assert_eq!(interpolate_jet(&dom, &vals[..2]), Err(JetError::LengthMismatch));
    assert_eq!(interpolate_jet(&[], &[]), Ok(vec![]));
}

#[test]
fn composition() {
    // p = 1 + 2X + 3X^2, q = 1 + X: p(q) = 6 + 8X + 3X^2
    let p = vec![felt(1, 0, 0), felt(2, 0, 0), felt(3, 0, 0)];
    let q = vec![felt(1, 0, 0), felt(1, 0, 0)];
    let expected = vec![felt(6, 0, 0), felt(8, 0, 0), felt(3, 0, 0)];
    let mut res = felt_zeros(3);
    fpcompose_poly(&p, &q, &mut res);
    assert_eq!(res, expected);
    assert_eq!(fpcompose_jet(&p, &q), Ok(expected));

    let p = vec![felt(1, 2, 3), felt(4, 5, 6)];
    let q = vec![felt(7, 8, 9), felt(1, 0, 0), felt(0, 1, 0)];
    assert_eq!(
        fpcompose_jet(&p, &q),
        Ok(vec![
            felt(18446744069414584257, 108, 175),
            felt(4, 5, 6),
            felt(18446744069414584315, 10, 5)
        ])
    );
    assert_eq!(fpcompose_jet(&p, &[]), Ok(vec![]));
    assert_eq!(fpcompose_jet(&[], &q), Ok(vec![]));
    // a constant composed with anything is the constant
    assert_eq!(fpcompose_jet(&[felt(5, 6, 7)], &q), Ok(vec![felt(5, 6, 7)]));
}

#[test]
fn composition_cut_to_the_room_of_the_result() {
    let p = vec![felt(1, 0, 0), felt(2, 0, 0), felt(3, 0, 0)];
    let q = vec![felt(1, 0, 0), felt(1, 0, 0)];
    let mut res = felt_zeros(2);
    fpcompose_poly(&p, &q, &mut res);
    assert_eq!(res, vec![felt(6, 0, 0), felt(8, 0, 0)]);
}

#[test]
fn element_from_the_words_of_an_atom() {
    assert_eq!(felt_from_words(&[1, 2, 3, 1]), Some(felt(1, 2, 3)));
    assert_eq!(felt_from_words(&[1, 2, 3]), None);
    assert_eq!(felt_from_words(&[1, 2, 3, 4, 5]), None);
    assert_eq!(felt_from_words(&[]), None);
}

#[test]
fn element_as_bytes() {
    let f = felt(0x0102030405060708, 1, PRIME - 1);
    let mut expected = Vec::new();
    expected.extend_from_slice(&0x0102030405060708u64.to_le_bytes());
    expected.extend_from_slice(&1u64.to_le_bytes());
    expected.extend_from_slice(&(PRIME - 1).to_le_bytes());
    assert_eq!(felt_bytes(&f), expected);
    assert_eq!(felt_bytes(&f).len(), 24);
    assert_eq!(felt_bytes(&f)[0], 0x08);
    assert_eq!(fpoly_to_list(&[f, Felt::zero()]), vec![expected, vec![0u8; 24]]);
    assert_eq!(fpoly_to_list(&[]), Vec::<Vec<u8>>::new());
}
