use zkvm_jetpack::field::{badd, binv, bmul, bneg, bpow, bsub, Belt, FieldError, PRIME};

#[test]
fn prime_is_two_to_64_minus_two_to_32_plus_one() {
    assert_eq!(PRIME as u128, (1u128 << 64) - (1u128 << 32) + 1);
}

#[test]
fn addition_wraps_at_the_prime() {
    assert_eq!(badd(PRIME - 1, 5), 4);
    assert_eq!(badd(0, 0), 0);
    assert_eq!(badd(PRIME - 1, 1), 0);
    assert_eq!(Belt(PRIME - 1).add(Belt(5)), Belt(4));
}

#[test]
fn subtraction_and_negation() {
    assert_eq!(bsub(3, 5), 18446744069414584319);
    assert_eq!(bsub(5, 3), 2);
    assert_eq!(bneg(1), 18446744069414584320);
    assert_eq!(bneg(0), 0);
    assert_eq!(Belt(3).sub(Belt(5)), Belt(18446744069414584319));
    assert_eq!(Belt(1).neg(), Belt(PRIME - 1));
}

#[test]
fn multiplication_reduces_a_wide_product() {
    assert_eq!(bmul(0xffffffff00000000, 0xffffffff00000000), 1);
    assert_eq!(bmul(12345678901234567890, 9876543210987654321), 7432351747408847865);
    assert_eq!(Belt(6).mul(Belt(7)), Belt(42));
}

#[test]
fn operands_above_the_prime_are_read_modulo_the_prime() {
    assert_eq!(badd(u64::MAX, 0), u64::MAX - PRIME);
    assert_eq!(bmul(PRIME, 12345), 0);
    assert_eq!(bmul(PRIME + 2, 3), 6);
    assert_eq!(Belt::new(PRIME + 7), Belt(7));
    assert!(!Belt(PRIME).is_reduced());
    assert!(Belt(PRIME - 1).is_reduced());
    assert!(Belt(PRIME).is_zero());
}

#[test]
fn powers_by_repeated_squaring() {
    assert_eq!(bpow(3, 100), 15532951398898381830);
    assert_eq!(bpow(7, PRIME - 1), 1);
    assert_eq!(bpow(5, 0), 1);
    assert_eq!(bpow(0, 0), 1);
    assert_eq!(bpow(0, 5), 0);
    assert_eq!(Belt(2).pow(10), Belt(1024));
}

#[test]
fn inverse_times_element_is_one() {
    assert_eq!(binv(2), 9223372034707292161);
    assert_eq!(binv(7), 2635249152773512046);
    for a in [1u64, 2, 3, 7, 1 << 32, PRIME - 1, 1753635133440165772] {
        assert_eq!(bmul(a, binv(a)), 1);
    }
    assert_eq!(binv(0), 0);
    assert_eq!(Belt(7).mul(Belt(7).inv()), Belt::one());
}

#[test]
fn zero_and_one() {
    assert_eq!(Belt::zero(), Belt(0));
    assert_eq!(Belt::one(), Belt(1));
}

#[test]
fn ordered_root_fails_for_orders_that_do_not_divide_p_minus_one() {
    for order in [0u64, 7, 11, 13, 1 << 33, 1 << 40, 1 << 63, PRIME - 2] {
        assert_eq!(Belt(order).ordered_root(), Err(FieldError::OrderedRootError));
    }
}

#[test]
fn ordered_root_fails_for_orders_that_are_no_power_of_two() {
    for order in [3u64, 5, 6, 12, 15, 17, 255, 257, 65537, (1 << 32) - 1, (1 << 32) + 1] {
        assert_eq!(Belt(order).ordered_root(), Err(FieldError::OrderedRootError));
    }
}

#[test]
fn ordered_root_is_primitive_for_every_supported_order() {
    for k in 0..=32u32 {
        let order = 1u64 << k;
        let root = Belt(order).ordered_root().unwrap();
        assert!(root.is_reduced());
        assert_eq!(root.pow(order), Belt(1), "order {}", order);
        if k > 0 {
            // the half-order power is -1, so no smaller power of two gives one
            assert_eq!(root.pow(order / 2), Belt(PRIME - 1), "order {}", order);
        }
    }
}

#[test]
fn no_smaller_positive_power_of_a_small_root_is_one() {
    for order in [2u64, 4, 8, 16, 64, 1024] {
        let root = Belt(order).ordered_root().unwrap();
        for j in 1..order {
            assert_ne!(root.pow(j), Belt(1), "order {} power {}", order, j);
        }
    }
}

#[test]
fn ordered_root_known_values() {
    assert_eq!(Belt(1).ordered_root(), Ok(Belt(1)));
    assert_eq!(Belt(2).ordered_root(), Ok(Belt(18446744069414584320)));
    assert_eq!(Belt(4).ordered_root(), Ok(Belt(281474976710656)));
    assert_eq!(Belt(8).ordered_root(), Ok(Belt(18446744069397807105)));
    assert_eq!(Belt(1 << 32).ordered_root(), Ok(Belt(1753635133440165772)));
}
