use surge::field::{Fp, JoltField, FP_MODULUS};
use surge::math::{log_2, next_power_of_two};

const P: u64 = FP_MODULUS;

#[test]
fn modulus_is_the_mersenne_prime() {
    assert_eq!(P, (1u64 << 61) - 1);
}

#[test]
fn field_elements_are_reduced() {
    assert_eq!(Fp::new(P).to_u64(), 0);
    assert_eq!(Fp::new(P + 5).to_u64(), 5);
    assert_eq!(Fp::from_u64(u64::MAX).to_u64(), u64::MAX % P);
    assert_eq!(Fp::zero().to_u64(), 0);
    assert_eq!(Fp::one().to_u64(), 1);
}

#[test]
fn field_addition_wraps_at_the_modulus() {
    assert_eq!(Fp::new(P - 1).add(&Fp::new(1)).to_u64(), 0);
    assert_eq!(Fp::new(P - 1).add(&Fp::new(P - 1)).to_u64(), P - 2);
    assert_eq!(Fp::new(3).add(&Fp::new(4)).to_u64(), 7);
}

#[test]
fn field_subtraction_wraps_below_zero() {
    assert_eq!(Fp::new(0).sub(&Fp::new(1)).to_u64(), P - 1);
    assert_eq!(Fp::new(3).sub(&Fp::new(5)).to_u64(), P - 2);
    assert_eq!(Fp::new(9).sub(&Fp::new(4)).to_u64(), 5);
}

#[test]
fn field_multiplication_reduces_the_wide_product() {
    // (-1) * (-1) = 1
    assert_eq!(Fp::new(P - 1).mul(&Fp::new(P - 1)).to_u64(), 1);
    // 2^60 * 2 = 2^61 = 1
    assert_eq!(Fp::new(1 << 60).mul(&Fp::new(2)).to_u64(), 1);
    assert_eq!(Fp::new(6).mul(&Fp::new(7)).to_u64(), 42);
    assert_eq!(Fp::new(P - 2).square().to_u64(), 4);
}

#[test]
fn field_equality_compares_values() {
    assert!(Fp::new(5).equals(&Fp::new(P + 5)));
    assert!(!Fp::new(5).equals(&Fp::new(6)));
    assert_eq!(Fp::new(5), Fp::new(P + 5));
}

#[test]
fn next_power_of_two_is_the_least_power_that_reaches() {
    assert_eq!(next_power_of_two(0), 1);
    assert_eq!(next_power_of_two(1), 1);
    assert_eq!(next_power_of_two(2), 2);
    assert_eq!(next_power_of_two(3), 4);
    assert_eq!(next_power_of_two(5), 8);
    assert_eq!(next_power_of_two(1000), 1024);
    assert_eq!(next_power_of_two(1024), 1024);
    assert_eq!(next_power_of_two(1025), 2048);
    assert_eq!(next_power_of_two(usize::MAX / 2 + 1), usize::MAX / 2 + 1);
}

#[test]
fn next_power_of_two_agrees_with_the_standard_library() {
    for n in 0..5000usize {
        assert_eq!(next_power_of_two(n), n.next_power_of_two());
    }
}

#[test]
fn log_2_is_the_ceiling_of_the_logarithm() {
    assert_eq!(log_2(1), 0);
    assert_eq!(log_2(2), 1);
    assert_eq!(log_2(3), 2);
    assert_eq!(log_2(4), 2);
    assert_eq!(log_2(5), 3);
    assert_eq!(log_2(1024), 10);
    assert_eq!(log_2(1025), 11);
    assert_eq!(log_2(usize::MAX), usize::BITS as usize);
}

#[test]
fn log_2_agrees_with_the_logarithm_of_ark_std() {
    for n in 1..5000usize {
        assert_eq!(log_2(n), ark_std::log2(n) as usize);
    }
}
