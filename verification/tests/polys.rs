use surge::eq_poly::{eq_evals, eq_evaluate, identity_evaluate};
use surge::field::{Fp, JoltField, FP_MODULUS};
use surge::poly::MultilinearPolynomial;

const P: u64 = FP_MODULUS;

fn fps(values: &[u64]) -> Vec<Fp> {
    values.iter().map(|v| Fp::new(*v)).collect()
}

fn words(values: &[Fp]) -> Vec<u64> {
    values.iter().map(Fp::to_u64).collect()
}

#[test]
fn eq_table_of_no_variables_is_one() {
    assert_eq!(words(&eq_evals::<Fp>(&[])), vec![1]);
}

#[test]
fn eq_table_of_one_variable() {
    // 1 - r, r
    assert_eq!(words(&eq_evals(&fps(&[5]))), vec![P - 4, 5]);
}

#[test]
fn eq_table_puts_the_first_variable_on_top() {
    // r = (2, 3): (1-2)(1-3), (1-2)3, 2(1-3), 2*3
    assert_eq!(words(&eq_evals(&fps(&[2, 3]))), vec![2, P - 3, P - 4, 6]);
}

#[test]
fn eq_table_at_a_corner_is_the_indicator_of_the_corner() {
    assert_eq!(words(&eq_evals(&fps(&[1, 0, 1]))), vec![0, 0, 0, 0, 0, 1, 0, 0]);
}

#[test]
fn eq_table_sums_to_one() {
    let table = eq_evals(&fps(&[17, 4, 99, 1234567]));
    assert_eq!(table.len(), 16);
    let sum = table.iter().fold(Fp::zero(), |acc, w| acc.add(w));
    assert_eq!(sum.to_u64(), 1);
}

#[test]
fn eq_evaluate_is_the_product_of_the_factors() {
    // (2*5 + (-1)(-4)) * (3*7 + (-2)(-6)) = 14 * 33
    assert_eq!(eq_evaluate(&fps(&[2, 3]), &fps(&[5, 7])).to_u64(), 462);
    assert_eq!(eq_evaluate::<Fp>(&[], &[]).to_u64(), 1);
}

#[test]
fn eq_evaluate_on_corners_tells_equal_from_different() {
    assert_eq!(eq_evaluate(&fps(&[1, 0, 1]), &fps(&[1, 0, 1])).to_u64(), 1);
    assert_eq!(eq_evaluate(&fps(&[1, 0, 1]), &fps(&[1, 1, 1])).to_u64(), 0);
}

#[test]
fn eq_table_extends_to_eq_evaluate() {
    let r = fps(&[2, 3, 11]);
    let z = fps(&[5, 7, 13]);
    let weights = eq_evals(&z);
    let table = eq_evals(&r);
    let mut sum = Fp::zero();
    for x in 0..8 {
        sum = sum.add(&table[x].mul(&weights[x]));
    }
    assert_eq!(sum, eq_evaluate(&r, &z));
}

#[test]
fn identity_evaluate_weighs_the_first_variable_most() {
    assert_eq!(identity_evaluate(&fps(&[2, 3])).to_u64(), 7);
    assert_eq!(identity_evaluate(&fps(&[1, 0, 0, 1])).to_u64(), 9);
    assert_eq!(identity_evaluate::<Fp>(&[]).to_u64(), 0);
    assert_eq!(identity_evaluate(&fps(&[P - 1])).to_u64(), P - 1);
}

#[test]
fn identity_evaluate_extends_the_index() {
    let r = fps(&[5, 7, 13]);
    let weights = eq_evals(&r);
    let mut sum = Fp::zero();
    for x in 0..8u64 {
        sum = sum.add(&weights[x as usize].mul(&Fp::new(x)));
    }
    assert_eq!(sum, identity_evaluate(&r));
}

#[test]
fn polynomial_coefficients_are_field_elements() {
    let small: MultilinearPolynomial<Fp> = MultilinearPolynomial::U16Scalars(vec![7, 65535]);
    assert_eq!(small.len(), 2);
    assert_eq!(small.get_coeff(1).to_u64(), 65535);
    let medium: MultilinearPolynomial<Fp> = MultilinearPolynomial::U32Scalars(vec![u32::MAX]);
    assert_eq!(medium.get_coeff(0).to_u64(), u32::MAX as u64);
    let large = MultilinearPolynomial::LargeScalars(fps(&[P - 1, 3]));
    assert_eq!(large.get_coeff(0).to_u64(), P - 1);
    assert_eq!(large.len(), 2);
}

#[test]
fn polynomial_duplicate_keeps_the_evaluations() {
    let small: MultilinearPolynomial<Fp> = MultilinearPolynomial::U16Scalars(vec![7, 9, 11]);
    assert_eq!(small.duplicate().as_u16(), &vec![7u16, 9, 11]);
    let medium: MultilinearPolynomial<Fp> = MultilinearPolynomial::U32Scalars(vec![70000, 9]);
    assert_eq!(medium.duplicate().as_u32(), &vec![70000u32, 9]);
    let large = MultilinearPolynomial::LargeScalars(fps(&[P - 1, 3]));
    let copy = large.duplicate();
    assert_eq!(copy.get_coeff(0).to_u64(), P - 1);
    assert_eq!(copy.get_coeff(1).to_u64(), 3);
}
