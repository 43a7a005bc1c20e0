use surge::errors::ProofVerifyError;
use surge::field::{Fp, JoltField, FP_MODULUS};
use surge::openings::{
    compute_verifier_openings, final_tuples, init_tuples, read_tuples, write_tuples, SurgeOpenings,
};
use surge::poly::MultilinearPolynomial;
use surge::preprocessing::SurgePreprocessing;
use surge::protocol::{
    check_primary_sumcheck, instance_is_supported, memory_checking_protocol_name, protocol_name,
};
use surge::stuff::{references, SurgeStuff};
use surge::sumcheck::{combine_lookups_eq, compute_primary_sumcheck_claim};
use surge::witness::{generate_witness, lookups_are_valid};
use surge::xor::XORInstruction;

const P: u64 = FP_MODULUS;

type Xor = XORInstruction<8>;

fn fps(values: &[u64]) -> Vec<Fp> {
    values.iter().map(|v| Fp::new(*v)).collect()
}

fn words(values: &[Fp]) -> Vec<u64> {
    values.iter().map(Fp::to_u64).collect()
}

fn triples(tuples: &[(Fp, Fp, Fp)]) -> Vec<(u64, u64, u64)> {
    tuples.iter().map(|(a, v, t)| (a.to_u64(), v.to_u64(), t.to_u64())).collect()
}

fn openings() -> SurgeOpenings<Fp> {
    SurgeStuff {
        dim: fps(&[10, 11]),
        read_cts: fps(&[20, P - 1]),
        E_polys: fps(&[30, 31]),
        final_cts: fps(&[40, 41]),
        a_init_final: None,
        v_init_final: None,
    }
}

#[test]
fn verifier_openings_are_the_public_extensions_at_the_point() {
    let mut openings = openings();
    compute_verifier_openings::<Fp, Xor>(&mut openings, &fps(&[2, 3, 5, 7]), 2, 16);
    // 2 * 8 + 3 * 4 + 5 * 2 + 7
    assert_eq!(openings.a_init_final.map(|a| a.to_u64()), Some(45));
    assert_eq!(openings.v_init_final.as_ref().map(|v| words(v)), Some(vec![P - 58]));
    assert_eq!(words(&openings.dim), vec![10, 11]);
    assert_eq!(words(&openings.read_cts), vec![20, P - 1]);
    assert_eq!(words(&openings.E_polys), vec![30, 31]);
    assert_eq!(words(&openings.final_cts), vec![40, 41]);
}

#[test]
fn verifier_openings_on_a_corner_are_address_and_entry() {
    let mut openings = openings();
    compute_verifier_openings::<Fp, Xor>(&mut openings, &fps(&[1, 0, 0, 1]), 2, 16);
    assert_eq!(openings.a_init_final.map(|a| a.to_u64()), Some(0b1001));
    assert_eq!(openings.v_init_final.as_ref().map(|v| words(v)), Some(vec![0b11]));
}

#[test]
fn read_and_write_tuples_differ_by_one_in_the_timestamp() {
    let openings = openings();
    assert_eq!(triples(&read_tuples::<Fp, Xor>(&openings, 2, 16)), vec![(10, 30, 20), (11, 31, P - 1)]);
    assert_eq!(triples(&write_tuples::<Fp, Xor>(&openings, 2, 16)), vec![(10, 30, 21), (11, 31, 0)]);
}

#[test]
fn init_and_final_tuples_share_address_and_value() {
    let mut openings = openings();
    compute_verifier_openings::<Fp, Xor>(&mut openings, &fps(&[1, 0, 0, 1]), 2, 16);
    assert_eq!(triples(&init_tuples::<Fp, Xor>(&openings, 2, 16)), vec![(9, 3, 0), (9, 3, 0)]);
    assert_eq!(triples(&final_tuples::<Fp, Xor>(&openings, 2, 16)), vec![(9, 3, 40), (9, 3, 41)]);
}

#[test]
fn slots_are_read_and_filled_in_one_order() {
    let mut stuff = openings();
    let read_write: Vec<u64> = stuff.read_write_values().iter().map(|v| v.to_u64()).collect();
    assert_eq!(read_write, vec![10, 11, 20, P - 1, 30, 31]);
    let init_final: Vec<u64> = stuff.init_final_values().iter().map(|v| v.to_u64()).collect();
    assert_eq!(init_final, vec![40, 41]);
    stuff.set_read_write_values(fps(&[1, 2, 3, 4, 5, 6]));
    stuff.set_init_final_values(fps(&[7, 8]));
    assert_eq!(words(&stuff.dim), vec![1, 2]);
    assert_eq!(words(&stuff.read_cts), vec![3, 4]);
    assert_eq!(words(&stuff.E_polys), vec![5, 6]);
    assert_eq!(words(&stuff.final_cts), vec![7, 8]);
    let refs: Vec<u64> = references(&stuff.dim).iter().map(|v| v.to_u64()).collect();
    assert_eq!(refs, vec![1, 2]);
}

#[test]
fn initialized_slots_have_the_shape_of_the_instance() {
    let preprocessing = SurgePreprocessing::<Fp, XORInstruction<32>, 4, 256>::preprocess();
    let stuff: SurgeStuff<u64> = SurgeStuff::initialize(&preprocessing);
    assert_eq!(stuff.dim, vec![0; 4]);
    assert_eq!(stuff.read_cts, vec![0; 4]);
    assert_eq!(stuff.final_cts, vec![0; 4]);
    assert_eq!(stuff.E_polys, vec![0; 4]);
    assert!(stuff.a_init_final.is_none() && stuff.v_init_final.is_none());
    let empty: SurgeStuff<u64> = SurgeStuff::default();
    assert!(empty.dim.is_empty() && empty.E_polys.is_empty());
}

#[test]
fn combinator_multiplies_the_collation_by_the_last_value() {
    // (3 * 4 + 1) * 5
    assert_eq!(combine_lookups_eq::<Fp, Xor>(&fps(&[3, 1, 5]), 2, 16).to_u64(), 65);
    assert_eq!(combine_lookups_eq::<Fp, Xor>(&fps(&[3, 1, 0]), 2, 16).to_u64(), 0);
}

#[test]
fn primary_claim_is_the_weighted_sum_of_the_lookups() {
    let preprocessing = SurgePreprocessing::<Fp, Xor, 2, 16>::preprocess();
    let ops = vec![
        XORInstruction::<8>(0b1010, 0b0110),
        XORInstruction::<8>(0b1111, 0b0001),
        XORInstruction::<8>(0b0000, 0b1001),
    ];
    let polys = generate_witness(&preprocessing, &ops);
    // weights 1, 2, 3, 4 on the lookups 1100, 1110, 1001 and the padding 0
    let eq = MultilinearPolynomial::LargeScalars(fps(&[1, 2, 3, 4]));
    let claim = compute_primary_sumcheck_claim::<Fp, Xor>(&polys, &eq, 2, 16);
    assert_eq!(claim.to_u64(), 0b1100 + 2 * 0b1110 + 3 * 0b1001);
    // the indicator of a row picks the lookup of the row
    let eq = MultilinearPolynomial::LargeScalars(fps(&[0, 1, 0, 0]));
    assert_eq!(compute_primary_sumcheck_claim::<Fp, Xor>(&polys, &eq, 2, 16).to_u64(), 0b1110);
}

#[test]
fn final_check_accepts_the_weighted_collation() {
    // eq((2, 3), (5, 7)) = 462, collation of (3, 1) = 13
    let check = |claim: u64| {
        check_primary_sumcheck::<Fp, Xor>(
            &fps(&[2, 3]),
            &fps(&[5, 7]),
            &fps(&[3, 1]),
            &Fp::new(claim),
            2,
            16,
        )
    };
    assert_eq!(check(462 * 13), Ok(()));
    assert_eq!(check(462 * 13 + 1), Err(ProofVerifyError::ClaimMismatch));
    assert_eq!(check(0), Err(ProofVerifyError::ClaimMismatch));
}

#[test]
fn final_check_rejects_a_point_of_the_wrong_length() {
    let res = check_primary_sumcheck::<Fp, Xor>(
        &fps(&[2, 3]),
        &fps(&[5, 7, 9]),
        &fps(&[3, 1]),
        &Fp::new(0),
        2,
        16,
    );
    assert_eq!(res, Err(ProofVerifyError::InvalidInputLength(2, 3)));
}

#[test]
fn protocol_names_separate_the_two_arguments() {
    assert_eq!(protocol_name(), b"Surge");
    assert_eq!(memory_checking_protocol_name(), b"SurgeMemCheck");
}

#[test]
fn lookups_are_valid_where_every_address_is_in_the_subtable() {
    let ops = vec![XORInstruction::<8>(0xff, 0xff), XORInstruction::<8>(0, 0)];
    assert!(lookups_are_valid(&ops, 2, 16));
    assert!(lookups_are_valid(&ops, 4, 256));
    assert!(lookups_are_valid::<Xor>(&[], 2, 16));
    // 16 addresses in a subtable of 12 entries
    assert!(!lookups_are_valid(&ops, 2, 12));
    assert!(lookups_are_valid(&ops[1..], 2, 12));
}

#[test]
fn instances_with_wide_addresses_are_not_supported() {
    assert!(instance_is_supported::<Xor, 2, 16>());
    assert!(instance_is_supported::<XORInstruction<32>, 4, 65536>());
    assert!(!instance_is_supported::<XORInstruction<32>, 4, 65537>());
    assert!(!instance_is_supported::<Xor, 0, 16>());
    assert!(!instance_is_supported::<Xor, 2, 0>());
    assert!(!instance_is_supported::<Xor, { usize::MAX / 2 + 1 }, 16>());
}

#[test]
fn an_instance_without_dimensions_has_no_tuples() {
    let openings: SurgeOpenings<Fp> = SurgeStuff::default();
    assert!(read_tuples::<Fp, Xor>(&openings, 0, 16).is_empty());
    assert!(write_tuples::<Fp, Xor>(&openings, 0, 16).is_empty());
    let mut openings = openings;
    compute_verifier_openings::<Fp, Xor>(&mut openings, &fps(&[1, 0, 0, 1]), 0, 16);
    assert!(init_tuples::<Fp, Xor>(&openings, 0, 16).is_empty());
    assert!(final_tuples::<Fp, Xor>(&openings, 0, 16).is_empty());
}

#[test]
fn initialized_slots_hold_the_default_value() {
    let preprocessing = SurgePreprocessing::<Fp, XORInstruction<32>, 3, 256>::preprocess();
    let stuff: SurgeStuff<Option<u8>> = SurgeStuff::initialize(&preprocessing);
    assert_eq!(stuff.dim, vec![None; 3]);
    assert_eq!(stuff.read_cts, vec![None; 3]);
    assert_eq!(stuff.final_cts, vec![None; 3]);
    assert_eq!(stuff.E_polys, vec![None; 3]);
}
