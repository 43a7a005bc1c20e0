use ark_std::rand::RngCore;
use surge::errors::ProofVerifyError;
use surge::field::{Fp, JoltField};
use surge::poly::MultilinearPolynomial;
use surge::preprocessing::SurgePreprocessing;
use surge::reference::completeness::{prove_then_verify, prove_then_verify_xor, ReferenceProof};
use surge::protocol::memory_checking_protocol_name;
use surge::reference::commitment::Transparent;
use surge::reference::memory_checking::{product, TransparentMemoryChecking};
use surge::subprotocols::MemoryCheckingProof;
use surge::witness::generate_witness;
use surge::reference::transcript::MixingTranscript;
use surge::transcript::Transcript;
use surge::xor::XORInstruction;

const WORD_SIZE: usize = 32;
const C: usize = 4;
const M: usize = 1 << 16;

type Xor = XORInstruction<WORD_SIZE>;
type Proof = ReferenceProof<Xor, C, M>;

fn random_ops(num_ops: usize) -> Vec<Xor> {
    let mut rng = ark_std::test_rng();
    std::iter::repeat_with(|| {
        XORInstruction::<WORD_SIZE>(rng.next_u32() as u64, rng.next_u32() as u64)
    })
    .take(num_ops)
    .collect()
}

fn reference_proof(num_ops: usize) -> (SurgePreprocessing<Fp, Xor, C, M>, Proof) {
    let preprocessing = SurgePreprocessing::preprocess();
    let (proof, debug_info) = Proof::prove(&preprocessing, &(), random_ops(num_ops));
    assert!(debug_info.is_none());
    (preprocessing, proof)
}

#[test]
fn reference_proof_of_a_power_of_two_of_lookups_is_accepted() {
    let preprocessing = SurgePreprocessing::<Fp, Xor, C, M>::preprocess();
    assert_eq!(prove_then_verify(&preprocessing, random_ops(1024)), Ok(()));
}

#[test]
fn reference_proof_of_padded_lookups_is_accepted() {
    let preprocessing = SurgePreprocessing::<Fp, Xor, C, M>::preprocess();
    assert_eq!(prove_then_verify(&preprocessing, random_ops(1000)), Ok(()));
}

#[test]
fn reference_proof_of_no_lookups_is_accepted() {
    let preprocessing = SurgePreprocessing::<Fp, Xor, C, M>::preprocess();
    assert_eq!(prove_then_verify(&preprocessing, Vec::new()), Ok(()));
}

#[test]
fn reference_proof_holds_the_witness() {
    let (preprocessing, proof) = reference_proof(5);
    assert_eq!(proof.primary_sumcheck.num_rounds, 3);
    assert_eq!(proof.commitments.dim.len(), 4);
    assert_eq!(proof.commitments.dim[0].len(), 8);
    assert_eq!(proof.commitments.final_cts[0].len(), M);
    assert_eq!(proof.primary_sumcheck.E_poly_openings.len(), 4);
    assert_eq!(proof.primary_sumcheck.sumcheck_proof.polys.len(), 5);
    assert_eq!(Proof::verify(&preprocessing, &(), proof, None), Ok(()));
}

#[test]
fn reference_verifier_rejects_a_changed_read_counter() {
    let (preprocessing, mut proof) = reference_proof(100);
    let mut counters = proof.commitments.read_cts[1].as_u32().clone();
    counters[17] += 1;
    proof.commitments.read_cts[1] = MultilinearPolynomial::U32Scalars(counters);
    assert_eq!(
        Proof::verify(&preprocessing, &(), proof, None),
        Err(ProofVerifyError::MultisetMismatch)
    );
}

#[test]
fn reference_verifier_rejects_a_changed_final_counter() {
    let (preprocessing, mut proof) = reference_proof(100);
    let mut counters = proof.commitments.final_cts[0].as_u32().clone();
    counters[0] += 1;
    proof.commitments.final_cts[0] = MultilinearPolynomial::U32Scalars(counters);
    assert_eq!(
        Proof::verify(&preprocessing, &(), proof, None),
        Err(ProofVerifyError::MultisetMismatch)
    );
}

#[test]
fn reference_verifier_rejects_a_changed_claim() {
    let (preprocessing, mut proof) = reference_proof(64);
    proof.primary_sumcheck.claimed_evaluation =
        proof.primary_sumcheck.claimed_evaluation.add(&Fp::one());
    assert_eq!(
        Proof::verify(&preprocessing, &(), proof, None),
        Err(ProofVerifyError::SumcheckRoundMismatch(0))
    );
}

#[test]
fn reference_verifier_rejects_a_changed_opening() {
    let (preprocessing, mut proof) = reference_proof(64);
    proof.primary_sumcheck.E_poly_openings[0] =
        proof.primary_sumcheck.E_poly_openings[0].add(&Fp::one());
    assert_eq!(Proof::verify(&preprocessing, &(), proof, None), Err(ProofVerifyError::ClaimMismatch));
}

#[test]
fn reference_verifier_rejects_commitments_of_another_form() {
    let (preprocessing, mut proof) = reference_proof(8);
    proof.commitments.dim[0] = MultilinearPolynomial::U32Scalars(vec![0; 8]);
    assert_eq!(Proof::verify(&preprocessing, &(), proof, None), Err(ProofVerifyError::InternalError));
}

#[test]
fn reference_verifier_rejects_polynomials_that_do_not_fit() {
    let (preprocessing, mut proof) = reference_proof(8);
    proof.primary_sumcheck.sumcheck_proof.polys.pop();
    assert_eq!(Proof::verify(&preprocessing, &(), proof, None), Err(ProofVerifyError::InternalError));
}

#[test]
fn mixing_transcript_is_deterministic() {
    let draw = |label: &[u8], scalar: u64| -> Vec<u64> {
        let mut transcript = MixingTranscript::new(label);
        transcript.append_message(b"message");
        transcript.append_scalar(&Fp::new(scalar));
        let challenges: Vec<Fp> = transcript.challenge_vector(3);
        challenges.iter().map(Fp::to_u64).collect()
    };
    assert_eq!(draw(b"label", 7), draw(b"label", 7));
    assert_ne!(draw(b"label", 7), draw(b"label", 8));
    assert_ne!(draw(b"label", 7), draw(b"other", 7));
    let challenges = draw(b"label", 7);
    assert_eq!(challenges.len(), 3);
    assert!(challenges[0] != challenges[1] && challenges[1] != challenges[2]);
}

#[test]
fn mixing_transcript_draws_the_same_in_one_call_or_in_two() {
    let mut one = MixingTranscript::new(b"label");
    let mut two = MixingTranscript::new(b"label");
    let all: Vec<Fp> = one.challenge_vector(4);
    let mut parts: Vec<Fp> = two.challenge_vector(1);
    parts.extend(Transcript::<Fp>::challenge_vector(&mut two, 3));
    assert_eq!(all, parts);
}

#[test]
fn product_multiplies_the_leaves() {
    let leaves: Vec<Fp> = [2u64, 3, 5, 7].iter().map(|v| Fp::new(*v)).collect();
    assert_eq!(product(&leaves).to_u64(), 210);
    assert_eq!(product::<Fp>(&Vec::new()).to_u64(), 1);
}

#[test]
fn reference_proofs_of_xor_lookups_are_accepted() {
    for num_ops in [0usize, 1, 2, 3, 1000, 1024, 1025] {
        assert_eq!(prove_then_verify_xor(random_ops(num_ops)), Ok(()));
    }
}

#[test]
fn reference_verifier_rejects_openings_that_compensate_each_other() {
    let (preprocessing, mut proof) = reference_proof(64);
    // the collation weighs the first value 256 times as much as the second
    let openings = &mut proof.primary_sumcheck.E_poly_openings;
    openings[0] = openings[0].add(&Fp::one());
    openings[1] = openings[1].sub(&Fp::new(256));
    assert_eq!(
        Proof::verify(&preprocessing, &(), proof, None),
        Err(ProofVerifyError::InvalidOpeningProof)
    );
}

#[test]
fn reference_verifier_rejects_a_changed_value_commitment() {
    let (preprocessing, mut proof) = reference_proof(64);
    let mut values = proof.commitments.E_polys[2].as_u32().clone();
    values[3] ^= 1;
    proof.commitments.E_polys[2] = MultilinearPolynomial::U32Scalars(values);
    assert_eq!(
        Proof::verify(&preprocessing, &(), proof, None),
        Err(ProofVerifyError::InvalidOpeningProof)
    );
}

#[test]
fn reference_memory_checking_prover_absorbs_the_name_and_draws_two_challenges() {
    let preprocessing = SurgePreprocessing::<Fp, XORInstruction<8>, 2, 16>::preprocess();
    let polynomials = generate_witness(&preprocessing, &[XORInstruction::<8>(3, 5)]);
    let mut transcript = MixingTranscript::new(b"label");
    let mut expected = MixingTranscript::new(b"label");
    let _proof = <TransparentMemoryChecking as MemoryCheckingProof<
        Fp,
        MixingTranscript,
        Transparent,
        XORInstruction<8>,
        2,
        16,
    >>::prove_memory_checking(&(), &preprocessing, &polynomials, &mut (), &mut transcript);
    expected.append_message(memory_checking_protocol_name());
    let _: Vec<Fp> = expected.challenge_vector(2);
    let after: Vec<Fp> = transcript.challenge_vector(3);
    let after_expected: Vec<Fp> = expected.challenge_vector(3);
    assert_eq!(after, after_expected);
    let untouched: Vec<Fp> = MixingTranscript::new(b"label").challenge_vector(3);
    assert_ne!(after, untouched);
}

#[test]
fn reference_verifier_hands_on_the_error_of_the_sumcheck_before_it_tests_lengths() {
    let (preprocessing, mut proof) = reference_proof(64);
    proof.primary_sumcheck.E_poly_openings.pop();
    proof.primary_sumcheck.claimed_evaluation =
        proof.primary_sumcheck.claimed_evaluation.add(&Fp::one());
    assert_eq!(
        Proof::verify(&preprocessing, &(), proof, None),
        Err(ProofVerifyError::SumcheckRoundMismatch(0))
    );
}

#[test]
fn reference_verifier_rejects_a_missing_opening_once_the_sumcheck_has_passed() {
    let (preprocessing, mut proof) = reference_proof(64);
    proof.primary_sumcheck.E_poly_openings.pop();
    assert_eq!(
        Proof::verify(&preprocessing, &(), proof, None),
        Err(ProofVerifyError::InvalidInputLength(4, 3))
    );
}
