use ark_std::rand::RngCore;
use std::sync::Mutex;
use surge::commitment::CommitmentScheme;
use surge::eq_poly::eq_evals;
use surge::errors::ProofVerifyError;
use surge::field::{Fp, JoltField};
use surge::fingerprint::fingerprint;
use surge::instruction::JoltInstruction;
use surge::leaves::compute_leaves;
use surge::openings::{
    compute_verifier_openings, final_tuples, init_tuples, read_tuples, write_tuples, SurgeOpenings,
};
use surge::poly::MultilinearPolynomial;
use surge::preprocessing::SurgePreprocessing;
use surge::protocol::{memory_checking_protocol_name, SurgeProof};
use surge::stuff::SurgeStuff;
use surge::subprotocols::{MemoryCheckingProof, SumcheckInstanceProof};
use surge::sumcheck::combine_lookups_eq;
use surge::transcript::Transcript;
use surge::witness::SurgePolynomials;
use surge::xor::XORInstruction;

// ---------------------------------------------------------------------
// Collaborators for the tests. None of them is succinct or hiding: the
// commitment to a polynomial is the polynomial, and the memory-checking
// verifier recomputes the grand products from the commitments.
// ---------------------------------------------------------------------

fn inverse(x: Fp) -> Fp {
    // x^(p - 2)
    let mut exponent: u64 = 0x1fff_ffff_ffff_ffff - 2;
    let mut base = x;
    let mut acc = Fp::one();
    while exponent > 0 {
        if exponent & 1 == 1 {
            acc = acc.mul(&base);
        }
        base = base.mul(&base);
        exponent >>= 1;
    }
    acc
}

fn evaluate_mle(coeffs: &[Fp], point: &[Fp]) -> Fp {
    let weights = eq_evals(point);
    assert_eq!(weights.len(), coeffs.len());
    let mut sum = Fp::zero();
    for i in 0..coeffs.len() {
        sum = sum.add(&weights[i].mul(&coeffs[i]));
    }
    sum
}

fn coefficients(poly: &MultilinearPolynomial<Fp>) -> Vec<Fp> {
    (0..poly.len()).map(|i| poly.get_coeff(i)).collect()
}

/// The interactions of every transcript that was dropped, for the tests
/// that compare what prover and verifier did.
static FINISHED: Mutex<Vec<Vec<String>>> = Mutex::new(Vec::new());

struct HashTranscript {
    state: u64,
    events: Vec<String>,
}

impl Drop for HashTranscript {
    fn drop(&mut self) {
        FINISHED.lock().unwrap().push(std::mem::take(&mut self.events));
    }
}

impl HashTranscript {
    fn absorb(&mut self, byte: u8) {
        self.state = (self.state ^ byte as u64).wrapping_mul(0x0000_0100_0000_01b3);
    }

    fn absorb_word(&mut self, word: u64) {
        for byte in word.to_le_bytes() {
            self.absorb(byte);
        }
    }

    fn squeeze(&mut self) -> u64 {
        self.absorb_word(0x9e37_79b9_7f4a_7c15);
        let mut z = self.state;
        z = (z ^ (z >> 30)).wrapping_mul(0xbf58_476d_1ce4_e5b9);
        z = (z ^ (z >> 27)).wrapping_mul(0x94d0_49bb_1331_11eb);
        z ^ (z >> 31)
    }
}

impl Transcript<Fp> for HashTranscript {
    fn new(label: &[u8]) -> Self {
        let mut transcript = HashTranscript { state: 0xcbf2_9ce4_8422_2325, events: Vec::new() };
        transcript.append_message(label);
        transcript
    }

    fn append_message(&mut self, msg: &[u8]) {
        self.events.push(format!("message {:?}", msg));
        self.absorb_word(msg.len() as u64);
        for byte in msg {
            self.absorb(*byte);
        }
    }

    fn append_scalar(&mut self, scalar: &Fp) {
        self.events.push(format!("scalar {}", scalar.to_u64()));
        self.absorb(0xff);
        self.absorb_word(scalar.to_u64());
    }

    fn challenge_vector(&mut self, len: usize) -> Vec<Fp> {
        let challenges: Vec<Fp> = (0..len).map(|_| Fp::new(self.squeeze())).collect();
        let drawn: Vec<u64> = challenges.iter().map(Fp::to_u64).collect();
        self.events.push(format!("challenge {:?}", drawn));
        challenges
    }
}

struct Transparent;

#[derive(Default, Clone, Debug, PartialEq)]
struct Evaluations(Vec<Fp>);

struct Claimed {
    openings: usize,
}

struct Checked {
    all_agree: bool,
}

/// A transcript that differs from `HashTranscript` in the state it starts
/// from, and so in every challenge.
struct SkewedTranscript(HashTranscript);

impl Transcript<Fp> for SkewedTranscript {
    fn new(label: &[u8]) -> Self {
        let mut inner = HashTranscript::new(label);
        inner.state ^= 1;
        SkewedTranscript(inner)
    }

    fn append_message(&mut self, msg: &[u8]) {
        self.0.append_message(msg)
    }

    fn append_scalar(&mut self, scalar: &Fp) {
        self.0.append_scalar(scalar)
    }

    fn challenge_vector(&mut self, len: usize) -> Vec<Fp> {
        self.0.challenge_vector(len)
    }
}

fn bind_opening<T: Transcript<Fp>>(point: &Vec<Fp>, claims: &Vec<Fp>, transcript: &mut T) {
    for coordinate in point {
        transcript.append_scalar(coordinate);
    }
    for claim in claims {
        transcript.append_scalar(claim);
    }
    let _: Vec<Fp> = transcript.challenge_vector(1);
}

impl<T: Transcript<Fp>> CommitmentScheme<Fp, T> for Transparent {
    type Setup = usize;
    type Commitment = Evaluations;
    type ProverAccumulator = Claimed;
    type VerifierAccumulator = Checked;

    fn batch_commit(polys: &Vec<&MultilinearPolynomial<Fp>>, setup: &usize) -> Vec<Evaluations> {
        polys
            .iter()
            .map(|poly| {
                assert!(poly.len() <= *setup);
                Evaluations(coefficients(poly))
            })
            .collect()
    }

    fn new_prover_accumulator() -> Claimed {
        Claimed { openings: 0 }
    }

    fn prover_append(
        accumulator: &mut Claimed,
        polys: &Vec<&MultilinearPolynomial<Fp>>,
        point: &Vec<Fp>,
        claims: &Vec<Fp>,
        transcript: &mut T,
    ) {
        assert_eq!(polys.len(), claims.len());
        accumulator.openings += claims.len();
        bind_opening(point, claims, transcript);
    }

    fn new_verifier_accumulator() -> Checked {
        Checked { all_agree: true }
    }

    fn verifier_append(
        accumulator: &mut Checked,
        commitments: &Vec<&Evaluations>,
        point: &Vec<Fp>,
        claims: &Vec<Fp>,
        transcript: &mut T,
    ) {
        if commitments.len() != claims.len() {
            accumulator.all_agree = false;
        } else {
            for (commitment, claim) in commitments.iter().zip(claims.iter()) {
                if commitment.0.len() != 1usize << point.len()
                    || evaluate_mle(&commitment.0, point) != *claim
                {
                    accumulator.all_agree = false;
                }
            }
        }
        bind_opening(point, claims, transcript);
    }
}

/// One polynomial for each round, given by its values at 0, 1, .., degree.
struct RoundPolynomials(Vec<Vec<Fp>>);

fn interpolate(values: &[Fp], at: Fp) -> Fp {
    let mut sum = Fp::zero();
    for j in 0..values.len() {
        let mut numerator = Fp::one();
        let mut denominator = Fp::one();
        for k in 0..values.len() {
            if k != j {
                numerator = numerator.mul(&at.sub(&Fp::new(k as u64)));
                denominator = denominator.mul(&Fp::new(j as u64).sub(&Fp::new(k as u64)));
            }
        }
        sum = sum.add(&values[j].mul(&numerator).mul(&inverse(denominator)));
    }
    sum
}

impl<T: Transcript<Fp>, I: JoltInstruction> SumcheckInstanceProof<Fp, T, I> for RoundPolynomials {
    fn prove_arbitrary(
        claim: &Fp,
        num_rounds: usize,
        polys: Vec<MultilinearPolynomial<Fp>>,
        c: usize,
        m: usize,
        degree: usize,
        transcript: &mut T,
    ) -> (Self, Vec<Fp>, Vec<Fp>) {
        let mut tables: Vec<Vec<Fp>> = polys.iter().map(coefficients).collect();
        let mut rounds = Vec::new();
        let mut point = Vec::new();
        let mut left = *claim;
        for _ in 0..num_rounds {
            let half = tables[0].len() / 2;
            let mut values = vec![Fp::zero(); degree + 1];
            for i in 0..half {
                for (t, value) in values.iter_mut().enumerate() {
                    let t = Fp::new(t as u64);
                    let at: Vec<Fp> = tables
                        .iter()
                        .map(|table| table[i].add(&t.mul(&table[half + i].sub(&table[i]))))
                        .collect();
                    *value = value.add(&combine_lookups_eq::<Fp, I>(&at, c, m));
                }
            }
            assert_eq!(values[0].add(&values[1]), left);
            for value in &values {
                transcript.append_scalar(value);
            }
            let r: Fp = transcript.challenge_vector(1)[0];
            left = interpolate(&values, r);
            for table in tables.iter_mut() {
                let bound: Vec<Fp> = (0..half)
                    .map(|i| table[i].add(&r.mul(&table[half + i].sub(&table[i]))))
                    .collect();
                *table = bound;
            }
            rounds.push(values);
            point.push(r);
        }
        let openings = tables.iter().map(|table| table[0]).collect();
        (RoundPolynomials(rounds), point, openings)
    }

    fn verify(
        &self,
        claim: Fp,
        num_rounds: usize,
        degree_bound: usize,
        _c: usize,
        _m: usize,
        transcript: &mut T,
    ) -> Result<(Fp, Vec<Fp>), ProofVerifyError> {
        if self.0.len() != num_rounds {
            return Err(ProofVerifyError::InvalidInputLength(num_rounds, self.0.len()));
        }
        let mut left = claim;
        let mut point = Vec::new();
        for (round, values) in self.0.iter().enumerate() {
            if values.len() != degree_bound + 1 {
                return Err(ProofVerifyError::DegreeBoundExceeded(degree_bound, values.len() - 1));
            }
            if values[0].add(&values[1]) != left {
                return Err(ProofVerifyError::SumcheckRoundMismatch(round));
            }
            for value in values {
                transcript.append_scalar(value);
            }
            let r: Fp = transcript.challenge_vector(1)[0];
            left = interpolate(values, r);
            point.push(r);
        }
        Ok((left, point))
    }
}

/// The products of the groups of leaves, the claims about the leaves at the
/// points drawn, and the openings of the trace there.
struct GrandProducts {
    read_write_products: Vec<Fp>,
    init_final_products: Vec<Fp>,
    read_write_claims: Vec<Fp>,
    init_final_claims: Vec<Fp>,
    openings: SurgeOpenings<Fp>,
}

fn log2_exact(n: usize) -> usize {
    assert!(n.is_power_of_two());
    n.trailing_zeros() as usize
}

fn products(leaves: &[Fp], groups: usize) -> Vec<Fp> {
    let size = leaves.len() / groups;
    leaves.chunks(size).map(|group| group.iter().fold(Fp::one(), |acc, leaf| acc.mul(leaf))).collect()
}

fn claims(leaves: &[Fp], groups: usize, point: &[Fp]) -> Vec<Fp> {
    let size = leaves.len() / groups;
    leaves.chunks(size).map(|group| evaluate_mle(group, point)).collect()
}

fn as_trace(commitments: &SurgeStuff<Evaluations>) -> Option<SurgePolynomials<Fp>> {
    let small16 = |e: &Evaluations| -> Option<MultilinearPolynomial<Fp>> {
        let mut v = Vec::new();
        for x in &e.0 {
            v.push(u16::try_from(x.to_u64()).ok()?);
        }
        Some(MultilinearPolynomial::U16Scalars(v))
    };
    let small32 = |e: &Evaluations| -> Option<MultilinearPolynomial<Fp>> {
        let mut v = Vec::new();
        for x in &e.0 {
            v.push(u32::try_from(x.to_u64()).ok()?);
        }
        Some(MultilinearPolynomial::U32Scalars(v))
    };
    Some(SurgeStuff {
        dim: commitments.dim.iter().map(small16).collect::<Option<Vec<_>>>()?,
        read_cts: commitments.read_cts.iter().map(small32).collect::<Option<Vec<_>>>()?,
        E_polys: commitments.E_polys.iter().map(small32).collect::<Option<Vec<_>>>()?,
        final_cts: commitments.final_cts.iter().map(small32).collect::<Option<Vec<_>>>()?,
        a_init_final: None,
        v_init_final: None,
    })
}

impl<T: Transcript<Fp>, I: JoltInstruction, const C: usize, const M: usize>
    MemoryCheckingProof<Fp, T, Transparent, I, C, M> for GrandProducts
{
    fn prove_memory_checking(
        _setup: &usize,
        preprocessing: &SurgePreprocessing<Fp, I, C, M>,
        polynomials: &SurgePolynomials<Fp>,
        accumulator: &mut Claimed,
        transcript: &mut T,
    ) -> Self {
        transcript.append_message(memory_checking_protocol_name());
        let challenges: Vec<Fp> = transcript.challenge_vector(2);
        let (gamma, tau) = (challenges[0], challenges[1]);
        let ((read_write, read_write_groups), (init_final, init_final_groups)) =
            compute_leaves(preprocessing, polynomials, &gamma, &tau);
        let read_write_products = products(&read_write, read_write_groups);
        let init_final_products = products(&init_final, init_final_groups);
        for product in read_write_products.iter().chain(init_final_products.iter()) {
            transcript.append_scalar(product);
        }
        let rows = polynomials.dim[0].len();
        let r_read_write: Vec<Fp> = transcript.challenge_vector(log2_exact(rows));
        let r_init_final: Vec<Fp> = transcript.challenge_vector(log2_exact(M));
        let read_write_claims = claims(&read_write, read_write_groups, &r_read_write);
        let init_final_claims = claims(&init_final, init_final_groups, &r_init_final);

        let open = |polys: &Vec<MultilinearPolynomial<Fp>>, point: &Vec<Fp>| -> Vec<Fp> {
            polys.iter().map(|poly| evaluate_mle(&coefficients(poly), point)).collect()
        };
        let openings = SurgeStuff {
            dim: open(&polynomials.dim, &r_read_write),
            read_cts: open(&polynomials.read_cts, &r_read_write),
            E_polys: open(&polynomials.E_polys, &r_read_write),
            final_cts: open(&polynomials.final_cts, &r_init_final),
            a_init_final: None,
            v_init_final: None,
        };
        let read_write_openings: Vec<Fp> =
            openings.read_write_values().into_iter().copied().collect();
        <Transparent as CommitmentScheme<Fp, T>>::prover_append(
            accumulator,
            &polynomials.read_write_values(),
            &r_read_write,
            &read_write_openings,
            transcript,
        );
        let init_final_openings: Vec<Fp> =
            openings.init_final_values().into_iter().copied().collect();
        <Transparent as CommitmentScheme<Fp, T>>::prover_append(
            accumulator,
            &polynomials.init_final_values(),
            &r_init_final,
            &init_final_openings,
            transcript,
        );
        GrandProducts {
            read_write_products,
            init_final_products,
            read_write_claims,
            init_final_claims,
            openings,
        }
    }

    fn verify_memory_checking(
        preprocessing: &SurgePreprocessing<Fp, I, C, M>,
        _setup: &usize,
        proof: Self,
        commitments: &SurgeStuff<Evaluations>,
        accumulator: &mut Checked,
        transcript: &mut T,
    ) -> Result<(), ProofVerifyError> {
        let memories = C * I::num_subtables(C, M);
        let mut proof = proof;
        for part in [
            &proof.read_write_products,
            &proof.init_final_products,
            &proof.read_write_claims,
            &proof.init_final_claims,
        ] {
            if part.len() != 2 * memories {
                return Err(ProofVerifyError::InvalidInputLength(2 * memories, part.len()));
            }
        }
        if proof.openings.dim.len() != C
            || proof.openings.read_cts.len() != C
            || proof.openings.final_cts.len() != C
            || proof.openings.E_polys.len() != memories
        {
            return Err(ProofVerifyError::InvalidInputLength(C, proof.openings.dim.len()));
        }
        let rows = commitments.dim[0].0.len();
        if !rows.is_power_of_two() || !M.is_power_of_two() {
            return Err(ProofVerifyError::InvalidInputLength(rows.next_power_of_two(), rows));
        }

        transcript.append_message(memory_checking_protocol_name());
        let challenges: Vec<Fp> = transcript.challenge_vector(2);
        let (gamma, tau) = (challenges[0], challenges[1]);
        for product in proof.read_write_products.iter().chain(proof.init_final_products.iter()) {
            transcript.append_scalar(product);
        }
        // what is read and what is left is what is written and what was there
        for k in 0..memories {
            let read = proof.read_write_products[2 * k];
            let write = proof.read_write_products[2 * k + 1];
            let init = proof.init_final_products[2 * k];
            let fin = proof.init_final_products[2 * k + 1];
            if read.mul(&fin) != write.mul(&init) {
                return Err(ProofVerifyError::MultisetMismatch);
            }
        }
        let r_read_write: Vec<Fp> = transcript.challenge_vector(log2_exact(rows));
        let r_init_final: Vec<Fp> = transcript.challenge_vector(log2_exact(M));

        // in place of a grand-product argument: the products and the claims
        // are recomputed from what the commitments reveal
        let trace = match as_trace(commitments) {
            Some(trace) => trace,
            None => return Err(ProofVerifyError::InvalidOpeningProof),
        };
        let same_length = trace.dim.iter().all(|p| p.len() == rows)
            && trace.read_cts.iter().all(|p| p.len() == rows)
            && trace.E_polys.iter().all(|p| p.len() == rows)
            && trace.final_cts.iter().all(|p| p.len() == M);
        if !same_length {
            return Err(ProofVerifyError::InvalidInputLength(rows, 0));
        }
        let ((read_write, read_write_groups), (init_final, init_final_groups)) =
            compute_leaves(preprocessing, &trace, &gamma, &tau);
        if products(&read_write, read_write_groups) != proof.read_write_products
            || products(&init_final, init_final_groups) != proof.init_final_products
            || claims(&read_write, read_write_groups, &r_read_write) != proof.read_write_claims
            || claims(&init_final, init_final_groups, &r_init_final) != proof.init_final_claims
        {
            return Err(ProofVerifyError::InternalError);
        }

        // the claims about the leaves are the fingerprints of the tuples
        // that the openings give
        compute_verifier_openings::<Fp, I>(&mut proof.openings, &r_init_final, C, M);
        let read = read_tuples::<Fp, I>(&proof.openings, C, M);
        let write = write_tuples::<Fp, I>(&proof.openings, C, M);
        let init = init_tuples::<Fp, I>(&proof.openings, C, M);
        let fin = final_tuples::<Fp, I>(&proof.openings, C, M);
        for k in 0..memories {
            if fingerprint(&read[k], &gamma, &tau) != proof.read_write_claims[2 * k]
                || fingerprint(&write[k], &gamma, &tau) != proof.read_write_claims[2 * k + 1]
                || fingerprint(&init[k], &gamma, &tau) != proof.init_final_claims[2 * k]
                || fingerprint(&fin[k], &gamma, &tau) != proof.init_final_claims[2 * k + 1]
            {
                return Err(ProofVerifyError::InternalError);
            }
        }

        let read_write_openings: Vec<Fp> =
            proof.openings.read_write_values().into_iter().copied().collect();
        <Transparent as CommitmentScheme<Fp, T>>::verifier_append(
            accumulator,
            &commitments.read_write_values(),
            &r_read_write,
            &read_write_openings,
            transcript,
        );
        let init_final_openings: Vec<Fp> =
            proof.openings.init_final_values().into_iter().copied().collect();
        <Transparent as CommitmentScheme<Fp, T>>::verifier_append(
            accumulator,
            &commitments.init_final_values(),
            &r_init_final,
            &init_final_openings,
            transcript,
        );
        if accumulator.all_agree {
            Ok(())
        } else {
            Err(ProofVerifyError::InvalidOpeningProof)
        }
    }
}

const WORD_SIZE: usize = 32;
const C: usize = 4;
const M: usize = 1 << 16;

type Proof = SurgeProof<
    Fp,
    Transparent,
    XORInstruction<WORD_SIZE>,
    C,
    M,
    HashTranscript,
    RoundPolynomials,
    GrandProducts,
>;

fn random_ops(num_ops: usize) -> Vec<XORInstruction<WORD_SIZE>> {
    let mut rng = ark_std::test_rng();
    std::iter::repeat_with(|| {
        XORInstruction::<WORD_SIZE>(rng.next_u32() as u64, rng.next_u32() as u64)
    })
    .take(num_ops)
    .collect()
}

fn prove(num_ops: usize) -> (SurgePreprocessing<Fp, XORInstruction<WORD_SIZE>, C, M>, usize, Proof) {
    let preprocessing = SurgePreprocessing::preprocess();
    let generators: usize = M;
    let (proof, debug_info) = Proof::prove(&preprocessing, &generators, random_ops(num_ops));
    assert!(debug_info.is_none());
    (preprocessing, generators, proof)
}

#[test]
fn surge_32_e2e() {
    const NUM_OPS: usize = 1024;
    let ops = random_ops(NUM_OPS);
    let preprocessing = SurgePreprocessing::preprocess();
    let generators: usize = M;
    let (proof, debug_info) = Proof::prove(&preprocessing, &generators, ops);
    Proof::verify(&preprocessing, &generators, proof, debug_info).expect("should work");
}

#[test]
fn surge_32_e2e_non_pow_2() {
    const NUM_OPS: usize = 1000;
    let ops = random_ops(NUM_OPS);
    let preprocessing = SurgePreprocessing::preprocess();
    let generators: usize = M;
    let (proof, debug_info) = Proof::prove(&preprocessing, &generators, ops);
    assert_eq!(proof.primary_sumcheck.num_rounds, 10);
    assert_eq!(proof.commitments.dim[0].0.len(), 1024);
    Proof::verify(&preprocessing, &generators, proof, debug_info).expect("should work");
}

#[test]
fn no_operations_give_a_proof_over_one_padded_row() {
    let (preprocessing, generators, proof) = prove(0);
    assert_eq!(proof.primary_sumcheck.num_rounds, 0);
    assert_eq!(proof.commitments.dim.len(), C);
    assert_eq!(proof.commitments.dim[0].0, vec![Fp::zero()]);
    assert_eq!(proof.commitments.read_cts[0].0, vec![Fp::zero()]);
    // the padded row has read address 0 once
    assert_eq!(proof.commitments.final_cts[0].0[0], Fp::one());
    assert_eq!(proof.commitments.final_cts[0].0[1], Fp::zero());
    assert_eq!(Proof::verify(&preprocessing, &generators, proof, None), Ok(()));
}

#[test]
fn one_operation_is_a_full_hypercube() {
    let (preprocessing, generators, proof) = prove(1);
    assert_eq!(proof.primary_sumcheck.num_rounds, 0);
    assert_eq!(Proof::verify(&preprocessing, &generators, proof, None), Ok(()));
}

#[test]
fn corrupted_read_counter_is_rejected() {
    let (preprocessing, generators, mut proof) = prove(100);
    let entry = proof.commitments.read_cts[1].0[17];
    proof.commitments.read_cts[1].0[17] = entry.add(&Fp::one());
    assert!(Proof::verify(&preprocessing, &generators, proof, None).is_err());
}

#[test]
fn corrupted_final_counter_is_rejected() {
    let (preprocessing, generators, mut proof) = prove(100);
    let entry = proof.commitments.final_cts[0].0[0];
    proof.commitments.final_cts[0].0[0] = entry.add(&Fp::one());
    assert!(Proof::verify(&preprocessing, &generators, proof, None).is_err());
}

#[test]
fn changed_claim_is_rejected_by_the_sumcheck() {
    let (preprocessing, generators, mut proof) = prove(64);
    proof.primary_sumcheck.claimed_evaluation =
        proof.primary_sumcheck.claimed_evaluation.add(&Fp::one());
    assert_eq!(
        Proof::verify(&preprocessing, &generators, proof, None),
        Err(ProofVerifyError::SumcheckRoundMismatch(0))
    );
}

#[test]
fn changed_opening_is_a_claim_mismatch() {
    let (preprocessing, generators, mut proof) = prove(64);
    proof.primary_sumcheck.E_poly_openings[2] =
        proof.primary_sumcheck.E_poly_openings[2].add(&Fp::one());
    assert_eq!(
        Proof::verify(&preprocessing, &generators, proof, None),
        Err(ProofVerifyError::ClaimMismatch)
    );
}

#[test]
fn changed_round_polynomial_is_rejected() {
    let (preprocessing, generators, mut proof) = prove(64);
    let value = proof.primary_sumcheck.sumcheck_proof.0[3][2];
    proof.primary_sumcheck.sumcheck_proof.0[3][2] = value.add(&Fp::one());
    assert!(Proof::verify(&preprocessing, &generators, proof, None).is_err());
}

#[test]
fn changed_number_of_rounds_is_rejected() {
    let (preprocessing, generators, mut proof) = prove(64);
    proof.primary_sumcheck.num_rounds += 1;
    assert_eq!(
        Proof::verify(&preprocessing, &generators, proof, None),
        Err(ProofVerifyError::InvalidInputLength(7, 6))
    );
}

#[test]
fn missing_opening_is_an_invalid_length() {
    let (preprocessing, generators, mut proof) = prove(8);
    proof.primary_sumcheck.E_poly_openings.pop();
    assert_eq!(
        Proof::verify(&preprocessing, &generators, proof, None),
        Err(ProofVerifyError::InvalidInputLength(4, 3))
    );
}

#[test]
fn missing_commitment_is_an_invalid_length() {
    let (preprocessing, generators, mut proof) = prove(8);
    proof.commitments.final_cts.pop();
    assert_eq!(
        Proof::verify(&preprocessing, &generators, proof, None),
        Err(ProofVerifyError::InvalidInputLength(4, 3))
    );
}

#[test]
fn changed_grand_product_is_a_multiset_mismatch() {
    let (preprocessing, generators, mut proof) = prove(8);
    proof.memory_checking.read_write_products[0] =
        proof.memory_checking.read_write_products[0].add(&Fp::one());
    assert_eq!(
        Proof::verify(&preprocessing, &generators, proof, None),
        Err(ProofVerifyError::MultisetMismatch)
    );
}

#[test]
fn num_generators_covers_rows_and_leaves() {
    // leaves: 4 memories of 2^16 entries
    assert_eq!(Proof::num_generators(1024), 1 << 18);
    assert_eq!(Proof::num_generators(1 << 20), 1 << 20);
    assert_eq!(Proof::num_generators((1 << 18) + 1), 1 << 19);
}

#[test]
fn verifier_replays_the_transcript_of_the_prover() {
    let (preprocessing, generators, proof) = prove(37);
    let claim = format!("scalar {}", proof.primary_sumcheck.claimed_evaluation.to_u64());
    assert_eq!(Proof::verify(&preprocessing, &generators, proof, None), Ok(()));
    let finished = FINISHED.lock().unwrap();
    let logs: Vec<&Vec<String>> =
        finished.iter().filter(|log| log.len() > 3 && log[3] == claim).collect();
    assert_eq!(logs.len(), 2);
    assert_eq!(logs[0], logs[1]);
    // label, protocol name, challenge of six rounds, claim
    assert_eq!(logs[0][0], format!("message {:?}", b"Surge transcript"));
    assert_eq!(logs[0][1], format!("message {:?}", b"Surge"));
    assert!(logs[0][2].starts_with("challenge ["));
    assert_eq!(logs[0][2].matches(',').count(), 5);
    // six rounds of three values and one challenge, then the opening of four claims
    assert!(logs[0].len() > 4 + 6 * 4 + 4);
}

#[test]
fn other_challenges_are_rejected() {
    let (preprocessing, generators, proof) = prove(64);
    let skewed: SurgeProof<
        Fp,
        Transparent,
        XORInstruction<WORD_SIZE>,
        C,
        M,
        SkewedTranscript,
        RoundPolynomials,
        GrandProducts,
    > = SurgeProof {
        _instruction: proof._instruction,
        commitments: proof.commitments,
        primary_sumcheck: surge::protocol::SurgePrimarySumcheck {
            sumcheck_proof: proof.primary_sumcheck.sumcheck_proof,
            num_rounds: proof.primary_sumcheck.num_rounds,
            claimed_evaluation: proof.primary_sumcheck.claimed_evaluation,
            E_poly_openings: proof.primary_sumcheck.E_poly_openings,
            _marker: std::marker::PhantomData,
        },
        memory_checking: proof.memory_checking,
    };
    assert!(SurgeProof::verify(&preprocessing, &generators, skewed, None).is_err());
}

#[test]
fn round_polynomial_of_another_degree_is_rejected() {
    let (preprocessing, generators, mut proof) = prove(64);
    proof.primary_sumcheck.sumcheck_proof.0[0].push(Fp::zero());
    assert_eq!(
        Proof::verify(&preprocessing, &generators, proof, None),
        Err(ProofVerifyError::DegreeBoundExceeded(2, 3))
    );
}

#[test]
fn commitment_to_what_is_no_address_is_rejected() {
    let (preprocessing, generators, mut proof) = prove(64);
    proof.commitments.dim[0].0[5] = Fp::new(1 << 20);
    assert_eq!(
        Proof::verify(&preprocessing, &generators, proof, None),
        Err(ProofVerifyError::InvalidOpeningProof)
    );
}

#[test]
fn changed_opening_of_the_trace_is_rejected() {
    let (preprocessing, generators, mut proof) = prove(64);
    proof.memory_checking.openings.read_cts[2] =
        proof.memory_checking.openings.read_cts[2].add(&Fp::one());
    assert_eq!(
        Proof::verify(&preprocessing, &generators, proof, None),
        Err(ProofVerifyError::InternalError)
    );
}

#[test]
fn error_of_the_sumcheck_comes_before_a_wrong_length() {
    let (preprocessing, generators, mut proof) = prove(64);
    proof.primary_sumcheck.E_poly_openings.pop();
    proof.commitments.final_cts.pop();
    proof.primary_sumcheck.claimed_evaluation =
        proof.primary_sumcheck.claimed_evaluation.add(&Fp::one());
    assert_eq!(
        Proof::verify(&preprocessing, &generators, proof, None),
        Err(ProofVerifyError::SumcheckRoundMismatch(0))
    );
}

#[test]
fn proof_has_one_round_for_each_variable_of_the_padded_rows() {
    for (num_ops, rounds) in [(0usize, 0usize), (1, 0), (2, 1), (3, 2), (1000, 10), (1024, 10)] {
        let (_, _, proof) = prove(num_ops);
        assert_eq!(proof.primary_sumcheck.num_rounds, rounds);
        assert_eq!(proof.commitments.dim[0].0.len(), 1 << rounds);
    }
}
