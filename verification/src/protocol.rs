//! The Surge proof: what a prover assembles and what a verifier checks, and
//! the order in which both speak to the transcript.

use vstd::prelude::*;
use vstd::arithmetic::power2::{lemma2_to64, pow2};
use vstd::string::StringSliceAdditionalSpecFns;
use std::marker::PhantomData;
use crate::commitment::{
    opening_has_witness, opening_is_honest, openings_are_honest, CommitmentScheme, NotedOpening,
};
use crate::eq_poly::{
    eq_evals, eq_evaluate, lemma_eq_evals_reduced, spec_eq_evals, spec_eq_evaluate,
};
use crate::errors::ProofVerifyError;
use crate::field::{field_mul, JoltField};
use crate::instruction::JoltInstruction;
use crate::leaves::{
    lemma_witness_is_trace, lemma_witness_multiset_identity, spec_memory_final_leaves,
    spec_memory_init_leaves, spec_memory_read_leaves, spec_memory_write_leaves, spec_rows,
};
use crate::mle::{lemma_eq_table_extends, spec_mle_evaluate};
use crate::math::{
    lemma_ceil_log2_pow2, lemma_next_power_of_two_least, log_2, next_power_of_two, spec_ceil_log2,
    spec_next_power_of_two,
};
use crate::memory::{num_memories, spec_num_memories};
use crate::poly::{field_scalars, MultilinearPolynomial};
use crate::preprocessing::SurgePreprocessing;
use crate::stuff::{referents, SurgeStuff};
use crate::subprotocols::{
    commits_to_trace, memory_checking_is_complete, sumcheck_is_complete, trace_is_consistent,
    MemoryCheckingProof, SumcheckInstanceProof,
};
use crate::sumcheck::{
    compute_primary_sumcheck_claim, lemma_claim_is_hypercube_sum, poly_coeffs,
    spec_combine_lookups_eq, spec_primary_sumcheck_claim,
};
use crate::transcript::{Transcript, TranscriptEvent};
use crate::witness::{
    generate_witness, is_witness, spec_access_sequences, valid_access_sequences, SurgePolynomials,
    MAX_ROWS, MAX_SUBTABLE_SIZE,
};

verus! {

/// The commitments to the slots of an instance.
pub type SurgeCommitments<F, PCS, ProofTranscript> = SurgeStuff<
    <PCS as CommitmentScheme<F, ProofTranscript>>::Commitment,
>;

/// The record of the primary sumcheck: the claim that the collated values
/// sum to `claimed_evaluation`, its proof, and the openings of the value
/// polynomials at the point where the rounds end.
#[allow(non_snake_case)]
pub struct SurgePrimarySumcheck<F, ProofTranscript, Sumcheck> where
    F: JoltField,
    ProofTranscript: Transcript<F>,
 {
    pub sumcheck_proof: Sumcheck,
    pub num_rounds: usize,
    pub claimed_evaluation: F,
    pub E_poly_openings: Vec<F>,
    pub _marker: PhantomData<ProofTranscript>,
}

/// A proof that a batch of lookups was performed correctly.
pub struct SurgeProof<
    F,
    PCS,
    Instruction,
    const C: usize,
    const M: usize,
    ProofTranscript,
    Sumcheck,
    MemoryChecking,
> where
    F: JoltField,
    ProofTranscript: Transcript<F>,
    PCS: CommitmentScheme<F, ProofTranscript>,
    Instruction: JoltInstruction,
    Sumcheck: SumcheckInstanceProof<F, ProofTranscript, Instruction>,
    MemoryChecking: MemoryCheckingProof<F, ProofTranscript, PCS, Instruction, C, M>,
 {
    pub _instruction: PhantomData<Instruction>,
    /// Commitments to all polynomials of the witness.
    pub commitments: SurgeCommitments<F, PCS, ProofTranscript>,
    /// The record of the primary sumcheck.
    pub primary_sumcheck: SurgePrimarySumcheck<F, ProofTranscript, Sumcheck>,
    /// The proof that the memories were read consistently.
    pub memory_checking: MemoryChecking,
}

/// What a prover can hand to a verifier for cross-checking during
/// development: its transcript and its opening accumulator.
pub struct ProverDebugInfo<F, PCS, ProofTranscript> where
    F: JoltField,
    ProofTranscript: Transcript<F>,
    PCS: CommitmentScheme<F, ProofTranscript>,
 {
    pub transcript: ProofTranscript,
    pub opening_accumulator: PCS::ProverAccumulator,
    pub _field: PhantomData<F>,
}

/// The label that a transcript of the argument starts from.
pub open spec fn spec_transcript_label() -> Seq<u8> {
    "Surge transcript".spec_bytes()
}

/// The name that separates the argument from others on a transcript.
pub open spec fn spec_protocol_name() -> Seq<u8> {
    "Surge".spec_bytes()
}

/// The name that separates the memory-checking argument of Surge from
/// others on a transcript.
pub open spec fn spec_memory_checking_protocol_name() -> Seq<u8> {
    "SurgeMemCheck".spec_bytes()
}

/// The log of the transcript of prover and verifier when they draw the
/// challenge of the primary sumcheck: a fresh transcript that has absorbed
/// the protocol name.
pub open spec fn spec_initial_log() -> Seq<TranscriptEvent> {
    seq![
        TranscriptEvent::Message(spec_transcript_label()),
        TranscriptEvent::Message(spec_protocol_name()),
    ]
}

/// The log of the transcript when the sumcheck begins: the challenge of
/// `num_rounds` entries was drawn, then the claim absorbed.
pub open spec fn spec_sumcheck_log(num_rounds: nat, claim: nat) -> Seq<TranscriptEvent> {
    spec_initial_log().push(TranscriptEvent::Challenge(num_rounds)).push(
        TranscriptEvent::Scalar(claim),
    )
}

/// The name that separates the argument from others on a transcript.
pub fn protocol_name() -> (name: &'static [u8])
    ensures
        name@ == spec_protocol_name(),
{
    "Surge".as_bytes()
}

/// The name that separates the memory-checking argument of Surge from
/// others on a transcript.
pub fn memory_checking_protocol_name() -> (name: &'static [u8])
    ensures
        name@ == spec_memory_checking_protocol_name(),
{
    "SurgeMemCheck".as_bytes()
}

/// What the last check of the primary sumcheck decides: the final claim of
/// the rounds must be the collation of the opened values, weighted by the
/// equality polynomial of the challenge `r` at the point `r_z` where the
/// rounds end.
pub open spec fn spec_check_primary_sumcheck<I: JoltInstruction>(
    r: Seq<nat>,
    r_z: Seq<nat>,
    openings: Seq<nat>,
    claim_last: nat,
    c: nat,
    m: nat,
    p: nat,
) -> Result<(), ProofVerifyError> {
    if r_z.len() != r.len() {
        Err(ProofVerifyError::InvalidInputLength(r.len() as usize, r_z.len() as usize))
    } else if field_mul(spec_eq_evaluate(r, r_z, p), I::spec_combine_lookups(openings, c, m, p), p)
        == claim_last {
        Ok(())
    } else {
        Err(ProofVerifyError::ClaimMismatch)
    }
}

/// Holds the final claim of the rounds of the primary sumcheck against the
/// opened values.
pub fn check_primary_sumcheck<F: JoltField, I: JoltInstruction>(
    r: &[F],
    r_z: &[F],
    openings: &[F],
    claim_last: &F,
    c: usize,
    m: usize,
) -> (res: Result<(), ProofVerifyError>)
    requires
        openings@.len() == spec_num_memories::<I>(c as nat, m as nat),
    ensures
        res == spec_check_primary_sumcheck::<I>(
            field_scalars(r@),
            field_scalars(r_z@),
            field_scalars(openings@),
            claim_last.value(),
            c as nat,
            m as nat,
            F::modulus(),
        ),
{
    if r_z.len() != r.len() {
        return Err(ProofVerifyError::InvalidInputLength(r.len(), r_z.len()));
    }
    let eq_eval = eq_evaluate(r, r_z);
    let expected = eq_eval.mul(&I::combine_lookups::<F>(openings, c, m));
    if expected.equals(claim_last) {
        Ok(())
    } else {
        Err(ProofVerifyError::ClaimMismatch)
    }
}

/// Whether the machine can hold an instance of the family `I` with `C`
/// dimensions and subtables of `M` entries: there is a dimension, the
/// addresses of a subtable fit 16 bits, and the number of groups of leaves
/// and the degree bound of the primary sumcheck fit a machine word.
pub open spec fn spec_instance_is_supported<I: JoltInstruction, const C: usize, const M: usize>() -> bool {
    &&& C >= 1
    &&& 1 <= M <= MAX_SUBTABLE_SIZE
    &&& 2 * spec_num_memories::<I>(C as nat, M as nat) + 1 <= usize::MAX
    &&& I::spec_g_poly_degree(C as nat) < usize::MAX
}

/// Tests whether the machine can hold the instance: what proving and
/// verifying require of it.
pub fn instance_is_supported<I: JoltInstruction, const C: usize, const M: usize>() -> (supported:
    bool)
    ensures
        supported == spec_instance_is_supported::<I, C, M>(),
{
    if C < 1 || M < 1 || M > MAX_SUBTABLE_SIZE {
        return false;
    }
    let subtables = I::num_subtables(C, M);
    let groups = match C.checked_mul(subtables) {
        Some(memories) => memories.checked_mul(2),
        None => None,
    };
    match groups {
        Some(groups) => groups < usize::MAX && I::g_poly_degree(C) < usize::MAX,
        None => {
            assert(2 * (C * subtables) > usize::MAX) by (nonlinear_arith)
                requires
                    C * subtables > usize::MAX || 2 * (C * subtables) > usize::MAX,
            ;
            false
        },
    }
}

/// The sequence without its last entry; an empty sequence stays empty.
pub open spec fn spec_without_last(s: Seq<nat>) -> Seq<nat> {
    if s.len() > 0 {
        s.drop_last()
    } else {
        s
    }
}

impl<
    F,
    PCS,
    Instruction,
    const C: usize,
    const M: usize,
    ProofTranscript,
    Sumcheck,
    MemoryChecking,
> SurgeProof<F, PCS, Instruction, C, M, ProofTranscript, Sumcheck, MemoryChecking> where
    F: JoltField,
    ProofTranscript: Transcript<F>,
    PCS: CommitmentScheme<F, ProofTranscript>,
    Instruction: JoltInstruction,
    Sumcheck: SumcheckInstanceProof<F, ProofTranscript, Instruction>,
    MemoryChecking: MemoryCheckingProof<F, ProofTranscript, PCS, Instruction, C, M>,
 {
    /// The number of generators that committing takes: enough for the
    /// longest polynomial, be it a trace of `max_num_lookups` rows or the
    /// leaves of all memories.
    pub open spec fn spec_num_generators(max_num_lookups: nat) -> nat {
        let rows = spec_next_power_of_two(max_num_lookups);
        let leaves = spec_next_power_of_two(
            M as nat * spec_num_memories::<Instruction>(C as nat, M as nat),
        );
        if rows >= leaves {
            rows
        } else {
            leaves
        }
    }

    /// The number of generators that committing takes for at most
    /// `max_num_lookups` lookups.
    pub fn num_generators(max_num_lookups: usize) -> (n: usize)
        requires
            max_num_lookups <= usize::MAX / 2 + 1,
            spec_num_memories::<Instruction>(C as nat, M as nat) <= usize::MAX,
            M as nat * spec_num_memories::<Instruction>(C as nat, M as nat) <= usize::MAX / 2 + 1,
        ensures
            n == Self::spec_num_generators(max_num_lookups as nat),
    {
        let rows = next_power_of_two(max_num_lookups);
        let memories = num_memories::<Instruction>(C, M);
        let leaves = next_power_of_two(M * memories);
        if rows >= leaves {
            rows
        } else {
            leaves
        }
    }

    /// The number of rounds of the primary sumcheck for a trace of `rows`
    /// rows.
    pub open spec fn spec_num_rounds(rows: nat) -> nat {
        spec_ceil_log2(rows)
    }

    /// The challenge of the primary sumcheck.
    pub open spec fn spec_primary_challenge(num_rounds: nat) -> Seq<nat> {
        ProofTranscript::spec_challenges(spec_initial_log(), num_rounds)
    }

    /// The claim of the primary sumcheck for the witness `w`.
    pub open spec fn spec_claim(w: SurgePolynomials<F>) -> nat {
        let rows = spec_rows(w);
        let r = Self::spec_primary_challenge(Self::spec_num_rounds(rows));
        spec_primary_sumcheck_claim::<F, Instruction>(
            w,
            spec_eq_evals(r, F::modulus()),
            rows as int,
            C as nat,
            M as nat,
        )
    }

    /// The evaluations of the polynomials that the primary sumcheck runs
    /// on: the value polynomials of `w`, then the equality polynomial of
    /// the challenge.
    pub open spec fn spec_sumcheck_polys(w: SurgePolynomials<F>) -> Seq<Seq<nat>> {
        let r = Self::spec_primary_challenge(Self::spec_num_rounds(spec_rows(w)));
        poly_coeffs(w.E_polys@).push(spec_eq_evals(r, F::modulus()))
    }

    /// The degree bound of the primary sumcheck: that of the collation, and
    /// one for the equality polynomial.
    pub open spec fn spec_degree() -> nat {
        Instruction::spec_g_poly_degree(C as nat) + 1
    }

    /// Whether `proof` is the proof that the prover builds from the witness
    /// `w` under the key `setup`.
    ///
    /// The commitments are those to the polynomials of `w`. The claim is the
    /// sum over the rows for the challenge drawn first. The sumcheck is
    /// proved on the transcript that has absorbed the claim, the openings of
    /// the value polynomials are bound to the transcript next, and memory
    /// checking is proved last.
    pub open spec fn is_proof_for(proof: Self, w: SurgePolynomials<F>, setup: &PCS::Setup) -> bool {
        let rounds = Self::spec_num_rounds(spec_rows(w));
        let claim = Self::spec_claim(w);
        let polys = Self::spec_sumcheck_polys(w);
        let degree = Self::spec_degree();
        let log = spec_sumcheck_log(rounds, claim);
        let point = Sumcheck::spec_prove_point(
            claim,
            rounds,
            polys,
            C as nat,
            M as nat,
            degree,
            log,
        );
        let openings = spec_without_last(
            Sumcheck::spec_prove_openings(
                claim,
                rounds,
                polys,
                C as nat,
                M as nat,
                degree,
                log,
            ),
        );
        let log_after_sumcheck = Sumcheck::spec_prove_log(
            claim,
            rounds,
            polys,
            C as nat,
            M as nat,
            degree,
            log,
        );
        &&& commits_to_trace::<F, ProofTranscript, PCS>(proof.commitments, w, setup)
        &&& proof.commitments.a_init_final is None
        &&& proof.commitments.v_init_final is None
        &&& proof.primary_sumcheck.num_rounds == rounds
        &&& proof.primary_sumcheck.claimed_evaluation.value() == claim
        &&& proof.primary_sumcheck.sumcheck_proof.is_proof_of(
            claim,
            rounds,
            polys,
            C as nat,
            M as nat,
            degree,
            log,
        )
        &&& field_scalars(proof.primary_sumcheck.E_poly_openings@) == openings
        &&& proof.memory_checking.is_proof_of(
            setup,
            w,
            PCS::spec_opening_log(point, openings, log_after_sumcheck),
        )
    }

    /// Proves that the lookups `ops` were performed correctly.
    ///
    /// The proof is the one that `is_proof_for` describes, built from the
    /// witness of `ops`; the sumcheck has one round for each variable of
    /// the padded rows. No debug record is handed out. What is required
    /// can be tested with `instance_is_supported` and `lookups_are_valid`.
    pub fn prove(
        preprocessing: &SurgePreprocessing<F, Instruction, C, M>,
        generators: &PCS::Setup,
        ops: Vec<Instruction>,
    ) -> (out: (Self, Option<ProverDebugInfo<F, PCS, ProofTranscript>>))
        requires
            spec_instance_is_supported::<Instruction, C, M>(),
            ops@.len() <= MAX_ROWS,
            valid_access_sequences(
                spec_access_sequences(ops@, C as nat, spec_ceil_log2(M as nat)),
                C as nat,
                M as nat,
            ),
        ensures
            out.1 is None,
            out.0.primary_sumcheck.num_rounds == spec_ceil_log2(
                spec_next_power_of_two(ops@.len()),
            ),
            pow2(out.0.primary_sumcheck.num_rounds as nat) == spec_next_power_of_two(ops@.len()),
            exists|w: SurgePolynomials<F>| #[trigger]
                is_witness(w, ops@, C as nat, M as nat) && Self::is_proof_for(out.0, w, generators),
    {
        let mut transcript = ProofTranscript::new("Surge transcript".as_bytes());
        let mut opening_accumulator = PCS::new_prover_accumulator();
        transcript.append_message(protocol_name());
        assert(transcript.log() =~= spec_initial_log());

        proof {
            lemma2_to64();
            lemma_next_power_of_two_least(ops@.len(), 31);
        }
        let num_lookups = next_power_of_two(ops.len());
        let polynomials = generate_witness(preprocessing, ops.as_slice());
        proof {
            lemma_witness_is_trace::<F, Instruction>(polynomials, ops@, C as nat, M as nat);
            F::lemma_modulus_bound();
        }
        let memories = num_memories::<Instruction>(C, M);

        let mut commitments: SurgeCommitments<F, PCS, ProofTranscript> = SurgeStuff::initialize(
            preprocessing,
        );
        let trace_polys = polynomials.read_write_values();
        let trace_commitments = PCS::batch_commit(&trace_polys, generators);
        proof {
            assert(referents(trace_polys@).len() == trace_polys@.len());
            assert(polynomials.spec_read_write_values().len() == C + C + memories);
            assert(commitments.spec_read_write_values().len() == C + C + memories);
        }
        commitments.set_read_write_values(trace_commitments);
        let final_polys = polynomials.init_final_values();
        let final_commitments = PCS::batch_commit(&final_polys, generators);
        proof {
            assert(referents(final_polys@).len() == final_polys@.len());
        }
        commitments.set_init_final_values(final_commitments);

        let num_rounds = log_2(num_lookups);
        proof {
            lemma_ceil_log2_pow2(spec_ceil_log2(ops@.len()));
        }

        // Primary sumcheck
        let r_primary_sumcheck: Vec<F> = transcript.challenge_vector(num_rounds);
        let eq_table = eq_evals(r_primary_sumcheck.as_slice());
        let ghost r = field_scalars(r_primary_sumcheck@);
        let eq = MultilinearPolynomial::LargeScalars(eq_table);
        proof {
            lemma_eq_evals_reduced(r, F::modulus());
            assert(eq.scalars() == spec_eq_evals(r, F::modulus()));
            assert(eq.coeffs() == spec_eq_evals(r, F::modulus()));
        }
        let sumcheck_claim = compute_primary_sumcheck_claim::<F, Instruction>(
            &polynomials,
            &eq,
            C,
            M,
        );
        transcript.append_scalar(&sumcheck_claim);
        assert(transcript.log() =~= spec_sumcheck_log(num_rounds as nat, sumcheck_claim.value()));

        let mut combined_sumcheck_polys: Vec<MultilinearPolynomial<F>> = Vec::new();
        let mut k: usize = 0;
        while k < polynomials.E_polys.len()
            invariant
                k <= polynomials.E_polys@.len(),
                combined_sumcheck_polys@.len() == k,
                forall|j: int|
                    0 <= j < k ==> (#[trigger] combined_sumcheck_polys@[j]).scalars()
                        == polynomials.E_polys@[j].scalars(),
            decreases polynomials.E_polys@.len() - k,
        {
            combined_sumcheck_polys.push(polynomials.E_polys[k].duplicate());
            k += 1;
        }
        combined_sumcheck_polys.push(eq);
        proof {
            assert(poly_coeffs(combined_sumcheck_polys@) =~= Self::spec_sumcheck_polys(
                polynomials,
            ));
        }
        let degree = Instruction::g_poly_degree(C) + 1;
        let (primary_sumcheck_proof, r_z, mut sumcheck_openings) =
            Sumcheck::prove_arbitrary(
            &sumcheck_claim,
            num_rounds,
            combined_sumcheck_polys,
            C,
            M,
            degree,
            &mut transcript,
        );

        // The last opening is that of the equality polynomial, which the
        // verifier computes by itself.
        let ghost all_openings = field_scalars(sumcheck_openings@);
        let _ = sumcheck_openings.pop();
        assert(field_scalars(sumcheck_openings@) =~= spec_without_last(all_openings));
        let value_polys = crate::stuff::references(&polynomials.E_polys);
        PCS::prover_append(
            &mut opening_accumulator,
            &value_polys,
            &r_z,
            &sumcheck_openings,
            &mut transcript,
        );

        let primary_sumcheck = SurgePrimarySumcheck {
            claimed_evaluation: sumcheck_claim,
            sumcheck_proof: primary_sumcheck_proof,
            num_rounds,
            E_poly_openings: sumcheck_openings,
            _marker: PhantomData,
        };

        let memory_checking = MemoryChecking::prove_memory_checking(
            generators,
            preprocessing,
            &polynomials,
            &mut opening_accumulator,
            &mut transcript,
        );

        let proof = SurgeProof {
            _instruction: PhantomData,
            commitments,
            primary_sumcheck,
            memory_checking,
        };
        proof {
            assert(is_witness(polynomials, ops@, C as nat, M as nat));
            assert(Self::is_proof_for(proof, polynomials, generators));
        }
        (proof, None)
    }

    /// What the lengths of the parts of `proof` decide: there must be one
    /// opening for each memory, and the commitments must have the shape of
    /// the instance.
    pub open spec fn spec_check_shape(proof: Self) -> Result<(), ProofVerifyError> {
        let memories = spec_num_memories::<Instruction>(C as nat, M as nat);
        let openings = proof.primary_sumcheck.E_poly_openings@.len();
        let commitments = proof.commitments;
        if openings != memories {
            Err(ProofVerifyError::InvalidInputLength(memories as usize, openings as usize))
        } else if commitments.dim@.len() != C {
            Err(ProofVerifyError::InvalidInputLength(C, commitments.dim@.len() as usize))
        } else if commitments.read_cts@.len() != C {
            Err(ProofVerifyError::InvalidInputLength(C, commitments.read_cts@.len() as usize))
        } else if commitments.final_cts@.len() != C {
            Err(ProofVerifyError::InvalidInputLength(C, commitments.final_cts@.len() as usize))
        } else if commitments.E_polys@.len() != memories {
            Err(
                ProofVerifyError::InvalidInputLength(
                    memories as usize,
                    commitments.E_polys@.len() as usize,
                ),
            )
        } else {
            Ok(())
        }
    }

    /// What the verifier decides about `proof` under the key `setup`.
    ///
    /// The verifier draws the challenge of the primary sumcheck from a fresh
    /// transcript that has absorbed the protocol name, absorbs the claim,
    /// and has the rounds of the sumcheck checked; an error of the sumcheck
    /// is handed on as it is. A proof of the wrong shape is rejected next.
    /// The claim that the rounds leave must be the collation of the opened
    /// values, weighted by the equality polynomial. The openings are bound
    /// to the transcript, and memory checking decides last. The first stage
    /// that fails gives the error.
    pub open spec fn spec_verify(proof: Self, setup: &PCS::Setup) -> Result<(), ProofVerifyError> {
        let rounds = proof.primary_sumcheck.num_rounds as nat;
        let claim = proof.primary_sumcheck.claimed_evaluation.value();
        let openings = field_scalars(proof.primary_sumcheck.E_poly_openings@);
        let degree = Self::spec_degree();
        let log = spec_sumcheck_log(rounds, claim);
        match proof.primary_sumcheck.sumcheck_proof.spec_verify(
            claim,
            rounds,
            degree,
            C as nat,
            M as nat,
            log,
        ) {
            Err(e) => Err(e),
            Ok((claim_last, r_z)) => match Self::spec_check_shape(proof) {
                Err(e) => Err(e),
                Ok(_) => match spec_check_primary_sumcheck::<Instruction>(
                    Self::spec_primary_challenge(rounds),
                    r_z,
                    openings,
                    claim_last,
                    C as nat,
                    M as nat,
                    F::modulus(),
                ) {
                    Err(e) => Err(e),
                    Ok(_) => proof.memory_checking.spec_verify(
                        setup,
                        proof.commitments,
                        seq![
                            (NotedOpening {
                                commitments: proof.commitments.E_polys@,
                                point: r_z,
                                claims: openings,
                            }),
                        ],
                        PCS::spec_opening_log(
                            r_z,
                            openings,
                            proof.primary_sumcheck.sumcheck_proof.spec_verify_log(
                                claim,
                                rounds,
                                degree,
                                C as nat,
                                M as nat,
                                log,
                            ),
                        ),
                    ),
                },
            },
        }
    }

    /// Checks the lengths of the parts of `proof`.
    fn check_shape(proof: &Self) -> (res: Result<(), ProofVerifyError>)
        requires
            spec_num_memories::<Instruction>(C as nat, M as nat) <= usize::MAX,
        ensures
            res == Self::spec_check_shape(*proof),
    {
        let memories = num_memories::<Instruction>(C, M);
        if proof.primary_sumcheck.E_poly_openings.len() != memories {
            return Err(
                ProofVerifyError::InvalidInputLength(
                    memories,
                    proof.primary_sumcheck.E_poly_openings.len(),
                ),
            );
        }
        if proof.commitments.dim.len() != C {
            return Err(ProofVerifyError::InvalidInputLength(C, proof.commitments.dim.len()));
        }
        if proof.commitments.read_cts.len() != C {
            return Err(ProofVerifyError::InvalidInputLength(C, proof.commitments.read_cts.len()));
        }
        if proof.commitments.final_cts.len() != C {
            return Err(ProofVerifyError::InvalidInputLength(C, proof.commitments.final_cts.len()));
        }
        if proof.commitments.E_polys.len() != memories {
            return Err(
                ProofVerifyError::InvalidInputLength(memories, proof.commitments.E_polys.len()),
            );
        }
        Ok(())
    }

    /// Verifies `proof`. The debug record plays no part in the decision.
    ///
    /// The verifier speaks to the transcript in the order in which the
    /// prover did: protocol name, challenge of the primary sumcheck, claim,
    /// the rounds of the sumcheck, the openings, memory checking. An error
    /// of the sumcheck comes back as it is; the lengths of the parts of the
    /// proof are tested once the sumcheck has passed.
    pub fn verify(
        preprocessing: &SurgePreprocessing<F, Instruction, C, M>,
        generators: &PCS::Setup,
        proof: Self,
        _debug_info: Option<ProverDebugInfo<F, PCS, ProofTranscript>>,
    ) -> (res: Result<(), ProofVerifyError>)
        requires
            spec_instance_is_supported::<Instruction, C, M>(),
        ensures
            res == Self::spec_verify(proof, generators),
    {
        let mut transcript = ProofTranscript::new("Surge transcript".as_bytes());
        let mut opening_accumulator = PCS::new_verifier_accumulator();
        transcript.append_message(protocol_name());
        assert(transcript.log() =~= spec_initial_log());

        let r_primary_sumcheck: Vec<F> = transcript.challenge_vector(
            proof.primary_sumcheck.num_rounds,
        );
        transcript.append_scalar(&proof.primary_sumcheck.claimed_evaluation);
        assert(transcript.log() =~= spec_sumcheck_log(
            proof.primary_sumcheck.num_rounds as nat,
            proof.primary_sumcheck.claimed_evaluation.value(),
        ));
        let primary_sumcheck_poly_degree = Instruction::g_poly_degree(C) + 1;
        let (claim_last, r_z) = match proof.primary_sumcheck.sumcheck_proof.verify(
            proof.primary_sumcheck.claimed_evaluation,
            proof.primary_sumcheck.num_rounds,
            primary_sumcheck_poly_degree,
            C,
            M,
            &mut transcript,
        ) {
            Ok(left) => left,
            Err(e) => {
                return Err(e);
            },
        };

        match Self::check_shape(&proof) {
            Err(e) => {
                return Err(e);
            },
            Ok(_) => {},
        }

        match check_primary_sumcheck::<F, Instruction>(
            r_primary_sumcheck.as_slice(),
            r_z.as_slice(),
            proof.primary_sumcheck.E_poly_openings.as_slice(),
            &claim_last,
            C,
            M,
        ) {
            Err(e) => {
                return Err(e);
            },
            Ok(_) => {},
        }

        let value_commitments = crate::stuff::references(&proof.commitments.E_polys);
        PCS::verifier_append(
            &mut opening_accumulator,
            &value_commitments,
            &r_z,
            &proof.primary_sumcheck.E_poly_openings,
            &mut transcript,
        );

        let SurgeProof { _instruction, commitments, primary_sumcheck, memory_checking } = proof;
        MemoryChecking::verify_memory_checking(
            preprocessing,
            generators,
            memory_checking,
            &commitments,
            &mut opening_accumulator,
            &mut transcript,
        )
    }

    /// The log of the transcript when memory checking begins, for the proof
    /// built from the witness `w`.
    pub open spec fn spec_memory_checking_log(w: SurgePolynomials<F>) -> Seq<TranscriptEvent> {
        let rounds = Self::spec_num_rounds(spec_rows(w));
        let claim = Self::spec_claim(w);
        let polys = Self::spec_sumcheck_polys(w);
        let degree = Self::spec_degree();
        let log = spec_sumcheck_log(rounds, claim);
        PCS::spec_opening_log(
            Sumcheck::spec_prove_point(
                claim,
                rounds,
                polys,
                C as nat,
                M as nat,
                degree,
                log,
            ),
            spec_without_last(
                Sumcheck::spec_prove_openings(
                    claim,
                    rounds,
                    polys,
                    C as nat,
                    M as nat,
                    degree,
                    log,
                ),
            ),
            Sumcheck::spec_prove_log(
                claim,
                rounds,
                polys,
                C as nat,
                M as nat,
                degree,
                log,
            ),
        )
    }

    /// Completeness: the verifier accepts the proof that the prover builds
    /// from the witness of any lookups, few or many, provided the
    /// transcript hands out as many challenges as it is asked for and the
    /// two subprotocols are complete on the instance.
    pub proof fn lemma_prove_then_verify(
        proof: Self,
        ops: Seq<Instruction>,
        w: SurgePolynomials<F>,
        setup: &PCS::Setup,
    )
        requires
            C >= 1,
            M >= 1,
            spec_num_memories::<Instruction>(C as nat, M as nat) <= usize::MAX,
            valid_access_sequences(
                spec_access_sequences(ops, C as nat, spec_ceil_log2(M as nat)),
                C as nat,
                M as nat,
            ),
            is_witness(w, ops, C as nat, M as nat),
            Self::is_proof_for(proof, w, setup),
            Self::spec_primary_challenge(Self::spec_num_rounds(spec_rows(w))).len()
                == Self::spec_num_rounds(spec_rows(w)),
            sumcheck_is_complete::<F, ProofTranscript, Instruction, Sumcheck>(
                Self::spec_claim(w),
                Self::spec_num_rounds(spec_rows(w)),
                Self::spec_sumcheck_polys(w),
                C as nat,
                M as nat,
                Self::spec_degree(),
                spec_sumcheck_log(Self::spec_num_rounds(spec_rows(w)), Self::spec_claim(w)),
            ),
            memory_checking_is_complete::<F, ProofTranscript, PCS, Instruction, C, M, MemoryChecking>(
                setup,
                w,
                Self::spec_memory_checking_log(w),
            ),
        ensures
            Self::spec_verify(proof, setup) == Ok::<(), ProofVerifyError>(()),
    {
        let p = F::modulus();
        let memories = spec_num_memories::<Instruction>(C as nat, M as nat);
        let rows = spec_rows(w);
        let rounds = Self::spec_num_rounds(rows);
        let claim = Self::spec_claim(w);
        let polys = Self::spec_sumcheck_polys(w);
        let degree = Self::spec_degree();
        let log = spec_sumcheck_log(rounds, claim);
        let r = Self::spec_primary_challenge(rounds);
        let eq = spec_eq_evals(r, p);
        let point = Sumcheck::spec_prove_point(
            claim,
            rounds,
            polys,
            C as nat,
            M as nat,
            degree,
            log,
        );
        let all_openings = Sumcheck::spec_prove_openings(
            claim,
            rounds,
            polys,
            C as nat,
            M as nat,
            degree,
            log,
        );
        F::lemma_modulus_bound();
        lemma_witness_is_trace::<F, Instruction>(w, ops, C as nat, M as nat);

        // The claim is the sum of the summand over the hypercube.
        assert(pow2(rounds) == rows) by {
            lemma_ceil_log2_pow2(spec_ceil_log2(ops.len()));
        }
        assert(eq.len() == rows);
        lemma_claim_is_hypercube_sum::<F, Instruction>(w, eq, rows as int, C as nat, M as nat);

        // So the sumcheck is accepted and leaves the summand at the openings.
        let sumcheck_proof = proof.primary_sumcheck.sumcheck_proof;
        assert(sumcheck_proof.is_proof_of(
            claim,
            rounds,
            polys,
            C as nat,
            M as nat,
            degree,
            log,
        ));
        let claim_last = spec_combine_lookups_eq::<Instruction>(
            all_openings,
            C as nat,
            M as nat,
            p,
        );
        assert(sumcheck_proof.spec_verify(claim, rounds, degree, C as nat, M as nat, log) == Ok::<
            (nat, Seq<nat>),
            ProofVerifyError,
        >((claim_last, point)));
        assert(polys.len() == memories + 1);
        let openings = spec_without_last(all_openings);
        assert(openings == all_openings.drop_last());
        assert(field_scalars(proof.primary_sumcheck.E_poly_openings@).len() == memories);
        assert(Self::spec_check_shape(proof) == Ok::<(), ProofVerifyError>(()));

        // The opening of the weights is the equality polynomial at the point.
        assert(all_openings.last() == spec_eq_evaluate(r, point, p)) by {
            assert(polys[memories as int] == eq);
            assert(all_openings[memories as int] == spec_mle_evaluate(
                polys[memories as int],
                point,
                p,
            ));
            lemma_eq_table_extends(r, point, p);
        }
        assert(spec_check_primary_sumcheck::<Instruction>(
            r,
            point,
            openings,
            claim_last,
            C as nat,
            M as nat,
            p,
        ) == Ok::<(), ProofVerifyError>(())) by {
            vstd::arithmetic::mul::lemma_mul_is_commutative(
                spec_eq_evaluate(r, point, p) as int,
                Instruction::spec_combine_lookups(openings, C as nat, M as nat, p) as int,
            );
        }

        // A witness is consistent, so memory checking is accepted.
        assert(trace_is_consistent::<F, Instruction>(w, C as nat, M as nat)) by {
            assert forall|k: int, gamma: nat, tau: nat| 0 <= k < memories implies (
            #[trigger] spec_memory_read_leaves(w, k, C as nat, gamma, tau)).to_multiset().add(
                spec_memory_final_leaves::<F, Instruction>(
                    w,
                    k,
                    C as nat,
                    M as nat,
                    gamma,
                    tau,
                ).to_multiset(),
            ) == spec_memory_write_leaves(w, k, C as nat, gamma, tau).to_multiset().add(
                spec_memory_init_leaves::<Instruction>(
                    k,
                    C as nat,
                    M as nat,
                    gamma,
                    tau,
                    p,
                ).to_multiset(),
            ) by {
                lemma_witness_multiset_identity::<F, Instruction>(
                    w,
                    ops,
                    C as nat,
                    M as nat,
                    k,
                    gamma,
                    tau,
                );
            }
        }
        // The openings that the verifier took note of are honest.
        let opening = NotedOpening {
            commitments: proof.commitments.E_polys@,
            point,
            claims: openings,
        };
        let noted = seq![opening];
        assert(openings_are_honest::<F, ProofTranscript, PCS>(noted, setup)) by {
            let values = w.E_polys@;
            assert forall|k: int| 0 <= k < values.len() implies {
                &&& PCS::commits_to(&opening.commitments[k], #[trigger] values[k], setup)
                &&& values[k].spec_len() == pow2(opening.point.len())
                &&& opening.claims[k] == spec_mle_evaluate(
                    values[k].coeffs(),
                    opening.point,
                    p,
                )
            } by {
                let held = proof.commitments.spec_read_write_values();
                let slot = C + C + k;
                assert(held[slot] == proof.commitments.E_polys@[k]);
                assert(w.spec_read_write_values()[slot] == values[k]);
                assert(PCS::commits_to(&held[slot], w.spec_read_write_values()[slot], setup));
                assert(polys[k] == values[k].coeffs());
                assert(all_openings[k] == spec_mle_evaluate(polys[k], point, p));
                assert(openings[k] == all_openings[k]);
            }
            assert(noted[0] == opening);
            assert(opening.commitments.len() == values.len());
            assert(opening.claims.len() == values.len());
            assert(opening_is_honest::<F, ProofTranscript, PCS>(opening, values, setup));
            assert(opening_has_witness::<F, ProofTranscript, PCS>(noted[0], setup));
        }
        let memory_log = Self::spec_memory_checking_log(w);
        assert(proof.memory_checking.is_proof_of(setup, w, memory_log));
        assert(proof.memory_checking.spec_verify(
            setup,
            proof.commitments,
            noted,
            memory_log,
        ) == Ok::<(), ProofVerifyError>(()));
    }
}

} // verus!
