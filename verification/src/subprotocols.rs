//! The two subprotocols that the argument delegates to: the sumcheck and
//! the memory-checking argument over grand products.

use vstd::prelude::*;
use vstd::arithmetic::power2::pow2;
use crate::commitment::{openings_are_honest, CommitmentScheme, NotedOpening};
use crate::errors::ProofVerifyError;
use crate::field::JoltField;
use crate::instruction::JoltInstruction;
use crate::leaves::is_trace;
use crate::memory::spec_num_memories;
use crate::poly::{field_scalars, MultilinearPolynomial};
use crate::sumcheck::{poly_coeffs, spec_combine_lookups_eq, spec_hypercube_sum};
use crate::mle::spec_mle_evaluate;
use crate::leaves::{spec_memory_final_leaves, spec_memory_init_leaves, spec_memory_read_leaves, spec_memory_write_leaves};
use crate::preprocessing::SurgePreprocessing;
use crate::stuff::SurgeStuff;
use crate::transcript::{Transcript, TranscriptEvent};
use crate::witness::SurgePolynomials;

verus! {

/// What a sumcheck verifier hands back, with field elements as their
/// canonical representatives.
pub open spec fn sumcheck_outcome<F: JoltField>(
    res: Result<(F, Vec<F>), ProofVerifyError>,
) -> Result<(nat, Seq<nat>), ProofVerifyError> {
    match res {
        Ok((claim, point)) => Ok((claim.value(), field_scalars(point@))),
        Err(e) => Err(e),
    }
}

/// The proof of a sumcheck instance whose summand is the collation of an
/// instruction family, weighted by one more polynomial.
///
/// The instance sums, over the hypercube, the polynomial that
/// `combine_lookups_eq` computes from the values of the given polynomials.
/// Prover and verifier are deterministic: what they return and how they
/// leave the transcript are functions of what they are given and of the
/// transcript's log. The ghost functions have defaults, so that an
/// implementation that is not verified need not state them; a verified one
/// defines them.
pub trait SumcheckInstanceProof<F: JoltField, T: Transcript<F>, I: JoltInstruction>: Sized {
    /// Whether this is the proof that the prover gives for the claim
    /// `claim` about the polynomials with the evaluations `polys`.
    open spec fn is_proof_of(
        &self,
        claim: nat,
        num_rounds: nat,
        polys: Seq<Seq<nat>>,
        c: nat,
        m: nat,
        degree: nat,
        log: Seq<TranscriptEvent>,
    ) -> bool {
        true
    }

    /// The point that the prover ends at.
    open spec fn spec_prove_point(
        claim: nat,
        num_rounds: nat,
        polys: Seq<Seq<nat>>,
        c: nat,
        m: nat,
        degree: nat,
        log: Seq<TranscriptEvent>,
    ) -> Seq<nat> {
        Seq::empty()
    }

    /// The openings of the polynomials at the point that the prover ends
    /// at.
    open spec fn spec_prove_openings(
        claim: nat,
        num_rounds: nat,
        polys: Seq<Seq<nat>>,
        c: nat,
        m: nat,
        degree: nat,
        log: Seq<TranscriptEvent>,
    ) -> Seq<nat> {
        Seq::empty()
    }

    /// The log of the transcript when the prover is done.
    open spec fn spec_prove_log(
        claim: nat,
        num_rounds: nat,
        polys: Seq<Seq<nat>>,
        c: nat,
        m: nat,
        degree: nat,
        log: Seq<TranscriptEvent>,
    ) -> Seq<TranscriptEvent> {
        log
    }

    /// What the verifier decides: the final claim and the point it ends at,
    /// or why it rejects.
    open spec fn spec_verify(
        &self,
        claim: nat,
        num_rounds: nat,
        degree_bound: nat,
        c: nat,
        m: nat,
        log: Seq<TranscriptEvent>,
    ) -> Result<(nat, Seq<nat>), ProofVerifyError> {
        Err(ProofVerifyError::InternalError)
    }

    /// The log of the transcript when the verifier is done.
    open spec fn spec_verify_log(
        &self,
        claim: nat,
        num_rounds: nat,
        degree_bound: nat,
        c: nat,
        m: nat,
        log: Seq<TranscriptEvent>,
    ) -> Seq<TranscriptEvent> {
        log
    }

    /// Proves that the summand sums to `claim` over the hypercube of
    /// `num_rounds` variables. Returns the proof, the point the rounds end
    /// at and the opening of each polynomial there.
    fn prove_arbitrary(
        claim: &F,
        num_rounds: usize,
        polys: Vec<MultilinearPolynomial<F>>,
        c: usize,
        m: usize,
        degree: usize,
        transcript: &mut T,
    ) -> (out: (Self, Vec<F>, Vec<F>))
        requires
            polys@.len() == spec_num_memories::<I>(c as nat, m as nat) + 1,
            forall|k: int|
                0 <= k < polys@.len() ==> (#[trigger] polys@[k]).spec_len() == pow2(
                    num_rounds as nat,
                ),
        ensures
            out.0.is_proof_of(
                claim.value(),
                num_rounds as nat,
                poly_coeffs(polys@),
                c as nat,
                m as nat,
                degree as nat,
                old(transcript).log(),
            ),
            field_scalars(out.1@) == Self::spec_prove_point(
                claim.value(),
                num_rounds as nat,
                poly_coeffs(polys@),
                c as nat,
                m as nat,
                degree as nat,
                old(transcript).log(),
            ),
            field_scalars(out.2@) == Self::spec_prove_openings(
                claim.value(),
                num_rounds as nat,
                poly_coeffs(polys@),
                c as nat,
                m as nat,
                degree as nat,
                old(transcript).log(),
            ),
            final(transcript).log() == Self::spec_prove_log(
                claim.value(),
                num_rounds as nat,
                poly_coeffs(polys@),
                c as nat,
                m as nat,
                degree as nat,
                old(transcript).log(),
            ),
    ;

    /// Checks the rounds of the proof against `claim`. Returns the claim
    /// that is left about the summand and the point it is left at.
    fn verify(
        &self,
        claim: F,
        num_rounds: usize,
        degree_bound: usize,
        c: usize,
        m: usize,
        transcript: &mut T,
    ) -> (res: Result<(F, Vec<F>), ProofVerifyError>)
        requires
            spec_num_memories::<I>(c as nat, m as nat) < usize::MAX,
        ensures
            sumcheck_outcome(res) == self.spec_verify(
                claim.value(),
                num_rounds as nat,
                degree_bound as nat,
                c as nat,
                m as nat,
                old(transcript).log(),
            ),
            final(transcript).log() == self.spec_verify_log(
                claim.value(),
                num_rounds as nat,
                degree_bound as nat,
                c as nat,
                m as nat,
                old(transcript).log(),
            ),
    ;
}

/// The proof that the memories of an instance were read consistently.
///
/// The argument draws its challenges, has the leaves computed, proves the
/// grand product of each group of leaves and opens the trace where the
/// products end. Its verifier rebuilds the memory tuples from the openings
/// and holds their fingerprints against the products. Prover and verifier
/// are deterministic, as those of the sumcheck are. The ghost functions
/// have defaults, so that an implementation that is not verified need not
/// state them; a verified one defines them.
pub trait MemoryCheckingProof<
    F: JoltField,
    T: Transcript<F>,
    PCS: CommitmentScheme<F, T>,
    I: JoltInstruction,
    const C: usize,
    const M: usize,
>: Sized {
    /// Whether this is the proof that the prover gives for the trace
    /// `polynomials`.
    open spec fn is_proof_of(
        &self,
        setup: &PCS::Setup,
        polynomials: SurgePolynomials<F>,
        log: Seq<TranscriptEvent>,
    ) -> bool {
        true
    }

    /// The log of the transcript when the prover is done with the trace
    /// `polynomials`.
    open spec fn spec_prove_log(
        setup: &PCS::Setup,
        polynomials: SurgePolynomials<F>,
        log: Seq<TranscriptEvent>,
    ) -> Seq<TranscriptEvent> {
        log
    }

    /// What the verifier decides, having taken note of the openings
    /// `noted`.
    open spec fn spec_verify(
        &self,
        setup: &PCS::Setup,
        commitments: SurgeStuff<PCS::Commitment>,
        noted: Seq<NotedOpening<PCS::Commitment>>,
        log: Seq<TranscriptEvent>,
    ) -> Result<(), ProofVerifyError> {
        Err(ProofVerifyError::InternalError)
    }

    /// The log of the transcript when the verifier is done.
    open spec fn spec_verify_log(
        &self,
        setup: &PCS::Setup,
        commitments: SurgeStuff<PCS::Commitment>,
        noted: Seq<NotedOpening<PCS::Commitment>>,
        log: Seq<TranscriptEvent>,
    ) -> Seq<TranscriptEvent> {
        log
    }

    /// The openings that the verifier has taken note of when it is done.
    open spec fn spec_verify_noted(
        &self,
        setup: &PCS::Setup,
        commitments: SurgeStuff<PCS::Commitment>,
        noted: Seq<NotedOpening<PCS::Commitment>>,
        log: Seq<TranscriptEvent>,
    ) -> Seq<NotedOpening<PCS::Commitment>> {
        noted
    }

    /// Proves that the trace `polynomials` is consistent with the
    /// subtables, and leaves the transcript as `spec_prove_log` says.
    fn prove_memory_checking(
        setup: &PCS::Setup,
        preprocessing: &SurgePreprocessing<F, I, C, M>,
        polynomials: &SurgePolynomials<F>,
        accumulator: &mut PCS::ProverAccumulator,
        transcript: &mut T,
    ) -> (proof: Self)
        requires
            is_trace::<F, I>(*polynomials, C as nat, M as nat),
            2 * spec_num_memories::<I>(C as nat, M as nat) <= usize::MAX,
        ensures
            proof.is_proof_of(setup, *polynomials, old(transcript).log()),
            final(transcript).log() == Self::spec_prove_log(
                setup,
                *polynomials,
                old(transcript).log(),
            ),
    ;

    /// Checks the proof against the commitments to the trace, and leaves
    /// the transcript and the accumulator as `spec_verify_log` and
    /// `spec_verify_noted` say.
    fn verify_memory_checking(
        preprocessing: &SurgePreprocessing<F, I, C, M>,
        setup: &PCS::Setup,
        proof: Self,
        commitments: &SurgeStuff<PCS::Commitment>,
        accumulator: &mut PCS::VerifierAccumulator,
        transcript: &mut T,
    ) -> (res: Result<(), ProofVerifyError>)
        requires
            C >= 1,
            2 * spec_num_memories::<I>(C as nat, M as nat) <= usize::MAX,
            commitments.has_shape(C as nat, spec_num_memories::<I>(C as nat, M as nat)),
        ensures
            res == proof.spec_verify(
                setup,
                *commitments,
                PCS::noted(old(accumulator)),
                old(transcript).log(),
            ),
            final(transcript).log() == proof.spec_verify_log(
                setup,
                *commitments,
                PCS::noted(old(accumulator)),
                old(transcript).log(),
            ),
            PCS::noted(final(accumulator)) == proof.spec_verify_noted(
                setup,
                *commitments,
                PCS::noted(old(accumulator)),
                old(transcript).log(),
            ),
    ;
}

/// Whether `commitments` holds, slot for slot, the commitments to the
/// polynomials of `w` under the key `setup`.
pub open spec fn commits_to_trace<F: JoltField, T: Transcript<F>, PCS: CommitmentScheme<F, T>>(
    commitments: SurgeStuff<PCS::Commitment>,
    w: SurgePolynomials<F>,
    setup: &PCS::Setup,
) -> bool {
    &&& commitments.dim@.len() == w.dim@.len()
    &&& commitments.read_cts@.len() == w.read_cts@.len()
    &&& commitments.E_polys@.len() == w.E_polys@.len()
    &&& commitments.final_cts@.len() == w.final_cts@.len()
    &&& forall|k: int|
        0 <= k < w.spec_read_write_values().len() ==> PCS::commits_to(
            &#[trigger] commitments.spec_read_write_values()[k],
            w.spec_read_write_values()[k],
            setup,
        )
    &&& forall|d: int|
        0 <= d < w.final_cts@.len() ==> PCS::commits_to(
            &#[trigger] commitments.final_cts@[d],
            w.final_cts@[d],
            setup,
        )
}

/// Whether every memory of the trace `w` reads and ends with what it writes
/// and starts with: for all challenges, the read fingerprints together with
/// the final ones are, as multisets, the write fingerprints together with
/// the initial ones.
pub open spec fn trace_is_consistent<F: JoltField, I: JoltInstruction>(
    w: SurgePolynomials<F>,
    c: nat,
    m: nat,
) -> bool {
    &&& is_trace::<F, I>(w, c, m)
    &&& forall|k: int, gamma: nat, tau: nat|
        0 <= k < spec_num_memories::<I>(c, m) ==> (#[trigger] spec_memory_read_leaves(
            w,
            k,
            c,
            gamma,
            tau,
        )).to_multiset().add(
            spec_memory_final_leaves::<F, I>(w, k, c, m, gamma, tau).to_multiset(),
        ) == spec_memory_write_leaves(w, k, c, gamma, tau).to_multiset().add(
            spec_memory_init_leaves::<I>(k, c, m, gamma, tau, F::modulus()).to_multiset(),
        )
}

/// Completeness of the sumcheck on one instance: where there is one
/// polynomial for each memory and one more, each with an evaluation for
/// every corner of the hypercube, and the claim is the sum of the summand
/// over the hypercube, the prover ends at a point of `num_rounds`
/// coordinates and opens every polynomial to its multilinear extension
/// there, and the verifier accepts every proof of the prover, leaves the
/// transcript as the prover did, and is left with the summand at the opened
/// values.
pub open spec fn sumcheck_is_complete<
    F: JoltField,
    T: Transcript<F>,
    I: JoltInstruction,
    S: SumcheckInstanceProof<F, T, I>,
>(
    claim: nat,
    num_rounds: nat,
    polys: Seq<Seq<nat>>,
    c: nat,
    m: nat,
    degree: nat,
    log: Seq<TranscriptEvent>,
) -> bool {
    let point = S::spec_prove_point(claim, num_rounds, polys, c, m, degree, log);
    let openings = S::spec_prove_openings(claim, num_rounds, polys, c, m, degree, log);
    ({
        &&& polys.len() == spec_num_memories::<I>(c, m) + 1
        &&& forall|k: int| 0 <= k < polys.len() ==> (#[trigger] polys[k]).len() == pow2(num_rounds)
        &&& claim == spec_hypercube_sum::<I>(polys, pow2(num_rounds) as int, c, m, F::modulus())
    }) ==> {
        &&& point.len() == num_rounds
        &&& openings.len() == polys.len()
        &&& forall|k: int|
            0 <= k < polys.len() ==> #[trigger] openings[k] == spec_mle_evaluate(
                polys[k],
                point,
                F::modulus(),
            )
        &&& forall|proof: S| #[trigger]
            proof.is_proof_of(claim, num_rounds, polys, c, m, degree, log) ==> {
                &&& proof.spec_verify(claim, num_rounds, degree, c, m, log) == Ok::<
                    (nat, Seq<nat>),
                    ProofVerifyError,
                >((spec_combine_lookups_eq::<I>(openings, c, m, F::modulus()), point))
                &&& proof.spec_verify_log(claim, num_rounds, degree, c, m, log)
                    == S::spec_prove_log(claim, num_rounds, polys, c, m, degree, log)
            }
    }
}

/// Completeness of memory checking on one trace: where the trace is
/// consistent, the verifier accepts every proof of the prover against the
/// commitments to the trace, whatever honest openings it has taken note of.
pub open spec fn memory_checking_is_complete<
    F: JoltField,
    T: Transcript<F>,
    PCS: CommitmentScheme<F, T>,
    I: JoltInstruction,
    const C: usize,
    const M: usize,
    MC: MemoryCheckingProof<F, T, PCS, I, C, M>,
>(setup: &PCS::Setup, w: SurgePolynomials<F>, log: Seq<TranscriptEvent>) -> bool {
    trace_is_consistent::<F, I>(w, C as nat, M as nat) ==> forall|
        proof: MC,
        commitments: SurgeStuff<PCS::Commitment>,
        noted: Seq<NotedOpening<PCS::Commitment>>,
    |
        proof.is_proof_of(setup, w, log) && commits_to_trace::<F, T, PCS>(
            commitments,
            w,
            setup,
        ) && openings_are_honest::<F, T, PCS>(noted, setup) ==> #[trigger] proof.spec_verify(
            setup,
            commitments,
            noted,
            log,
        ) == Ok::<(), ProofVerifyError>(())
}

} // verus!
