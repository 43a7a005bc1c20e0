//! The polynomial commitment scheme and its opening accumulators.

use vstd::prelude::*;
use crate::field::JoltField;
use vstd::arithmetic::power2::pow2;
use crate::mle::spec_mle_evaluate;
use crate::poly::{field_scalars, MultilinearPolynomial};
use crate::stuff::referents;
use crate::transcript::{Transcript, TranscriptEvent};

verus! {

/// An opening that a verifier has taken note of: the polynomials behind
/// `commitments` are claimed to open to `claims` at `point`.
pub struct NotedOpening<C> {
    pub commitments: Seq<C>,
    pub point: Seq<nat>,
    pub claims: Seq<nat>,
}

/// Whether the opening `opening` is honest: its claims are the evaluations,
/// at its point, of polynomials `polys` that its commitments commit to, each
/// with an evaluation for every corner of the hypercube.
pub open spec fn opening_is_honest<F: JoltField, T: Transcript<F>, PCS: CommitmentScheme<F, T>>(
    opening: NotedOpening<PCS::Commitment>,
    polys: Seq<MultilinearPolynomial<F>>,
    setup: &PCS::Setup,
) -> bool {
    &&& opening.commitments.len() == polys.len()
    &&& opening.claims.len() == polys.len()
    &&& forall|k: int|
        0 <= k < polys.len() ==> {
            &&& PCS::commits_to(&opening.commitments[k], #[trigger] polys[k], setup)
            &&& polys[k].spec_len() == pow2(opening.point.len())
            &&& opening.claims[k] == spec_mle_evaluate(
                polys[k].coeffs(),
                opening.point,
                F::modulus(),
            )
        }
}

/// Whether there are polynomials for which the opening `opening` is honest.
pub open spec fn opening_has_witness<F: JoltField, T: Transcript<F>, PCS: CommitmentScheme<F, T>>(
    opening: NotedOpening<PCS::Commitment>,
    setup: &PCS::Setup,
) -> bool {
    exists|polys: Seq<MultilinearPolynomial<F>>| #[trigger]
        opening_is_honest::<F, T, PCS>(opening, polys, setup)
}

/// Whether every opening of `noted` is honest.
pub open spec fn openings_are_honest<F: JoltField, T: Transcript<F>, PCS: CommitmentScheme<F, T>>(
    noted: Seq<NotedOpening<PCS::Commitment>>,
    setup: &PCS::Setup,
) -> bool {
    forall|i: int|
        0 <= i < noted.len() ==> opening_has_witness::<F, T, PCS>(#[trigger] noted[i], setup)
}

/// Every one of honest openings has polynomials for which it is honest.
pub proof fn lemma_honest_opening_at<F: JoltField, T: Transcript<F>, PCS: CommitmentScheme<F, T>>(
    noted: Seq<NotedOpening<PCS::Commitment>>,
    setup: &PCS::Setup,
    i: int,
) -> (polys: Seq<MultilinearPolynomial<F>>)
    requires
        openings_are_honest::<F, T, PCS>(noted, setup),
        0 <= i < noted.len(),
    ensures
        opening_is_honest::<F, T, PCS>(noted[i], polys, setup),
{
    assert(opening_has_witness::<F, T, PCS>(noted[i], setup));
    choose|polys: Seq<MultilinearPolynomial<F>>| #[trigger]
        opening_is_honest::<F, T, PCS>(noted[i], polys, setup)
}

/// A commitment scheme for multilinear polynomials over `F`, with the
/// accumulators that gather the openings a proof claims.
///
/// An accumulator takes note of an opening and binds it to the transcript.
/// Prover and verifier must leave the transcript in the same state, so the
/// log after an opening is one function, of the point and the claims alone,
/// for both of them. What a verifier has taken note of is what it was told,
/// in order; whether the claims hold is for whoever reads the accumulator
/// to decide. The ghost functions have defaults, so that an
/// implementation that is not verified need not state them; a verified one
/// defines them.
pub trait CommitmentScheme<F: JoltField, T: Transcript<F>>: Sized {
    /// The commitment key.
    type Setup;

    /// A commitment to one polynomial.
    type Commitment: Default;

    /// What a prover gathers of the openings it claims.
    type ProverAccumulator;

    /// What a verifier gathers of the openings it was shown.
    type VerifierAccumulator;

    /// Whether `commitment` is the commitment to the polynomial `poly`
    /// under the key `setup`.
    open spec fn commits_to(
        commitment: &Self::Commitment,
        poly: MultilinearPolynomial<F>,
        setup: &Self::Setup,
    ) -> bool {
        true
    }

    /// The openings that the accumulator has taken note of, the oldest
    /// first.
    open spec fn noted(accumulator: &Self::VerifierAccumulator) -> Seq<
        NotedOpening<Self::Commitment>,
    > {
        Seq::empty()
    }

    /// The log of a transcript after an opening at `point` with the claims
    /// `claims` was bound to it in the state `log`.
    open spec fn spec_opening_log(
        point: Seq<nat>,
        claims: Seq<nat>,
        log: Seq<TranscriptEvent>,
    ) -> Seq<TranscriptEvent> {
        log
    }

    /// Commits to each of `polys`.
    fn batch_commit(polys: &Vec<&MultilinearPolynomial<F>>, setup: &Self::Setup) -> (commitments:
        Vec<Self::Commitment>)
        ensures
            commitments@.len() == polys@.len(),
            forall|k: int|
                0 <= k < polys@.len() ==> Self::commits_to(
                    &#[trigger] commitments@[k],
                    *polys@[k],
                    setup,
                ),
    ;

    /// An accumulator that has taken note of nothing.
    fn new_prover_accumulator() -> Self::ProverAccumulator;

    /// Takes note that `polys` open to `claims` at `point`.
    fn prover_append(
        accumulator: &mut Self::ProverAccumulator,
        polys: &Vec<&MultilinearPolynomial<F>>,
        point: &Vec<F>,
        claims: &Vec<F>,
        transcript: &mut T,
    )
        ensures
            final(transcript).log() == Self::spec_opening_log(
                field_scalars(point@),
                field_scalars(claims@),
                old(transcript).log(),
            ),
    ;

    /// An accumulator that has taken note of nothing.
    fn new_verifier_accumulator() -> (accumulator: Self::VerifierAccumulator)
        ensures
            Self::noted(&accumulator) == Seq::<NotedOpening<Self::Commitment>>::empty(),
    ;

    /// Takes note that the polynomials behind `commitments` are claimed to
    /// open to `claims` at `point`.
    fn verifier_append(
        accumulator: &mut Self::VerifierAccumulator,
        commitments: &Vec<&Self::Commitment>,
        point: &Vec<F>,
        claims: &Vec<F>,
        transcript: &mut T,
    )
        ensures
            Self::noted(final(accumulator)) == Self::noted(old(accumulator)).push(
                (NotedOpening {
                    commitments: referents(commitments@),
                    point: field_scalars(point@),
                    claims: field_scalars(claims@),
                }),
            ),
            final(transcript).log() == Self::spec_opening_log(
                field_scalars(point@),
                field_scalars(claims@),
                old(transcript).log(),
            ),
    ;
}

} // verus!
