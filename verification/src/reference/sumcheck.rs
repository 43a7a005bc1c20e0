//! The sumcheck whose proof is the polynomials it speaks of.

use vstd::prelude::*;
use vstd::arithmetic::power2::*;
use crate::errors::ProofVerifyError;
use crate::field::JoltField;
use crate::instruction::JoltInstruction;
use crate::math::{lemma_pow2_too_large, pow2_usize};
use crate::memory::{num_memories, spec_num_memories};
use crate::mle::{evaluate_all, spec_mle_evaluate};
use crate::poly::{field_scalars, MultilinearPolynomial};
use crate::subprotocols::{sumcheck_is_complete, SumcheckInstanceProof};
use crate::sumcheck::{
    combine_lookups_eq, hypercube_sum, poly_coeffs, spec_combine_lookups_eq, spec_hypercube_sum,
};
use crate::transcript::{Transcript, TranscriptEvent};

verus! {

/// The proof of a sumcheck that holds the polynomials it speaks of.
///
/// The verifier sums the summand over the hypercube by itself, draws the
/// point, and evaluates the polynomials there. There are no rounds.
pub struct TransparentSumcheck<F> {
    pub polys: Vec<MultilinearPolynomial<F>>,
}

/// The openings of the polynomials with the evaluations `polys` at `point`.
pub open spec fn spec_openings(polys: Seq<Seq<nat>>, point: Seq<nat>, p: nat) -> Seq<nat> {
    Seq::new(polys.len(), |k: int| spec_mle_evaluate(polys[k], point, p))
}

/// Whether there is one polynomial for each memory and one more, each with
/// an evaluation for every corner of the hypercube of `num_rounds`
/// variables.
pub open spec fn spec_fits<I: JoltInstruction>(
    polys: Seq<Seq<nat>>,
    num_rounds: nat,
    c: nat,
    m: nat,
) -> bool {
    &&& polys.len() == spec_num_memories::<I>(c, m) + 1
    &&& forall|k: int| 0 <= k < polys.len() ==> (#[trigger] polys[k]).len() == pow2(num_rounds)
}

impl<F: JoltField> TransparentSumcheck<F> {
    /// Tests whether the polynomials fit an instance with a hypercube of
    /// `num_rounds` variables.
    fn fits<I: JoltInstruction>(&self, num_rounds: usize, c: usize, m: usize) -> (fits: bool)
        requires
            spec_num_memories::<I>(c as nat, m as nat) < usize::MAX,
        ensures
            fits == spec_fits::<I>(poly_coeffs(self.polys@), num_rounds as nat, c as nat, m as nat),
            fits ==> pow2(num_rounds as nat) <= usize::MAX,
    {
        let ghost polys = poly_coeffs(self.polys@);
        let memories = num_memories::<I>(c, m);
        if self.polys.len() != memories + 1 {
            return false;
        }
        if num_rounds >= usize::BITS as usize {
            let found = self.polys[0].len();
            proof {
                lemma_pow2_too_large(num_rounds as nat);
                self.polys@[0].lemma_coeffs_len();
                assert(polys[0].len() == found);
            }
            return false;
        }
        let rows = pow2_usize(num_rounds);
        let mut k: usize = 0;
        while k < self.polys.len()
            invariant
                k <= self.polys@.len(),
                polys == poly_coeffs(self.polys@),
                rows == pow2(num_rounds as nat),
                forall|j: int| 0 <= j < k ==> (#[trigger] polys[j]).len() == rows,
            decreases self.polys@.len() - k,
        {
            proof {
                self.polys@[k as int].lemma_coeffs_len();
            }
            if self.polys[k].len() != rows {
                assert(polys[k as int].len() != pow2(num_rounds as nat));
                return false;
            }
            k += 1;
        }
        true
    }
}

impl<F: JoltField, T: Transcript<F>, I: JoltInstruction> SumcheckInstanceProof<F, T, I> for TransparentSumcheck<
    F,
> {
    open spec fn is_proof_of(
        &self,
        claim: nat,
        num_rounds: nat,
        polys: Seq<Seq<nat>>,
        c: nat,
        m: nat,
        degree: nat,
        log: Seq<TranscriptEvent>,
    ) -> bool {
        poly_coeffs(self.polys@) == polys
    }

    open spec fn spec_prove_point(
        claim: nat,
        num_rounds: nat,
        polys: Seq<Seq<nat>>,
        c: nat,
        m: nat,
        degree: nat,
        log: Seq<TranscriptEvent>,
    ) -> Seq<nat> {
        T::spec_challenges(log, num_rounds)
    }

    open spec fn spec_prove_openings(
        claim: nat,
        num_rounds: nat,
        polys: Seq<Seq<nat>>,
        c: nat,
        m: nat,
        degree: nat,
        log: Seq<TranscriptEvent>,
    ) -> Seq<nat> {
        spec_openings(polys, T::spec_challenges(log, num_rounds), F::modulus())
    }

    open spec fn spec_prove_log(
        claim: nat,
        num_rounds: nat,
        polys: Seq<Seq<nat>>,
        c: nat,
        m: nat,
        degree: nat,
        log: Seq<TranscriptEvent>,
    ) -> Seq<TranscriptEvent> {
        log.push(TranscriptEvent::Challenge(num_rounds))
    }

    open spec fn spec_verify(
        &self,
        claim: nat,
        num_rounds: nat,
        degree_bound: nat,
        c: nat,
        m: nat,
        log: Seq<TranscriptEvent>,
    ) -> Result<(nat, Seq<nat>), ProofVerifyError> {
        let polys = poly_coeffs(self.polys@);
        let point = T::spec_challenges(log, num_rounds);
        if !spec_fits::<I>(polys, num_rounds, c, m) {
            Err(ProofVerifyError::InternalError)
        } else if spec_hypercube_sum::<I>(polys, pow2(num_rounds) as int, c, m, F::modulus())
            != claim {
            Err(ProofVerifyError::SumcheckRoundMismatch(0))
        } else {
            Ok(
                (
                    spec_combine_lookups_eq::<I>(
                        spec_openings(polys, point, F::modulus()),
                        c,
                        m,
                        F::modulus(),
                    ),
                    point,
                ),
            )
        }
    }

    open spec fn spec_verify_log(
        &self,
        claim: nat,
        num_rounds: nat,
        degree_bound: nat,
        c: nat,
        m: nat,
        log: Seq<TranscriptEvent>,
    ) -> Seq<TranscriptEvent> {
        let polys = poly_coeffs(self.polys@);
        if spec_fits::<I>(polys, num_rounds, c, m) && spec_hypercube_sum::<I>(
            polys,
            pow2(num_rounds) as int,
            c,
            m,
            F::modulus(),
        ) == claim {
            log.push(TranscriptEvent::Challenge(num_rounds))
        } else {
            log
        }
    }

    fn prove_arbitrary(
        claim: &F,
        num_rounds: usize,
        polys: Vec<MultilinearPolynomial<F>>,
        c: usize,
        m: usize,
        degree: usize,
        transcript: &mut T,
    ) -> (out: (Self, Vec<F>, Vec<F>)) {
        let point = transcript.challenge_vector(num_rounds);
        let rows = polys[0].len();
        proof {
            assert(rows == pow2(num_rounds as nat));
            assert(field_scalars(point@).len() == point@.len());
        }
        let openings = evaluate_all(&polys, point.as_slice());
        proof {
            assert(field_scalars(openings@) =~= spec_openings(
                poly_coeffs(polys@),
                field_scalars(point@),
                F::modulus(),
            ));
        }
        (TransparentSumcheck { polys }, point, openings)
    }

    fn verify(
        &self,
        claim: F,
        num_rounds: usize,
        degree_bound: usize,
        c: usize,
        m: usize,
        transcript: &mut T,
    ) -> (res: Result<(F, Vec<F>), ProofVerifyError>) {
        if !self.fits::<I>(num_rounds, c, m) {
            return Err(ProofVerifyError::InternalError);
        }
        let ghost polys = poly_coeffs(self.polys@);
        proof {
            assert forall|k: int| 0 <= k < self.polys@.len() implies (
            #[trigger] self.polys@[k]).spec_len() == pow2(num_rounds as nat) by {
                self.polys@[k].lemma_coeffs_len();
                assert(polys[k].len() == pow2(num_rounds as nat));
            }
        }
        let rows = self.polys[0].len();
        let sum = hypercube_sum::<F, I>(&self.polys, rows, c, m);
        if !sum.equals(&claim) {
            return Err(ProofVerifyError::SumcheckRoundMismatch(0));
        }
        let point = transcript.challenge_vector(num_rounds);
        proof {
            assert(field_scalars(point@).len() == point@.len());
        }
        let openings = evaluate_all(&self.polys, point.as_slice());
        proof {
            assert(field_scalars(openings@) =~= spec_openings(
                polys,
                field_scalars(point@),
                F::modulus(),
            ));
        }
        let left = combine_lookups_eq::<F, I>(openings.as_slice(), c, m);
        Ok((left, point))
    }
}

/// The transparent sumcheck is complete on every instance, with any
/// transcript that hands out as many challenges as it is asked for.
pub proof fn lemma_transparent_sumcheck_is_complete<
    F: JoltField,
    T: Transcript<F>,
    I: JoltInstruction,
>(
    claim: nat,
    num_rounds: nat,
    polys: Seq<Seq<nat>>,
    c: nat,
    m: nat,
    degree: nat,
    log: Seq<TranscriptEvent>,
)
    requires
        T::spec_challenges(log, num_rounds).len() == num_rounds,
    ensures
        sumcheck_is_complete::<F, T, I, TransparentSumcheck<F>>(
            claim,
            num_rounds,
            polys,
            c,
            m,
            degree,
            log,
        ),
{
    let point = T::spec_challenges(log, num_rounds);
    let openings = spec_openings(polys, point, F::modulus());
    if spec_fits::<I>(polys, num_rounds, c, m) && claim == spec_hypercube_sum::<I>(
        polys,
        pow2(num_rounds) as int,
        c,
        m,
        F::modulus(),
    ) {
        assert forall|proof: TransparentSumcheck<F>| #[trigger]
            SumcheckInstanceProof::<F, T, I>::is_proof_of(
                &proof,
                claim,
                num_rounds,
                polys,
                c,
                m,
                degree,
                log,
            ) implies {
            &&& SumcheckInstanceProof::<F, T, I>::spec_verify(
                &proof,
                claim,
                num_rounds,
                degree,
                c,
                m,
                log,
            ) == Ok::<(nat, Seq<nat>), ProofVerifyError>(
                (spec_combine_lookups_eq::<I>(openings, c, m, F::modulus()), point),
            )
            &&& SumcheckInstanceProof::<F, T, I>::spec_verify_log(
                &proof,
                claim,
                num_rounds,
                degree,
                c,
                m,
                log,
            ) == <TransparentSumcheck<F> as SumcheckInstanceProof<F, T, I>>::spec_prove_log(
                claim,
                num_rounds,
                polys,
                c,
                m,
                degree,
                log,
            )
        } by {
            assert(poly_coeffs(proof.polys@) == polys);
        }
    }
}

} // verus!
