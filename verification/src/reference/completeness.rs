//! With the reference implementations, a verifier accepts what a prover
//! builds.

use vstd::prelude::*;
use crate::errors::ProofVerifyError;
use crate::field::Fp;
use crate::instruction::JoltInstruction;
use crate::leaves::spec_rows;
use crate::math::spec_ceil_log2;
use crate::preprocessing::SurgePreprocessing;
use crate::protocol::{spec_instance_is_supported, spec_sumcheck_log, SurgeProof};
use crate::reference::commitment::Transparent;
use crate::reference::memory_checking::{
    lemma_transparent_memory_checking_is_complete, TransparentMemoryChecking,
};
use crate::reference::sumcheck::{lemma_transparent_sumcheck_is_complete, TransparentSumcheck};
use crate::reference::transcript::{lemma_challenges_len, MixingTranscript};
use crate::xor::{lemma_xor_lookups_are_valid, XORInstruction};
use crate::witness::{
    is_witness, spec_access_sequences, valid_access_sequences, SurgePolynomials, MAX_ROWS,
};

verus! {

/// A Surge proof over [`Fp`] with the reference implementations of the
/// transcript, the commitment scheme and the two subprotocols.
pub type ReferenceProof<I, const C: usize, const M: usize> = SurgeProof<
    Fp,
    Transparent,
    I,
    C,
    M,
    MixingTranscript,
    TransparentSumcheck<Fp>,
    TransparentMemoryChecking,
>;

/// Completeness: the verifier accepts the proof that the prover builds from
/// the witness of any lookups, few or many.
pub proof fn lemma_reference_is_complete<I: JoltInstruction, const C: usize, const M: usize>(
    proof: ReferenceProof<I, C, M>,
    ops: Seq<I>,
    w: SurgePolynomials<Fp>,
)
    requires
        spec_instance_is_supported::<I, C, M>(),
        valid_access_sequences(
            spec_access_sequences(ops, C as nat, spec_ceil_log2(M as nat)),
            C as nat,
            M as nat,
        ),
        is_witness(w, ops, C as nat, M as nat),
        ReferenceProof::<I, C, M>::is_proof_for(proof, w, &()),
    ensures
        ReferenceProof::<I, C, M>::spec_verify(proof, &()) == Ok::<(), ProofVerifyError>(()),
{
    let rounds = ReferenceProof::<I, C, M>::spec_num_rounds(spec_rows(w));
    let claim = ReferenceProof::<I, C, M>::spec_claim(w);
    lemma_challenges_len(crate::protocol::spec_initial_log(), rounds);
    lemma_challenges_len(spec_sumcheck_log(rounds, claim), rounds);
    lemma_transparent_sumcheck_is_complete::<Fp, MixingTranscript, I>(
        claim,
        rounds,
        ReferenceProof::<I, C, M>::spec_sumcheck_polys(w),
        C as nat,
        M as nat,
        ReferenceProof::<I, C, M>::spec_degree(),
        spec_sumcheck_log(rounds, claim),
    );
    lemma_transparent_memory_checking_is_complete::<Fp, MixingTranscript, I, C, M>(
        w,
        ReferenceProof::<I, C, M>::spec_memory_checking_log(w),
    );
    ReferenceProof::<I, C, M>::lemma_prove_then_verify(proof, ops, w, &());
}

/// Whether `res` is what the verifier decides about a proof that the prover
/// builds from the witness of `ops`.
pub open spec fn is_verdict_on_proof_of<I: JoltInstruction, const C: usize, const M: usize>(
    res: Result<(), ProofVerifyError>,
    ops: Seq<I>,
) -> bool {
    exists|proof: ReferenceProof<I, C, M>, w: SurgePolynomials<Fp>|
        is_witness(w, ops, C as nat, M as nat) && #[trigger] ReferenceProof::<
            I,
            C,
            M,
        >::is_proof_for(proof, w, &()) && res == ReferenceProof::<I, C, M>::spec_verify(proof, &())
}

/// Proves that the lookups `ops` were performed correctly and verifies the
/// proof. The verifier accepts.
pub fn prove_then_verify<I: JoltInstruction, const C: usize, const M: usize>(
    preprocessing: &SurgePreprocessing<Fp, I, C, M>,
    ops: Vec<I>,
) -> (res: Result<(), ProofVerifyError>)
    requires
        spec_instance_is_supported::<I, C, M>(),
        ops@.len() <= MAX_ROWS,
        valid_access_sequences(
            spec_access_sequences(ops@, C as nat, spec_ceil_log2(M as nat)),
            C as nat,
            M as nat,
        ),
    ensures
        is_verdict_on_proof_of::<I, C, M>(res, ops@),
        res is Ok,
{
    let ghost lookups = ops@;
    let (proof, debug_info) = ReferenceProof::<I, C, M>::prove(preprocessing, &(), ops);
    proof {
        let w = choose|w: SurgePolynomials<Fp>| #[trigger]
            is_witness(w, lookups, C as nat, M as nat) && ReferenceProof::<I, C, M>::is_proof_for(
                proof,
                w,
                &(),
            );
        lemma_reference_is_complete::<I, C, M>(proof, lookups, w);
        assert(is_witness(w, lookups, C as nat, M as nat) && ReferenceProof::<
            I,
            C,
            M,
        >::is_proof_for(proof, w, &()));
    }
    let res = ReferenceProof::<I, C, M>::verify(preprocessing, &(), proof, debug_info);
    assert(res == ReferenceProof::<I, C, M>::spec_verify(proof, &()));
    res
}

/// Proves and verifies lookups of the exclusive-or of words of 32 bits,
/// decomposed into four chunks that are read in a subtable of 2^16 entries.
/// The verifier accepts, however many lookups there are.
pub fn prove_then_verify_xor(ops: Vec<XORInstruction<32>>) -> (res: Result<(), ProofVerifyError>)
    requires
        ops@.len() <= MAX_ROWS,
    ensures
        is_verdict_on_proof_of::<XORInstruction<32>, 4, 0x1_0000>(res, ops@),
        res is Ok,
{
    proof {
        vstd::arithmetic::power2::lemma2_to64();
        crate::math::lemma_ceil_log2_pow2(16);
        lemma_xor_lookups_are_valid(ops@, 4, 0x1_0000);
    }
    let preprocessing = SurgePreprocessing::<Fp, XORInstruction<32>, 4, 0x1_0000>::preprocess();
    prove_then_verify(&preprocessing, ops)
}

} // verus!
