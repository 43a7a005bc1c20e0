//! Why a proof is rejected.

use vstd::prelude::*;

verus! {

/// The stage at which verification failed.
#[derive(Clone, Copy, Debug, PartialEq, Eq, Structural)]
pub enum ProofVerifyError {
    /// A part of the proof has the wrong length: the length expected, then
    /// the length found.
    InvalidInputLength(usize, usize),
    /// The polynomial of a sumcheck round does not continue the claim of
    /// the round before it: the round.
    SumcheckRoundMismatch(usize),
    /// The polynomial of a sumcheck round has the wrong degree: the degree
    /// expected, then the degree found.
    DegreeBoundExceeded(usize, usize),
    /// The final claim of the primary sumcheck is not the collation of the
    /// opened values, weighted by the equality polynomial.
    ClaimMismatch,
    /// An opening does not agree with its commitment.
    InvalidOpeningProof,
    /// What the memories read and end with is not what they write and start
    /// with.
    MultisetMismatch,
    /// A subprotocol failed in a way it does not describe further.
    InternalError,
}

} // verus!
