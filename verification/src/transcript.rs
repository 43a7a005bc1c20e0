//! The transcript from which prover and verifier draw their challenges.

use vstd::prelude::*;
use crate::field::JoltField;
use crate::poly::field_scalars;

verus! {

/// One interaction with a transcript.
pub enum TranscriptEvent {
    /// A message was absorbed.
    Message(Seq<u8>),
    /// A field element was absorbed.
    Scalar(nat),
    /// This many challenges were drawn.
    Challenge(nat),
}

/// A Fiat-Shamir transcript over the field `F`.
///
/// Challenges are a function of everything the transcript has absorbed and
/// handed out before: two transcripts with the same log draw the same
/// challenges. The two ghost functions have defaults, so that an
/// implementation that is not verified need not state them; a verified one
/// defines both.
pub trait Transcript<F: JoltField>: Sized {
    /// The interactions so far, the oldest first.
    open spec fn log(&self) -> Seq<TranscriptEvent> {
        Seq::empty()
    }

    /// The `n` challenges that a transcript with the log `log` hands out.
    open spec fn spec_challenges(log: Seq<TranscriptEvent>, n: nat) -> Seq<nat> {
        Seq::new(n, |i: int| 0nat)
    }

    /// A transcript that has absorbed `label` and nothing else.
    fn new(label: &[u8]) -> (transcript: Self)
        ensures
            transcript.log() == seq![TranscriptEvent::Message(label@)],
    ;

    /// Absorbs the message `msg`.
    fn append_message(&mut self, msg: &[u8])
        ensures
            final(self).log() == old(self).log().push(TranscriptEvent::Message(msg@)),
    ;

    /// Absorbs the field element `scalar`.
    fn append_scalar(&mut self, scalar: &F)
        ensures
            final(self).log() == old(self).log().push(TranscriptEvent::Scalar(scalar.value())),
    ;

    /// Draws `len` challenges.
    fn challenge_vector(&mut self, len: usize) -> (challenges: Vec<F>)
        ensures
            challenges@.len() == len,
            field_scalars(challenges@) == Self::spec_challenges(old(self).log(), len as nat),
            final(self).log() == old(self).log().push(TranscriptEvent::Challenge(len as nat)),
    ;
}

} // verus!
