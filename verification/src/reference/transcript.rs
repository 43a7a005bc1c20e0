//! A transcript that chains what it absorbs through a mixing function.

use vstd::prelude::*;
use crate::field::{Fp, JoltField, FP_MODULUS};
use crate::poly::field_scalars;
use crate::transcript::{Transcript, TranscriptEvent};

verus! {

/// The state of a transcript that has absorbed nothing.
pub const MIX_SEED: u64 = 0x0bf2_9ce4_8422_2325;

/// The multiplier of the mixing function.
pub const MIX_MULTIPLIER: u64 = 0x9e37_79b9_7f4a_7c15;

/// The word that is mixed in before a field element.
pub const MIX_SCALAR: u64 = 0x5343_414c;

/// The word that is mixed in for every challenge drawn.
pub const MIX_CHALLENGE: u64 = 0x4348_414c;

/// The state that follows `state` when `word` is mixed in.
pub open spec fn spec_mix(state: u64, word: u64) -> u64 {
    ((state * MIX_MULTIPLIER + word + 1) % (FP_MODULUS as int)) as u64
}

/// The state that follows `state` when the bytes `bytes` are mixed in, the
/// first byte first.
pub open spec fn spec_mix_bytes(state: u64, bytes: Seq<u8>) -> u64
    decreases bytes.len(),
{
    if bytes.len() == 0 {
        state
    } else {
        spec_mix(spec_mix_bytes(state, bytes.drop_last()), bytes.last() as u64)
    }
}

/// The state that follows `state` when `count` challenges are drawn.
pub open spec fn spec_draw(state: u64, count: nat) -> u64
    decreases count,
{
    if count == 0 {
        state
    } else {
        spec_mix(spec_draw(state, (count - 1) as nat), MIX_CHALLENGE)
    }
}

/// The state that follows `state` after the interaction `event`.
pub open spec fn spec_mix_event(state: u64, event: TranscriptEvent) -> u64 {
    match event {
        TranscriptEvent::Message(bytes) => spec_mix_bytes(
            spec_mix(state, bytes.len() as u64),
            bytes,
        ),
        TranscriptEvent::Scalar(value) => spec_mix(spec_mix(state, MIX_SCALAR), value as u64),
        TranscriptEvent::Challenge(count) => spec_draw(state, count),
    }
}

/// The state of a transcript after the interactions `log`.
pub open spec fn spec_state(log: Seq<TranscriptEvent>) -> u64
    decreases log.len(),
{
    if log.len() == 0 {
        MIX_SEED
    } else {
        spec_mix_event(spec_state(log.drop_last()), log.last())
    }
}

/// One more interaction advances the state by the interaction.
pub proof fn lemma_state_push(log: Seq<TranscriptEvent>, event: TranscriptEvent)
    ensures
        spec_state(log.push(event)) == spec_mix_event(spec_state(log), event),
{
    assert(log.push(event).drop_last() =~= log);
    assert(log.push(event).last() == event);
}

/// A transcript over [`Fp`] that chains what it absorbs through a mixing
/// function and hands out its states as challenges.
///
/// The mixing function is no hash function: the transcript is as
/// deterministic as the interface asks, and no more is claimed of it.
pub struct MixingTranscript {
    state: u64,
    log: Ghost<Seq<TranscriptEvent>>,
}

/// Mixes `word` into `state`.
fn mix(state: u64, word: u64) -> (next: u64)
    ensures
        next == spec_mix(state, word),
{
    assert(state * MIX_MULTIPLIER <= 0xffff_ffff_ffff_ffff * 0xffff_ffff_ffff_ffff)
        by (nonlinear_arith)
        requires
            state <= 0xffff_ffff_ffff_ffff,
            MIX_MULTIPLIER <= 0xffff_ffff_ffff_ffff,
    ;
    let wide: u128 = state as u128 * (MIX_MULTIPLIER as u128) + word as u128 + 1;
    (wide % (FP_MODULUS as u128)) as u64
}

/// Mixes the bytes `bytes` into `state`.
fn mix_bytes(state: u64, bytes: &[u8]) -> (next: u64)
    ensures
        next == spec_mix_bytes(state, bytes@),
{
    let mut next = state;
    let mut i: usize = 0;
    assert(bytes@.take(0).len() == 0);
    while i < bytes.len()
        invariant
            i <= bytes@.len(),
            next == spec_mix_bytes(state, bytes@.take(i as int)),
        decreases bytes@.len() - i,
    {
        assert(bytes@.take(i + 1).drop_last() =~= bytes@.take(i as int));
        next = mix(next, bytes[i] as u64);
        i += 1;
    }
    assert(bytes@.take(bytes@.len() as int) =~= bytes@);
    next
}

impl MixingTranscript {
    #[verifier::type_invariant]
    spec fn well_formed(&self) -> bool {
        self.state == spec_state(self.log@)
    }
}

impl Transcript<Fp> for MixingTranscript {
    closed spec fn log(&self) -> Seq<TranscriptEvent> {
        self.log@
    }

    open spec fn spec_challenges(log: Seq<TranscriptEvent>, n: nat) -> Seq<nat> {
        Seq::new(
            n,
            |i: int| (spec_draw(spec_state(log), (i + 1) as nat) as nat) % (FP_MODULUS as nat),
        )
    }

    fn new(label: &[u8]) -> (transcript: Self) {
        let ghost log = seq![TranscriptEvent::Message(label@)];
        let state = mix_bytes(mix(MIX_SEED, label.len() as u64), label);
        proof {
            let empty = Seq::<TranscriptEvent>::empty();
            assert(log =~= empty.push(TranscriptEvent::Message(label@)));
            lemma_state_push(empty, TranscriptEvent::Message(label@));
            assert(spec_state(empty) == MIX_SEED);
        }
        MixingTranscript { state, log: Ghost(log) }
    }

    fn append_message(&mut self, msg: &[u8]) {
        proof {
            use_type_invariant(&*self);
        }
        let ghost log = self.log@.push(TranscriptEvent::Message(msg@));
        let state = mix_bytes(mix(self.state, msg.len() as u64), msg);
        proof {
            lemma_state_push(self.log@, TranscriptEvent::Message(msg@));
        }
        *self = MixingTranscript { state, log: Ghost(log) };
    }

    fn append_scalar(&mut self, scalar: &Fp) {
        proof {
            use_type_invariant(&*self);
        }
        let ghost log = self.log@.push(TranscriptEvent::Scalar(scalar.value()));
        let state = mix(mix(self.state, MIX_SCALAR), scalar.to_u64());
        proof {
            lemma_state_push(self.log@, TranscriptEvent::Scalar(scalar.value()));
        }
        *self = MixingTranscript { state, log: Ghost(log) };
    }

    fn challenge_vector(&mut self, len: usize) -> (challenges: Vec<Fp>) {
        proof {
            use_type_invariant(&*self);
        }
        let ghost before = self.log@;
        let ghost log = before.push(TranscriptEvent::Challenge(len as nat));
        let start = self.state;
        let mut state = self.state;
        let mut challenges: Vec<Fp> = Vec::new();
        let mut i: usize = 0;
        while i < len
            invariant
                i <= len,
                state == spec_draw(start, i as nat),
                challenges@.len() == i,
                forall|j: int|
                    0 <= j < i ==> (#[trigger] challenges@[j]).value() == (spec_draw(
                        start,
                        (j + 1) as nat,
                    ) as nat) % (FP_MODULUS as nat),
            decreases len - i,
        {
            state = mix(state, MIX_CHALLENGE);
            challenges.push(Fp::new(state));
            i += 1;
        }
        proof {
            lemma_state_push(before, TranscriptEvent::Challenge(len as nat));
            assert(field_scalars(challenges@) =~= Self::spec_challenges(before, len as nat));
        }
        *self = MixingTranscript { state, log: Ghost(log) };
        challenges
    }
}

/// The transcript hands out as many challenges as it is asked for.
pub proof fn lemma_challenges_len(log: Seq<TranscriptEvent>, n: nat)
    ensures
        MixingTranscript::spec_challenges(log, n).len() == n,
{
}

} // verus!
