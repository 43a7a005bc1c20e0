//! Memory checking whose verifier recomputes the grand products from the
//! commitments of the transparent scheme.

use vstd::prelude::*;
use vstd::arithmetic::div_mod::*;
use vstd::arithmetic::mul::*;
use vstd::multiset::*;
use vstd::seq_lib::*;
use crate::eq_poly::field_one;
use crate::errors::ProofVerifyError;
use crate::field::{field_mul, JoltField};
use crate::instruction::JoltInstruction;
use crate::leaves::{
    check_trace, is_trace, memory_leaves, spec_memory_final_leaves, spec_memory_init_leaves,
    spec_memory_read_leaves, spec_memory_write_leaves,
};
use crate::memory::{num_memories, spec_num_memories};
use crate::poly::field_scalars;
use crate::preprocessing::SurgePreprocessing;
use crate::protocol::{memory_checking_protocol_name, spec_memory_checking_protocol_name};
use crate::commitment::{openings_are_honest, NotedOpening};
use crate::reference::commitment::{
    lemma_honest_openings_agree, spec_all_agree, CheckedOpenings, Transparent,
};
use crate::stuff::SurgeStuff;
use crate::subprotocols::{
    commits_to_trace, memory_checking_is_complete, trace_is_consistent, MemoryCheckingProof,
};
use crate::commitment::CommitmentScheme;
use crate::leaves::spec_rows;
use crate::poly::same_polynomial;
use crate::transcript::{Transcript, TranscriptEvent};
use crate::witness::SurgePolynomials;
use crate::poly::MultilinearPolynomial;

verus! {

/// The product of the entries of `s` in the field of order `p`.
pub open spec fn spec_product(s: Seq<nat>, p: nat) -> nat
    decreases s.len(),
{
    if s.len() == 0 {
        field_one(p)
    } else {
        field_mul(spec_product(s.drop_last(), p), s.last(), p)
    }
}

/// The product of the entries of `s` over the integers.
pub open spec fn int_product(s: Seq<nat>) -> int
    decreases s.len(),
{
    if s.len() == 0 {
        1
    } else {
        int_product(s.drop_last()) * s.last()
    }
}

/// The product in the field is the product over the integers, reduced.
pub proof fn lemma_product_reduces(s: Seq<nat>, p: nat)
    requires
        p > 0,
    ensures
        spec_product(s, p) == int_product(s) % (p as int),
    decreases s.len(),
{
    if s.len() > 0 {
        lemma_product_reduces(s.drop_last(), p);
        lemma_mul_mod_noop_left(int_product(s.drop_last()), s.last() as int, p as int);
    }
}

/// The product of a sequence is one of its entries times the product of the
/// others.
proof fn lemma_product_remove(s: Seq<nat>, i: int)
    requires
        0 <= i < s.len(),
    ensures
        int_product(s) == s[i] * int_product(s.remove(i)),
    decreases s.len(),
{
    if i == s.len() - 1 {
        assert(s.remove(i) =~= s.drop_last());
        lemma_mul_is_commutative(s[i] as int, int_product(s.drop_last()));
    } else {
        let shorter = s.drop_last();
        lemma_product_remove(shorter, i);
        assert(shorter.remove(i) =~= s.remove(i).drop_last());
        assert(s.remove(i).last() == s.last());
        assert(shorter[i] == s[i]);
        lemma_mul_is_associative(
            s[i] as int,
            int_product(shorter.remove(i)),
            s.last() as int,
        );
    }
}

/// Sequences with the same entries, in whatever order, have the same
/// product.
pub proof fn lemma_product_of_multiset(s1: Seq<nat>, s2: Seq<nat>)
    requires
        s1.to_multiset() == s2.to_multiset(),
    ensures
        int_product(s1) == int_product(s2),
    decreases s1.len(),
{
    broadcast use group_multiset_axioms;

    to_multiset_len(s1);
    to_multiset_len(s2);
    if s1.len() > 0 {
        let last = s1.len() - 1;
        let a = s1[last];
        to_multiset_contains(s1, a);
        to_multiset_contains(s2, a);
        assert(s1.contains(a));
        let i = choose|i: int| 0 <= i < s2.len() && s2[i] == a;
        to_multiset_remove(s1, last);
        to_multiset_remove(s2, i);
        assert(s1.remove(last) =~= s1.drop_last());
        lemma_product_of_multiset(s1.drop_last(), s2.remove(i));
        lemma_product_remove(s2, i);
        lemma_mul_is_commutative(a as int, int_product(s2.remove(i)));
    }
}

/// The product of a sequence followed by another is the product of the two
/// products.
pub proof fn lemma_product_concat(a: Seq<nat>, b: Seq<nat>)
    ensures
        int_product(a + b) == int_product(a) * int_product(b),
    decreases b.len(),
{
    if b.len() == 0 {
        assert(a + b =~= a);
    } else {
        lemma_product_concat(a, b.drop_last());
        assert((a + b).drop_last() =~= a + b.drop_last());
        assert((a + b).last() == b.last());
        lemma_mul_is_associative(int_product(a), int_product(b.drop_last()), b.last() as int);
    }
}

/// Where what is read and what is left are, as multisets, what is written
/// and what was there, the products balance.
pub proof fn lemma_balanced(
    reads: Seq<nat>,
    finals: Seq<nat>,
    writes: Seq<nat>,
    inits: Seq<nat>,
    p: nat,
)
    requires
        p > 0,
        reads.to_multiset().add(finals.to_multiset()) == writes.to_multiset().add(
            inits.to_multiset(),
        ),
    ensures
        spec_balanced(reads, finals, writes, inits, p),
{
    lemma_multiset_commutative(reads, finals);
    lemma_multiset_commutative(writes, inits);
    lemma_product_of_multiset(reads + finals, writes + inits);
    lemma_product_concat(reads, finals);
    lemma_product_concat(writes, inits);
    lemma_product_reduces(reads, p);
    lemma_product_reduces(finals, p);
    lemma_product_reduces(writes, p);
    lemma_product_reduces(inits, p);
    lemma_mul_mod_noop_general(int_product(reads), int_product(finals), p as int);
    lemma_mul_mod_noop_general(int_product(writes), int_product(inits), p as int);
}

/// Whether the grand products of a memory balance: the product of what is
/// read times the product of what is left is the product of what is written
/// times the product of what was there.
pub open spec fn spec_balanced(
    reads: Seq<nat>,
    finals: Seq<nat>,
    writes: Seq<nat>,
    inits: Seq<nat>,
    p: nat,
) -> bool {
    field_mul(spec_product(reads, p), spec_product(finals, p), p) == field_mul(
        spec_product(writes, p),
        spec_product(inits, p),
        p,
    )
}

/// Whether the grand products of memory `k` of the trace `w` balance under
/// the challenges `gamma` and `tau`.
pub open spec fn spec_memory_balanced<F: JoltField, I: JoltInstruction>(
    w: SurgePolynomials<F>,
    k: int,
    c: nat,
    m: nat,
    gamma: nat,
    tau: nat,
) -> bool {
    spec_balanced(
        spec_memory_read_leaves(w, k, c, gamma, tau),
        spec_memory_final_leaves::<F, I>(w, k, c, m, gamma, tau),
        spec_memory_write_leaves(w, k, c, gamma, tau),
        spec_memory_init_leaves::<I>(k, c, m, gamma, tau, F::modulus()),
        F::modulus(),
    )
}

/// The product of the entries of `leaves`.
pub fn product<F: JoltField>(leaves: &Vec<F>) -> (r: F)
    ensures
        r.value() == spec_product(field_scalars(leaves@), F::modulus()),
{
    let ghost values = field_scalars(leaves@);
    let mut r = F::one();
    let mut i: usize = 0;
    proof {
        F::lemma_modulus_bound();
        lemma_small_mod(1, F::modulus());
        assert(values.take(0).len() == 0);
    }
    while i < leaves.len()
        invariant
            i <= leaves@.len(),
            values == field_scalars(leaves@),
            r.value() == spec_product(values.take(i as int), F::modulus()),
        decreases leaves@.len() - i,
    {
        proof {
            assert(values.take(i + 1).drop_last() =~= values.take(i as int));
            assert(values.take(i + 1).last() == leaves@[i as int].value());
        }
        r = r.mul(&leaves[i]);
        i += 1;
    }
    proof {
        assert(values.take(leaves@.len() as int) =~= values);
    }
    r
}

/// The log of the transcript when the challenges of memory checking are
/// drawn.
pub open spec fn spec_challenge_log(log: Seq<TranscriptEvent>) -> Seq<TranscriptEvent> {
    log.push(TranscriptEvent::Message(spec_memory_checking_protocol_name()))
}

/// The proof of memory checking for the transparent commitment scheme. It
/// holds nothing: the prover only absorbs the name of the argument and
/// draws the two challenges, as the verifier will; the verifier has the
/// trace in the commitments and recomputes the grand products of every
/// memory. Before that it rejects
/// where an opening that it took note of did not agree with its
/// commitments.
pub struct TransparentMemoryChecking;

impl<
    F: JoltField,
    T: Transcript<F>,
    I: JoltInstruction,
    const C: usize,
    const M: usize,
> MemoryCheckingProof<F, T, Transparent, I, C, M> for TransparentMemoryChecking {
    open spec fn is_proof_of(
        &self,
        setup: &(),
        polynomials: SurgePolynomials<F>,
        log: Seq<TranscriptEvent>,
    ) -> bool {
        true
    }

    open spec fn spec_prove_log(
        setup: &(),
        polynomials: SurgePolynomials<F>,
        log: Seq<TranscriptEvent>,
    ) -> Seq<TranscriptEvent> {
        spec_challenge_log(log).push(TranscriptEvent::Challenge(2))
    }

    open spec fn spec_verify(
        &self,
        setup: &(),
        commitments: SurgeStuff<MultilinearPolynomial<F>>,
        noted: Seq<NotedOpening<MultilinearPolynomial<F>>>,
        log: Seq<TranscriptEvent>,
    ) -> Result<(), ProofVerifyError> {
        let challenges = T::spec_challenges(spec_challenge_log(log), 2);
        if !spec_all_agree(noted) {
            Err(ProofVerifyError::InvalidOpeningProof)
        } else if !is_trace::<F, I>(commitments, C as nat, M as nat) {
            Err(ProofVerifyError::InternalError)
        } else if forall|k: int|
            0 <= k < spec_num_memories::<I>(C as nat, M as nat) ==> #[trigger] spec_memory_balanced::<
                F,
                I,
            >(commitments, k, C as nat, M as nat, challenges[0], challenges[1]) {
            Ok(())
        } else {
            Err(ProofVerifyError::MultisetMismatch)
        }
    }

    open spec fn spec_verify_log(
        &self,
        setup: &(),
        commitments: SurgeStuff<MultilinearPolynomial<F>>,
        noted: Seq<NotedOpening<MultilinearPolynomial<F>>>,
        log: Seq<TranscriptEvent>,
    ) -> Seq<TranscriptEvent> {
        if spec_all_agree(noted) && is_trace::<F, I>(commitments, C as nat, M as nat) {
            spec_challenge_log(log).push(TranscriptEvent::Challenge(2))
        } else {
            log
        }
    }

    open spec fn spec_verify_noted(
        &self,
        setup: &(),
        commitments: SurgeStuff<MultilinearPolynomial<F>>,
        noted: Seq<NotedOpening<MultilinearPolynomial<F>>>,
        log: Seq<TranscriptEvent>,
    ) -> Seq<NotedOpening<MultilinearPolynomial<F>>> {
        noted
    }

    fn prove_memory_checking(
        setup: &(),
        preprocessing: &SurgePreprocessing<F, I, C, M>,
        polynomials: &SurgePolynomials<F>,
        accumulator: &mut (),
        transcript: &mut T,
    ) -> (proof: Self) {
        transcript.append_message(memory_checking_protocol_name());
        let _ = transcript.challenge_vector(2);
        TransparentMemoryChecking
    }

    fn verify_memory_checking(
        preprocessing: &SurgePreprocessing<F, I, C, M>,
        setup: &(),
        proof: Self,
        commitments: &SurgeStuff<MultilinearPolynomial<F>>,
        accumulator: &mut CheckedOpenings<F>,
        transcript: &mut T,
    ) -> (res: Result<(), ProofVerifyError>) {
        let ghost drawn = T::spec_challenges(spec_challenge_log(transcript.log()), 2);
        if !accumulator.all_agree() {
            return Err(ProofVerifyError::InvalidOpeningProof);
        }
        if !check_trace::<F, I>(commitments, C, M) {
            return Err(ProofVerifyError::InternalError);
        }
        transcript.append_message(memory_checking_protocol_name());
        let challenges = transcript.challenge_vector(2);
        let gamma = challenges[0];
        let tau = challenges[1];
        proof {
            assert(field_scalars(challenges@)[0] == gamma.value());
            assert(field_scalars(challenges@)[1] == tau.value());
            assert(drawn[0] == gamma.value() && drawn[1] == tau.value());
        }
        let memories = num_memories::<I>(C, M);
        let mut balanced = true;
        let mut k: usize = 0;
        while k < memories
            invariant
                k <= memories,
                memories == spec_num_memories::<I>(C as nat, M as nat),
                is_trace::<F, I>(*commitments, C as nat, M as nat),
                balanced <==> forall|j: int|
                    0 <= j < k ==> #[trigger] spec_memory_balanced::<F, I>(
                        *commitments,
                        j,
                        C as nat,
                        M as nat,
                        gamma.value(),
                        tau.value(),
                    ),
            decreases memories - k,
        {
            let (reads, writes, inits, finals) = memory_leaves(
                preprocessing,
                commitments,
                k,
                &gamma,
                &tau,
            );
            let left = product(&reads).mul(&product(&finals));
            let right = product(&writes).mul(&product(&inits));
            if !left.equals(&right) {
                assert(!spec_memory_balanced::<F, I>(
                    *commitments,
                    k as int,
                    C as nat,
                    M as nat,
                    gamma.value(),
                    tau.value(),
                ));
                balanced = false;
            }
            k += 1;
        }
        if !balanced {
            return Err(ProofVerifyError::MultisetMismatch);
        }
        Ok(())
    }
}

/// The transparent commitments to a trace are a trace with the same
/// leaves.
proof fn lemma_commitments_are_the_trace<F: JoltField, T: Transcript<F>, I: JoltInstruction>(
    commitments: SurgeStuff<MultilinearPolynomial<F>>,
    w: SurgePolynomials<F>,
    c: nat,
    m: nat,
)
    requires
        is_trace::<F, I>(w, c, m),
        commits_to_trace::<F, T, Transparent>(commitments, w, &()),
    ensures
        is_trace::<F, I>(commitments, c, m),
        forall|k: int, gamma: nat, tau: nat|
            0 <= k < spec_num_memories::<I>(c, m) ==> {
                &&& #[trigger] spec_memory_read_leaves(commitments, k, c, gamma, tau)
                    == spec_memory_read_leaves(w, k, c, gamma, tau)
                &&& spec_memory_write_leaves(commitments, k, c, gamma, tau)
                    == spec_memory_write_leaves(w, k, c, gamma, tau)
                &&& spec_memory_final_leaves::<F, I>(commitments, k, c, m, gamma, tau)
                    == spec_memory_final_leaves::<F, I>(w, k, c, m, gamma, tau)
            },
{
    let memories = spec_num_memories::<I>(c, m);
    let held = commitments.spec_read_write_values();
    let polys = w.spec_read_write_values();
    assert forall|d: int| 0 <= d < c implies same_polynomial(
        #[trigger] commitments.dim@[d],
        w.dim@[d],
    ) by {
        assert(held[d] == commitments.dim@[d]);
        assert(polys[d] == w.dim@[d]);
        assert(<Transparent as CommitmentScheme<F, T>>::commits_to(&held[d], polys[d], &()));
    }
    assert forall|d: int| 0 <= d < c implies same_polynomial(
        #[trigger] commitments.read_cts@[d],
        w.read_cts@[d],
    ) by {
        assert(held[c + d] == commitments.read_cts@[d]);
        assert(polys[c + d] == w.read_cts@[d]);
        assert(<Transparent as CommitmentScheme<F, T>>::commits_to(&held[c + d], polys[c + d], &()));
    }
    assert forall|k: int| 0 <= k < memories implies same_polynomial(
        #[trigger] commitments.E_polys@[k],
        w.E_polys@[k],
    ) by {
        assert(held[c + c + k] == commitments.E_polys@[k]);
        assert(polys[c + c + k] == w.E_polys@[k]);
        assert(<Transparent as CommitmentScheme<F, T>>::commits_to(&held[c + c + k], polys[c + c + k], &()));
    }
    assert forall|d: int| 0 <= d < c implies same_polynomial(
        #[trigger] commitments.final_cts@[d],
        w.final_cts@[d],
    ) by {
        assert(<Transparent as CommitmentScheme<F, T>>::commits_to(&commitments.final_cts@[d], w.final_cts@[d], &()));
    }
    assert(spec_rows(commitments) == spec_rows(w));
    assert forall|k: int, gamma: nat, tau: nat| 0 <= k < memories implies {
        &&& #[trigger] spec_memory_read_leaves(commitments, k, c, gamma, tau)
            == spec_memory_read_leaves(w, k, c, gamma, tau)
        &&& spec_memory_write_leaves(commitments, k, c, gamma, tau) == spec_memory_write_leaves(
            w,
            k,
            c,
            gamma,
            tau,
        )
        &&& spec_memory_final_leaves::<F, I>(commitments, k, c, m, gamma, tau)
            == spec_memory_final_leaves::<F, I>(w, k, c, m, gamma, tau)
    } by {
        crate::memory::lemma_memory_index_in_range(k as nat, c, I::spec_num_subtables(c, m));
        let d = crate::memory::spec_memory_to_dimension_index(k as nat, c) as int;
        assert(same_polynomial(commitments.dim@[d], w.dim@[d]));
        assert(same_polynomial(commitments.read_cts@[d], w.read_cts@[d]));
        assert(same_polynomial(commitments.final_cts@[d], w.final_cts@[d]));
        assert(same_polynomial(commitments.E_polys@[k], w.E_polys@[k]));
    }
}

/// Transparent memory checking is complete on every trace, with any
/// transcript.
pub proof fn lemma_transparent_memory_checking_is_complete<
    F: JoltField,
    T: Transcript<F>,
    I: JoltInstruction,
    const C: usize,
    const M: usize,
>(w: SurgePolynomials<F>, log: Seq<TranscriptEvent>)
    ensures
        memory_checking_is_complete::<F, T, Transparent, I, C, M, TransparentMemoryChecking>(
            &(),
            w,
            log,
        ),
{
    F::lemma_modulus_bound();
    let challenges = T::spec_challenges(spec_challenge_log(log), 2);
    if trace_is_consistent::<F, I>(w, C as nat, M as nat) {
        assert forall|
            proof: TransparentMemoryChecking,
            commitments: SurgeStuff<MultilinearPolynomial<F>>,
            noted: Seq<NotedOpening<MultilinearPolynomial<F>>>,
        |
            MemoryCheckingProof::<F, T, Transparent, I, C, M>::is_proof_of(&proof, &(), w, log)
                && commits_to_trace::<F, T, Transparent>(commitments, w, &())
                && openings_are_honest::<F, T, Transparent>(
                noted,
                &(),
            ) implies #[trigger] MemoryCheckingProof::<F, T, Transparent, I, C, M>::spec_verify(
            &proof,
            &(),
            commitments,
            noted,
            log,
        ) == Ok::<(), ProofVerifyError>(()) by {
            lemma_honest_openings_agree::<F, T>(noted);
            lemma_commitments_are_the_trace::<F, T, I>(commitments, w, C as nat, M as nat);
            assert forall|k: int|
                0 <= k < spec_num_memories::<I>(
                    C as nat,
                    M as nat,
                ) implies #[trigger] spec_memory_balanced::<F, I>(
                commitments,
                k,
                C as nat,
                M as nat,
                challenges[0],
                challenges[1],
            ) by {
                let gamma = challenges[0];
                let tau = challenges[1];
                assert(spec_memory_read_leaves(commitments, k, C as nat, gamma, tau)
                    == spec_memory_read_leaves(w, k, C as nat, gamma, tau));
                assert(spec_memory_read_leaves(w, k, C as nat, gamma, tau).to_multiset().add(
                    spec_memory_final_leaves::<F, I>(
                        w,
                        k,
                        C as nat,
                        M as nat,
                        gamma,
                        tau,
                    ).to_multiset(),
                ) == spec_memory_write_leaves(w, k, C as nat, gamma, tau).to_multiset().add(
                    spec_memory_init_leaves::<I>(
                        k,
                        C as nat,
                        M as nat,
                        gamma,
                        tau,
                        F::modulus(),
                    ).to_multiset(),
                ));
                lemma_balanced(
                    spec_memory_read_leaves(w, k, C as nat, gamma, tau),
                    spec_memory_final_leaves::<F, I>(w, k, C as nat, M as nat, gamma, tau),
                    spec_memory_write_leaves(w, k, C as nat, gamma, tau),
                    spec_memory_init_leaves::<I>(k, C as nat, M as nat, gamma, tau, F::modulus()),
                    F::modulus(),
                );
            }
        }
    }
}

} // verus!
