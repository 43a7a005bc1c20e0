//! What a verifier rebuilds from opened scalars: the openings it computes by
//! itself, and the four families of memory tuples.

use vstd::prelude::*;
use crate::eq_poly::{identity_evaluate, spec_identity_evaluate};
use crate::field::{field_add, JoltField};
use crate::instruction::JoltInstruction;
use crate::memory::{
    lemma_memory_index_in_range, memory_to_dimension_index, memory_to_subtable_index, num_memories,
    spec_memory_to_dimension_index, spec_memory_to_subtable_index, spec_num_memories,
};
use crate::poly::field_scalars;
use crate::stuff::SurgeStuff;

verus! {

/// The openings of the slots of an instance at a point.
pub type SurgeOpenings<F> = SurgeStuff<F>;

/// A memory tuple: address, value and timestamp.
pub type MemoryTuple<F> = (F, F, F);

/// The canonical representatives of the entries of a tuple.
pub open spec fn tuple_values<F: JoltField>(tuple: MemoryTuple<F>) -> (nat, nat, nat) {
    (tuple.0.value(), tuple.1.value(), tuple.2.value())
}

/// Whether the openings that a verifier computes by itself are present, one
/// value opening for each subtable.
pub open spec fn has_verifier_openings<F: JoltField, I: JoltInstruction>(
    openings: SurgeOpenings<F>,
    c: nat,
    m: nat,
) -> bool {
    &&& openings.a_init_final is Some
    &&& openings.v_init_final is Some
    &&& openings.v_init_final->0@.len() == I::spec_num_subtables(c, m)
}

/// The tuple that memory `k` reads, from the openings.
pub open spec fn spec_read_tuple<F: JoltField>(openings: SurgeOpenings<F>, k: int, c: nat) -> (
    nat,
    nat,
    nat,
) {
    let d = spec_memory_to_dimension_index(k as nat, c) as int;
    (openings.dim@[d].value(), openings.E_polys@[k].value(), openings.read_cts@[d].value())
}

/// The tuple that memory `k` writes: the tuple read, its timestamp raised
/// by one.
pub open spec fn spec_write_tuple<F: JoltField>(openings: SurgeOpenings<F>, k: int, c: nat) -> (
    nat,
    nat,
    nat,
) {
    let d = spec_memory_to_dimension_index(k as nat, c) as int;
    (
        openings.dim@[d].value(),
        openings.E_polys@[k].value(),
        field_add(openings.read_cts@[d].value(), 1, F::modulus()),
    )
}

/// The tuple that memory `k` starts with: the timestamp is 0.
pub open spec fn spec_init_tuple<F: JoltField>(openings: SurgeOpenings<F>, k: int, c: nat) -> (
    nat,
    nat,
    nat,
) {
    let s = spec_memory_to_subtable_index(k as nat, c) as int;
    (openings.a_init_final->0.value(), openings.v_init_final->0@[s].value(), 0)
}

/// The tuple that memory `k` ends with: the timestamp is the final counter.
pub open spec fn spec_final_tuple<F: JoltField>(openings: SurgeOpenings<F>, k: int, c: nat) -> (
    nat,
    nat,
    nat,
) {
    let d = spec_memory_to_dimension_index(k as nat, c) as int;
    let s = spec_memory_to_subtable_index(k as nat, c) as int;
    (
        openings.a_init_final->0.value(),
        openings.v_init_final->0@[s].value(),
        openings.final_cts@[d].value(),
    )
}

/// Where there is a memory, there is a dimension.
proof fn lemma_memory_has_dimension(k: nat, c: nat, num_subtables: nat)
    requires
        k < c * num_subtables,
    ensures
        c >= 1,
{
    if c == 0 {
        assert(0 * num_subtables == 0) by (nonlinear_arith);
    }
}

/// The tuple that a memory writes is the tuple that it reads, with the
/// timestamp raised by one.
pub proof fn lemma_write_tuple_follows_read_tuple<F: JoltField>(
    openings: SurgeOpenings<F>,
    k: int,
    c: nat,
)
    ensures
        spec_write_tuple(openings, k, c).0 == spec_read_tuple(openings, k, c).0,
        spec_write_tuple(openings, k, c).1 == spec_read_tuple(openings, k, c).1,
        spec_write_tuple(openings, k, c).2 == field_add(
            spec_read_tuple(openings, k, c).2,
            1,
            F::modulus(),
        ),
{
}

/// Computes the openings of the initial and final rows that need no prover:
/// the address is the identity map and the values are the subtables, both
/// public, so the verifier evaluates their multilinear extensions at
/// `r_init_final` itself. Every other slot stays as it is.
pub fn compute_verifier_openings<F: JoltField, I: JoltInstruction>(
    openings: &mut SurgeOpenings<F>,
    r_init_final: &[F],
    c: usize,
    m: usize,
)
    ensures
        final(openings).dim == old(openings).dim,
        final(openings).read_cts == old(openings).read_cts,
        final(openings).E_polys == old(openings).E_polys,
        final(openings).final_cts == old(openings).final_cts,
        has_verifier_openings::<F, I>(*final(openings), c as nat, m as nat),
        final(openings).a_init_final->0.value() == spec_identity_evaluate(
            field_scalars(r_init_final@),
            F::modulus(),
        ),
        forall|k: int|
            0 <= k < I::spec_num_subtables(c as nat, m as nat) ==> (
            #[trigger] final(openings).v_init_final->0@[k]).value() == I::spec_subtable_mle(
                k as nat,
                field_scalars(r_init_final@),
                c as nat,
                m as nat,
                F::modulus(),
            ),
{
    let address = identity_evaluate(r_init_final);
    let n: usize = I::num_subtables(c, m);
    let mut values: Vec<F> = Vec::new();
    let mut k: usize = 0;
    while k < n
        invariant
            k <= n,
            n == I::spec_num_subtables(c as nat, m as nat),
            values@.len() == k,
            forall|j: int|
                0 <= j < k ==> (#[trigger] values@[j]).value() == I::spec_subtable_mle(
                    j as nat,
                    field_scalars(r_init_final@),
                    c as nat,
                    m as nat,
                    F::modulus(),
                ),
        decreases n - k,
    {
        let value = I::evaluate_subtable_mle::<F>(k, r_init_final, c, m);
        values.push(value);
        k += 1;
    }
    openings.a_init_final = Some(address);
    openings.v_init_final = Some(values);
}

/// The tuples that the memories read, one for each memory.
pub fn read_tuples<F: JoltField, I: JoltInstruction>(
    openings: &SurgeOpenings<F>,
    c: usize,
    m: usize,
) -> (tuples: Vec<MemoryTuple<F>>)
    requires
        spec_num_memories::<I>(c as nat, m as nat) <= usize::MAX,
        openings.has_shape(c as nat, spec_num_memories::<I>(c as nat, m as nat)),
    ensures
        tuples@.len() == spec_num_memories::<I>(c as nat, m as nat),
        forall|k: int|
            0 <= k < tuples@.len() ==> tuple_values(#[trigger] tuples@[k]) == spec_read_tuple(
                *openings,
                k,
                c as nat,
            ),
{
    let memories = num_memories::<I>(c, m);
    let mut tuples: Vec<MemoryTuple<F>> = Vec::new();
    let mut k: usize = 0;
    while k < memories
        invariant
            k <= memories,
            memories == spec_num_memories::<I>(c as nat, m as nat),
            openings.has_shape(c as nat, memories as nat),
            tuples@.len() == k,
            forall|j: int|
                0 <= j < k ==> tuple_values(#[trigger] tuples@[j]) == spec_read_tuple(
                    *openings,
                    j,
                    c as nat,
                ),
        decreases memories - k,
    {
        proof {
            lemma_memory_has_dimension(k as nat, c as nat, I::spec_num_subtables(c as nat, m as nat));
            lemma_memory_index_in_range(k as nat, c as nat, I::spec_num_subtables(c as nat, m as nat));
        }
        let d = memory_to_dimension_index(k, c);
        tuples.push((openings.dim[d], openings.E_polys[k], openings.read_cts[d]));
        k += 1;
    }
    tuples
}

/// The tuples that the memories write, one for each memory: what was read,
/// with the timestamp raised by one.
pub fn write_tuples<F: JoltField, I: JoltInstruction>(
    openings: &SurgeOpenings<F>,
    c: usize,
    m: usize,
) -> (tuples: Vec<MemoryTuple<F>>)
    requires
        spec_num_memories::<I>(c as nat, m as nat) <= usize::MAX,
        openings.has_shape(c as nat, spec_num_memories::<I>(c as nat, m as nat)),
    ensures
        tuples@.len() == spec_num_memories::<I>(c as nat, m as nat),
        forall|k: int|
            0 <= k < tuples@.len() ==> tuple_values(#[trigger] tuples@[k]) == spec_write_tuple(
                *openings,
                k,
                c as nat,
            ),
{
    let memories = num_memories::<I>(c, m);
    let one = F::one();
    let mut tuples: Vec<MemoryTuple<F>> = Vec::new();
    let mut k: usize = 0;
    while k < memories
        invariant
            k <= memories,
            one.value() == 1,
            memories == spec_num_memories::<I>(c as nat, m as nat),
            openings.has_shape(c as nat, memories as nat),
            tuples@.len() == k,
            forall|j: int|
                0 <= j < k ==> tuple_values(#[trigger] tuples@[j]) == spec_write_tuple(
                    *openings,
                    j,
                    c as nat,
                ),
        decreases memories - k,
    {
        proof {
            lemma_memory_has_dimension(k as nat, c as nat, I::spec_num_subtables(c as nat, m as nat));
            lemma_memory_index_in_range(k as nat, c as nat, I::spec_num_subtables(c as nat, m as nat));
        }
        let d = memory_to_dimension_index(k, c);
        tuples.push((openings.dim[d], openings.E_polys[k], openings.read_cts[d].add(&one)));
        k += 1;
    }
    tuples
}

/// The tuples that the memories start with, one for each memory.
pub fn init_tuples<F: JoltField, I: JoltInstruction>(
    openings: &SurgeOpenings<F>,
    c: usize,
    m: usize,
) -> (tuples: Vec<MemoryTuple<F>>)
    requires
        spec_num_memories::<I>(c as nat, m as nat) <= usize::MAX,
        has_verifier_openings::<F, I>(*openings, c as nat, m as nat),
    ensures
        tuples@.len() == spec_num_memories::<I>(c as nat, m as nat),
        forall|k: int|
            0 <= k < tuples@.len() ==> tuple_values(#[trigger] tuples@[k]) == spec_init_tuple(
                *openings,
                k,
                c as nat,
            ),
{
    let memories = num_memories::<I>(c, m);
    let zero = F::zero();
    let mut tuples: Vec<MemoryTuple<F>> = Vec::new();
    match (&openings.a_init_final, &openings.v_init_final) {
        (Some(a_init), Some(v_init)) => {
            let mut k: usize = 0;
            while k < memories
                invariant
                    k <= memories,
                    zero.value() == 0,
                    memories == spec_num_memories::<I>(c as nat, m as nat),
                    openings.a_init_final == Some(*a_init),
                    openings.v_init_final == Some(*v_init),
                    v_init@.len() == I::spec_num_subtables(c as nat, m as nat),
                    tuples@.len() == k,
                    forall|j: int|
                        0 <= j < k ==> tuple_values(#[trigger] tuples@[j]) == spec_init_tuple(
                            *openings,
                            j,
                            c as nat,
                        ),
                decreases memories - k,
            {
                proof {
                    lemma_memory_has_dimension(
                        k as nat,
                        c as nat,
                        I::spec_num_subtables(c as nat, m as nat),
                    );
                    lemma_memory_index_in_range(
                        k as nat,
                        c as nat,
                        I::spec_num_subtables(c as nat, m as nat),
                    );
                }
                let s = memory_to_subtable_index(k, c);
                tuples.push((*a_init, v_init[s], zero));
                k += 1;
            }
        },
        _ => {
            proof {
                assert(false);
            }
        },
    }
    tuples
}

/// The tuples that the memories end with, one for each memory.
pub fn final_tuples<F: JoltField, I: JoltInstruction>(
    openings: &SurgeOpenings<F>,
    c: usize,
    m: usize,
) -> (tuples: Vec<MemoryTuple<F>>)
    requires
        spec_num_memories::<I>(c as nat, m as nat) <= usize::MAX,
        openings.has_shape(c as nat, spec_num_memories::<I>(c as nat, m as nat)),
        has_verifier_openings::<F, I>(*openings, c as nat, m as nat),
    ensures
        tuples@.len() == spec_num_memories::<I>(c as nat, m as nat),
        forall|k: int|
            0 <= k < tuples@.len() ==> tuple_values(#[trigger] tuples@[k]) == spec_final_tuple(
                *openings,
                k,
                c as nat,
            ),
{
    let memories = num_memories::<I>(c, m);
    let mut tuples: Vec<MemoryTuple<F>> = Vec::new();
    match (&openings.a_init_final, &openings.v_init_final) {
        (Some(a_init), Some(v_init)) => {
            let mut k: usize = 0;
            while k < memories
                invariant
                    k <= memories,
                    memories == spec_num_memories::<I>(c as nat, m as nat),
                    openings.has_shape(c as nat, memories as nat),
                    openings.a_init_final == Some(*a_init),
                    openings.v_init_final == Some(*v_init),
                    v_init@.len() == I::spec_num_subtables(c as nat, m as nat),
                    tuples@.len() == k,
                    forall|j: int|
                        0 <= j < k ==> tuple_values(#[trigger] tuples@[j]) == spec_final_tuple(
                            *openings,
                            j,
                            c as nat,
                        ),
                decreases memories - k,
            {
                proof {
                    lemma_memory_has_dimension(
                        k as nat,
                        c as nat,
                        I::spec_num_subtables(c as nat, m as nat),
                    );
                    lemma_memory_index_in_range(
                        k as nat,
                        c as nat,
                        I::spec_num_subtables(c as nat, m as nat),
                    );
                }
                let d = memory_to_dimension_index(k, c);
                let s = memory_to_subtable_index(k, c);
                tuples.push((*a_init, v_init[s], openings.final_cts[d]));
                k += 1;
            }
        },
        _ => {
            proof {
                assert(false);
            }
        },
    }
    tuples
}

} // verus!
