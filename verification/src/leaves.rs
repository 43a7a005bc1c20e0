//! The leaves of the memory-checking argument: the fingerprints of what each
//! memory reads, writes, starts with and ends with.

use vstd::prelude::*;
use vstd::multiset::*;
use vstd::seq_lib::*;
use crate::field::{field_add, field_mul, field_sub, lemma_sub_mod_left, JoltField};
use crate::fingerprint::{
    fingerprint_with_square, lemma_fingerprint_of_residues, lemma_fingerprint_shift,
    lemma_write_fingerprint, spec_fingerprint,
};
use crate::instruction::JoltInstruction;
use crate::parallel::par_map_range;
use crate::memory::{
    lemma_memory_index_in_range, memory_to_dimension_index, memory_to_subtable_index, num_memories,
    spec_memory_to_dimension_index, spec_memory_to_subtable_index, spec_num_memories,
};
use crate::poly::{field_scalars, u16_scalars, u32_scalars, MultilinearPolynomial};
use crate::preprocessing::{spec_materialized_subtable, SurgePreprocessing};
use crate::math::{spec_ceil_log2, spec_next_power_of_two};
use crate::witness::{
    count_before, is_witness, spec_access_sequences, spec_dimension_addresses, spec_final_counts,
    spec_lookup_values, spec_read_counts, valid_access_sequences, SurgePolynomials,
};

verus! {

/// The fingerprints of the reads of one memory: in each row the address,
/// the value observed and the counter found.
pub open spec fn spec_read_leaves(
    addresses: Seq<nat>,
    values: Seq<nat>,
    counts: Seq<nat>,
    gamma: nat,
    tau: nat,
    p: nat,
) -> Seq<nat> {
    Seq::new(
        addresses.len(),
        |row: int| spec_fingerprint(addresses[row], values[row], counts[row], gamma, tau, p),
    )
}

/// The fingerprints of the writes of one memory: in each row the address,
/// the value observed and the counter found, plus one.
pub open spec fn spec_write_leaves(
    addresses: Seq<nat>,
    values: Seq<nat>,
    counts: Seq<nat>,
    gamma: nat,
    tau: nat,
    p: nat,
) -> Seq<nat> {
    Seq::new(
        addresses.len(),
        |row: int| spec_fingerprint(addresses[row], values[row], counts[row] + 1, gamma, tau, p),
    )
}

/// The fingerprints of the initial state of one memory: each address with
/// the table's value and the counter 0.
pub open spec fn spec_init_leaves(table: Seq<u32>, gamma: nat, tau: nat, p: nat) -> Seq<nat> {
    Seq::new(
        table.len(),
        |a: int| spec_fingerprint(a as nat, table[a] as nat, 0, gamma, tau, p),
    )
}

/// The fingerprints of the final state of one memory: each address with the
/// table's value and its final counter.
pub open spec fn spec_final_leaves(
    table: Seq<u32>,
    final_counts: Seq<nat>,
    gamma: nat,
    tau: nat,
    p: nat,
) -> Seq<nat> {
    Seq::new(
        table.len(),
        |a: int| spec_fingerprint(a as nat, table[a] as nat, final_counts[a], gamma, tau, p),
    )
}

/// The state of one memory after the first `upto` rows, as fingerprints.
pub open spec fn spec_state_leaves(
    addresses: Seq<nat>,
    upto: int,
    table: Seq<u32>,
    gamma: nat,
    tau: nat,
    p: nat,
) -> Seq<nat> {
    Seq::new(
        table.len(),
        |a: int|
            spec_fingerprint(
                a as nat,
                table[a] as nat,
                count_before(addresses, upto, a as nat),
                gamma,
                tau,
                p,
            ),
    )
}

/// After any number of rows, what was read together with the state reached
/// is what was written together with the initial state.
proof fn lemma_multiset_identity_upto(
    addresses: Seq<nat>,
    upto: int,
    table: Seq<u32>,
    gamma: nat,
    tau: nat,
    p: nat,
)
    requires
        0 <= upto <= addresses.len(),
        forall|row: int| 0 <= row < addresses.len() ==> addresses[row] < table.len(),
    ensures
        ({
            let values = spec_lookup_values(addresses, table);
            let counts = spec_read_counts(addresses);
            spec_read_leaves(addresses, values, counts, gamma, tau, p).take(upto).to_multiset().add(
                spec_state_leaves(addresses, upto, table, gamma, tau, p).to_multiset(),
            ) == spec_write_leaves(addresses, values, counts, gamma, tau, p).take(
                upto,
            ).to_multiset().add(spec_init_leaves(table, gamma, tau, p).to_multiset())
        }),
    decreases upto,
{
    broadcast use group_multiset_axioms;

    let values = spec_lookup_values(addresses, table);
    let counts = spec_read_counts(addresses);
    let reads = spec_read_leaves(addresses, values, counts, gamma, tau, p);
    let writes = spec_write_leaves(addresses, values, counts, gamma, tau, p);
    let init = spec_init_leaves(table, gamma, tau, p);
    let state = spec_state_leaves(addresses, upto, table, gamma, tau, p);
    if upto == 0 {
        assert(state =~= init);
        assert(reads.take(0) =~= Seq::<nat>::empty());
        assert(writes.take(0) =~= Seq::<nat>::empty());
        assert(reads.take(0).to_multiset() =~= writes.take(0).to_multiset());
    } else {
        let n = upto - 1;
        lemma_multiset_identity_upto(addresses, n, table, gamma, tau, p);
        let before = spec_state_leaves(addresses, n, table, gamma, tau, p);
        let a = addresses[n];
        let r = reads[n];
        let w = writes[n];
        assert(reads.take(upto) =~= reads.take(n).push(r));
        assert(writes.take(upto) =~= writes.take(n).push(w));
        assert(before[a as int] == r);
        assert(state =~= before.update(a as int, w));
        to_multiset_build(reads.take(n), r);
        to_multiset_build(writes.take(n), w);
        to_multiset_update(before, a as int, w);
        to_multiset_contains(before, r);
        assert(before.contains(r));
        let rm = reads.take(n).to_multiset();
        let wm = writes.take(n).to_multiset();
        let bm = before.to_multiset();
        let im = init.to_multiset();
        assert(rm.add(bm) == wm.add(im));
        assert(rm.insert(r).add(bm.insert(w).remove(r)) =~= wm.insert(w).add(im)) by {
            assert forall|x: nat|
                rm.insert(r).add(bm.insert(w).remove(r)).count(x) == wm.insert(w).add(im).count(
                    x,
                ) by {
                assert(rm.add(bm).count(x) == wm.add(im).count(x));
            }
        }
    }
}

/// For a memory whose counters are those of its address sequence, the
/// fingerprints read together with the final ones are, as multisets, the
/// fingerprints written together with the initial ones.
pub proof fn lemma_multiset_identity(
    addresses: Seq<nat>,
    table: Seq<u32>,
    gamma: nat,
    tau: nat,
    p: nat,
)
    requires
        forall|row: int| 0 <= row < addresses.len() ==> addresses[row] < table.len(),
    ensures
        ({
            let values = spec_lookup_values(addresses, table);
            let counts = spec_read_counts(addresses);
            let final_counts = spec_final_counts(addresses, table.len());
            spec_read_leaves(addresses, values, counts, gamma, tau, p).to_multiset().add(
                spec_final_leaves(table, final_counts, gamma, tau, p).to_multiset(),
            ) == spec_write_leaves(addresses, values, counts, gamma, tau, p).to_multiset().add(
                spec_init_leaves(table, gamma, tau, p).to_multiset(),
            )
        }),
{
    let values = spec_lookup_values(addresses, table);
    let counts = spec_read_counts(addresses);
    let final_counts = spec_final_counts(addresses, table.len());
    let reads = spec_read_leaves(addresses, values, counts, gamma, tau, p);
    let writes = spec_write_leaves(addresses, values, counts, gamma, tau, p);
    let n = addresses.len() as int;
    lemma_multiset_identity_upto(addresses, n, table, gamma, tau, p);
    assert(reads.take(n) =~= reads);
    assert(writes.take(n) =~= writes);
    assert(spec_state_leaves(addresses, n, table, gamma, tau, p) =~= spec_final_leaves(
        table,
        final_counts,
        gamma,
        tau,
        p,
    ));
}

/// Whether `polys` has the form of a trace of an instance with `c`
/// dimensions and subtables of `m` entries: addresses as 16-bit scalars,
/// counters and values as 32-bit scalars, one entry for each row in the
/// slots touched in every row, and one counter for each address in
/// `final_cts`.
pub open spec fn is_trace<F: JoltField, I: JoltInstruction>(
    polys: SurgePolynomials<F>,
    c: nat,
    m: nat,
) -> bool {
    &&& c >= 1
    &&& polys.has_shape(c, spec_num_memories::<I>(c, m))
    &&& forall|d: int|
        0 <= d < c ==> (#[trigger] polys.dim@[d]) is U16Scalars && polys.dim@[d].spec_len()
            == spec_rows(polys)
    &&& forall|d: int|
        0 <= d < c ==> (#[trigger] polys.read_cts@[d]) is U32Scalars && polys.read_cts@[d].spec_len()
            == spec_rows(polys)
    &&& forall|d: int|
        0 <= d < c ==> (#[trigger] polys.final_cts@[d]) is U32Scalars
            && polys.final_cts@[d].spec_len() == m
    &&& forall|k: int|
        0 <= k < spec_num_memories::<I>(c, m) ==> (#[trigger] polys.E_polys@[k]) is U32Scalars
            && polys.E_polys@[k].spec_len() == spec_rows(polys)
}

/// The number of rows of a trace.
pub open spec fn spec_rows<F: JoltField>(polys: SurgePolynomials<F>) -> nat {
    polys.dim@[0].spec_len()
}

/// The fingerprints of the reads of memory `k`.
pub open spec fn spec_memory_read_leaves<F: JoltField>(
    polys: SurgePolynomials<F>,
    k: int,
    c: nat,
    gamma: nat,
    tau: nat,
) -> Seq<nat> {
    let d = spec_memory_to_dimension_index(k as nat, c) as int;
    spec_read_leaves(
        polys.dim@[d].scalars(),
        polys.E_polys@[k].scalars(),
        polys.read_cts@[d].scalars(),
        gamma,
        tau,
        F::modulus(),
    )
}

/// The fingerprints of the writes of memory `k`.
pub open spec fn spec_memory_write_leaves<F: JoltField>(
    polys: SurgePolynomials<F>,
    k: int,
    c: nat,
    gamma: nat,
    tau: nat,
) -> Seq<nat> {
    let d = spec_memory_to_dimension_index(k as nat, c) as int;
    spec_write_leaves(
        polys.dim@[d].scalars(),
        polys.E_polys@[k].scalars(),
        polys.read_cts@[d].scalars(),
        gamma,
        tau,
        F::modulus(),
    )
}

/// The fingerprints of the initial state of memory `k`.
pub open spec fn spec_memory_init_leaves<I: JoltInstruction>(
    k: int,
    c: nat,
    m: nat,
    gamma: nat,
    tau: nat,
    p: nat,
) -> Seq<nat> {
    spec_init_leaves(
        spec_materialized_subtable::<I>(spec_memory_to_subtable_index(k as nat, c), c, m),
        gamma,
        tau,
        p,
    )
}

/// The fingerprints of the final state of memory `k`.
pub open spec fn spec_memory_final_leaves<F: JoltField, I: JoltInstruction>(
    polys: SurgePolynomials<F>,
    k: int,
    c: nat,
    m: nat,
    gamma: nat,
    tau: nat,
) -> Seq<nat> {
    let d = spec_memory_to_dimension_index(k as nat, c) as int;
    spec_final_leaves(
        spec_materialized_subtable::<I>(spec_memory_to_subtable_index(k as nat, c), c, m),
        polys.final_cts@[d].scalars(),
        gamma,
        tau,
        F::modulus(),
    )
}

/// The groups of the first batch of leaves: for each memory its reads, then
/// its writes.
pub open spec fn spec_read_write_groups<F: JoltField, I: JoltInstruction>(
    polys: SurgePolynomials<F>,
    c: nat,
    m: nat,
    gamma: nat,
    tau: nat,
) -> Seq<Seq<nat>> {
    Seq::new(
        2 * spec_num_memories::<I>(c, m),
        |g: int|
            if g % 2 == 0 {
                spec_memory_read_leaves(polys, g / 2, c, gamma, tau)
            } else {
                spec_memory_write_leaves(polys, g / 2, c, gamma, tau)
            },
    )
}

/// The groups of the second batch of leaves: for each memory its initial
/// state, then its final state.
pub open spec fn spec_init_final_groups<F: JoltField, I: JoltInstruction>(
    polys: SurgePolynomials<F>,
    c: nat,
    m: nat,
    gamma: nat,
    tau: nat,
) -> Seq<Seq<nat>> {
    Seq::new(
        2 * spec_num_memories::<I>(c, m),
        |g: int|
            if g % 2 == 0 {
                spec_memory_init_leaves::<I>(g / 2, c, m, gamma, tau, F::modulus())
            } else {
                spec_memory_final_leaves::<F, I>(polys, g / 2, c, m, gamma, tau)
            },
    )
}

/// The fingerprints of the reads of one memory.
fn read_fingerprints<F: JoltField>(
    dim: &Vec<u16>,
    values: &Vec<u32>,
    counts: &Vec<u32>,
    gamma: &F,
    gamma_squared: &F,
    tau: &F,
) -> (leaves: Vec<F>)
    requires
        values@.len() == dim@.len(),
        counts@.len() == dim@.len(),
        gamma_squared.value() == field_mul(gamma.value(), gamma.value(), F::modulus()),
    ensures
        field_scalars(leaves@) == spec_read_leaves(
            u16_scalars(dim@),
            u32_scalars(values@),
            u32_scalars(counts@),
            gamma.value(),
            tau.value(),
            F::modulus(),
        ),
{
    let mut leaves: Vec<F> = Vec::new();
    let mut row: usize = 0;
    while row < dim.len()
        invariant
            row <= dim@.len(),
            values@.len() == dim@.len(),
            counts@.len() == dim@.len(),
            gamma_squared.value() == field_mul(gamma.value(), gamma.value(), F::modulus()),
            leaves@.len() == row,
            forall|j: int|
                0 <= j < row ==> (#[trigger] leaves@[j]).value() == spec_fingerprint(
                    dim@[j] as nat,
                    values@[j] as nat,
                    counts@[j] as nat,
                    gamma.value(),
                    tau.value(),
                    F::modulus(),
                ),
        decreases dim@.len() - row,
    {
        let a = F::from_u64(dim[row] as u64);
        let v = F::from_u64(values[row] as u64);
        let t = F::from_u64(counts[row] as u64);
        let leaf = fingerprint_with_square(&a, &v, &t, gamma, gamma_squared, tau);
        proof {
            F::lemma_modulus_bound();
            lemma_fingerprint_of_residues(
                dim@[row as int] as nat,
                values@[row as int] as nat,
                counts@[row as int] as nat,
                gamma.value(),
                tau.value(),
                F::modulus(),
            );
        }
        leaves.push(leaf);
        row += 1;
    }
    assert(field_scalars(leaves@) =~= spec_read_leaves(
        u16_scalars(dim@),
        u32_scalars(values@),
        u32_scalars(counts@),
        gamma.value(),
        tau.value(),
        F::modulus(),
    ));
    leaves
}

/// The fingerprints of the writes of one memory, from those of its reads:
/// each is the read fingerprint plus `gamma^2`.
fn write_fingerprints<F: JoltField>(
    reads: &Vec<F>,
    gamma_squared: &F,
    Ghost(addresses): Ghost<Seq<nat>>,
    Ghost(values): Ghost<Seq<nat>>,
    Ghost(counts): Ghost<Seq<nat>>,
    Ghost(gamma): Ghost<nat>,
    Ghost(tau): Ghost<nat>,
) -> (leaves: Vec<F>)
    requires
        gamma_squared.value() == field_mul(gamma, gamma, F::modulus()),
        field_scalars(reads@) == spec_read_leaves(
            addresses,
            values,
            counts,
            gamma,
            tau,
            F::modulus(),
        ),
    ensures
        field_scalars(leaves@) == spec_write_leaves(
            addresses,
            values,
            counts,
            gamma,
            tau,
            F::modulus(),
        ),
{
    let ghost expected = spec_read_leaves(addresses, values, counts, gamma, tau, F::modulus());
    assert(field_scalars(reads@).len() == expected.len());
    let mut leaves: Vec<F> = Vec::new();
    let mut row: usize = 0;
    while row < reads.len()
        invariant
            row <= reads@.len(),
            reads@.len() == addresses.len(),
            gamma_squared.value() == field_mul(gamma, gamma, F::modulus()),
            field_scalars(reads@) == expected,
            expected == spec_read_leaves(addresses, values, counts, gamma, tau, F::modulus()),
            leaves@.len() == row,
            forall|j: int|
                0 <= j < row ==> (#[trigger] leaves@[j]).value() == spec_fingerprint(
                    addresses[j],
                    values[j],
                    counts[j] + 1,
                    gamma,
                    tau,
                    F::modulus(),
                ),
        decreases reads@.len() - row,
    {
        let leaf = reads[row].add(gamma_squared);
        proof {
            F::lemma_modulus_bound();
            assert(field_scalars(reads@)[row as int] == expected[row as int]);
            lemma_write_fingerprint(
                addresses[row as int],
                values[row as int],
                counts[row as int],
                gamma,
                tau,
                F::modulus(),
            );
        }
        leaves.push(leaf);
        row += 1;
    }
    assert(field_scalars(leaves@) =~= spec_write_leaves(
        addresses,
        values,
        counts,
        gamma,
        tau,
        F::modulus(),
    ));
    leaves
}

/// The fingerprints of the initial state of a memory that reads subtable
/// `subtable`.
fn init_fingerprints<F: JoltField, I: JoltInstruction, const C: usize, const M: usize>(
    preprocessing: &SurgePreprocessing<F, I, C, M>,
    subtable: usize,
    gamma: &F,
    tau: &F,
) -> (leaves: Vec<F>)
    requires
        subtable < I::spec_num_subtables(C as nat, M as nat),
    ensures
        field_scalars(leaves@) == spec_init_leaves(
            spec_materialized_subtable::<I>(subtable as nat, C as nat, M as nat),
            gamma.value(),
            tau.value(),
            F::modulus(),
        ),
{
    let ghost table = spec_materialized_subtable::<I>(subtable as nat, C as nat, M as nat);
    let mut leaves: Vec<F> = Vec::new();
    let mut a: usize = 0;
    while a < M
        invariant
            a <= M,
            subtable < I::spec_num_subtables(C as nat, M as nat),
            table == spec_materialized_subtable::<I>(subtable as nat, C as nat, M as nat),
            leaves@.len() == a,
            forall|j: int|
                0 <= j < a ==> (#[trigger] leaves@[j]).value() == spec_fingerprint(
                    j as nat,
                    table[j] as nat,
                    0,
                    gamma.value(),
                    tau.value(),
                    F::modulus(),
                ),
        decreases M - a,
    {
        let entry = preprocessing.entry(subtable, a);
        let v = F::from_u64(entry as u64);
        let address = F::from_u64(a as u64);
        let leaf = v.mul(gamma).add(&address).sub(tau);
        proof {
            F::lemma_modulus_bound();
            let p = F::modulus() as int;
            let g = gamma.value() as int;
            vstd::arithmetic::div_mod::lemma_mul_mod_noop_left(entry as int, g, p);
            vstd::arithmetic::div_mod::lemma_add_mod_noop(entry * g, a as int, p);
            lemma_sub_mod_left(entry * g + a, tau.value() as int, p);
            assert(0 * (g * g) == 0);
        }
        leaves.push(leaf);
        a += 1;
    }
    assert(field_scalars(leaves@) =~= spec_init_leaves(
        table,
        gamma.value(),
        tau.value(),
        F::modulus(),
    ));
    leaves
}

/// The fingerprints of the final state of one memory, from those of its
/// initial state: each is the initial fingerprint plus the final counter
/// times `gamma^2`.
fn final_fingerprints<F: JoltField>(
    init: &Vec<F>,
    final_counts: &Vec<u32>,
    gamma_squared: &F,
    Ghost(table): Ghost<Seq<u32>>,
    Ghost(gamma): Ghost<nat>,
    Ghost(tau): Ghost<nat>,
) -> (leaves: Vec<F>)
    requires
        final_counts@.len() == table.len(),
        gamma_squared.value() == field_mul(gamma, gamma, F::modulus()),
        field_scalars(init@) == spec_init_leaves(table, gamma, tau, F::modulus()),
    ensures
        field_scalars(leaves@) == spec_final_leaves(
            table,
            u32_scalars(final_counts@),
            gamma,
            tau,
            F::modulus(),
        ),
{
    let ghost expected = spec_init_leaves(table, gamma, tau, F::modulus());
    assert(field_scalars(init@).len() == expected.len());
    let mut leaves: Vec<F> = Vec::new();
    let mut a: usize = 0;
    while a < init.len()
        invariant
            a <= init@.len(),
            init@.len() == table.len(),
            final_counts@.len() == table.len(),
            gamma_squared.value() == field_mul(gamma, gamma, F::modulus()),
            field_scalars(init@) == expected,
            expected == spec_init_leaves(table, gamma, tau, F::modulus()),
            leaves@.len() == a,
            forall|j: int|
                0 <= j < a ==> (#[trigger] leaves@[j]).value() == spec_fingerprint(
                    j as nat,
                    table[j] as nat,
                    final_counts@[j] as nat,
                    gamma,
                    tau,
                    F::modulus(),
                ),
        decreases init@.len() - a,
    {
        let count = F::from_u64(final_counts[a] as u64);
        let leaf = init[a].add(&count.mul(gamma_squared));
        proof {
            F::lemma_modulus_bound();
            let p = F::modulus() as int;
            assert(field_scalars(init@)[a as int] == expected[a as int]);
            vstd::arithmetic::div_mod::lemma_mul_mod_noop_left(
                final_counts@[a as int] as int,
                gamma_squared.value() as int,
                p,
            );
            lemma_fingerprint_shift(
                a as nat,
                table[a as int] as nat,
                0,
                final_counts@[a as int] as nat,
                gamma,
                tau,
                F::modulus(),
            );
        }
        leaves.push(leaf);
        a += 1;
    }
    assert(field_scalars(leaves@) =~= spec_final_leaves(
        table,
        u32_scalars(final_counts@),
        gamma,
        tau,
        F::modulus(),
    ));
    leaves
}

/// Appends a copy of every element of `src` to `dst`.
fn append_copy<F: JoltField>(dst: &mut Vec<F>, src: &Vec<F>)
    ensures
        final(dst)@ == old(dst)@ + src@,
{
    let mut i: usize = 0;
    while i < src.len()
        invariant
            i <= src@.len(),
            dst@ == old(dst)@ + src@.take(i as int),
        decreases src@.len() - i,
    {
        dst.push(src[i]);
        i += 1;
        assert(dst@ =~= old(dst)@ + src@.take(i as int));
    }
    assert(src@.take(src@.len() as int) =~= src@);
}

/// The read and the write fingerprints of memory `k`.
fn memory_read_write_leaves<F: JoltField, I: JoltInstruction>(
    polynomials: &SurgePolynomials<F>,
    k: usize,
    c: usize,
    m: usize,
    gamma: &F,
    gamma_squared: &F,
    tau: &F,
) -> (out: (Vec<F>, Vec<F>))
    requires
        is_trace::<F, I>(*polynomials, c as nat, m as nat),
        k < spec_num_memories::<I>(c as nat, m as nat),
        gamma_squared.value() == field_mul(gamma.value(), gamma.value(), F::modulus()),
    ensures
        field_scalars(out.0@) == spec_memory_read_leaves(
            *polynomials,
            k as int,
            c as nat,
            gamma.value(),
            tau.value(),
        ),
        field_scalars(out.1@) == spec_memory_write_leaves(
            *polynomials,
            k as int,
            c as nat,
            gamma.value(),
            tau.value(),
        ),
{
    proof {
        lemma_memory_index_in_range(k as nat, c as nat, I::spec_num_subtables(c as nat, m as nat));
    }
    let d = memory_to_dimension_index(k, c);
    let dim = polynomials.dim[d].as_u16();
    let values = polynomials.E_polys[k].as_u32();
    let counts = polynomials.read_cts[d].as_u32();
    assert(u16_scalars(dim@).len() == dim@.len());
    assert(u32_scalars(values@).len() == values@.len());
    assert(u32_scalars(counts@).len() == counts@.len());
    let reads = read_fingerprints(dim, values, counts, gamma, gamma_squared, tau);
    let writes = write_fingerprints(
        &reads,
        gamma_squared,
        Ghost(u16_scalars(dim@)),
        Ghost(u32_scalars(values@)),
        Ghost(u32_scalars(counts@)),
        Ghost(gamma.value()),
        Ghost(tau.value()),
    );
    (reads, writes)
}

/// The fingerprints of the initial and of the final state of memory `k`.
fn memory_init_final_leaves<F: JoltField, I: JoltInstruction, const C: usize, const M: usize>(
    preprocessing: &SurgePreprocessing<F, I, C, M>,
    polynomials: &SurgePolynomials<F>,
    k: usize,
    gamma: &F,
    gamma_squared: &F,
    tau: &F,
) -> (out: (Vec<F>, Vec<F>))
    requires
        is_trace::<F, I>(*polynomials, C as nat, M as nat),
        k < spec_num_memories::<I>(C as nat, M as nat),
        gamma_squared.value() == field_mul(gamma.value(), gamma.value(), F::modulus()),
    ensures
        field_scalars(out.0@) == spec_memory_init_leaves::<I>(
            k as int,
            C as nat,
            M as nat,
            gamma.value(),
            tau.value(),
            F::modulus(),
        ),
        field_scalars(out.1@) == spec_memory_final_leaves::<F, I>(
            *polynomials,
            k as int,
            C as nat,
            M as nat,
            gamma.value(),
            tau.value(),
        ),
{
    proof {
        lemma_memory_index_in_range(k as nat, C as nat, I::spec_num_subtables(C as nat, M as nat));
    }
    let d = memory_to_dimension_index(k, C);
    let subtable = memory_to_subtable_index(k, C);
    let init = init_fingerprints(preprocessing, subtable, gamma, tau);
    let final_counts = polynomials.final_cts[d].as_u32();
    assert(u32_scalars(final_counts@).len() == final_counts@.len());
    let finals = final_fingerprints(
        &init,
        final_counts,
        gamma_squared,
        Ghost(spec_materialized_subtable::<I>(subtable as nat, C as nat, M as nat)),
        Ghost(gamma.value()),
        Ghost(tau.value()),
    );
    (init, finals)
}

/// The four groups of leaves of memory `k` under the challenges `gamma` and
/// `tau`: the fingerprints of its reads, of its writes, of its initial and
/// of its final state.
pub fn memory_leaves<F: JoltField, I: JoltInstruction, const C: usize, const M: usize>(
    preprocessing: &SurgePreprocessing<F, I, C, M>,
    polynomials: &SurgePolynomials<F>,
    k: usize,
    gamma: &F,
    tau: &F,
) -> (out: (Vec<F>, Vec<F>, Vec<F>, Vec<F>))
    requires
        is_trace::<F, I>(*polynomials, C as nat, M as nat),
        k < spec_num_memories::<I>(C as nat, M as nat),
    ensures
        field_scalars(out.0@) == spec_memory_read_leaves(
            *polynomials,
            k as int,
            C as nat,
            gamma.value(),
            tau.value(),
        ),
        field_scalars(out.1@) == spec_memory_write_leaves(
            *polynomials,
            k as int,
            C as nat,
            gamma.value(),
            tau.value(),
        ),
        field_scalars(out.2@) == spec_memory_init_leaves::<I>(
            k as int,
            C as nat,
            M as nat,
            gamma.value(),
            tau.value(),
            F::modulus(),
        ),
        field_scalars(out.3@) == spec_memory_final_leaves::<F, I>(
            *polynomials,
            k as int,
            C as nat,
            M as nat,
            gamma.value(),
            tau.value(),
        ),
{
    let gamma_squared = gamma.square();
    let (reads, writes) = memory_read_write_leaves::<F, I>(
        polynomials,
        k,
        C,
        M,
        gamma,
        &gamma_squared,
        tau,
    );
    let (init, finals) = memory_init_final_leaves::<F, I, C, M>(
        preprocessing,
        polynomials,
        k,
        gamma,
        &gamma_squared,
        tau,
    );
    (reads, writes, init, finals)
}

/// Tests whether `polys` has the form of a trace of an instance with `c`
/// dimensions and subtables of `m` entries.
pub fn check_trace<F: JoltField, I: JoltInstruction>(
    polys: &SurgePolynomials<F>,
    c: usize,
    m: usize,
) -> (ok: bool)
    requires
        spec_num_memories::<I>(c as nat, m as nat) <= usize::MAX,
    ensures
        ok == is_trace::<F, I>(*polys, c as nat, m as nat),
{
    let memories = num_memories::<I>(c, m);
    if c < 1 || polys.dim.len() != c || polys.read_cts.len() != c || polys.final_cts.len() != c
        || polys.E_polys.len() != memories {
        return false;
    }
    let rows = polys.dim[0].len();
    let mut d: usize = 0;
    while d < c
        invariant
            d <= c,
            polys.has_shape(c as nat, memories as nat),
            rows == spec_rows(*polys),
            forall|e: int|
                0 <= e < d ==> (#[trigger] polys.dim@[e]) is U16Scalars && polys.dim@[e].spec_len()
                    == rows,
            forall|e: int|
                0 <= e < d ==> (#[trigger] polys.read_cts@[e]) is U32Scalars
                    && polys.read_cts@[e].spec_len() == rows,
            forall|e: int|
                0 <= e < d ==> (#[trigger] polys.final_cts@[e]) is U32Scalars
                    && polys.final_cts@[e].spec_len() == m,
        decreases c - d,
    {
        let dim_ok = match &polys.dim[d] {
            MultilinearPolynomial::U16Scalars(v) => v.len() == rows,
            _ => false,
        };
        let read_ok = match &polys.read_cts[d] {
            MultilinearPolynomial::U32Scalars(v) => v.len() == rows,
            _ => false,
        };
        let final_ok = match &polys.final_cts[d] {
            MultilinearPolynomial::U32Scalars(v) => v.len() == m,
            _ => false,
        };
        if !dim_ok || !read_ok || !final_ok {
            return false;
        }
        d += 1;
    }
    let mut k: usize = 0;
    while k < memories
        invariant
            k <= memories,
            polys.has_shape(c as nat, memories as nat),
            rows == spec_rows(*polys),
            forall|j: int|
                0 <= j < k ==> (#[trigger] polys.E_polys@[j]) is U32Scalars
                    && polys.E_polys@[j].spec_len() == rows,
        decreases memories - k,
    {
        let value_ok = match &polys.E_polys[k] {
            MultilinearPolynomial::U32Scalars(v) => v.len() == rows,
            _ => false,
        };
        if !value_ok {
            return false;
        }
        k += 1;
    }
    true
}

/// Joins pairs of groups into one batch: for each pair its first group,
/// then its second.
fn concat_groups<F: JoltField>(pairs: &Vec<(Vec<F>, Vec<F>)>, Ghost(groups): Ghost<Seq<Seq<nat>>>) -> (batch:
    Vec<F>)
    requires
        groups.len() == 2 * pairs@.len(),
        forall|k: int|
            0 <= k < pairs@.len() ==> field_scalars((#[trigger] pairs@[k]).0@) == groups[2 * k]
                && field_scalars(pairs@[k].1@) == groups[2 * k + 1],
    ensures
        field_scalars(batch@) == groups.flatten(),
{
    let mut batch: Vec<F> = Vec::new();
    let mut k: usize = 0;
    assert(groups.take(0) =~= Seq::<Seq<nat>>::empty());
    assert(field_scalars(batch@) =~= groups.take(0).flatten());
    while k < pairs.len()
        invariant
            k <= pairs@.len(),
            groups.len() == 2 * pairs@.len(),
            forall|k: int|
                0 <= k < pairs@.len() ==> field_scalars((#[trigger] pairs@[k]).0@) == groups[2 * k]
                    && field_scalars(pairs@[k].1@) == groups[2 * k + 1],
            field_scalars(batch@) == groups.take(2 * k).flatten(),
        decreases pairs@.len() - k,
    {
        let ghost before = batch@;
        append_copy(&mut batch, &pairs[k].0);
        let ghost middle = batch@;
        append_copy(&mut batch, &pairs[k].1);
        proof {
            let first = pairs@[k as int].0@;
            let second = pairs@[k as int].1@;
            assert(field_scalars(middle) =~= field_scalars(before) + field_scalars(first));
            assert(field_scalars(batch@) =~= field_scalars(middle) + field_scalars(second));
            let g0 = groups.take(2 * k);
            let g1 = groups.take(2 * k + 1);
            let g2 = groups.take(2 * k + 2);
            assert(g1 =~= g0.push(groups[2 * k]));
            assert(g2 =~= g1.push(groups[2 * k + 1]));
            g0.lemma_flatten_push(groups[2 * k]);
            g1.lemma_flatten_push(groups[2 * k + 1]);
            assert(field_scalars(first) == groups[2 * k]);
            assert(field_scalars(second) == groups[2 * k + 1]);
            assert(field_scalars(middle) == g1.flatten());
            assert(field_scalars(batch@) == g2.flatten());
        }
        k += 1;
    }
    assert(groups.take(2 * k) =~= groups);
    batch
}

/// The two batches of leaves of the memory-checking argument under the
/// challenges `gamma` and `tau`, each with its number of groups.
///
/// The first batch holds, for each memory, the fingerprints of its reads and
/// then those of its writes, one of each for every row. The second holds,
/// for each memory, the fingerprints of its initial and then of its final
/// state, one of each for every address.
pub fn compute_leaves<F: JoltField, I: JoltInstruction, const C: usize, const M: usize>(
    preprocessing: &SurgePreprocessing<F, I, C, M>,
    polynomials: &SurgePolynomials<F>,
    gamma: &F,
    tau: &F,
) -> (leaves: ((Vec<F>, usize), (Vec<F>, usize)))
    requires
        is_trace::<F, I>(*polynomials, C as nat, M as nat),
        2 * spec_num_memories::<I>(C as nat, M as nat) <= usize::MAX,
    ensures
        field_scalars(leaves.0.0@) == spec_read_write_groups::<F, I>(
            *polynomials,
            C as nat,
            M as nat,
            gamma.value(),
            tau.value(),
        ).flatten(),
        leaves.0.1 == 2 * spec_num_memories::<I>(C as nat, M as nat),
        field_scalars(leaves.1.0@) == spec_init_final_groups::<F, I>(
            *polynomials,
            C as nat,
            M as nat,
            gamma.value(),
            tau.value(),
        ).flatten(),
        leaves.1.1 == 2 * spec_num_memories::<I>(C as nat, M as nat),
{
    let gamma_squared = gamma.square();
    let memories: usize = num_memories::<I>(C, M);

    let read_write = |k: usize| -> (out: (Vec<F>, Vec<F>))
        requires
            k < memories,
        ensures
            field_scalars(out.0@) == spec_memory_read_leaves(
                *polynomials,
                k as int,
                C as nat,
                gamma.value(),
                tau.value(),
            ),
            field_scalars(out.1@) == spec_memory_write_leaves(
                *polynomials,
                k as int,
                C as nat,
                gamma.value(),
                tau.value(),
            ),
        { memory_read_write_leaves::<F, I>(polynomials, k, C, M, gamma, &gamma_squared, tau) };
    let read_write_pairs = par_map_range(memories, read_write);
    let read_write_leaves = concat_groups(
        &read_write_pairs,
        Ghost(
            spec_read_write_groups::<F, I>(
                *polynomials,
                C as nat,
                M as nat,
                gamma.value(),
                tau.value(),
            ),
        ),
    );

    let init_final = |k: usize| -> (out: (Vec<F>, Vec<F>))
        requires
            k < memories,
        ensures
            field_scalars(out.0@) == spec_memory_init_leaves::<I>(
                k as int,
                C as nat,
                M as nat,
                gamma.value(),
                tau.value(),
                F::modulus(),
            ),
            field_scalars(out.1@) == spec_memory_final_leaves::<F, I>(
                *polynomials,
                k as int,
                C as nat,
                M as nat,
                gamma.value(),
                tau.value(),
            ),
        {
            memory_init_final_leaves::<F, I, C, M>(
                preprocessing,
                polynomials,
                k,
                gamma,
                &gamma_squared,
                tau,
            )
        };
    let init_final_pairs = par_map_range(memories, init_final);
    let init_final_leaves = concat_groups(
        &init_final_pairs,
        Ghost(
            spec_init_final_groups::<F, I>(
                *polynomials,
                C as nat,
                M as nat,
                gamma.value(),
                tau.value(),
            ),
        ),
    );

    ((read_write_leaves, 2 * memories), (init_final_leaves, 2 * memories))
}

/// A witness has the form of a trace.
pub proof fn lemma_witness_is_trace<F: JoltField, I: JoltInstruction>(
    polys: SurgePolynomials<F>,
    ops: Seq<I>,
    c: nat,
    m: nat,
)
    requires
        c >= 1,
        is_witness(polys, ops, c, m),
    ensures
        is_trace::<F, I>(polys, c, m),
        spec_rows(polys) == spec_next_power_of_two(ops.len()),
{
    let rows = spec_next_power_of_two(ops.len());
    let sequences = spec_access_sequences(ops, c, spec_ceil_log2(m));
    assert(polys.dim@[0].scalars() == spec_dimension_addresses(sequences, 0, rows));
    assert forall|d: int| 0 <= d < c implies (#[trigger] polys.dim@[d]).spec_len() == rows by {
        assert(polys.dim@[d].scalars() == spec_dimension_addresses(sequences, d, rows));
    }
    assert forall|d: int| 0 <= d < c implies (#[trigger] polys.read_cts@[d]).spec_len()
        == rows by {
        assert(polys.read_cts@[d].scalars() == spec_read_counts(
            spec_dimension_addresses(sequences, d, rows),
        ));
    }
    assert forall|d: int| 0 <= d < c implies (#[trigger] polys.final_cts@[d]).spec_len() == m by {
        assert(polys.final_cts@[d].scalars() == spec_final_counts(
            spec_dimension_addresses(sequences, d, rows),
            m,
        ));
    }
    assert forall|k: int| 0 <= k < spec_num_memories::<I>(c, m) implies (
    #[trigger] polys.E_polys@[k]).spec_len() == rows by {
        let addresses = spec_dimension_addresses(
            sequences,
            spec_memory_to_dimension_index(k as nat, c) as int,
            rows,
        );
        let table = spec_materialized_subtable::<I>(
            spec_memory_to_subtable_index(k as nat, c),
            c,
            m,
        );
        assert(polys.E_polys@[k].scalars() == spec_lookup_values(addresses, table));
    }
}

/// In a witness, each memory reads and ends with what it writes and starts
/// with: for every memory and all challenges, the read fingerprints
/// together with the final ones are, as multisets, the write fingerprints
/// together with the initial ones.
pub proof fn lemma_witness_multiset_identity<F: JoltField, I: JoltInstruction>(
    polys: SurgePolynomials<F>,
    ops: Seq<I>,
    c: nat,
    m: nat,
    k: int,
    gamma: nat,
    tau: nat,
)
    requires
        c >= 1,
        m >= 1,
        is_witness(polys, ops, c, m),
        valid_access_sequences(spec_access_sequences(ops, c, spec_ceil_log2(m)), c, m),
        0 <= k < spec_num_memories::<I>(c, m),
    ensures
        spec_memory_read_leaves(polys, k, c, gamma, tau).to_multiset().add(
            spec_memory_final_leaves::<F, I>(polys, k, c, m, gamma, tau).to_multiset(),
        ) == spec_memory_write_leaves(polys, k, c, gamma, tau).to_multiset().add(
            spec_memory_init_leaves::<I>(k, c, m, gamma, tau, F::modulus()).to_multiset(),
        ),
{
    let rows = spec_next_power_of_two(ops.len());
    let sequences = spec_access_sequences(ops, c, spec_ceil_log2(m));
    let d = spec_memory_to_dimension_index(k as nat, c) as int;
    lemma_memory_index_in_range(k as nat, c, I::spec_num_subtables(c, m));
    let addresses = spec_dimension_addresses(sequences, d, rows);
    let table = spec_materialized_subtable::<I>(spec_memory_to_subtable_index(k as nat, c), c, m);
    assert(polys.dim@[d].scalars() == addresses);
    assert(polys.read_cts@[d].scalars() == spec_read_counts(addresses));
    assert(polys.final_cts@[d].scalars() == spec_final_counts(addresses, m));
    assert(polys.E_polys@[k].scalars() == spec_lookup_values(addresses, table));
    assert forall|row: int| 0 <= row < addresses.len() implies addresses[row] < table.len() by {
        if row < sequences.len() {
            assert(sequences[row][d] < m);
        }
    }
    lemma_multiset_identity(addresses, table, gamma, tau, F::modulus());
}

/// In the concatenation of groups of `n` entries each, group `g` stands at
/// the positions from `g * n` up to `(g + 1) * n`.
pub proof fn lemma_flatten_uniform(groups: Seq<Seq<nat>>, n: nat, g: int)
    requires
        forall|i: int| 0 <= i < groups.len() ==> (#[trigger] groups[i]).len() == n,
        0 <= g < groups.len(),
    ensures
        groups.flatten().len() == groups.len() * n,
        0 <= g * n <= (g + 1) * n <= groups.flatten().len(),
        groups.flatten().subrange(g * n, (g + 1) * n) == groups[g],
        forall|j: int| 0 <= j < n ==> groups.flatten()[g * n + j] == #[trigger] groups[g][j],
    decreases groups.len(),
{
    let shorter = groups.drop_last();
    let last = groups.last();
    let count = groups.len() as int;
    assert(groups =~= shorter.push(last));
    shorter.lemma_flatten_push(last);
    assert(groups.flatten() =~= shorter.flatten() + last);
    assert((count - 1) * n + n == count * n) by (nonlinear_arith);
    assert((g + 1) * n == g * n + n) by (nonlinear_arith);
    assert(0 <= g * n) by (nonlinear_arith)
        requires
            0 <= g,
            0 <= n,
    ;
    if shorter.len() == 0 {
        assert(shorter.flatten() =~= Seq::<nat>::empty());
        assert(0 * n == 0) by (nonlinear_arith);
    } else {
        assert forall|i: int| 0 <= i < shorter.len() implies (#[trigger] shorter[i]).len() == n by {
            assert(shorter[i] == groups[i]);
        }
        if g < count - 1 {
            lemma_flatten_uniform(shorter, n, g);
            assert(shorter[g] == groups[g]);
            assert((g + 1) * n <= (count - 1) * n) by (nonlinear_arith)
                requires
                    g + 1 <= count - 1,
                    0 <= n,
            ;
        } else {
            lemma_flatten_uniform(shorter, n, 0);
        }
    }
    assert(shorter.flatten().len() == (count - 1) * n);
    assert(groups.flatten().subrange(g * n, (g + 1) * n) =~= groups[g]);
    assert forall|j: int| 0 <= j < n implies groups.flatten()[g * n + j] == #[trigger] groups[g][j] by {
        assert(groups.flatten().subrange(g * n, (g + 1) * n)[j] == groups.flatten()[g * n + j]);
    }
}

/// In the two batches of leaves of a trace, the four families of memory `k`
/// stand one after the other: its reads and its writes in the first batch,
/// its initial and its final state in the second.
pub proof fn lemma_leaves_of_memory<F: JoltField, I: JoltInstruction>(
    polys: SurgePolynomials<F>,
    c: nat,
    m: nat,
    gamma: nat,
    tau: nat,
    k: int,
)
    requires
        is_trace::<F, I>(polys, c, m),
        0 <= k < spec_num_memories::<I>(c, m),
    ensures
        ({
            let rows = spec_rows(polys) as int;
            let read_write = spec_read_write_groups::<F, I>(polys, c, m, gamma, tau).flatten();
            let init_final = spec_init_final_groups::<F, I>(polys, c, m, gamma, tau).flatten();
            &&& read_write.len() == 2 * spec_num_memories::<I>(c, m) * rows
            &&& init_final.len() == 2 * spec_num_memories::<I>(c, m) * m
            &&& 0 <= 2 * k * rows <= (2 * k + 1) * rows <= (2 * k + 2) * rows <= read_write.len()
            &&& 0 <= 2 * k * m <= (2 * k + 1) * m <= (2 * k + 2) * m <= init_final.len()
            &&& (2 * k + 1) * rows == 2 * k * rows + rows
            &&& (2 * k + 2) * rows == (2 * k + 1) * rows + rows
            &&& (2 * k + 1) * m == 2 * k * m + m
            &&& (2 * k + 2) * m == (2 * k + 1) * m + m
            &&& read_write.subrange(2 * k * rows, (2 * k + 1) * rows) == spec_memory_read_leaves(
                polys,
                k,
                c,
                gamma,
                tau,
            )
            &&& read_write.subrange((2 * k + 1) * rows, (2 * k + 2) * rows)
                == spec_memory_write_leaves(polys, k, c, gamma, tau)
            &&& init_final.subrange(2 * k * m, (2 * k + 1) * m) == spec_memory_init_leaves::<I>(
                k,
                c,
                m,
                gamma,
                tau,
                F::modulus(),
            )
            &&& init_final.subrange((2 * k + 1) * m, (2 * k + 2) * m) == spec_memory_final_leaves::<
                F,
                I,
            >(polys, k, c, m, gamma, tau)
        }),
{
    let memories = spec_num_memories::<I>(c, m);
    let rows = spec_rows(polys);
    let read_write = spec_read_write_groups::<F, I>(polys, c, m, gamma, tau);
    let init_final = spec_init_final_groups::<F, I>(polys, c, m, gamma, tau);
    assert forall|g: int| 0 <= g < read_write.len() implies (#[trigger] read_write[g]).len()
        == rows by {
        let memory = g / 2;
        lemma_memory_index_in_range(memory as nat, c, I::spec_num_subtables(c, m));
        let d = spec_memory_to_dimension_index(memory as nat, c) as int;
        assert(polys.dim@[d].spec_len() == rows);
    }
    assert forall|g: int| 0 <= g < init_final.len() implies (#[trigger] init_final[g]).len()
        == m by {
        let memory = g / 2;
        lemma_memory_index_in_range(memory as nat, c, I::spec_num_subtables(c, m));
    }
    assert((2 * k) / 2 == k && (2 * k) % 2 == 0);
    assert((2 * k + 1) / 2 == k && (2 * k + 1) % 2 == 1);
    lemma_flatten_uniform(read_write, rows, 2 * k);
    lemma_flatten_uniform(read_write, rows, 2 * k + 1);
    lemma_flatten_uniform(init_final, m, 2 * k);
    lemma_flatten_uniform(init_final, m, 2 * k + 1);
    assert((2 * k + 1 + 1) * rows == (2 * k + 2) * rows);
    assert((2 * k + 1 + 1) * m == (2 * k + 2) * m);
    assert((2 * k + 1) * rows == 2 * k * rows + rows) by (nonlinear_arith);
    assert((2 * k + 1) * m == 2 * k * m + m) by (nonlinear_arith);
    assert((2 * k + 2) * rows == (2 * k + 1) * rows + rows) by (nonlinear_arith);
    assert((2 * k + 2) * m == (2 * k + 1) * m + m) by (nonlinear_arith);
}

/// In the first batch of leaves of a trace, the write leaf of every row of
/// every memory is its read leaf plus `gamma^2`.
pub proof fn lemma_write_leaf_is_read_leaf_plus_gamma_squared<F: JoltField, I: JoltInstruction>(
    polys: SurgePolynomials<F>,
    c: nat,
    m: nat,
    gamma: nat,
    tau: nat,
    k: int,
    row: int,
)
    requires
        is_trace::<F, I>(polys, c, m),
        0 <= k < spec_num_memories::<I>(c, m),
        0 <= row < spec_rows(polys),
    ensures
        ({
            let rows = spec_rows(polys) as int;
            let leaves = spec_read_write_groups::<F, I>(polys, c, m, gamma, tau).flatten();
            &&& leaves[(2 * k + 1) * rows + row] == field_add(
                leaves[2 * k * rows + row],
                field_mul(gamma, gamma, F::modulus()),
                F::modulus(),
            )
            &&& field_sub(
                leaves[(2 * k + 1) * rows + row],
                leaves[2 * k * rows + row],
                F::modulus(),
            ) == field_mul(gamma, gamma, F::modulus())
        }),
{
    F::lemma_modulus_bound();
    let rows = spec_rows(polys) as int;
    let leaves = spec_read_write_groups::<F, I>(polys, c, m, gamma, tau).flatten();
    lemma_leaves_of_memory::<F, I>(polys, c, m, gamma, tau, k);
    lemma_memory_index_in_range(k as nat, c, I::spec_num_subtables(c, m));
    let d = spec_memory_to_dimension_index(k as nat, c) as int;
    assert(polys.dim@[d].spec_len() == rows);
    let reads = leaves.subrange(2 * k * rows, (2 * k + 1) * rows);
    let writes = leaves.subrange((2 * k + 1) * rows, (2 * k + 2) * rows);
    assert(reads[row] == leaves[2 * k * rows + row]);
    assert(writes[row] == leaves[(2 * k + 1) * rows + row]);
    lemma_write_fingerprint(
        polys.dim@[d].scalars()[row],
        polys.E_polys@[k].scalars()[row],
        polys.read_cts@[d].scalars()[row],
        gamma,
        tau,
        F::modulus(),
    );
}

/// In the second batch of leaves of a trace, the final leaf of every address
/// of every memory is its initial leaf plus the final counter of the address
/// times `gamma^2`.
pub proof fn lemma_final_leaf_is_init_leaf_plus_count<F: JoltField, I: JoltInstruction>(
    polys: SurgePolynomials<F>,
    c: nat,
    m: nat,
    gamma: nat,
    tau: nat,
    k: int,
    address: int,
)
    requires
        is_trace::<F, I>(polys, c, m),
        0 <= k < spec_num_memories::<I>(c, m),
        0 <= address < m,
    ensures
        ({
            let leaves = spec_init_final_groups::<F, I>(polys, c, m, gamma, tau).flatten();
            let d = spec_memory_to_dimension_index(k as nat, c) as int;
            let count = field_mul(
                polys.final_cts@[d].scalars()[address],
                field_mul(gamma, gamma, F::modulus()),
                F::modulus(),
            );
            &&& leaves[(2 * k + 1) * m + address] == field_add(
                leaves[2 * k * m + address],
                count,
                F::modulus(),
            )
            &&& field_sub(
                leaves[(2 * k + 1) * m + address],
                leaves[2 * k * m + address],
                F::modulus(),
            ) == count
        }),
{
    F::lemma_modulus_bound();
    let leaves = spec_init_final_groups::<F, I>(polys, c, m, gamma, tau).flatten();
    lemma_leaves_of_memory::<F, I>(polys, c, m, gamma, tau, k);
    lemma_memory_index_in_range(k as nat, c, I::spec_num_subtables(c, m));
    let d = spec_memory_to_dimension_index(k as nat, c) as int;
    let table = spec_materialized_subtable::<I>(spec_memory_to_subtable_index(k as nat, c), c, m);
    let inits = leaves.subrange(2 * k * m, (2 * k + 1) * m);
    let finals = leaves.subrange((2 * k + 1) * m, (2 * k + 2) * m);
    assert(inits[address] == leaves[2 * k * m + address]);
    assert(finals[address] == leaves[(2 * k + 1) * m + address]);
    lemma_fingerprint_shift(
        address as nat,
        table[address] as nat,
        0,
        polys.final_cts@[d].scalars()[address],
        gamma,
        tau,
        F::modulus(),
    );
}

/// In the two batches of leaves of a witness, for every memory and all
/// challenges, the read leaves together with the final leaves are, as
/// multisets, the write leaves together with the initial leaves.
pub proof fn lemma_leaves_multiset_identity<F: JoltField, I: JoltInstruction>(
    polys: SurgePolynomials<F>,
    ops: Seq<I>,
    c: nat,
    m: nat,
    gamma: nat,
    tau: nat,
    k: int,
)
    requires
        c >= 1,
        m >= 1,
        is_witness(polys, ops, c, m),
        valid_access_sequences(spec_access_sequences(ops, c, spec_ceil_log2(m)), c, m),
        0 <= k < spec_num_memories::<I>(c, m),
    ensures
        ({
            let rows = spec_rows(polys) as int;
            let read_write = spec_read_write_groups::<F, I>(polys, c, m, gamma, tau).flatten();
            let init_final = spec_init_final_groups::<F, I>(polys, c, m, gamma, tau).flatten();
            read_write.subrange(2 * k * rows, (2 * k + 1) * rows).to_multiset().add(
                init_final.subrange((2 * k + 1) * m, (2 * k + 2) * m).to_multiset(),
            ) == read_write.subrange((2 * k + 1) * rows, (2 * k + 2) * rows).to_multiset().add(
                init_final.subrange(2 * k * m, (2 * k + 1) * m).to_multiset(),
            )
        }),
{
    lemma_witness_is_trace::<F, I>(polys, ops, c, m);
    lemma_leaves_of_memory::<F, I>(polys, c, m, gamma, tau, k);
    lemma_witness_multiset_identity::<F, I>(polys, ops, c, m, k, gamma, tau);
}

} // verus!
