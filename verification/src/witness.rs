//! The witness of a batch of lookups: for each row the addresses read, the
//! counters found there and the values observed.

use vstd::prelude::*;
use vstd::arithmetic::power2::*;
use crate::field::JoltField;
use crate::instruction::JoltInstruction;
use crate::math::{
    ceil_log2, lemma_next_power_of_two_least, next_power_of_two, spec_ceil_log2,
    spec_next_power_of_two,
};
use crate::memory::{
    memory_to_dimension_index, memory_to_subtable_index, num_memories, spec_memory_to_dimension_index,
    spec_memory_to_subtable_index, spec_num_memories, lemma_memory_index_in_range,
};
use crate::poly::{u16_scalars, u32_scalars, MultilinearPolynomial};
use crate::preprocessing::{spec_materialized_subtable, SurgePreprocessing};
use crate::stuff::SurgeStuff;

verus! {

/// The witness polynomials of an instance.
pub type SurgePolynomials<F> = SurgeStuff<MultilinearPolynomial<F>>;

/// The largest number of rows a witness can have: every counter fits in 32
/// bits.
pub const MAX_ROWS: usize = 0x8000_0000;

/// The largest subtable size: every address fits in 16 bits.
pub const MAX_SUBTABLE_SIZE: usize = 0x1_0000;

/// The address sequences of the lookups, one sequence of `c` addresses for
/// each lookup.
pub open spec fn spec_access_sequences<I: JoltInstruction>(ops: Seq<I>, c: nat, log_m: nat) -> Seq<
    Seq<usize>,
> {
    Seq::new(ops.len(), |j: int| ops[j].spec_to_indices(c, log_m))
}

/// Whether every lookup decomposes into `c` addresses below `m`.
pub open spec fn valid_access_sequences(sequences: Seq<Seq<usize>>, c: nat, m: nat) -> bool {
    &&& forall|j: int| 0 <= j < sequences.len() ==> (#[trigger] sequences[j]).len() == c
    &&& forall|j: int, d: int|
        0 <= j < sequences.len() && 0 <= d < c ==> #[trigger] sequences[j][d] < m
}

/// The address that row `row` reads in dimension `d`: that of the lookup in
/// a row that holds one, and 0 in a padded row.
pub open spec fn spec_row_address(sequences: Seq<Seq<usize>>, d: int, row: int) -> nat {
    if 0 <= row < sequences.len() {
        sequences[row][d] as nat
    } else {
        0
    }
}

/// The addresses that the `rows` rows read in dimension `d`.
pub open spec fn spec_dimension_addresses(sequences: Seq<Seq<usize>>, d: int, rows: nat) -> Seq<
    nat,
> {
    Seq::new(rows, |row: int| spec_row_address(sequences, d, row))
}

/// How often `address` occurs among the first `upto` of `addresses`.
pub open spec fn count_before(addresses: Seq<nat>, upto: int, address: nat) -> nat
    decreases upto,
{
    if upto <= 0 {
        0
    } else {
        count_before(addresses, upto - 1, address) + if addresses[upto - 1] == address {
            1nat
        } else {
            0nat
        }
    }
}

/// The counter that each row finds at its address: the number of earlier
/// rows that read the same address.
pub open spec fn spec_read_counts(addresses: Seq<nat>) -> Seq<nat> {
    Seq::new(addresses.len(), |row: int| count_before(addresses, row, addresses[row]))
}

/// The counter that each row leaves at its address.
pub open spec fn spec_write_counts(addresses: Seq<nat>) -> Seq<nat> {
    Seq::new(addresses.len(), |row: int| count_before(addresses, row + 1, addresses[row]))
}

/// The counter of each of the `m` addresses after the last row: the number
/// of rows that read it.
pub open spec fn spec_final_counts(addresses: Seq<nat>, m: nat) -> Seq<nat> {
    Seq::new(m, |a: int| count_before(addresses, addresses.len() as int, a as nat))
}

/// The value that each row observes in `table`.
pub open spec fn spec_lookup_values(addresses: Seq<nat>, table: Seq<u32>) -> Seq<nat> {
    Seq::new(addresses.len(), |row: int| table[addresses[row] as int] as nat)
}

/// No address occurs more often than there are rows.
pub proof fn lemma_count_before_bound(addresses: Seq<nat>, upto: int, address: nat)
    requires
        0 <= upto,
    ensures
        count_before(addresses, upto, address) <= upto,
    decreases upto,
{
    if upto > 0 {
        lemma_count_before_bound(addresses, upto - 1, address);
    }
}

/// In every row, real or padded, the counter written is the counter read
/// plus one.
pub proof fn lemma_write_count_is_read_count_plus_one(addresses: Seq<nat>, row: int)
    requires
        0 <= row < addresses.len(),
    ensures
        spec_write_counts(addresses)[row] == spec_read_counts(addresses)[row] + 1,
{
}

/// Whether `polys` is the witness of the lookups `ops` in an instance of `c`
/// dimensions and subtables of `m` entries.
pub open spec fn is_witness<F: JoltField, I: JoltInstruction>(
    polys: SurgePolynomials<F>,
    ops: Seq<I>,
    c: nat,
    m: nat,
) -> bool {
    let rows = spec_next_power_of_two(ops.len());
    let sequences = spec_access_sequences(ops, c, spec_ceil_log2(m));
    &&& polys.has_shape(c, spec_num_memories::<I>(c, m))
    &&& polys.a_init_final is None
    &&& polys.v_init_final is None
    &&& forall|d: int|
        0 <= d < c ==> {
            let addresses = spec_dimension_addresses(sequences, d, rows);
            &&& (#[trigger] polys.dim@[d]) is U16Scalars
            &&& polys.dim@[d].scalars() == addresses
        }
    &&& forall|d: int|
        0 <= d < c ==> {
            let addresses = spec_dimension_addresses(sequences, d, rows);
            &&& (#[trigger] polys.read_cts@[d]) is U32Scalars
            &&& polys.read_cts@[d].scalars() == spec_read_counts(addresses)
        }
    &&& forall|d: int|
        0 <= d < c ==> {
            let addresses = spec_dimension_addresses(sequences, d, rows);
            &&& (#[trigger] polys.final_cts@[d]) is U32Scalars
            &&& polys.final_cts@[d].scalars() == spec_final_counts(addresses, m)
        }
    &&& forall|k: int|
        0 <= k < spec_num_memories::<I>(c, m) ==> {
            let addresses = spec_dimension_addresses(
                sequences,
                spec_memory_to_dimension_index(k as nat, c) as int,
                rows,
            );
            let table = spec_materialized_subtable::<I>(
                spec_memory_to_subtable_index(k as nat, c),
                c,
                m,
            );
            &&& (#[trigger] polys.E_polys@[k]) is U32Scalars
            &&& polys.E_polys@[k].scalars() == spec_lookup_values(addresses, table)
        }
}

/// In a witness, every row of every dimension, be it the row of a lookup or
/// a padded row, writes the counter that it read, plus one.
pub proof fn lemma_witness_writes_read_plus_one<F: JoltField, I: JoltInstruction>(
    polys: SurgePolynomials<F>,
    ops: Seq<I>,
    c: nat,
    m: nat,
    d: int,
    row: int,
)
    requires
        is_witness(polys, ops, c, m),
        0 <= d < c,
        0 <= row < spec_next_power_of_two(ops.len()),
    ensures
        spec_write_counts(polys.dim@[d].scalars())[row] == polys.read_cts@[d].scalars()[row] + 1,
{
    let rows = spec_next_power_of_two(ops.len());
    let sequences = spec_access_sequences(ops, c, spec_ceil_log2(m));
    let addresses = spec_dimension_addresses(sequences, d, rows);
    assert(polys.dim@[d].scalars() == addresses);
    assert(polys.read_cts@[d].scalars() == spec_read_counts(addresses));
    lemma_write_count_is_read_count_plus_one(addresses, row);
}

/// Rows that read other addresses leave the counter of `address` as it is.
pub proof fn lemma_count_before_untouched(addresses: Seq<nat>, lo: int, hi: int, address: nat)
    requires
        0 <= lo <= hi <= addresses.len(),
        forall|i: int| lo <= i < hi ==> addresses[i] != address,
    ensures
        count_before(addresses, hi, address) == count_before(addresses, lo, address),
    decreases hi - lo,
{
    if lo < hi {
        lemma_count_before_untouched(addresses, lo, hi - 1, address);
    }
}

/// Rows that all read `address` raise its counter by one each.
pub proof fn lemma_count_before_run(addresses: Seq<nat>, lo: int, hi: int, address: nat)
    requires
        0 <= lo <= hi <= addresses.len(),
        forall|i: int| lo <= i < hi ==> addresses[i] == address,
    ensures
        count_before(addresses, hi, address) == count_before(addresses, lo, address) + (hi - lo),
    decreases hi - lo,
{
    if lo < hi {
        lemma_count_before_run(addresses, lo, hi - 1, address);
    }
}

/// The counter that a row writes is the counter that the next row at the
/// same address reads.
pub proof fn lemma_write_is_next_read(addresses: Seq<nat>, row: int, next: int)
    requires
        0 <= row < next < addresses.len(),
        addresses[next] == addresses[row],
        forall|i: int| row < i < next ==> addresses[i] != addresses[row],
    ensures
        spec_read_counts(addresses)[next] == spec_write_counts(addresses)[row],
        spec_read_counts(addresses)[next] == spec_read_counts(addresses)[row] + 1,
{
    lemma_count_before_untouched(addresses, row + 1, next, addresses[row]);
}

/// The counter that the last row at an address writes is the final counter
/// of the address.
pub proof fn lemma_last_write_is_final(addresses: Seq<nat>, m: nat, row: int)
    requires
        0 <= row < addresses.len(),
        addresses[row] < m,
        forall|i: int| row < i < addresses.len() ==> addresses[i] != addresses[row],
    ensures
        spec_final_counts(addresses, m)[addresses[row] as int] == spec_write_counts(
            addresses,
        )[row],
        spec_final_counts(addresses, m)[addresses[row] as int] == spec_read_counts(addresses)[row]
            + 1,
{
    lemma_count_before_untouched(addresses, row + 1, addresses.len() as int, addresses[row]);
}

/// In a witness, a padded row reads address 0 and finds its counter where
/// the lookups and the padded rows before it have left it: at the number of
/// lookups that read address 0, plus the number of padded rows before.
pub proof fn lemma_witness_padded_rows<F: JoltField, I: JoltInstruction>(
    polys: SurgePolynomials<F>,
    ops: Seq<I>,
    c: nat,
    m: nat,
    d: int,
    row: int,
)
    requires
        is_witness(polys, ops, c, m),
        0 <= d < c,
        ops.len() <= row < spec_next_power_of_two(ops.len()),
    ensures
        polys.dim@[d].scalars()[row] == 0,
        polys.read_cts@[d].scalars()[row] == count_before(
            polys.dim@[d].scalars(),
            ops.len() as int,
            0,
        ) + (row - ops.len()),
{
    let rows = spec_next_power_of_two(ops.len());
    let sequences = spec_access_sequences(ops, c, spec_ceil_log2(m));
    let addresses = spec_dimension_addresses(sequences, d, rows);
    assert(polys.dim@[d].scalars() == addresses);
    assert(polys.read_cts@[d].scalars() == spec_read_counts(addresses));
    assert(sequences.len() == ops.len());
    assert forall|i: int| ops.len() <= i < row implies addresses[i] == 0 by {
        assert(addresses[i] == spec_row_address(sequences, d, i));
    }
    assert(addresses[row] == spec_row_address(sequences, d, row));
    lemma_count_before_run(addresses, ops.len() as int, row, 0);
}

/// In a witness, the counter that a row writes is what the next row at the
/// same address reads.
pub proof fn lemma_witness_write_is_next_read<F: JoltField, I: JoltInstruction>(
    polys: SurgePolynomials<F>,
    ops: Seq<I>,
    c: nat,
    m: nat,
    d: int,
    row: int,
    next: int,
)
    requires
        is_witness(polys, ops, c, m),
        0 <= d < c,
        0 <= row < next < spec_next_power_of_two(ops.len()),
        polys.dim@[d].scalars()[next] == polys.dim@[d].scalars()[row],
        forall|i: int| row < i < next ==> polys.dim@[d].scalars()[i] != polys.dim@[d].scalars()[row],
    ensures
        polys.read_cts@[d].scalars()[next] == polys.read_cts@[d].scalars()[row] + 1,
{
    let rows = spec_next_power_of_two(ops.len());
    let sequences = spec_access_sequences(ops, c, spec_ceil_log2(m));
    let addresses = spec_dimension_addresses(sequences, d, rows);
    assert(polys.dim@[d].scalars() == addresses);
    assert(polys.read_cts@[d].scalars() == spec_read_counts(addresses));
    lemma_write_is_next_read(addresses, row, next);
}

/// In a witness, the counter that the last row at an address writes is the
/// final counter of the address.
pub proof fn lemma_witness_last_write_is_final<F: JoltField, I: JoltInstruction>(
    polys: SurgePolynomials<F>,
    ops: Seq<I>,
    c: nat,
    m: nat,
    d: int,
    row: int,
)
    requires
        is_witness(polys, ops, c, m),
        0 <= d < c,
        0 <= row < spec_next_power_of_two(ops.len()),
        polys.dim@[d].scalars()[row] < m,
        forall|i: int|
            row < i < spec_next_power_of_two(ops.len()) ==> polys.dim@[d].scalars()[i]
                != polys.dim@[d].scalars()[row],
    ensures
        polys.final_cts@[d].scalars()[polys.dim@[d].scalars()[row] as int]
            == polys.read_cts@[d].scalars()[row] + 1,
{
    let rows = spec_next_power_of_two(ops.len());
    let sequences = spec_access_sequences(ops, c, spec_ceil_log2(m));
    let addresses = spec_dimension_addresses(sequences, d, rows);
    assert(polys.dim@[d].scalars() == addresses);
    assert(polys.read_cts@[d].scalars() == spec_read_counts(addresses));
    assert(polys.final_cts@[d].scalars() == spec_final_counts(addresses, m));
    lemma_last_write_is_final(addresses, m, row);
}

/// The contents of a vector of vectors.
pub open spec fn nested_view<T>(v: Seq<Vec<T>>) -> Seq<Seq<T>> {
    Seq::new(v.len(), |k: int| v[k]@)
}

/// The addresses, read counters and final counters of dimension `d`.
fn dimension_witness(accesses: &Vec<Vec<usize>>, d: usize, rows: usize, c: usize, m: usize) -> (out:
    (Vec<u16>, Vec<u32>, Vec<u32>))
    requires
        d < c,
        1 <= m <= MAX_SUBTABLE_SIZE,
        accesses@.len() <= rows <= MAX_ROWS,
        valid_access_sequences(nested_view(accesses@), c as nat, m as nat),
    ensures
        ({
            let addresses = spec_dimension_addresses(
                nested_view(accesses@),
                d as int,
                rows as nat,
            );
            &&& u16_scalars(out.0@) == addresses
            &&& u32_scalars(out.1@) == spec_read_counts(addresses)
            &&& u32_scalars(out.2@) == spec_final_counts(addresses, m as nat)
        }),
{
    let ghost sequences = nested_view(accesses@);
    let ghost addresses = spec_dimension_addresses(sequences, d as int, rows as nat);
    let mut dim: Vec<u16> = Vec::new();
    let mut read_cts: Vec<u32> = Vec::new();
    let mut final_cts: Vec<u32> = Vec::new();
    let mut a: usize = 0;
    while a < m
        invariant
            a <= m,
            final_cts@.len() == a,
            forall|i: int| 0 <= i < a ==> final_cts@[i] == 0,
        decreases m - a,
    {
        final_cts.push(0u32);
        a += 1;
    }
    let mut row: usize = 0;
    while row < rows
        invariant
            row <= rows,
            d < c,
            1 <= m <= MAX_SUBTABLE_SIZE,
            accesses@.len() <= rows <= MAX_ROWS,
            sequences == nested_view(accesses@),
            valid_access_sequences(sequences, c as nat, m as nat),
            addresses == spec_dimension_addresses(sequences, d as int, rows as nat),
            dim@.len() == row,
            read_cts@.len() == row,
            final_cts@.len() == m,
            forall|i: int| 0 <= i < row ==> dim@[i] as nat == addresses[i],
            forall|i: int|
                0 <= i < row ==> read_cts@[i] as nat == count_before(addresses, i, addresses[i]),
            forall|i: int|
                0 <= i < m ==> final_cts@[i] as nat == count_before(
                    addresses,
                    row as int,
                    i as nat,
                ),
        decreases rows - row,
    {
        let address: usize = if row < accesses.len() {
            assert(sequences[row as int] == accesses@[row as int]@);
            assert(sequences[row as int][d as int] < m);
            accesses[row][d]
        } else {
            0
        };
        assert(address as nat == addresses[row as int]);
        let ts: u32 = final_cts[address];
        proof {
            lemma_count_before_bound(addresses, row as int, address as nat);
        }
        dim.push(address as u16);
        read_cts.push(ts);
        final_cts.set(address, ts + 1);
        row += 1;
    }
    proof {
        assert(u16_scalars(dim@) =~= addresses);
        assert(u32_scalars(read_cts@) =~= spec_read_counts(addresses));
        assert(u32_scalars(final_cts@) =~= spec_final_counts(addresses, m as nat));
    }
    (dim, read_cts, final_cts)
}

/// The values that the rows observe in subtable `subtable`, read at the
/// addresses `dim`.
fn lookup_values<F: JoltField, I: JoltInstruction, const C: usize, const M: usize>(
    preprocessing: &SurgePreprocessing<F, I, C, M>,
    dim: &Vec<u16>,
    subtable: usize,
) -> (values: Vec<u32>)
    requires
        subtable < I::spec_num_subtables(C as nat, M as nat),
        forall|i: int| 0 <= i < dim@.len() ==> dim@[i] < M,
    ensures
        u32_scalars(values@) == spec_lookup_values(
            u16_scalars(dim@),
            spec_materialized_subtable::<I>(subtable as nat, C as nat, M as nat),
        ),
{
    let mut values: Vec<u32> = Vec::new();
    let mut row: usize = 0;
    while row < dim.len()
        invariant
            row <= dim@.len(),
            subtable < I::spec_num_subtables(C as nat, M as nat),
            forall|i: int| 0 <= i < dim@.len() ==> dim@[i] < M,
            values@.len() == row,
            forall|i: int|
                0 <= i < row ==> values@[i] == I::spec_subtable_entry(
                    subtable as nat,
                    dim@[i] as nat,
                    C as nat,
                    M as nat,
                ),
        decreases dim@.len() - row,
    {
        let value = preprocessing.entry(subtable, dim[row] as usize);
        values.push(value);
        row += 1;
    }
    assert(u32_scalars(values@) =~= spec_lookup_values(
        u16_scalars(dim@),
        spec_materialized_subtable::<I>(subtable as nat, C as nat, M as nat),
    ));
    values
}

/// The address sequence of every lookup.
fn access_sequences<I: JoltInstruction>(ops: &[I], c: usize, log_m: usize) -> (accesses: Vec<
    Vec<usize>,
>)
    ensures
        nested_view(accesses@) == spec_access_sequences(ops@, c as nat, log_m as nat),
{
    let mut accesses: Vec<Vec<usize>> = Vec::new();
    let mut j: usize = 0;
    while j < ops.len()
        invariant
            j <= ops@.len(),
            accesses@.len() == j,
            forall|i: int|
                0 <= i < j ==> (#[trigger] accesses@[i])@ == ops@[i].spec_to_indices(
                    c as nat,
                    log_m as nat,
                ),
        decreases ops@.len() - j,
    {
        let sequence = ops[j].to_indices(c, log_m);
        accesses.push(sequence);
        j += 1;
    }
    assert(nested_view(accesses@) =~= spec_access_sequences(ops@, c as nat, log_m as nat));
    accesses
}

/// Whether every lookup of `ops` decomposes into `c` addresses below `m`,
/// as witness generation requires.
pub fn lookups_are_valid<I: JoltInstruction>(ops: &[I], c: usize, m: usize) -> (valid: bool)
    ensures
        valid == valid_access_sequences(
            spec_access_sequences(ops@, c as nat, spec_ceil_log2(m as nat)),
            c as nat,
            m as nat,
        ),
{
    let log_m: usize = ceil_log2(m);
    let ghost sequences = spec_access_sequences(ops@, c as nat, log_m as nat);
    let mut j: usize = 0;
    while j < ops.len()
        invariant
            j <= ops@.len(),
            log_m == spec_ceil_log2(m as nat),
            sequences == spec_access_sequences(ops@, c as nat, log_m as nat),
            valid_access_sequences(sequences.take(j as int), c as nat, m as nat),
        decreases ops@.len() - j,
    {
        let sequence = ops[j].to_indices(c, log_m);
        assert(sequence@ == sequences[j as int]);
        if sequence.len() != c {
            assert(!valid_access_sequences(sequences, c as nat, m as nat)) by {
                assert(sequences[j as int].len() != c);
            }
            return false;
        }
        let mut d: usize = 0;
        while d < c
            invariant
                d <= c,
                j < ops@.len(),
                log_m == spec_ceil_log2(m as nat),
                sequences == spec_access_sequences(ops@, c as nat, log_m as nat),
                sequence@ == sequences[j as int],
                sequence@.len() == c,
                forall|e: int| 0 <= e < d ==> sequence@[e] < m,
            decreases c - d,
        {
            if sequence[d] >= m {
                assert(!valid_access_sequences(sequences, c as nat, m as nat)) by {
                    assert(!(sequences[j as int][d as int] < m));
                }
                return false;
            }
            d += 1;
        }
        assert(valid_access_sequences(sequences.take(j + 1), c as nat, m as nat)) by {
            let longer = sequences.take(j + 1);
            let shorter = sequences.take(j as int);
            assert forall|i: int| 0 <= i < longer.len() implies (#[trigger] longer[i]).len()
                == c by {
                if i < j {
                    assert(longer[i] == shorter[i]);
                }
            }
            assert forall|i: int, e: int| 0 <= i < longer.len() && 0 <= e < c implies #[trigger] longer[i][e]
                < m by {
                if i < j {
                    assert(longer[i] == shorter[i]);
                    assert(shorter[i][e] < m);
                }
            }
        }
        j += 1;
    }
    assert(sequences.take(ops@.len() as int) =~= sequences);
    true
}

/// Builds the witness of the lookups `ops`.
///
/// The witness has one row for each lookup and is padded to a power of two
/// with rows that read address 0 in every dimension. A padded row finds and
/// advances the counter of address 0 as a lookup would.
pub fn generate_witness<F: JoltField, I: JoltInstruction, const C: usize, const M: usize>(
    preprocessing: &SurgePreprocessing<F, I, C, M>,
    ops: &[I],
) -> (polys: SurgePolynomials<F>)
    requires
        C >= 1,
        1 <= M <= MAX_SUBTABLE_SIZE,
        ops@.len() <= MAX_ROWS,
        spec_num_memories::<I>(C as nat, M as nat) <= usize::MAX,
        valid_access_sequences(
            spec_access_sequences(ops@, C as nat, spec_ceil_log2(M as nat)),
            C as nat,
            M as nat,
        ),
    ensures
        is_witness(polys, ops@, C as nat, M as nat),
{
    proof {
        lemma2_to64();
        lemma_next_power_of_two_least(ops@.len(), 31);
    }
    let rows: usize = next_power_of_two(ops.len());
    let log_m: usize = ceil_log2(M);
    let accesses = access_sequences(ops, C, log_m);
    let ghost sequences = spec_access_sequences(ops@, C as nat, spec_ceil_log2(M as nat));
    assert(nested_view(accesses@).len() == accesses@.len());
    assert(sequences.len() == ops@.len());

    let mut dim: Vec<MultilinearPolynomial<F>> = Vec::new();
    let mut read_cts: Vec<MultilinearPolynomial<F>> = Vec::new();
    let mut final_cts: Vec<MultilinearPolynomial<F>> = Vec::new();
    let mut d: usize = 0;
    while d < C
        invariant
            d <= C,
            1 <= M <= MAX_SUBTABLE_SIZE,
            accesses@.len() <= rows <= MAX_ROWS,
            sequences == nested_view(accesses@),
            valid_access_sequences(sequences, C as nat, M as nat),
            dim@.len() == d,
            read_cts@.len() == d,
            final_cts@.len() == d,
            forall|e: int|
                0 <= e < d ==> (#[trigger] dim@[e]) is U16Scalars && dim@[e].scalars()
                    == spec_dimension_addresses(sequences, e, rows as nat),
            forall|e: int|
                0 <= e < d ==> (#[trigger] read_cts@[e]) is U32Scalars && read_cts@[e].scalars()
                    == spec_read_counts(spec_dimension_addresses(sequences, e, rows as nat)),
            forall|e: int|
                0 <= e < d ==> (#[trigger] final_cts@[e]) is U32Scalars && final_cts@[e].scalars()
                    == spec_final_counts(
                    spec_dimension_addresses(sequences, e, rows as nat),
                    M as nat,
                ),
        decreases C - d,
    {
        let (addresses, reads, finals) = dimension_witness(&accesses, d, rows, C, M);
        dim.push(MultilinearPolynomial::U16Scalars(addresses));
        read_cts.push(MultilinearPolynomial::U32Scalars(reads));
        final_cts.push(MultilinearPolynomial::U32Scalars(finals));
        d += 1;
    }

    let memories: usize = num_memories::<I>(C, M);
    let mut e_polys: Vec<MultilinearPolynomial<F>> = Vec::new();
    let mut k: usize = 0;
    while k < memories
        invariant
            k <= memories,
            C >= 1,
            M >= 1,
            memories == spec_num_memories::<I>(C as nat, M as nat),
            valid_access_sequences(sequences, C as nat, M as nat),
            dim@.len() == C,
            forall|e: int|
                0 <= e < C ==> (#[trigger] dim@[e]) is U16Scalars && dim@[e].scalars()
                    == spec_dimension_addresses(sequences, e, rows as nat),
            e_polys@.len() == k,
            forall|j: int|
                0 <= j < k ==> (#[trigger] e_polys@[j]) is U32Scalars && e_polys@[j].scalars()
                    == spec_lookup_values(
                    spec_dimension_addresses(
                        sequences,
                        spec_memory_to_dimension_index(j as nat, C as nat) as int,
                        rows as nat,
                    ),
                    spec_materialized_subtable::<I>(
                        spec_memory_to_subtable_index(j as nat, C as nat),
                        C as nat,
                        M as nat,
                    ),
                ),
        decreases memories - k,
    {
        let dimension = memory_to_dimension_index(k, C);
        let subtable = memory_to_subtable_index(k, C);
        proof {
            lemma_memory_index_in_range(k as nat, C as nat, I::spec_num_subtables(C as nat, M as nat));
        }
        let values = match &dim[dimension] {
            MultilinearPolynomial::U16Scalars(addresses) => {
                proof {
                    let expected = spec_dimension_addresses(sequences, dimension as int, rows as nat);
                    assert(dim@[dimension as int].scalars() == expected);
                    assert forall|i: int| 0 <= i < addresses@.len() implies addresses@[i] < M by {
                        assert(u16_scalars(addresses@)[i] == expected[i]);
                        if i < sequences.len() {
                            assert(sequences[i][dimension as int] < M);
                        }
                    }
                }
                lookup_values(preprocessing, addresses, subtable)
            },
            _ => {
                proof {
                    assert(false);
                }
                Vec::new()
            },
        };
        e_polys.push(MultilinearPolynomial::U32Scalars(values));
        k += 1;
    }
    SurgeStuff {
        dim,
        read_cts,
        final_cts,
        E_polys: e_polys,
        a_init_final: None,
        v_init_final: None,
    }
}

} // verus!
