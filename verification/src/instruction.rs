//! The instruction family that a lookup argument is instantiated with.

use vstd::prelude::*;
use crate::field::JoltField;
use crate::poly::field_scalars;

verus! {

/// An instruction whose lookup table decomposes into subtables.
///
/// A value of the type is one lookup: it decomposes into `c` addresses, one
/// for each dimension. Everything else belongs to the family as a whole and
/// depends on the decomposition parameters alone.
pub trait JoltInstruction: Sized + Send + Sync {
    /// How many subtables the family reads.
    spec fn spec_num_subtables(c: nat, m: nat) -> nat;

    /// Entry `index` of subtable `subtable`.
    spec fn spec_subtable_entry(subtable: nat, index: nat, c: nat, m: nat) -> u32;

    /// The multilinear extension of subtable `subtable` at `point`, in the
    /// field of order `modulus`.
    spec fn spec_subtable_mle(subtable: nat, point: Seq<nat>, c: nat, m: nat, modulus: nat) -> nat;

    /// The addresses that this lookup reads, one for each dimension.
    spec fn spec_to_indices(&self, c: nat, log_m: nat) -> Seq<usize>;

    /// The instruction's output, collated from one value for each memory,
    /// in the field of order `modulus`.
    spec fn spec_combine_lookups(vals: Seq<nat>, c: nat, m: nat, modulus: nat) -> nat;

    /// The total degree of the collation polynomial.
    spec fn spec_g_poly_degree(c: nat) -> nat;

    /// How many subtables the family reads.
    fn num_subtables(c: usize, m: usize) -> (n: usize)
        ensures
            n == Self::spec_num_subtables(c as nat, m as nat),
    ;

    /// Subtable `subtable` as a dense table of `m` entries.
    fn materialize_subtable(subtable: usize, c: usize, m: usize) -> (table: Vec<u32>)
        requires
            subtable < Self::spec_num_subtables(c as nat, m as nat),
        ensures
            table.len() == m,
            forall|i: int|
                0 <= i < m ==> table[i] == Self::spec_subtable_entry(
                    subtable as nat,
                    i as nat,
                    c as nat,
                    m as nat,
                ),
    ;

    /// The multilinear extension of subtable `subtable` at `point`.
    fn evaluate_subtable_mle<F: JoltField>(subtable: usize, point: &[F], c: usize, m: usize) -> (r:
        F)
        requires
            subtable < Self::spec_num_subtables(c as nat, m as nat),
        ensures
            r.value() == Self::spec_subtable_mle(
                subtable as nat,
                field_scalars(point@),
                c as nat,
                m as nat,
                F::modulus(),
            ),
    ;

    /// The addresses that this lookup reads, one for each of `c`
    /// dimensions, in subtables of `2^log_m` entries.
    fn to_indices(&self, c: usize, log_m: usize) -> (indices: Vec<usize>)
        ensures
            indices@ == self.spec_to_indices(c as nat, log_m as nat),
    ;

    /// The instruction's output, collated from one value for each
    /// memory.
    fn combine_lookups<F: JoltField>(vals: &[F], c: usize, m: usize) -> (r: F)
        requires
            vals@.len() == c * Self::spec_num_subtables(c as nat, m as nat),
        ensures
            r.value() == Self::spec_combine_lookups(
                field_scalars(vals@),
                c as nat,
                m as nat,
                F::modulus(),
            ),
    ;

    /// The total degree of the collation polynomial.
    fn g_poly_degree(c: usize) -> (d: usize)
        ensures
            d == Self::spec_g_poly_degree(c as nat),
    ;
}

} // verus!
