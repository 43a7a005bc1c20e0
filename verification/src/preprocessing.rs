//! Subtables, materialised once for an instruction family.

use vstd::prelude::*;
use std::marker::PhantomData;
use crate::field::JoltField;
use crate::instruction::JoltInstruction;
use crate::parallel::par_map_range;

verus! {

/// Subtable `subtable` of the family, as a dense table of `m` entries.
pub open spec fn spec_materialized_subtable<I: JoltInstruction>(
    subtable: nat,
    c: nat,
    m: nat,
) -> Seq<u32> {
    Seq::new(m, |i: int| I::spec_subtable_entry(subtable, i as nat, c, m))
}

/// Every subtable of the family, in the family's own order.
pub open spec fn spec_materialized_subtables<I: JoltInstruction>(c: nat, m: nat) -> Seq<Seq<u32>> {
    Seq::new(
        I::spec_num_subtables(c, m),
        |k: int| spec_materialized_subtable::<I>(k as nat, c, m),
    )
}

/// The contents of a vector of tables.
pub open spec fn tables_view(tables: Seq<Vec<u32>>) -> Seq<Seq<u32>> {
    Seq::new(tables.len(), |k: int| tables[k]@)
}

/// What is computed once for an instruction family and shared by all its
/// proofs: the family's subtables, each with `M` entries.
pub struct SurgePreprocessing<F, Instruction, const C: usize, const M: usize> where
    F: JoltField,
    Instruction: JoltInstruction,
 {
    _instruction: PhantomData<Instruction>,
    _field: PhantomData<F>,
    materialized_subtables: Vec<Vec<u32>>,
}

impl<F, Instruction, const C: usize, const M: usize> SurgePreprocessing<F, Instruction, C, M> where
    F: JoltField,
    Instruction: JoltInstruction,
 {
    /// The tables held, one sequence for each subtable.
    pub closed spec fn subtables(&self) -> Seq<Seq<u32>> {
        tables_view(self.materialized_subtables@)
    }

    #[verifier::type_invariant]
    spec fn well_formed(&self) -> bool {
        self.subtables() == spec_materialized_subtables::<Instruction>(C as nat, M as nat)
    }

    /// Materialises every subtable of the family.
    pub fn preprocess() -> (preprocessing: Self)
        ensures
            preprocessing.subtables() == spec_materialized_subtables::<Instruction>(
                C as nat,
                M as nat,
            ),
    {
        let n: usize = Instruction::num_subtables(C, M);
        let materialize = |k: usize| -> (table: Vec<u32>)
            requires
                k < n,
            ensures
                table@ == spec_materialized_subtable::<Instruction>(
                    k as nat,
                    C as nat,
                    M as nat,
                ),
            {
                let table = Instruction::materialize_subtable(k, C, M);
                assert(table@ =~= spec_materialized_subtable::<Instruction>(
                    k as nat,
                    C as nat,
                    M as nat,
                ));
                table
            };
        let tables: Vec<Vec<u32>> = par_map_range(n, materialize);
        assert(tables_view(tables@) =~= spec_materialized_subtables::<Instruction>(
            C as nat,
            M as nat,
        ));
        SurgePreprocessing {
            _instruction: PhantomData,
            _field: PhantomData,
            materialized_subtables: tables,
        }
    }

    /// The number of subtables held.
    pub fn num_subtables(&self) -> (n: usize)
        ensures
            n == Instruction::spec_num_subtables(C as nat, M as nat),
    {
        proof {
            use_type_invariant(self);
            assert(self.subtables().len() == self.materialized_subtables@.len());
        }
        self.materialized_subtables.len()
    }

    /// Entry `index` of subtable `subtable`.
    pub fn entry(&self, subtable: usize, index: usize) -> (value: u32)
        requires
            subtable < Instruction::spec_num_subtables(C as nat, M as nat),
            index < M,
        ensures
            value == Instruction::spec_subtable_entry(
                subtable as nat,
                index as nat,
                C as nat,
                M as nat,
            ),
    {
        proof {
            use_type_invariant(self);
            assert(self.subtables().len() == self.materialized_subtables@.len());
            assert(self.subtables()[subtable as int]
                == self.materialized_subtables@[subtable as int]@);
            assert(self.subtables()[subtable as int] == spec_materialized_subtable::<Instruction>(
                subtable as nat,
                C as nat,
                M as nat,
            ));
        }
        self.materialized_subtables[subtable][index]
    }
}

} // verus!
