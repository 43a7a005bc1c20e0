//! Memories: the pairs of a dimension and a subtable, numbered in one range.

use vstd::prelude::*;
use vstd::arithmetic::div_mod::*;
use vstd::arithmetic::mul::*;
use crate::instruction::JoltInstruction;

verus! {

/// The number of memories of an instance with `c` dimensions: one for each
/// pair of a dimension and a subtable.
pub open spec fn spec_num_memories<I: JoltInstruction>(c: nat, m: nat) -> nat {
    c * I::spec_num_subtables(c, m)
}

/// The subtable that memory `i` reads.
pub open spec fn spec_memory_to_subtable_index(i: nat, c: nat) -> nat {
    i / c
}

/// The dimension whose addresses memory `i` is read at.
pub open spec fn spec_memory_to_dimension_index(i: nat, c: nat) -> nat {
    i % c
}

/// The memory of dimension `dimension` and subtable `subtable`.
pub open spec fn spec_memory_index(dimension: nat, subtable: nat, c: nat) -> nat {
    subtable * c + dimension
}

/// The two index maps send a memory to a pair of a dimension and a subtable.
pub proof fn lemma_memory_index_in_range(i: nat, c: nat, num_subtables: nat)
    requires
        c > 0,
        i < c * num_subtables,
    ensures
        spec_memory_to_dimension_index(i, c) < c,
        spec_memory_to_subtable_index(i, c) < num_subtables,
        spec_memory_index(
            spec_memory_to_dimension_index(i, c),
            spec_memory_to_subtable_index(i, c),
            c,
        ) == i,
{
    lemma_fundamental_div_mod(i as int, c as int);
    lemma_mod_bound(i as int, c as int);
    lemma_mul_is_commutative(c as int, (i / c) as int);
    if i / c >= num_subtables {
        lemma_mul_inequality(num_subtables as int, (i / c) as int, c as int);
        lemma_mul_is_commutative(c as int, num_subtables as int);
    }
}

/// Every pair of a dimension and a subtable is the image of the memory
/// `spec_memory_index` names, which lies in range.
pub proof fn lemma_memory_index_of_pair(dimension: nat, subtable: nat, c: nat, num_subtables: nat)
    requires
        dimension < c,
        subtable < num_subtables,
    ensures
        spec_memory_index(dimension, subtable, c) < c * num_subtables,
        spec_memory_to_dimension_index(spec_memory_index(dimension, subtable, c), c) == dimension,
        spec_memory_to_subtable_index(spec_memory_index(dimension, subtable, c), c) == subtable,
{
    lemma_fundamental_div_mod_converse(
        (subtable * c + dimension) as int,
        c as int,
        subtable as int,
        dimension as int,
    );
    lemma_mul_inequality((subtable + 1) as int, num_subtables as int, c as int);
    lemma_mul_is_distributive_add_other_way(c as int, subtable as int, 1);
    lemma_mul_is_commutative(c as int, num_subtables as int);
}

/// The index maps are a bijection between the memories and the pairs of a
/// dimension and a subtable: every memory has a pair in range, two
/// memories with the same pair are the same, and every pair in range is that
/// of a memory.
pub proof fn lemma_memory_index_bijection(c: nat, num_subtables: nat)
    requires
        c > 0,
    ensures
        forall|i: nat|
            i < c * num_subtables ==> #[trigger] spec_memory_to_dimension_index(i, c) < c
                && #[trigger] spec_memory_to_subtable_index(i, c) < num_subtables,
        forall|i: nat, j: nat|
            i < c * num_subtables && j < c * num_subtables
                && #[trigger] spec_memory_to_dimension_index(i, c)
                == #[trigger] spec_memory_to_dimension_index(j, c) && spec_memory_to_subtable_index(
                i,
                c,
            ) == spec_memory_to_subtable_index(j, c) ==> i == j,
        forall|d: nat, k: nat|
            d < c && k < num_subtables ==> #[trigger] spec_memory_index(d, k, c) < c
                * num_subtables && spec_memory_to_dimension_index(spec_memory_index(d, k, c), c)
                == d && spec_memory_to_subtable_index(spec_memory_index(d, k, c), c) == k,
{
    assert forall|i: nat| i < c * num_subtables implies #[trigger] spec_memory_to_dimension_index(
        i,
        c,
    ) < c && #[trigger] spec_memory_to_subtable_index(i, c) < num_subtables by {
        lemma_memory_index_in_range(i, c, num_subtables);
    }
    assert forall|i: nat, j: nat|
        i < c * num_subtables && j < c * num_subtables
            && #[trigger] spec_memory_to_dimension_index(i, c)
            == #[trigger] spec_memory_to_dimension_index(j, c) && spec_memory_to_subtable_index(
            i,
            c,
        ) == spec_memory_to_subtable_index(j, c) implies i == j by {
        lemma_memory_index_in_range(i, c, num_subtables);
        lemma_memory_index_in_range(j, c, num_subtables);
    }
    assert forall|d: nat, k: nat| d < c && k < num_subtables implies #[trigger] spec_memory_index(
        d,
        k,
        c,
    ) < c * num_subtables && spec_memory_to_dimension_index(spec_memory_index(d, k, c), c) == d
        && spec_memory_to_subtable_index(spec_memory_index(d, k, c), c) == k by {
        lemma_memory_index_of_pair(d, k, c, num_subtables);
    }
}

/// The number of memories of the instance.
pub fn num_memories<I: JoltInstruction>(c: usize, m: usize) -> (n: usize)
    requires
        spec_num_memories::<I>(c as nat, m as nat) <= usize::MAX,
    ensures
        n == spec_num_memories::<I>(c as nat, m as nat),
{
    let s: usize = I::num_subtables(c, m);
    c * s
}

/// The subtable that memory `i` reads.
pub fn memory_to_subtable_index(i: usize, c: usize) -> (k: usize)
    requires
        c > 0,
    ensures
        k == spec_memory_to_subtable_index(i as nat, c as nat),
{
    i / c
}

/// The dimension whose addresses memory `i` is read at.
pub fn memory_to_dimension_index(i: usize, c: usize) -> (d: usize)
    requires
        c > 0,
    ensures
        d == spec_memory_to_dimension_index(i as nat, c as nat),
{
    i % c
}

} // verus!
