//! The slots of a Surge instance: one container for its polynomials, their
//! commitments and their openings.

use vstd::prelude::*;
use crate::field::JoltField;
use crate::instruction::JoltInstruction;
use crate::memory::{num_memories, spec_num_memories};
use crate::preprocessing::SurgePreprocessing;

verus! {

/// One value for each slot of a Surge instance.
///
/// The same shape holds the witness polynomials, the commitments to them and
/// their openings at a point. `dim`, `read_cts` and `final_cts` have one slot
/// for each dimension, `E_polys` one for each memory. The last two fields are
/// openings that a verifier computes by itself: they are absent everywhere
/// else.
#[allow(non_snake_case)]
pub struct SurgeStuff<T> {
    /// The address read in each row, one slot for each dimension.
    pub dim: Vec<T>,
    /// The counter read in each row, one slot for each dimension.
    pub read_cts: Vec<T>,
    /// The value read in each row, one slot for each memory.
    pub E_polys: Vec<T>,
    /// The counter of each address after the last row, one slot for each
    /// dimension.
    pub final_cts: Vec<T>,
    /// The opening of the address of the initial and final rows.
    pub a_init_final: Option<T>,
    /// The openings of the values of the initial and final rows, one for
    /// each subtable.
    pub v_init_final: Option<Vec<T>>,
}

impl<T> Default for SurgeStuff<T> {
    /// The container without any slot.
    fn default() -> (stuff: Self)
        ensures
            stuff.has_shape(0, 0),
            stuff.a_init_final is None,
            stuff.v_init_final is None,
    {
        SurgeStuff {
            dim: Vec::new(),
            read_cts: Vec::new(),
            E_polys: Vec::new(),
            final_cts: Vec::new(),
            a_init_final: None,
            v_init_final: None,
        }
    }
}

/// Whether every entry of `slots` is a value that `T::default` returns.
pub open spec fn all_default<T: Default>(slots: Seq<T>) -> bool {
    forall|k: int| 0 <= k < slots.len() ==> call_ensures(T::default, (), #[trigger] slots[k])
}

/// What the references in `refs` point to.
pub open spec fn referents<T>(refs: Seq<&T>) -> Seq<T> {
    Seq::new(refs.len(), |i: int| *refs[i])
}

/// A reference to each element of `values`, in order.
pub fn references<T>(values: &Vec<T>) -> (refs: Vec<&T>)
    ensures
        referents(refs@) == values@,
{
    let mut refs: Vec<&T> = Vec::new();
    let mut i: usize = 0;
    while i < values.len()
        invariant
            i <= values@.len(),
            refs@.len() == i,
            forall|k: int| 0 <= k < i ==> *refs@[k] == values@[k],
        decreases values@.len() - i,
    {
        refs.push(&values[i]);
        i += 1;
    }
    assert(referents(refs@) =~= values@);
    refs
}

impl<T> SurgeStuff<T> {
    /// The slots touched in every row: `dim`, then `read_cts`, then
    /// `E_polys`.
    pub open spec fn spec_read_write_values(&self) -> Seq<T> {
        self.dim@ + self.read_cts@ + self.E_polys@
    }

    /// The slots fixed once the last row is done: `final_cts`.
    pub open spec fn spec_init_final_values(&self) -> Seq<T> {
        self.final_cts@
    }

    /// Whether the container has the shape of an instance with `c`
    /// dimensions and `num_memories` memories.
    pub open spec fn has_shape(&self, c: nat, num_memories: nat) -> bool {
        &&& self.dim@.len() == c
        &&& self.read_cts@.len() == c
        &&& self.final_cts@.len() == c
        &&& self.E_polys@.len() == num_memories
    }

    /// A container of the shape of the instance that `_preprocessing`
    /// belongs to, every slot holding a default value.
    pub fn initialize<F: JoltField, I: JoltInstruction, const C: usize, const M: usize>(
        _preprocessing: &SurgePreprocessing<F, I, C, M>,
    ) -> (stuff: Self) where T: Default
        requires
            spec_num_memories::<I>(C as nat, M as nat) <= usize::MAX,
        ensures
            stuff.has_shape(C as nat, spec_num_memories::<I>(C as nat, M as nat)),
            all_default(stuff.dim@),
            all_default(stuff.read_cts@),
            all_default(stuff.final_cts@),
            all_default(stuff.E_polys@),
            stuff.a_init_final is None,
            stuff.v_init_final is None,
    {
        let memories = num_memories::<I>(C, M);
        SurgeStuff {
            dim: Self::defaults(C),
            read_cts: Self::defaults(C),
            final_cts: Self::defaults(C),
            E_polys: Self::defaults(memories),
            a_init_final: None,
            v_init_final: None,
        }
    }

    /// `n` default values.
    fn defaults(n: usize) -> (v: Vec<T>) where T: Default
        ensures
            v@.len() == n,
            all_default(v@),
    {
        let mut v: Vec<T> = Vec::new();
        let mut i: usize = 0;
        while i < n
            invariant
                i <= n,
                v@.len() == i,
                all_default(v@),
            decreases n - i,
        {
            v.push(T::default());
            i += 1;
        }
        v
    }

    /// References to the slots touched in every row, in the order `dim`,
    /// `read_cts`, `E_polys`.
    pub fn read_write_values(&self) -> (values: Vec<&T>)
        ensures
            referents(values@) == self.spec_read_write_values(),
    {
        let mut values: Vec<&T> = Vec::new();
        let mut i: usize = 0;
        while i < self.dim.len()
            invariant
                i <= self.dim@.len(),
                values@.len() == i,
                forall|k: int| 0 <= k < i ==> *values@[k] == self.dim@[k],
            decreases self.dim@.len() - i,
        {
            values.push(&self.dim[i]);
            i += 1;
        }
        let c: usize = self.dim.len();
        let mut i: usize = 0;
        while i < self.read_cts.len()
            invariant
                i <= self.read_cts@.len(),
                c == self.dim@.len(),
                values@.len() == c + i,
                forall|k: int| 0 <= k < c ==> *values@[k] == self.dim@[k],
                forall|k: int| 0 <= k < i ==> *values@[c + k] == self.read_cts@[k],
            decreases self.read_cts@.len() - i,
        {
            values.push(&self.read_cts[i]);
            i += 1;
        }
        let r: usize = self.read_cts.len();
        let mut i: usize = 0;
        while i < self.E_polys.len()
            invariant
                i <= self.E_polys@.len(),
                c == self.dim@.len(),
                r == self.read_cts@.len(),
                values@.len() == c + r + i,
                forall|k: int| 0 <= k < c ==> *values@[k] == self.dim@[k],
                forall|k: int| 0 <= k < r ==> *values@[c + k] == self.read_cts@[k],
                forall|k: int| 0 <= k < i ==> *values@[c + r + k] == self.E_polys@[k],
            decreases self.E_polys@.len() - i,
        {
            values.push(&self.E_polys[i]);
            i += 1;
        }
        assert(referents(values@) =~= self.spec_read_write_values()) by {
            assert forall|k: int| 0 <= k < values@.len() implies referents(values@)[k]
                == self.spec_read_write_values()[k] by {
                if k >= c + r {
                    assert(*values@[c + r + (k - c - r)] == self.E_polys@[k - c - r]);
                } else if k >= c {
                    assert(*values@[c + (k - c)] == self.read_cts@[k - c]);
                }
            }
        }
        values
    }

    /// References to the slots fixed once the last row is done.
    pub fn init_final_values(&self) -> (values: Vec<&T>)
        ensures
            referents(values@) == self.spec_init_final_values(),
    {
        references(&self.final_cts)
    }

    /// Fills the slots touched in every row from `values`, in the order
    /// `dim`, `read_cts`, `E_polys`. The shape stays as it is.
    pub fn set_read_write_values(&mut self, values: Vec<T>)
        requires
            values@.len() == old(self).spec_read_write_values().len(),
        ensures
            final(self).spec_read_write_values() == values@,
            final(self).dim@.len() == old(self).dim@.len(),
            final(self).read_cts@.len() == old(self).read_cts@.len(),
            final(self).E_polys@.len() == old(self).E_polys@.len(),
            final(self).final_cts == old(self).final_cts,
            final(self).a_init_final == old(self).a_init_final,
            final(self).v_init_final == old(self).v_init_final,
    {
        let c: usize = self.dim.len();
        let r: usize = self.read_cts.len();
        let mut dim = values;
        let mut read_cts = dim.split_off(c);
        let e_polys = read_cts.split_off(r);
        assert(dim@ + read_cts@ + e_polys@ =~= values@);
        self.dim = dim;
        self.read_cts = read_cts;
        self.E_polys = e_polys;
    }

    /// Fills the slots fixed once the last row is done.
    pub fn set_init_final_values(&mut self, values: Vec<T>)
        requires
            values@.len() == old(self).spec_init_final_values().len(),
        ensures
            final(self).spec_init_final_values() == values@,
            final(self).dim == old(self).dim,
            final(self).read_cts == old(self).read_cts,
            final(self).E_polys == old(self).E_polys,
            final(self).a_init_final == old(self).a_init_final,
            final(self).v_init_final == old(self).v_init_final,
    {
        self.final_cts = values;
    }
}

} // verus!
