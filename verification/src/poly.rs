//! Multilinear polynomials, held by their evaluations over the hypercube.

use vstd::prelude::*;
use crate::field::JoltField;

verus! {

/// Every entry of `s`, reduced modulo `modulus`.
pub open spec fn reduce_all(s: Seq<nat>, modulus: nat) -> Seq<nat> {
    Seq::new(
        s.len(),
        |i: int|
            if modulus > 0 {
                s[i] % modulus
            } else {
                s[i]
            },
    )
}

/// The entries of `v`, as integers.
pub open spec fn u16_scalars(v: Seq<u16>) -> Seq<nat> {
    Seq::new(v.len(), |i: int| v[i] as nat)
}

/// The entries of `v`, as integers.
pub open spec fn u32_scalars(v: Seq<u32>) -> Seq<nat> {
    Seq::new(v.len(), |i: int| v[i] as nat)
}

/// The canonical representatives of the entries of `v`.
pub open spec fn field_scalars<F: JoltField>(v: Seq<F>) -> Seq<nat> {
    Seq::new(v.len(), |i: int| v[i].value())
}

/// A multilinear polynomial, given by its evaluations on the boolean
/// hypercube. Evaluations that are known to be small are kept as machine
/// integers.
pub enum MultilinearPolynomial<F> {
    U16Scalars(Vec<u16>),
    U32Scalars(Vec<u32>),
    LargeScalars(Vec<F>),
}

impl<F> Default for MultilinearPolynomial<F> {
    /// The polynomial without evaluations.
    fn default() -> (poly: Self)
        ensures
            poly is LargeScalars,
            poly->LargeScalars_0@.len() == 0,
    {
        MultilinearPolynomial::LargeScalars(Vec::new())
    }
}

/// Whether the two polynomials hold the same evaluations in the same form.
pub open spec fn same_polynomial<F: JoltField>(
    a: MultilinearPolynomial<F>,
    b: MultilinearPolynomial<F>,
) -> bool {
    &&& a.scalars() == b.scalars()
    &&& a is U16Scalars <==> b is U16Scalars
    &&& a is U32Scalars <==> b is U32Scalars
}

impl<F: JoltField> MultilinearPolynomial<F> {
    /// The evaluations as integers: the stored integer for a small scalar,
    /// the canonical representative for a field element.
    pub open spec fn scalars(&self) -> Seq<nat> {
        match self {
            MultilinearPolynomial::U16Scalars(v) => u16_scalars(v@),
            MultilinearPolynomial::U32Scalars(v) => u32_scalars(v@),
            MultilinearPolynomial::LargeScalars(v) => field_scalars(v@),
        }
    }

    /// The evaluations as field elements.
    pub open spec fn coeffs(&self) -> Seq<nat> {
        reduce_all(self.scalars(), F::modulus())
    }

    pub open spec fn spec_len(&self) -> nat {
        self.scalars().len()
    }

    /// There are as many coefficients as evaluations.
    pub proof fn lemma_coeffs_len(&self)
        ensures
            self.coeffs().len() == self.spec_len(),
    {
    }

    /// The number of evaluations held.
    pub fn len(&self) -> (n: usize)
        ensures
            n == self.spec_len(),
    {
        match self {
            MultilinearPolynomial::U16Scalars(v) => v.len(),
            MultilinearPolynomial::U32Scalars(v) => v.len(),
            MultilinearPolynomial::LargeScalars(v) => v.len(),
        }
    }

    /// Evaluation `index`, as a field element.
    pub fn get_coeff(&self, index: usize) -> (r: F)
        requires
            index < self.spec_len(),
        ensures
            r.value() == self.coeffs()[index as int],
    {
        proof {
            F::lemma_modulus_bound();
            assert(self.coeffs()[index as int] == self.scalars()[index as int] % F::modulus());
        }
        match self {
            MultilinearPolynomial::U16Scalars(v) => F::from_u64(v[index] as u64),
            MultilinearPolynomial::U32Scalars(v) => F::from_u64(v[index] as u64),
            MultilinearPolynomial::LargeScalars(v) => {
                proof {
                    v[index as int].lemma_value_bound();
                    vstd::arithmetic::div_mod::lemma_small_mod(
                        v[index as int].value(),
                        F::modulus(),
                    );
                }
                v[index]
            },
        }
    }

    /// The evaluations of a polynomial of 16-bit scalars.
    pub fn as_u16(&self) -> (v: &Vec<u16>)
        requires
            self is U16Scalars,
        ensures
            u16_scalars(v@) == self.scalars(),
            *self == MultilinearPolynomial::<F>::U16Scalars(*v),
    {
        match self {
            MultilinearPolynomial::U16Scalars(v) => v,
            _ => vstd::pervasive::unreached(),
        }
    }

    /// The evaluations of a polynomial of 32-bit scalars.
    pub fn as_u32(&self) -> (v: &Vec<u32>)
        requires
            self is U32Scalars,
        ensures
            u32_scalars(v@) == self.scalars(),
            *self == MultilinearPolynomial::<F>::U32Scalars(*v),
    {
        match self {
            MultilinearPolynomial::U32Scalars(v) => v,
            _ => vstd::pervasive::unreached(),
        }
    }

    /// A copy of the polynomial.
    pub fn duplicate(&self) -> (copy: Self)
        ensures
            same_polynomial(copy, *self),
    {
        match self {
            MultilinearPolynomial::U16Scalars(v) => {
                let copy = MultilinearPolynomial::U16Scalars(copy_of(v));
                assert(copy.scalars() =~= self.scalars());
                copy
            },
            MultilinearPolynomial::U32Scalars(v) => {
                let copy = MultilinearPolynomial::U32Scalars(copy_of(v));
                assert(copy.scalars() =~= self.scalars());
                copy
            },
            MultilinearPolynomial::LargeScalars(v) => {
                let copy = MultilinearPolynomial::LargeScalars(copy_of(v));
                assert(copy.scalars() =~= self.scalars());
                copy
            },
        }
    }
}

/// A vector with the entries of `v`.
fn copy_of<T: Copy>(v: &Vec<T>) -> (w: Vec<T>)
    ensures
        w@ == v@,
{
    let mut w: Vec<T> = Vec::new();
    let mut i: usize = 0;
    while i < v.len()
        invariant
            i <= v.len(),
            w@ == v@.take(i as int),
        decreases v.len() - i,
    {
        w.push(v[i]);
        i += 1;
    }
    assert(v@.take(v@.len() as int) =~= v@);
    w
}

} // verus!
