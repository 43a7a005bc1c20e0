//! The scalar field the argument computes in.

use vstd::prelude::*;
use vstd::arithmetic::div_mod::*;

verus! {

/// Sum in the field of order `p`.
pub open spec fn field_add(x: nat, y: nat, p: nat) -> nat {
    (((x + y) as int) % (p as int)) as nat
}

/// Difference in the field of order `p`.
pub open spec fn field_sub(x: nat, y: nat, p: nat) -> nat {
    ((x - y) % (p as int)) as nat
}

/// Product in the field of order `p`.
pub open spec fn field_mul(x: nat, y: nat, p: nat) -> nat {
    (((x * y) as int) % (p as int)) as nat
}

/// Reducing the left summand first does not change a sum modulo `p`.
pub proof fn lemma_add_mod_left(x: int, y: int, p: int)
    requires
        p > 0,
    ensures
        ((x % p) + y) % p == (x + y) % p,
{
    lemma_add_mod_noop(x, y, p);
    lemma_add_mod_noop(x % p, y, p);
    lemma_mod_twice(x, p);
}

/// Reducing the minuend first does not change a difference modulo `p`.
pub proof fn lemma_sub_mod_left(x: int, y: int, p: int)
    requires
        p > 0,
    ensures
        ((x % p) - y) % p == (x - y) % p,
{
    lemma_sub_mod_noop(x, y, p);
    lemma_sub_mod_noop(x % p, y, p);
    lemma_mod_twice(x, p);
}

/// A field of prime order, seen as the integers modulo `modulus()`.
///
/// Every element has one canonical representative, `value()`, and every
/// operation is stated over these representatives. The contracts use no
/// more of the field than its ring structure.
pub trait JoltField: Sized + Copy + Send + Sync {
    /// The order of the field.
    spec fn modulus() -> nat;

    /// The canonical representative of this element, below `modulus()`.
    spec fn value(&self) -> nat;

    /// The field has at least two elements.
    proof fn lemma_modulus_bound()
        ensures
            1 < Self::modulus(),
    ;

    /// Representatives are reduced.
    proof fn lemma_value_bound(&self)
        ensures
            self.value() < Self::modulus(),
    ;

    /// The zero of the field.
    fn zero() -> (r: Self)
        ensures
            r.value() == 0,
    ;

    /// The unit of the field.
    fn one() -> (r: Self)
        ensures
            r.value() == 1,
    ;

    /// The element that the integer `n` stands for.
    fn from_u64(n: u64) -> (r: Self)
        ensures
            r.value() == (n as nat) % Self::modulus(),
    ;

    /// The sum of the two elements.
    fn add(&self, rhs: &Self) -> (r: Self)
        ensures
            r.value() == field_add(self.value(), rhs.value(), Self::modulus()),
    ;

    /// The difference of the two elements.
    fn sub(&self, rhs: &Self) -> (r: Self)
        ensures
            r.value() == field_sub(self.value(), rhs.value(), Self::modulus()),
    ;

    /// The product of the two elements.
    fn mul(&self, rhs: &Self) -> (r: Self)
        ensures
            r.value() == field_mul(self.value(), rhs.value(), Self::modulus()),
    ;

    /// The square of the element.
    fn square(&self) -> (r: Self)
        ensures
            r.value() == field_mul(self.value(), self.value(), Self::modulus()),
    ;

    /// Whether the two elements are the same.

    fn equals(&self, rhs: &Self) -> (b: bool)
        ensures
            b == (self.value() == rhs.value()),
    ;
}

/// The order of [`Fp`]: the Mersenne prime 2^61 - 1.
pub const FP_MODULUS: u64 = 0x1fff_ffff_ffff_ffff;

/// An element of the field of order [`FP_MODULUS`], held by its reduced
/// representative in one machine word.
#[derive(Clone, Copy, Debug, PartialEq, Eq, Structural)]
pub struct Fp {
    repr: u64,
}

impl Fp {
    /// The element that the integer `n` stands for.
    pub fn new(n: u64) -> (r: Self)
        ensures
            r.value() == (n as nat) % (FP_MODULUS as nat),
    {
        Fp { repr: n % FP_MODULUS }
    }

    /// The canonical representative of the element.
    pub fn to_u64(&self) -> (n: u64)
        ensures
            n as nat == self.value(),
    {
        self.repr % FP_MODULUS
    }
}

impl JoltField for Fp {
    open spec fn modulus() -> nat {
        FP_MODULUS as nat
    }

    closed spec fn value(&self) -> nat {
        (self.repr % FP_MODULUS) as nat
    }

    proof fn lemma_modulus_bound() {
    }

    proof fn lemma_value_bound(&self) {
    }

    fn zero() -> (r: Self) {
        Fp { repr: 0 }
    }

    fn one() -> (r: Self) {
        Fp { repr: 1 }
    }

    fn from_u64(n: u64) -> (r: Self) {
        Fp { repr: n % FP_MODULUS }
    }

    fn add(&self, rhs: &Self) -> (r: Self) {
        let a: u64 = self.repr % FP_MODULUS;
        let b: u64 = rhs.repr % FP_MODULUS;
        Fp { repr: (a + b) % FP_MODULUS }
    }

    fn sub(&self, rhs: &Self) -> (r: Self) {
        let a: u64 = self.repr % FP_MODULUS;
        let b: u64 = rhs.repr % FP_MODULUS;
        let r = Fp { repr: (a + (FP_MODULUS - b)) % FP_MODULUS };
        proof {
            let p = FP_MODULUS as int;
            assert((a + (p - b)) % p == (a - b) % p) by {
                lemma_mod_add_multiples_vanish(a - b, p);
            }
        }
        r
    }

    fn mul(&self, rhs: &Self) -> (r: Self) {
        let a: u128 = (self.repr % FP_MODULUS) as u128;
        let b: u128 = (rhs.repr % FP_MODULUS) as u128;
        assert(a * b < 0x1fff_ffff_ffff_ffff * 0x1fff_ffff_ffff_ffff) by (nonlinear_arith)
            requires
                a < 0x1fff_ffff_ffff_ffff,
                b < 0x1fff_ffff_ffff_ffff,
        ;
        let m: u128 = (a * b) % (FP_MODULUS as u128);
        Fp { repr: m as u64 }
    }

    fn square(&self) -> (r: Self) {
        self.mul(self)
    }

    fn equals(&self, rhs: &Self) -> (b: bool) {
        self.repr % FP_MODULUS == rhs.repr % FP_MODULUS
    }
}

} // verus!
