//! The two public polynomials of the argument: the equality polynomial and
//! the identity polynomial.

use vstd::prelude::*;
use vstd::arithmetic::div_mod::*;
use vstd::arithmetic::mul::*;
use vstd::arithmetic::power2::*;
use crate::field::{field_add, field_mul, field_sub, JoltField};
use crate::poly::field_scalars;

verus! {

/// The unit of the field of order `p`.
pub open spec fn field_one(p: nat) -> nat {
    (1int % (p as int)) as nat
}

/// The factor that one variable contributes to the equality polynomial at
/// the points `r` and `z`: `r * z + (1 - r) * (1 - z)`.
pub open spec fn spec_eq_factor(r: nat, z: nat, p: nat) -> nat {
    field_add(field_mul(r, z, p), field_mul(field_sub(1, r, p), field_sub(1, z, p), p), p)
}

/// The equality polynomial of `r` at the corner of the hypercube whose
/// index is `x`, the first variable being the most significant bit: the
/// product, over the variables, of `r_i` where the bit is set and of
/// `1 - r_i` where it is not.
pub open spec fn spec_eq_weight(r: Seq<nat>, x: nat, p: nat) -> nat
    decreases r.len(),
{
    if r.len() == 0 {
        field_one(p)
    } else {
        let rest = spec_eq_weight(r.drop_last(), x / 2, p);
        if x % 2 == 1 {
            field_mul(rest, r.last(), p)
        } else {
            field_mul(rest, field_sub(1, r.last(), p), p)
        }
    }
}

/// The equality polynomial of `r` on all corners of the hypercube.
pub open spec fn spec_eq_evals(r: Seq<nat>, p: nat) -> Seq<nat> {
    Seq::new(pow2(r.len()), |x: int| spec_eq_weight(r, x as nat, p))
}

/// The equality polynomial of `r` at the point `z`: the product of the
/// factors of all variables.
pub open spec fn spec_eq_evaluate(r: Seq<nat>, z: Seq<nat>, p: nat) -> nat
    decreases r.len(),
{
    if r.len() == 0 {
        field_one(p)
    } else {
        field_mul(
            spec_eq_evaluate(r.drop_last(), z.drop_last(), p),
            spec_eq_factor(r.last(), z.last(), p),
            p,
        )
    }
}

/// The multilinear extension of the map that sends a corner of the hypercube
/// to its index, at the point `r`, the first variable being the most
/// significant bit: the sum of `r_i * 2^(n - 1 - i)`.
pub open spec fn spec_identity_evaluate(r: Seq<nat>, p: nat) -> nat
    decreases r.len(),
{
    if r.len() == 0 {
        0
    } else {
        field_add(field_mul(2, spec_identity_evaluate(r.drop_last(), p), p), r.last(), p)
    }
}

/// The equality polynomial takes reduced values.
pub proof fn lemma_eq_weight_reduced(r: Seq<nat>, x: nat, p: nat)
    requires
        p > 0,
    ensures
        spec_eq_weight(r, x, p) < p,
    decreases r.len(),
{
    if r.len() == 0 {
        lemma_mod_bound(1, p as int);
    } else {
        let rest = spec_eq_weight(r.drop_last(), x / 2, p);
        lemma_mod_bound((rest * r.last()) as int, p as int);
        lemma_mod_bound((rest * field_sub(1, r.last(), p)) as int, p as int);
    }
}

/// Reducing the table of the equality polynomial leaves it as it is.
pub proof fn lemma_eq_evals_reduced(r: Seq<nat>, p: nat)
    requires
        p > 0,
    ensures
        crate::poly::reduce_all(spec_eq_evals(r, p), p) == spec_eq_evals(r, p),
{
    assert forall|x: int| 0 <= x < spec_eq_evals(r, p).len() implies (spec_eq_evals(r, p)[x] % p)
        as nat == spec_eq_evals(r, p)[x] by {
        lemma_eq_weight_reduced(r, x as nat, p);
        lemma_small_mod(spec_eq_evals(r, p)[x], p);
    }
    assert(crate::poly::reduce_all(spec_eq_evals(r, p), p) =~= spec_eq_evals(r, p));
}

/// `s - s * r` is `s * (1 - r)` in the field of order `p`.
pub proof fn lemma_one_minus(s: nat, r: nat, p: nat)
    requires
        p > 0,
    ensures
        field_sub(s, field_mul(s, r, p), p) == field_mul(s, field_sub(1, r, p), p),
{
    let pi = p as int;
    let si = s as int;
    let ri = r as int;
    lemma_mul_mod_noop_right(si, 1 - ri, pi);
    lemma_sub_mod_noop_right(si, si * ri, pi);
    lemma_mul_is_distributive_sub(si, 1, ri);
    lemma_mod_bound(1 - ri, pi);
    lemma_mod_bound(si * ri, pi);
}

/// The table of the equality polynomial of `r`: its value on every corner
/// of the hypercube, in the order of the corners' indices.
pub fn eq_evals<F: JoltField>(r: &[F]) -> (evals: Vec<F>)
    requires
        pow2(r@.len()) <= usize::MAX,
    ensures
        field_scalars(evals@) == spec_eq_evals(field_scalars(r@), F::modulus()),
{
    let ghost p = F::modulus();
    let ghost rs = field_scalars(r@);
    let mut evals: Vec<F> = Vec::new();
    evals.push(F::one());
    proof {
        F::lemma_modulus_bound();
        lemma2_to64();
        lemma_small_mod(1, p);
        assert(rs.take(0).len() == 0);
    }
    let mut j: usize = 0;
    while j < r.len()
        invariant
            j <= r@.len(),
            p == F::modulus(),
            p > 1,
            rs == field_scalars(r@),
            pow2(r@.len()) <= usize::MAX,
            evals@.len() == pow2(j as nat),
            forall|x: int|
                0 <= x < evals@.len() ==> (#[trigger] evals@[x]).value() == spec_eq_weight(
                    rs.take(j as int),
                    x as nat,
                    p,
                ),
        decreases r@.len() - j,
    {
        let ghost prefix = rs.take(j as int);
        let ghost longer = rs.take(j + 1);
        proof {
            lemma_pow2_unfold((j + 1) as nat);
            if j + 1 < r@.len() {
                lemma_pow2_strictly_increases((j + 1) as nat, r@.len());
            }
            assert(longer.drop_last() =~= prefix);
            assert(longer.last() == r@[j as int].value());
        }
        let mut next: Vec<F> = Vec::new();
        let mut k: usize = 0;
        while k < evals.len()
            invariant
                k <= evals@.len(),
                j < r@.len(),
                p == F::modulus(),
                p > 1,
                2 * evals@.len() <= usize::MAX,
                prefix == rs.take(j as int),
                longer == rs.take(j + 1),
                longer.len() == j + 1,
                longer.drop_last() == prefix,
                longer.last() == r@[j as int].value(),
                next@.len() == 2 * k,
                forall|x: int|
                    0 <= x < evals@.len() ==> (#[trigger] evals@[x]).value() == spec_eq_weight(
                        prefix,
                        x as nat,
                        p,
                    ),
                forall|x: int|
                    0 <= x < next@.len() ==> (#[trigger] next@[x]).value() == spec_eq_weight(
                        longer,
                        x as nat,
                        p,
                    ),
            decreases evals@.len() - k,
        {
            let scalar = evals[k];
            let high = scalar.mul(&r[j]);
            let low = scalar.sub(&high);
            proof {
                lemma_one_minus(scalar.value(), r@[j as int].value(), p);
                assert((2 * k) / 2 == k && (2 * k) % 2 == 0);
                assert((2 * k + 1) / 2 == k && (2 * k + 1) % 2 == 1);
                assert(spec_eq_weight(longer, (2 * k) as nat, p) == low.value());
                assert(spec_eq_weight(longer, (2 * k + 1) as nat, p) == high.value());
            }
            next.push(low);
            next.push(high);
            k += 1;
        }
        evals = next;
        j += 1;
    }
    proof {
        assert(rs.take(r@.len() as int) =~= rs);
        assert(field_scalars(evals@) =~= spec_eq_evals(rs, p));
    }
    evals
}

/// The equality polynomial of `r` at the point `z`.
pub fn eq_evaluate<F: JoltField>(r: &[F], z: &[F]) -> (value: F)
    requires
        r@.len() == z@.len(),
    ensures
        value.value() == spec_eq_evaluate(field_scalars(r@), field_scalars(z@), F::modulus()),
{
    let ghost p = F::modulus();
    let ghost rs = field_scalars(r@);
    let ghost zs = field_scalars(z@);
    let one = F::one();
    let mut product = F::one();
    proof {
        F::lemma_modulus_bound();
        lemma_small_mod(1, p);
        assert(rs.take(0).len() == 0);
    }
    let mut i: usize = 0;
    while i < r.len()
        invariant
            i <= r@.len(),
            r@.len() == z@.len(),
            p == F::modulus(),
            p > 1,
            one.value() == 1,
            rs == field_scalars(r@),
            zs == field_scalars(z@),
            product.value() == spec_eq_evaluate(rs.take(i as int), zs.take(i as int), p),
        decreases r@.len() - i,
    {
        let both = r[i].mul(&z[i]);
        let neither = one.sub(&r[i]).mul(&one.sub(&z[i]));
        let factor = both.add(&neither);
        proof {
            assert(rs.take(i + 1).drop_last() =~= rs.take(i as int));
            assert(zs.take(i + 1).drop_last() =~= zs.take(i as int));
            assert(rs.take(i + 1).last() == r@[i as int].value());
            assert(zs.take(i + 1).last() == z@[i as int].value());
            assert(factor.value() == spec_eq_factor(r@[i as int].value(), z@[i as int].value(), p));
        }
        product = product.mul(&factor);
        i += 1;
    }
    proof {
        assert(rs.take(r@.len() as int) =~= rs);
        assert(zs.take(z@.len() as int) =~= zs);
    }
    product
}

/// The multilinear extension of the map from a corner to its index, at the
/// point `r`.
pub fn identity_evaluate<F: JoltField>(r: &[F]) -> (value: F)
    ensures
        value.value() == spec_identity_evaluate(field_scalars(r@), F::modulus()),
{
    let ghost p = F::modulus();
    let ghost rs = field_scalars(r@);
    let two = F::from_u64(2);
    let mut sum = F::zero();
    proof {
        F::lemma_modulus_bound();
        assert(rs.take(0).len() == 0);
    }
    let mut i: usize = 0;
    while i < r.len()
        invariant
            i <= r@.len(),
            p == F::modulus(),
            p > 1,
            two.value() == 2nat % p,
            rs == field_scalars(r@),
            sum.value() == spec_identity_evaluate(rs.take(i as int), p),
        decreases r@.len() - i,
    {
        let ghost before = sum.value();
        sum = two.mul(&sum).add(&r[i]);
        proof {
            assert(rs.take(i + 1).drop_last() =~= rs.take(i as int));
            assert(rs.take(i + 1).last() == r@[i as int].value());
            lemma_mul_mod_noop_left(2, before as int, p as int);
        }
        i += 1;
    }
    proof {
        assert(rs.take(r@.len() as int) =~= rs);
    }
    sum
}

} // verus!
