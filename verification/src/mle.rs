//! Evaluation of multilinear extensions, and the extension of the table of
//! the equality polynomial.

use vstd::prelude::*;
use vstd::arithmetic::div_mod::*;
use vstd::arithmetic::power2::*;
use crate::eq_poly::{
    spec_eq_evals, spec_eq_evaluate, spec_eq_factor, spec_eq_weight, spec_identity_evaluate,
};
use crate::eq_poly::eq_evals;
use crate::field::{field_add, field_mul, JoltField};
use crate::poly::{field_scalars, MultilinearPolynomial};
use crate::stuff::{references, referents};

verus! {

/// The sum, over the first `upto` corners of the hypercube, of the
/// evaluation at the corner times the weight of the corner at `point`.
pub open spec fn spec_mle_sum(coeffs: Seq<nat>, point: Seq<nat>, upto: int, p: nat) -> nat
    decreases upto,
{
    if upto <= 0 {
        0
    } else {
        field_add(
            spec_mle_sum(coeffs, point, upto - 1, p),
            field_mul(coeffs[upto - 1], spec_eq_weight(point, (upto - 1) as nat, p), p),
            p,
        )
    }
}

/// The multilinear extension of the evaluations `coeffs` at `point`, in the
/// field of order `p`.
pub open spec fn spec_mle_evaluate(coeffs: Seq<nat>, point: Seq<nat>, p: nat) -> nat {
    spec_mle_sum(coeffs, point, pow2(point.len()) as int, p)
}

/// The weight of corner `x` at `r` over the integers.
pub open spec fn int_eq_weight(r: Seq<nat>, x: nat) -> int
    decreases r.len(),
{
    if r.len() == 0 {
        1
    } else {
        int_eq_weight(r.drop_last(), x / 2) * int_eq_bit(r.last(), x % 2 == 1)
    }
}

/// The factor of one variable in a weight: `r` where the bit is set,
/// `1 - r` where it is not.
pub open spec fn int_eq_bit(r: nat, set: bool) -> int {
    if set {
        r as int
    } else {
        1 - r
    }
}

/// The sum, over the first `upto` corners, of the product of the weights at
/// `r` and at `z`, over the integers.
pub open spec fn int_eq_dot(r: Seq<nat>, z: Seq<nat>, upto: int) -> int
    decreases upto,
{
    if upto <= 0 {
        0
    } else {
        int_eq_dot(r, z, upto - 1) + int_eq_weight(r, (upto - 1) as nat) * int_eq_weight(
            z,
            (upto - 1) as nat,
        )
    }
}

/// The factor of one variable in the equality polynomial over the integers.
pub open spec fn int_eq_factor(r: nat, z: nat) -> int {
    r * z + (1 - r) * (1 - z)
}

/// The equality polynomial of `r` at `z` over the integers.
pub open spec fn int_eq_product(r: Seq<nat>, z: Seq<nat>) -> int
    decreases r.len(),
{
    if r.len() == 0 {
        1
    } else {
        int_eq_product(r.drop_last(), z.drop_last()) * int_eq_factor(r.last(), z.last())
    }
}

/// A weight in the field is the weight over the integers, reduced.
proof fn lemma_eq_weight_reduces(r: Seq<nat>, x: nat, p: nat)
    requires
        p > 0,
    ensures
        spec_eq_weight(r, x, p) == int_eq_weight(r, x) % (p as int),
    decreases r.len(),
{
    let pi = p as int;
    if r.len() > 0 {
        lemma_eq_weight_reduces(r.drop_last(), x / 2, p);
        let rest = int_eq_weight(r.drop_last(), x / 2);
        let last = r.last() as int;
        if x % 2 == 1 {
            lemma_mul_mod_noop_left(rest, last, pi);
        } else {
            lemma_mul_mod_noop_general(rest, 1 - last, pi);
            lemma_mod_bound(1 - last, pi);
        }
    }
}

/// The factor of one variable in the field is the factor over the integers,
/// reduced.
proof fn lemma_eq_factor_reduces(r: nat, z: nat, p: nat)
    requires
        p > 0,
    ensures
        spec_eq_factor(r, z, p) == int_eq_factor(r, z) % (p as int),
{
    let pi = p as int;
    let ri = r as int;
    let zi = z as int;
    lemma_mul_mod_noop_general(1 - ri, 1 - zi, pi);
    lemma_mod_bound(1 - ri, pi);
    lemma_mod_bound(1 - zi, pi);
    lemma_add_mod_noop(ri * zi, (1 - ri) * (1 - zi), pi);
    lemma_mod_bound(ri * zi, pi);
    lemma_mod_bound((1 - ri) * (1 - zi), pi);
}

/// The equality polynomial in the field is the one over the integers,
/// reduced.
proof fn lemma_eq_evaluate_reduces(r: Seq<nat>, z: Seq<nat>, p: nat)
    requires
        p > 0,
    ensures
        spec_eq_evaluate(r, z, p) == int_eq_product(r, z) % (p as int),
    decreases r.len(),
{
    let pi = p as int;
    if r.len() > 0 {
        lemma_eq_evaluate_reduces(r.drop_last(), z.drop_last(), p);
        lemma_eq_factor_reduces(r.last(), z.last(), p);
        lemma_mul_mod_noop_general(
            int_eq_product(r.drop_last(), z.drop_last()),
            int_eq_factor(r.last(), z.last()),
            pi,
        );
    }
}

/// The sum that extends the table of the equality polynomial of `r` is the
/// sum of the products of the weights over the integers, reduced.
proof fn lemma_eq_sum_reduces(r: Seq<nat>, z: Seq<nat>, upto: int, p: nat)
    requires
        p > 0,
        0 <= upto <= pow2(r.len()),
    ensures
        spec_mle_sum(spec_eq_evals(r, p), z, upto, p) == int_eq_dot(r, z, upto) % (p as int),
    decreases upto,
{
    let pi = p as int;
    if upto > 0 {
        lemma_eq_sum_reduces(r, z, upto - 1, p);
        let x = (upto - 1) as nat;
        lemma_eq_weight_reduces(r, x, p);
        lemma_eq_weight_reduces(z, x, p);
        assert(spec_eq_evals(r, p)[upto - 1] == spec_eq_weight(r, x, p));
        lemma_mul_mod_noop_general(int_eq_weight(r, x), int_eq_weight(z, x), pi);
        lemma_add_mod_noop(
            int_eq_dot(r, z, upto - 1),
            int_eq_weight(r, x) * int_eq_weight(z, x),
            pi,
        );
        lemma_mod_bound(int_eq_dot(r, z, upto - 1), pi);
        lemma_mod_bound(int_eq_weight(r, x) * int_eq_weight(z, x), pi);
    } else {
        lemma_small_mod(0, p);
    }
}

/// The corners come in pairs that differ in the last variable: the sum over
/// the first `2 * pairs` corners is the sum over the first `pairs` corners
/// of one variable less, times the factor of the last variable.
proof fn lemma_eq_dot_pairs(r: Seq<nat>, z: Seq<nat>, pairs: int)
    requires
        r.len() > 0,
        z.len() == r.len(),
        0 <= pairs,
    ensures
        int_eq_dot(r, z, 2 * pairs) == int_eq_dot(r.drop_last(), z.drop_last(), pairs)
            * int_eq_factor(r.last(), z.last()),
    decreases pairs,
{
    if pairs > 0 {
        lemma_eq_dot_pairs(r, z, pairs - 1);
        let y = (pairs - 1) as nat;
        let even = (2 * pairs - 2) as nat;
        let odd = (2 * pairs - 1) as nat;
        assert(even / 2 == y && even % 2 == 0);
        assert(odd / 2 == y && odd % 2 == 1);
        let wr = int_eq_weight(r.drop_last(), y);
        let wz = int_eq_weight(z.drop_last(), y);
        let rl = r.last() as int;
        let zl = z.last() as int;
        assert(int_eq_weight(r, even) == wr * (1 - rl));
        assert(int_eq_weight(z, even) == wz * (1 - zl));
        assert(int_eq_weight(r, odd) == wr * rl);
        assert(int_eq_weight(z, odd) == wz * zl);
        let before = int_eq_dot(r.drop_last(), z.drop_last(), pairs - 1);
        let factor = int_eq_factor(r.last(), z.last());
        assert(int_eq_dot(r, z, 2 * pairs) == int_eq_dot(r, z, 2 * pairs - 2) + wr * (1 - rl) * (
        wz * (1 - zl)) + wr * rl * (wz * zl)) by {
            assert(int_eq_dot(r, z, 2 * pairs) == int_eq_dot(r, z, 2 * pairs - 1) + int_eq_weight(
                r,
                odd,
            ) * int_eq_weight(z, odd));
            assert(int_eq_dot(r, z, 2 * pairs - 1) == int_eq_dot(r, z, 2 * pairs - 2)
                + int_eq_weight(r, even) * int_eq_weight(z, even));
        }
        let both = wr * wz;
        let unset = (1 - rl) * (1 - zl);
        let set = rl * zl;
        assert(wr * (1 - rl) * (wz * (1 - zl)) == both * unset) by (nonlinear_arith)
            requires
                both == wr * wz,
                unset == (1 - rl) * (1 - zl),
        ;
        assert(wr * rl * (wz * zl) == both * set) by (nonlinear_arith)
            requires
                both == wr * wz,
                set == rl * zl,
        ;
        assert(both * unset + both * set == both * factor) by (nonlinear_arith)
            requires
                factor == set + unset,
        ;
        assert(before * factor + (wr * wz) * factor == (before + wr * wz) * factor)
            by (nonlinear_arith);
    } else {
        assert(0 * int_eq_factor(r.last(), z.last()) == 0);
    }
}

/// Over the integers, the products of the weights at `r` and at `z` sum,
/// over all corners, to the equality polynomial of `r` at `z`.
proof fn lemma_eq_dot_is_product(r: Seq<nat>, z: Seq<nat>)
    requires
        z.len() == r.len(),
    ensures
        int_eq_dot(r, z, pow2(r.len()) as int) == int_eq_product(r, z),
    decreases r.len(),
{
    lemma2_to64();
    if r.len() == 0 {
        assert(int_eq_dot(r, z, 1) == int_eq_dot(r, z, 0) + int_eq_weight(r, 0) * int_eq_weight(
            z,
            0,
        ));
    } else {
        lemma_pow2_unfold(r.len());
        lemma_eq_dot_is_product(r.drop_last(), z.drop_last());
        lemma_eq_dot_pairs(r, z, pow2((r.len() - 1) as nat) as int);
    }
}

/// The multilinear extension of the table of the equality polynomial of `r`
/// is the equality polynomial of `r`: at every point `z`, it takes the
/// product of the factors of the variables.
pub proof fn lemma_eq_table_extends(r: Seq<nat>, z: Seq<nat>, p: nat)
    requires
        p > 0,
        z.len() == r.len(),
    ensures
        spec_mle_evaluate(spec_eq_evals(r, p), z, p) == spec_eq_evaluate(r, z, p),
{
    lemma_eq_sum_reduces(r, z, pow2(r.len()) as int, p);
    lemma_eq_dot_is_product(r, z);
    lemma_eq_evaluate_reduces(r, z, p);
}

/// The sum, over the first `upto` corners, of the evaluation at the corner
/// times the weight of the corner at `point`, over the integers.
pub open spec fn int_mle_dot(coeffs: Seq<nat>, point: Seq<nat>, upto: int) -> int
    decreases upto,
{
    if upto <= 0 {
        0
    } else {
        int_mle_dot(coeffs, point, upto - 1) + coeffs[upto - 1] * int_eq_weight(
            point,
            (upto - 1) as nat,
        )
    }
}

/// The sum of the weights of the first `upto` corners at `point`, over the
/// integers.
pub open spec fn int_weight_sum(point: Seq<nat>, upto: int) -> int
    decreases upto,
{
    if upto <= 0 {
        0
    } else {
        int_weight_sum(point, upto - 1) + int_eq_weight(point, (upto - 1) as nat)
    }
}

/// The table of the map that sends a corner to its index.
pub open spec fn spec_identity_table(num_vars: nat) -> Seq<nat> {
    Seq::new(pow2(num_vars), |x: int| x as nat)
}

/// The sum that extends a table is the sum over the integers, reduced.
pub proof fn lemma_mle_sum_reduces(coeffs: Seq<nat>, point: Seq<nat>, upto: int, p: nat)
    requires
        p > 0,
        0 <= upto,
    ensures
        spec_mle_sum(coeffs, point, upto, p) == int_mle_dot(coeffs, point, upto) % (p as int),
    decreases upto,
{
    let pi = p as int;
    if upto > 0 {
        lemma_mle_sum_reduces(coeffs, point, upto - 1, p);
        let x = (upto - 1) as nat;
        lemma_eq_weight_reduces(point, x, p);
        let c = coeffs[upto - 1] as int;
        lemma_mul_mod_noop_right(c, int_eq_weight(point, x), pi);
        lemma_add_mod_noop(int_mle_dot(coeffs, point, upto - 1), c * int_eq_weight(point, x), pi);
        lemma_mod_bound(int_mle_dot(coeffs, point, upto - 1), pi);
        lemma_mod_bound(c * int_eq_weight(point, x), pi);
    } else {
        lemma_small_mod(0, p);
    }
}

/// The weights of a pair of corners that differ in the last variable sum to
/// the weight of the pair in one variable less.
proof fn lemma_weight_pairs(point: Seq<nat>, pairs: int)
    requires
        point.len() > 0,
        0 <= pairs,
    ensures
        int_weight_sum(point, 2 * pairs) == int_weight_sum(point.drop_last(), pairs),
    decreases pairs,
{
    if pairs > 0 {
        lemma_weight_pairs(point, pairs - 1);
        let y = (pairs - 1) as nat;
        let even = (2 * pairs - 2) as nat;
        let odd = (2 * pairs - 1) as nat;
        assert(even / 2 == y && even % 2 == 0);
        assert(odd / 2 == y && odd % 2 == 1);
        let w = int_eq_weight(point.drop_last(), y);
        let l = point.last() as int;
        assert(int_eq_weight(point, even) == w * (1 - l));
        assert(int_eq_weight(point, odd) == w * l);
        assert(w * (1 - l) + w * l == w) by (nonlinear_arith);
        assert(int_weight_sum(point, 2 * pairs) == int_weight_sum(point, 2 * pairs - 1)
            + int_eq_weight(point, odd));
        assert(int_weight_sum(point, 2 * pairs - 1) == int_weight_sum(point, 2 * pairs - 2)
            + int_eq_weight(point, even));
    }
}

/// The weights of all corners sum to one.
pub proof fn lemma_weights_sum_to_one(point: Seq<nat>)
    ensures
        int_weight_sum(point, pow2(point.len()) as int) == 1,
    decreases point.len(),
{
    lemma2_to64();
    if point.len() == 0 {
        assert(int_weight_sum(point, 1) == int_weight_sum(point, 0) + int_eq_weight(point, 0));
    } else {
        lemma_pow2_unfold(point.len());
        lemma_weights_sum_to_one(point.drop_last());
        lemma_weight_pairs(point, pow2((point.len() - 1) as nat) as int);
    }
}

/// The index of a corner, weighted: over the first `2 * pairs` corners the
/// sum is twice the sum over the first `pairs` corners of one variable
/// less, plus the last coordinate for each of these.
proof fn lemma_identity_pairs(point: Seq<nat>, pairs: int)
    requires
        point.len() > 0,
        0 <= pairs <= pow2((point.len() - 1) as nat),
    ensures
        int_mle_dot(spec_identity_table(point.len()), point, 2 * pairs) == 2 * int_mle_dot(
            spec_identity_table((point.len() - 1) as nat),
            point.drop_last(),
            pairs,
        ) + point.last() * int_weight_sum(point.drop_last(), pairs),
    decreases pairs,
{
    lemma_pow2_unfold(point.len());
    let table = spec_identity_table(point.len());
    let shorter = spec_identity_table((point.len() - 1) as nat);
    if pairs > 0 {
        lemma_identity_pairs(point, pairs - 1);
        let y = (pairs - 1) as nat;
        let even = (2 * pairs - 2) as nat;
        let odd = (2 * pairs - 1) as nat;
        assert(even / 2 == y && even % 2 == 0);
        assert(odd / 2 == y && odd % 2 == 1);
        let w = int_eq_weight(point.drop_last(), y);
        let l = point.last() as int;
        assert(int_eq_weight(point, even) == w * (1 - l));
        assert(int_eq_weight(point, odd) == w * l);
        assert(table[even as int] == even);
        assert(table[odd as int] == odd);
        assert(shorter[y as int] == y);
        assert(int_mle_dot(table, point, 2 * pairs) == int_mle_dot(table, point, 2 * pairs - 1)
            + odd * (w * l));
        assert(int_mle_dot(table, point, 2 * pairs - 1) == int_mle_dot(table, point, 2 * pairs - 2)
            + even * (w * (1 - l)));
        let unset = w * (1 - l);
        let set = w * l;
        assert(unset == w - set) by (nonlinear_arith)
            requires
                unset == w * (1 - l),
                set == w * l,
        ;
        assert(even * unset + odd * set == 2 * (y * w) + set) by (nonlinear_arith)
            requires
                even == 2 * y,
                odd == 2 * y + 1,
                unset == w - set,
        ;
        let before = int_mle_dot(shorter, point.drop_last(), pairs - 1);
        let total = int_weight_sum(point.drop_last(), pairs - 1);
        assert(l * (total + w) == l * total + l * w) by (nonlinear_arith);
        assert(w * l == l * w) by (nonlinear_arith);
    } else {
        assert(point.last() * 0 == 0);
    }
}

/// Over the integers, the extension of the identity table at `point` is
/// the sum of the coordinates, each weighted by the power of two of its
/// position, the first coordinate being the most significant.
proof fn lemma_identity_dot(point: Seq<nat>)
    ensures
        int_mle_dot(spec_identity_table(point.len()), point, pow2(point.len()) as int)
            == int_identity(point),
    decreases point.len(),
{
    lemma2_to64();
    if point.len() == 0 {
        let table = spec_identity_table(0);
        assert(int_mle_dot(table, point, 1) == int_mle_dot(table, point, 0) + table[0]
            * int_eq_weight(point, 0));
    } else {
        lemma_pow2_unfold(point.len());
        lemma_identity_dot(point.drop_last());
        lemma_weights_sum_to_one(point.drop_last());
        lemma_identity_pairs(point, pow2((point.len() - 1) as nat) as int);
    }
}

/// The sum of the coordinates of `point`, each weighted by the power of two
/// of its position, over the integers.
pub open spec fn int_identity(point: Seq<nat>) -> int
    decreases point.len(),
{
    if point.len() == 0 {
        0
    } else {
        2 * int_identity(point.drop_last()) + point.last()
    }
}

/// The weighted sum of the coordinates in the field is the one over the
/// integers, reduced.
proof fn lemma_identity_reduces(point: Seq<nat>, p: nat)
    requires
        p > 0,
    ensures
        spec_identity_evaluate(point, p) == int_identity(point) % (p as int),
    decreases point.len(),
{
    let pi = p as int;
    if point.len() > 0 {
        lemma_identity_reduces(point.drop_last(), p);
        let before = int_identity(point.drop_last());
        lemma_mul_mod_noop_right(2, before, pi);
        lemma_add_mod_noop(2 * before, point.last() as int, pi);
        lemma_mod_bound(2 * before, pi);
        crate::field::lemma_add_mod_left(2 * before, point.last() as int, pi);
    } else {
        lemma_small_mod(0, p);
    }
}

/// The multilinear extension of the map that sends a corner to its index is
/// what `spec_identity_evaluate` computes.
pub proof fn lemma_identity_table_extends(point: Seq<nat>, p: nat)
    requires
        p > 0,
    ensures
        spec_mle_evaluate(spec_identity_table(point.len()), point, p) == spec_identity_evaluate(
            point,
            p,
        ),
{
    lemma_mle_sum_reduces(
        spec_identity_table(point.len()),
        point,
        pow2(point.len()) as int,
        p,
    );
    lemma_identity_dot(point);
    lemma_identity_reduces(point, p);
}

/// The multilinear extension of each of `polys` at `point`.
pub fn evaluate_all<F: JoltField>(polys: &Vec<MultilinearPolynomial<F>>, point: &[F]) -> (values:
    Vec<F>)
    requires
        pow2(point@.len()) <= usize::MAX,
        forall|k: int|
            0 <= k < polys@.len() ==> (#[trigger] polys@[k]).spec_len() == pow2(point@.len()),
    ensures
        values@.len() == polys@.len(),
        forall|k: int|
            0 <= k < polys@.len() ==> (#[trigger] values@[k]).value() == spec_mle_evaluate(
                polys@[k].coeffs(),
                field_scalars(point@),
                F::modulus(),
            ),
{
    let refs = references(polys);
    assert forall|k: int| 0 <= k < refs@.len() implies (#[trigger] refs@[k]).spec_len() == pow2(
        point@.len(),
    ) by {
        assert(referents(refs@)[k] == polys@[k]);
    }
    let values = evaluate_refs(&refs, point);
    assert forall|k: int| 0 <= k < polys@.len() implies (#[trigger] values@[k]).value()
        == spec_mle_evaluate(polys@[k].coeffs(), field_scalars(point@), F::modulus()) by {
        assert(referents(refs@)[k] == polys@[k]);
    }
    values
}

/// The multilinear extension of each of the polynomials that `polys` refers
/// to, at `point`.
pub fn evaluate_refs<F: JoltField>(polys: &Vec<&MultilinearPolynomial<F>>, point: &[F]) -> (values:
    Vec<F>)
    requires
        pow2(point@.len()) <= usize::MAX,
        forall|k: int|
            0 <= k < polys@.len() ==> (#[trigger] polys@[k]).spec_len() == pow2(point@.len()),
    ensures
        values@.len() == polys@.len(),
        forall|k: int|
            0 <= k < polys@.len() ==> (#[trigger] values@[k]).value() == spec_mle_evaluate(
                polys@[k].coeffs(),
                field_scalars(point@),
                F::modulus(),
            ),
{
    let weights = eq_evals(point);
    let ghost r = field_scalars(point@);
    let ghost p = F::modulus();
    assert(field_scalars(weights@).len() == pow2(point@.len()));
    let mut values: Vec<F> = Vec::new();
    let mut k: usize = 0;
    while k < polys.len()
        invariant
            k <= polys@.len(),
            r == field_scalars(point@),
            p == F::modulus(),
            weights@.len() == pow2(point@.len()),
            weights@.len() == pow2(r.len()),
            field_scalars(weights@) == spec_eq_evals(r, p),
            forall|j: int|
                0 <= j < polys@.len() ==> (#[trigger] polys@[j]).spec_len() == pow2(point@.len()),
            values@.len() == k,
            forall|j: int|
                0 <= j < k ==> (#[trigger] values@[j]).value() == spec_mle_evaluate(
                    polys@[j].coeffs(),
                    r,
                    p,
                ),
        decreases polys@.len() - k,
    {
        let poly = polys[k];
        let mut sum = F::zero();
        let mut x: usize = 0;
        while x < weights.len()
            invariant
                x <= weights@.len(),
                p == F::modulus(),
                weights@.len() == pow2(r.len()),
                poly.spec_len() == weights@.len(),
                field_scalars(weights@) == spec_eq_evals(r, p),
                sum.value() == spec_mle_sum(poly.coeffs(), r, x as int, p),
            decreases weights@.len() - x,
        {
            assert(field_scalars(weights@)[x as int] == spec_eq_weight(r, x as nat, p));
            sum = sum.add(&poly.get_coeff(x).mul(&weights[x]));
            x += 1;
        }
        values.push(sum);
        k += 1;
    }
    values
}

} // verus!
