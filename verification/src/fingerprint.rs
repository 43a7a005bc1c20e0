//! Fingerprints of memory tuples.

use vstd::prelude::*;
use vstd::arithmetic::div_mod::*;
use vstd::arithmetic::mul::*;
use crate::field::{field_add, field_mul, field_sub, lemma_add_mod_left, lemma_sub_mod_left, JoltField};

verus! {

/// The fingerprint of the tuple of address `a`, value `v` and timestamp `t`
/// under the challenges `gamma` and `tau`, in the field of order `p`:
/// `t * gamma^2 + v * gamma + a - tau`.
pub open spec fn spec_fingerprint(a: nat, v: nat, t: nat, gamma: nat, tau: nat, p: nat) -> nat {
    ((t * (gamma * gamma) + v * gamma + a - tau) % (p as int)) as nat
}

/// A fingerprint depends on its tuple only through the field elements that
/// the three entries stand for.
pub proof fn lemma_fingerprint_of_residues(a: nat, v: nat, t: nat, gamma: nat, tau: nat, p: nat)
    requires
        p > 0,
    ensures
        spec_fingerprint(a % p, v % p, t % p, gamma, tau, p) == spec_fingerprint(
            a,
            v,
            t,
            gamma,
            tau,
            p,
        ),
{
    let pi = p as int;
    let g2 = (gamma * gamma) as int;
    let g = gamma as int;
    lemma_mul_mod_noop_left(t as int, g2, pi);
    lemma_mul_mod_noop_left(v as int, g, pi);
    let x = (t % p) * g2;
    let y = (v % p) * g;
    let z = (a % p) as int;
    lemma_mod_twice(a as int, pi);
    // Both sides are sums of three terms that agree modulo p, less tau.
    lemma_fingerprint_terms(x, y, z, t * g2, v * g, a as int, tau as int, pi);
}

/// Sums of three terms that agree termwise modulo `p` agree modulo `p`, also
/// after `w` is taken from both.
proof fn lemma_fingerprint_terms(
    x1: int,
    y1: int,
    z1: int,
    x2: int,
    y2: int,
    z2: int,
    w: int,
    p: int,
)
    requires
        p > 0,
        x1 % p == x2 % p,
        y1 % p == y2 % p,
        z1 % p == z2 % p,
    ensures
        (x1 + y1 + z1 - w) % p == (x2 + y2 + z2 - w) % p,
{
    lemma_add_mod_noop(x1, y1, p);
    lemma_add_mod_noop(x2, y2, p);
    lemma_add_mod_noop(x1 + y1, z1, p);
    lemma_add_mod_noop(x2 + y2, z2, p);
    lemma_sub_mod_left(x1 + y1 + z1, w, p);
    lemma_sub_mod_left(x2 + y2 + z2, w, p);
}

/// The fingerprint of the field elements that three integers stand for is
/// the polynomial `t * gamma^2 + v * gamma + a - tau` of the integers,
/// reduced.
pub proof fn lemma_fingerprint_of_integers(a: int, v: int, t: int, gamma: nat, tau: nat, p: nat)
    requires
        p > 0,
    ensures
        spec_fingerprint(
            (a % (p as int)) as nat,
            (v % (p as int)) as nat,
            (t % (p as int)) as nat,
            gamma,
            tau,
            p,
        ) == (t * (gamma * gamma) + v * gamma + a - tau) % (p as int),
{
    let pi = p as int;
    let g2 = (gamma * gamma) as int;
    let g = gamma as int;
    lemma_mod_bound(a, pi);
    lemma_mod_bound(v, pi);
    lemma_mod_bound(t, pi);
    lemma_mul_mod_noop_left(t, g2, pi);
    lemma_mul_mod_noop_left(v, g, pi);
    lemma_mod_twice(a, pi);
    lemma_fingerprint_terms((t % pi) * g2, (v % pi) * g, a % pi, t * g2, v * g, a, tau as int, pi);
}

/// The step from a read to a write: raising the timestamp by one adds
/// `gamma^2` to the fingerprint.
pub proof fn lemma_write_fingerprint(a: nat, v: nat, t: nat, gamma: nat, tau: nat, p: nat)
    requires
        p > 0,
    ensures
        spec_fingerprint(a, v, t + 1, gamma, tau, p) == field_add(
            spec_fingerprint(a, v, t, gamma, tau, p),
            field_mul(gamma, gamma, p),
            p,
        ),
        field_sub(
            spec_fingerprint(a, v, t + 1, gamma, tau, p),
            spec_fingerprint(a, v, t, gamma, tau, p),
            p,
        ) == field_mul(gamma, gamma, p),
{
    lemma_fingerprint_shift(a, v, t, 1, gamma, tau, p);
    assert(1 * (gamma * gamma) == gamma * gamma);
    let pi = p as int;
    let g2 = (gamma * gamma) as int;
    lemma_mod_twice(g2, pi);
    lemma_mul_mod_noop_left(1, g2 % pi, pi);
}

/// Raising the timestamp by `count` adds `count * gamma^2` to the
/// fingerprint.
pub proof fn lemma_fingerprint_shift(
    a: nat,
    v: nat,
    t: nat,
    count: nat,
    gamma: nat,
    tau: nat,
    p: nat,
)
    requires
        p > 0,
    ensures
        spec_fingerprint(a, v, t + count, gamma, tau, p) == field_add(
            spec_fingerprint(a, v, t, gamma, tau, p),
            field_mul(count, field_mul(gamma, gamma, p), p),
            p,
        ),
        field_sub(
            spec_fingerprint(a, v, t + count, gamma, tau, p),
            spec_fingerprint(a, v, t, gamma, tau, p),
            p,
        ) == field_mul(count, field_mul(gamma, gamma, p), p),
{
    let pi = p as int;
    let g2 = (gamma * gamma) as int;
    let base = t * g2 + v * gamma + a - tau;
    let shifted = (t + count) * g2 + v * gamma + a - tau;
    assert(shifted == base + count * g2) by {
        lemma_mul_is_distributive_add_other_way(g2, t as int, count as int);
    }
    // count * (g2 % p) = count * g2 modulo p
    lemma_mul_mod_noop_right(count as int, g2, pi);
    lemma_mod_twice(count * g2, pi);
    lemma_add_mod_noop(base, count * g2, pi);
    lemma_mod_bound(g2, pi);
    lemma_mod_bound(base, pi);
    lemma_mod_bound(shifted, pi);
    lemma_mod_bound(count * (g2 % pi), pi);
    // the difference
    lemma_sub_mod_noop(shifted, base, pi);
    assert((shifted - base) % pi == (count * g2) % pi);
}

/// The fingerprint of the tuple `inputs`, which holds address, value and
/// timestamp in this order.
pub fn fingerprint<F: JoltField>(inputs: &(F, F, F), gamma: &F, tau: &F) -> (r: F)
    ensures
        r.value() == spec_fingerprint(
            inputs.0.value(),
            inputs.1.value(),
            inputs.2.value(),
            gamma.value(),
            tau.value(),
            F::modulus(),
        ),
{
    let gamma_squared = gamma.square();
    fingerprint_with_square(&inputs.0, &inputs.1, &inputs.2, gamma, &gamma_squared, tau)
}

/// The fingerprint of the tuple `(a, v, t)`, given `gamma` and its square.
pub(crate) fn fingerprint_with_square<F: JoltField>(
    a: &F,
    v: &F,
    t: &F,
    gamma: &F,
    gamma_squared: &F,
    tau: &F,
) -> (r: F)
    requires
        gamma_squared.value() == field_mul(gamma.value(), gamma.value(), F::modulus()),
    ensures
        r.value() == spec_fingerprint(
            a.value(),
            v.value(),
            t.value(),
            gamma.value(),
            tau.value(),
            F::modulus(),
        ),
{
    let x = t.mul(gamma_squared);
    let y = v.mul(gamma);
    let xy = x.add(&y);
    let xya = xy.add(a);
    let r = xya.sub(tau);
    proof {
        F::lemma_modulus_bound();
        let p = F::modulus() as int;
        let g = gamma.value() as int;
        let g2 = g * g;
        let tv = t.value() as int;
        let vv = v.value() as int;
        let av = a.value() as int;
        lemma_mod_bound(g2, p);
        lemma_mul_mod_noop_right(tv, g2, p);
        assert(x.value() == (tv * g2) % p);
        assert(y.value() == (vv * g) % p);
        lemma_add_mod_noop(tv * g2, vv * g, p);
        assert(xy.value() == (tv * g2 + vv * g) % p);
        lemma_add_mod_left(tv * g2 + vv * g, av, p);
        assert(xya.value() == (tv * g2 + vv * g + av) % p);
        lemma_sub_mod_left(tv * g2 + vv * g + av, tau.value() as int, p);
    }
    r
}

} // verus!
