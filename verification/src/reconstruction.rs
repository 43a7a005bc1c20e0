//! The tuples that a verifier rebuilds from openings are the openings of the
//! leaves that a prover computes.

use vstd::prelude::*;
use vstd::arithmetic::div_mod::*;
use vstd::arithmetic::power2::*;
use crate::field::{field_add, JoltField};
use crate::instruction::JoltInstruction;
use crate::leaves::{
    is_trace, spec_memory_final_leaves, spec_memory_init_leaves, spec_memory_read_leaves,
    spec_memory_write_leaves, spec_rows,
};
use crate::memory::{
    lemma_memory_index_in_range, spec_memory_to_dimension_index, spec_memory_to_subtable_index,
    spec_num_memories,
};
use crate::openings::{
    has_verifier_openings, spec_final_tuple, spec_init_tuple, spec_read_tuple, spec_write_tuple,
    SurgeOpenings,
};
use crate::preprocessing::spec_materialized_subtable;
use crate::witness::SurgePolynomials;
use crate::fingerprint::{lemma_fingerprint_of_integers, spec_fingerprint};
use crate::eq_poly::{spec_eq_weight, spec_identity_evaluate};
use crate::mle::{
    int_eq_weight, int_mle_dot, int_weight_sum, lemma_identity_table_extends,
    lemma_mle_sum_reduces, lemma_weights_sum_to_one, spec_identity_table, spec_mle_evaluate,
    spec_mle_sum,
};
use crate::poly::reduce_all;

verus! {

/// The fingerprints of the tuples whose addresses, values and timestamps
/// are the entries of `a`, `v` and `t`.
pub open spec fn spec_fingerprints(
    a: Seq<nat>,
    v: Seq<nat>,
    t: Seq<nat>,
    gamma: nat,
    tau: nat,
    p: nat,
) -> Seq<nat> {
    Seq::new(a.len(), |x: int| spec_fingerprint(a[x], v[x], t[x], gamma, tau, p))
}

/// Adding one weighted tuple to each of the three weighted sums adds the
/// weighted fingerprint polynomial of the tuple.
proof fn lemma_weighted_step(
    dt: int,
    dv: int,
    da: int,
    ds: int,
    t: int,
    v: int,
    a: int,
    w: int,
    g: int,
    g2: int,
    tau: int,
)
    ensures
        (dt + t * w) * g2 + (dv + v * w) * g + (da + a * w) - tau * (ds + w) == (dt * g2 + dv * g
            + da - tau * ds) + (t * g2 + v * g + a - tau) * w,
{
    let tw = t * w;
    let vw = v * w;
    assert((dt + tw) * g2 == dt * g2 + tw * g2) by (nonlinear_arith);
    assert((dv + vw) * g == dv * g + vw * g) by (nonlinear_arith);
    assert(tau * (ds + w) == tau * ds + tau * w) by (nonlinear_arith);
    assert(tw * g2 == (t * g2) * w) by (nonlinear_arith)
        requires
            tw == t * w,
    ;
    assert(vw * g == (v * g) * w) by (nonlinear_arith)
        requires
            vw == v * w,
    ;
    let tg = t * g2;
    let vg = v * g;
    assert((tg + vg + a - tau) * w == tg * w + vg * w + a * w - tau * w) by (nonlinear_arith);
}

/// Over the first `upto` corners, the weighted sum of the fingerprints is,
/// modulo `p`, the fingerprint polynomial of the weighted sums of the
/// entries, with `tau` taken once for each unit of weight.
proof fn lemma_fingerprints_dot(
    a: Seq<nat>,
    v: Seq<nat>,
    t: Seq<nat>,
    point: Seq<nat>,
    upto: int,
    gamma: nat,
    tau: nat,
    p: nat,
)
    requires
        p > 0,
        0 <= upto <= a.len(),
    ensures
        int_mle_dot(spec_fingerprints(a, v, t, gamma, tau, p), point, upto) % (p as int) == (
        int_mle_dot(t, point, upto) * (gamma * gamma) + int_mle_dot(v, point, upto) * gamma
            + int_mle_dot(a, point, upto) - tau * int_weight_sum(point, upto)) % (p as int),
    decreases upto,
{
    let pi = p as int;
    let leaves = spec_fingerprints(a, v, t, gamma, tau, p);
    if upto > 0 {
        lemma_fingerprints_dot(a, v, t, point, upto - 1, gamma, tau, p);
        let x = upto - 1;
        let w = int_eq_weight(point, x as nat);
        let g = gamma as int;
        let g2 = (gamma * gamma) as int;
        let leaf = t[x] * g2 + v[x] * g + a[x] - tau;
        assert(leaves[x] == leaf % pi);
        let dt = int_mle_dot(t, point, x);
        let dv = int_mle_dot(v, point, x);
        let da = int_mle_dot(a, point, x);
        let ds = int_weight_sum(point, x);
        let before = dt * g2 + dv * g + da - tau * ds;
        let after = (dt + t[x] * w) * g2 + (dv + v[x] * w) * g + (da + a[x] * w) - tau * (ds + w);
        lemma_weighted_step(dt, dv, da, ds, t[x] as int, v[x] as int, a[x] as int, w, g, g2, tau as int);
        // the sum of the leaves grows by the reduced leaf times the weight
        lemma_mul_mod_noop_left(leaf, w, pi);
        lemma_add_mod_noop(int_mle_dot(leaves, point, x), leaves[x] * w, pi);
        lemma_add_mod_noop(before, leaf * w, pi);
    }
}

/// Fingerprinting commutes with multilinear extension: the extension of
/// the fingerprints of a family of tuples, at any point, is the fingerprint
/// of the extensions of the addresses, of the values and of the timestamps.
pub proof fn lemma_fingerprints_extend(
    a: Seq<nat>,
    v: Seq<nat>,
    t: Seq<nat>,
    point: Seq<nat>,
    gamma: nat,
    tau: nat,
    p: nat,
)
    requires
        p > 0,
        a.len() == pow2(point.len()),
    ensures
        spec_mle_evaluate(spec_fingerprints(a, v, t, gamma, tau, p), point, p) == spec_fingerprint(
            spec_mle_evaluate(a, point, p),
            spec_mle_evaluate(v, point, p),
            spec_mle_evaluate(t, point, p),
            gamma,
            tau,
            p,
        ),
{
    let n = pow2(point.len()) as int;
    let leaves = spec_fingerprints(a, v, t, gamma, tau, p);
    lemma_mle_sum_reduces(leaves, point, n, p);
    lemma_mle_sum_reduces(a, point, n, p);
    lemma_mle_sum_reduces(v, point, n, p);
    lemma_mle_sum_reduces(t, point, n, p);
    lemma_fingerprints_dot(a, v, t, point, n, gamma, tau, p);
    lemma_weights_sum_to_one(point);
    lemma_fingerprint_of_integers(
        int_mle_dot(a, point, n),
        int_mle_dot(v, point, n),
        int_mle_dot(t, point, n),
        gamma,
        tau,
        p,
    );
    assert(tau * 1 == tau);
}

/// The extension of a table depends on the table only through the field
/// elements that its entries stand for.
pub proof fn lemma_mle_of_residues(coeffs: Seq<nat>, point: Seq<nat>, p: nat)
    requires
        p > 0,
        coeffs.len() == pow2(point.len()),
    ensures
        spec_mle_evaluate(reduce_all(coeffs, p), point, p) == spec_mle_evaluate(coeffs, point, p),
{
    lemma_mle_sum_of_residues(coeffs, point, pow2(point.len()) as int, p);
}

/// The sum that extends a table depends on the first `upto` entries only
/// through the field elements that they stand for.
proof fn lemma_mle_sum_of_residues(coeffs: Seq<nat>, point: Seq<nat>, upto: int, p: nat)
    requires
        p > 0,
        upto <= coeffs.len(),
    ensures
        spec_mle_sum(reduce_all(coeffs, p), point, upto, p) == spec_mle_sum(
            coeffs,
            point,
            upto,
            p,
        ),
    decreases upto,
{
    if upto > 0 {
        lemma_mle_sum_of_residues(coeffs, point, upto - 1, p);
        let w = spec_eq_weight(point, (upto - 1) as nat, p);
        assert(reduce_all(coeffs, p)[upto - 1] == coeffs[upto - 1] % p);
        lemma_mul_mod_noop_left(coeffs[upto - 1] as int, w as int, p as int);
    }
}

/// The entries of `t`, each raised by one.
pub open spec fn spec_successors(t: Seq<nat>) -> Seq<nat> {
    Seq::new(t.len(), |x: int| t[x] + 1)
}

/// A table of `len` zeros.
pub open spec fn spec_zeros(len: nat) -> Seq<nat> {
    Seq::new(len, |x: int| 0nat)
}

/// The entries of a subtable, as integers.
pub open spec fn spec_table_values(table: Seq<u32>) -> Seq<nat> {
    Seq::new(table.len(), |x: int| table[x] as nat)
}

/// Over the integers, raising every entry by one raises the weighted sum by
/// the sum of the weights.
proof fn lemma_successors_dot(t: Seq<nat>, point: Seq<nat>, upto: int)
    requires
        0 <= upto <= t.len(),
    ensures
        int_mle_dot(spec_successors(t), point, upto) == int_mle_dot(t, point, upto)
            + int_weight_sum(point, upto),
    decreases upto,
{
    if upto > 0 {
        lemma_successors_dot(t, point, upto - 1);
        let w = int_eq_weight(point, (upto - 1) as nat);
        let entry = t[upto - 1] as int;
        assert(spec_successors(t)[upto - 1] == entry + 1);
        assert((entry + 1) * w == entry * w + w) by (nonlinear_arith);
    }
}

/// Raising every entry of a table by one raises its extension by one.
pub proof fn lemma_successors_extend(t: Seq<nat>, point: Seq<nat>, p: nat)
    requires
        p > 0,
        t.len() == pow2(point.len()),
    ensures
        spec_mle_evaluate(spec_successors(t), point, p) == field_add(
            spec_mle_evaluate(t, point, p),
            1,
            p,
        ),
{
    let n = pow2(point.len()) as int;
    lemma_mle_sum_reduces(spec_successors(t), point, n, p);
    lemma_mle_sum_reduces(t, point, n, p);
    lemma_successors_dot(t, point, n);
    lemma_weights_sum_to_one(point);
    crate::field::lemma_add_mod_left(int_mle_dot(t, point, n), 1, p as int);
    lemma_mod_bound(int_mle_dot(t, point, n), p as int);
}

/// Over the integers, the weighted sum of zeros is zero.
proof fn lemma_zeros_dot(len: nat, point: Seq<nat>, upto: int)
    requires
        0 <= upto <= len,
    ensures
        int_mle_dot(spec_zeros(len), point, upto) == 0,
    decreases upto,
{
    if upto > 0 {
        lemma_zeros_dot(len, point, upto - 1);
        assert(spec_zeros(len)[upto - 1] == 0);
        assert(0 * int_eq_weight(point, (upto - 1) as nat) == 0);
    }
}

/// The extension of the table of zeros is zero.
pub proof fn lemma_zeros_extend(point: Seq<nat>, p: nat)
    requires
        p > 0,
    ensures
        spec_mle_evaluate(spec_zeros(pow2(point.len())), point, p) == 0,
{
    let n = pow2(point.len());
    lemma_mle_sum_reduces(spec_zeros(n), point, n as int, p);
    lemma_zeros_dot(n, point, n as int);
    lemma_small_mod(0, p);
}

/// The fingerprint of a tuple of field elements.
pub open spec fn spec_tuple_fingerprint(tuple: (nat, nat, nat), gamma: nat, tau: nat, p: nat) -> nat {
    spec_fingerprint(tuple.0, tuple.1, tuple.2, gamma, tau, p)
}

/// Whether `o` holds the openings of the polynomials of the trace `w`: of
/// those touched in every row at `r_read_write`, of the final counters at
/// `r_init_final`.
pub open spec fn opens_trace<F: JoltField>(
    o: SurgeOpenings<F>,
    w: SurgePolynomials<F>,
    r_read_write: Seq<nat>,
    r_init_final: Seq<nat>,
) -> bool {
    &&& o.dim@.len() == w.dim@.len()
    &&& o.read_cts@.len() == w.read_cts@.len()
    &&& o.E_polys@.len() == w.E_polys@.len()
    &&& o.final_cts@.len() == w.final_cts@.len()
    &&& forall|d: int|
        0 <= d < w.dim@.len() ==> (#[trigger] o.dim@[d]).value() == spec_mle_evaluate(
            w.dim@[d].coeffs(),
            r_read_write,
            F::modulus(),
        )
    &&& forall|d: int|
        0 <= d < w.read_cts@.len() ==> (#[trigger] o.read_cts@[d]).value() == spec_mle_evaluate(
            w.read_cts@[d].coeffs(),
            r_read_write,
            F::modulus(),
        )
    &&& forall|k: int|
        0 <= k < w.E_polys@.len() ==> (#[trigger] o.E_polys@[k]).value() == spec_mle_evaluate(
            w.E_polys@[k].coeffs(),
            r_read_write,
            F::modulus(),
        )
    &&& forall|d: int|
        0 <= d < w.final_cts@.len() ==> (#[trigger] o.final_cts@[d]).value() == spec_mle_evaluate(
            w.final_cts@[d].coeffs(),
            r_init_final,
            F::modulus(),
        )
}

/// Whether the openings that the verifier computed by itself are those of
/// the identity table and of the subtables at `r_init_final`.
pub open spec fn opens_subtables<F: JoltField, I: JoltInstruction>(
    o: SurgeOpenings<F>,
    c: nat,
    m: nat,
    r_init_final: Seq<nat>,
) -> bool {
    &&& has_verifier_openings::<F, I>(o, c, m)
    &&& o.a_init_final->0.value() == spec_mle_evaluate(
        spec_identity_table(r_init_final.len()),
        r_init_final,
        F::modulus(),
    )
    &&& forall|s: int|
        0 <= s < I::spec_num_subtables(c, m) ==> (#[trigger] o.v_init_final->0@[s]).value()
            == spec_mle_evaluate(
            spec_table_values(spec_materialized_subtable::<I>(s as nat, c, m)),
            r_init_final,
            F::modulus(),
        )
}

/// Whether, at `point`, what the family computes as the extension of each
/// of its subtables is the multilinear extension of the subtable.
pub open spec fn family_extends_subtables<I: JoltInstruction>(
    c: nat,
    m: nat,
    point: Seq<nat>,
    p: nat,
) -> bool {
    forall|s: int|
        0 <= s < I::spec_num_subtables(c, m) ==> #[trigger] I::spec_subtable_mle(
            s as nat,
            point,
            c,
            m,
            p,
        ) == spec_mle_evaluate(
            spec_table_values(spec_materialized_subtable::<I>(s as nat, c, m)),
            point,
            p,
        )
}

/// What `compute_verifier_openings` computes are the openings of the
/// identity table and of the subtables, for a family that extends its
/// subtables.
pub proof fn lemma_verifier_openings_open_subtables<F: JoltField, I: JoltInstruction>(
    o: SurgeOpenings<F>,
    c: nat,
    m: nat,
    r_init_final: Seq<nat>,
)
    requires
        has_verifier_openings::<F, I>(o, c, m),
        o.a_init_final->0.value() == spec_identity_evaluate(r_init_final, F::modulus()),
        forall|s: int|
            0 <= s < I::spec_num_subtables(c, m) ==> (#[trigger] o.v_init_final->0@[s]).value()
                == I::spec_subtable_mle(s as nat, r_init_final, c, m, F::modulus()),
        family_extends_subtables::<I>(c, m, r_init_final, F::modulus()),
    ensures
        opens_subtables::<F, I>(o, c, m, r_init_final),
{
    F::lemma_modulus_bound();
    lemma_identity_table_extends(r_init_final, F::modulus());
    assert forall|s: int| 0 <= s < I::spec_num_subtables(c, m) implies (
    #[trigger] o.v_init_final->0@[s]).value() == spec_mle_evaluate(
        spec_table_values(spec_materialized_subtable::<I>(s as nat, c, m)),
        r_init_final,
        F::modulus(),
    ) by {
        assert(I::spec_subtable_mle(s as nat, r_init_final, c, m, F::modulus())
            == spec_mle_evaluate(
            spec_table_values(spec_materialized_subtable::<I>(s as nat, c, m)),
            r_init_final,
            F::modulus(),
        ));
    }
}

/// The tuples that a verifier rebuilds for a memory from the openings of
/// the trace at a point fingerprint to the openings, at that point, of the
/// leaves that the prover computed for the reads and the writes of the
/// memory.
pub proof fn lemma_read_write_tuples_open_leaves<F: JoltField, I: JoltInstruction>(
    w: SurgePolynomials<F>,
    o: SurgeOpenings<F>,
    k: int,
    c: nat,
    m: nat,
    r_read_write: Seq<nat>,
    r_init_final: Seq<nat>,
    gamma: nat,
    tau: nat,
)
    requires
        is_trace::<F, I>(w, c, m),
        spec_rows(w) == pow2(r_read_write.len()),
        opens_trace(o, w, r_read_write, r_init_final),
        0 <= k < spec_num_memories::<I>(c, m),
    ensures
        spec_mle_evaluate(
            spec_memory_read_leaves(w, k, c, gamma, tau),
            r_read_write,
            F::modulus(),
        ) == spec_tuple_fingerprint(spec_read_tuple(o, k, c), gamma, tau, F::modulus()),
        spec_mle_evaluate(
            spec_memory_write_leaves(w, k, c, gamma, tau),
            r_read_write,
            F::modulus(),
        ) == spec_tuple_fingerprint(spec_write_tuple(o, k, c), gamma, tau, F::modulus()),
{
    let p = F::modulus();
    F::lemma_modulus_bound();
    lemma_memory_index_in_range(k as nat, c, I::spec_num_subtables(c, m));
    let d = spec_memory_to_dimension_index(k as nat, c) as int;
    let a = w.dim@[d].scalars();
    let v = w.E_polys@[k].scalars();
    let t = w.read_cts@[d].scalars();
    assert(a.len() == w.dim@[d].spec_len());
    assert(v.len() == w.E_polys@[k].spec_len());
    assert(t.len() == w.read_cts@[d].spec_len());
    lemma_mle_of_residues(a, r_read_write, p);
    lemma_mle_of_residues(v, r_read_write, p);
    lemma_mle_of_residues(t, r_read_write, p);
    assert(o.dim@[d].value() == spec_mle_evaluate(a, r_read_write, p));
    assert(o.E_polys@[k].value() == spec_mle_evaluate(v, r_read_write, p));
    assert(o.read_cts@[d].value() == spec_mle_evaluate(t, r_read_write, p));

    assert(spec_memory_read_leaves(w, k, c, gamma, tau) =~= spec_fingerprints(
        a,
        v,
        t,
        gamma,
        tau,
        p,
    ));
    lemma_fingerprints_extend(a, v, t, r_read_write, gamma, tau, p);

    assert(spec_memory_write_leaves(w, k, c, gamma, tau) =~= spec_fingerprints(
        a,
        v,
        spec_successors(t),
        gamma,
        tau,
        p,
    ));
    lemma_fingerprints_extend(a, v, spec_successors(t), r_read_write, gamma, tau, p);
    lemma_successors_extend(t, r_read_write, p);
}

/// The tuples that a verifier rebuilds for a memory from the openings at a
/// point fingerprint to the openings, at that point, of the leaves that the
/// prover computed for the initial and the final state of the memory.
pub proof fn lemma_init_final_tuples_open_leaves<F: JoltField, I: JoltInstruction>(
    w: SurgePolynomials<F>,
    o: SurgeOpenings<F>,
    k: int,
    c: nat,
    m: nat,
    r_read_write: Seq<nat>,
    r_init_final: Seq<nat>,
    gamma: nat,
    tau: nat,
)
    requires
        is_trace::<F, I>(w, c, m),
        m == pow2(r_init_final.len()),
        opens_trace(o, w, r_read_write, r_init_final),
        opens_subtables::<F, I>(o, c, m, r_init_final),
        0 <= k < spec_num_memories::<I>(c, m),
    ensures
        spec_mle_evaluate(
            spec_memory_init_leaves::<I>(k, c, m, gamma, tau, F::modulus()),
            r_init_final,
            F::modulus(),
        ) == spec_tuple_fingerprint(spec_init_tuple(o, k, c), gamma, tau, F::modulus()),
        spec_mle_evaluate(
            spec_memory_final_leaves::<F, I>(w, k, c, m, gamma, tau),
            r_init_final,
            F::modulus(),
        ) == spec_tuple_fingerprint(spec_final_tuple(o, k, c), gamma, tau, F::modulus()),
{
    let p = F::modulus();
    F::lemma_modulus_bound();
    lemma_memory_index_in_range(k as nat, c, I::spec_num_subtables(c, m));
    let d = spec_memory_to_dimension_index(k as nat, c) as int;
    let s = spec_memory_to_subtable_index(k as nat, c);
    let table = spec_materialized_subtable::<I>(s, c, m);
    let a = spec_identity_table(r_init_final.len());
    let v = spec_table_values(table);
    let t = w.final_cts@[d].scalars();
    assert(t.len() == w.final_cts@[d].spec_len());
    lemma_mle_of_residues(t, r_init_final, p);
    assert(o.final_cts@[d].value() == spec_mle_evaluate(t, r_init_final, p));
    assert(o.v_init_final->0@[s as int].value() == spec_mle_evaluate(v, r_init_final, p));

    assert(spec_memory_init_leaves::<I>(k, c, m, gamma, tau, p) =~= spec_fingerprints(
        a,
        v,
        spec_zeros(m),
        gamma,
        tau,
        p,
    ));
    lemma_fingerprints_extend(a, v, spec_zeros(m), r_init_final, gamma, tau, p);
    lemma_zeros_extend(r_init_final, p);

    assert(spec_memory_final_leaves::<F, I>(w, k, c, m, gamma, tau) =~= spec_fingerprints(
        a,
        v,
        t,
        gamma,
        tau,
        p,
    ));
    lemma_fingerprints_extend(a, v, t, r_init_final, gamma, tau, p);
}

} // verus!
