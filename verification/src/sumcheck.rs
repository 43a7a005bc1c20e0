//! The claim of the primary sumcheck: the sum, over the rows, of the
//! instruction's collation of the values observed, weighted by the equality
//! polynomial.

use vstd::prelude::*;
use vstd::slice::slice_subrange;
use crate::field::{field_add, field_mul, JoltField};
use crate::instruction::JoltInstruction;
use crate::memory::spec_num_memories;
use crate::parallel::par_map_range;
use crate::poly::{field_scalars, MultilinearPolynomial};
use crate::witness::SurgePolynomials;

verus! {

/// The polynomial that the primary sumcheck sums, at one point: the
/// collation of all values but the last, times the last value, which is
/// that of the equality polynomial.
pub open spec fn spec_combine_lookups_eq<I: JoltInstruction>(
    vals: Seq<nat>,
    c: nat,
    m: nat,
    p: nat,
) -> nat {
    field_mul(I::spec_combine_lookups(vals.drop_last(), c, m, p), vals.last(), p)
}

/// The values that the memories observe in row `row`, as field elements.
pub open spec fn spec_row_values<F: JoltField>(polys: SurgePolynomials<F>, row: int) -> Seq<nat> {
    Seq::new(polys.E_polys@.len(), |k: int| polys.E_polys@[k].coeffs()[row])
}

/// The summand of row `row`: the weight `eq[row]` times the collation of
/// the values that the row observes.
pub open spec fn spec_primary_sumcheck_term<F: JoltField, I: JoltInstruction>(
    polys: SurgePolynomials<F>,
    eq: Seq<nat>,
    row: int,
    c: nat,
    m: nat,
) -> nat {
    field_mul(
        eq[row],
        I::spec_combine_lookups(spec_row_values(polys, row), c, m, F::modulus()),
        F::modulus(),
    )
}

/// The sum of the summands of the first `rows` rows.
pub open spec fn spec_primary_sumcheck_claim<F: JoltField, I: JoltInstruction>(
    polys: SurgePolynomials<F>,
    eq: Seq<nat>,
    rows: int,
    c: nat,
    m: nat,
) -> nat
    decreases rows,
{
    if rows <= 0 {
        0
    } else {
        field_add(
            spec_primary_sumcheck_claim::<F, I>(polys, eq, rows - 1, c, m),
            spec_primary_sumcheck_term::<F, I>(polys, eq, rows - 1, c, m),
            F::modulus(),
        )
    }
}

/// Whether the value polynomials of `polys` are those of an instance with
/// `c` dimensions and have `rows` evaluations each.
pub open spec fn has_value_rows<F: JoltField, I: JoltInstruction>(
    polys: SurgePolynomials<F>,
    rows: nat,
    c: nat,
    m: nat,
) -> bool {
    &&& polys.E_polys@.len() == spec_num_memories::<I>(c, m)
    &&& forall|k: int|
        0 <= k < polys.E_polys@.len() ==> (#[trigger] polys.E_polys@[k]).spec_len() == rows
}

/// The combinator of the primary sumcheck: collates all values but the
/// last and multiplies by the last, the value of the equality polynomial.
pub fn combine_lookups_eq<F: JoltField, I: JoltInstruction>(vals: &[F], c: usize, m: usize) -> (r:
    F)
    requires
        vals@.len() == spec_num_memories::<I>(c as nat, m as nat) + 1,
    ensures
        r.value() == spec_combine_lookups_eq::<I>(
            field_scalars(vals@),
            c as nat,
            m as nat,
            F::modulus(),
        ),
{
    let n: usize = vals.len() - 1;
    let vals_no_eq = slice_subrange(vals, 0, n);
    let eq = vals[n];
    assert(field_scalars(vals_no_eq@) =~= field_scalars(vals@).drop_last());
    I::combine_lookups::<F>(vals_no_eq, c, m).mul(&eq)
}

/// The summand of row `row`.
fn primary_sumcheck_term<F: JoltField, I: JoltInstruction>(
    polys: &SurgePolynomials<F>,
    eq: &MultilinearPolynomial<F>,
    row: usize,
    c: usize,
    m: usize,
) -> (term: F)
    requires
        has_value_rows::<F, I>(*polys, eq.spec_len(), c as nat, m as nat),
        row < eq.spec_len(),
    ensures
        term.value() == spec_primary_sumcheck_term::<F, I>(
            *polys,
            eq.coeffs(),
            row as int,
            c as nat,
            m as nat,
        ),
{
    let mut operands: Vec<F> = Vec::new();
    let mut k: usize = 0;
    while k < polys.E_polys.len()
        invariant
            k <= polys.E_polys@.len(),
            has_value_rows::<F, I>(*polys, eq.spec_len(), c as nat, m as nat),
            row < eq.spec_len(),
            operands@.len() == k,
            forall|j: int|
                0 <= j < k ==> (#[trigger] operands@[j]).value() == polys.E_polys@[j].coeffs()[row as int],
        decreases polys.E_polys@.len() - k,
    {
        operands.push(polys.E_polys[k].get_coeff(row));
        k += 1;
    }
    assert(field_scalars(operands@) =~= spec_row_values(*polys, row as int));
    let weight = eq.get_coeff(row);
    weight.mul(&I::combine_lookups::<F>(operands.as_slice(), c, m))
}

/// The claim of the primary sumcheck: the sum, over all rows, of the weight
/// `eq[row]` times the collation of the values that the row observes.
pub fn compute_primary_sumcheck_claim<F: JoltField, I: JoltInstruction>(
    polys: &SurgePolynomials<F>,
    eq: &MultilinearPolynomial<F>,
    c: usize,
    m: usize,
) -> (claim: F)
    requires
        has_value_rows::<F, I>(*polys, eq.spec_len(), c as nat, m as nat),
    ensures
        claim.value() == spec_primary_sumcheck_claim::<F, I>(
            *polys,
            eq.coeffs(),
            eq.spec_len() as int,
            c as nat,
            m as nat,
        ),
{
    let rows: usize = eq.len();
    let term = |row: usize| -> (t: F)
        requires
            row < rows,
        ensures
            t.value() == spec_primary_sumcheck_term::<F, I>(
                *polys,
                eq.coeffs(),
                row as int,
                c as nat,
                m as nat,
            ),
        { primary_sumcheck_term::<F, I>(polys, eq, row, c, m) };
    let terms = par_map_range(rows, term);
    let mut claim = F::zero();
    let mut row: usize = 0;
    while row < rows
        invariant
            row <= rows,
            terms@.len() == rows,
            forall|x: int|
                0 <= x < rows ==> (#[trigger] terms@[x]).value() == spec_primary_sumcheck_term::<
                    F,
                    I,
                >(*polys, eq.coeffs(), x, c as nat, m as nat),
            claim.value() == spec_primary_sumcheck_claim::<F, I>(
                *polys,
                eq.coeffs(),
                row as int,
                c as nat,
                m as nat,
            ),
        decreases rows - row,
    {
        claim = claim.add(&terms[row]);
        row += 1;
    }
    claim
}

/// The values of the polynomials with the evaluations `polys` at corner
/// `x` of the hypercube.
pub open spec fn spec_corner_values(polys: Seq<Seq<nat>>, x: int) -> Seq<nat> {
    Seq::new(polys.len(), |k: int| polys[k][x])
}

/// The sum, over the first `upto` corners of the hypercube, of the summand
/// of the primary sumcheck: the collation of the values of all polynomials
/// but the last, times the value of the last.
pub open spec fn spec_hypercube_sum<I: JoltInstruction>(
    polys: Seq<Seq<nat>>,
    upto: int,
    c: nat,
    m: nat,
    p: nat,
) -> nat
    decreases upto,
{
    if upto <= 0 {
        0
    } else {
        field_add(
            spec_hypercube_sum::<I>(polys, upto - 1, c, m, p),
            spec_combine_lookups_eq::<I>(spec_corner_values(polys, upto - 1), c, m, p),
            p,
        )
    }
}

/// The evaluations of each of `polys`, as field elements.
pub open spec fn poly_coeffs<F: JoltField>(polys: Seq<MultilinearPolynomial<F>>) -> Seq<Seq<nat>> {
    Seq::new(polys.len(), |k: int| polys[k].coeffs())
}

/// The claim of the primary sumcheck is the sum of its summand over the
/// hypercube, the polynomials being the value polynomials followed by the
/// weights.
pub proof fn lemma_claim_is_hypercube_sum<F: JoltField, I: JoltInstruction>(
    polys: SurgePolynomials<F>,
    eq: Seq<nat>,
    rows: int,
    c: nat,
    m: nat,
)
    requires
        0 <= rows <= eq.len(),
    ensures
        spec_primary_sumcheck_claim::<F, I>(polys, eq, rows, c, m) == spec_hypercube_sum::<I>(
            poly_coeffs(polys.E_polys@).push(eq),
            rows,
            c,
            m,
            F::modulus(),
        ),
    decreases rows,
{
    if rows > 0 {
        lemma_claim_is_hypercube_sum::<F, I>(polys, eq, rows - 1, c, m);
        let all = poly_coeffs(polys.E_polys@).push(eq);
        let values = spec_corner_values(all, rows - 1);
        assert(values.drop_last() =~= spec_row_values(polys, rows - 1));
        assert(values.last() == eq[rows - 1]);
        let collated = I::spec_combine_lookups(values.drop_last(), c, m, F::modulus());
        vstd::arithmetic::mul::lemma_mul_is_commutative(collated as int, eq[rows - 1] as int);
    }
}

/// The sum of the summand of the primary sumcheck over a hypercube of
/// `rows` corners.
pub fn hypercube_sum<F: JoltField, I: JoltInstruction>(
    polys: &Vec<MultilinearPolynomial<F>>,
    rows: usize,
    c: usize,
    m: usize,
) -> (sum: F)
    requires
        polys@.len() == spec_num_memories::<I>(c as nat, m as nat) + 1,
        forall|k: int| 0 <= k < polys@.len() ==> (#[trigger] polys@[k]).spec_len() == rows,
    ensures
        sum.value() == spec_hypercube_sum::<I>(
            poly_coeffs(polys@),
            rows as int,
            c as nat,
            m as nat,
            F::modulus(),
        ),
{
    let mut sum = F::zero();
    let mut x: usize = 0;
    while x < rows
        invariant
            x <= rows,
            polys@.len() == spec_num_memories::<I>(c as nat, m as nat) + 1,
            forall|k: int| 0 <= k < polys@.len() ==> (#[trigger] polys@[k]).spec_len() == rows,
            sum.value() == spec_hypercube_sum::<I>(
                poly_coeffs(polys@),
                x as int,
                c as nat,
                m as nat,
                F::modulus(),
            ),
        decreases rows - x,
    {
        let mut values: Vec<F> = Vec::new();
        let mut k: usize = 0;
        while k < polys.len()
            invariant
                k <= polys@.len(),
                x < rows,
                forall|j: int| 0 <= j < polys@.len() ==> (#[trigger] polys@[j]).spec_len() == rows,
                values@.len() == k,
                forall|j: int|
                    0 <= j < k ==> (#[trigger] values@[j]).value() == polys@[j].coeffs()[x as int],
            decreases polys@.len() - k,
        {
            values.push(polys[k].get_coeff(x));
            k += 1;
        }
        assert(field_scalars(values@) =~= spec_corner_values(poly_coeffs(polys@), x as int));
        sum = sum.add(&combine_lookups_eq::<F, I>(values.as_slice(), c, m));
        x += 1;
    }
    sum
}

} // verus!
