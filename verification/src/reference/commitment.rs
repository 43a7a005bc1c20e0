//! The commitment scheme that commits to a polynomial by the polynomial.

use vstd::prelude::*;
use vstd::arithmetic::power2::pow2;
use crate::commitment::{
    lemma_honest_opening_at, opening_is_honest, openings_are_honest, CommitmentScheme,
    NotedOpening,
};
use crate::math::{lemma_pow2_too_large, pow2_usize};
use crate::mle::{evaluate_refs, spec_mle_evaluate};
use crate::stuff::referents;
use crate::field::JoltField;
use crate::poly::{field_scalars, same_polynomial, MultilinearPolynomial};
use crate::transcript::{Transcript, TranscriptEvent};

verus! {

/// The commitment scheme whose commitment to a polynomial is a copy of the
/// polynomial. It hides nothing; an opening needs no proof, as the verifier
/// evaluates what it holds and keeps in mind whether the claims agreed.
pub struct Transparent;

/// Whether the claims of `opening` are the evaluations, at its point, of the
/// polynomials that it holds as commitments.
pub open spec fn spec_opening_agrees<F: JoltField>(
    opening: NotedOpening<MultilinearPolynomial<F>>,
) -> bool {
    &&& opening.commitments.len() == opening.claims.len()
    &&& forall|k: int|
        0 <= k < opening.commitments.len() ==> {
            &&& (#[trigger] opening.commitments[k]).spec_len() == pow2(opening.point.len())
            &&& opening.claims[k] == spec_mle_evaluate(
                opening.commitments[k].coeffs(),
                opening.point,
                F::modulus(),
            )
        }
}

/// Whether the claims of every opening of `noted` agree with its
/// commitments.
pub open spec fn spec_all_agree<F: JoltField>(
    noted: Seq<NotedOpening<MultilinearPolynomial<F>>>,
) -> bool {
    forall|i: int| 0 <= i < noted.len() ==> spec_opening_agrees(#[trigger] noted[i])
}

/// What the verifier of the transparent scheme gathers: whether every
/// opening that it was shown agrees with the polynomials committed to.
pub struct CheckedOpenings<F: JoltField> {
    all_agree: bool,
    noted: Ghost<Seq<NotedOpening<MultilinearPolynomial<F>>>>,
}

impl<F: JoltField> CheckedOpenings<F> {
    /// The openings taken note of, the oldest first.
    pub closed spec fn spec_noted(&self) -> Seq<NotedOpening<MultilinearPolynomial<F>>> {
        self.noted@
    }

    #[verifier::type_invariant]
    spec fn well_formed(&self) -> bool {
        self.all_agree == spec_all_agree(self.noted@)
    }

    /// Whether every opening taken note of agrees with its commitments.
    pub fn all_agree(&self) -> (agree: bool)
        ensures
            agree == spec_all_agree(self.spec_noted()),
    {
        proof {
            use_type_invariant(self);
        }
        self.all_agree
    }
}

/// Tests whether `claims` are the evaluations of `commitments` at `point`.
fn opening_agrees<F: JoltField>(
    commitments: &Vec<&MultilinearPolynomial<F>>,
    point: &Vec<F>,
    claims: &Vec<F>,
) -> (agrees: bool)
    ensures
        agrees == spec_opening_agrees(
            (NotedOpening {
                commitments: referents(commitments@),
                point: field_scalars(point@),
                claims: field_scalars(claims@),
            }),
        ),
{
    let ghost opening = NotedOpening {
        commitments: referents(commitments@),
        point: field_scalars(point@),
        claims: field_scalars(claims@),
    };
    if commitments.len() != claims.len() {
        return false;
    }
    if commitments.len() == 0 {
        return true;
    }
    if point.len() >= usize::BITS as usize {
        let found = commitments[0].len();
        proof {
            lemma_pow2_too_large(point@.len());
            assert(opening.commitments[0].spec_len() == found);
        }
        return false;
    }
    let rows = pow2_usize(point.len());
    let mut k: usize = 0;
    while k < commitments.len()
        invariant
            k <= commitments@.len(),
            rows == pow2(point@.len()),
            opening.commitments == referents(commitments@),
            opening.point.len() == point@.len(),
            forall|j: int| 0 <= j < k ==> (#[trigger] commitments@[j]).spec_len() == rows,
        decreases commitments@.len() - k,
    {
        if commitments[k].len() != rows {
            assert(opening.commitments[k as int].spec_len() != pow2(opening.point.len()));
            return false;
        }
        k += 1;
    }
    let values = evaluate_refs(commitments, point.as_slice());
    let mut agrees = true;
    let mut k: usize = 0;
    while k < values.len()
        invariant
            k <= values@.len(),
            values@.len() == claims@.len(),
            agrees <==> forall|j: int| 0 <= j < k ==> (#[trigger] values@[j]).value() == claims@[j].value(),
        decreases values@.len() - k,
    {
        if !values[k].equals(&claims[k]) {
            agrees = false;
        }
        k += 1;
    }
    proof {
        assert forall|j: int| 0 <= j < commitments@.len() implies (
        #[trigger] opening.commitments[j]).spec_len() == pow2(opening.point.len()) by {
            assert(commitments@[j].spec_len() == rows);
        }
        if agrees {
            assert forall|j: int| 0 <= j < opening.commitments.len() implies opening.claims[j]
                == spec_mle_evaluate(
                (#[trigger] opening.commitments[j]).coeffs(),
                opening.point,
                F::modulus(),
            ) by {
                assert(values@[j].value() == claims@[j].value());
            }
        } else {
            let j = choose|j: int| 0 <= j < values@.len() && values@[j].value() != claims@[j].value();
            assert(opening.claims[j] != spec_mle_evaluate(
                opening.commitments[j].coeffs(),
                opening.point,
                F::modulus(),
            ));
        }
    }
    agrees
}

/// One more opening agrees with the others if they all agreed and it
/// agrees.
proof fn lemma_all_agree_push<F: JoltField>(
    noted: Seq<NotedOpening<MultilinearPolynomial<F>>>,
    opening: NotedOpening<MultilinearPolynomial<F>>,
)
    ensures
        spec_all_agree(noted.push(opening)) == (spec_all_agree(noted) && spec_opening_agrees(
            opening,
        )),
{
    let longer = noted.push(opening);
    if spec_all_agree(longer) {
        assert forall|i: int| 0 <= i < noted.len() implies spec_opening_agrees(
            #[trigger] noted[i],
        ) by {
            assert(longer[i] == noted[i]);
        }
        assert(longer[noted.len() as int] == opening);
    }
    if spec_all_agree(noted) && spec_opening_agrees(opening) {
        assert forall|i: int| 0 <= i < longer.len() implies spec_opening_agrees(
            #[trigger] longer[i],
        ) by {
            if i < noted.len() {
                assert(longer[i] == noted[i]);
            }
        }
    }
}

/// Honest openings agree with the polynomials committed to.
pub proof fn lemma_honest_openings_agree<F: JoltField, T: Transcript<F>>(
    noted: Seq<NotedOpening<MultilinearPolynomial<F>>>,
)
    requires
        openings_are_honest::<F, T, Transparent>(noted, &()),
    ensures
        spec_all_agree(noted),
{
    assert forall|i: int| 0 <= i < noted.len() implies spec_opening_agrees(#[trigger] noted[i]) by {
        let opening = noted[i];
        let polys = lemma_honest_opening_at::<F, T, Transparent>(noted, &(), i);
        assert(opening_is_honest::<F, T, Transparent>(opening, polys, &()));
        assert forall|k: int| 0 <= k < opening.commitments.len() implies {
            &&& (#[trigger] opening.commitments[k]).spec_len() == pow2(opening.point.len())
            &&& opening.claims[k] == spec_mle_evaluate(
                opening.commitments[k].coeffs(),
                opening.point,
                F::modulus(),
            )
        } by {
            let poly = polys[k];
            assert(<Transparent as CommitmentScheme<F, T>>::commits_to(
                &opening.commitments[k],
                poly,
                &(),
            ));
            assert(same_polynomial(opening.commitments[k], poly));
        }
    }
}

/// The absorption of each of `values`, in order.
pub open spec fn spec_scalar_events(values: Seq<nat>) -> Seq<TranscriptEvent> {
    Seq::new(values.len(), |i: int| TranscriptEvent::Scalar(values[i]))
}

/// The log after an opening was bound to a transcript with the log `log`:
/// the coordinates of the point were absorbed, then the claims, and one
/// challenge was drawn.
pub open spec fn spec_bound_opening(
    point: Seq<nat>,
    claims: Seq<nat>,
    log: Seq<TranscriptEvent>,
) -> Seq<TranscriptEvent> {
    (log + spec_scalar_events(point) + spec_scalar_events(claims)).push(
        TranscriptEvent::Challenge(1),
    )
}

/// Absorbs each of `values` into the transcript.
fn absorb_scalars<F: JoltField, T: Transcript<F>>(values: &Vec<F>, transcript: &mut T)
    ensures
        final(transcript).log() == old(transcript).log() + spec_scalar_events(
            field_scalars(values@),
        ),
{
    let ghost before = transcript.log();
    let ghost events = spec_scalar_events(field_scalars(values@));
    let mut i: usize = 0;
    assert(before + events.take(0) =~= before);
    while i < values.len()
        invariant
            i <= values@.len(),
            events == spec_scalar_events(field_scalars(values@)),
            transcript.log() == before + events.take(i as int),
        decreases values@.len() - i,
    {
        transcript.append_scalar(&values[i]);
        assert(before + events.take(i + 1) =~= (before + events.take(i as int)).push(
            TranscriptEvent::Scalar(values@[i as int].value()),
        ));
        i += 1;
    }
    assert(events.take(values@.len() as int) =~= events);
}

/// Binds the opening at `point` with the claims `claims` to the transcript.
fn bind_opening<F: JoltField, T: Transcript<F>>(
    point: &Vec<F>,
    claims: &Vec<F>,
    transcript: &mut T,
)
    ensures
        final(transcript).log() == spec_bound_opening(
            field_scalars(point@),
            field_scalars(claims@),
            old(transcript).log(),
        ),
{
    absorb_scalars(point, transcript);
    absorb_scalars(claims, transcript);
    let _ = transcript.challenge_vector(1);
}

impl<F: JoltField, T: Transcript<F>> CommitmentScheme<F, T> for Transparent {
    type Setup = ();

    type Commitment = MultilinearPolynomial<F>;

    type ProverAccumulator = ();

    type VerifierAccumulator = CheckedOpenings<F>;

    open spec fn commits_to(
        commitment: &MultilinearPolynomial<F>,
        poly: MultilinearPolynomial<F>,
        setup: &(),
    ) -> bool {
        same_polynomial(*commitment, poly)
    }

    open spec fn noted(accumulator: &CheckedOpenings<F>) -> Seq<
        NotedOpening<MultilinearPolynomial<F>>,
    > {
        accumulator.spec_noted()
    }

    open spec fn spec_opening_log(
        point: Seq<nat>,
        claims: Seq<nat>,
        log: Seq<TranscriptEvent>,
    ) -> Seq<TranscriptEvent> {
        spec_bound_opening(point, claims, log)
    }

    fn batch_commit(polys: &Vec<&MultilinearPolynomial<F>>, setup: &()) -> (commitments: Vec<
        MultilinearPolynomial<F>,
    >) {
        let mut commitments: Vec<MultilinearPolynomial<F>> = Vec::new();
        let mut k: usize = 0;
        while k < polys.len()
            invariant
                k <= polys@.len(),
                commitments@.len() == k,
                forall|j: int|
                    0 <= j < k ==> same_polynomial(#[trigger] commitments@[j], *polys@[j]),
            decreases polys@.len() - k,
        {
            commitments.push(polys[k].duplicate());
            k += 1;
        }
        commitments
    }

    fn new_prover_accumulator() -> () {
        ()
    }

    fn prover_append(
        accumulator: &mut (),
        polys: &Vec<&MultilinearPolynomial<F>>,
        point: &Vec<F>,
        claims: &Vec<F>,
        transcript: &mut T,
    ) {
        bind_opening(point, claims, transcript);
    }

    fn new_verifier_accumulator() -> (accumulator: CheckedOpenings<F>) {
        CheckedOpenings { all_agree: true, noted: Ghost(Seq::empty()) }
    }

    fn verifier_append(
        accumulator: &mut CheckedOpenings<F>,
        commitments: &Vec<&MultilinearPolynomial<F>>,
        point: &Vec<F>,
        claims: &Vec<F>,
        transcript: &mut T,
    ) {
        let ghost opening = NotedOpening {
            commitments: referents(commitments@),
            point: field_scalars(point@),
            claims: field_scalars(claims@),
        };
        let agrees = opening_agrees(commitments, point, claims);
        proof {
            use_type_invariant(&*accumulator);
            lemma_all_agree_push(accumulator.noted@, opening);
        }
        *accumulator = CheckedOpenings {
            all_agree: accumulator.all_agree && agrees,
            noted: Ghost(accumulator.noted@.push(opening)),
        };
        bind_opening(point, claims, transcript);
    }
}

} // verus!
