//! Batch-evaluation sumcheck.
//!
//! Reduces `M` MLE-evaluation claims `(r_i, v_i)` on a **single** multilinear polynomial `B` of
//! length `2^n` to one point-value pair `(r_B, v_B)` via a random linear combination and a degree-2
//! sumcheck:
//!
//! ```text
//!   V := Σ_i α_i · v_i  with  α_i ← channel.squeeze()
//!   W(x) := Σ_i α_i · eq(r_i, x)
//!   H(x) := W(x) · B(x)
//!
//!   V == Σ_x H(x)   (by linearity of eq)
//!
//!   sumcheck H over n variables → (r_B, claim_B)
//!   verifier checks  claim_B == W(r_B) · v_B_claimed
//! ```
//!
//! `W(r_B)` is recomputed by the verifier as `Σ_i α_i · eq(r_i, r_B)`.  `v_B = B(r_B)` is the reduced
//! claim that the caller discharges against the original MLE or an external opening argument.
use crate::algebra;
use crate::block128::Block128;
use crate::eq::{eq_ind, scaled_eq_table};
use crate::fold::fold_highest_var_inplace;
use crate::mle;
use crate::parallel::map_range;
use crate::poly;
use crate::sumcheck;
use crate::sums;
use crate::tables;
use crate::tables::{copied, reversed, sum_column};
use crate::tower_field::TowerField;
use crate::transcript;
use crate::transcript::{absorb_slice, squeeze_many, FiatShamir};
use vstd::prelude::*;

verus! {

/// Number of rows from which a round polynomial is evaluated in parallel.
const PAR_THRESHOLD: usize = 64;

/// One round of the degree-2 batch-eval sumcheck, stored as its evaluations at `X = 0, 1, 2`.
#[derive(Debug, Clone, Copy, PartialEq, Eq)]
pub struct BatchEvalRound {
    pub evals: [Block128; 3],
}

impl BatchEvalRound {
    /// The sum of the values at zero and one.
    pub fn sum_at_0_plus_1(&self) -> (r: Block128)
        ensures
            r == self.evals@[0].plus(self.evals@[1]),
    {
        self.evals[0] + self.evals[1]
    }

    /// Lagrange-interpolate at `r` from evaluations at `{0,1,2}`.
    pub fn evaluate(&self, r: Block128) -> (value: Block128)
        ensures
            value == poly::interpolate(self.evals@, r),
    {
        lagrange_at_0_1_2(&self.evals, r)
    }
}

/// Lagrange evaluation at a single point from evaluations at `{0,1,2}`.
pub fn lagrange_at_0_1_2(evals: &[Block128; 3], r: Block128) -> (value: Block128)
    ensures
        value == poly::interpolate(evals@, r),
{
    poly::interpolate_at(evals.as_slice(), r)
}

/// One `(r, v)` MLE-evaluation claim on the shared target MLE `B`.
#[derive(Debug, Clone, PartialEq, Eq)]
pub struct EvalClaim {
    pub point: Vec<Block128>,
    pub value: Block128,
}

/// A point and a value.
pub struct ClaimView {
    /// The point, in variable order.
    pub point: Seq<Block128>,
    /// The value claimed there.
    pub value: Block128,
}

impl View for EvalClaim {
    type V = ClaimView;

    open spec fn view(&self) -> ClaimView {
        ClaimView { point: self.point@, value: self.value }
    }
}

/// The points and values of a list of claims.
pub open spec fn claim_views(claims: Seq<EvalClaim>) -> Seq<ClaimView> {
    Seq::new(claims.len(), |i: int| claims[i]@)
}

/// Proof object: one round polynomial per sumcheck variable and the prover's value of `B` at the
/// point that the transcript determines.
#[derive(Debug, Clone, PartialEq, Eq)]
pub struct BatchEvalProof {
    pub rounds: Vec<BatchEvalRound>,
    /// `b_final = B(r_B)`.  The verifier checks it against the last claim; the caller discharges it.
    pub b_final: Block128,
}

/// The contents of a batch-evaluation proof.
pub struct BatchEvalProofView {
    /// The messages of the rounds.
    pub rounds: Seq<Seq<Block128>>,
    /// The claimed value of `B`.
    pub b_final: Block128,
}

/// The messages of a list of rounds.
pub open spec fn messages(rounds: Seq<BatchEvalRound>) -> Seq<Seq<Block128>> {
    Seq::new(rounds.len(), |i: int| rounds[i].evals@)
}

impl View for BatchEvalProof {
    type V = BatchEvalProofView;

    open spec fn view(&self) -> BatchEvalProofView {
        BatchEvalProofView { rounds: messages(self.rounds@), b_final: self.b_final }
    }
}

/// Wire size of a batch-evaluation proof with `n` rounds.
pub open spec fn batch_byte_len(n: nat) -> nat {
    n * 48 + 16
}

impl BatchEvalProof {
    /// Raw field-element byte size: three evaluations per round plus `b_final`, 16 bytes each.
    pub fn byte_len(&self) -> (r: usize)
        requires
            self@.rounds.len() * 48 + 16 <= usize::MAX,
        ensures
            r == batch_byte_len(self@.rounds.len()),
    {
        self.rounds.len() * 3 * 16 + 16
    }
}

/// Output of a successful verification.
#[derive(Debug, Clone, PartialEq, Eq)]
pub struct BatchEvalReduction {
    /// `r_B`, the terminal point of the sumcheck, in variable order.
    pub point: Vec<Block128>,
    /// `v_B = B(r_B)` as claimed by the prover and consistent with the rounds.
    pub value: Block128,
}

impl View for BatchEvalReduction {
    type V = ClaimView;

    open spec fn view(&self) -> ClaimView {
        ClaimView { point: self.point@, value: self.value }
    }
}

/// The elements by which the claims are bound to the transcript: each point followed by its value.
pub open spec fn claims_message(claims: Seq<ClaimView>) -> Seq<Block128>
    decreases claims.len(),
{
    if claims.len() == 0 {
        Seq::empty()
    } else {
        claims_message(claims.drop_last()) + claims.last().point + seq![claims.last().value]
    }
}

/// The transcript state once the claims have been absorbed.
pub open spec fn bound_state<C: FiatShamir<Block128>>(
    claims: Seq<ClaimView>,
    state: C::State,
) -> C::State {
    transcript::absorb_seq::<Block128, C>(state, claims_message(claims))
}

/// The coefficients of the linear combination of the claims.
pub open spec fn alphas<C: FiatShamir<Block128>>(
    claims: Seq<ClaimView>,
    state: C::State,
) -> Seq<Block128> {
    transcript::squeeze_seq::<Block128, C>(bound_state::<C>(claims, state), claims.len())
}

/// The transcript state once the coefficients have been squeezed.
pub open spec fn start_state<C: FiatShamir<Block128>>(
    claims: Seq<ClaimView>,
    state: C::State,
) -> C::State {
    transcript::squeeze_state::<Block128, C>(bound_state::<C>(claims, state), claims.len())
}

/// The linear combination of the claimed values.
pub open spec fn combined_value(claims: Seq<ClaimView>, alphas: Seq<Block128>) -> Block128
    decreases claims.len(),
{
    if claims.len() == 0 {
        Block128::nil()
    } else {
        combined_value(claims.drop_last(), alphas.drop_last()).plus(
            alphas.last().times(claims.last().value),
        )
    }
}

/// The table `W(x) = Σ_i α_i · eq(r_i, x)` in `n` variables.
pub open spec fn w_table(claims: Seq<ClaimView>, alphas: Seq<Block128>, n: nat) -> Seq<Block128>
    decreases claims.len(),
{
    if claims.len() == 0 {
        Seq::new(mle::cube(n), |x: int| Block128::nil())
    } else {
        sums::seq_plus(
            w_table(claims.drop_last(), alphas.drop_last(), n),
            sums::seq_scale(alphas.last(), mle::eq_table(claims.last().point)),
        )
    }
}

/// `W(r) = Σ_i α_i · eq(r_i, r)`.
pub open spec fn w_at(claims: Seq<ClaimView>, alphas: Seq<Block128>, r: Seq<Block128>) -> Block128
    decreases claims.len(),
{
    if claims.len() == 0 {
        Block128::nil()
    } else {
        w_at(claims.drop_last(), alphas.drop_last(), r).plus(
            alphas.last().times(mle::eq_product(claims.last().point, r)),
        )
    }
}

/// The rounds of the honest prover for claims on the table `b` in `n` variables.
pub open spec fn batch_run<C: FiatShamir<Block128>>(
    b: Seq<Block128>,
    claims: Seq<ClaimView>,
    n: nat,
    state: C::State,
) -> sumcheck::Run<Block128, C::State> {
    sumcheck::run::<Block128, C>(
        seq![w_table(claims, alphas::<C>(claims, state), n), b],
        n,
        start_state::<C>(claims, state),
        n,
    )
}

/// What the honest prover sends.
pub open spec fn batch_proof<C: FiatShamir<Block128>>(
    b: Seq<Block128>,
    claims: Seq<ClaimView>,
    n: nat,
    state: C::State,
) -> BatchEvalProofView {
    let all = batch_run::<C>(b, claims, n, state);
    BatchEvalProofView {
        rounds: all.rounds,
        b_final: mle::mle_eval(b, all.challenges.reverse()),
    }
}

/// The reduced claim that the honest prover ends with.
pub open spec fn batch_reduction<C: FiatShamir<Block128>>(
    b: Seq<Block128>,
    claims: Seq<ClaimView>,
    n: nat,
    state: C::State,
) -> ClaimView {
    let at = batch_run::<C>(b, claims, n, state).challenges.reverse();
    ClaimView { point: at, value: mle::mle_eval(b, at) }
}

/// Whether claims and proof have the shape of `n` variables.
pub open spec fn batch_shape(proof: BatchEvalProofView, claims: Seq<ClaimView>, n: nat) -> bool {
    &&& claims.len() > 0
    &&& forall|i: int| 0 <= i < claims.len() ==> (#[trigger] claims[i]).point.len() == n
    &&& proof.rounds.len() == n
}

/// Whether the verifier accepts: the shape is right, every round meets its claim, and the last claim
/// is `W(r_B) · b_final`.
pub open spec fn batch_accepted<C: FiatShamir<Block128>>(
    proof: BatchEvalProofView,
    claims: Seq<ClaimView>,
    n: nat,
    state: C::State,
) -> bool {
    let coeffs = alphas::<C>(claims, state);
    let start = start_state::<C>(claims, state);
    let v = combined_value(claims, coeffs);
    &&& batch_shape(proof, claims, n)
    &&& sumcheck::rounds_read::<Block128, C>(v, proof.rounds, start) == n
    &&& sumcheck::final_claim::<Block128, C>(v, proof.rounds, start) == w_at(
        claims,
        coeffs,
        sumcheck::point::<Block128, C>(start, proof.rounds),
    ).times(proof.b_final)
}

/// The reduced claim that the verifier derives.
pub open spec fn batch_verified<C: FiatShamir<Block128>>(
    proof: BatchEvalProofView,
    claims: Seq<ClaimView>,
    state: C::State,
) -> ClaimView {
    ClaimView {
        point: sumcheck::point::<Block128, C>(start_state::<C>(claims, state), proof.rounds),
        value: proof.b_final,
    }
}

/// The transcript state that the verifier is left with.
pub open spec fn batch_verifier_state<C: FiatShamir<Block128>>(
    proof: BatchEvalProofView,
    claims: Seq<ClaimView>,
    n: nat,
    state: C::State,
) -> C::State {
    if batch_shape(proof, claims, n) {
        sumcheck::verifier_state::<Block128, C>(
            combined_value(claims, alphas::<C>(claims, state)),
            proof.rounds,
            start_state::<C>(claims, state),
        )
    } else {
        state
    }
}

/// A row of two tables is the product of their entries.
pub proof fn lemma_row2(w: Seq<Block128>, b: Seq<Block128>, j: int)
    ensures
        sumcheck::row(seq![w, b], j) == w[j].times(b[j]),
{
    let t2 = seq![w, b];
    let t1 = t2.drop_last();
    assert(t1.drop_last() =~= Seq::empty());
    assert(sumcheck::row(t1.drop_last(), j) == Block128::unit());
    assert(sumcheck::row(t1, j) == Block128::unit().times(w[j]));
    algebra::lemma_neutral_left(w[j]);
}

/// The sum of the rows of two tables is their inner product.
pub proof fn lemma_inner2(w: Seq<Block128>, b: Seq<Block128>)
    requires
        w.len() == b.len(),
    ensures
        sumcheck::inner(seq![w, b], w.len()) == sums::dot(w, b),
{
    let rows = Seq::new(w.len(), |j: int| sumcheck::row(seq![w, b], j));
    assert forall|j: int| 0 <= j < w.len() implies #[trigger] rows[j] == sums::seq_times(w, b)[j] by {
        lemma_row2(w, b, j);
    }
    assert(rows =~= sums::seq_times(w, b));
}

/// The sum of `W · B` is the combined value, and `W` at a point is the combination of the equality
/// indicators.
pub proof fn lemma_w_table(
    b: Seq<Block128>,
    claims: Seq<ClaimView>,
    alphas: Seq<Block128>,
    n: nat,
    r: Seq<Block128>,
)
    requires
        b.len() == mle::cube(n),
        r.len() == n,
        alphas.len() == claims.len(),
        forall|i: int| 0 <= i < claims.len() ==> (#[trigger] claims[i]).point.len() == n,
    ensures
        w_table(claims, alphas, n).len() == mle::cube(n),
        mle::mle_eval(w_table(claims, alphas, n), r) == w_at(claims, alphas, r),
        (forall|i: int|
            0 <= i < claims.len() ==> (#[trigger] claims[i]).value == mle::mle_eval(
                b,
                claims[i].point,
            )) ==> sums::dot(w_table(claims, alphas, n), b) == combined_value(claims, alphas),
    decreases claims.len(),
{
    let w = w_table(claims, alphas, n);
    let eqs = mle::eq_table(r);
    if claims.len() == 0 {
        assert forall|x: int| 0 <= x < w.len() implies #[trigger] sums::seq_times(eqs, w)[x]
            == Block128::nil() && sums::seq_times(w, b)[x] == Block128::nil() by {
            algebra::lemma_times_nil(eqs[x]);
            algebra::lemma_times_nil(b[x]);
        }
        sums::lemma_total_zero(sums::seq_times(eqs, w));
        assert forall|x: int| 0 <= x < w.len() implies #[trigger] sums::seq_times(w, b)[x]
            == Block128::nil() by {
            algebra::lemma_times_nil(b[x]);
        }
        sums::lemma_total_zero(sums::seq_times(w, b));
    } else {
        let last = claims.last();
        let a = alphas.last();
        let (c1, a1) = (claims.drop_last(), alphas.drop_last());
        let w1 = w_table(c1, a1, n);
        let e = mle::eq_table(last.point);
        assert forall|i: int| 0 <= i < c1.len() implies (#[trigger] c1[i]).point.len() == n by {
            assert(c1[i] == claims[i]);
        }
        assert(claims[claims.len() - 1].point.len() == n);
        lemma_w_table(b, c1, a1, n, r);
        let se = sums::seq_scale(a, e);
        mle::lemma_mle_plus(w1, se, r);
        sums::lemma_dot_scale(a, eqs, e);
        mle::lemma_eq_product(last.point, r);
        // The sum against b, with the factors exchanged.
        sums::lemma_dot_comm(w, b);
        sums::lemma_dot_comm(w1, b);
        sums::lemma_dot_plus(b, w1, se);
        sums::lemma_dot_scale(a, b, e);
        sums::lemma_dot_comm(b, e);
        if forall|i: int|
            0 <= i < claims.len() ==> (#[trigger] claims[i]).value == mle::mle_eval(
                b,
                claims[i].point,
            ) {
            assert forall|i: int| 0 <= i < c1.len() implies (#[trigger] c1[i]).value
                == mle::mle_eval(b, c1[i].point) by {
                assert(c1[i] == claims[i]);
            }
            assert(claims[claims.len() - 1].value == mle::mle_eval(b, last.point));
        }
    }
}

/// Completeness: if every claim holds of the table `b`, the verifier accepts the honest proof, ends
/// in the prover's transcript state and derives the prover's reduced claim, which holds of `b`.
pub proof fn batch_completeness<C: FiatShamir<Block128>>(
    b: Seq<Block128>,
    claims: Seq<ClaimView>,
    n: nat,
    state: C::State,
)
    requires
        b.len() == mle::cube(n),
        claims.len() > 0,
        forall|i: int|
            0 <= i < claims.len() ==> (#[trigger] claims[i]).point.len() == n && claims[i].value
                == mle::mle_eval(b, claims[i].point),
    ensures
        ({
            let proof = batch_proof::<C>(b, claims, n, state);
            let reduced = batch_reduction::<C>(b, claims, n, state);
            &&& batch_accepted::<C>(proof, claims, n, state)
            &&& batch_verified::<C>(proof, claims, state) == reduced
            &&& batch_verifier_state::<C>(proof, claims, n, state) == batch_run::<C>(
                b,
                claims,
                n,
                state,
            ).state
            &&& reduced.point.len() == n
            &&& reduced.value == mle::mle_eval(b, reduced.point)
        }),
{
    let coeffs = alphas::<C>(claims, state);
    let start = start_state::<C>(claims, state);
    let w = w_table(claims, coeffs, n);
    let tables = seq![w, b];
    let zeros = Seq::new(n, |i: int| Block128::nil());
    lemma_w_table(b, claims, coeffs, n, zeros);
    lemma_inner2(w, b);
    sumcheck::sumcheck_completeness::<Block128, C>(tables, n, start);
    sumcheck::lemma_run::<Block128, C>(tables, n, start, n);
    let all = batch_run::<C>(b, claims, n, state);
    let at = all.challenges.reverse();
    assert(all.tables =~= seq![all.tables[0], all.tables[1]]);
    lemma_row2(all.tables[0], all.tables[1], 0);
    assert(tables[0] == w && tables[1] == b);
    lemma_w_table(b, claims, coeffs, n, at);
}

/// The claims are bound to the transcript one after the other, each by its point and then its value.
pub proof fn claims_are_bound<C: FiatShamir<Block128>>(
    claims: Seq<ClaimView>,
    claim: ClaimView,
    state: C::State,
)
    ensures
        bound_state::<C>(Seq::empty(), state) == state,
        bound_state::<C>(claims.push(claim), state) == C::absorbed(
            transcript::absorb_seq::<Block128, C>(bound_state::<C>(claims, state), claim.point),
            claim.value,
        ),
{
    let message = claims_message(claims);
    assert(claims.push(claim).drop_last() =~= claims);
    transcript::lemma_absorb_concat::<Block128, C>(state, message, claim.point);
    let whole = message + claim.point;
    transcript::every_element_is_absorbed::<Block128, C>(state, whole, claim.value);
    assert(whole.push(claim.value) =~= whole + seq![claim.value]);
    transcript::every_element_is_absorbed::<Block128, C>(state, message, claim.value);
    assert(claims_message(Seq::empty()) =~= Seq::<Block128>::empty());
}

/// Every claim has a coefficient of its own: coefficient `i` is the challenge that the transcript hands
/// out once all claims have been bound and `i` challenges have been taken.
pub proof fn every_claim_has_its_challenge<C: FiatShamir<Block128>>(
    claims: Seq<ClaimView>,
    state: C::State,
    states: Seq<C::State>,
)
    requires
        states.len() == claims.len() + 1,
        states[0] == bound_state::<C>(claims, state),
        forall|i: int|
            0 <= i < claims.len() ==> states[i + 1] == C::squeezed(#[trigger] states[i]),
    ensures
        alphas::<C>(claims, state).len() == claims.len(),
        forall|i: int|
            0 <= i < claims.len() ==> #[trigger] alphas::<C>(claims, state)[i] == C::challenge(
                states[i],
            ),
        start_state::<C>(claims, state) == states.last(),
{
    transcript::challenges_are_successive::<Block128, C>(states, claims.len());
}

/// The combination is linear in every value: lists of claims that differ in the value at `i` alone
/// combine to values that differ by the difference at `i` times its coefficient, and claims of zero
/// combine to zero.
pub proof fn combination_is_linear(
    claims: Seq<ClaimView>,
    others: Seq<ClaimView>,
    coeffs: Seq<Block128>,
    i: int,
)
    requires
        claims.len() == others.len(),
        claims.len() == coeffs.len(),
        0 <= i < claims.len(),
        forall|k: int|
            0 <= k < claims.len() && k != i ==> (#[trigger] claims[k]).value == others[k].value,
    ensures
        combined_value(claims, coeffs).plus(combined_value(others, coeffs)) == coeffs[i].times(
            claims[i].value.plus(others[i].value),
        ),
        claims[i].value != others[i].value && combined_value(claims, coeffs) == combined_value(
            others,
            coeffs,
        ) ==> coeffs[i] == Block128::nil(),
    decreases claims.len(),
{
    let (c, o, a) = (claims.drop_last(), others.drop_last(), coeffs.drop_last());
    let (x, y, w) = (claims.last().value, others.last().value, coeffs.last());
    let (p, q) = (combined_value(c, a), combined_value(o, a));
    algebra::lemma_plus_swap(p, w.times(x), q, w.times(y));
    Block128::times_laws(w, x, y);
    if i == claims.len() - 1 {
        lemma_same_values(c, o, a);
        Block128::plus_laws(p, p, p);
        algebra::lemma_neutral_left(w.times(x.plus(y)));
    } else {
        assert(claims[claims.len() - 1].value == others[claims.len() - 1].value);
        assert forall|k: int| 0 <= k < c.len() && k != i implies (#[trigger] c[k]).value
            == o[k].value by {
            assert(claims[k].value == others[k].value);
        }
        combination_is_linear(c, o, a, i);
        Block128::plus_laws(w.times(x), w.times(x), w.times(x));
        Block128::plus_laws(p.plus(q), w.times(x), w.times(x));
    }
    let (s, t) = (combined_value(claims, coeffs), combined_value(others, coeffs));
    if s == t && claims[i].value != others[i].value {
        Block128::plus_laws(s, s, s);
        algebra::lemma_no_zero_divisors(coeffs[i], claims[i].value.plus(others[i].value));
        if claims[i].value.plus(others[i].value) == Block128::nil() {
            algebra::lemma_plus_zero_eq(claims[i].value, others[i].value);
        }
    }
}

proof fn lemma_same_values(
    claims: Seq<ClaimView>,
    others: Seq<ClaimView>,
    coeffs: Seq<Block128>,
)
    requires
        claims.len() == others.len(),
        claims.len() == coeffs.len(),
        forall|k: int|
            0 <= k < claims.len() ==> (#[trigger] claims[k]).value == others[k].value,
    ensures
        combined_value(claims, coeffs) == combined_value(others, coeffs),
    decreases claims.len(),
{
    if claims.len() > 0 {
        let n = claims.len() - 1;
        assert(claims[n].value == others[n].value);
        assert forall|k: int| 0 <= k < n implies (#[trigger] claims.drop_last()[k]).value
            == others.drop_last()[k].value by {
            assert(claims[k].value == others[k].value);
        }
        lemma_same_values(claims.drop_last(), others.drop_last(), coeffs.drop_last());
    }
}

/// Claims of zero combine to zero.
pub proof fn zero_claims_combine_to_zero(claims: Seq<ClaimView>, coeffs: Seq<Block128>)
    requires
        claims.len() == coeffs.len(),
        forall|k: int| 0 <= k < claims.len() ==> (#[trigger] claims[k]).value == Block128::nil(),
    ensures
        combined_value(claims, coeffs) == Block128::nil(),
    decreases claims.len(),
{
    if claims.len() > 0 {
        let n = claims.len() - 1;
        assert(claims[n].value == Block128::nil());
        assert forall|k: int| 0 <= k < n implies (#[trigger] claims.drop_last()[k]).value
            == Block128::nil() by {
            assert(claims[k].value == Block128::nil());
        }
        zero_claims_combine_to_zero(claims.drop_last(), coeffs.drop_last());
        algebra::lemma_times_nil(coeffs.last());
        Block128::plus_laws(Block128::nil(), Block128::nil(), Block128::nil());
    }
}

/// The weight at a point combines the claims' points by the same coefficients as the values: it is the
/// combination of the values that `eq` takes between each point and this one.
pub proof fn weight_combines_the_points(
    claims: Seq<ClaimView>,
    weights: Seq<ClaimView>,
    coeffs: Seq<Block128>,
    r: Seq<Block128>,
)
    requires
        claims.len() == coeffs.len(),
        weights.len() == claims.len(),
        forall|k: int|
            0 <= k < claims.len() ==> (#[trigger] claims[k]).point.len() == r.len()
                && weights[k].value == mle::mle_eval(mle::eq_table(claims[k].point), r),
    ensures
        w_at(claims, coeffs, r) == combined_value(weights, coeffs),
    decreases claims.len(),
{
    if claims.len() > 0 {
        let n = claims.len() - 1;
        assert(claims[n].point.len() == r.len());
        mle::lemma_eq_product(claims[n].point, r);
        assert forall|k: int| 0 <= k < n implies (#[trigger] claims.drop_last()[k]).point.len()
            == r.len() && weights.drop_last()[k].value == mle::mle_eval(
            mle::eq_table(claims.drop_last()[k].point),
            r,
        ) by {
            assert(claims[k].point.len() == r.len());
        }
        weight_combines_the_points(
            claims.drop_last(),
            weights.drop_last(),
            coeffs.drop_last(),
            r,
        );
    }
}

/// What accepting a batch means, for whatever states and challenges follow from absorbing each round
/// in full: there is a claim, all points and the rounds have the given number of variables, the values
/// at zero and one of each round add up to what the round before gives at its challenge, the first
/// round to the combination of the claimed values, and what is left is the weight at the point of the
/// challenges in reverse times the final value.  That point and that value are what is handed on.
pub proof fn batch_acceptance<C: FiatShamir<Block128>>(
    proof: BatchEvalProofView,
    claims: Seq<ClaimView>,
    n: nat,
    state: C::State,
    states: Seq<C::State>,
    challenges: Seq<Block128>,
)
    requires
        states.len() == proof.rounds.len() + 1,
        challenges.len() == proof.rounds.len(),
        states[0] == start_state::<C>(claims, state),
        forall|i: int|
            0 <= i < proof.rounds.len() ==> challenges[i] == C::challenge(
                transcript::absorb_seq::<Block128, C>(states[i], #[trigger] proof.rounds[i]),
            ) && states[i + 1] == C::squeezed(
                transcript::absorb_seq::<Block128, C>(states[i], proof.rounds[i]),
            ),
    ensures
        ({
            let rounds = proof.rounds;
            let at = challenges.reverse();
            let coeffs = alphas::<C>(claims, state);
            let v = combined_value(claims, coeffs);
            let left = if rounds.len() == 0 {
                v
            } else {
                poly::interpolate(rounds.last(), challenges.last())
            };
            let good = {
                &&& claims.len() > 0
                &&& rounds.len() == n
                &&& forall|i: int| 0 <= i < claims.len() ==> (#[trigger] claims[i]).point.len() == n
                &&& forall|i: int|
                    0 <= i < rounds.len() ==> (#[trigger] rounds[i])[0].plus(rounds[i][1])
                        == if i == 0 {
                        v
                    } else {
                        poly::interpolate(rounds[i - 1], challenges[i - 1])
                    }
                &&& left == w_at(claims, coeffs, at).times(proof.b_final)
            };
            &&& batch_accepted::<C>(proof, claims, n, state) <==> good
            &&& batch_verified::<C>(proof, claims, state).point == at
            &&& batch_verified::<C>(proof, claims, state).value == proof.b_final
            &&& good ==> batch_verifier_state::<C>(proof, claims, n, state) == states.last()
        }),
{
    let v = combined_value(claims, alphas::<C>(claims, state));
    sumcheck::rounds_are_checked::<Block128, C>(v, proof.rounds, states, challenges);
}

/// The weight of the final value: `W` at the verifier's point.
pub open spec fn final_weight<C: FiatShamir<Block128>>(
    rounds: Seq<Seq<Block128>>,
    claims: Seq<ClaimView>,
    state: C::State,
) -> Block128 {
    w_at(
        claims,
        alphas::<C>(claims, state),
        sumcheck::point::<Block128, C>(start_state::<C>(claims, state), rounds),
    )
}

/// Rounds are accepted with at most one final value, unless its weight is zero.
pub proof fn batch_final_is_bound<C: FiatShamir<Block128>>(
    proof: BatchEvalProofView,
    other: BatchEvalProofView,
    claims: Seq<ClaimView>,
    n: nat,
    state: C::State,
)
    requires
        other.rounds == proof.rounds,
        batch_accepted::<C>(proof, claims, n, state),
        batch_accepted::<C>(other, claims, n, state),
    ensures
        other.b_final == proof.b_final || final_weight::<C>(proof.rounds, claims, state)
            == Block128::nil(),
{
    let w = final_weight::<C>(proof.rounds, claims, state);
    let (x, y) = (proof.b_final, other.b_final);
    Block128::times_laws(w, x, y);
    Block128::plus_laws(w.times(x), w.times(x), w.times(x));
    algebra::lemma_no_zero_divisors(w, x.plus(y));
    if x.plus(y) == Block128::nil() {
        algebra::lemma_plus_zero_eq(x, y);
    }
}

/// Build `W(x) = Σ_i α_i · eq(r_i, x)` as a length-`2^n` table.  The terms are built in parallel.
fn build_w_table(claims: &[EvalClaim], alphas: &[Block128], n: usize, len: usize) -> (w: Vec<Block128>)
    requires
        claims@.len() == alphas@.len(),
        len == mle::cube(n as nat),
        forall|i: int| 0 <= i < claims@.len() ==> (#[trigger] claims@[i]).point@.len() == n,
    ensures
        w@ == w_table(claim_views(claims@), alphas@, n as nat),
{
    let term = |i: usize| -> (t: Vec<Block128>)
        requires
            i < claims@.len(),
            claims@.len() == alphas@.len(),
            mle::cube(claims@[i as int].point@.len()) <= usize::MAX,
        ensures
            t@ == sums::seq_scale(alphas@[i as int], mle::eq_table(claims@[i as int].point@)),
        { scaled_eq_table(&claims[i].point, alphas[i]) };
    let terms: Vec<Vec<Block128>> = map_range(claims.len(), 2, term);
    let mut w: Vec<Block128> = Vec::with_capacity(len);
    let mut fill: usize = 0;
    while fill < len
        invariant
            fill <= len,
            w@ == Seq::new(fill as nat, |x: int| Block128::nil()),
        decreases len - fill,
    {
        w.push(Block128::zero());
        fill = fill + 1;
        proof {
            assert(w@ =~= Seq::new(fill as nat, |x: int| Block128::nil()));
        }
    }
    let ghost views = claim_views(claims@);
    let mut i: usize = 0;
    while i < claims.len()
        invariant
            i <= claims.len(),
            claims@.len() == alphas@.len(),
            terms@.len() == claims@.len(),
            views == claim_views(claims@),
            len == mle::cube(n as nat),
            forall|k: int| 0 <= k < claims@.len() ==> (#[trigger] claims@[k]).point@.len() == n,
            forall|k: int|
                0 <= k < claims@.len() ==> (#[trigger] terms@[k])@ == sums::seq_scale(
                    alphas@[k],
                    mle::eq_table(claims@[k].point@),
                ),
            w@ == w_table(views.take(i as int), alphas@.take(i as int), n as nat),
            w@.len() == len,
        decreases claims.len() - i,
    {
        let ghost before = w@;
        let ghost extra = sums::seq_scale(
            alphas@[i as int],
            mle::eq_table(claims@[i as int].point@),
        );
        proof {
            assert(terms@[i as int]@ == extra);
        }
        let mut x: usize = 0;
        while x < len
            invariant
                x <= len,
                i < terms@.len(),
                terms@[i as int]@ == extra,
                extra.len() == len,
                before.len() == len,
                w@.len() == len,
                forall|k: int| 0 <= k < x ==> w@[k] == before[k].plus(extra[k]),
                forall|k: int| x <= k < len ==> w@[k] == before[k],
            decreases len - x,
        {
            let updated = w[x] + terms[i][x];
            w.set(x, updated);
            x = x + 1;
        }
        proof {
            assert(w@ =~= sums::seq_plus(before, extra));
            assert(views.take(i + 1).drop_last() =~= views.take(i as int));
            assert(alphas@.take(i + 1).drop_last() =~= alphas@.take(i as int));
        }
        i = i + 1;
    }
    proof {
        assert(views.take(i as int) =~= views);
        assert(alphas@.take(i as int) =~= alphas@);
    }
    w
}

/// Evaluate `W(r) = Σ_i α_i · eq(r_i, r)` without materialising the table.
fn evaluate_w_at(claims: &[EvalClaim], alphas: &[Block128], r: &[Block128]) -> (value: Block128)
    requires
        claims@.len() == alphas@.len(),
        forall|i: int| 0 <= i < claims@.len() ==> (#[trigger] claims@[i]).point@.len() == r@.len(),
    ensures
        value == w_at(claim_views(claims@), alphas@, r@),
{
    let ghost views = claim_views(claims@);
    let mut acc = Block128::zero();
    let mut i: usize = 0;
    while i < claims.len()
        invariant
            i <= claims.len(),
            claims@.len() == alphas@.len(),
            views == claim_views(claims@),
            forall|k: int|
                0 <= k < claims@.len() ==> (#[trigger] claims@[k]).point@.len() == r@.len(),
            acc == w_at(views.take(i as int), alphas@.take(i as int), r@),
        decreases claims.len() - i,
    {
        proof {
            assert(views.take(i + 1).drop_last() =~= views.take(i as int));
            assert(alphas@.take(i + 1).drop_last() =~= alphas@.take(i as int));
        }
        acc = acc + alphas[i] * eq_ind(&claims[i].point, r);
        i = i + 1;
    }
    proof {
        assert(views.take(i as int) =~= views);
        assert(alphas@.take(i as int) =~= alphas@);
    }
    acc
}

/// The linear combination of the claimed values.
fn combine_values(claims: &[EvalClaim], alphas: &[Block128]) -> (value: Block128)
    requires
        claims@.len() == alphas@.len(),
    ensures
        value == combined_value(claim_views(claims@), alphas@),
{
    let ghost views = claim_views(claims@);
    let mut acc = Block128::zero();
    let mut i: usize = 0;
    while i < claims.len()
        invariant
            i <= claims.len(),
            claims@.len() == alphas@.len(),
            views == claim_views(claims@),
            acc == combined_value(views.take(i as int), alphas@.take(i as int)),
        decreases claims.len() - i,
    {
        proof {
            assert(views.take(i + 1).drop_last() =~= views.take(i as int));
            assert(alphas@.take(i + 1).drop_last() =~= alphas@.take(i as int));
        }
        acc = acc + alphas[i] * claims[i].value;
        i = i + 1;
    }
    proof {
        assert(views.take(i as int) =~= views);
        assert(alphas@.take(i as int) =~= alphas@);
    }
    acc
}

/// Absorb all claim points and values, so that the coefficients are bound to the exact set of claims.
fn absorb_claims<T: FiatShamir<Block128>>(channel: &mut T, claims: &[EvalClaim])
    ensures
        final(channel).state() == bound_state::<T>(claim_views(claims@), old(channel).state()),
{
    let ghost start = channel.state();
    let ghost views = claim_views(claims@);
    let mut i: usize = 0;
    while i < claims.len()
        invariant
            i <= claims.len(),
            views == claim_views(claims@),
            channel.state() == transcript::absorb_seq::<Block128, T>(
                start,
                claims_message(views.take(i as int)),
            ),
        decreases claims.len() - i,
    {
        let ghost sent = claims_message(views.take(i as int));
        absorb_slice(channel, claims[i].point.as_slice());
        channel.absorb(claims[i].value);
        proof {
            assert(views.take(i + 1).drop_last() =~= views.take(i as int));
            let p = claims@[i as int].point@;
            let v = claims@[i as int].value;
            transcript::lemma_absorb_concat::<Block128, T>(start, sent, p);
            assert((sent + p + seq![v]).drop_last() =~= sent + p);
        }
        i = i + 1;
    }
    proof {
        assert(views.take(i as int) =~= views);
    }
}

/// One row of the round polynomial at the three nodes.
fn batch_entry(w: &[Block128], b: &[Block128], half: usize, j: usize) -> (e: [Block128; 3])
    requires
        w@.len() == 2 * half,
        b@.len() == 2 * half,
        j < half,
    ensures
        forall|k: int|
            0 <= k < 3 ==> #[trigger] e@[k] == sumcheck::row(
                sumcheck::fold_tables(seq![w@, b@], poly::node(k)),
                j as int,
            ),
{
    let f2 = Block128::from_byte(2);
    let w_lo = w[j];
    let w_hi = w[j + half];
    let b_lo = b[j];
    let b_hi = b[j + half];
    let d_w = w_lo + w_hi;
    let d_b = b_lo + b_hi;
    let w2 = w_lo + f2 * d_w;
    let b2 = b_lo + f2 * d_b;
    let e = [w_lo * b_lo, w_hi * b_hi, w2 * b2];
    proof {
        Block128::byte_laws(0, 1);
        mle::lemma_lerp(w_lo, w_hi, f2);
        mle::lemma_lerp(b_lo, b_hi, f2);
        assert forall|k: int| 0 <= k < 3 implies #[trigger] e@[k] == sumcheck::row(
            sumcheck::fold_tables(seq![w@, b@], poly::node(k)),
            j as int,
        ) by {
            let x = poly::node::<Block128>(k);
            let (tw, tb) = (mle::fold_high(w@, x), mle::fold_high(b@, x));
            assert(sumcheck::fold_tables(seq![w@, b@], x) =~= seq![tw, tb]);
            lemma_row2(tw, tb, j as int);
            assert(tw[j as int] == mle::lerp(w_lo, w_hi, x));
            assert(tb[j as int] == mle::lerp(b_lo, b_hi, x));
        }
    }
    e
}

/// Round values: `p(X) = Σ_j W(X,j) · B(X,j)` at `X = 0, 1, 2`.
fn eval_round_at_0_1_2(w: &[Block128], b: &[Block128], half: usize) -> (evals: [Block128; 3])
    requires
        w@.len() == 2 * half,
        b@.len() == 2 * half,
    ensures
        evals@ == sumcheck::round_message(seq![w@, b@], half as nat),
{
    let per_entry = |j: usize| -> (e: [Block128; 3])
        requires
            j < half,
            w@.len() == 2 * half,
            b@.len() == 2 * half,
        ensures
            forall|k: int|
                0 <= k < 3 ==> #[trigger] e@[k] == sumcheck::row(
                    sumcheck::fold_tables(seq![w@, b@], poly::node(k)),
                    j as int,
                ),
        { batch_entry(w, b, half, j) };
    let rows: Vec<[Block128; 3]> = map_range(half, PAR_THRESHOLD, per_entry);
    let evals = [sum_column(&rows, 0), sum_column(&rows, 1), sum_column(&rows, 2)];
    proof {
        let folded = seq![w@, b@];
        let message = sumcheck::round_message(folded, half as nat);
        assert forall|k: int| 0 <= k < 3 implies sums::total(#[trigger] tables::column(rows@, k))
            == message[k] by {
            let terms = Seq::new(
                half as nat,
                |j: int| sumcheck::row(sumcheck::fold_tables(folded, poly::node(k)), j),
            );
            assert forall|j: int| 0 <= j < half implies #[trigger] tables::column(rows@, k)[j]
                == terms[j] by {
                assert(rows@[j]@[k] == sumcheck::row(
                    sumcheck::fold_tables(folded, poly::node(k)),
                    j,
                ));
            }
            assert(tables::column(rows@, k) =~= terms);
        }
        assert(evals@ =~= message);
    }
    evals
}

/// Honest prover.
///
/// `b`: length-`2^n` table of the target MLE.
/// `claims`: the `(r_i, v_i)` claims.
/// `channel`: shared Fiat-Shamir channel.
///
/// Returns the proof and the `(r_B, v_B)` reduction so callers can discharge it against the original
/// MLE or pass it to an opening layer.
pub fn prove_batch_eval<T: FiatShamir<Block128>>(
    b: &[Block128],
    claims: &[EvalClaim],
    channel: &mut T,
) -> (result: (BatchEvalProof, BatchEvalReduction))
    requires
        claims@.len() > 0,
        b@.len() == mle::cube(claims@[0].point@.len()),
        forall|i: int|
            0 <= i < claims@.len() ==> (#[trigger] claims@[i]).point@.len()
                == claims@[0].point@.len(),
    ensures
        ({
            let n = claims@[0].point@.len();
            let views = claim_views(claims@);
            let state = old(channel).state();
            &&& result.0@ == batch_proof::<T>(b@, views, n, state)
            &&& result.1@ == batch_reduction::<T>(b@, views, n, state)
            &&& final(channel).state() == batch_run::<T>(b@, views, n, state).state
        }),
{
    let n: usize = claims[0].point.len();
    let len: usize = b.len();
    let ghost views = claim_views(claims@);
    let ghost entry = channel.state();
    absorb_claims(channel, claims);
    let alpha = squeeze_many(channel, claims.len());
    let mut w_tbl = build_w_table(claims, &alpha, n, len);
    let mut b_tbl = copied(b);
    let mut rounds: Vec<BatchEvalRound> = Vec::with_capacity(n);
    let mut challenges: Vec<Block128> = Vec::with_capacity(n);
    let ghost start = channel.state();
    let ghost tables = seq![w_tbl@, b_tbl@];
    proof {
        let zeros = Seq::new(n as nat, |i: int| Block128::nil());
        assert forall|i: int| 0 <= i < views.len() implies (#[trigger] views[i]).point.len() == n by {
            assert(claims@[i].point@.len() == n);
        }
        lemma_w_table(b@, views, alpha@, n as nat, zeros);
        assert(messages(rounds@) =~= Seq::empty());
    }
    let mut i: usize = 0;
    while i < n
        invariant
            i <= n,
            tables.len() == 2,
            w_tbl@.len() == mle::cube((n - i) as nat),
            b_tbl@.len() == mle::cube((n - i) as nat),
            ({
                let now = sumcheck::run::<Block128, T>(tables, n as nat, start, i as nat);
                &&& now.rounds == messages(rounds@)
                &&& now.challenges == challenges@
                &&& now.tables == seq![w_tbl@, b_tbl@]
                &&& now.state == channel.state()
            }),
        decreases n - i,
    {
        let ghost now = sumcheck::run::<Block128, T>(tables, n as nat, start, i as nat);
        let ghost before = rounds@;
        proof {
            assert(mle::cube((n - i) as nat) == 2 * mle::cube((n - i - 1) as nat));
        }
        let half: usize = w_tbl.len() / 2;
        let evals = eval_round_at_0_1_2(&w_tbl, &b_tbl, half);
        absorb_slice(channel, evals.as_slice());
        let r_i = channel.squeeze();
        fold_highest_var_inplace(&mut w_tbl, r_i);
        fold_highest_var_inplace(&mut b_tbl, r_i);
        rounds.push(BatchEvalRound { evals });
        challenges.push(r_i);
        proof {
            let next = sumcheck::run::<Block128, T>(tables, n as nat, start, (i + 1) as nat);
            assert(messages(rounds@) =~= messages(before).push(evals@));
            assert(sumcheck::fold_tables(now.tables, r_i) =~= seq![w_tbl@, b_tbl@]);
            assert(next.tables == sumcheck::fold_tables(now.tables, r_i));
        }
        i = i + 1;
    }
    proof {
        sumcheck::sumcheck_completeness::<Block128, T>(tables, n as nat, start);
        let all = sumcheck::run::<Block128, T>(tables, n as nat, start, n as nat);
        assert(all.tables[1] == b_tbl@);
        assert(tables[1] == b@);
        assert(mle::cube(0) == 1);
        assert(tables =~= seq![
            w_table(views, alphas::<T>(views, entry), n as nat),
            b@,
        ]);
    }
    let point = reversed(&challenges);
    let reduced = copied(&point);
    let value = b_tbl[0];
    (BatchEvalProof { rounds, b_final: value }, BatchEvalReduction { point: reduced, value })
}

/// Honest verifier.  Returns `Some(reduction)` on accept, `None` on reject.  The caller is
/// responsible for discharging `reduction.value == B(reduction.point)`.
pub fn verify_batch_eval<T: FiatShamir<Block128>>(
    proof: &BatchEvalProof,
    claims: &[EvalClaim],
    n: usize,
    channel: &mut T,
) -> (result: Option<BatchEvalReduction>)
    ensures
        result is Some <==> batch_accepted::<T>(
            proof@,
            claim_views(claims@),
            n as nat,
            old(channel).state(),
        ),
        result matches Some(reduction) ==> reduction@ == batch_verified::<T>(
            proof@,
            claim_views(claims@),
            old(channel).state(),
        ) && reduction@.point.len() == n,
        final(channel).state() == batch_verifier_state::<T>(
            proof@,
            claim_views(claims@),
            n as nat,
            old(channel).state(),
        ),
{
    let ghost views = claim_views(claims@);
    let ghost entry = channel.state();
    if claims.len() == 0 {
        return None;
    }
    let mut c: usize = 0;
    while c < claims.len()
        invariant
            c <= claims.len(),
            views == claim_views(claims@),
            entry == channel.state(),
            entry == old(channel).state(),
            *channel == *old(channel),
            forall|i: int| 0 <= i < c ==> (#[trigger] claims@[i]).point@.len() == n,
        decreases claims.len() - c,
    {
        if claims[c].point.len() != n {
            proof {
                assert(views[c as int].point.len() != n);
            }
            return None;
        }
        c = c + 1;
    }
    if proof.rounds.len() != n {
        return None;
    }
    proof {
        assert forall|i: int| 0 <= i < views.len() implies (#[trigger] views[i]).point.len() == n by {
            assert(claims@[i].point@.len() == n);
        }
    }
    absorb_claims(channel, claims);
    let alpha = squeeze_many(channel, claims.len());
    let ghost start = channel.state();
    let ghost msgs = proof@.rounds;
    let ghost cs = sumcheck::replay::<Block128, T>(start, msgs).1;
    let ghost v = combined_value(views, alpha@);
    let mut claim = combine_values(claims, &alpha);
    let mut challenges: Vec<Block128> = Vec::with_capacity(n);
    proof {
        assert(msgs.take(0) =~= Seq::empty());
        sumcheck::lemma_replay_prefix::<Block128, T>(start, msgs, 0);
    }
    let mut i: usize = 0;
    while i < n
        invariant
            i <= n,
            n == proof.rounds.len(),
            entry == old(channel).state(),
            views == claim_views(claims@),
            alpha@ == alphas::<T>(views, entry),
            start == start_state::<T>(views, entry),
            v == combined_value(views, alpha@),
            batch_shape(proof@, views, n as nat),
            msgs == proof@.rounds,
            cs == sumcheck::replay::<Block128, T>(start, msgs).1,
            sumcheck::replay::<Block128, T>(start, msgs.take(i as int)) == (
                channel.state(),
                challenges@,
            ),
            challenges@.len() == i,
            challenges@ == cs.take(i as int),
            cs.len() == n,
            claim == sumcheck::claim_at(v, msgs, cs, i as int),
            sumcheck::first_failure(v, msgs, cs, 0) == sumcheck::first_failure(
                v,
                msgs,
                cs,
                i as nat,
            ),
        decreases n - i,
    {
        let re = proof.rounds[i];
        proof {
            assert(msgs[i as int] == re.evals@);
        }
        if re.sum_at_0_plus_1() != claim {
            return None;
        }
        absorb_slice(channel, re.evals.as_slice());
        let r_i = channel.squeeze();
        claim = re.evaluate(r_i);
        challenges.push(r_i);
        proof {
            assert(msgs.take(i + 1).drop_last() =~= msgs.take(i as int));
            sumcheck::lemma_replay_prefix::<Block128, T>(start, msgs, (i + 1) as nat);
            assert(challenges@ =~= cs.take(i + 1));
            assert(challenges@[i as int] == cs[i as int]);
        }
        i = i + 1;
    }
    proof {
        assert(msgs.take(n as int) =~= msgs);
    }
    let point = reversed(&challenges);
    let w_value = evaluate_w_at(claims, &alpha, &point);
    if claim != w_value * proof.b_final {
        return None;
    }
    Some(BatchEvalReduction { point, value: proof.b_final })
}

/// Each round takes three elements of 16 bytes, and the final value takes one.
pub proof fn batch_sizes(n: nat)
    ensures
        batch_byte_len(0) == 16,
        batch_byte_len(n + 1) == batch_byte_len(n) + 3 * 16,
{
}

} // verus!
