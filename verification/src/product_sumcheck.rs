//! Product sumcheck primitive.
//!
//! Reduces a claim `v = Σ_x eq(r, x) · A(x) · B(x)` over the boolean hypercube `{0,1}^n` to two
//! smaller claims `a = A(r')` and `b = B(r')` at a fresh point `r'` of the same length.  `r'` is the
//! vector of per-round Fiat-Shamir challenges, so the verifier recomputes it from the transcript.
//!
//! ```text
//! round i:   prover emits p_i(X) = deg-3 univariate as 4 evaluations
//!              (e0, e1, e2, e3) at X = 0, 1, 2, 3 (field elements).
//!            transcript absorbs the four evaluations.
//!            challenge r_i = channel.squeeze()
//!            update running claim to p_i(r_i)
//!            fold eq, A, B tables by r_i (highest-variable-first)
//!
//! after n rounds:
//!            prover sends (a, b) = (A(r'), B(r')).
//!            verifier accepts iff final_claim == eq(r, r') · a · b
//! ```
//!
//! `r'` is returned in **variable order** (`r'[k]` is the final binding of variable `k`).  Because
//! the highest variable is folded first, the variable-order point is the push-order challenge vector
//! reversed.
use crate::algebra;
use crate::block128::Block128;
use crate::eq::{eq_ind, eq_ind_partial_eval};
use crate::fold::fold_highest_var_inplace;
use crate::mle;
use crate::parallel::map_range;
use crate::poly;
use crate::sumcheck;
use crate::sums;
use crate::tables;
use crate::tables::{copied, reversed, sum_column};
use crate::tower_field::TowerField;
use crate::transcript;
use crate::transcript::{absorb_slice, FiatShamir};
use vstd::prelude::*;

verus! {

/// Number of rows from which a round polynomial is evaluated in parallel.
const PAR_THRESHOLD: usize = 64;

/// Round polynomial stored as its evaluations at `X = 0, 1, 2, 3`.
#[derive(Debug, Clone, Copy, PartialEq, Eq)]
pub struct RoundEvals {
    pub evals: [Block128; 4],
}

impl RoundEvals {
    /// The sum of the values at zero and one.
    pub fn sum_at_0_plus_1(&self) -> (r: Block128)
        ensures
            r == self.evals@[0].plus(self.evals@[1]),
    {
        self.evals[0] + self.evals[1]
    }

    /// Lagrange-interpolate at `r` from evaluations at `{0,1,2,3}`.
    pub fn evaluate(&self, r: Block128) -> (value: Block128)
        ensures
            value == poly::interpolate(self.evals@, r),
    {
        lagrange_at_0_1_2_3(&self.evals, r)
    }
}

/// Lagrange evaluation: given `e_k = p(k)` for `k ∈ {0,1,2,3}`, return `p(r)`.
pub fn lagrange_at_0_1_2_3(evals: &[Block128; 4], r: Block128) -> (value: Block128)
    ensures
        value == poly::interpolate(evals@, r),
{
    poly::interpolate_at(evals.as_slice(), r)
}

/// Full product-sumcheck proof: the per-round evaluations plus the final reduced pair `(a, b)`.
#[derive(Debug, Clone, PartialEq, Eq)]
pub struct ProductProof {
    pub rounds: Vec<RoundEvals>,
    pub a_final: Block128,
    pub b_final: Block128,
}

/// The contents of a product-sumcheck proof.
pub struct ProductProofView {
    /// The messages of the rounds.
    pub rounds: Seq<Seq<Block128>>,
    /// The claimed value of `A`.
    pub a_final: Block128,
    /// The claimed value of `B`.
    pub b_final: Block128,
}

/// The messages of a list of rounds.
pub open spec fn messages(rounds: Seq<RoundEvals>) -> Seq<Seq<Block128>> {
    Seq::new(rounds.len(), |i: int| rounds[i].evals@)
}

impl View for ProductProof {
    type V = ProductProofView;

    open spec fn view(&self) -> ProductProofView {
        ProductProofView {
            rounds: messages(self.rounds@),
            a_final: self.a_final,
            b_final: self.b_final,
        }
    }
}

impl ProductProof {
    /// Raw field-element accounting of this proof's wire size: four elements per round plus the two
    /// finals, with no serialization framing.
    pub fn byte_len(&self) -> (r: usize)
        requires
            self@.rounds.len() * 64 + 32 <= usize::MAX,
        ensures
            r == product_byte_len(self@.rounds.len()),
    {
        self.rounds.len() * 4 * 16 + 2 * 16
    }
}

/// Wire size of a product-sumcheck proof with `n` rounds.
pub open spec fn product_byte_len(n: nat) -> nat {
    n * 64 + 32
}

/// The tables whose products are summed.
pub open spec fn product_tables(a: Seq<Block128>, b: Seq<Block128>, r: Seq<Block128>) -> Seq<
    Seq<Block128>,
> {
    seq![mle::eq_table(r), a, b]
}

/// The honest claim: the sum over the hypercube of `eq(r, x) · A(x) · B(x)`.
pub open spec fn product_claim(a: Seq<Block128>, b: Seq<Block128>, r: Seq<Block128>) -> Block128 {
    sums::dot3(mle::eq_table(r), a, b)
}

/// What the honest prover sends.
pub open spec fn product_proof<C: FiatShamir<Block128>>(
    a: Seq<Block128>,
    b: Seq<Block128>,
    r: Seq<Block128>,
    state: C::State,
) -> ProductProofView {
    let all = sumcheck::run::<Block128, C>(product_tables(a, b, r), r.len(), state, r.len());
    let at = all.challenges.reverse();
    ProductProofView {
        rounds: all.rounds,
        a_final: mle::mle_eval(a, at),
        b_final: mle::mle_eval(b, at),
    }
}

/// The point that the honest prover ends at.
pub open spec fn product_point<C: FiatShamir<Block128>>(
    a: Seq<Block128>,
    b: Seq<Block128>,
    r: Seq<Block128>,
    state: C::State,
) -> Seq<Block128> {
    sumcheck::run::<Block128, C>(
        product_tables(a, b, r),
        r.len(),
        state,
        r.len(),
    ).challenges.reverse()
}

/// The transcript state that the honest prover ends in.
pub open spec fn product_state<C: FiatShamir<Block128>>(
    a: Seq<Block128>,
    b: Seq<Block128>,
    r: Seq<Block128>,
    state: C::State,
) -> C::State {
    sumcheck::run::<Block128, C>(product_tables(a, b, r), r.len(), state, r.len()).state
}

/// Whether the verifier accepts: the proof has one round per variable, every round meets its claim,
/// and the last claim is `eq(r, r') · a · b`.
pub open spec fn product_accepted<C: FiatShamir<Block128>>(
    proof: ProductProofView,
    r: Seq<Block128>,
    v: Block128,
    state: C::State,
) -> bool {
    &&& proof.rounds.len() == r.len()
    &&& sumcheck::rounds_read::<Block128, C>(v, proof.rounds, state) == r.len()
    &&& sumcheck::final_claim::<Block128, C>(v, proof.rounds, state) == mle::eq_product(
        r,
        sumcheck::point::<Block128, C>(state, proof.rounds),
    ).times(proof.a_final).times(proof.b_final)
}

/// The transcript state that the verifier is left with.
pub open spec fn product_verifier_state<C: FiatShamir<Block128>>(
    proof: ProductProofView,
    r: Seq<Block128>,
    v: Block128,
    state: C::State,
) -> C::State {
    if proof.rounds.len() == r.len() {
        sumcheck::verifier_state::<Block128, C>(v, proof.rounds, state)
    } else {
        state
    }
}

/// The outcome of the verifier: the point it derives if it accepts, and the transcript state that it
/// is left with.
pub open spec fn product_verdict<C: FiatShamir<Block128>>(
    proof: ProductProofView,
    r: Seq<Block128>,
    v: Block128,
    state: C::State,
) -> (Option<Seq<Block128>>, C::State) {
    (
        if product_accepted::<C>(proof, r, v, state) {
            Some(sumcheck::point::<Block128, C>(state, proof.rounds))
        } else {
            None
        },
        product_verifier_state::<C>(proof, r, v, state),
    )
}

/// A row of three tables is the product of their entries.
pub proof fn lemma_row3(e: Seq<Block128>, a: Seq<Block128>, b: Seq<Block128>, j: int)
    ensures
        sumcheck::row(seq![e, a, b], j) == e[j].times(a[j]).times(b[j]),
{
    let t3 = seq![e, a, b];
    let t2 = t3.drop_last();
    let t1 = t2.drop_last();
    assert(t1.drop_last() =~= Seq::empty());
    assert(sumcheck::row(t1.drop_last(), j) == Block128::unit());
    assert(sumcheck::row(t1, j) == Block128::unit().times(e[j]));
    assert(sumcheck::row(t2, j) == sumcheck::row(t1, j).times(a[j]));
    algebra::lemma_neutral_left(e[j]);
}

/// The claim is the sum of the rows of the tables.
pub proof fn lemma_product_claim(a: Seq<Block128>, b: Seq<Block128>, r: Seq<Block128>)
    requires
        a.len() == mle::cube(r.len()),
        b.len() == mle::cube(r.len()),
    ensures
        sumcheck::inner(product_tables(a, b, r), mle::cube(r.len())) == product_claim(a, b, r),
{
    let e = mle::eq_table(r);
    let rows = Seq::new(mle::cube(r.len()), |j: int| sumcheck::row(product_tables(a, b, r), j));
    assert forall|j: int| 0 <= j < rows.len() implies #[trigger] rows[j] == sums::seq_times(
        sums::seq_times(e, a),
        b,
    )[j] by {
        lemma_row3(e, a, b, j);
    }
    assert(rows =~= sums::seq_times(sums::seq_times(e, a), b));
}

/// Completeness: the verifier accepts the honest proof of the honest claim, ends in the prover's
/// transcript state, and the point it derives is the prover's.
pub proof fn product_completeness<C: FiatShamir<Block128>>(
    a: Seq<Block128>,
    b: Seq<Block128>,
    r: Seq<Block128>,
    state: C::State,
)
    requires
        a.len() == mle::cube(r.len()),
        b.len() == mle::cube(r.len()),
    ensures
        ({
            let proof = product_proof::<C>(a, b, r, state);
            let v = product_claim(a, b, r);
            &&& product_accepted::<C>(proof, r, v, state)
            &&& product_verifier_state::<C>(proof, r, v, state) == product_state::<C>(
                a,
                b,
                r,
                state,
            )
            &&& sumcheck::point::<Block128, C>(state, proof.rounds) == product_point::<C>(
                a,
                b,
                r,
                state,
            )
            &&& product_point::<C>(a, b, r, state).len() == r.len()
        }),
{
    let tables = product_tables(a, b, r);
    let n = r.len();
    sumcheck::sumcheck_completeness::<Block128, C>(tables, n, state);
    sumcheck::lemma_run::<Block128, C>(tables, n, state, n);
    lemma_product_claim(a, b, r);
    let all = sumcheck::run::<Block128, C>(tables, n, state, n);
    let at = all.challenges.reverse();
    let (t0, t1, t2) = (all.tables[0], all.tables[1], all.tables[2]);
    assert(all.tables =~= seq![t0, t1, t2]);
    lemma_row3(t0, t1, t2, 0);
    mle::lemma_eq_product(r, at);
    assert(tables[0] == mle::eq_table(r) && tables[1] == a && tables[2] == b);
}

/// The claim of a column that is the product of two others.
pub proof fn lemma_product_column(a: Seq<Block128>, b: Seq<Block128>, r: Seq<Block128>)
    requires
        a.len() == mle::cube(r.len()),
        b.len() == mle::cube(r.len()),
    ensures
        mle::mle_eval(sums::seq_times(a, b), r) == product_claim(a, b, r),
{
    let e = mle::eq_table(r);
    let left = sums::seq_times(e, sums::seq_times(a, b));
    let right = sums::seq_times(sums::seq_times(e, a), b);
    assert forall|j: int| 0 <= j < e.len() implies #[trigger] left[j] == right[j] by {
        Block128::times_laws(e[j], a[j], b[j]);
    }
    assert(left =~= right);
}

/// What accepting a product proof means, for whatever states and challenges follow from absorbing each
/// round in full: one round per variable, the values at zero and one of each round add up to what the
/// round before gives at its challenge, the first round to the claim, and what is left is
/// `eq(r, r') a b` at the point `r'` of the challenges in reverse, which the verifier hands on.
pub proof fn product_acceptance<C: FiatShamir<Block128>>(
    proof: ProductProofView,
    r: Seq<Block128>,
    v: Block128,
    states: Seq<C::State>,
    challenges: Seq<Block128>,
)
    requires
        states.len() == proof.rounds.len() + 1,
        challenges.len() == proof.rounds.len(),
        forall|i: int|
            0 <= i < proof.rounds.len() ==> challenges[i] == C::challenge(
                transcript::absorb_seq::<Block128, C>(states[i], #[trigger] proof.rounds[i]),
            ) && states[i + 1] == C::squeezed(
                transcript::absorb_seq::<Block128, C>(states[i], proof.rounds[i]),
            ),
    ensures
        ({
            let rounds = proof.rounds;
            let at = challenges.reverse();
            let left = if rounds.len() == 0 {
                v
            } else {
                poly::interpolate(rounds.last(), challenges.last())
            };
            let right = mle::mle_eval(mle::eq_table(r), at).times(proof.a_final).times(
                proof.b_final,
            );
            let good = {
                &&& rounds.len() == r.len()
                &&& forall|i: int|
                    0 <= i < rounds.len() ==> (#[trigger] rounds[i])[0].plus(rounds[i][1])
                        == if i == 0 {
                        v
                    } else {
                        poly::interpolate(rounds[i - 1], challenges[i - 1])
                    }
                &&& left == right
            };
            let verdict = product_verdict::<C>(proof, r, v, states[0]);
            &&& verdict.0 is Some <==> good
            &&& verdict.0 is Some ==> verdict.0->0 == at && verdict.1 == states.last()
            &&& product_accepted::<C>(proof, r, v, states[0]) <==> good
        }),
{
    sumcheck::rounds_are_checked::<Block128, C>(v, proof.rounds, states, challenges);
    if proof.rounds.len() == r.len() {
        mle::lemma_eq_product(r, challenges.reverse());
    }
}

/// A proof with at least one round is accepted for at most one claimed value.
pub proof fn product_claim_is_bound<C: FiatShamir<Block128>>(
    proof: ProductProofView,
    r: Seq<Block128>,
    v: Block128,
    w: Block128,
    state: C::State,
)
    requires
        r.len() > 0,
        product_accepted::<C>(proof, r, v, state),
        product_accepted::<C>(proof, r, w, state),
    ensures
        v == w,
{
    let cs = sumcheck::replay::<Block128, C>(state, proof.rounds).1;
    assert(sumcheck::telescopes(v, proof.rounds, cs, 0));
    assert(sumcheck::telescopes(w, proof.rounds, cs, 0));
}

/// One row of the round polynomial at the four nodes.
fn product_entry(eq: &[Block128], a: &[Block128], b: &[Block128], half: usize, j: usize) -> (e: [Block128; 4])
    requires
        eq@.len() == 2 * half,
        a@.len() == 2 * half,
        b@.len() == 2 * half,
        j < half,
    ensures
        forall|k: int|
            0 <= k < 4 ==> #[trigger] e@[k] == sumcheck::row(
                sumcheck::fold_tables(seq![eq@, a@, b@], poly::node(k)),
                j as int,
            ),
{
    let f2 = Block128::from_byte(2);
    let f3 = Block128::from_byte(3);
    let eq_lo = eq[j];
    let eq_hi = eq[j + half];
    let a_lo = a[j];
    let a_hi = a[j + half];
    let b_lo = b[j];
    let b_hi = b[j + half];
    let d_eq = eq_lo + eq_hi;
    let d_a = a_lo + a_hi;
    let d_b = b_lo + b_hi;
    let e0 = eq_lo * a_lo * b_lo;
    let e1 = eq_hi * a_hi * b_hi;
    let eq_2 = eq_lo + f2 * d_eq;
    let a_2 = a_lo + f2 * d_a;
    let b_2 = b_lo + f2 * d_b;
    let eq_3 = eq_lo + f3 * d_eq;
    let a_3 = a_lo + f3 * d_a;
    let b_3 = b_lo + f3 * d_b;
    let e = [e0, e1, eq_2 * a_2 * b_2, eq_3 * a_3 * b_3];
    proof {
        Block128::byte_laws(0, 1);
        mle::lemma_lerp(eq_lo, eq_hi, f2);
        mle::lemma_lerp(a_lo, a_hi, f2);
        mle::lemma_lerp(b_lo, b_hi, f2);
        assert forall|k: int| 0 <= k < 4 implies #[trigger] e@[k] == sumcheck::row(
            sumcheck::fold_tables(seq![eq@, a@, b@], poly::node(k)),
            j as int,
        ) by {
            let x = poly::node::<Block128>(k);
            let (te, ta, tb) = (
                mle::fold_high(eq@, x),
                mle::fold_high(a@, x),
                mle::fold_high(b@, x),
            );
            assert(sumcheck::fold_tables(seq![eq@, a@, b@], x) =~= seq![te, ta, tb]);
            lemma_row3(te, ta, tb, j as int);
            assert(te[j as int] == mle::lerp(eq_lo, eq_hi, x));
            assert(ta[j as int] == mle::lerp(a_lo, a_hi, x));
            assert(tb[j as int] == mle::lerp(b_lo, b_hi, x));
        }
    }
    e
}

/// Adding up the rows gives the round message.
proof fn lemma_sum_rows(rows: Seq<[Block128; 4]>, folded: Seq<Seq<Block128>>, half: nat)
    requires
        rows.len() == half,
        folded.len() == 3,
        forall|j: int, k: int|
            0 <= j < half && 0 <= k < 4 ==> (#[trigger] rows[j])@[k] == #[trigger] sumcheck::row(
                sumcheck::fold_tables(folded, poly::node(k)),
                j,
            ),
    ensures
        forall|k: int|
            0 <= k < 4 ==> sums::total(#[trigger] tables::column(rows, k))
                == sumcheck::round_message(folded, half)[k],
{
    assert forall|k: int| 0 <= k < 4 implies sums::total(#[trigger] tables::column(rows, k))
        == sumcheck::round_message(folded, half)[k] by {
        let terms = Seq::new(
            half,
            |j: int| sumcheck::row(sumcheck::fold_tables(folded, poly::node(k)), j),
        );
        assert forall|j: int| 0 <= j < half implies #[trigger] tables::column(rows, k)[j]
            == terms[j] by {
            assert(rows[j]@[k] == sumcheck::row(
                sumcheck::fold_tables(folded, poly::node(k)),
                j,
            ));
        }
        assert(tables::column(rows, k) =~= terms);
    }
}

/// Build the four values `(p(0), p(1), p(2), p(3))` for one round of the product sumcheck.
fn eval_round_at_0_1_2_3(eq: &[Block128], a: &[Block128], b: &[Block128], half: usize) -> (evals: [Block128; 4])
    requires
        eq@.len() == 2 * half,
        a@.len() == 2 * half,
        b@.len() == 2 * half,
    ensures
        evals@ == sumcheck::round_message(seq![eq@, a@, b@], half as nat),
{
    let per_entry = |j: usize| -> (e: [Block128; 4])
        requires
            j < half,
            eq@.len() == 2 * half,
            a@.len() == 2 * half,
            b@.len() == 2 * half,
        ensures
            forall|k: int|
                0 <= k < 4 ==> #[trigger] e@[k] == sumcheck::row(
                    sumcheck::fold_tables(seq![eq@, a@, b@], poly::node(k)),
                    j as int,
                ),
        { product_entry(eq, a, b, half, j) };
    let rows: Vec<[Block128; 4]> = map_range(half, PAR_THRESHOLD, per_entry);
    let evals = [
        sum_column(&rows, 0),
        sum_column(&rows, 1),
        sum_column(&rows, 2),
        sum_column(&rows, 3),
    ];
    proof {
        lemma_sum_rows(rows@, seq![eq@, a@, b@], half as nat);
        assert(evals@ =~= sumcheck::round_message(seq![eq@, a@, b@], half as nat));
    }
    evals
}

/// One row of the round polynomial at the four nodes, for two equal factors.
fn square_entry(eq: &[Block128], a: &[Block128], half: usize, j: usize) -> (e: [Block128; 4])
    requires
        eq@.len() == 2 * half,
        a@.len() == 2 * half,
        j < half,
    ensures
        forall|k: int|
            0 <= k < 4 ==> #[trigger] e@[k] == sumcheck::row(
                sumcheck::fold_tables(seq![eq@, a@, a@], poly::node(k)),
                j as int,
            ),
{
    let f2 = Block128::from_byte(2);
    let f3 = Block128::from_byte(3);
    let eq_lo = eq[j];
    let eq_hi = eq[j + half];
    let a_lo = a[j];
    let a_hi = a[j + half];
    let d_eq = eq_lo + eq_hi;
    let d_a = a_lo + a_hi;
    let e0 = eq_lo * a_lo.square();
    let e1 = eq_hi * a_hi.square();
    let eq_2 = eq_lo + f2 * d_eq;
    let a_2 = a_lo + f2 * d_a;
    let eq_3 = eq_lo + f3 * d_eq;
    let a_3 = a_lo + f3 * d_a;
    let e = [e0, e1, eq_2 * a_2.square(), eq_3 * a_3.square()];
    proof {
        Block128::byte_laws(0, 1);
        mle::lemma_lerp(eq_lo, eq_hi, f2);
        mle::lemma_lerp(a_lo, a_hi, f2);
        Block128::times_laws(eq_lo, a_lo, a_lo);
        Block128::times_laws(eq_hi, a_hi, a_hi);
        Block128::times_laws(eq_2, a_2, a_2);
        Block128::times_laws(eq_3, a_3, a_3);
        assert forall|k: int| 0 <= k < 4 implies #[trigger] e@[k] == sumcheck::row(
            sumcheck::fold_tables(seq![eq@, a@, a@], poly::node(k)),
            j as int,
        ) by {
            let x = poly::node::<Block128>(k);
            let (te, ta) = (mle::fold_high(eq@, x), mle::fold_high(a@, x));
            assert(sumcheck::fold_tables(seq![eq@, a@, a@], x) =~= seq![te, ta, ta]);
            lemma_row3(te, ta, ta, j as int);
            assert(te[j as int] == mle::lerp(eq_lo, eq_hi, x));
            assert(ta[j as int] == mle::lerp(a_lo, a_hi, x));
        }
    }
    e
}

/// Round values for two equal factors; one squaring replaces a multiplication.
fn eval_round_at_0_1_2_3_square(eq: &[Block128], a: &[Block128], half: usize) -> (evals: [Block128; 4])
    requires
        eq@.len() == 2 * half,
        a@.len() == 2 * half,
    ensures
        evals@ == sumcheck::round_message(seq![eq@, a@, a@], half as nat),
{
    let per_entry = |j: usize| -> (e: [Block128; 4])
        requires
            j < half,
            eq@.len() == 2 * half,
            a@.len() == 2 * half,
        ensures
            forall|k: int|
                0 <= k < 4 ==> #[trigger] e@[k] == sumcheck::row(
                    sumcheck::fold_tables(seq![eq@, a@, a@], poly::node(k)),
                    j as int,
                ),
        { square_entry(eq, a, half, j) };
    let rows: Vec<[Block128; 4]> = map_range(half, PAR_THRESHOLD, per_entry);
    let evals = [
        sum_column(&rows, 0),
        sum_column(&rows, 1),
        sum_column(&rows, 2),
        sum_column(&rows, 3),
    ];
    proof {
        lemma_sum_rows(rows@, seq![eq@, a@, a@], half as nat);
        assert(evals@ =~= sumcheck::round_message(seq![eq@, a@, a@], half as nat));
    }
    evals
}

/// Honest prover.
///
/// `a`, `b`: MLE tables of length `2^n`, `n = r.len()`.
/// `r`: claim point.
/// `_v`: claimed value `Σ_x eq(r, x) · A(x) · B(x)`; the messages do not depend on it.
/// `channel`: Fiat-Shamir channel seeded and synchronized by caller.
///
/// Returns the proof and the challenge vector `r'` in variable order.
pub fn prove_product<T: FiatShamir<Block128>>(
    a: &[Block128],
    b: &[Block128],
    r: &[Block128],
    _v: Block128,
    channel: &mut T,
) -> (result: (ProductProof, Vec<Block128>))
    requires
        a@.len() == mle::cube(r@.len()),
        b@.len() == mle::cube(r@.len()),
    ensures
        result.0@ == product_proof::<T>(a@, b@, r@, old(channel).state()),
        result.1@ == product_point::<T>(a@, b@, r@, old(channel).state()),
        final(channel).state() == product_state::<T>(a@, b@, r@, old(channel).state()),
        result.1@.len() == r@.len(),
{
    let n: usize = r.len();
    let len: usize = a.len();
    assert(len == mle::cube(r@.len()));
    let mut eq_tbl = eq_ind_partial_eval(r);
    let mut a_tbl = copied(a);
    let mut b_tbl = copied(b);
    let mut rounds: Vec<RoundEvals> = Vec::with_capacity(n);
    let mut challenges: Vec<Block128> = Vec::with_capacity(n);
    let ghost start = channel.state();
    let ghost tables = product_tables(a@, b@, r@);
    proof {
        assert(messages(rounds@) =~= Seq::empty());
        assert(seq![eq_tbl@, a_tbl@, b_tbl@] =~= tables);
    }
    let mut i: usize = 0;
    while i < n
        invariant
            i <= n,
            n == r.len(),
            a@.len() == mle::cube(n as nat),
            b@.len() == mle::cube(n as nat),
            tables == product_tables(a@, b@, r@),
            eq_tbl@.len() == mle::cube((n - i) as nat),
            a_tbl@.len() == mle::cube((n - i) as nat),
            b_tbl@.len() == mle::cube((n - i) as nat),
            ({
                let now = sumcheck::run::<Block128, T>(tables, n as nat, start, i as nat);
                &&& now.rounds == messages(rounds@)
                &&& now.challenges == challenges@
                &&& now.tables == seq![eq_tbl@, a_tbl@, b_tbl@]
                &&& now.state == channel.state()
            }),
        decreases n - i,
    {
        let ghost now = sumcheck::run::<Block128, T>(tables, n as nat, start, i as nat);
        let ghost before = rounds@;
        let ghost half_nat = mle::cube((n - i - 1) as nat);
        proof {
            assert(mle::cube((n - i) as nat) == 2 * half_nat);
        }
        let half: usize = a_tbl.len() / 2;
        let evals = eval_round_at_0_1_2_3(&eq_tbl, &a_tbl, &b_tbl, half);
        absorb_slice(channel, evals.as_slice());
        let r_i = channel.squeeze();
        fold_highest_var_inplace(&mut eq_tbl, r_i);
        fold_highest_var_inplace(&mut a_tbl, r_i);
        fold_highest_var_inplace(&mut b_tbl, r_i);
        rounds.push(RoundEvals { evals });
        challenges.push(r_i);
        proof {
            let next = sumcheck::run::<Block128, T>(tables, n as nat, start, (i + 1) as nat);
            assert(messages(rounds@) =~= messages(before).push(evals@));
            assert(sumcheck::fold_tables(now.tables, r_i) =~= seq![eq_tbl@, a_tbl@, b_tbl@]);
            assert(next.tables == sumcheck::fold_tables(now.tables, r_i));
        }
        i = i + 1;
    }
    proof {
        sumcheck::sumcheck_completeness::<Block128, T>(tables, n as nat, start);
        let all = sumcheck::run::<Block128, T>(tables, n as nat, start, n as nat);
        assert(all.tables[1] == a_tbl@ && all.tables[2] == b_tbl@);
        assert(tables[1] == a@ && tables[2] == b@);
        assert(mle::cube(0) == 1);
    }
    let point = reversed(&challenges);
    let proof_out = ProductProof { rounds, a_final: a_tbl[0], b_final: b_tbl[0] };
    (proof_out, point)
}

/// Version of [`prove_product`] for the case `A == B`: the inner term `A(x) · B(x)` is a square.
///
/// The proof is the one that [`prove_product`] returns for two equal tables.
pub fn prove_square<T: FiatShamir<Block128>>(
    a: &[Block128],
    r: &[Block128],
    _v: Block128,
    channel: &mut T,
) -> (result: (ProductProof, Vec<Block128>))
    requires
        a@.len() == mle::cube(r@.len()),
    ensures
        result.0@ == product_proof::<T>(a@, a@, r@, old(channel).state()),
        result.1@ == product_point::<T>(a@, a@, r@, old(channel).state()),
        final(channel).state() == product_state::<T>(a@, a@, r@, old(channel).state()),
        result.1@.len() == r@.len(),
{
    let n: usize = r.len();
    let len: usize = a.len();
    assert(len == mle::cube(r@.len()));
    let mut eq_tbl = eq_ind_partial_eval(r);
    let mut a_tbl = copied(a);
    let mut rounds: Vec<RoundEvals> = Vec::with_capacity(n);
    let mut challenges: Vec<Block128> = Vec::with_capacity(n);
    let ghost start = channel.state();
    let ghost tables = product_tables(a@, a@, r@);
    proof {
        assert(messages(rounds@) =~= Seq::empty());
        assert(seq![eq_tbl@, a_tbl@, a_tbl@] =~= tables);
    }
    let mut i: usize = 0;
    while i < n
        invariant
            i <= n,
            n == r.len(),
            a@.len() == mle::cube(n as nat),
            tables == product_tables(a@, a@, r@),
            eq_tbl@.len() == mle::cube((n - i) as nat),
            a_tbl@.len() == mle::cube((n - i) as nat),
            ({
                let now = sumcheck::run::<Block128, T>(tables, n as nat, start, i as nat);
                &&& now.rounds == messages(rounds@)
                &&& now.challenges == challenges@
                &&& now.tables == seq![eq_tbl@, a_tbl@, a_tbl@]
                &&& now.state == channel.state()
            }),
        decreases n - i,
    {
        let ghost now = sumcheck::run::<Block128, T>(tables, n as nat, start, i as nat);
        let ghost before = rounds@;
        let ghost half_nat = mle::cube((n - i - 1) as nat);
        proof {
            assert(mle::cube((n - i) as nat) == 2 * half_nat);
        }
        let half: usize = a_tbl.len() / 2;
        let evals = eval_round_at_0_1_2_3_square(&eq_tbl, &a_tbl, half);
        absorb_slice(channel, evals.as_slice());
        let r_i = channel.squeeze();
        fold_highest_var_inplace(&mut eq_tbl, r_i);
        fold_highest_var_inplace(&mut a_tbl, r_i);
        rounds.push(RoundEvals { evals });
        challenges.push(r_i);
        proof {
            let next = sumcheck::run::<Block128, T>(tables, n as nat, start, (i + 1) as nat);
            assert(messages(rounds@) =~= messages(before).push(evals@));
            assert(sumcheck::fold_tables(now.tables, r_i) =~= seq![eq_tbl@, a_tbl@, a_tbl@]);
            assert(next.tables == sumcheck::fold_tables(now.tables, r_i));
        }
        i = i + 1;
    }
    proof {
        sumcheck::sumcheck_completeness::<Block128, T>(tables, n as nat, start);
        let all = sumcheck::run::<Block128, T>(tables, n as nat, start, n as nat);
        assert(all.tables[1] == a_tbl@ && all.tables[2] == a_tbl@);
        assert(tables[1] == a@ && tables[2] == a@);
        assert(mle::cube(0) == 1);
    }
    let point = reversed(&challenges);
    let proof_out = ProductProof { rounds, a_final: a_tbl[0], b_final: a_tbl[0] };
    (proof_out, point)
}

/// Verifier.
///
/// Returns `Some(r')`, the challenge vector, on success, `None` on any failure.  On success the
/// caller may rely on `proof.a_final == A(r')` and `proof.b_final == B(r')`, **provided** the caller
/// separately verifies the two final claims.
pub fn verify_product<T: FiatShamir<Block128>>(
    proof: &ProductProof,
    r: &[Block128],
    v: Block128,
    channel: &mut T,
) -> (result: Option<Vec<Block128>>)
    ensures
        ({
            let verdict = product_verdict::<T>(proof@, r@, v, old(channel).state());
            &&& verdict.0 == match result {
                Some(point) => Some(point@),
                None => None,
            }
            &&& final(channel).state() == verdict.1
        }),
        result matches Some(point) ==> point@.len() == r@.len(),
{
    let n: usize = r.len();
    if proof.rounds.len() != n {
        return None;
    }
    let ghost start = channel.state();
    let ghost msgs = proof@.rounds;
    let ghost cs = sumcheck::replay::<Block128, T>(start, msgs).1;
    let mut claim = v;
    let mut challenges: Vec<Block128> = Vec::with_capacity(n);
    proof {
        assert(msgs.take(0) =~= Seq::empty());
        sumcheck::lemma_replay_prefix::<Block128, T>(start, msgs, 0);
    }
    let mut i: usize = 0;
    while i < n
        invariant
            i <= n,
            n == proof.rounds.len(),
            n == r.len(),
            start == old(channel).state(),
            msgs == proof@.rounds,
            cs == sumcheck::replay::<Block128, T>(start, msgs).1,
            sumcheck::replay::<Block128, T>(start, msgs.take(i as int)) == (
                channel.state(),
                challenges@,
            ),
            challenges@.len() == i,
            challenges@ == cs.take(i as int),
            cs.len() == n,
            claim == sumcheck::claim_at(v, msgs, cs, i as int),
            sumcheck::first_failure(v, msgs, cs, 0) == sumcheck::first_failure(
                v,
                msgs,
                cs,
                i as nat,
            ),
        decreases n - i,
    {
        let re = proof.rounds[i];
        proof {
            assert(msgs[i as int] == re.evals@);
        }
        if re.sum_at_0_plus_1() != claim {
            return None;
        }
        absorb_slice(channel, re.evals.as_slice());
        let r_i = channel.squeeze();
        claim = re.evaluate(r_i);
        challenges.push(r_i);
        proof {
            assert(msgs.take(i + 1).drop_last() =~= msgs.take(i as int));
            sumcheck::lemma_replay_prefix::<Block128, T>(start, msgs, (i + 1) as nat);
            assert(challenges@ =~= cs.take(i + 1));
            assert(challenges@[i as int] == cs[i as int]);
        }
        i = i + 1;
    }
    proof {
        assert(msgs.take(n as int) =~= msgs);
    }
    let point = reversed(&challenges);
    let eq_rr = eq_ind(r, &point);
    let rhs = eq_rr * proof.a_final * proof.b_final;
    if claim != rhs {
        return None;
    }
    Some(point)
}

/// Compute `Σ_x eq(r, x) · A(x) · B(x)`, the honest claim from a witness.
pub fn compute_product_claim(a: &[Block128], b: &[Block128], r: &[Block128]) -> (claim: Block128)
    requires
        a@.len() == mle::cube(r@.len()),
        b@.len() == mle::cube(r@.len()),
    ensures
        claim == product_claim(a@, b@, r@),
{
    let len: usize = a.len();
    assert(len == mle::cube(r@.len()));
    let eq = eq_ind_partial_eval(r);
    let mut acc = Block128::zero();
    let ghost terms = sums::seq_times(sums::seq_times(eq@, a@), b@);
    let mut i: usize = 0;
    while i < len
        invariant
            i <= len,
            len == a@.len(),
            a@.len() == b@.len(),
            a@.len() == eq@.len(),
            terms == sums::seq_times(sums::seq_times(eq@, a@), b@),
            acc == sums::total(terms.take(i as int)),
        decreases len - i,
    {
        proof {
            sums::lemma_total_take(terms, i as int);
        }
        acc = acc + eq[i] * a[i] * b[i];
        i = i + 1;
    }
    proof {
        assert(terms.take(i as int) =~= terms);
    }
    acc
}

/// Each round takes four elements of 16 bytes, and the two final values take two.
pub proof fn product_sizes(n: nat)
    ensures
        product_byte_len(0) == 2 * 16,
        product_byte_len(n + 1) == product_byte_len(n) + 4 * 16,
{
}

} // verus!
