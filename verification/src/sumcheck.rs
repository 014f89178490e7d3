//! The sumcheck protocol for sums of products of multilinear tables.
//!
//! A claim `v = sum over x of t_1(x) ... t_k(x)` is reduced, one variable per round from the
//! highest down, to a claim on the values of the tables at the point of the round challenges.  The
//! message of a round lists the values of the round polynomial at the first `k + 1` nodes.
use crate::algebra;
use crate::mle;
use crate::poly;
use crate::sums;
use crate::tower_field::TowerField;
use crate::transcript;
use crate::transcript::FiatShamir;
use vstd::prelude::*;

verus! {

/// The product of the `j`-th entries of all tables.
pub open spec fn row<F: TowerField>(tables: Seq<Seq<F>>, j: int) -> F
    decreases tables.len(),
{
    if tables.len() == 0 {
        F::unit()
    } else {
        row(tables.drop_last(), j).times(tables.last()[j])
    }
}

/// The sum over the first `len` positions of the products of all tables.
pub open spec fn inner<F: TowerField>(tables: Seq<Seq<F>>, len: nat) -> F {
    sums::total(Seq::new(len, |j: int| row(tables, j)))
}

/// All tables with their highest variable fixed to `r`.
pub open spec fn fold_tables<F: TowerField>(tables: Seq<Seq<F>>, r: F) -> Seq<Seq<F>> {
    Seq::new(tables.len(), |t: int| mle::fold_high(tables[t], r))
}

/// The value at `x` of the round polynomial of tables of length `2 * half`.
pub open spec fn round_value<F: TowerField>(tables: Seq<Seq<F>>, half: nat, x: F) -> F {
    inner(fold_tables(tables, x), half)
}

/// The values of the round polynomial at one node more than there are tables.
pub open spec fn round_message<F: TowerField>(tables: Seq<Seq<F>>, half: nat) -> Seq<F> {
    Seq::new(tables.len() + 1, |k: int| round_value(tables, half, poly::node(k)))
}

/// What the prover has done after some rounds.
pub struct Run<F, S> {
    /// The messages sent.
    pub rounds: Seq<Seq<F>>,
    /// The challenges received, in round order.
    pub challenges: Seq<F>,
    /// The folded tables.
    pub tables: Seq<Seq<F>>,
    /// The transcript state.
    pub state: S,
}

/// The first `i` rounds of the prover on tables in `n` variables.
pub open spec fn run<F: TowerField, C: FiatShamir<F>>(
    tables: Seq<Seq<F>>,
    n: nat,
    state: C::State,
    i: nat,
) -> Run<F, C::State>
    decreases i,
{
    if i == 0 {
        Run { rounds: Seq::empty(), challenges: Seq::empty(), tables, state }
    } else {
        let prev = run::<F, C>(tables, n, state, (i - 1) as nat);
        let message = round_message(prev.tables, mle::cube((n - i) as nat));
        let bound = transcript::absorb_seq::<F, C>(prev.state, message);
        let r = C::challenge(bound);
        Run {
            rounds: prev.rounds.push(message),
            challenges: prev.challenges.push(r),
            tables: fold_tables(prev.tables, r),
            state: C::squeezed(bound),
        }
    }
}

/// The transcript state and the challenges, in round order, of a verifier that reads `rounds`.
pub open spec fn replay<F, C: FiatShamir<F>>(state: C::State, rounds: Seq<Seq<F>>) -> (
    C::State,
    Seq<F>,
)
    decreases rounds.len(),
{
    if rounds.len() == 0 {
        (state, Seq::empty())
    } else {
        let prev = replay::<F, C>(state, rounds.drop_last());
        let bound = transcript::absorb_seq::<F, C>(prev.0, rounds.last());
        (C::squeezed(bound), prev.1.push(C::challenge(bound)))
    }
}

/// The claim that round `i` has to meet: the initial claim, or the previous round polynomial at its
/// challenge.
pub open spec fn claim_at<F: TowerField>(
    v: F,
    rounds: Seq<Seq<F>>,
    challenges: Seq<F>,
    i: int,
) -> F {
    if i == 0 {
        v
    } else {
        poly::interpolate(rounds[i - 1], challenges[i - 1])
    }
}

/// Whether the values at zero and one of round `i` add up to the claim it has to meet.
pub open spec fn telescopes<F: TowerField>(
    v: F,
    rounds: Seq<Seq<F>>,
    challenges: Seq<F>,
    i: int,
) -> bool {
    rounds[i][0].plus(rounds[i][1]) == claim_at(v, rounds, challenges, i)
}

/// The first round from `i` on that does not meet its claim, or the number of rounds.
pub open spec fn first_failure<F: TowerField>(
    v: F,
    rounds: Seq<Seq<F>>,
    challenges: Seq<F>,
    i: nat,
) -> nat
    decreases rounds.len() - i,
{
    if i >= rounds.len() || !telescopes(v, rounds, challenges, i as int) {
        i
    } else {
        first_failure(v, rounds, challenges, i + 1)
    }
}

/// The number of rounds that a verifier with initial claim `v` reads: it stops at the first round
/// that does not meet its claim.
pub open spec fn rounds_read<F: TowerField, C: FiatShamir<F>>(
    v: F,
    rounds: Seq<Seq<F>>,
    state: C::State,
) -> nat {
    first_failure(v, rounds, replay::<F, C>(state, rounds).1, 0)
}

/// The transcript state that such a verifier is left with.
pub open spec fn verifier_state<F: TowerField, C: FiatShamir<F>>(
    v: F,
    rounds: Seq<Seq<F>>,
    state: C::State,
) -> C::State {
    replay::<F, C>(state, rounds.take(rounds_read::<F, C>(v, rounds, state) as int)).0
}

/// The claim that is left after all rounds.
pub open spec fn final_claim<F: TowerField, C: FiatShamir<F>>(
    v: F,
    rounds: Seq<Seq<F>>,
    state: C::State,
) -> F {
    claim_at(v, rounds, replay::<F, C>(state, rounds).1, rounds.len() as int)
}

/// The point of the challenges in variable order: the last challenge fixes variable zero.
pub open spec fn point<F, C: FiatShamir<F>>(state: C::State, rounds: Seq<Seq<F>>) -> Seq<F> {
    replay::<F, C>(state, rounds).1.reverse()
}

/// The coefficients of the product of all tables in one row, as a polynomial in the highest
/// variable.
pub open spec fn row_poly<F: TowerField>(tables: Seq<Seq<F>>, j: int, half: int) -> Seq<F>
    decreases tables.len(),
{
    if tables.len() == 0 {
        seq![F::unit()]
    } else {
        let (lo, hi) = (tables.last()[j], tables.last()[j + half]);
        poly::poly_times_affine(row_poly(tables.drop_last(), j, half), lo, lo.plus(hi))
    }
}

/// The sum of the row polynomials of the first `m` rows.
pub open spec fn round_poly<F: TowerField>(tables: Seq<Seq<F>>, half: int, m: nat) -> Seq<F>
    decreases m,
{
    if m == 0 {
        poly::poly_zero(tables.len() + 1)
    } else {
        sums::seq_plus(
            round_poly(tables, half, (m - 1) as nat),
            row_poly(tables, m - 1, half),
        )
    }
}

proof fn lemma_row_poly<F: TowerField>(tables: Seq<Seq<F>>, j: int, half: int, x: F)
    requires
        0 <= j < half,
        forall|t: int| 0 <= t < tables.len() ==> (#[trigger] tables[t]).len() == 2 * half,
    ensures
        row_poly(tables, j, half).len() == tables.len() + 1,
        poly::poly_eval(row_poly(tables, j, half), x) == row(fold_tables(tables, x), j),
    decreases tables.len(),
{
    if tables.len() == 0 {
        let one = seq![F::unit()];
        assert(poly::poly_eval(one.drop_first(), x) == F::nil());
        algebra::lemma_times_nil(x);
        F::plus_laws(F::unit(), F::nil(), F::nil());
    } else {
        let prev = tables.drop_last();
        let (lo, hi) = (tables.last()[j], tables.last()[j + half]);
        assert forall|t: int| 0 <= t < prev.len() implies (#[trigger] prev[t]).len() == 2 * half by {
            assert(prev[t] == tables[t]);
        }
        assert(tables[tables.len() - 1].len() == 2 * half);
        lemma_row_poly(prev, j, half, x);
        let p = row_poly(prev, j, half);
        poly::lemma_eval_times_affine(p, lo, lo.plus(hi), x);
        assert(fold_tables(tables, x).drop_last() =~= fold_tables(prev, x));
        F::times_laws(lo.plus(hi), x, x);
        F::times_laws(mle::lerp(lo, hi, x), poly::poly_eval(p, x), x);
    }
}

proof fn lemma_round_poly<F: TowerField>(tables: Seq<Seq<F>>, half: nat, m: nat, x: F)
    requires
        m <= half,
        forall|t: int| 0 <= t < tables.len() ==> (#[trigger] tables[t]).len() == 2 * half,
    ensures
        round_poly(tables, half as int, m).len() == tables.len() + 1,
        poly::poly_eval(round_poly(tables, half as int, m), x) == inner(fold_tables(tables, x), m),
    decreases m,
{
    let terms = Seq::new(m, |j: int| row(fold_tables(tables, x), j));
    if m == 0 {
        poly::lemma_eval_zero(poly::poly_zero::<F>(tables.len() + 1), x);
    } else {
        let k = (m - 1) as nat;
        lemma_round_poly(tables, half, k, x);
        lemma_row_poly(tables, k as int, half as int, x);
        poly::lemma_eval_plus(
            round_poly(tables, half as int, k),
            row_poly(tables, k as int, half as int),
            x,
        );
        assert(terms.drop_last() =~= Seq::new(k, |j: int| row(fold_tables(tables, x), j)));
    }
}

/// The round polynomial is recovered from its message.
pub proof fn lemma_message<F: TowerField>(tables: Seq<Seq<F>>, half: nat, x: F)
    requires
        tables.len() < 256,
        forall|t: int| 0 <= t < tables.len() ==> (#[trigger] tables[t]).len() == 2 * half,
    ensures
        poly::interpolate(round_message(tables, half), x) == round_value(tables, half, x),
{
    let coeffs = round_poly(tables, half as int, half);
    let n = tables.len() + 1;
    lemma_round_poly(tables, half, half, x);
    assert forall|k: int| 0 <= k < n implies #[trigger] round_message(tables, half)[k]
        == poly::samples(coeffs, n)[k] by {
        lemma_round_poly(tables, half, half, poly::node(k));
    }
    assert(round_message(tables, half) =~= poly::samples(coeffs, n));
    poly::interpolation_round_trip(coeffs, n, x);
}

proof fn lemma_row_fold_bit<F: TowerField>(tables: Seq<Seq<F>>, half: nat, j: int)
    requires
        0 <= j < half,
        forall|t: int| 0 <= t < tables.len() ==> (#[trigger] tables[t]).len() == 2 * half,
    ensures
        row(fold_tables(tables, F::nil()), j) == row(tables, j),
        row(fold_tables(tables, F::unit()), j) == row(tables, j + half),
    decreases tables.len(),
{
    if tables.len() > 0 {
        let prev = tables.drop_last();
        assert forall|t: int| 0 <= t < prev.len() implies (#[trigger] prev[t]).len() == 2 * half by {
            assert(prev[t] == tables[t]);
        }
        lemma_row_fold_bit(prev, half, j);
        assert(fold_tables(tables, F::nil()).drop_last() =~= fold_tables(prev, F::nil()));
        assert(fold_tables(tables, F::unit()).drop_last() =~= fold_tables(prev, F::unit()));
        assert(tables[tables.len() - 1].len() == 2 * half);
        mle::lemma_fold_bit(tables.last());
    }
}

/// The values of the round polynomial at zero and one add up to the whole sum.
pub proof fn lemma_telescope<F: TowerField>(tables: Seq<Seq<F>>, half: nat)
    requires
        tables.len() > 0,
        forall|t: int| 0 <= t < tables.len() ==> (#[trigger] tables[t]).len() == 2 * half,
    ensures
        round_message(tables, half)[0].plus(round_message(tables, half)[1]) == inner(
            tables,
            2 * half,
        ),
{
    F::byte_laws(0, 1);
    let lo = Seq::new(half, |j: int| row(fold_tables(tables, F::nil()), j));
    let hi = Seq::new(half, |j: int| row(fold_tables(tables, F::unit()), j));
    let all = Seq::new(2 * half, |j: int| row(tables, j));
    assert forall|j: int| 0 <= j < 2 * half implies #[trigger] all[j] == (lo + hi)[j] by {
        if j < half {
            lemma_row_fold_bit(tables, half, j);
        } else {
            lemma_row_fold_bit(tables, half, j - half);
        }
    }
    assert(all =~= lo + hi);
    sums::lemma_total_concat(lo, hi);
}

/// The shape of a prover run, and its agreement with the verifier's replay.
pub proof fn lemma_run<F: TowerField, C: FiatShamir<F>>(
    tables: Seq<Seq<F>>,
    n: nat,
    state: C::State,
    i: nat,
)
    requires
        i <= n,
        forall|t: int| 0 <= t < tables.len() ==> (#[trigger] tables[t]).len() == mle::cube(n),
    ensures
        ({
            let now = run::<F, C>(tables, n, state, i);
            &&& now.rounds.len() == i
            &&& now.challenges.len() == i
            &&& now.tables.len() == tables.len()
            &&& forall|t: int|
                0 <= t < tables.len() ==> #[trigger] now.tables[t] == mle::fold_highs(
                    tables[t],
                    now.challenges,
                )
            &&& forall|t: int|
                0 <= t < tables.len() ==> (#[trigger] now.tables[t]).len() == mle::cube(
                    (n - i) as nat,
                )
            &&& forall|k: int|
                0 <= k < i ==> (#[trigger] now.rounds[k]).len() == tables.len() + 1
            &&& replay::<F, C>(state, now.rounds) == (now.state, now.challenges)
        }),
    decreases i,
{
    if i > 0 {
        lemma_run::<F, C>(tables, n, state, (i - 1) as nat);
        let prev = run::<F, C>(tables, n, state, (i - 1) as nat);
        let now = run::<F, C>(tables, n, state, i);
        assert(now.rounds.drop_last() =~= prev.rounds);
        assert(now.challenges.drop_last() =~= prev.challenges);
        assert forall|t: int| 0 <= t < tables.len() implies #[trigger] now.tables[t]
            == mle::fold_highs(tables[t], now.challenges) && now.tables[t].len() == mle::cube(
            (n - i) as nat,
        ) by {
            assert(prev.tables[t] == mle::fold_highs(tables[t], prev.challenges));
            assert(mle::cube((n - i + 1) as nat) == 2 * mle::cube((n - i) as nat));
        }
        assert forall|k: int| 0 <= k < i implies (#[trigger] now.rounds[k]).len() == tables.len()
            + 1 by {
            if k < i - 1 {
                assert(now.rounds[k] == prev.rounds[k]);
            }
        }
    }
}

/// Earlier rounds of a run are a prefix of later ones.
pub proof fn lemma_run_prefix<F: TowerField, C: FiatShamir<F>>(
    tables: Seq<Seq<F>>,
    n: nat,
    state: C::State,
    i: nat,
    m: nat,
)
    requires
        i <= m <= n,
        forall|t: int| 0 <= t < tables.len() ==> (#[trigger] tables[t]).len() == mle::cube(n),
    ensures
        run::<F, C>(tables, n, state, i).rounds == run::<F, C>(tables, n, state, m).rounds.take(
            i as int,
        ),
        run::<F, C>(tables, n, state, i).challenges == run::<F, C>(
            tables,
            n,
            state,
            m,
        ).challenges.take(i as int),
    decreases m - i,
{
    let a = run::<F, C>(tables, n, state, i);
    let b = run::<F, C>(tables, n, state, m);
    lemma_run::<F, C>(tables, n, state, i);
    lemma_run::<F, C>(tables, n, state, m);
    if i == m {
        assert(b.rounds.take(i as int) =~= a.rounds);
        assert(b.challenges.take(i as int) =~= a.challenges);
    } else {
        lemma_run_prefix::<F, C>(tables, n, state, i, (m - 1) as nat);
        let c = run::<F, C>(tables, n, state, (m - 1) as nat);
        lemma_run::<F, C>(tables, n, state, (m - 1) as nat);
        assert(b.rounds.take(i as int) =~= c.rounds.take(i as int));
        assert(b.challenges.take(i as int) =~= c.challenges.take(i as int));
    }
}

/// Every round of an honest run meets its claim, and the claim after `i` rounds is the sum of the
/// folded tables.
pub proof fn lemma_run_claims<F: TowerField, C: FiatShamir<F>>(
    tables: Seq<Seq<F>>,
    n: nat,
    state: C::State,
    i: nat,
)
    requires
        i <= n,
        0 < tables.len() < 256,
        forall|t: int| 0 <= t < tables.len() ==> (#[trigger] tables[t]).len() == mle::cube(n),
    ensures
        ({
            let all = run::<F, C>(tables, n, state, n);
            let v = inner(tables, mle::cube(n));
            &&& claim_at(v, all.rounds, all.challenges, i as int) == inner(
                run::<F, C>(tables, n, state, i).tables,
                mle::cube((n - i) as nat),
            )
            &&& i < n ==> telescopes(v, all.rounds, all.challenges, i as int)
        }),
{
    let all = run::<F, C>(tables, n, state, n);
    lemma_run::<F, C>(tables, n, state, n);
    lemma_run::<F, C>(tables, n, state, i);
    let now = run::<F, C>(tables, n, state, i);
    if i > 0 {
        let prev = run::<F, C>(tables, n, state, (i - 1) as nat);
        lemma_run::<F, C>(tables, n, state, (i - 1) as nat);
        lemma_run_prefix::<F, C>(tables, n, state, i, n);
        let half = mle::cube((n - i) as nat);
        assert(mle::cube((n - i + 1) as nat) == 2 * half);
        assert(all.rounds[i - 1] == now.rounds[i - 1]);
        assert(all.challenges[i - 1] == now.challenges[i - 1]);
        lemma_message(prev.tables, half, now.challenges[i - 1]);
    }
    if i < n {
        let half = mle::cube((n - i - 1) as nat);
        assert(mle::cube((n - i) as nat) == 2 * half);
        lemma_run_prefix::<F, C>(tables, n, state, i + 1, n);
        lemma_run::<F, C>(tables, n, state, i + 1);
        let next = run::<F, C>(tables, n, state, i + 1);
        assert(all.rounds[i as int] == next.rounds[i as int]);
        lemma_telescope(now.tables, half);
    }
}

/// If every round meets its claim, none is the first to fail.
pub proof fn lemma_no_failure<F: TowerField>(
    v: F,
    rounds: Seq<Seq<F>>,
    challenges: Seq<F>,
    i: nat,
)
    requires
        i <= rounds.len(),
        forall|k: int|
            i <= k < rounds.len() ==> #[trigger] telescopes(v, rounds, challenges, k),
    ensures
        first_failure(v, rounds, challenges, i) == rounds.len(),
    decreases rounds.len() - i,
{
    if i < rounds.len() {
        lemma_no_failure(v, rounds, challenges, i + 1);
    }
}

/// The replay of a prefix of the rounds is a prefix of the replay.
pub proof fn lemma_replay_prefix<F, C: FiatShamir<F>>(
    state: C::State,
    rounds: Seq<Seq<F>>,
    i: nat,
)
    requires
        i <= rounds.len(),
    ensures
        replay::<F, C>(state, rounds).1.len() == rounds.len(),
        replay::<F, C>(state, rounds.take(i as int)).1 == replay::<F, C>(state, rounds).1.take(
            i as int,
        ),
    decreases rounds.len(),
{
    let cs = replay::<F, C>(state, rounds).1;
    if i == rounds.len() {
        if i > 0 {
            lemma_replay_prefix::<F, C>(state, rounds.drop_last(), (i - 1) as nat);
        }
        assert(rounds.take(i as int) =~= rounds);
        assert(cs.take(i as int) =~= cs);
    } else {
        let prev = rounds.drop_last();
        lemma_replay_prefix::<F, C>(state, prev, i);
        assert(prev.take(i as int) =~= rounds.take(i as int));
        let pcs = replay::<F, C>(state, prev).1;
        assert(cs.take(i as int) =~= pcs.take(i as int));
    }
}

/// Completeness: a verifier that starts from the true sum reads all rounds of the honest prover,
/// ends in the prover's transcript state with the prover's challenges, and is left with the product
/// of the values of the tables at the point of the challenges.
pub proof fn sumcheck_completeness<F: TowerField, C: FiatShamir<F>>(
    tables: Seq<Seq<F>>,
    n: nat,
    state: C::State,
)
    requires
        0 < tables.len() < 256,
        forall|t: int| 0 <= t < tables.len() ==> (#[trigger] tables[t]).len() == mle::cube(n),
    ensures
        ({
            let all = run::<F, C>(tables, n, state, n);
            let v = inner(tables, mle::cube(n));
            let at = all.challenges.reverse();
            &&& rounds_read::<F, C>(v, all.rounds, state) == n
            &&& verifier_state::<F, C>(v, all.rounds, state) == all.state
            &&& point::<F, C>(state, all.rounds) == at
            &&& final_claim::<F, C>(v, all.rounds, state) == row(all.tables, 0)
            &&& at.len() == n
            &&& forall|t: int|
                0 <= t < tables.len() ==> (#[trigger] all.tables[t]).len() == 1
                    && all.tables[t][0] == mle::mle_eval(tables[t], at)
        }),
{
    let all = run::<F, C>(tables, n, state, n);
    let v = inner(tables, mle::cube(n));
    lemma_run::<F, C>(tables, n, state, n);
    assert forall|k: int| 0 <= k < n implies #[trigger] telescopes(
        v,
        all.rounds,
        all.challenges,
        k,
    ) by {
        lemma_run_claims::<F, C>(tables, n, state, k as nat);
    }
    lemma_no_failure(v, all.rounds, all.challenges, 0);
    assert(all.rounds.take(n as int) =~= all.rounds);
    lemma_run_claims::<F, C>(tables, n, state, n);
    let last = Seq::new(1, |j: int| row(all.tables, j));
    assert(mle::cube(0) == 1);
    assert(last =~= Seq::empty().push(row(all.tables, 0)));
    sums::lemma_total_push(Seq::empty(), row(all.tables, 0));
    algebra::lemma_neutral_left(row(all.tables, 0));
    assert forall|t: int| 0 <= t < tables.len() implies (#[trigger] all.tables[t]).len() == 1
        && all.tables[t][0] == mle::mle_eval(tables[t], all.challenges.reverse()) by {
        mle::lemma_fold_all(tables[t], all.challenges);
    }
}

/// What reading a list of rounds means, for whatever states and challenges follow from absorbing each
/// round in full and squeezing one challenge: the challenges and the last state are those of the
/// verifier, its point is the challenges in reverse, it reads all rounds exactly when the values at
/// zero and one of each round add up to what the round before gives at its challenge, the first round
/// to the claim, and the last round at its challenge is the claim that is left.
pub proof fn rounds_are_checked<F: TowerField, C: FiatShamir<F>>(
    v: F,
    rounds: Seq<Seq<F>>,
    states: Seq<C::State>,
    challenges: Seq<F>,
)
    requires
        states.len() == rounds.len() + 1,
        challenges.len() == rounds.len(),
        forall|i: int|
            0 <= i < rounds.len() ==> challenges[i] == C::challenge(
                transcript::absorb_seq::<F, C>(states[i], #[trigger] rounds[i]),
            ) && states[i + 1] == C::squeezed(
                transcript::absorb_seq::<F, C>(states[i], rounds[i]),
            ),
    ensures
        replay::<F, C>(states[0], rounds) == (states.last(), challenges),
        point::<F, C>(states[0], rounds) == challenges.reverse(),
        rounds_read::<F, C>(v, rounds, states[0]) <= rounds.len(),
        rounds_read::<F, C>(v, rounds, states[0]) == rounds.len() <==> forall|i: int|
            0 <= i < rounds.len() ==> (#[trigger] rounds[i])[0].plus(rounds[i][1]) == if i == 0 {
                v
            } else {
                poly::interpolate(rounds[i - 1], challenges[i - 1])
            },
        final_claim::<F, C>(v, rounds, states[0]) == if rounds.len() == 0 {
            v
        } else {
            poly::interpolate(rounds.last(), challenges.last())
        },
        verifier_state::<F, C>(v, rounds, states[0]) == states[rounds_read::<F, C>(
            v,
            rounds,
            states[0],
        ) as int],
{
    lemma_replay_states::<F, C>(rounds, states, challenges, rounds.len());
    assert(rounds.take(rounds.len() as int) =~= rounds);
    assert(challenges.take(rounds.len() as int) =~= challenges);
    lemma_first_failure(v, rounds, challenges, 0);
    let k = rounds_read::<F, C>(v, rounds, states[0]);
    lemma_replay_states::<F, C>(rounds, states, challenges, k);
    if k == rounds.len() {
        assert forall|i: int| 0 <= i < rounds.len() implies (#[trigger] rounds[i])[0].plus(
            rounds[i][1],
        ) == if i == 0 {
            v
        } else {
            poly::interpolate(rounds[i - 1], challenges[i - 1])
        } by {
            assert(telescopes(v, rounds, challenges, i));
        }
    } else {
        assert(!telescopes(v, rounds, challenges, k as int));
        let bad = rounds[k as int];
    }
}

proof fn lemma_replay_states<F, C: FiatShamir<F>>(
    rounds: Seq<Seq<F>>,
    states: Seq<C::State>,
    challenges: Seq<F>,
    k: nat,
)
    requires
        k <= rounds.len(),
        states.len() == rounds.len() + 1,
        challenges.len() == rounds.len(),
        forall|i: int|
            0 <= i < rounds.len() ==> challenges[i] == C::challenge(
                transcript::absorb_seq::<F, C>(states[i], #[trigger] rounds[i]),
            ) && states[i + 1] == C::squeezed(
                transcript::absorb_seq::<F, C>(states[i], rounds[i]),
            ),
    ensures
        replay::<F, C>(states[0], rounds.take(k as int)) == (
            states[k as int],
            challenges.take(k as int),
        ),
    decreases k,
{
    let part = rounds.take(k as int);
    if k == 0 {
        assert(challenges.take(0) =~= Seq::empty());
    } else {
        lemma_replay_states::<F, C>(rounds, states, challenges, (k - 1) as nat);
        assert(part.drop_last() =~= rounds.take(k - 1));
        assert(part.last() == rounds[k - 1]);
        assert(challenges.take(k - 1).push(challenges[k - 1]) =~= challenges.take(k as int));
        assert(states[k - 1 + 1] == states[k as int]);
    }
}

proof fn lemma_first_failure<F: TowerField>(
    v: F,
    rounds: Seq<Seq<F>>,
    challenges: Seq<F>,
    i: nat,
)
    requires
        i <= rounds.len(),
    ensures
        ({
            let k = first_failure(v, rounds, challenges, i);
            &&& i <= k <= rounds.len()
            &&& forall|j: int| i <= j < k ==> #[trigger] telescopes(v, rounds, challenges, j)
            &&& k < rounds.len() ==> !telescopes(v, rounds, challenges, k as int)
        }),
    decreases rounds.len() - i,
{
    if i < rounds.len() && telescopes(v, rounds, challenges, i as int) {
        lemma_first_failure(v, rounds, challenges, i + 1);
    }
}

} // verus!
