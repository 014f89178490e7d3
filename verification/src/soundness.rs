//! Soundness of the sumcheck arguments.
//!
//! A verifier that accepts a false claim has been lucky: in some round the message sent differs from
//! the honest one, and yet the two round polynomials agree at the challenge.  Round polynomials of
//! degree `d` agree at no more than `d` points, so that for each message at most `d` challenges are
//! lucky.
use crate::algebra;
use crate::batch_eval;
use crate::batch_eval::{BatchEvalProofView, ClaimView};
use crate::block128::Block128;
use crate::mle;
use crate::mle_layout;
use crate::mle_layout::PermColumns;
use crate::perm_sumcheck;
use crate::perm_sumcheck::PermProofView;
use crate::permutation::Poseidon2bPermutation;
use crate::poly;
use crate::product_sumcheck;
use crate::product_sumcheck::ProductProofView;
use crate::sumcheck;
use crate::sums;
use crate::tower_field::TowerField;
use crate::transcript::FiatShamir;
use vstd::prelude::*;

verus! {

/// The tables after the challenges have fixed their highest variables.
pub open spec fn folded<F: TowerField>(tables: Seq<Seq<F>>, challenges: Seq<F>) -> Seq<Seq<F>> {
    Seq::new(tables.len(), |t: int| mle::fold_highs(tables[t], challenges))
}

/// The honest message of round `i` on tables in `n` variables.
pub open spec fn honest_message<F: TowerField>(
    tables: Seq<Seq<F>>,
    n: nat,
    challenges: Seq<F>,
    i: int,
) -> Seq<F> {
    sumcheck::round_message(folded(tables, challenges.take(i)), mle::cube((n - i - 1) as nat))
}

/// Whether round `i` sends a false message that agrees with the honest one at the challenge.
pub open spec fn lucky_round<F: TowerField>(
    tables: Seq<Seq<F>>,
    n: nat,
    rounds: Seq<Seq<F>>,
    challenges: Seq<F>,
    i: int,
) -> bool {
    let honest = honest_message(tables, n, challenges, i);
    &&& rounds[i] != honest
    &&& poly::interpolate(rounds[i], challenges[i]) == poly::interpolate(honest, challenges[i])
}

/// Whether some round is lucky.
pub open spec fn lucky<F: TowerField>(
    tables: Seq<Seq<F>>,
    n: nat,
    rounds: Seq<Seq<F>>,
    challenges: Seq<F>,
) -> bool {
    exists|i: int| 0 <= i < n && #[trigger] lucky_round(tables, n, rounds, challenges, i)
}

proof fn lemma_folded<F: TowerField>(tables: Seq<Seq<F>>, n: nat, challenges: Seq<F>, i: nat)
    requires
        i <= n,
        i <= challenges.len(),
        forall|t: int| 0 <= t < tables.len() ==> (#[trigger] tables[t]).len() == mle::cube(n),
    ensures
        forall|t: int|
            0 <= t < tables.len() ==> (#[trigger] folded(tables, challenges.take(i as int))[t]).len()
                == mle::cube((n - i) as nat),
        i > 0 ==> folded(tables, challenges.take(i as int)) == sumcheck::fold_tables(
            folded(tables, challenges.take(i - 1)),
            challenges[i - 1],
        ),
    decreases i,
{
    let now = challenges.take(i as int);
    if i > 0 {
        lemma_folded(tables, n, challenges, (i - 1) as nat);
        let prev = challenges.take(i - 1);
        assert(now.drop_last() =~= prev);
        assert(mle::cube((n - i + 1) as nat) == 2 * mle::cube((n - i) as nat));
        assert(folded(tables, now) =~= sumcheck::fold_tables(
            folded(tables, prev),
            challenges[i - 1],
        ));
        assert forall|t: int| 0 <= t < tables.len() implies (#[trigger] folded(
            tables,
            now,
        )[t]).len() == mle::cube((n - i) as nat) by {
            assert(folded(tables, prev)[t].len() == mle::cube((n - i + 1) as nat));
        }
    }
}

/// A false claim before round `i` stays false up to a lucky round.
proof fn lemma_false_claim<F: TowerField>(
    v: F,
    tables: Seq<Seq<F>>,
    n: nat,
    rounds: Seq<Seq<F>>,
    challenges: Seq<F>,
    i: nat,
)
    requires
        i <= n,
        0 < tables.len() < 256,
        forall|t: int| 0 <= t < tables.len() ==> (#[trigger] tables[t]).len() == mle::cube(n),
        rounds.len() == n,
        challenges.len() == n,
        forall|k: int| 0 <= k < n ==> #[trigger] sumcheck::telescopes(v, rounds, challenges, k),
        sumcheck::claim_at(v, rounds, challenges, n as int) == sumcheck::row(
            folded(tables, challenges),
            0,
        ),
        sumcheck::claim_at(v, rounds, challenges, i as int) != sumcheck::inner(
            folded(tables, challenges.take(i as int)),
            mle::cube((n - i) as nat),
        ),
    ensures
        lucky(tables, n, rounds, challenges),
    decreases n - i,
{
    let now = folded(tables, challenges.take(i as int));
    lemma_folded(tables, n, challenges, i);
    if i == n {
        assert(challenges.take(n as int) =~= challenges);
        let only = Seq::new(1, |j: int| sumcheck::row(now, j));
        assert(mle::cube(0) == 1);
        assert(only =~= Seq::empty().push(sumcheck::row(now, 0)));
        sums::lemma_total_push(Seq::empty(), sumcheck::row(now, 0));
        algebra::lemma_neutral_left(sumcheck::row(now, 0));
    } else {
        let half = mle::cube((n - i - 1) as nat);
        let r = challenges[i as int];
        let honest = honest_message(tables, n, challenges, i as int);
        assert(mle::cube((n - i) as nat) == 2 * half);
        sumcheck::lemma_telescope(now, half);
        assert(sumcheck::telescopes(v, rounds, challenges, i as int));
        assert(rounds[i as int] != honest);
        sumcheck::lemma_message(now, half, r);
        lemma_folded(tables, n, challenges, i + 1);
        if poly::interpolate(rounds[i as int], r) == poly::interpolate(honest, r) {
            assert(lucky_round(tables, n, rounds, challenges, i as int));
        } else {
            lemma_false_claim(v, tables, n, rounds, challenges, i + 1);
        }
    }
}

proof fn lemma_all_telescope<F: TowerField>(
    v: F,
    rounds: Seq<Seq<F>>,
    challenges: Seq<F>,
    i: nat,
    k: int,
)
    requires
        sumcheck::first_failure(v, rounds, challenges, i) == rounds.len(),
        i <= k < rounds.len(),
    ensures
        sumcheck::telescopes(v, rounds, challenges, k),
    decreases rounds.len() - i,
{
    if k > i {
        lemma_all_telescope(v, rounds, challenges, i + 1, k);
    }
}

/// Soundness: if the verifier reads all rounds and the claim it is left with is the product of the
/// values of the tables at its point, the initial claim is the true sum or some round is lucky.
pub proof fn sumcheck_soundness<F: TowerField, C: FiatShamir<F>>(
    v: F,
    tables: Seq<Seq<F>>,
    n: nat,
    rounds: Seq<Seq<F>>,
    state: C::State,
)
    requires
        0 < tables.len() < 256,
        forall|t: int| 0 <= t < tables.len() ==> (#[trigger] tables[t]).len() == mle::cube(n),
        rounds.len() == n,
        sumcheck::rounds_read::<F, C>(v, rounds, state) == n,
        sumcheck::final_claim::<F, C>(v, rounds, state) == sumcheck::row(
            folded(tables, sumcheck::replay::<F, C>(state, rounds).1),
            0,
        ),
    ensures
        v == sumcheck::inner(tables, mle::cube(n)) || lucky(
            tables,
            n,
            rounds,
            sumcheck::replay::<F, C>(state, rounds).1,
        ),
{
    let cs = sumcheck::replay::<F, C>(state, rounds).1;
    sumcheck::lemma_replay_prefix::<F, C>(state, rounds, n);
    assert forall|k: int| 0 <= k < n implies #[trigger] sumcheck::telescopes(v, rounds, cs, k) by {
        lemma_all_telescope(v, rounds, cs, 0, k);
    }
    if v != sumcheck::inner(tables, mle::cube(n)) {
        assert(cs.take(0) =~= Seq::empty());
        assert(folded(tables, cs.take(0)) =~= tables);
        lemma_false_claim(v, tables, n, rounds, cs, 0);
    }
}

/// Few challenges are lucky: two different messages with `d + 1` values agree at no more than `d`
/// points.
pub proof fn few_lucky_challenges<F: TowerField>(sent: Seq<F>, honest: Seq<F>, points: Seq<F>)
    requires
        sent != honest,
        sent.len() == honest.len(),
        0 < sent.len() <= 256,
        forall|i: int, j: int|
            0 <= i < j < points.len() ==> #[trigger] points[i] != #[trigger] points[j],
        forall|i: int|
            0 <= i < points.len() ==> poly::interpolate(sent, #[trigger] points[i])
                == poly::interpolate(honest, points[i]),
    ensures
        points.len() < sent.len(),
{
    let n = sent.len();
    if points.len() >= n {
        poly::lemma_lagrange(sent);
        poly::lemma_lagrange(honest);
        assert forall|k: int| 0 <= k < n implies sent[k] == honest[k] by {
            poly::lemma_agree(
                poly::lagrange(sent),
                poly::lagrange(honest),
                points,
                poly::node(k),
            );
        }
        assert(sent =~= honest);
    }
}

/// The tables folded by all challenges hold their values at the point of the challenges.
proof fn lemma_folded_values<F: TowerField>(tables: Seq<Seq<F>>, n: nat, challenges: Seq<F>, t: int)
    requires
        challenges.len() == n,
        0 <= t < tables.len(),
        tables[t].len() == mle::cube(n),
    ensures
        folded(tables, challenges)[t][0] == mle::mle_eval(tables[t], challenges.reverse()),
{
    mle::lemma_fold_all(tables[t], challenges);
}

/// Soundness of the product argument: if the verifier accepts and the two final values are those of
/// the tables at its point, the claim is true or some round is lucky.
pub proof fn product_soundness<C: FiatShamir<Block128>>(
    a: Seq<Block128>,
    b: Seq<Block128>,
    r: Seq<Block128>,
    v: Block128,
    proof: ProductProofView,
    state: C::State,
)
    requires
        a.len() == mle::cube(r.len()),
        b.len() == mle::cube(r.len()),
        product_sumcheck::product_accepted::<C>(proof, r, v, state),
        ({
            let at = sumcheck::point::<Block128, C>(state, proof.rounds);
            proof.a_final == mle::mle_eval(a, at) && proof.b_final == mle::mle_eval(b, at)
        }),
    ensures
        v == product_sumcheck::product_claim(a, b, r) || lucky(
            product_sumcheck::product_tables(a, b, r),
            r.len(),
            proof.rounds,
            sumcheck::replay::<Block128, C>(state, proof.rounds).1,
        ),
{
    let n = r.len();
    let tables = product_sumcheck::product_tables(a, b, r);
    let cs = sumcheck::replay::<Block128, C>(state, proof.rounds).1;
    let at = cs.reverse();
    sumcheck::lemma_replay_prefix::<Block128, C>(state, proof.rounds, n);
    assert(tables[0] == mle::eq_table(r) && tables[1] == a && tables[2] == b);
    lemma_folded_values(tables, n, cs, 0);
    lemma_folded_values(tables, n, cs, 1);
    lemma_folded_values(tables, n, cs, 2);
    let end = folded(tables, cs);
    assert(end =~= seq![end[0], end[1], end[2]]);
    product_sumcheck::lemma_row3(end[0], end[1], end[2], 0);
    mle::lemma_eq_product(r, at);
    product_sumcheck::lemma_product_claim(a, b, r);
    sumcheck_soundness::<Block128, C>(v, tables, n, proof.rounds, state);
}

/// The claims with the values that the table has at their points.
pub open spec fn true_claims(b: Seq<Block128>, claims: Seq<ClaimView>) -> Seq<ClaimView> {
    Seq::new(
        claims.len(),
        |i: int| ClaimView { point: claims[i].point, value: mle::mle_eval(b, claims[i].point) },
    )
}

/// The table `W` depends on the points of the claims alone.
proof fn lemma_true_claims(
    b: Seq<Block128>,
    claims: Seq<ClaimView>,
    alphas: Seq<Block128>,
    n: nat,
    r: Seq<Block128>,
)
    ensures
        batch_eval::w_table(true_claims(b, claims), alphas, n) == batch_eval::w_table(
            claims,
            alphas,
            n,
        ),
        batch_eval::w_at(true_claims(b, claims), alphas, r) == batch_eval::w_at(claims, alphas, r),
    decreases claims.len(),
{
    if claims.len() > 0 {
        lemma_true_claims(b, claims.drop_last(), alphas.drop_last(), n, r);
        assert(true_claims(b, claims).drop_last() =~= true_claims(b, claims.drop_last()));
    }
}

/// Whether a batch argument on the table `b` has a lucky round.
pub open spec fn lucky_batch<C: FiatShamir<Block128>>(
    b: Seq<Block128>,
    claims: Seq<ClaimView>,
    n: nat,
    proof: BatchEvalProofView,
    state: C::State,
) -> bool {
    lucky(
        seq![batch_eval::w_table(claims, batch_eval::alphas::<C>(claims, state), n), b],
        n,
        proof.rounds,
        sumcheck::replay::<Block128, C>(
            batch_eval::start_state::<C>(claims, state),
            proof.rounds,
        ).1,
    )
}

/// Soundness of the batch argument: if the verifier accepts and the final value is that of the table
/// at its point, the combination of the claimed values is that of the true ones or some round is
/// lucky.
pub proof fn batch_soundness<C: FiatShamir<Block128>>(
    b: Seq<Block128>,
    claims: Seq<ClaimView>,
    n: nat,
    proof: BatchEvalProofView,
    state: C::State,
)
    requires
        b.len() == mle::cube(n),
        batch_eval::batch_accepted::<C>(proof, claims, n, state),
        ({
            let reduced = batch_eval::batch_verified::<C>(proof, claims, state);
            reduced.value == mle::mle_eval(b, reduced.point)
        }),
    ensures
        ({
            let coeffs = batch_eval::alphas::<C>(claims, state);
            batch_eval::combined_value(claims, coeffs) == batch_eval::combined_value(
                true_claims(b, claims),
                coeffs,
            ) || lucky_batch::<C>(b, claims, n, proof, state)
        }),
{
    let coeffs = batch_eval::alphas::<C>(claims, state);
    let start = batch_eval::start_state::<C>(claims, state);
    let w = batch_eval::w_table(claims, coeffs, n);
    let tables = seq![w, b];
    let v = batch_eval::combined_value(claims, coeffs);
    let truth = true_claims(b, claims);
    let cs = sumcheck::replay::<Block128, C>(start, proof.rounds).1;
    let at = cs.reverse();
    sumcheck::lemma_replay_prefix::<Block128, C>(start, proof.rounds, n);
    lemma_true_claims(b, claims, coeffs, n, at);
    assert forall|i: int| 0 <= i < truth.len() implies (#[trigger] truth[i]).point.len() == n by {
        assert(claims[i].point.len() == n);
    }
    batch_eval::lemma_w_table(b, truth, coeffs, n, at);
    batch_eval::lemma_inner2(w, b);
    assert(tables[0] == w && tables[1] == b);
    lemma_folded_values(tables, n, cs, 0);
    lemma_folded_values(tables, n, cs, 1);
    let end = folded(tables, cs);
    assert(end =~= seq![end[0], end[1]]);
    batch_eval::lemma_row2(end[0], end[1], 0);
    sumcheck_soundness::<Block128, C>(v, tables, n, proof.rounds, start);
}

/// Whether a product argument on the columns `a` and `b` has a lucky round.
pub open spec fn lucky_product<C: FiatShamir<Block128>>(
    a: Seq<Block128>,
    b: Seq<Block128>,
    r: Seq<Block128>,
    proof: ProductProofView,
    state: C::State,
) -> bool {
    lucky(
        product_sumcheck::product_tables(a, b, r),
        r.len(),
        proof.rounds,
        sumcheck::replay::<Block128, C>(state, proof.rounds).1,
    )
}

/// Whether one of the eight product arguments of a permutation proof has a lucky round.
pub open spec fn lucky_permutation<C: FiatShamir<Block128>>(
    permutation: Poseidon2bPermutation,
    c: PermColumns,
    proof: PermProofView,
    r0: Seq<Block128>,
    v0: Block128,
    state: C::State,
) -> bool {
    let active = mle_layout::active_column();
    let shifted = sums::seq_plus(c.state, mle_layout::rc_column(permutation));
    let s1 = product_sumcheck::product_verdict::<C>(proof.sout_x4x3, r0, v0, state);
    let r1 = s1.0->0;
    let s2 = product_sumcheck::product_verdict::<C>(
        proof.x4_x2x2,
        r1,
        proof.sout_x4x3.a_final,
        s1.1,
    );
    let r2 = s2.0->0;
    let s3 = product_sumcheck::product_verdict::<C>(
        proof.x3_x2sin,
        r1,
        proof.sout_x4x3.b_final,
        s2.1,
    );
    let r3 = s3.0->0;
    let s4 = product_sumcheck::product_verdict::<C>(
        proof.x2_at_r2_sinsin,
        r2,
        proof.x4_x2x2.a_final,
        s3.1,
    );
    let r4 = s4.0->0;
    let s5 = product_sumcheck::product_verdict::<C>(
        proof.x2_at_r3_sinsin,
        r3,
        proof.x3_x2sin.a_final,
        s4.1,
    );
    let r5 = s5.0->0;
    let s6 = product_sumcheck::product_verdict::<C>(
        proof.sin_r3_check,
        r3,
        proof.x3_x2sin.b_final,
        s5.1,
    );
    let s7 = product_sumcheck::product_verdict::<C>(
        proof.sin_r4_check,
        r4,
        proof.x2_at_r2_sinsin.a_final,
        s6.1,
    );
    ||| lucky_product::<C>(c.x4, c.x3, r0, proof.sout_x4x3, state)
    ||| lucky_product::<C>(c.x2, c.x2, r1, proof.x4_x2x2, s1.1)
    ||| lucky_product::<C>(c.x2, c.sin, r1, proof.x3_x2sin, s2.1)
    ||| lucky_product::<C>(c.sin, c.sin, r2, proof.x2_at_r2_sinsin, s3.1)
    ||| lucky_product::<C>(c.sin, c.sin, r3, proof.x2_at_r3_sinsin, s4.1)
    ||| lucky_product::<C>(active, shifted, r3, proof.sin_r3_check, s5.1)
    ||| lucky_product::<C>(active, shifted, r4, proof.sin_r4_check, s6.1)
    ||| lucky_product::<C>(active, shifted, r5, proof.sin_r5_check, s7.1)
}

/// One step of the chain: an accepted product argument with true final values proves its claim on
/// the product column.
proof fn lemma_step<C: FiatShamir<Block128>>(
    a: Seq<Block128>,
    b: Seq<Block128>,
    r: Seq<Block128>,
    v: Block128,
    proof: ProductProofView,
    state: C::State,
)
    requires
        a.len() == 512,
        b.len() == 512,
        r.len() == 9,
        ({
            let verdict = product_sumcheck::product_verdict::<C>(proof, r, v, state);
            &&& verdict.0 is Some
            &&& proof.a_final == mle::mle_eval(a, verdict.0->0)
            &&& proof.b_final == mle::mle_eval(b, verdict.0->0)
        }),
        !lucky_product::<C>(a, b, r, proof, state),
    ensures
        v == mle::mle_eval(sums::seq_times(a, b), r),
{
    mle_layout::lemma_cells();
    product_sumcheck::lemma_product_column(a, b, r);
    product_soundness::<C>(a, b, r, v, proof, state);
}

/// The point of an accepted product argument in nine variables has nine coordinates.
proof fn lemma_point<C: FiatShamir<Block128>>(
    proof: ProductProofView,
    r: Seq<Block128>,
    v: Block128,
    state: C::State,
)
    requires
        r.len() == 9,
        product_sumcheck::product_verdict::<C>(proof, r, v, state).0 is Some,
    ensures
        (product_sumcheck::product_verdict::<C>(proof, r, v, state).0->0).len() == 9,
{
    sumcheck::lemma_replay_prefix::<Block128, C>(state, proof.rounds, 9);
}

/// The last step: a true claim on the state column makes the second final value of a sin expansion
/// true.
proof fn lemma_expansion(
    permutation: Poseidon2bPermutation,
    state_column: Seq<Block128>,
    proof: ProductProofView,
    rs: Seq<Block128>,
)
    requires
        state_column.len() == 512,
        rs.len() == 9,
        perm_sumcheck::derived_claim(permutation, proof, rs) matches Some(claim) && claim.value
            == mle::mle_eval(state_column, rs),
    ensures
        proof.a_final == mle::mle_eval(mle_layout::active_column(), rs),
        proof.b_final == mle::mle_eval(
            sums::seq_plus(state_column, mle_layout::rc_column(permutation)),
            rs,
        ),
{
    let rc = mle_layout::rc_column(permutation);
    mle_layout::lemma_cells();
    mle::lemma_mle_plus(state_column, rc, rs);
    algebra::lemma_plus_cancel(proof.b_final, mle::mle_eval(rc, rs));
}

/// Soundness of the permutation argument: on columns that satisfy the S-box relation, if the verifier
/// accepts and the claims it derives are true of the state column, the claim `sout(r0) = v0` is true
/// or some round of one of the eight product arguments is lucky.
pub proof fn perm_soundness<C: FiatShamir<Block128>>(
    permutation: Poseidon2bPermutation,
    c: PermColumns,
    proof: PermProofView,
    r0: Seq<Block128>,
    v0: Block128,
    state: C::State,
)
    requires
        perm_sumcheck::columns_consistent(permutation, c),
        r0.len() == 9,
        perm_sumcheck::perm_verdict::<C>(permutation, proof, r0, v0, state).0 matches Some(claims)
            && claims.len() == 3 && forall|i: int|
            0 <= i < 3 ==> (#[trigger] claims[i]).value == mle::mle_eval(c.state, claims[i].point),
    ensures
        v0 == mle::mle_eval(c.sout, r0) || lucky_permutation::<C>(
            permutation,
            c,
            proof,
            r0,
            v0,
            state,
        ),
{
    reveal(perm_sumcheck::perm_verdict);
    let claims = perm_sumcheck::perm_verdict::<C>(permutation, proof, r0, v0, state).0->0;
    let active = mle_layout::active_column();
    let shifted = sums::seq_plus(c.state, mle_layout::rc_column(permutation));
    let s1 = product_sumcheck::product_verdict::<C>(proof.sout_x4x3, r0, v0, state);
    let r1 = s1.0->0;
    lemma_point::<C>(proof.sout_x4x3, r0, v0, state);
    let s2 = product_sumcheck::product_verdict::<C>(
        proof.x4_x2x2,
        r1,
        proof.sout_x4x3.a_final,
        s1.1,
    );
    let r2 = s2.0->0;
    lemma_point::<C>(proof.x4_x2x2, r1, proof.sout_x4x3.a_final, s1.1);
    let s3 = product_sumcheck::product_verdict::<C>(
        proof.x3_x2sin,
        r1,
        proof.sout_x4x3.b_final,
        s2.1,
    );
    let r3 = s3.0->0;
    lemma_point::<C>(proof.x3_x2sin, r1, proof.sout_x4x3.b_final, s2.1);
    let s4 = product_sumcheck::product_verdict::<C>(
        proof.x2_at_r2_sinsin,
        r2,
        proof.x4_x2x2.a_final,
        s3.1,
    );
    let r4 = s4.0->0;
    lemma_point::<C>(proof.x2_at_r2_sinsin, r2, proof.x4_x2x2.a_final, s3.1);
    let s5 = product_sumcheck::product_verdict::<C>(
        proof.x2_at_r3_sinsin,
        r3,
        proof.x3_x2sin.a_final,
        s4.1,
    );
    let r5 = s5.0->0;
    lemma_point::<C>(proof.x2_at_r3_sinsin, r3, proof.x3_x2sin.a_final, s4.1);
    let s6 = product_sumcheck::product_verdict::<C>(
        proof.sin_r3_check,
        r3,
        proof.x3_x2sin.b_final,
        s5.1,
    );
    lemma_point::<C>(proof.sin_r3_check, r3, proof.x3_x2sin.b_final, s5.1);
    let s7 = product_sumcheck::product_verdict::<C>(
        proof.sin_r4_check,
        r4,
        proof.x2_at_r2_sinsin.a_final,
        s6.1,
    );
    lemma_point::<C>(proof.sin_r4_check, r4, proof.x2_at_r2_sinsin.a_final, s6.1);
    let s8 = product_sumcheck::product_verdict::<C>(
        proof.sin_r5_check,
        r5,
        proof.x2_at_r3_sinsin.a_final,
        s7.1,
    );
    lemma_point::<C>(proof.sin_r5_check, r5, proof.x2_at_r3_sinsin.a_final, s7.1);
    assert(claims[0].point == s6.0->0 && claims[1].point == s7.0->0 && claims[2].point == s8.0->0);
    lemma_expansion(permutation, c.state, proof.sin_r3_check, s6.0->0);
    lemma_expansion(permutation, c.state, proof.sin_r4_check, s7.0->0);
    lemma_expansion(permutation, c.state, proof.sin_r5_check, s8.0->0);
    if !lucky_permutation::<C>(permutation, c, proof, r0, v0, state) {
        lemma_step::<C>(active, shifted, r3, proof.x3_x2sin.b_final, proof.sin_r3_check, s5.1);
        lemma_step::<C>(
            active,
            shifted,
            r4,
            proof.x2_at_r2_sinsin.a_final,
            proof.sin_r4_check,
            s6.1,
        );
        lemma_step::<C>(
            active,
            shifted,
            r5,
            proof.x2_at_r3_sinsin.a_final,
            proof.sin_r5_check,
            s7.1,
        );
        lemma_step::<C>(c.sin, c.sin, r2, proof.x4_x2x2.a_final, proof.x2_at_r2_sinsin, s3.1);
        lemma_step::<C>(c.sin, c.sin, r3, proof.x3_x2sin.a_final, proof.x2_at_r3_sinsin, s4.1);
        lemma_step::<C>(c.x2, c.x2, r1, proof.sout_x4x3.a_final, proof.x4_x2x2, s1.1);
        lemma_step::<C>(c.x2, c.sin, r1, proof.sout_x4x3.b_final, proof.x3_x2sin, s2.1);
        lemma_step::<C>(c.x4, c.x3, r0, v0, proof.sout_x4x3, state);
    }
}

} // verus!
