//! Soundness of the walk over regions of unequal width.
//!
//! If the terminal claims of an accepted walk are true, its output claims are true or the verifier's
//! challenges were lucky in some layer: a false round polynomial agreed with the true one at the
//! challenge, or false claims combined to the same value as the true ones.
use crate::algebra;
use crate::block128::Block128;
use crate::block256::Block256;
use crate::layer_states;
use crate::mle;
use crate::permutation::Poseidon2bPermutation;
use crate::poly;
use crate::ragged;
use crate::ragged_model;
use crate::ragged_model::Region;
use crate::ragged_walk;
use crate::ragged_walk::{LaneView, LayerView};
use crate::sums;
use crate::tower_field::TowerField;
use crate::transcript::FiatShamir;
use crate::wide;
use crate::wide::WideChannel;
use vstd::prelude::*;

verus! {

/// A reconstructed polynomial has values at zero and one that add up to the claim.
proof fn lemma_reconstruct_sum(wire: Seq<Block256>, claim: Block256)
    requires
        wire.len() == 8,
    ensures
        ({
            let full = ragged_walk::reconstruct(wire, claim);
            &&& full.len() == 9
            &&& poly::poly_eval(full, Block256::nil()).plus(
                poly::poly_eval(full, Block256::unit()),
            ) == claim
        }),
{
    let full = ragged_walk::reconstruct(wire, claim);
    let t = sums::total(wire.skip(1));
    poly::lemma_eval_bits(full);
    sums::lemma_total_front(full);
    let tail = full.drop_first();
    sums::lemma_total_front(tail);
    assert(tail.drop_first() =~= wire.skip(1));
    algebra::lemma_plus_cancel(claim, t);
    algebra::lemma_plus_cancel(full[0], claim);
}

/// Whether coordinate `k` of a layer sends a false round polynomial that agrees with the true one at
/// the challenge.
pub open spec fn lucky_coordinate<C: FiatShamir<Block256>>(
    p: Poseidon2bPermutation,
    r: int,
    cs: Seq<Seq<Block256>>,
    regions: Seq<Region>,
    widths: Seq<nat>,
    wires: Seq<Seq<Block256>>,
    claim: Block256,
    state: C::State,
    k: int,
) -> bool {
    let before = ragged_walk::layer_replay::<C>(wires.take(k), claim, state);
    let sent = ragged_walk::reconstruct(wires[k], before.claim);
    let honest = ragged_model::walk_coeffs(
        p,
        r,
        cs,
        ragged_walk::regions_at(regions, widths, before.point),
        widths,
        k,
    );
    let x = ragged_walk::layer_replay::<C>(wires.take(k + 1), claim, state).point[k];
    &&& sent != honest
    &&& poly::poly_eval(sent, x) == poly::poly_eval(honest, x)
}

proof fn lemma_replay_len<C: FiatShamir<Block256>>(
    wires: Seq<Seq<Block256>>,
    claim: Block256,
    state: C::State,
)
    ensures
        ragged_walk::layer_replay::<C>(wires, claim, state).point.len() == wires.len(),
    decreases wires.len(),
{
    if wires.len() > 0 {
        lemma_replay_len::<C>(wires.drop_last(), claim, state);
    }
}

/// Without luck a false claim stays false.
proof fn lemma_false_claim<C: FiatShamir<Block256>>(
    p: Poseidon2bPermutation,
    r: int,
    cs: Seq<Seq<Block256>>,
    regions: Seq<Region>,
    widths: Seq<nat>,
    wires: Seq<Seq<Block256>>,
    claim: Block256,
    state: C::State,
    k: nat,
)
    requires
        k <= wires.len(),
        ragged_model::walk_shape(regions, widths, 0),
        forall|j: int| 0 <= j < wires.len() ==> (#[trigger] wires[j]).len() == 8,
        claim != ragged_model::walk_total(p, r, cs, regions),
        forall|j: int|
            0 <= j < wires.len() ==> !#[trigger] lucky_coordinate::<C>(
                p,
                r,
                cs,
                regions,
                widths,
                wires,
                claim,
                state,
                j,
            ),
    ensures
        ({
            let now = ragged_walk::layer_replay::<C>(wires.take(k as int), claim, state);
            now.claim != ragged_model::walk_total(
                p,
                r,
                cs,
                ragged_walk::regions_at(regions, widths, now.point),
            )
        }),
    decreases k,
{
    let now = ragged_walk::layer_replay::<C>(wires.take(k as int), claim, state);
    if k == 0 {
        assert(wires.take(0) =~= Seq::empty());
    } else {
        let j = k - 1;
        lemma_false_claim::<C>(p, r, cs, regions, widths, wires, claim, state, j as nat);
        let before = ragged_walk::layer_replay::<C>(wires.take(j), claim, state);
        assert(wires.take(k as int).drop_last() =~= wires.take(j));
        assert(wires.take(k as int).last() == wires[j]);
        lemma_replay_len::<C>(wires.take(j), claim, state);
        let at = ragged_walk::regions_at(regions, widths, before.point);
        ragged_walk::lemma_regions_shape(regions, widths, before.point);
        let x = now.point[j];
        assert(now.point.drop_last() =~= before.point);
        let sent = ragged_walk::reconstruct(wires[j], before.claim);
        let honest = ragged_model::walk_coeffs(p, r, cs, at, widths, j);
        lemma_reconstruct_sum(wires[j], before.claim);
        ragged_model::lemma_walk_coeffs(p, r, cs, at, widths, j, x);
        ragged_model::lemma_walk_coeffs(p, r, cs, at, widths, j, Block256::nil());
        ragged_model::lemma_walk_coeffs(p, r, cs, at, widths, j, Block256::unit());
        ragged_model::lemma_walk_telescope(p, r, cs, at, widths, j);
        assert(sent != honest);
        assert(!lucky_coordinate::<C>(p, r, cs, regions, widths, wires, claim, state, j));
    }
}

/// The claims with the values that the outputs of round `r` have at their points.
pub open spec fn true_groups(
    p: Poseidon2bPermutation,
    r: int,
    rows: Seq<Seq<Seq<Block128>>>,
    groups: Seq<LaneView>,
) -> Seq<LaneView> {
    Seq::new(
        groups.len(),
        |a: int|
            LaneView {
                point: groups[a].point,
                values: Seq::new(
                    4,
                    |lane: int|
                        mle::mle_eval(
                            wide::embed_column(
                                ragged_walk::base_lane(
                                    Seq::new(rows[a].len(), |i: int| p.apply_round(r, rows[a][i])),
                                    lane,
                                ),
                            ),
                            groups[a].point,
                        ),
                ),
            },
    )
}

/// Whether the verifier's challenges of a layer are lucky: false claims combine to the same value as
/// the true ones, or some coordinate is lucky.
pub open spec fn lucky_layer<C: FiatShamir<Block256>>(
    p: Poseidon2bPermutation,
    r: int,
    widths: Seq<nat>,
    rows: Seq<Seq<Seq<Block128>>>,
    groups: Seq<LaneView>,
    layer: LayerView,
    state: C::State,
) -> bool {
    let alpha = C::challenge(state);
    let truth = true_groups(p, r, rows, groups);
    let claim = ragged_walk::combined_claim(alpha, groups);
    let cs = ragged_walk::layer_columns(p, r, alpha, groups.len());
    let regions = ragged_walk::start_regions(rows, groups);
    ||| groups != truth && claim == ragged_walk::combined_claim(alpha, truth)
    ||| exists|k: int|
        0 <= k < layer.wires.len() && #[trigger] lucky_coordinate::<C>(
            p,
            r,
            cs,
            regions,
            widths,
            layer.wires,
            claim,
            C::squeezed(state),
            k,
        )
}

/// Soundness of a layer: if the verifier accepts its messages and the claims it goes on with are true
/// of the inputs of the round, the claims it started with are true of the outputs or the layer is
/// lucky.
pub proof fn layer_soundness<C: FiatShamir<Block256>>(
    p: Poseidon2bPermutation,
    r: int,
    widths: Seq<nat>,
    rows: Seq<Seq<Seq<Block128>>>,
    groups: Seq<LaneView>,
    layer: LayerView,
    state: C::State,
)
    requires
        ragged_walk::groups_shape(widths, groups),
        ragged_walk::tables_shape(widths, rows),
        layer.wires.len() == ragged_walk::max_of(widths),
        forall|j: int| 0 <= j < layer.wires.len() ==> (#[trigger] layer.wires[j]).len() == 8,
        layer.next.len() == groups.len(),
        ragged_walk::layer_accepted::<C>(p, r, widths, groups, layer, state),
        ({
            let next = ragged_walk::verify_layer::<C>(widths, groups, layer, state).0;
            forall|a: int|
                0 <= a < next.len() ==> ragged_walk::claim_true(rows[a], #[trigger] next[a])
        }),
    ensures
        groups == true_groups(p, r, rows, groups) || lucky_layer::<C>(
            p,
            r,
            widths,
            rows,
            groups,
            layer,
            state,
        ),
{
    reveal(ragged_walk::layer_accepted);
    reveal(ragged_walk::verify_layer);
    let alpha = C::challenge(state);
    let truth = true_groups(p, r, rows, groups);
    let claim = ragged_walk::combined_claim(alpha, groups);
    let n = groups.len();
    let cs = ragged_walk::layer_columns(p, r, alpha, n);
    let regions = ragged_walk::start_regions(rows, groups);
    let start = C::squeezed(state);
    let wires = layer.wires;
    if !lucky_layer::<C>(p, r, widths, rows, groups, layer, state) {
        lemma_true_groups(p, r, widths, rows, groups);
        ragged_walk::lemma_start_shape(widths, rows, groups);
        ragged_walk::lemma_walk_start(p, r, alpha, widths, rows, truth);
        assert(ragged_walk::start_regions(rows, truth) =~= regions);
        let end = ragged_walk::layer_replay::<C>(wires, claim, start);
        lemma_replay_len::<C>(wires, claim, start);
        assert(wires.take(wires.len() as int) =~= wires);
        // The values of the next layer are those of the folded regions.
        let folded = ragged_walk::regions_at(regions, widths, end.point);
        ragged_walk::lemma_regions_shape(regions, widths, end.point);
        let next = ragged_walk::next_groups(widths, end.point, layer.next);
        assert(next == ragged_walk::verify_layer::<C>(widths, groups, layer, state).0);
        assert forall|a: int| 0 <= a < n implies #[trigger] layer.next[a]
            == ragged_walk::sent_values(folded)[a] by {
            ragged_walk::lemma_region_values(widths, rows, groups, end.point, a);
            assert(ragged_walk::claim_true(rows[a], next[a]));
            let x = next[a].values;
            let y = folded[a].rows[0];
            assert forall|lane: int| 0 <= lane < 4 implies x[lane] == #[trigger] y[lane] by {
                assert(x[lane] == mle::mle_eval(
                    wide::embed_column(ragged_walk::base_lane(rows[a], lane)),
                    next[a].point,
                ));
                let own = LaneView { point: end.point.take(widths[a] as int), values: y };
                assert(own.values[lane] == y[lane]);
            }
            assert(x =~= y);
        }
        assert(layer.next =~= ragged_walk::sent_values(folded));
        ragged_walk::lemma_walk_end(p, r, cs, widths, rows, groups, end.point);
        if claim != ragged_model::walk_total(p, r, cs, regions) {
            lemma_false_claim::<C>(p, r, cs, regions, widths, wires, claim, start, wires.len());
        }
    }
}

/// The true claims have the shape of the regions and are true.
proof fn lemma_true_groups(
    p: Poseidon2bPermutation,
    r: int,
    widths: Seq<nat>,
    rows: Seq<Seq<Seq<Block128>>>,
    groups: Seq<LaneView>,
)
    requires
        ragged_walk::groups_shape(widths, groups),
    ensures
        ({
            let truth = true_groups(p, r, rows, groups);
            &&& ragged_walk::groups_shape(widths, truth)
            &&& forall|a: int|
                0 <= a < truth.len() ==> ragged_walk::claim_true(
                    Seq::new(rows[a].len(), |i: int| p.apply_round(r, rows[a][i])),
                    #[trigger] truth[a],
                )
        }),
{
    let truth = true_groups(p, r, rows, groups);
    assert forall|a: int| 0 <= a < truth.len() implies (#[trigger] truth[a]).point.len() == widths[a]
        && truth[a].values.len() == 4 && widths[a] > 0 by {
        assert(groups[a].point.len() == widths[a]);
    }
}

/// The values of all lanes, region by region, as the coefficients of a polynomial in the combining
/// challenge.
pub open spec fn claim_poly(groups: Seq<LaneView>) -> Seq<Block256>
    decreases groups.len(),
{
    if groups.len() == 0 {
        seq![Block256::nil()]
    } else {
        claim_poly(groups.drop_last()) + groups.last().values
    }
}

proof fn lemma_claim_poly(groups: Seq<LaneView>, alpha: Block256)
    requires
        forall|a: int| 0 <= a < groups.len() ==> (#[trigger] groups[a]).values.len() == 4,
    ensures
        claim_poly(groups).len() == 4 * groups.len() + 1,
        poly::poly_eval(claim_poly(groups), alpha) == ragged_walk::combined_claim(alpha, groups),
    decreases groups.len(),
{
    let n = groups.len();
    let f = |a: int|
        ragged_walk::region_claim(ragged_walk::lane_weights(alpha, a), groups[a].values);
    if n == 0 {
        let zero = claim_poly(groups);
        poly::lemma_eval_zero(zero, alpha);
        sums::lemma_sum_step(0, f);
    } else {
        let fewer = groups.drop_last();
        assert forall|a: int| 0 <= a < fewer.len() implies (#[trigger] fewer[a]).values.len()
            == 4 by {
            assert(fewer[a] == groups[a]);
        }
        lemma_claim_poly(fewer, alpha);
        let values = groups[n - 1].values;
        let head = claim_poly(fewer);
        poly::lemma_eval_concat(head, values, alpha);
        // The combination of the last region.
        let w = ragged_walk::lane_weights(alpha, n - 1);
        lemma_last_region(alpha, (n - 1) as nat, values);
        let g = |a: int|
            ragged_walk::region_claim(ragged_walk::lane_weights(alpha, a), fewer[a].values);
        sums::lemma_sum_equal((n - 1) as nat, f, g);
        sums::lemma_sum_step((n - 1) as nat, f);
    }
}

/// The combination of one region is the value of its four coefficients, shifted.
proof fn lemma_last_region(alpha: Block256, a: nat, values: Seq<Block256>)
    requires
        values.len() == 4,
    ensures
        ragged_walk::region_claim(ragged_walk::lane_weights(alpha, a as int), values)
            == poly::power(alpha, 4 * a + 1).times(poly::poly_eval(values, alpha)),
{
    let w = ragged_walk::lane_weights(alpha, a as int);
    let p0 = poly::power(alpha, 4 * a + 1);
    let f = |lane: int| w[lane].times(values[lane]);
    // Horner form from the back.
    let t3 = values.skip(3);
    let t2 = values.skip(2);
    let t1 = values.skip(1);
    let t0 = values;
    let t4 = values.skip(4);
    assert(t3.drop_first() =~= t4);
    assert(t2.drop_first() =~= t3);
    assert(t1.drop_first() =~= t2);
    assert(t0.drop_first() =~= t1);
    let e4 = poly::poly_eval(t4, alpha);
    let e3 = poly::poly_eval(t3, alpha);
    let e2 = poly::poly_eval(t2, alpha);
    let e1 = poly::poly_eval(t1, alpha);
    assert(e4 == Block256::nil());
    let p1 = w[1];
    let p2 = w[2];
    let p3 = w[3];
    assert(w[0] == p0 && p1 == p0.times(alpha) && p2 == p1.times(alpha) && p3 == p2.times(alpha));
    lemma_horner(p0, alpha, values[0], e1);
    lemma_horner(p1, alpha, values[1], e2);
    lemma_horner(p2, alpha, values[2], e3);
    lemma_horner(p3, alpha, values[3], e4);
    algebra::lemma_times_nil(p3.times(alpha));
    let (v0, v1, v2, v3) = (f(0), f(1), f(2), f(3));
    Block256::plus_laws(v3, Block256::nil(), Block256::nil());
    sums::lemma_sum_step(0, f);
    sums::lemma_sum_step(1, f);
    sums::lemma_sum_step(2, f);
    sums::lemma_sum_step(3, f);
    algebra::lemma_neutral_left(v0);
    Block256::plus_laws(v0, v1, v2.plus(v3));
    Block256::plus_laws(v0.plus(v1), v2, v3);
}

proof fn lemma_horner(power: Block256, alpha: Block256, value: Block256, rest: Block256)
    ensures
        power.times(value.plus(alpha.times(rest))) == power.times(value).plus(
            power.times(alpha).times(rest),
        ),
{
    Block256::times_laws(power, value, alpha.times(rest));
    Block256::times_laws(power, alpha, rest);
}

proof fn lemma_claim_poly_injective(groups: Seq<LaneView>, others: Seq<LaneView>, a: int)
    requires
        groups.len() == others.len(),
        forall|b: int| 0 <= b < groups.len() ==> (#[trigger] groups[b]).values.len() == 4,
        forall|b: int| 0 <= b < others.len() ==> (#[trigger] others[b]).values.len() == 4,
        claim_poly(groups) == claim_poly(others),
        0 <= a < groups.len(),
    ensures
        groups[a].values == others[a].values,
    decreases groups.len(),
{
    let n = groups.len();
    let (g, o) = (groups.drop_last(), others.drop_last());
    assert forall|b: int| 0 <= b < g.len() implies (#[trigger] g[b]).values.len() == 4 by {
        assert(g[b] == groups[b]);
    }
    assert forall|b: int| 0 <= b < o.len() implies (#[trigger] o[b]).values.len() == 4 by {
        assert(o[b] == others[b]);
    }
    lemma_claim_poly(g, Block256::nil());
    lemma_claim_poly(o, Block256::nil());
    let m = claim_poly(g).len() as int;
    assert(groups[n - 1].values.len() == 4 && others[n - 1].values.len() == 4);
    assert(claim_poly(groups).take(m) =~= claim_poly(g));
    assert(claim_poly(others).take(m) =~= claim_poly(o));
    if a == n - 1 {
        assert(claim_poly(groups).skip(m) =~= groups[a].values);
        assert(claim_poly(others).skip(m) =~= others[a].values);
    } else {
        lemma_claim_poly_injective(g, o, a);
    }
}

/// Few combining challenges are lucky: claims on `A` regions that differ in some value combine to the
/// same value for at most `4 A` challenges.
pub proof fn few_lucky_combinations(
    groups: Seq<LaneView>,
    others: Seq<LaneView>,
    a: int,
    challenges: Seq<Block256>,
)
    requires
        groups.len() == others.len(),
        forall|b: int| 0 <= b < groups.len() ==> (#[trigger] groups[b]).values.len() == 4,
        forall|b: int| 0 <= b < others.len() ==> (#[trigger] others[b]).values.len() == 4,
        0 <= a < groups.len(),
        groups[a].values != others[a].values,
        forall|i: int, j: int|
            0 <= i < j < challenges.len() ==> #[trigger] challenges[i] != #[trigger] challenges[j],
        forall|i: int|
            0 <= i < challenges.len() ==> ragged_walk::combined_claim(
                #[trigger] challenges[i],
                groups,
            ) == ragged_walk::combined_claim(challenges[i], others),
    ensures
        challenges.len() <= 4 * groups.len(),
{
    if challenges.len() > 4 * groups.len() {
        lemma_claim_poly(groups, Block256::nil());
        lemma_claim_poly(others, Block256::nil());
        assert forall|i: int| 0 <= i < challenges.len() implies poly::poly_eval(
            claim_poly(groups),
            #[trigger] challenges[i],
        ) == poly::poly_eval(claim_poly(others), challenges[i]) by {
            lemma_claim_poly(groups, challenges[i]);
            lemma_claim_poly(others, challenges[i]);
        }
        poly::lemma_agree(
            claim_poly(groups),
            claim_poly(others),
            challenges,
            Block256::nil(),
        );
        lemma_claim_poly_injective(groups, others, a);
    }
}

/// Few round challenges are lucky: two different round polynomials agree at no more than eight
/// points.
pub proof fn few_lucky_points(
    sent: Seq<Block256>,
    honest: Seq<Block256>,
    points: Seq<Block256>,
)
    requires
        sent != honest,
        sent.len() == 9,
        honest.len() == 9,
        forall|i: int, j: int|
            0 <= i < j < points.len() ==> #[trigger] points[i] != #[trigger] points[j],
        forall|i: int|
            0 <= i < points.len() ==> poly::poly_eval(sent, #[trigger] points[i])
                == poly::poly_eval(honest, points[i]),
    ensures
        points.len() <= 8,
{
    if points.len() > 8 {
        poly::lemma_agree(sent, honest, points, Block256::nil());
    }
}

/// Whether the messages of a walk over the regions have the sizes that their types give them: eight
/// coefficients per round and four values per region.
pub open spec fn messages_shape(layers: Seq<LayerView>) -> bool {
    forall|i: int|
        0 <= i < layers.len() ==> {
            &&& forall|j: int|
                0 <= j < (#[trigger] layers[i]).wires.len() ==> (#[trigger]
                layers[i].wires[j]).len() == 8
            &&& forall|a: int|
                0 <= a < layers[i].next.len() ==> (#[trigger] layers[i].next[a]).len() == 4
        }
}

/// The claims and the transcript state with which the verifier enters layer `i`, counted from the
/// first layer sent.
pub open spec fn entry<C: FiatShamir<Block128>>(
    p: Poseidon2bPermutation,
    widths: Seq<nat>,
    groups: Seq<LaneView>,
    layers: Seq<LayerView>,
    state: C::State,
    i: int,
) -> (Seq<LaneView>, C::State) {
    let verdict = ragged::walk_verdict::<C>(p, widths, groups, layers, state, i as nat);
    (verdict.0->Ok_0, verdict.1)
}

/// Whether layer `i` of a walk, counted from the first layer sent, is lucky.
pub open spec fn lucky_at<C: FiatShamir<Block128>>(
    p: Poseidon2bPermutation,
    widths: Seq<nat>,
    tables: Seq<Seq<Seq<Block128>>>,
    groups: Seq<LaneView>,
    layers: Seq<LayerView>,
    state: C::State,
    i: int,
) -> bool {
    let now = entry::<C>(p, widths, groups, layers, state, i);
    lucky_layer::<WideChannel<C>>(
        p,
        65 - i,
        widths,
        ragged::tables_at(p, tables, (65 - i) as nat),
        now.0,
        layers[i],
        now.1,
    )
}

/// An accepted walk was accepted in each layer, with claims of the right shape.
proof fn lemma_entry<C: FiatShamir<Block128>>(
    p: Poseidon2bPermutation,
    widths: Seq<nat>,
    groups: Seq<LaneView>,
    layers: Seq<LayerView>,
    state: C::State,
    i: nat,
    n: nat,
)
    requires
        i <= n <= 66,
        ragged::walk_proof_shape(widths, groups, layers),
        ragged_walk::groups_shape(widths, groups),
        messages_shape(layers),
        ragged::walk_verdict::<C>(p, widths, groups, layers, state, n).0 is Ok,
    ensures
        ragged::walk_verdict::<C>(p, widths, groups, layers, state, i).0 is Ok,
        ragged_walk::groups_shape(
            widths,
            entry::<C>(p, widths, groups, layers, state, i as int).0,
        ),
    decreases n,
{
    if i < n {
        lemma_entry::<C>(p, widths, groups, layers, state, i, (n - 1) as nat);
    } else if i > 0 {
        lemma_entry::<C>(p, widths, groups, layers, state, (i - 1) as nat, (i - 1) as nat);
        let before = entry::<C>(p, widths, groups, layers, state, i - 1);
        let layer = layers[i - 1];
        let after = entry::<C>(p, widths, groups, layers, state, i as int);
        reveal(ragged_walk::verify_layer);
        let alpha = <WideChannel<C> as FiatShamir<Block256>>::challenge(before.1);
        let claim = ragged_walk::combined_claim(alpha, before.0);
        let start = <WideChannel<C> as FiatShamir<Block256>>::squeezed(before.1);
        lemma_replay_len::<WideChannel<C>>(layer.wires, claim, start);
        assert(layers[i - 1].wires.len() == ragged_walk::max_of(widths));
        assert forall|a: int| 0 <= a < after.0.len() implies (#[trigger] after.0[a]).point.len()
            == widths[a] && after.0[a].values.len() == 4 && widths[a] > 0 by {
            ragged_walk::lemma_max(widths, a);
            assert(layers[i - 1].next[a].len() == 4);
            assert(groups[a].point.len() == widths[a]);
        }
    }
}

/// Without luck, true terminal claims make the claims of every layer true.
proof fn lemma_walk_back<C: FiatShamir<Block128>>(
    p: Poseidon2bPermutation,
    widths: Seq<nat>,
    tables: Seq<Seq<Seq<Block128>>>,
    groups: Seq<LaneView>,
    layers: Seq<LayerView>,
    state: C::State,
    i: nat,
)
    requires
        i <= 66,
        ragged::walk_proof_shape(widths, groups, layers),
        ragged_walk::groups_shape(widths, groups),
        ragged_walk::tables_shape(widths, tables),
        messages_shape(layers),
        ragged::walk_verdict::<C>(p, widths, groups, layers, state, 66).0 is Ok,
        ragged::claims_true(
            tables,
            ragged::walk_verdict::<C>(p, widths, groups, layers, state, 66).0->Ok_0,
        ),
        forall|j: int|
            0 <= j < 66 ==> !#[trigger] lucky_at::<C>(
                p,
                widths,
                tables,
                groups,
                layers,
                state,
                j,
            ),
    ensures
        ragged::claims_true(
            ragged::tables_at(p, tables, (66 - i) as nat),
            entry::<C>(p, widths, groups, layers, state, i as int).0,
        ),
    decreases 66 - i,
{
    let now = entry::<C>(p, widths, groups, layers, state, i as int);
    let here = ragged::tables_at(p, tables, (66 - i) as nat);
    if i == 66 {
        assert forall|a: int| 0 <= a < now.0.len() implies ragged_walk::claim_true(
            here[a],
            #[trigger] now.0[a],
        ) by {
            lemma_entry::<C>(p, widths, groups, layers, state, 66, 66);
            assert(here[a] =~= tables[a]);
            assert(ragged_walk::claim_true(tables[a], now.0[a]));
        }
    } else {
        let r = 65 - i;
        let rows = ragged::tables_at(p, tables, r as nat);
        lemma_walk_back::<C>(p, widths, tables, groups, layers, state, i + 1);
        lemma_entry::<C>(p, widths, groups, layers, state, i, 66);
        lemma_entry::<C>(p, widths, groups, layers, state, i + 1, 66);
        assert(!lucky_at::<C>(p, widths, tables, groups, layers, state, i as int));
        assert(ragged_walk::tables_shape(widths, rows)) by {
            assert forall|a: int| 0 <= a < rows.len() implies ragged_walk::rows_shape(
                #[trigger] rows[a],
                widths[a],
            ) by {
                assert(ragged_walk::rows_shape(tables[a], widths[a]));
                ragged::lemma_layers_shape(p, tables[a], widths[a], r as nat);
            }
        }
        let layer = layers[i as int];
        assert(layer.wires.len() == ragged_walk::max_of(widths));
        layer_soundness::<WideChannel<C>>(p, r, widths, rows, now.0, layer, now.1);
        lemma_true_groups(p, r, widths, rows, now.0);
        assert forall|a: int| 0 <= a < now.0.len() implies ragged_walk::claim_true(
            here[a],
            #[trigger] now.0[a],
        ) by {
            assert(ragged_walk::rows_shape(tables[a], widths[a]));
            ragged::lemma_layers_shape(p, tables[a], widths[a], r as nat);
            let truth = true_groups(p, r, rows, now.0);
            assert(ragged_walk::claim_true(
                Seq::new(rows[a].len(), |k: int| p.apply_round(r, rows[a][k])),
                truth[a],
            ));
            assert(rows[a] == layer_states::layers_of(p, tables[a], r as nat));
            assert(here[a] == layer_states::layers_of(p, tables[a], (r + 1) as nat));
            assert(here[a] =~= Seq::new(rows[a].len(), |k: int| p.apply_round(r, rows[a][k])));
        }
    }
}

/// Soundness: if the verifier accepts a walk and its terminal claims are true of layer zero, the
/// output claims are true of layer 66 or some layer is lucky.
pub proof fn walk_soundness<C: FiatShamir<Block128>>(
    p: Poseidon2bPermutation,
    widths: Seq<nat>,
    tables: Seq<Seq<Seq<Block128>>>,
    groups: Seq<LaneView>,
    layers: Seq<LayerView>,
    state: C::State,
)
    requires
        ragged_walk::tables_shape(widths, tables),
        forall|a: int| 0 <= a < groups.len() ==> (#[trigger] groups[a]).values.len() == 4,
        messages_shape(layers),
        ragged::ragged_verdict::<C>(p, widths, groups, layers, state).0 matches Ok(terminals)
            && ragged::claims_true(tables, terminals),
    ensures
        ragged::claims_true(ragged::tables_at(p, tables, 66), groups) || exists|i: int|
            0 <= i < 66 && #[trigger] lucky_at::<C>(p, widths, tables, groups, layers, state, i),
{
    assert(ragged_walk::groups_shape(widths, groups)) by {
        assert forall|a: int| 0 <= a < groups.len() implies (#[trigger] groups[a]).point.len()
            == widths[a] && groups[a].values.len() == 4 && widths[a] > 0 by {}
    }
    if forall|i: int|
        0 <= i < 66 ==> !#[trigger] lucky_at::<C>(p, widths, tables, groups, layers, state, i) {
        lemma_walk_back::<C>(p, widths, tables, groups, layers, state, 0);
    }
}

} // verus!
