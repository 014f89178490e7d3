//! The protocol of the aggregate walk, and its completeness.
use crate::algebra;
use crate::block128::Block128;
use crate::block256;
use crate::block256::Block256;
use crate::mle;
use crate::permutation;
use crate::permutation::Poseidon2bPermutation;
use crate::poly;
use crate::ragged_model;
use crate::ragged_model::Region;
use crate::sums;
use crate::tower_field::TowerField;
use crate::transcript;
use crate::transcript::FiatShamir;
use crate::wide;
use vstd::prelude::*;

verus! {

/// A point and the values of four lanes there.
pub struct LaneView {
    /// The point, in variable order.
    pub point: Seq<Block256>,
    /// The values of the lanes.
    pub values: Seq<Block256>,
}

/// The messages of one layer.
pub struct LayerView {
    /// The compressed round polynomials.
    pub wires: Seq<Seq<Block256>>,
    /// The values of the next layer, region by region.
    pub next: Seq<Seq<Block256>>,
}

/// A degree-eight polynomial without its linear coefficient.
pub open spec fn compress(full: Seq<Block256>) -> Seq<Block256> {
    seq![full[0]] + full.subrange(2, 9)
}

/// The polynomial with the coefficients `wire` whose values at zero and one add up to `claim`.
pub open spec fn reconstruct(wire: Seq<Block256>, claim: Block256) -> Seq<Block256> {
    seq![wire[0], claim.plus(sums::total(wire.skip(1)))] + wire.skip(1)
}

/// The linear coefficient is recovered from the claim.
pub proof fn compression_is_lossless(full: Seq<Block256>, claim: Block256)
    requires
        full.len() == 9,
        claim == poly::poly_eval(full, Block256::nil()).plus(
            poly::poly_eval(full, Block256::unit()),
        ),
    ensures
        compress(full).len() == 8,
        reconstruct(compress(full), claim) == full,
{
    poly::lemma_eval_bits(full);
    let rest = full.subrange(2, 9);
    let t = sums::total(rest);
    sums::lemma_total_front(full);
    let tail = full.drop_first();
    sums::lemma_total_front(tail);
    assert(tail.drop_first() =~= rest);
    assert(sums::total(full) == full[0].plus(full[1].plus(t)));
    algebra::lemma_plus_cancel(full[0], full[1].plus(t));
    assert(claim == full[1].plus(t));
    algebra::lemma_plus_cancel(full[1], t);
    assert(compress(full).skip(1) =~= rest);
    assert(reconstruct(compress(full), claim) =~= full);
}

/// The weight of lane `lane` of region `a`: a power of `alpha`.
pub open spec fn lane_weights(alpha: Block256, a: int) -> Seq<Block256> {
    Seq::new(4, |lane: int| poly::power(alpha, (4 * a + lane + 1) as nat))
}

/// The weights of the terms of round `r` that correspond to weights of its output lanes.
pub open spec fn column_weights(
    p: Poseidon2bPermutation,
    r: int,
    w: Seq<Block256>,
) -> Seq<Block256> {
    Seq::new(
        4,
        |column: int|
            sums::sum_to(
                4,
                |lane: int| w[lane].times(block256::embed(p.round_entry(r, lane, column))),
            ),
    )
}

/// The term weights of `n` regions.
pub open spec fn layer_columns(
    p: Poseidon2bPermutation,
    r: int,
    alpha: Block256,
    n: nat,
) -> Seq<Seq<Block256>> {
    Seq::new(n, |a: int| column_weights(p, r, lane_weights(alpha, a)))
}

/// The combination of the values of one region.
pub open spec fn region_claim(w: Seq<Block256>, values: Seq<Block256>) -> Block256 {
    sums::sum_to(4, |lane: int| w[lane].times(values[lane]))
}

/// The combination of all claimed values.
pub open spec fn combined_claim(alpha: Block256, groups: Seq<LaneView>) -> Block256 {
    sums::sum_to(groups.len(), |a: int| region_claim(lane_weights(alpha, a), groups[a].values))
}

/// The product of `1 + x` over all elements.
pub open spec fn gate(s: Seq<Block256>) -> Block256
    decreases s.len(),
{
    if s.len() == 0 {
        Block256::unit()
    } else {
        gate(s.drop_last()).times(Block256::unit().plus(s.last()))
    }
}

/// The largest width.
pub open spec fn max_of(widths: Seq<nat>) -> nat
    decreases widths.len(),
{
    if widths.len() == 0 {
        0
    } else if widths.last() > max_of(widths.drop_last()) {
        widths.last()
    } else {
        max_of(widths.drop_last())
    }
}

/// No width exceeds the largest.
pub proof fn lemma_max(widths: Seq<nat>, a: int)
    requires
        0 <= a < widths.len(),
    ensures
        widths[a] <= max_of(widths),
    decreases widths.len(),
{
    if a < widths.len() - 1 {
        lemma_max(widths.drop_last(), a);
    }
}

/// What the prover has done after some coordinates of a layer.
pub struct LayerRun<S> {
    /// The messages sent.
    pub wires: Seq<Seq<Block256>>,
    /// The challenges received.
    pub point: Seq<Block256>,
    /// The folded regions.
    pub regions: Seq<Region>,
    /// The transcript state.
    pub state: S,
}

/// The first `k` coordinates of a layer.
pub open spec fn layer_run<C: FiatShamir<Block256>>(
    p: Poseidon2bPermutation,
    r: int,
    cs: Seq<Seq<Block256>>,
    regions: Seq<Region>,
    widths: Seq<nat>,
    state: C::State,
    k: nat,
) -> LayerRun<C::State>
    decreases k,
{
    if k == 0 {
        LayerRun { wires: Seq::empty(), point: Seq::empty(), regions, state }
    } else {
        let prev = layer_run::<C>(p, r, cs, regions, widths, state, (k - 1) as nat);
        let full = ragged_model::walk_coeffs(p, r, cs, prev.regions, widths, k - 1);
        let wire = compress(full);
        let bound = transcript::absorb_seq::<Block256, C>(prev.state, wire);
        let x = C::challenge(bound);
        LayerRun {
            wires: prev.wires.push(wire),
            point: prev.point.push(x),
            regions: ragged_model::fold_walk(prev.regions, widths, k - 1, x),
            state: C::squeezed(bound),
        }
    }
}

/// What the verifier derives from the messages of some coordinates of a layer.
pub struct LayerReplay<S> {
    /// The challenges.
    pub point: Seq<Block256>,
    /// The claim that is left.
    pub claim: Block256,
    /// The transcript state.
    pub state: S,
}

/// The verifier's reading of the messages of a layer.
pub open spec fn layer_replay<C: FiatShamir<Block256>>(
    wires: Seq<Seq<Block256>>,
    claim: Block256,
    state: C::State,
) -> LayerReplay<C::State>
    decreases wires.len(),
{
    if wires.len() == 0 {
        LayerReplay { point: Seq::empty(), claim, state }
    } else {
        let prev = layer_replay::<C>(wires.drop_last(), claim, state);
        let bound = transcript::absorb_seq::<Block256, C>(prev.state, wires.last());
        let x = C::challenge(bound);
        LayerReplay {
            point: prev.point.push(x),
            claim: poly::poly_eval(reconstruct(wires.last(), prev.claim), x),
            state: C::squeezed(bound),
        }
    }
}

/// The shape of a run.
pub proof fn lemma_run_shape<C: FiatShamir<Block256>>(
    p: Poseidon2bPermutation,
    r: int,
    cs: Seq<Seq<Block256>>,
    regions: Seq<Region>,
    widths: Seq<nat>,
    state: C::State,
    k: nat,
)
    requires
        ragged_model::walk_shape(regions, widths, 0),
    ensures
        ({
            let now = layer_run::<C>(p, r, cs, regions, widths, state, k);
            &&& now.wires.len() == k
            &&& now.point.len() == k
            &&& ragged_model::walk_shape(now.regions, widths, k as int)
            &&& now.regions.len() == regions.len()
            &&& forall|j: int| 0 <= j < k ==> (#[trigger] now.wires[j]).len() == 8
        }),
    decreases k,
{
    if k > 0 {
        let prev = layer_run::<C>(p, r, cs, regions, widths, state, (k - 1) as nat);
        let now = layer_run::<C>(p, r, cs, regions, widths, state, k);
        lemma_run_shape::<C>(p, r, cs, regions, widths, state, (k - 1) as nat);
        ragged_model::lemma_fold_shape(prev.regions, widths, k - 1, now.point[k - 1]);
        ragged_model::lemma_walk_coeffs(
            p,
            r,
            cs,
            prev.regions,
            widths,
            k - 1,
            now.point[k - 1],
        );
        assert forall|j: int| 0 <= j < k implies (#[trigger] now.wires[j]).len() == 8 by {
            if j < k - 1 {
                assert(now.wires[j] == prev.wires[j]);
            }
        }
    }
}

/// A verifier that starts from the true sum follows the prover: same challenges, same state, and its
/// claim is the sum over the folded regions.
pub proof fn lemma_run_replay<C: FiatShamir<Block256>>(
    p: Poseidon2bPermutation,
    r: int,
    cs: Seq<Seq<Block256>>,
    regions: Seq<Region>,
    widths: Seq<nat>,
    state: C::State,
    k: nat,
)
    requires
        ragged_model::walk_shape(regions, widths, 0),
    ensures
        ({
            let now = layer_run::<C>(p, r, cs, regions, widths, state, k);
            layer_replay::<C>(
                now.wires,
                ragged_model::walk_total(p, r, cs, regions),
                state,
            ) == (LayerReplay {
                point: now.point,
                claim: ragged_model::walk_total(p, r, cs, now.regions),
                state: now.state,
            })
        }),
    decreases k,
{
    if k > 0 {
        let prev = layer_run::<C>(p, r, cs, regions, widths, state, (k - 1) as nat);
        let now = layer_run::<C>(p, r, cs, regions, widths, state, k);
        lemma_run_replay::<C>(p, r, cs, regions, widths, state, (k - 1) as nat);
        lemma_run_shape::<C>(p, r, cs, regions, widths, state, (k - 1) as nat);
        assert(now.wires.drop_last() =~= prev.wires);
        let full = ragged_model::walk_coeffs(p, r, cs, prev.regions, widths, k - 1);
        let x = now.point[k - 1];
        ragged_model::lemma_walk_coeffs(p, r, cs, prev.regions, widths, k - 1, x);
        ragged_model::lemma_walk_coeffs(
            p,
            r,
            cs,
            prev.regions,
            widths,
            k - 1,
            Block256::nil(),
        );
        ragged_model::lemma_walk_coeffs(
            p,
            r,
            cs,
            prev.regions,
            widths,
            k - 1,
            Block256::unit(),
        );
        ragged_model::lemma_walk_telescope(p, r, cs, prev.regions, widths, k - 1);
        compression_is_lossless(full, ragged_model::walk_total(p, r, cs, prev.regions));
    }
}

/// One lane of a table of rows.
pub open spec fn lane_of(rows: Seq<Seq<Block256>>, lane: int) -> Seq<Block256> {
    Seq::new(rows.len(), |y: int| rows[y][lane])
}

/// The regions with their coordinates fixed to a point, one after the other.
pub open spec fn regions_at(
    regions: Seq<Region>,
    widths: Seq<nat>,
    point: Seq<Block256>,
) -> Seq<Region>
    decreases point.len(),
{
    if point.len() == 0 {
        regions
    } else {
        ragged_model::fold_walk(
            regions_at(regions, widths, point.drop_last()),
            widths,
            point.len() - 1,
            point.last(),
        )
    }
}

/// Fixing coordinates keeps the shape of the regions.
pub proof fn lemma_regions_shape(regions: Seq<Region>, widths: Seq<nat>, point: Seq<Block256>)
    requires
        ragged_model::walk_shape(regions, widths, 0),
    ensures
        ragged_model::walk_shape(regions_at(regions, widths, point), widths, point.len() as int),
        regions_at(regions, widths, point).len() == regions.len(),
    decreases point.len(),
{
    if point.len() > 0 {
        lemma_regions_shape(regions, widths, point.drop_last());
        ragged_model::lemma_fold_shape(
            regions_at(regions, widths, point.drop_last()),
            widths,
            point.len() - 1,
            point.last(),
        );
    }
}

/// The regions of a run are those at its point.
proof fn lemma_run_regions<C: FiatShamir<Block256>>(
    p: Poseidon2bPermutation,
    r: int,
    cs: Seq<Seq<Block256>>,
    regions: Seq<Region>,
    widths: Seq<nat>,
    state: C::State,
    k: nat,
)
    requires
        ragged_model::walk_shape(regions, widths, 0),
    ensures
        ({
            let now = layer_run::<C>(p, r, cs, regions, widths, state, k);
            now.regions == regions_at(regions, widths, now.point)
        }),
    decreases k,
{
    if k > 0 {
        let prev = layer_run::<C>(p, r, cs, regions, widths, state, (k - 1) as nat);
        let now = layer_run::<C>(p, r, cs, regions, widths, state, k);
        lemma_run_regions::<C>(p, r, cs, regions, widths, state, (k - 1) as nat);
        lemma_run_shape::<C>(p, r, cs, regions, widths, state, (k - 1) as nat);
        assert(now.point.drop_last() =~= prev.point);
    }
}

/// The content of a region at a point: its own variables are folded first, then the gates are
/// multiplied in.
proof fn lemma_content(regions: Seq<Region>, widths: Seq<nat>, point: Seq<Block256>, a: int)
    requires
        ragged_model::walk_shape(regions, widths, 0),
        0 <= a < regions.len(),
        widths[a] > 0,
    ensures
        ({
            let now = regions_at(regions, widths, point)[a];
            let w = widths[a] as int;
            let k = point.len();
            let own = if k <= w {
                point
            } else {
                point.take(w)
            };
            &&& forall|lane: int|
                0 <= lane < 4 ==> #[trigger] lane_of(now.rows, lane) == mle::fold_lows(
                    lane_of(regions[a].rows, lane),
                    own,
                )
            &&& k <= w ==> now.eq == mle::fold_lows(regions[a].eq, own)
            &&& k >= w ==> now.eq.len() == 1 && now.eq[0] == mle::fold_lows(
                regions[a].eq,
                point.take(w),
            )[0].times(gate(point.skip(w)))
        }),
    decreases point.len(),
{
    let now = regions_at(regions, widths, point)[a];
    let w = widths[a] as int;
    let k = point.len();
    lemma_regions_shape(regions, widths, point);
    assert(ragged_model::region_shape(now, widths[a], k as int));
    if k == 0 {
        assert(point =~= Seq::empty());
        assert forall|lane: int| 0 <= lane < 4 implies #[trigger] lane_of(now.rows, lane)
            == mle::fold_lows(lane_of(regions[a].rows, lane), point) by {}
    } else {
        let before = point.drop_last();
        let prev = regions_at(regions, widths, before)[a];
        lemma_content(regions, widths, before, a);
        lemma_regions_shape(regions, widths, before);
        assert(ragged_model::region_shape(prev, widths[a], k - 1));
        let x = point[k - 1];
        if k - 1 < w {
            assert forall|lane: int| 0 <= lane < 4 implies #[trigger] lane_of(now.rows, lane)
                == mle::fold_lows(lane_of(regions[a].rows, lane), point) by {
                assert(lane_of(prev.rows, lane) == mle::fold_lows(
                    lane_of(regions[a].rows, lane),
                    before,
                ));
                assert(lane_of(now.rows, lane) =~= mle::fold_low(lane_of(prev.rows, lane), x));
            }
            if k == w {
                assert(point.take(w) =~= point);
                assert(point.skip(w) =~= Seq::empty());
                Block256::times_laws(now.eq[0], x, x);
                assert(mle::cube(0) == 1);
            }
        } else {
            assert(point.take(w) =~= before.take(w));
            assert(point.skip(w).drop_last() =~= before.skip(w));
            if k - 1 == w {
                assert(before.take(w) =~= before);
            }
            let e = mle::fold_lows(regions[a].eq, point.take(w))[0];
            Block256::times_laws(e, gate(before.skip(w)), Block256::unit().plus(x));
            assert forall|lane: int| 0 <= lane < 4 implies #[trigger] lane_of(now.rows, lane)
                == mle::fold_lows(lane_of(regions[a].rows, lane), point.take(w)) by {
                assert(lane_of(prev.rows, lane) == mle::fold_lows(
                    lane_of(regions[a].rows, lane),
                    if k - 1 <= w {
                        before
                    } else {
                        before.take(w)
                    },
                ));
            }
        }
    }
}

/// One lane of a table of base field rows.
pub open spec fn base_lane(rows: Seq<Seq<Block128>>, lane: int) -> Seq<Block128> {
    Seq::new(rows.len(), |i: int| rows[i][lane])
}

/// Base field rows with their entries embedded.
pub open spec fn embed_rows(rows: Seq<Seq<Block128>>) -> Seq<Seq<Block256>> {
    Seq::new(rows.len(), |i: int| wide::embed_column(rows[i]))
}

/// Whether the rows are a table in `w` variables of four lanes.
pub open spec fn rows_shape(rows: Seq<Seq<Block128>>, w: nat) -> bool {
    &&& rows.len() == mle::cube(w)
    &&& forall|i: int| 0 <= i < rows.len() ==> (#[trigger] rows[i]).len() == 4
}

/// Whether a claim gives the true values of the lanes of a table.
pub open spec fn claim_true(rows: Seq<Seq<Block128>>, claim: LaneView) -> bool {
    &&& claim.values.len() == 4
    &&& forall|lane: int|
        0 <= lane < 4 ==> #[trigger] claim.values[lane] == mle::mle_eval(
            wide::embed_column(base_lane(rows, lane)),
            claim.point,
        )
}

/// The region by which a table takes part in the reduction of a claim.
pub open spec fn start_region(rows: Seq<Seq<Block128>>, point: Seq<Block256>) -> Region {
    Region { eq: mle::eq_table(point), rows: embed_rows(rows) }
}

proof fn lemma_embed_power7(x: Block128)
    ensures
        block256::embed(permutation::power7(x)) == permutation::power7(block256::embed(x)),
{
    let x2 = x.times(x);
    let x4 = x2.times(x2);
    block256::embedding_is_homomorphism(x, x);
    block256::embedding_is_homomorphism(x2, x2);
    block256::embedding_is_homomorphism(x, x2);
    block256::embedding_is_homomorphism(x.times(x2), x4);
}

proof fn lemma_embed_total(s: Seq<Block128>)
    ensures
        block256::embed(sums::total(s)) == sums::total(wide::embed_column(s)),
    decreases s.len(),
{
    block256::embedding_is_homomorphism(Block128::nil(), Block128::nil());
    if s.len() > 0 {
        lemma_embed_total(s.drop_last());
        assert(wide::embed_column(s).drop_last() =~= wide::embed_column(s.drop_last()));
        block256::embedding_is_homomorphism(sums::total(s.drop_last()), s.last());
    }
}

/// The relation on a row is the weighted sum of the outputs of the round.
proof fn lemma_relation_row(
    p: Poseidon2bPermutation,
    r: int,
    w: Seq<Block256>,
    row: Seq<Block128>,
)
    requires
        row.len() == 4,
    ensures
        ragged_model::relation(p, r, column_weights(p, r, w), wide::embed_column(row))
            == sums::sum_to(
            4,
            |lane: int| w[lane].times(block256::embed(p.apply_round(r, row)[lane])),
        ),
{
    let c = column_weights(p, r, w);
    let m = |lane: int, column: int| block256::embed(p.round_entry(r, lane, column));
    let t = |column: int| ragged_model::term(p, r, column, block256::embed(row[column]));
    let cell = |lane: int, column: int| w[lane].times(m(lane, column).times(t(column)));
    let outs = |lane: int| w[lane].times(block256::embed(p.apply_round(r, row)[lane]));
    // Each output lane is a sum over the columns.
    assert forall|lane: int| 0 <= lane < 4 implies #[trigger] outs(lane) == (|i: int|
        sums::sum_to(4, |j: int| cell(i, j)))(lane) by {
        let entry = |row_: int, column: int| p.round_entry(r, row_, column);
        let terms = p.round_terms(r, row);
        let base = Seq::new(4, |column: int| entry(lane, column).times(terms[column]));
        assert(p.apply_round(r, row)[lane] == sums::total(base));
        lemma_embed_total(base);
        let inner = |j: int| m(lane, j).times(t(j));
        assert forall|j: int| 0 <= j < 4 implies #[trigger] wide::embed_column(base)[j]
            == sums::listed(4, inner)[j] by {
            block256::embedding_is_homomorphism(p.round_entry(r, lane, j), terms[j]);
            if Poseidon2bPermutation::active(r, j) {
                lemma_embed_power7(row[j].plus(p.constant(j, r)));
                block256::embedding_is_homomorphism(row[j], p.constant(j, r));
            }
        }
        assert(wide::embed_column(base) =~= sums::listed(4, inner));
        sums::lemma_sum_scale(4, w[lane], inner);
        sums::lemma_sum_equal(4, |j: int| cell(lane, j), |j: int| w[lane].times(inner(j)));
    }
    sums::lemma_sum_equal(4, outs, |i: int| sums::sum_to(4, |j: int| cell(i, j)));
    sums::lemma_sum_exchange(4, 4, cell);
    // Each column weight is a sum over the lanes.
    let rel = |column: int| c[column].times(
        ragged_model::term(p, r, column, wide::embed_column(row)[column]),
    );
    assert forall|column: int| 0 <= column < 4 implies #[trigger] rel(column) == (|j: int|
        sums::sum_to(4, |i: int| cell(i, j)))(column) by {
        let e = t(column);
        let weights = |lane: int| w[lane].times(m(lane, column));
        assert(c[column] == sums::sum_to(4, weights)) by {
            sums::lemma_sum_equal(
                4,
                |lane: int| w[lane].times(block256::embed(p.round_entry(r, lane, column))),
                weights,
            );
        }
        sums::lemma_sum_scale(4, e, weights);
        Block256::times_laws(sums::sum_to(4, weights), e, e);
        assert forall|i: int| 0 <= i < 4 implies #[trigger] cell(i, column) == e.times(
            weights(i),
        ) by {
            Block256::times_laws(w[i], m(i, column), e);
            Block256::times_laws(weights(i), e, e);
        }
        sums::lemma_sum_equal(4, |i: int| cell(i, column), |i: int| e.times(weights(i)));
    }
    sums::lemma_sum_equal(4, rel, |j: int| sums::sum_to(4, |i: int| cell(i, j)));
}

/// A true claim on the outputs of a round is the weighted sum of the relation over its inputs.
proof fn lemma_region_claim(
    p: Poseidon2bPermutation,
    r: int,
    w: Seq<Block256>,
    rows: Seq<Seq<Block128>>,
    claim: LaneView,
)
    requires
        rows_shape(rows, claim.point.len()),
        claim_true(Seq::new(rows.len(), |i: int| p.apply_round(r, rows[i])), claim),
    ensures
        region_claim(w, claim.values) == ragged_model::region_total(
            p,
            r,
            column_weights(p, r, w),
            start_region(rows, claim.point),
        ),
{
    let n = rows.len();
    let c = column_weights(p, r, w);
    let eq = mle::eq_table(claim.point);
    let outs = Seq::new(n, |i: int| p.apply_round(r, rows[i]));
    let cell = |y: int, lane: int| eq[y].times(w[lane].times(block256::embed(outs[y][lane])));
    let region = start_region(rows, claim.point);
    let total = |y: int| region.eq[y].times(ragged_model::relation(p, r, c, region.rows[y]));
    assert forall|y: int| 0 <= y < n implies #[trigger] total(y) == (|i: int|
        sums::sum_to(4, |j: int| cell(i, j)))(y) by {
        lemma_relation_row(p, r, w, rows[y]);
        let inner = |lane: int| w[lane].times(block256::embed(p.apply_round(r, rows[y])[lane]));
        sums::lemma_sum_scale(4, eq[y], inner);
        sums::lemma_sum_equal(4, |j: int| cell(y, j), |j: int| eq[y].times(inner(j)));
    }
    sums::lemma_sum_equal(n, total, |i: int| sums::sum_to(4, |j: int| cell(i, j)));
    sums::lemma_sum_exchange(n, 4, cell);
    let values = |lane: int| w[lane].times(claim.values[lane]);
    assert forall|lane: int| 0 <= lane < 4 implies #[trigger] values(lane) == (|j: int|
        sums::sum_to(n, |i: int| cell(i, j)))(lane) by {
        let column = wide::embed_column(base_lane(outs, lane));
        assert(claim.values[lane] == mle::mle_eval(column, claim.point));
        let inner = |y: int| eq[y].times(column[y]);
        assert(sums::listed(n, inner) =~= sums::seq_times(eq, column));
        sums::lemma_sum_scale(n, w[lane], inner);
        assert forall|y: int| 0 <= y < n implies #[trigger] cell(y, lane) == w[lane].times(
            inner(y),
        ) by {
            Block256::times_laws(eq[y], w[lane], column[y]);
            Block256::times_laws(w[lane], eq[y], column[y]);
        }
        sums::lemma_sum_equal(n, |i: int| cell(i, lane), |i: int| w[lane].times(inner(i)));
    }
    sums::lemma_sum_equal(4, values, |j: int| sums::sum_to(n, |i: int| cell(i, j)));
}

/// What the last claim of a layer has to be, given the values of the next layer.
pub open spec fn expected_claim(
    p: Poseidon2bPermutation,
    r: int,
    cs: Seq<Seq<Block256>>,
    widths: Seq<nat>,
    groups: Seq<LaneView>,
    point: Seq<Block256>,
    next: Seq<Seq<Block256>>,
) -> Block256 {
    sums::sum_to(
        groups.len(),
        |a: int|
            mle::eq_product(groups[a].point, point.take(widths[a] as int)).times(
                gate(point.skip(widths[a] as int)),
            ).times(ragged_model::relation(p, r, cs[a], next[a])),
    )
}

/// The claims on the next layer.
pub open spec fn next_groups(
    widths: Seq<nat>,
    point: Seq<Block256>,
    next: Seq<Seq<Block256>>,
) -> Seq<LaneView> {
    Seq::new(
        next.len(),
        |a: int| LaneView { point: point.take(widths[a] as int), values: next[a] },
    )
}

/// The transcript state after absorbing rows in order.
pub open spec fn absorb_rows<C: FiatShamir<Block256>>(
    state: C::State,
    rows: Seq<Seq<Block256>>,
) -> C::State
    decreases rows.len(),
{
    if rows.len() == 0 {
        state
    } else {
        transcript::absorb_seq::<Block256, C>(
            absorb_rows::<C>(state, rows.drop_last()),
            rows.last(),
        )
    }
}

/// What a party has at the end of a layer.
pub struct LayerEnd<S> {
    /// The messages of the layer.
    pub layer: LayerView,
    /// The claims on the next layer.
    pub groups: Seq<LaneView>,
    /// The transcript state.
    pub state: S,
}

/// The regions at the start of the layer that reduces claims to the tables `rows`.
pub open spec fn start_regions(
    rows: Seq<Seq<Seq<Block128>>>,
    groups: Seq<LaneView>,
) -> Seq<Region> {
    Seq::new(groups.len(), |a: int| start_region(rows[a], groups[a].point))
}

/// All coordinates of the prover's reduction of `groups` by round `r`, whose inputs are `rows`.
pub open spec fn prove_run<C: FiatShamir<Block256>>(
    p: Poseidon2bPermutation,
    r: int,
    widths: Seq<nat>,
    rows: Seq<Seq<Seq<Block128>>>,
    groups: Seq<LaneView>,
    state: C::State,
) -> LayerRun<C::State> {
    layer_run::<C>(
        p,
        r,
        layer_columns(p, r, C::challenge(state), groups.len()),
        start_regions(rows, groups),
        widths,
        C::squeezed(state),
        max_of(widths),
    )
}

/// The values of the next layer that the prover sends.
pub open spec fn sent_values(regions: Seq<Region>) -> Seq<Seq<Block256>> {
    Seq::new(regions.len(), |a: int| regions[a].rows[0])
}

/// One layer of the honest prover.
#[verifier::opaque]
pub open spec fn prove_layer<C: FiatShamir<Block256>>(
    p: Poseidon2bPermutation,
    r: int,
    widths: Seq<nat>,
    rows: Seq<Seq<Seq<Block128>>>,
    groups: Seq<LaneView>,
    state: C::State,
) -> LayerEnd<C::State> {
    let all = prove_run::<C>(p, r, widths, rows, groups, state);
    let next = sent_values(all.regions);
    LayerEnd {
        layer: LayerView { wires: all.wires, next },
        groups: next_groups(widths, all.point, next),
        state: absorb_rows::<C>(all.state, next),
    }
}

/// Whether the verifier accepts a layer.
#[verifier::opaque]
pub open spec fn layer_accepted<C: FiatShamir<Block256>>(
    p: Poseidon2bPermutation,
    r: int,
    widths: Seq<nat>,
    groups: Seq<LaneView>,
    layer: LayerView,
    state: C::State,
) -> bool {
    let alpha = C::challenge(state);
    let cs = layer_columns(p, r, alpha, groups.len());
    let end = layer_replay::<C>(layer.wires, combined_claim(alpha, groups), C::squeezed(state));
    end.claim == expected_claim(p, r, cs, widths, groups, end.point, layer.next)
}

/// The claims and the transcript state that the verifier goes on with.
#[verifier::opaque]
pub open spec fn verify_layer<C: FiatShamir<Block256>>(
    widths: Seq<nat>,
    groups: Seq<LaneView>,
    layer: LayerView,
    state: C::State,
) -> (Seq<LaneView>, C::State) {
    let alpha = C::challenge(state);
    let end = layer_replay::<C>(layer.wires, combined_claim(alpha, groups), C::squeezed(state));
    (next_groups(widths, end.point, layer.next), absorb_rows::<C>(end.state, layer.next))
}

/// Whether claims have the shape of the regions.
pub open spec fn groups_shape(widths: Seq<nat>, groups: Seq<LaneView>) -> bool {
    &&& groups.len() == widths.len()
    &&& forall|a: int|
        0 <= a < groups.len() ==> (#[trigger] groups[a]).point.len() == widths[a]
            && groups[a].values.len() == 4 && widths[a] > 0
}

/// Whether the tables have the shape of the regions.
pub open spec fn tables_shape(widths: Seq<nat>, rows: Seq<Seq<Seq<Block128>>>) -> bool {
    &&& rows.len() == widths.len()
    &&& forall|a: int| 0 <= a < rows.len() ==> rows_shape(#[trigger] rows[a], widths[a])
}

/// Regions start with the shape of their widths.
pub proof fn lemma_start_shape(
    widths: Seq<nat>,
    rows: Seq<Seq<Seq<Block128>>>,
    groups: Seq<LaneView>,
)
    requires
        groups_shape(widths, groups),
        tables_shape(widths, rows),
    ensures
        ragged_model::walk_shape(start_regions(rows, groups), widths, 0),
{
    let regions = start_regions(rows, groups);
    assert forall|a: int| 0 <= a < regions.len() implies ragged_model::region_shape(
        #[trigger] regions[a],
        widths[a],
        0,
    ) by {
        assert(rows_shape(rows[a], widths[a]));
        assert(groups[a].point.len() == widths[a]);
    }
}

/// At a point in all coordinates a region holds the values of its table there, with the weight of the
/// claim's point and the gates of the further coordinates.
pub proof fn lemma_region_values(
    widths: Seq<nat>,
    rows: Seq<Seq<Seq<Block128>>>,
    groups: Seq<LaneView>,
    point: Seq<Block256>,
    a: int,
)
    requires
        groups_shape(widths, groups),
        tables_shape(widths, rows),
        0 <= a < groups.len(),
        point.len() == max_of(widths),
    ensures
        ({
            let region = regions_at(start_regions(rows, groups), widths, point)[a];
            let at = point.take(widths[a] as int);
            &&& at.len() == widths[a]
            &&& claim_true(rows[a], LaneView { point: at, values: region.rows[0] })
            &&& region.eq.len() == 1
            &&& region.rows.len() == 1
            &&& region.eq[0] == mle::eq_product(groups[a].point, at).times(
                gate(point.skip(widths[a] as int)),
            )
        }),
{
    let regions = start_regions(rows, groups);
    let big = max_of(widths);
    let w = widths[a] as int;
    lemma_start_shape(widths, rows, groups);
    lemma_max(widths, a);
    assert(groups[a].point.len() == widths[a] && widths[a] > 0);
    lemma_regions_shape(regions, widths, point);
    lemma_content(regions, widths, point, a);
    let region = regions_at(regions, widths, point)[a];
    let at = point.take(w);
    assert(ragged_model::region_shape(region, widths[a], big as int));
    if big == w {
        assert(point =~= at);
    }
    mle::lemma_fold_lows_all(mle::eq_table(groups[a].point), at);
    mle::lemma_eq_product(groups[a].point, at);
    assert(rows_shape(rows[a], widths[a]));
    let row = region.rows[0];
    assert forall|lane: int| 0 <= lane < 4 implies #[trigger] row[lane] == mle::mle_eval(
        wide::embed_column(base_lane(rows[a], lane)),
        at,
    ) by {
        let column = wide::embed_column(base_lane(rows[a], lane));
        assert(lane_of(embed_rows(rows[a]), lane) =~= column);
        assert(lane_of(region.rows, lane) == mle::fold_lows(column, at));
        mle::lemma_fold_lows_all(column, at);
        assert(lane_of(region.rows, lane)[0] == row[lane]);
    }
    assert(region.rows[0].len() == 4);
}

/// The sum over the regions at a point in all coordinates is what the values of the tables there
/// give.
pub proof fn lemma_walk_end(
    p: Poseidon2bPermutation,
    r: int,
    cs: Seq<Seq<Block256>>,
    widths: Seq<nat>,
    rows: Seq<Seq<Seq<Block128>>>,
    groups: Seq<LaneView>,
    point: Seq<Block256>,
)
    requires
        groups_shape(widths, groups),
        tables_shape(widths, rows),
        point.len() == max_of(widths),
    ensures
        ({
            let regions = regions_at(start_regions(rows, groups), widths, point);
            ragged_model::walk_total(p, r, cs, regions) == expected_claim(
                p,
                r,
                cs,
                widths,
                groups,
                point,
                sent_values(regions),
            )
        }),
{
    let n = groups.len();
    lemma_start_shape(widths, rows, groups);
    lemma_regions_shape(start_regions(rows, groups), widths, point);
    let regions = regions_at(start_regions(rows, groups), widths, point);
    let next = sent_values(regions);
    let h = |a: int| ragged_model::region_total(p, r, cs[a], regions[a]);
    let e = |a: int|
        mle::eq_product(groups[a].point, point.take(widths[a] as int)).times(
            gate(point.skip(widths[a] as int)),
        ).times(ragged_model::relation(p, r, cs[a], next[a]));
    assert forall|a: int| 0 <= a < n implies #[trigger] h(a) == e(a) by {
        lemma_region_values(widths, rows, groups, point, a);
        let region = regions[a];
        let one = |y: int| region.eq[y].times(ragged_model::relation(p, r, cs[a], region.rows[y]));
        sums::lemma_sum_step(0, one);
        algebra::lemma_neutral_left(one(0));
    }
    sums::lemma_sum_equal(n, h, e);
}

/// True claims combine to the sum over the regions at the start of the layer.
pub proof fn lemma_walk_start(
    p: Poseidon2bPermutation,
    r: int,
    alpha: Block256,
    widths: Seq<nat>,
    rows: Seq<Seq<Seq<Block128>>>,
    groups: Seq<LaneView>,
)
    requires
        groups_shape(widths, groups),
        tables_shape(widths, rows),
        forall|a: int|
            0 <= a < groups.len() ==> claim_true(
                Seq::new(rows[a].len(), |i: int| p.apply_round(r, rows[a][i])),
                #[trigger] groups[a],
            ),
    ensures
        combined_claim(alpha, groups) == ragged_model::walk_total(
            p,
            r,
            layer_columns(p, r, alpha, groups.len()),
            start_regions(rows, groups),
        ),
{
    let n = groups.len();
    let cs = layer_columns(p, r, alpha, n);
    let regions = start_regions(rows, groups);
    let f = |a: int| region_claim(lane_weights(alpha, a), groups[a].values);
    let g = |a: int| ragged_model::region_total(p, r, cs[a], regions[a]);
    assert forall|a: int| 0 <= a < n implies #[trigger] f(a) == g(a) by {
        assert(groups[a].point.len() == widths[a]);
        assert(rows_shape(rows[a], widths[a]));
        lemma_region_claim(p, r, lane_weights(alpha, a), rows[a], groups[a]);
    }
    sums::lemma_sum_equal(n, f, g);
}

/// The values that the honest prover sends are those of its tables at the derived point.
proof fn lemma_sent_values<C: FiatShamir<Block256>>(
    p: Poseidon2bPermutation,
    r: int,
    widths: Seq<nat>,
    rows: Seq<Seq<Seq<Block128>>>,
    groups: Seq<LaneView>,
    state: C::State,
)
    requires
        groups_shape(widths, groups),
        tables_shape(widths, rows),
    ensures
        ({
            let all = prove_run::<C>(p, r, widths, rows, groups, state);
            &&& all.point.len() == max_of(widths)
            &&& all.regions == regions_at(start_regions(rows, groups), widths, all.point)
            &&& all.regions.len() == groups.len()
            &&& forall|a: int|
                0 <= a < groups.len() ==> claim_true(
                    rows[a],
                    LaneView {
                        point: all.point.take(widths[a] as int),
                        values: (#[trigger] all.regions[a]).rows[0],
                    },
                ) && all.point.take(widths[a] as int).len() == widths[a]
        }),
{
    let cs = layer_columns(p, r, C::challenge(state), groups.len());
    let regions = start_regions(rows, groups);
    let start = C::squeezed(state);
    lemma_start_shape(widths, rows, groups);
    lemma_run_shape::<C>(p, r, cs, regions, widths, start, max_of(widths));
    lemma_run_regions::<C>(p, r, cs, regions, widths, start, max_of(widths));
    let all = prove_run::<C>(p, r, widths, rows, groups, state);
    assert forall|a: int| 0 <= a < groups.len() implies claim_true(
        rows[a],
        LaneView {
            point: all.point.take(widths[a] as int),
            values: (#[trigger] all.regions[a]).rows[0],
        },
    ) && all.point.take(widths[a] as int).len() == widths[a] by {
        lemma_region_values(widths, rows, groups, all.point, a);
    }
}

/// The claims that the prover goes on with have the shape of the regions.
pub proof fn lemma_prove_shape<C: FiatShamir<Block256>>(
    p: Poseidon2bPermutation,
    r: int,
    widths: Seq<nat>,
    rows: Seq<Seq<Seq<Block128>>>,
    groups: Seq<LaneView>,
    state: C::State,
)
    requires
        groups_shape(widths, groups),
        tables_shape(widths, rows),
    ensures
        groups_shape(widths, prove_layer::<C>(p, r, widths, rows, groups, state).groups),
{
    reveal(prove_layer);
    let end = prove_layer::<C>(p, r, widths, rows, groups, state);
    lemma_start_shape(widths, rows, groups);
    lemma_run_shape::<C>(
        p,
        r,
        layer_columns(p, r, C::challenge(state), groups.len()),
        start_regions(rows, groups),
        widths,
        C::squeezed(state),
        max_of(widths),
    );
    lemma_sent_values::<C>(p, r, widths, rows, groups, state);
    let all = prove_run::<C>(p, r, widths, rows, groups, state);
    assert forall|a: int| 0 <= a < end.groups.len() implies (#[trigger] end.groups[a]).point.len()
        == widths[a] && end.groups[a].values.len() == 4 && widths[a] > 0 by {
        assert(all.regions[a].rows[0] == end.groups[a].values);
        assert(groups[a].point.len() == widths[a]);
    }
}

/// Completeness of a layer: if the claims are true of the outputs of round `r`, the verifier accepts
/// the honest messages, ends in the prover's transcript state with the prover's claims, and these are
/// true of the inputs of the round.
pub proof fn layer_completeness<C: FiatShamir<Block256>>(
    p: Poseidon2bPermutation,
    r: int,
    widths: Seq<nat>,
    rows: Seq<Seq<Seq<Block128>>>,
    groups: Seq<LaneView>,
    state: C::State,
)
    requires
        groups_shape(widths, groups),
        tables_shape(widths, rows),
        forall|a: int|
            0 <= a < groups.len() ==> claim_true(
                Seq::new(rows[a].len(), |i: int| p.apply_round(r, rows[a][i])),
                #[trigger] groups[a],
            ),
    ensures
        ({
            let end = prove_layer::<C>(p, r, widths, rows, groups, state);
            &&& layer_accepted::<C>(p, r, widths, groups, end.layer, state)
            &&& verify_layer::<C>(widths, groups, end.layer, state) == (end.groups, end.state)
            &&& groups_shape(widths, end.groups)
            &&& forall|a: int|
                0 <= a < groups.len() ==> claim_true(rows[a], #[trigger] end.groups[a])
            &&& end.layer.wires.len() == max_of(widths)
            &&& end.layer.next.len() == groups.len()
        }),
{
    reveal(prove_layer);
    reveal(layer_accepted);
    reveal(verify_layer);
    let alpha = C::challenge(state);
    let n = groups.len();
    let cs = layer_columns(p, r, alpha, n);
    let regions = start_regions(rows, groups);
    let start = C::squeezed(state);
    let all = prove_run::<C>(p, r, widths, rows, groups, state);
    let end = prove_layer::<C>(p, r, widths, rows, groups, state);
    lemma_start_shape(widths, rows, groups);
    lemma_run_shape::<C>(p, r, cs, regions, widths, start, max_of(widths));
    lemma_run_replay::<C>(p, r, cs, regions, widths, start, max_of(widths));
    lemma_walk_start(p, r, alpha, widths, rows, groups);
    lemma_sent_values::<C>(p, r, widths, rows, groups, state);
    lemma_walk_end(p, r, cs, widths, rows, groups, all.point);
    assert forall|a: int| 0 <= a < n implies claim_true(rows[a], #[trigger] end.groups[a])
        && end.groups[a].point.len() == widths[a] && end.groups[a].values.len() == 4 by {
        assert(all.regions[a].rows[0] == end.groups[a].values);
    }
    assert(groups_shape(widths, end.groups)) by {
        assert forall|a: int| 0 <= a < end.groups.len() implies (#[trigger] end.groups[a]).point.len()
            == widths[a] && end.groups[a].values.len() == 4 && widths[a] > 0 by {
            assert(claim_true(rows[a], end.groups[a]));
            assert(groups[a].point.len() == widths[a]);
        }
    }
}

/// The largest width bounds every width and is one of them.
pub proof fn largest_width_is_attained(widths: Seq<nat>, w: nat)
    requires
        widths.len() > 0,
    ensures
        w == max_of(widths) <==> (forall|a: int|
            0 <= a < widths.len() ==> #[trigger] widths[a] <= w) && exists|a: int|
            0 <= a < widths.len() && #[trigger] widths[a] == w,
{
    assert forall|a: int| 0 <= a < widths.len() implies #[trigger] widths[a] <= max_of(
        widths,
    ) by {
        lemma_max(widths, a);
    }
    lemma_max_attained(widths);
}

proof fn lemma_max_attained(widths: Seq<nat>)
    requires
        widths.len() > 0,
    ensures
        exists|a: int| 0 <= a < widths.len() && #[trigger] widths[a] == max_of(widths),
    decreases widths.len(),
{
    let rest = widths.drop_last();
    if widths.last() > max_of(rest) || rest.len() == 0 {
        assert(widths[widths.len() - 1] == max_of(widths));
    } else {
        lemma_max_attained(rest);
        let a = choose|a: int| 0 <= a < rest.len() && #[trigger] rest[a] == max_of(rest);
        assert(widths[a] == max_of(widths));
    }
}

/// What reading the messages of a layer means, for whatever polynomials the messages stand for: the
/// polynomial of a coordinate has the sent coefficients of all powers but the first, its values at zero
/// and one add up to the claim, it is on the transcript before its challenge is taken, and the claim
/// that is left is its value there.
pub proof fn coordinates_are_checked<C: FiatShamir<Block256>>(
    wires: Seq<Seq<Block256>>,
    polys: Seq<Seq<Block256>>,
    claims: Seq<Block256>,
    points: Seq<Block256>,
    states: Seq<C::State>,
)
    requires
        polys.len() == wires.len(),
        points.len() == wires.len(),
        claims.len() == wires.len() + 1,
        states.len() == wires.len() + 1,
        forall|k: int|
            0 <= k < wires.len() ==> {
                &&& (#[trigger] wires[k]).len() == 8
                &&& polys[k].len() == 9
                &&& polys[k][0] == wires[k][0]
                &&& forall|j: int| 1 <= j < 8 ==> polys[k][j + 1] == #[trigger] wires[k][j]
                &&& poly::poly_eval(polys[k], Block256::nil()).plus(
                    poly::poly_eval(polys[k], Block256::unit()),
                ) == claims[k]
                &&& points[k] == C::challenge(
                    transcript::absorb_seq::<Block256, C>(states[k], wires[k]),
                )
                &&& states[k + 1] == C::squeezed(
                    transcript::absorb_seq::<Block256, C>(states[k], wires[k]),
                )
                &&& claims[k + 1] == poly::poly_eval(polys[k], points[k])
            },
    ensures
        layer_replay::<C>(wires, claims[0], states[0]).point == points,
        layer_replay::<C>(wires, claims[0], states[0]).claim == claims.last(),
        layer_replay::<C>(wires, claims[0], states[0]).state == states.last(),
    decreases wires.len(),
{
    let n = wires.len();
    if n == 0 {
        assert(points =~= Seq::empty());
    } else {
        let m = n - 1;
        let before = wires.drop_last();
        let (ps, ts) = (polys.drop_last(), points.drop_last());
        let (cs, ss) = (claims.drop_last(), states.drop_last());
        assert forall|k: int| 0 <= k < before.len() implies {
            &&& (#[trigger] before[k]).len() == 8
            &&& ps[k].len() == 9
            &&& ps[k][0] == before[k][0]
            &&& forall|j: int| 1 <= j < 8 ==> ps[k][j + 1] == #[trigger] before[k][j]
            &&& poly::poly_eval(ps[k], Block256::nil()).plus(
                poly::poly_eval(ps[k], Block256::unit()),
            ) == cs[k]
            &&& ts[k] == C::challenge(transcript::absorb_seq::<Block256, C>(ss[k], before[k]))
            &&& ss[k + 1] == C::squeezed(transcript::absorb_seq::<Block256, C>(ss[k], before[k]))
            &&& cs[k + 1] == poly::poly_eval(ps[k], ts[k])
        } by {
            assert(wires[k].len() == 8);
            assert forall|j: int| 1 <= j < 8 implies ps[k][j + 1] == #[trigger] before[k][j] by {
                assert(polys[k][j + 1] == wires[k][j]);
            }
        }
        coordinates_are_checked::<C>(before, ps, cs, ts, ss);
        assert(wires[m].len() == 8);
        let full = polys[m];
        assert forall|j: int| 0 <= j < 8 implies #[trigger] compress(full)[j] == wires[m][j] by {
            if j > 0 {
                assert(polys[m][j + 1] == wires[m][j]);
            }
        }
        assert(compress(full) =~= wires[m]);
        compression_is_lossless(full, claims[m]);
        assert(points.drop_last().push(points[m]) =~= points);
        assert(states[m + 1] == states.last() && claims[m + 1] == claims.last());
    }
}

/// The combination of the lanes is linear in every value: claims that differ in one lane of one region
/// alone combine to values that differ by that difference times a power of the challenge, of its own
/// for each lane of each region.
pub proof fn lanes_combine_linearly(
    alpha: Block256,
    groups: Seq<LaneView>,
    others: Seq<LaneView>,
    a: int,
    lane: int,
)
    requires
        groups.len() == others.len(),
        0 <= a < groups.len(),
        0 <= lane < 4,
        forall|b: int, l: int|
            0 <= b < groups.len() && 0 <= l < 4 && (b != a || l != lane)
                ==> #[trigger] groups[b].values[l] == others[b].values[l],
    ensures
        combined_claim(alpha, groups).plus(combined_claim(alpha, others)) == poly::power(
            alpha,
            (4 * a + lane + 1) as nat,
        ).times(groups[a].values[lane].plus(others[a].values[lane])),
{
    let n = groups.len();
    let f = |b: int| region_claim(lane_weights(alpha, b), groups[b].values);
    let g = |b: int| region_claim(lane_weights(alpha, b), others[b].values);
    let want = poly::power(alpha, (4 * a + lane + 1) as nat).times(
        groups[a].values[lane].plus(others[a].values[lane]),
    );
    sums::lemma_sum_plus(n, f, g);
    assert forall|b: int| 0 <= b < n implies #[trigger] f(b).plus(g(b)) == if b == a {
        want
    } else {
        Block256::nil()
    } by {
        let w = lane_weights(alpha, b);
        let p = |l: int| w[l].times(groups[b].values[l]);
        let q = |l: int| w[l].times(others[b].values[l]);
        sums::lemma_sum_plus(4, p, q);
        assert forall|l: int| 0 <= l < 4 implies #[trigger] p(l).plus(q(l)) == if b == a && l
            == lane {
            want
        } else {
            Block256::nil()
        } by {
            let (x, y) = (groups[b].values[l], others[b].values[l]);
            Block256::times_laws(w[l], x, y);
            if b != a || l != lane {
                assert(groups[b].values[l] == others[b].values[l]);
                Block256::plus_laws(x, x, x);
                algebra::lemma_times_nil(w[l]);
            }
        }
        let here = |l: int| p(l).plus(q(l));
        if b == a {
            lemma_lone_term(4, here, lane, want);
        } else {
            lemma_no_term(4, here);
        }
        sums::lemma_sum_equal(4, |l: int| w[l].times(groups[b].values[l]), p);
        sums::lemma_sum_equal(4, |l: int| w[l].times(others[b].values[l]), q);
    }
    let both = |b: int| f(b).plus(g(b));
    lemma_lone_term(n, both, a, want);
    sums::lemma_sum_equal(
        n,
        |b: int| region_claim(lane_weights(alpha, b), groups[b].values),
        f,
    );
    sums::lemma_sum_equal(
        n,
        |b: int| region_claim(lane_weights(alpha, b), others[b].values),
        g,
    );
}

/// Claims of zero combine to zero.
pub proof fn zero_lanes_combine_to_zero(alpha: Block256, groups: Seq<LaneView>)
    requires
        forall|b: int, l: int|
            0 <= b < groups.len() && 0 <= l < 4 ==> #[trigger] groups[b].values[l]
                == Block256::nil(),
    ensures
        combined_claim(alpha, groups) == Block256::nil(),
{
    let f = |b: int| region_claim(lane_weights(alpha, b), groups[b].values);
    assert forall|b: int| 0 <= b < groups.len() implies #[trigger] f(b) == Block256::nil() by {
        let w = lane_weights(alpha, b);
        let p = |l: int| w[l].times(groups[b].values[l]);
        assert forall|l: int| 0 <= l < 4 implies #[trigger] p(l) == Block256::nil() by {
            assert(groups[b].values[l] == Block256::nil());
            algebra::lemma_times_nil(w[l]);
        }
        lemma_no_term(4, p);
        sums::lemma_sum_equal(4, |l: int| w[l].times(groups[b].values[l]), p);
    }
    lemma_no_term(groups.len(), f);
    sums::lemma_sum_equal(
        groups.len(),
        |b: int| region_claim(lane_weights(alpha, b), groups[b].values),
        f,
    );
}

proof fn lemma_no_term(n: nat, f: spec_fn(int) -> Block256)
    requires
        forall|b: int| 0 <= b < n ==> #[trigger] f(b) == Block256::nil(),
    ensures
        sums::sum_to(n, f) == Block256::nil(),
{
    let all = sums::listed(n, f);
    assert forall|b: int| 0 <= b < all.len() implies #[trigger] all[b] == Block256::nil() by {
        assert(f(b) == Block256::nil());
    }
    sums::lemma_total_zero(all);
}

proof fn lemma_lone_term(n: nat, f: spec_fn(int) -> Block256, a: int, want: Block256)
    requires
        0 <= a < n,
        forall|b: int|
            0 <= b < n ==> #[trigger] f(b) == if b == a {
                want
            } else {
                Block256::nil()
            },
    ensures
        sums::sum_to(n, f) == want,
    decreases n,
{
    let m = (n - 1) as nat;
    sums::lemma_sum_step(m, f);
    assert(f(m as int) == if m == a {
        want
    } else {
        Block256::nil()
    });
    if a == m {
        assert forall|b: int| 0 <= b < m implies #[trigger] f(b) == Block256::nil() by {}
        lemma_no_term(m, f);
        algebra::lemma_neutral_left(want);
    } else {
        lemma_lone_term(m, f, a, want);
        Block256::plus_laws(want, Block256::nil(), want);
    }
}

/// What the verifier goes on with after a layer: for each region the first coordinates of the point of
/// the layer and the values sent for it, which are all on the transcript, region after region.
pub proof fn next_claims_are_bound<C: FiatShamir<Block256>>(
    widths: Seq<nat>,
    groups: Seq<LaneView>,
    layer: LayerView,
    state: C::State,
    states: Seq<C::State>,
)
    requires
        states.len() == layer.next.len() + 1,
        states[0] == layer_replay::<C>(
            layer.wires,
            combined_claim(C::challenge(state), groups),
            C::squeezed(state),
        ).state,
        forall|a: int|
            0 <= a < layer.next.len() ==> states[a + 1] == transcript::absorb_seq::<Block256, C>(
                states[a],
                #[trigger] layer.next[a],
            ),
    ensures
        ({
            let point = layer_replay::<C>(
                layer.wires,
                combined_claim(C::challenge(state), groups),
                C::squeezed(state),
            ).point;
            let end = verify_layer::<C>(widths, groups, layer, state);
            &&& end.1 == states.last()
            &&& end.0.len() == layer.next.len()
            &&& forall|a: int|
                0 <= a < layer.next.len() ==> (#[trigger] end.0[a]).point == point.take(
                    widths[a] as int,
                ) && end.0[a].values == layer.next[a]
        }),
{
    reveal(verify_layer);
    lemma_absorb_rows::<C>(layer.next, states, layer.next.len());
    assert(layer.next.take(layer.next.len() as int) =~= layer.next);
}

proof fn lemma_absorb_rows<C: FiatShamir<Block256>>(
    rows: Seq<Seq<Block256>>,
    states: Seq<C::State>,
    k: nat,
)
    requires
        k <= rows.len(),
        states.len() == rows.len() + 1,
        forall|a: int|
            0 <= a < rows.len() ==> states[a + 1] == transcript::absorb_seq::<Block256, C>(
                states[a],
                #[trigger] rows[a],
            ),
    ensures
        absorb_rows::<C>(states[0], rows.take(k as int)) == states[k as int],
    decreases k,
{
    if k > 0 {
        lemma_absorb_rows::<C>(rows, states, (k - 1) as nat);
        let part = rows.take(k as int);
        assert(part.drop_last() =~= rows.take(k - 1));
        assert(part.last() == rows[k - 1]);
        assert(states[k - 1 + 1] == states[k as int]);
    }
}

} // verus!
