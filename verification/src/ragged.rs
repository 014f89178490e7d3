//! One GKR walk over unequal-width Poseidon2b regions.
//!
//! Region `a` has Boolean width `w_a`; the aggregate sumcheck walks `W = max_a w_a` coordinates.
//! Once a region exhausts its native coordinates, its relation is multiplied by
//! `chi_a(x) = product_{j=w_a}^{W-1} (1 + x_j)`.  The selector preserves the region's Boolean sum,
//! adds only one individual degree per new coordinate, and lets the prover keep the region at its
//! native physical size.
//!
//! Committed rows remain in GF(2^128).  Claims, sumcheck messages and challenges live in the
//! quadratic extension GF(2^256).
use crate::algebra;
use crate::block128::Block128;
use crate::block256;
use crate::block256::Block256;
use crate::eq::{eq_ind, eq_ind_partial_eval};
use crate::layer_states;
use crate::layer_states::{row_seq, table_seq, DescendingLayerStates};
use crate::mle;
use crate::parallel::map_range;
use crate::permutation;
use crate::permutation::{round_kind, Poseidon2bPermutation, RoundKind};
use crate::poly;
use crate::ragged_model;
use crate::ragged_model::Region;
use crate::ragged_walk;
use crate::ragged_walk::{LaneView, LayerView};
use crate::sums;
use crate::tables;
use crate::tables::{copied, sum_column};
use crate::tower_field::TowerField;
use crate::transcript;
use crate::transcript::FiatShamir;
use crate::wide;
use crate::wide::{evaluate_column, WideChannel};
use vstd::prelude::*;
use vstd::string::StringExecFns;

verus! {

/// Degree of the round polynomials.
pub const WALK_DEGREE: usize = 8;

/// The element that opens the statement of a walk.
pub const RAGGED_DOMAIN: u128 = 0x5241_4747_4544_5f47_4b52_5f56_3100_0001;

/// The values of the four lanes of a table at a point.
#[derive(Clone, Debug, PartialEq, Eq)]
pub struct LaneClaim {
    pub point: Vec<Block256>,
    pub values: [Block256; 4],
}

impl View for LaneClaim {
    type V = LaneView;

    open spec fn view(&self) -> LaneView {
        LaneView { point: self.point@, values: self.values@ }
    }
}

/// The points and values of a list of claims.
pub open spec fn lane_views(claims: Seq<LaneClaim>) -> Seq<LaneView> {
    Seq::new(claims.len(), |a: int| claims[a]@)
}

/// The messages of one layer.
#[derive(Clone, Debug, PartialEq, Eq)]
pub struct RaggedLayerProof {
    /// Compressed degree-eight coefficients `[c_0, c_2, ..., c_8]`.
    pub round_coeffs: Vec<[Block256; 8]>,
    /// Four next-layer evaluations in canonical region order.
    pub next_values: Vec<[Block256; 4]>,
}

/// A list of arrays as a sequence of sequences.
pub open spec fn array_seqs<const N: usize>(rows: Seq<[Block256; N]>) -> Seq<Seq<Block256>> {
    Seq::new(rows.len(), |i: int| rows[i]@)
}

impl View for RaggedLayerProof {
    type V = LayerView;

    open spec fn view(&self) -> LayerView {
        LayerView {
            wires: array_seqs(self.round_coeffs@),
            next: array_seqs(self.next_values@),
        }
    }
}

/// A proof of the whole walk.
#[derive(Clone, Debug, PartialEq, Eq)]
pub struct RaggedProof {
    /// Layer 66 first, down to layer 1.
    pub layers: Vec<RaggedLayerProof>,
}

/// The messages of a list of layers.
pub open spec fn layer_views(layers: Seq<RaggedLayerProof>) -> Seq<LayerView> {
    Seq::new(layers.len(), |i: int| layers[i]@)
}

/// Wire size of a list of layers.
pub open spec fn layers_byte_len(layers: Seq<LayerView>) -> nat
    decreases layers.len(),
{
    if layers.len() == 0 {
        0
    } else {
        layers_byte_len(layers.drop_last()) + 32 * (8 * layers.last().wires.len() + 4
            * layers.last().next.len())
    }
}

proof fn lemma_layers_prefix(layers: Seq<LayerView>, i: nat)
    requires
        i <= layers.len(),
    ensures
        layers_byte_len(layers.take(i as int)) <= layers_byte_len(layers),
    decreases layers.len(),
{
    if i == layers.len() {
        assert(layers.take(i as int) =~= layers);
    } else {
        lemma_layers_prefix(layers.drop_last(), i);
        assert(layers.drop_last().take(i as int) =~= layers.take(i as int));
    }
}

/// Layers of equal shape have equal sizes.
pub proof fn lemma_uniform_byte_len(layers: Seq<LayerView>, rounds: nat, regions: nat)
    requires
        forall|i: int|
            0 <= i < layers.len() ==> (#[trigger] layers[i]).wires.len() == rounds
                && layers[i].next.len() == regions,
    ensures
        layers_byte_len(layers) == layers.len() * (32 * (8 * rounds + 4 * regions)),
    decreases layers.len(),
{
    let size = 32 * (8 * rounds + 4 * regions);
    if layers.len() > 0 {
        let prev = layers.drop_last();
        assert forall|i: int| 0 <= i < prev.len() implies (#[trigger] prev[i]).wires.len() == rounds
            && prev[i].next.len() == regions by {
            assert(prev[i] == layers[i]);
        }
        lemma_uniform_byte_len(prev, rounds, regions);
        assert(layers[layers.len() - 1].wires.len() == rounds);
        let m = prev.len();
        assert(m * size + size == (m + 1) * size) by (nonlinear_arith);
    } else {
        assert(0 * size == 0) by (nonlinear_arith);
    }
}

impl RaggedProof {
    /// Raw algebraic transcript size.  Shape metadata and protocol framing are public statement data
    /// and therefore are not counted as prover bytes.
    pub fn byte_len(&self) -> (r: usize)
        requires
            layers_byte_len(layer_views(self.layers@)) <= usize::MAX,
        ensures
            r == layers_byte_len(layer_views(self.layers@)),
    {
        let ghost views = layer_views(self.layers@);
        let mut total: usize = 0;
        let mut i: usize = 0;
        while i < self.layers.len()
            invariant
                i <= self.layers.len(),
                views == layer_views(self.layers@),
                layers_byte_len(views) <= usize::MAX,
                total == layers_byte_len(views.take(i as int)),
            decreases self.layers.len() - i,
        {
            proof {
                lemma_layers_prefix(views, (i + 1) as nat);
                assert(views.take(i + 1).drop_last() =~= views.take(i as int));
                assert(views.take(i + 1).last() == self.layers@[i as int]@);
            }
            let layer = &self.layers[i];
            total = total + 32 * (8 * layer.round_coeffs.len() + 4 * layer.next_values.len());
            i = i + 1;
        }
        proof {
            assert(views.take(i as int) =~= views);
        }
        total
    }
}

/// Why a proof is rejected.
#[derive(Debug, Clone, Copy, PartialEq, Eq, Structural)]
pub enum RaggedError {
    Shape,
    LayerMismatch(usize),
}

/// The decimal digits of a number.
pub open spec fn decimal(n: nat) -> Seq<char>
    decreases n,
{
    let digit = seq![((n % 10) as u8 + 48) as char];
    if n < 10 {
        digit
    } else {
        decimal(n / 10) + digit
    }
}

/// One decimal digit as text.
fn digit_text(d: usize) -> (s: &'static str)
    requires
        d < 10,
    ensures
        s@ == seq![(d as u8 + 48) as char],
{
    proof {
        reveal_strlit("0");
        reveal_strlit("1");
        reveal_strlit("2");
        reveal_strlit("3");
        reveal_strlit("4");
        reveal_strlit("5");
        reveal_strlit("6");
        reveal_strlit("7");
        reveal_strlit("8");
        reveal_strlit("9");
    }
    let s = if d == 0 {
        "0"
    } else if d == 1 {
        "1"
    } else if d == 2 {
        "2"
    } else if d == 3 {
        "3"
    } else if d == 4 {
        "4"
    } else if d == 5 {
        "5"
    } else if d == 6 {
        "6"
    } else if d == 7 {
        "7"
    } else if d == 8 {
        "8"
    } else {
        "9"
    };
    proof {
        assert(s@ =~= seq![(d as u8 + 48) as char]);
    }
    s
}

/// Append the decimal digits of a number.
fn append_decimal(out: &mut String, n: usize)
    ensures
        final(out)@ == old(out)@ + decimal(n as nat),
    decreases n,
{
    let ghost before = out@;
    if n >= 10 {
        append_decimal(out, n / 10);
    }
    out.append(digit_text(n % 10));
    proof {
        assert(out@ =~= before + decimal(n as nat));
    }
}

impl RaggedError {
    /// A description of the error.
    pub fn message(&self) -> (text: String)
        ensures
            text@ == match *self {
                RaggedError::Shape => "ragged walk proof shape mismatch"@,
                RaggedError::LayerMismatch(layer) => "ragged walk layer "@ + decimal(layer as nat)
                    + " claim mismatch"@,
            },
    {
        match self {
            RaggedError::Shape => String::from_str("ragged walk proof shape mismatch"),
            RaggedError::LayerMismatch(layer) => {
                let mut text = String::from_str("ragged walk layer ");
                append_decimal(&mut text, *layer);
                text.append(" claim mismatch");
                text
            },
        }
    }
}

/// The powers of `alpha` that weigh the lanes of `groups` regions.
fn lane_weights(alpha: Block256, groups: usize) -> (weights: Vec<[Block256; 4]>)
    ensures
        weights@.len() == groups,
        forall|a: int|
            0 <= a < groups ==> (#[trigger] weights@[a])@ == ragged_walk::lane_weights(alpha, a),
{
    let mut power = Block256::one();
    let mut weights: Vec<[Block256; 4]> = Vec::with_capacity(groups);
    let mut a: usize = 0;
    while a < groups
        invariant
            a <= groups,
            weights@.len() == a,
            power == poly::power(alpha, (4 * a) as nat),
            forall|k: int|
                0 <= k < a ==> (#[trigger] weights@[k])@ == ragged_walk::lane_weights(alpha, k),
        decreases groups - a,
    {
        let p1 = power * alpha;
        let p2 = p1 * alpha;
        let p3 = p2 * alpha;
        let p4 = p3 * alpha;
        let row = [p1, p2, p3, p4];
        proof {
            assert(p1 == poly::power(alpha, (4 * a + 1) as nat));
            assert(p2 == poly::power(alpha, (4 * a + 2) as nat));
            assert(p3 == poly::power(alpha, (4 * a + 3) as nat));
            assert(p4 == poly::power(alpha, (4 * a + 4) as nat));
            assert(row@ =~= ragged_walk::lane_weights(alpha, a as int));
        }
        weights.push(row);
        power = p4;
        a = a + 1;
    }
    weights
}

/// The sum of four terms.
fn sum4(a: Block256, b: Block256, c: Block256, d: Block256) -> (r: Block256)
    ensures
        forall|s: Seq<Block256>|
            s.len() == 4 && s[0] == a && s[1] == b && s[2] == c && s[3] == d ==> r
                == #[trigger] sums::total(s),
{
    proof {
        assert forall|s: Seq<Block256>|
            s.len() == 4 && s[0] == a && s[1] == b && s[2] == c && s[3] == d implies a.plus(
            b,
        ).plus(c).plus(d) == #[trigger] sums::total(s) by {
            permutation::lemma_total4(s);
        }
    }
    a + b + c + d
}

/// The weights of the terms of a round that correspond to weights of its output lanes.
fn column_weights(permutation: &Poseidon2bPermutation, round: usize, w: &[Block256; 4]) -> (c: [Block256; 4])
    ensures
        c@ == ragged_walk::column_weights(*permutation, round as int, w@),
{
    let m = match round_kind(round) {
        RoundKind::Full => permutation.full_matrix(),
        RoundKind::Partial => permutation.partial_matrix(),
    };
    let c = [
        column_weight(&m, w, 0),
        column_weight(&m, w, 1),
        column_weight(&m, w, 2),
        column_weight(&m, w, 3),
    ];
    proof {
        let want = ragged_walk::column_weights(*permutation, round as int, w@);
        assert forall|column: int| 0 <= column < 4 implies #[trigger] want[column] == c@[column] by {
            sums::lemma_sum_equal(
                4,
                |lane: int|
                    w@[lane].times(
                        block256::embed(permutation.round_entry(round as int, lane, column)),
                    ),
                |lane: int| w@[lane].times(block256::embed(m@[lane]@[column])),
            );
        }
        assert(c@ =~= want);
    }
    c
}

/// One weight of a column of a matrix.
fn column_weight(m: &[[Block128; 4]; 4], w: &[Block256; 4], column: usize) -> (r: Block256)
    requires
        column < 4,
    ensures
        r == sums::sum_to(
            4,
            |lane: int| w@[lane].times(block256::embed(m@[lane]@[column as int])),
        ),
{
    let a = w[0].scale_base(m[0][column]);
    let b = w[1].scale_base(m[1][column]);
    let c = w[2].scale_base(m[2][column]);
    let d = w[3].scale_base(m[3][column]);
    let r = sum4(a, b, c, d);
    proof {
        let f = |lane: int| w@[lane].times(block256::embed(m@[lane]@[column as int]));
        let s = sums::listed(4, f);
        assert(s[0] == a && s[1] == b && s[2] == c && s[3] == d);
    }
    r
}

/// The combination of all claimed values.
fn combine_claims(weights: &Vec<[Block256; 4]>, groups: &Vec<LaneClaim>, alpha: Ghost<Block256>) -> (claim:
    Block256)
    requires
        weights@.len() == groups@.len(),
        forall|a: int|
            0 <= a < weights@.len() ==> (#[trigger] weights@[a])@ == ragged_walk::lane_weights(
                alpha@,
                a,
            ),
    ensures
        claim == ragged_walk::combined_claim(alpha@, lane_views(groups@)),
{
    let ghost views = lane_views(groups@);
    let ghost f = |a: int|
        ragged_walk::region_claim(ragged_walk::lane_weights(alpha@, a), views[a].values);
    let mut sum = Block256::zero();
    let mut a: usize = 0;
    proof {
        sums::lemma_sum_step(0, f);
    }
    while a < groups.len()
        invariant
            a <= groups.len(),
            weights@.len() == groups@.len(),
            views == lane_views(groups@),
            f == (|b: int|
                ragged_walk::region_claim(ragged_walk::lane_weights(alpha@, b), views[b].values)),
            forall|b: int|
                0 <= b < weights@.len() ==> (#[trigger] weights@[b])@ == ragged_walk::lane_weights(
                    alpha@,
                    b,
                ),
            sum == sums::sum_to(a as nat, f),
        decreases groups.len() - a,
    {
        let w = weights[a];
        let v = groups[a].values;
        let (x0, x1, x2, x3) = (w[0] * v[0], w[1] * v[1], w[2] * v[2], w[3] * v[3]);
        let part = sum4(x0, x1, x2, x3);
        proof {
            assert(weights@[a as int]@ == ragged_walk::lane_weights(alpha@, a as int));
            let lw = ragged_walk::lane_weights(alpha@, a as int);
            let vals = views[a as int].values;
            assert(vals == v@);
            let s = sums::listed(4, |lane: int| lw[lane].times(vals[lane]));
            assert(s[0] == x0 && s[1] == x1 && s[2] == x2 && s[3] == x3);
            sums::lemma_sum_step(a as nat, f);
        }
        sum = sum + part;
        a = a + 1;
    }
    sum
}

/// The coefficients of `(a + b X)^7`.
fn sbox7_affine(a: Block256, b: Block256) -> (out: [Block256; 8])
    ensures
        out@ == ragged_model::affine7(a, b),
{
    let a2 = a.square();
    let b2 = b.square();
    let a4 = a2.square();
    let b4 = b2.square();
    let aa = a2 * a;
    let ab = a2 * b;
    let ba = b2 * a;
    let bb = b2 * b;
    let out = [a4 * aa, a4 * ab, a4 * ba, a4 * bb, b4 * aa, b4 * ab, b4 * ba, b4 * bb];
    proof {
        assert(out@ =~= ragged_model::affine7(a, b));
    }
    out
}

/// The coefficients of the term of a lane whose value is `base + delta X`.
fn lane_coefficients(
    permutation: &Poseidon2bPermutation,
    round: usize,
    lane: usize,
    base: Block256,
    delta: Block256,
) -> (out: [Block256; 8])
    requires
        round < 66,
        lane < 4,
    ensures
        out@ == ragged_model::lane_poly(*permutation, round as int, lane as int, base, delta),
{
    if lane == 0 || round_kind(round) == RoundKind::Full {
        let constant = Block256::from_base(permutation.round_constants[lane][round]);
        sbox7_affine(base + constant, delta)
    } else {
        let zero = Block256::zero();
        let out = [base, delta, zero, zero, zero, zero, zero, zero];
        proof {
            assert(out@ =~= ragged_model::lane_poly(
                *permutation,
                round as int,
                lane as int,
                base,
                delta,
            ));
        }
        out
    }
}

/// The weighted sum of one coefficient of four lane polynomials.
fn combine_lanes(
    columns: &[Block256; 4],
    l0: &[Block256; 8],
    l1: &[Block256; 8],
    l2: &[Block256; 8],
    l3: &[Block256; 8],
    j: usize,
) -> (r: Block256)
    requires
        j < 8,
    ensures
        r == columns@[0].times(l0@[j as int]).plus(columns@[1].times(l1@[j as int])).plus(
            columns@[2].times(l2@[j as int]),
        ).plus(columns@[3].times(l3@[j as int])),
{
    columns[0] * l0[j] + columns[1] * l1[j] + columns[2] * l2[j] + columns[3] * l3[j]
}

/// The coefficients of the weighted relation on the row `base + delta X`.
fn relation_coefficients(
    permutation: &Poseidon2bPermutation,
    round: usize,
    columns: &[Block256; 4],
    base: &[Block256; 4],
    delta: &[Block256; 4],
) -> (out: [Block256; 8])
    requires
        round < 66,
    ensures
        out@ == ragged_model::relation_poly(
            *permutation,
            round as int,
            columns@,
            base@,
            delta@,
            4,
        ),
{
    let l0 = lane_coefficients(permutation, round, 0, base[0], delta[0]);
    let l1 = lane_coefficients(permutation, round, 1, base[1], delta[1]);
    let l2 = lane_coefficients(permutation, round, 2, base[2], delta[2]);
    let l3 = lane_coefficients(permutation, round, 3, base[3], delta[3]);
    let out = [
        combine_lanes(columns, &l0, &l1, &l2, &l3, 0),
        combine_lanes(columns, &l0, &l1, &l2, &l3, 1),
        combine_lanes(columns, &l0, &l1, &l2, &l3, 2),
        combine_lanes(columns, &l0, &l1, &l2, &l3, 3),
        combine_lanes(columns, &l0, &l1, &l2, &l3, 4),
        combine_lanes(columns, &l0, &l1, &l2, &l3, 5),
        combine_lanes(columns, &l0, &l1, &l2, &l3, 6),
        combine_lanes(columns, &l0, &l1, &l2, &l3, 7),
    ];
    proof {
        let (p, r, c, b, d) = (*permutation, round as int, columns@, base@, delta@);
        let r0 = ragged_model::relation_poly(p, r, c, b, d, 0);
        let r1 = ragged_model::relation_poly(p, r, c, b, d, 1);
        let r2 = ragged_model::relation_poly(p, r, c, b, d, 2);
        let r3 = ragged_model::relation_poly(p, r, c, b, d, 3);
        let r4 = ragged_model::relation_poly(p, r, c, b, d, 4);
        assert(r1 == sums::seq_plus(r0, sums::seq_scale(c[0], l0@)));
        assert(r2 == sums::seq_plus(r1, sums::seq_scale(c[1], l1@)));
        assert(r3 == sums::seq_plus(r2, sums::seq_scale(c[2], l2@)));
        assert(r4 == sums::seq_plus(r3, sums::seq_scale(c[3], l3@)));
        assert forall|j: int| 0 <= j < 8 implies #[trigger] out@[j] == r4[j] by {
            algebra::lemma_neutral_left(c[0].times(l0@[j]));
        }
        assert(out@ =~= r4);
    }
    out
}

/// The coefficients of `(eb + ed X)` times a polynomial with eight coefficients.
fn convolve_affine(relation: &[Block256; 8], eb: Block256, ed: Block256) -> (out: [Block256; 9])
    ensures
        out@ == poly::poly_times_affine(relation@, eb, ed),
{
    let q = relation;
    let out = [
        eb * q[0],
        eb * q[1] + ed * q[0],
        eb * q[2] + ed * q[1],
        eb * q[3] + ed * q[2],
        eb * q[4] + ed * q[3],
        eb * q[5] + ed * q[4],
        eb * q[6] + ed * q[5],
        eb * q[7] + ed * q[6],
        ed * q[7],
    ];
    proof {
        let want = poly::poly_times_affine(relation@, eb, ed);
        let nil = Block256::nil();
        assert forall|j: int| 0 <= j < 9 implies #[trigger] out@[j] == want[j] by {
            algebra::lemma_times_nil(eb);
            algebra::lemma_times_nil(ed);
            Block256::plus_laws(eb.times(relation@[0]), nil, nil);
            algebra::lemma_neutral_left(ed.times(relation@[7]));
        }
        assert(out@ =~= want);
    }
    out
}

/// The region that a table of weights and a table of rows stand for.
pub open spec fn region_of(eq: Seq<Block256>, rows: Seq<[Block256; 4]>) -> Region {
    Region { eq, rows: array_seqs(rows) }
}

/// The contribution of the pair `y` of rows of a region to one of its own coordinates.
fn pair_contribution(
    permutation: &Poseidon2bPermutation,
    round: usize,
    eq: &Vec<Block256>,
    columns: &[Block256; 4],
    rows: &Vec<[Block256; 4]>,
    y: usize,
) -> (out: [Block256; 9])
    requires
        round < 66,
        eq@.len() == rows@.len(),
        2 * y + 1 < rows@.len(),
    ensures
        out@ == ragged_model::native_pair(
            *permutation,
            round as int,
            columns@,
            region_of(eq@, rows@),
            y as int,
        ),
{
    let len: usize = rows.len();
    assert(2 * y + 1 < len);
    let eb = eq[2 * y];
    let ed = eb + eq[2 * y + 1];
    let lo = rows[2 * y];
    let hi = rows[2 * y + 1];
    let delta = [lo[0] + hi[0], lo[1] + hi[1], lo[2] + hi[2], lo[3] + hi[3]];
    proof {
        assert(delta@ =~= ragged_model::row_delta(lo@, hi@));
    }
    let relation = relation_coefficients(permutation, round, columns, &lo, &delta);
    convolve_affine(&relation, eb, ed)
}

/// The nine column sums of a list of coefficient vectors.
fn sum_coefficients(rows: &Vec<[Block256; 9]>) -> (out: [Block256; 9])
    ensures
        forall|j: int| 0 <= j < 9 ==> #[trigger] out@[j] == sums::total(tables::column(rows@, j)),
{
    [
        sum_column(rows, 0),
        sum_column(rows, 1),
        sum_column(rows, 2),
        sum_column(rows, 3),
        sum_column(rows, 4),
        sum_column(rows, 5),
        sum_column(rows, 6),
        sum_column(rows, 7),
        sum_column(rows, 8),
    ]
}

proof fn lemma_pairs_sum(
    permutation: Poseidon2bPermutation,
    round: int,
    c: Seq<Block256>,
    region: Region,
    rows: Seq<[Block256; 9]>,
    m: nat,
    j: int,
)
    requires
        m <= rows.len(),
        2 * rows.len() <= region.rows.len(),
        region.eq.len() == region.rows.len(),
        0 <= j < 9,
        forall|y: int|
            0 <= y < rows.len() ==> (#[trigger] rows[y])@ == ragged_model::native_pair(
                permutation,
                round,
                c,
                region,
                y,
            ),
    ensures
        ragged_model::native_pairs(permutation, round, c, region, m).len() == 9,
        ragged_model::native_pairs(permutation, round, c, region, m)[j] == sums::total(
            tables::column(rows, j).take(m as int),
        ),
    decreases m,
{
    let all = tables::column(rows, j);
    if m == 0 {
        assert(all.take(0) =~= Seq::empty());
    } else {
        lemma_pairs_sum(permutation, round, c, region, rows, (m - 1) as nat, j);
        sums::lemma_total_take(all, m - 1);
        assert(rows[m - 1]@ == ragged_model::native_pair(permutation, round, c, region, m - 1));
    }
}

/// The contribution of a region to a coordinate.
fn round_contribution(
    permutation: &Poseidon2bPermutation,
    round: usize,
    native: bool,
    eq: &Vec<Block256>,
    columns: &[Block256; 4],
    rows: &Vec<[Block256; 4]>,
) -> (out: [Block256; 9])
    requires
        round < 66,
        eq@.len() == rows@.len(),
        rows@.len() > 0,
    ensures
        out@ == ragged_model::region_poly(
            *permutation,
            round as int,
            columns@,
            region_of(eq@, rows@),
            native,
        ),
{
    if native {
        let half: usize = rows.len() / 2;
        let pair = |y: usize| -> (out: [Block256; 9])
            requires
                round < 66,
                y < half,
                half == rows@.len() / 2,
                eq@.len() == rows@.len(),
            ensures
                out@ == ragged_model::native_pair(
                    *permutation,
                    round as int,
                    columns@,
                    region_of(eq@, rows@),
                    y as int,
                ),
            { pair_contribution(permutation, round, eq, columns, rows, y) };
        let parts: Vec<[Block256; 9]> = map_range(half, 4, pair);
        let out = sum_coefficients(&parts);
        proof {
            let region = region_of(eq@, rows@);
            let want = ragged_model::native_pairs(
                *permutation,
                round as int,
                columns@,
                region,
                half as nat,
            );
            lemma_pairs_sum(
                *permutation,
                round as int,
                columns@,
                region,
                parts@,
                half as nat,
                0,
            );
            assert forall|j: int| 0 <= j < 9 implies #[trigger] out@[j] == want[j] by {
                lemma_pairs_sum(
                    *permutation,
                    round as int,
                    columns@,
                    region,
                    parts@,
                    half as nat,
                    j,
                );
                assert(tables::column(parts@, j).take(half as int) =~= tables::column(parts@, j));
            }
            assert(out@ =~= want);
        }
        out
    } else {
        let zero = Block256::zero();
        let delta = [zero, zero, zero, zero];
        proof {
            assert(delta@ =~= ragged_model::zero_row());
        }
        let base = rows[0];
        let relation = relation_coefficients(permutation, round, columns, &base, &delta);
        convolve_affine(&relation, eq[0], eq[0])
    }
}

/// Fix the lowest variable of a table of weights.
fn fold_scalars(values: &Vec<Block256>, x: Block256) -> (out: Vec<Block256>)
    ensures
        out@ == mle::fold_low(values@, x),
{
    let half: usize = values.len() / 2;
    let step = |y: usize| -> (r: Block256)
        requires
            y < half,
            half == values@.len() / 2,
        ensures
            r == mle::lerp(values@[2 * y], values@[2 * y + 1], x),
        { interpolate_pair(values[2 * y], values[2 * y + 1], x) };
    let out: Vec<Block256> = map_range(half, 64, step);
    proof {
        assert(out@ =~= mle::fold_low(values@, x));
    }
    out
}

/// The affine function through two values, at `x`.
fn interpolate_pair(lo: Block256, hi: Block256, x: Block256) -> (r: Block256)
    ensures
        r == mle::lerp(lo, hi, x),
{
    lo + x * (lo + hi)
}

/// Fix the lowest variable of two adjacent rows.
fn interpolate_row(lo: &[Block256; 4], hi: &[Block256; 4], x: Block256) -> (row: [Block256; 4])
    ensures
        row@ == Seq::new(4, |lane: int| mle::lerp(lo@[lane], hi@[lane], x)),
{
    let row = [
        interpolate_pair(lo[0], hi[0], x),
        interpolate_pair(lo[1], hi[1], x),
        interpolate_pair(lo[2], hi[2], x),
        interpolate_pair(lo[3], hi[3], x),
    ];
    proof {
        assert(row@ =~= Seq::new(4, |lane: int| mle::lerp(lo@[lane], hi@[lane], x)));
    }
    row
}

/// Fix the lowest variable of a table of rows.
fn fold_states(rows: &Vec<[Block256; 4]>, x: Block256) -> (out: Vec<[Block256; 4]>)
    ensures
        array_seqs(out@) == ragged_model::fold_rows(array_seqs(rows@), x),
{
    let half: usize = rows.len() / 2;
    let step = |y: usize| -> (row: [Block256; 4])
        requires
            y < half,
            half == rows@.len() / 2,
        ensures
            row@ == Seq::new(
                4,
                |lane: int| mle::lerp(rows@[2 * y]@[lane], rows@[2 * y + 1]@[lane], x),
            ),
        { interpolate_row(&rows[2 * y], &rows[2 * y + 1], x) };
    let out: Vec<[Block256; 4]> = map_range(half, 16, step);
    proof {
        let want = ragged_model::fold_rows(array_seqs(rows@), x);
        assert forall|y: int| 0 <= y < half implies #[trigger] array_seqs(out@)[y] == want[y] by {
            assert(out@[y]@ =~= want[y]);
        }
        assert(array_seqs(out@) =~= want);
    }
    out
}

/// A degree-eight polynomial without its linear coefficient.
fn compress(full: &[Block256; 9]) -> (wire: [Block256; 8])
    ensures
        wire@ == ragged_walk::compress(full@),
{
    let wire = [full[0], full[2], full[3], full[4], full[5], full[6], full[7], full[8]];
    proof {
        assert(wire@ =~= ragged_walk::compress(full@));
    }
    wire
}

/// Base field rows as extension field rows.
fn embed_states(rows: &Vec<[Block128; 4]>) -> (out: Vec<[Block256; 4]>)
    ensures
        array_seqs(out@) == ragged_walk::embed_rows(row_seq(rows@)),
{
    let mut out: Vec<[Block256; 4]> = Vec::with_capacity(rows.len());
    let mut i: usize = 0;
    while i < rows.len()
        invariant
            i <= rows.len(),
            out@.len() == i,
            forall|k: int|
                0 <= k < i ==> (#[trigger] out@[k])@ == wide::embed_column(rows@[k]@),
        decreases rows.len() - i,
    {
        let row = rows[i];
        let wide_row = [
            Block256::from_base(row[0]),
            Block256::from_base(row[1]),
            Block256::from_base(row[2]),
            Block256::from_base(row[3]),
        ];
        proof {
            assert(wide_row@ =~= wide::embed_column(row@));
        }
        out.push(wide_row);
        i = i + 1;
    }
    proof {
        assert(array_seqs(out@) =~= ragged_walk::embed_rows(row_seq(rows@)));
    }
    out
}

/// Widths as mathematical numbers.
pub open spec fn width_seq(widths: Seq<usize>) -> Seq<nat> {
    Seq::new(widths.len(), |a: int| widths[a] as nat)
}

/// The regions that lists of tables stand for.
pub open spec fn regions_of(eqs: Seq<Vec<Block256>>, states: Seq<Vec<[Block256; 4]>>) -> Seq<Region> {
    Seq::new(eqs.len(), |a: int| region_of(eqs[a]@, states[a]@))
}

/// The rows of a list of tables.
pub open spec fn tables_of(states: Seq<Vec<[Block128; 4]>>) -> Seq<Seq<Seq<Block128>>> {
    Seq::new(states.len(), |a: int| row_seq(states[a]@))
}

/// Lists of four weights as sequences.
pub open spec fn columns_of(columns: Seq<[Block256; 4]>) -> Seq<Seq<Block256>> {
    array_seqs(columns)
}

proof fn lemma_walk_sum(
    permutation: Poseidon2bPermutation,
    round: int,
    cs: Seq<Seq<Block256>>,
    regions: Seq<Region>,
    widths: Seq<nat>,
    k: int,
    parts: Seq<[Block256; 9]>,
    m: nat,
    j: int,
)
    requires
        m <= parts.len(),
        parts.len() == regions.len(),
        0 <= j < 9,
        forall|a: int|
            0 <= a < parts.len() ==> (#[trigger] parts[a])@ == ragged_model::region_poly(
                permutation,
                round,
                cs[a],
                regions[a],
                k < widths[a],
            ),
    ensures
        ragged_model::walk_poly(permutation, round, cs, regions, widths, k, m).len() == 9,
        ragged_model::walk_poly(permutation, round, cs, regions, widths, k, m)[j] == sums::total(
            tables::column(parts, j).take(m as int),
        ),
    decreases m,
{
    let all = tables::column(parts, j);
    if m == 0 {
        assert(all.take(0) =~= Seq::empty());
    } else {
        lemma_walk_sum(permutation, round, cs, regions, widths, k, parts, (m - 1) as nat, j);
        sums::lemma_total_take(all, m - 1);
        assert(parts[m - 1]@ == ragged_model::region_poly(
            permutation,
            round,
            cs[m - 1],
            regions[m - 1],
            k < widths[m - 1],
        ));
    }
}

/// The coefficients of the round polynomial of a coordinate.
fn walk_coefficients(
    permutation: &Poseidon2bPermutation,
    round: usize,
    widths: &Vec<usize>,
    columns: &Vec<[Block256; 4]>,
    eqs: &Vec<Vec<Block256>>,
    states: &Vec<Vec<[Block256; 4]>>,
    coordinate: usize,
) -> (full: [Block256; 9])
    requires
        round < 66,
        columns@.len() == widths@.len(),
        eqs@.len() == widths@.len(),
        states@.len() == widths@.len(),
        ragged_model::walk_shape(
            regions_of(eqs@, states@),
            width_seq(widths@),
            coordinate as int,
        ),
    ensures
        full@ == ragged_model::walk_coeffs(
            *permutation,
            round as int,
            columns_of(columns@),
            regions_of(eqs@, states@),
            width_seq(widths@),
            coordinate as int,
        ),
{
    let ghost regions = regions_of(eqs@, states@);
    let ghost w = width_seq(widths@);
    let ghost cs = columns_of(columns@);
    let n: usize = widths.len();
    proof {
        assert forall|a: int| 0 <= a < n implies (#[trigger] eqs@[a])@.len() == states@[a]@.len()
            && eqs@[a]@.len() > 0 by {
            assert(ragged_model::region_shape(regions[a], w[a], coordinate as int));
            mle::lemma_cube_monotone(0, (w[a] - coordinate) as nat);
        }
    }
    let part = |a: usize| -> (out: [Block256; 9])
        requires
            a < widths@.len(),
            round < 66,
            columns@.len() == widths@.len(),
            eqs@.len() == widths@.len(),
            states@.len() == widths@.len(),
            eqs@[a as int]@.len() == states@[a as int]@.len(),
            eqs@[a as int]@.len() > 0,
        ensures
            out@ == ragged_model::region_poly(
                *permutation,
                round as int,
                columns@[a as int]@,
                region_of(eqs@[a as int]@, states@[a as int]@),
                coordinate < widths@[a as int],
            ),
        {
            round_contribution(
                permutation,
                round,
                coordinate < widths[a],
                &eqs[a],
                &columns[a],
                &states[a],
            )
        };
    let parts: Vec<[Block256; 9]> = map_range(n, 2, part);
    let full = sum_coefficients(&parts);
    proof {
        let want = ragged_model::walk_poly(
            *permutation,
            round as int,
            cs,
            regions,
            w,
            coordinate as int,
            n as nat,
        );
        lemma_walk_sum(
            *permutation,
            round as int,
            cs,
            regions,
            w,
            coordinate as int,
            parts@,
            n as nat,
            0,
        );
        assert forall|j: int| 0 <= j < 9 implies #[trigger] full@[j] == want[j] by {
            lemma_walk_sum(
                *permutation,
                round as int,
                cs,
                regions,
                w,
                coordinate as int,
                parts@,
                n as nat,
                j,
            );
            assert(tables::column(parts@, j).take(n as int) =~= tables::column(parts@, j));
        }
        assert(full@ =~= want);
        ragged_model::lemma_walk_coeffs(
            *permutation,
            round as int,
            cs,
            regions,
            w,
            coordinate as int,
            Block256::nil(),
        );
    }
    full
}

/// Fix a coordinate of all regions.
fn fold_regions(
    widths: &Vec<usize>,
    eqs: &Vec<Vec<Block256>>,
    states: &Vec<Vec<[Block256; 4]>>,
    coordinate: usize,
    x: Block256,
) -> (out: (Vec<Vec<Block256>>, Vec<Vec<[Block256; 4]>>))
    requires
        eqs@.len() == widths@.len(),
        states@.len() == widths@.len(),
        ragged_model::walk_shape(
            regions_of(eqs@, states@),
            width_seq(widths@),
            coordinate as int,
        ),
    ensures
        out.0@.len() == widths@.len(),
        out.1@.len() == widths@.len(),
        regions_of(out.0@, out.1@) == ragged_model::fold_walk(
            regions_of(eqs@, states@),
            width_seq(widths@),
            coordinate as int,
            x,
        ),
{
    let ghost regions = regions_of(eqs@, states@);
    let ghost w = width_seq(widths@);
    let ghost want = ragged_model::fold_walk(regions, w, coordinate as int, x);
    let n: usize = widths.len();
    let mut new_eqs: Vec<Vec<Block256>> = Vec::with_capacity(n);
    let mut new_states: Vec<Vec<[Block256; 4]>> = Vec::with_capacity(n);
    let mut a: usize = 0;
    while a < n
        invariant
            a <= n,
            n == widths@.len(),
            eqs@.len() == n,
            states@.len() == n,
            regions == regions_of(eqs@, states@),
            w == width_seq(widths@),
            want == ragged_model::fold_walk(regions, w, coordinate as int, x),
            ragged_model::walk_shape(regions, w, coordinate as int),
            new_eqs@.len() == a,
            new_states@.len() == a,
            forall|k: int|
                0 <= k < a ==> region_of((#[trigger] new_eqs@[k])@, new_states@[k]@) == want[k],
        decreases n - a,
    {
        proof {
            assert(ragged_model::region_shape(regions[a as int], w[a as int], coordinate as int));
        }
        if coordinate < widths[a] {
            let e = fold_scalars(&eqs[a], x);
            let s = fold_states(&states[a], x);
            new_eqs.push(e);
            new_states.push(s);
        } else {
            let gated = eqs[a][0] * (Block256::one() + x);
            let mut e: Vec<Block256> = Vec::with_capacity(1);
            e.push(gated);
            proof {
                assert(e@ =~= seq![regions[a as int].eq[0].times(Block256::unit().plus(x))]);
            }
            new_eqs.push(e);
            new_states.push(copied(&states[a]));
        }
        a = a + 1;
    }
    proof {
        assert(regions_of(new_eqs@, new_states@) =~= want);
    }
    (new_eqs, new_states)
}

/// The weights of the terms of all regions.
fn all_column_weights(
    permutation: &Poseidon2bPermutation,
    round: usize,
    weights: &Vec<[Block256; 4]>,
    alpha: Ghost<Block256>,
) -> (columns: Vec<[Block256; 4]>)
    requires
        forall|a: int|
            0 <= a < weights@.len() ==> (#[trigger] weights@[a])@ == ragged_walk::lane_weights(
                alpha@,
                a,
            ),
    ensures
        columns@.len() == weights@.len(),
        columns_of(columns@) == ragged_walk::layer_columns(
            *permutation,
            round as int,
            alpha@,
            weights@.len(),
        ),
{
    let mut columns: Vec<[Block256; 4]> = Vec::with_capacity(weights.len());
    let mut a: usize = 0;
    while a < weights.len()
        invariant
            a <= weights.len(),
            columns@.len() == a,
            forall|k: int|
                0 <= k < weights@.len() ==> (#[trigger] weights@[k])@ == ragged_walk::lane_weights(
                    alpha@,
                    k,
                ),
            forall|k: int|
                0 <= k < a ==> (#[trigger] columns@[k])@ == ragged_walk::column_weights(
                    *permutation,
                    round as int,
                    ragged_walk::lane_weights(alpha@, k),
                ),
        decreases weights.len() - a,
    {
        proof {
            assert(weights@[a as int]@ == ragged_walk::lane_weights(alpha@, a as int));
        }
        columns.push(column_weights(permutation, round, &weights[a]));
        a = a + 1;
    }
    proof {
        assert(columns_of(columns@) =~= ragged_walk::layer_columns(
            *permutation,
            round as int,
            alpha@,
            weights@.len(),
        ));
    }
    columns
}

/// The tables by which the regions start a layer.
fn start_tables(groups: &Vec<LaneClaim>, base_states: &Vec<Vec<[Block128; 4]>>) -> (out: (
    Vec<Vec<Block256>>,
    Vec<Vec<[Block256; 4]>>,
))
    requires
        groups@.len() == base_states@.len(),
        forall|a: int|
            0 <= a < groups@.len() ==> mle::cube((#[trigger] groups@[a]).point@.len())
                <= usize::MAX,
    ensures
        out.0@.len() == groups@.len(),
        out.1@.len() == groups@.len(),
        regions_of(out.0@, out.1@) == ragged_walk::start_regions(
            tables_of(base_states@),
            lane_views(groups@),
        ),
{
    let ghost want = ragged_walk::start_regions(tables_of(base_states@), lane_views(groups@));
    let n: usize = groups.len();
    let mut eqs: Vec<Vec<Block256>> = Vec::with_capacity(n);
    let mut states: Vec<Vec<[Block256; 4]>> = Vec::with_capacity(n);
    let mut a: usize = 0;
    while a < n
        invariant
            a <= n,
            n == groups@.len(),
            groups@.len() == base_states@.len(),
            want == ragged_walk::start_regions(tables_of(base_states@), lane_views(groups@)),
            forall|k: int|
                0 <= k < groups@.len() ==> mle::cube((#[trigger] groups@[k]).point@.len())
                    <= usize::MAX,
            eqs@.len() == a,
            states@.len() == a,
            forall|k: int|
                0 <= k < a ==> region_of((#[trigger] eqs@[k])@, states@[k]@) == want[k],
        decreases n - a,
    {
        proof {
            assert(mle::cube(groups@[a as int].point@.len()) <= usize::MAX);
        }
        eqs.push(eq_ind_partial_eval(&groups[a].point));
        states.push(embed_states(&base_states[a]));
        a = a + 1;
    }
    proof {
        assert(regions_of(eqs@, states@) =~= want);
    }
    (eqs, states)
}

/// Absorb rows in order.
fn absorb_values<C: FiatShamir<Block128>>(
    channel: &mut WideChannel<C>,
    rows: &Vec<[Block256; 4]>,
)
    ensures
        final(channel).state() == ragged_walk::absorb_rows::<WideChannel<C>>(
            old(channel).state(),
            array_seqs(rows@),
        ),
{
    let ghost start = channel.state();
    let ghost all = array_seqs(rows@);
    let mut i: usize = 0;
    while i < rows.len()
        invariant
            i <= rows.len(),
            all == array_seqs(rows@),
            channel.state() == ragged_walk::absorb_rows::<WideChannel<C>>(
                start,
                all.take(i as int),
            ),
        decreases rows.len() - i,
    {
        channel.absorb_slice(rows[i].as_slice());
        proof {
            assert(all.take(i + 1).drop_last() =~= all.take(i as int));
        }
        i = i + 1;
    }
    proof {
        assert(all.take(i as int) =~= all);
    }
}

/// The claims on the next layer.
fn make_groups(widths: &Vec<usize>, point: &Vec<Block256>, next: &Vec<[Block256; 4]>) -> (groups: Vec<
    LaneClaim,
>)
    requires
        next@.len() == widths@.len(),
        forall|a: int| 0 <= a < widths@.len() ==> #[trigger] widths@[a] <= point@.len(),
    ensures
        lane_views(groups@) == ragged_walk::next_groups(
            width_seq(widths@),
            point@,
            array_seqs(next@),
        ),
{
    let ghost want = ragged_walk::next_groups(width_seq(widths@), point@, array_seqs(next@));
    let mut groups: Vec<LaneClaim> = Vec::with_capacity(next.len());
    let mut a: usize = 0;
    while a < next.len()
        invariant
            a <= next.len(),
            next@.len() == widths@.len(),
            forall|k: int| 0 <= k < widths@.len() ==> #[trigger] widths@[k] <= point@.len(),
            want == ragged_walk::next_groups(width_seq(widths@), point@, array_seqs(next@)),
            groups@.len() == a,
            forall|k: int| 0 <= k < a ==> (#[trigger] groups@[k])@ == want[k],
        decreases next.len() - a,
    {
        proof {
            assert(widths@[a as int] <= point@.len());
        }
        let own = prefix(point, widths[a]);
        groups.push(LaneClaim { point: own, values: next[a] });
        a = a + 1;
    }
    proof {
        assert(lane_views(groups@) =~= want);
    }
    groups
}

/// The first `n` elements.
fn prefix(point: &Vec<Block256>, n: usize) -> (out: Vec<Block256>)
    requires
        n <= point@.len(),
    ensures
        out@ == point@.take(n as int),
{
    let mut out: Vec<Block256> = Vec::with_capacity(n);
    let mut i: usize = 0;
    while i < n
        invariant
            i <= n <= point@.len(),
            out@ == point@.take(i as int),
        decreases n - i,
    {
        out.push(point[i]);
        i = i + 1;
        proof {
            assert(out@ =~= point@.take(i as int));
        }
    }
    out
}

/// One layer of the prover: reduce claims on the outputs of `round` to claims on its inputs.
fn prove_one_layer<C: FiatShamir<Block128>>(
    permutation: &Poseidon2bPermutation,
    round: usize,
    widths: &Vec<usize>,
    max_width: usize,
    groups: &Vec<LaneClaim>,
    base_states: &Vec<Vec<[Block128; 4]>>,
    channel: &mut WideChannel<C>,
) -> (result: (RaggedLayerProof, Vec<LaneClaim>))
    requires
        round < 66,
        max_width == ragged_walk::max_of(width_seq(widths@)),
        base_states@.len() == widths@.len(),
        ragged_walk::groups_shape(width_seq(widths@), lane_views(groups@)),
        ragged_walk::tables_shape(width_seq(widths@), tables_of(base_states@)),
    ensures
        ({
            let end = ragged_walk::prove_layer::<WideChannel<C>>(
                *permutation,
                round as int,
                width_seq(widths@),
                tables_of(base_states@),
                lane_views(groups@),
                old(channel).state(),
            );
            &&& result.0@ == end.layer
            &&& lane_views(result.1@) == end.groups
            &&& final(channel).state() == end.state
        }),
{
    let ghost w = width_seq(widths@);
    let ghost views = lane_views(groups@);
    let ghost rows = tables_of(base_states@);
    let ghost entry = channel.state();
    proof {
        reveal(ragged_walk::prove_layer);
        ragged_walk::lemma_start_shape(w, rows, views);
    }
    let n: usize = widths.len();
    let alpha = channel.squeeze();
    let weights = lane_weights(alpha, n);
    let columns = all_column_weights(permutation, round, &weights, Ghost(alpha));
    proof {
        assert forall|a: int| 0 <= a < groups@.len() implies mle::cube(
            (#[trigger] groups@[a]).point@.len(),
        ) <= usize::MAX by {
            assert(views[a].point.len() == w[a]);
            assert(ragged_walk::rows_shape(rows[a], w[a]));
            assert(rows[a].len() == base_states@[a].len());
        }
    }
    let (mut eqs, mut states) = start_tables(groups, base_states);
    let ghost start = channel.state();
    let ghost cs = ragged_walk::layer_columns(*permutation, round as int, alpha, n as nat);
    let ghost regions = ragged_walk::start_regions(rows, views);
    let mut round_coeffs: Vec<[Block256; 8]> = Vec::with_capacity(max_width);
    let mut point: Vec<Block256> = Vec::with_capacity(max_width);
    proof {
        assert(array_seqs(round_coeffs@) =~= Seq::empty());
    }
    let mut coordinate: usize = 0;
    while coordinate < max_width
        invariant
            coordinate <= max_width,
            round < 66,
            n == widths@.len(),
            w == width_seq(widths@),
            columns@.len() == n,
            columns_of(columns@) == cs,
            eqs@.len() == n,
            states@.len() == n,
            ragged_model::walk_shape(regions, w, 0),
            ({
                let now = ragged_walk::layer_run::<WideChannel<C>>(
                    *permutation,
                    round as int,
                    cs,
                    regions,
                    w,
                    start,
                    coordinate as nat,
                );
                &&& now.wires == array_seqs(round_coeffs@)
                &&& now.point == point@
                &&& now.regions == regions_of(eqs@, states@)
                &&& now.state == channel.state()
            }),
        decreases max_width - coordinate,
    {
        let ghost before = round_coeffs@;
        proof {
            ragged_walk::lemma_run_shape::<WideChannel<C>>(
                *permutation,
                round as int,
                cs,
                regions,
                w,
                start,
                coordinate as nat,
            );
        }
        let full = walk_coefficients(
            permutation,
            round,
            widths,
            &columns,
            &eqs,
            &states,
            coordinate,
        );
        let wire = compress(&full);
        channel.absorb_slice(wire.as_slice());
        let x = channel.squeeze();
        let (new_eqs, new_states) = fold_regions(widths, &eqs, &states, coordinate, x);
        eqs = new_eqs;
        states = new_states;
        round_coeffs.push(wire);
        point.push(x);
        proof {
            assert(array_seqs(round_coeffs@) =~= array_seqs(before).push(wire@));
        }
        coordinate = coordinate + 1;
    }
    proof {
        ragged_walk::lemma_run_shape::<WideChannel<C>>(
            *permutation,
            round as int,
            cs,
            regions,
            w,
            start,
            max_width as nat,
        );
    }
    let ghost all = ragged_walk::prove_run::<WideChannel<C>>(
        *permutation,
        round as int,
        w,
        rows,
        views,
        entry,
    );
    let mut next_values: Vec<[Block256; 4]> = Vec::with_capacity(n);
    let mut a: usize = 0;
    while a < n
        invariant
            a <= n,
            n == widths@.len(),
            eqs@.len() == n,
            states@.len() == n,
            w == width_seq(widths@),
            all.regions == regions_of(eqs@, states@),
            ragged_model::walk_shape(all.regions, w, max_width as int),
            max_width == ragged_walk::max_of(w),
            next_values@.len() == a,
            forall|k: int|
                0 <= k < a ==> (#[trigger] next_values@[k])@ == all.regions[k].rows[0],
        decreases n - a,
    {
        proof {
            ragged_walk::lemma_max(w, a as int);
            assert(ragged_model::region_shape(
                all.regions[a as int],
                w[a as int],
                max_width as int,
            ));
        }
        next_values.push(states[a][0]);
        a = a + 1;
    }
    proof {
        assert(array_seqs(next_values@) =~= ragged_walk::sent_values(all.regions));
        assert forall|k: int| 0 <= k < widths@.len() implies #[trigger] widths@[k] <= point@.len() by {
            ragged_walk::lemma_max(w, k);
            assert(w[k] == widths@[k]);
        }
    }
    absorb_values(channel, &next_values);
    let next_groups = make_groups(widths, &point, &next_values);
    (RaggedLayerProof { round_coeffs, next_values }, next_groups)
}

/// The evaluation of a polynomial with nine coefficients.
fn horner(coefficients: &[Block256; 9], x: Block256) -> (value: Block256)
    ensures
        value == poly::poly_eval(coefficients@, x),
{
    let ghost c = coefficients@;
    let mut value = Block256::zero();
    let mut i: usize = 9;
    proof {
        assert(c.skip(9) =~= Seq::empty());
    }
    while i > 0
        invariant
            i <= 9,
            c == coefficients@,
            value == poly::poly_eval(c.skip(i as int), x),
        decreases i,
    {
        i = i - 1;
        proof {
            assert(c.skip(i as int).drop_first() =~= c.skip(i + 1));
            Block256::times_laws(value, x, x);
            Block256::plus_laws(value.times(x), c[i as int], x);
        }
        value = value * x + coefficients[i];
    }
    proof {
        assert(c.skip(0) =~= c);
    }
    value
}

/// The polynomial with the coefficients `wire` whose values at zero and one add up to `claim`.
fn reconstruct(wire: &[Block256; 8], claim: Block256) -> (full: [Block256; 9])
    ensures
        full@ == ragged_walk::reconstruct(wire@, claim),
{
    let ghost rest = wire@.skip(1);
    let mut linear = claim;
    let mut i: usize = 1;
    proof {
        assert(rest.take(0) =~= Seq::empty());
        Block256::plus_laws(claim, Block256::nil(), Block256::nil());
    }
    while i < 8
        invariant
            1 <= i <= 8,
            rest == wire@.skip(1),
            linear == claim.plus(sums::total(rest.take(i - 1))),
        decreases 8 - i,
    {
        proof {
            sums::lemma_total_take(rest, i - 1);
            Block256::plus_laws(claim, sums::total(rest.take(i - 1)), rest[i - 1]);
        }
        linear = linear + wire[i];
        i = i + 1;
    }
    let full = [
        wire[0],
        linear,
        wire[1],
        wire[2],
        wire[3],
        wire[4],
        wire[5],
        wire[6],
        wire[7],
    ];
    proof {
        assert(rest.take(7) =~= rest);
        assert(full@ =~= ragged_walk::reconstruct(wire@, claim));
    }
    full
}

/// The S-box `x^7`.
fn sbox7_wide(value: Block256) -> (r: Block256)
    ensures
        r == permutation::power7(value),
{
    let square = value.square();
    let fourth = square.square();
    value * square * fourth
}

/// The term of a lane.
fn layer_term(permutation: &Poseidon2bPermutation, round: usize, lane: usize, value: Block256) -> (r:
    Block256)
    requires
        round < 66,
        lane < 4,
    ensures
        r == ragged_model::term(*permutation, round as int, lane as int, value),
{
    if lane == 0 || round_kind(round) == RoundKind::Full {
        sbox7_wide(value + Block256::from_base(permutation.round_constants[lane][round]))
    } else {
        value
    }
}

/// The weighted sum of the terms of a row.
fn weighted_terms(
    permutation: &Poseidon2bPermutation,
    round: usize,
    columns: &[Block256; 4],
    values: &[Block256; 4],
) -> (r: Block256)
    requires
        round < 66,
    ensures
        r == ragged_model::relation(*permutation, round as int, columns@, values@),
{
    let a = columns[0] * layer_term(permutation, round, 0, values[0]);
    let b = columns[1] * layer_term(permutation, round, 1, values[1]);
    let c = columns[2] * layer_term(permutation, round, 2, values[2]);
    let d = columns[3] * layer_term(permutation, round, 3, values[3]);
    let r = sum4(a, b, c, d);
    proof {
        let f = |lane: int|
            columns@[lane].times(
                ragged_model::term(*permutation, round as int, lane, values@[lane]),
            );
        let s = sums::listed(4, f);
        assert(s[0] == a && s[1] == b && s[2] == c && s[3] == d);
    }
    r
}

/// The product of `1 + x` over the elements from position `start` on.
fn high_gate(point: &Vec<Block256>, start: usize) -> (r: Block256)
    requires
        start <= point@.len(),
    ensures
        r == ragged_walk::gate(point@.skip(start as int)),
{
    let ghost rest = point@.skip(start as int);
    let mut acc = Block256::one();
    let mut i: usize = start;
    while i < point.len()
        invariant
            start <= i <= point@.len(),
            rest == point@.skip(start as int),
            acc == ragged_walk::gate(rest.take(i - start)),
        decreases point.len() - i,
    {
        proof {
            assert(rest.take(i - start + 1).drop_last() =~= rest.take(i - start));
        }
        acc = acc * (Block256::one() + point[i]);
        i = i + 1;
    }
    proof {
        assert(rest.take(i - start) =~= rest);
    }
    acc
}

/// Whether the points of the claims have the given widths, none above `n`.
spec fn claims_within(groups: Seq<LaneClaim>, widths: Seq<usize>, n: nat) -> bool {
    forall|a: int|
        0 <= a < groups.len() ==> (#[trigger] groups[a]).point@.len() == widths[a] && widths[a] <= n
}

/// What the last claim of a layer has to be, given the values of the next layer.
fn expected_claim(
    permutation: &Poseidon2bPermutation,
    round: usize,
    columns: &Vec<[Block256; 4]>,
    widths: &Vec<usize>,
    groups: &Vec<LaneClaim>,
    point: &Vec<Block256>,
    next: &Vec<[Block256; 4]>,
) -> (expected: Block256)
    requires
        round < 66,
        columns@.len() == groups@.len(),
        widths@.len() == groups@.len(),
        next@.len() == groups@.len(),
        claims_within(groups@, widths@, point@.len()),
    ensures
        expected == ragged_walk::expected_claim(
            *permutation,
            round as int,
            columns_of(columns@),
            width_seq(widths@),
            lane_views(groups@),
            point@,
            array_seqs(next@),
        ),
{
    let ghost cs = columns_of(columns@);
    let ghost w = width_seq(widths@);
    let ghost views = lane_views(groups@);
    let ghost nexts = array_seqs(next@);
    let ghost f = |a: int|
        mle::eq_product(views[a].point, point@.take(w[a] as int)).times(
            ragged_walk::gate(point@.skip(w[a] as int)),
        ).times(ragged_model::relation(*permutation, round as int, cs[a], nexts[a]));
    let mut expected = Block256::zero();
    let mut a: usize = 0;
    proof {
        sums::lemma_sum_step(0, f);
    }
    while a < groups.len()
        invariant
            a <= groups.len(),
            round < 66,
            columns@.len() == groups@.len(),
            widths@.len() == groups@.len(),
            next@.len() == groups@.len(),
            cs == columns_of(columns@),
            w == width_seq(widths@),
            views == lane_views(groups@),
            nexts == array_seqs(next@),
            f == (|b: int|
                mle::eq_product(views[b].point, point@.take(w[b] as int)).times(
                    ragged_walk::gate(point@.skip(w[b] as int)),
                ).times(ragged_model::relation(*permutation, round as int, cs[b], nexts[b]))),
            claims_within(groups@, widths@, point@.len()),
            expected == sums::sum_to(a as nat, f),
        decreases groups.len() - a,
    {
        proof {
            assert(groups@[a as int].point@.len() == widths@[a as int]);
            sums::lemma_sum_step(a as nat, f);
        }
        let own = prefix(point, widths[a]);
        let aligned = eq_ind(&groups[a].point, &own) * high_gate(point, widths[a]);
        let dot = weighted_terms(permutation, round, &columns[a], &next[a]);
        expected = expected + aligned * dot;
        a = a + 1;
    }
    expected
}

/// One layer of the verifier: the claims on the next layer, if the layer is accepted.
fn verify_one_layer<C: FiatShamir<Block128>>(
    permutation: &Poseidon2bPermutation,
    round: usize,
    widths: &Vec<usize>,
    max_width: usize,
    groups: &Vec<LaneClaim>,
    layer: &RaggedLayerProof,
    channel: &mut WideChannel<C>,
) -> (result: Option<Vec<LaneClaim>>)
    requires
        round < 66,
        max_width == ragged_walk::max_of(width_seq(widths@)),
        ragged_walk::groups_shape(width_seq(widths@), lane_views(groups@)),
        layer@.wires.len() == max_width,
        layer@.next.len() == widths@.len(),
    ensures
        ({
            let w = width_seq(widths@);
            let views = lane_views(groups@);
            let state = old(channel).state();
            let end = ragged_walk::verify_layer::<WideChannel<C>>(w, views, layer@, state);
            &&& result is Some <==> ragged_walk::layer_accepted::<WideChannel<C>>(
                *permutation,
                round as int,
                w,
                views,
                layer@,
                state,
            )
            &&& result matches Some(next) ==> lane_views(next@) == end.0
                && ragged_walk::groups_shape(w, end.0)
            &&& final(channel).state() == end.1
        }),
{
    let ghost w = width_seq(widths@);
    let ghost views = lane_views(groups@);
    proof {
        reveal(ragged_walk::layer_accepted);
        reveal(ragged_walk::verify_layer);
    }
    let n: usize = widths.len();
    let alpha = channel.squeeze();
    let weights = lane_weights(alpha, n);
    let columns = all_column_weights(permutation, round, &weights, Ghost(alpha));
    let mut claim = combine_claims(&weights, groups, Ghost(alpha));
    let ghost first = claim;
    let ghost start = channel.state();
    let ghost wires = layer@.wires;
    let mut point: Vec<Block256> = Vec::with_capacity(max_width);
    proof {
        assert(wires.take(0) =~= Seq::empty());
    }
    let mut i: usize = 0;
    while i < max_width
        invariant
            i <= max_width,
            wires == layer@.wires,
            wires.len() == max_width,
            ragged_walk::layer_replay::<WideChannel<C>>(wires.take(i as int), first, start) == (
            ragged_walk::LayerReplay { point: point@, claim, state: channel.state() }),
            point@.len() == i,
        decreases max_width - i,
    {
        let wire = layer.round_coeffs[i];
        proof {
            assert(wires[i as int] == wire@);
            assert(wires.take(i + 1).drop_last() =~= wires.take(i as int));
        }
        channel.absorb_slice(wire.as_slice());
        let full = reconstruct(&wire, claim);
        let x = channel.squeeze();
        claim = horner(&full, x);
        point.push(x);
        i = i + 1;
    }
    proof {
        assert(wires.take(max_width as int) =~= wires);
        assert forall|a: int| 0 <= a < groups@.len() implies (#[trigger] groups@[a]).point@.len()
            == widths@[a] && widths@[a] <= point@.len() by {
            ragged_walk::lemma_max(w, a);
            assert(views[a].point.len() == w[a]);
        }
        assert forall|a: int| 0 <= a < widths@.len() implies #[trigger] widths@[a] <= point@.len() by {
            ragged_walk::lemma_max(w, a);
            assert(w[a] == widths@[a]);
        }
    }
    absorb_values(channel, &layer.next_values);
    let expected = expected_claim(
        permutation,
        round,
        &columns,
        widths,
        groups,
        &point,
        &layer.next_values,
    );
    if expected != claim {
        return None;
    }
    let next = make_groups(widths, &point, &layer.next_values);
    proof {
        let end = ragged_walk::next_groups(w, point@, layer@.next);
        assert forall|a: int| 0 <= a < end.len() implies (#[trigger] end[a]).point.len() == w[a]
            && end[a].values.len() == 4 && w[a] > 0 by {
            ragged_walk::lemma_max(w, a);
            assert(views[a].point.len() == w[a]);
            assert(end[a].values == layer.next_values@[a]@);
        }
    }
    Some(next)
}

/// The transcript state once the statement of a walk has been absorbed: a domain element, the number
/// of regions, and for each region its width, a one, its point and its values.
pub open spec fn statement_state<C: FiatShamir<Block128>>(
    widths: Seq<nat>,
    groups: Seq<LaneView>,
    state: C::State,
) -> C::State {
    regions_state::<C>(
        widths,
        groups,
        C::absorbed(
            C::absorbed(state, Block128(RAGGED_DOMAIN)),
            Block128(groups.len() as u128),
        ),
        groups.len(),
    )
}

/// The transcript state once the first `m` regions have been absorbed.
pub open spec fn regions_state<C: FiatShamir<Block128>>(
    widths: Seq<nat>,
    groups: Seq<LaneView>,
    state: C::State,
    m: nat,
) -> C::State
    decreases m,
{
    if m == 0 {
        state
    } else {
        let prev = regions_state::<C>(widths, groups, state, (m - 1) as nat);
        let group = groups[m - 1];
        let opened = C::absorbed(
            C::absorbed(prev, Block128(widths[m - 1] as u128)),
            Block128(1),
        );
        transcript::absorb_seq::<Block256, WideChannel<C>>(
            transcript::absorb_seq::<Block256, WideChannel<C>>(opened, group.point),
            group.values,
        )
    }
}

/// Absorb the statement of a walk.
fn absorb_statement<C: FiatShamir<Block128>>(
    channel: &mut WideChannel<C>,
    widths: &Vec<usize>,
    groups: &[LaneClaim],
)
    requires
        widths@.len() == groups@.len(),
    ensures
        final(channel).state() == statement_state::<C>(
            width_seq(widths@),
            lane_views(groups@),
            old(channel).state(),
        ),
{
    let ghost w = width_seq(widths@);
    let ghost views = lane_views(groups@);
    channel.absorb_base(Block128(RAGGED_DOMAIN));
    channel.absorb_base(Block128(widths.len() as u128));
    let ghost start = channel.state();
    let mut a: usize = 0;
    while a < groups.len()
        invariant
            a <= groups.len(),
            widths@.len() == groups@.len(),
            w == width_seq(widths@),
            views == lane_views(groups@),
            channel.state() == regions_state::<C>(w, views, start, a as nat),
        decreases groups.len() - a,
    {
        channel.absorb_base(Block128(widths[a] as u128));
        channel.absorb_base(Block128(1));
        channel.absorb_slice(&groups[a].point);
        channel.absorb_slice(groups[a].values.as_slice());
        a = a + 1;
    }
}

/// What the prover has done after some layers.
pub struct WalkRun<S> {
    /// The messages sent.
    pub layers: Seq<LayerView>,
    /// The claims that are left.
    pub groups: Seq<LaneView>,
    /// The transcript state.
    pub state: S,
}

/// The tables of all regions in layer `l`.
pub open spec fn tables_at(
    permutation: Poseidon2bPermutation,
    tables: Seq<Seq<Seq<Block128>>>,
    l: nat,
) -> Seq<Seq<Seq<Block128>>> {
    Seq::new(tables.len(), |a: int| layer_states::layers_of(permutation, tables[a], l))
}

/// The first `i` layers of the honest prover on regions whose layer-zero tables are `tables`.
pub open spec fn walk_run<C: FiatShamir<Block128>>(
    permutation: Poseidon2bPermutation,
    widths: Seq<nat>,
    tables: Seq<Seq<Seq<Block128>>>,
    groups: Seq<LaneView>,
    state: C::State,
    i: nat,
) -> WalkRun<C::State>
    decreases i,
{
    if i == 0 {
        WalkRun {
            layers: Seq::empty(),
            groups,
            state: statement_state::<C>(widths, groups, state),
        }
    } else {
        let prev = walk_run::<C>(permutation, widths, tables, groups, state, (i - 1) as nat);
        let end = ragged_walk::prove_layer::<WideChannel<C>>(
            permutation,
            66 - i,
            widths,
            tables_at(permutation, tables, (66 - i) as nat),
            prev.groups,
            prev.state,
        );
        WalkRun { layers: prev.layers.push(end.layer), groups: end.groups, state: end.state }
    }
}

/// Whether statement and proof have the shape of the regions.
pub open spec fn walk_proof_shape(
    widths: Seq<nat>,
    groups: Seq<LaneView>,
    layers: Seq<LayerView>,
) -> bool {
    &&& widths.len() > 0
    &&& widths.len() == groups.len()
    &&& forall|a: int|
        0 <= a < groups.len() ==> (#[trigger] groups[a]).point.len() == widths[a] && widths[a] > 0
    &&& layers.len() == 66
    &&& forall|i: int|
        0 <= i < layers.len() ==> (#[trigger] layers[i]).wires.len() == ragged_walk::max_of(widths)
            && layers[i].next.len() == groups.len()
}

/// The outcome of the verifier after the first `i` layers: the claims that are left or the first
/// layer that is rejected, and the transcript state.
pub open spec fn walk_verdict<C: FiatShamir<Block128>>(
    permutation: Poseidon2bPermutation,
    widths: Seq<nat>,
    groups: Seq<LaneView>,
    layers: Seq<LayerView>,
    state: C::State,
    i: nat,
) -> (Result<Seq<LaneView>, RaggedError>, C::State)
    decreases i,
{
    if i == 0 {
        (Ok(groups), statement_state::<C>(widths, groups, state))
    } else {
        let prev = walk_verdict::<C>(permutation, widths, groups, layers, state, (i - 1) as nat);
        match prev.0 {
            Err(error) => prev,
            Ok(claims) => {
                let layer = layers[i - 1];
                let end = ragged_walk::verify_layer::<WideChannel<C>>(
                    widths,
                    claims,
                    layer,
                    prev.1,
                );
                if ragged_walk::layer_accepted::<WideChannel<C>>(
                    permutation,
                    66 - i,
                    widths,
                    claims,
                    layer,
                    prev.1,
                ) {
                    (Ok(end.0), end.1)
                } else {
                    (Err(RaggedError::LayerMismatch((67 - i) as usize)), end.1)
                }
            },
        }
    }
}

/// The outcome of the verifier, and the transcript state that it is left with.
pub open spec fn ragged_verdict<C: FiatShamir<Block128>>(
    permutation: Poseidon2bPermutation,
    widths: Seq<nat>,
    groups: Seq<LaneView>,
    layers: Seq<LayerView>,
    state: C::State,
) -> (Result<Seq<LaneView>, RaggedError>, C::State) {
    if walk_proof_shape(widths, groups, layers) {
        walk_verdict::<C>(permutation, widths, groups, layers, state, 66)
    } else {
        (Err(RaggedError::Shape), state)
    }
}

/// Each layer has the shape of the first, and one round leads to the next.
pub proof fn lemma_layers_shape(
    permutation: Poseidon2bPermutation,
    rows: Seq<Seq<Block128>>,
    w: nat,
    l: nat,
)
    requires
        ragged_walk::rows_shape(rows, w),
    ensures
        ragged_walk::rows_shape(layer_states::layers_of(permutation, rows, l), w),
        layer_states::layers_of(permutation, rows, l + 1) == Seq::new(
            layer_states::layers_of(permutation, rows, l).len(),
            |i: int|
                permutation.apply_round(
                    l as int,
                    layer_states::layers_of(permutation, rows, l)[i],
                ),
        ),
{
    let out = layer_states::layers_of(permutation, rows, l);
    assert forall|i: int| 0 <= i < out.len() implies (#[trigger] out[i]).len() == 4 by {
        assert(rows[i].len() == 4);
        if l > 0 {
            assert(permutation.layer(rows[i], l) == permutation.apply_round(
                l - 1,
                permutation.layer(rows[i], (l - 1) as nat),
            ));
        }
    }
    assert(layer_states::layers_of(permutation, rows, l + 1) =~= Seq::new(
        out.len(),
        |i: int| permutation.apply_round(l as int, out[i]),
    ));
}

/// Whether the claims are true of the tables.
pub open spec fn claims_true(tables: Seq<Seq<Seq<Block128>>>, groups: Seq<LaneView>) -> bool {
    forall|a: int|
        0 <= a < groups.len() ==> ragged_walk::claim_true(tables[a], #[trigger] groups[a])
}

proof fn lemma_walk<C: FiatShamir<Block128>>(
    permutation: Poseidon2bPermutation,
    widths: Seq<nat>,
    tables: Seq<Seq<Seq<Block128>>>,
    groups: Seq<LaneView>,
    state: C::State,
    layers: Seq<LayerView>,
    i: nat,
)
    requires
        i <= 66,
        ragged_walk::groups_shape(widths, groups),
        ragged_walk::tables_shape(widths, tables),
        claims_true(tables_at(permutation, tables, 66), groups),
        layers.len() >= i,
        forall|k: int|
            0 <= k < i ==> #[trigger] layers[k] == walk_run::<C>(
                permutation,
                widths,
                tables,
                groups,
                state,
                (k + 1) as nat,
            ).layers[k],
    ensures
        ({
            let now = walk_run::<C>(permutation, widths, tables, groups, state, i);
            &&& now.layers.len() == i
            &&& ragged_walk::groups_shape(widths, now.groups)
            &&& claims_true(tables_at(permutation, tables, (66 - i) as nat), now.groups)
            &&& walk_verdict::<C>(permutation, widths, groups, layers, state, i) == (
                Ok::<Seq<LaneView>, RaggedError>(now.groups),
                now.state,
            )
            &&& forall|k: int|
                0 <= k < i ==> (#[trigger] now.layers[k]).wires.len() == ragged_walk::max_of(
                    widths,
                ) && now.layers[k].next.len() == groups.len()
        }),
    decreases i,
{
    let now = walk_run::<C>(permutation, widths, tables, groups, state, i);
    if i > 0 {
        let prev = walk_run::<C>(permutation, widths, tables, groups, state, (i - 1) as nat);
        lemma_walk::<C>(permutation, widths, tables, groups, state, layers, (i - 1) as nat);
        let l = (66 - i) as nat;
        let rows = tables_at(permutation, tables, l);
        assert forall|a: int| 0 <= a < rows.len() implies ragged_walk::rows_shape(
            #[trigger] rows[a],
            widths[a],
        ) by {
            assert(ragged_walk::rows_shape(tables[a], widths[a]));
            lemma_layers_shape(permutation, tables[a], widths[a], l);
        }
        assert forall|a: int| 0 <= a < prev.groups.len() implies ragged_walk::claim_true(
            Seq::new(rows[a].len(), |k: int| permutation.apply_round(l as int, rows[a][k])),
            #[trigger] prev.groups[a],
        ) by {
            assert(ragged_walk::rows_shape(tables[a], widths[a]));
            lemma_layers_shape(permutation, tables[a], widths[a], l);
            assert(ragged_walk::claim_true(
                tables_at(permutation, tables, (l + 1) as nat)[a],
                prev.groups[a],
            ));
        }
        ragged_walk::layer_completeness::<WideChannel<C>>(
            permutation,
            l as int,
            widths,
            rows,
            prev.groups,
            prev.state,
        );
        assert(layers[i - 1] == now.layers[i - 1]);
        assert forall|k: int| 0 <= k < i implies (#[trigger] now.layers[k]).wires.len()
            == ragged_walk::max_of(widths) && now.layers[k].next.len() == groups.len() by {
            if k < i - 1 {
                assert(now.layers[k] == prev.layers[k]);
            }
        }
        assert forall|a: int| 0 <= a < now.groups.len() implies ragged_walk::claim_true(
            rows[a],
            #[trigger] now.groups[a],
        ) by {}
    }
}

proof fn lemma_walk_prefix<C: FiatShamir<Block128>>(
    permutation: Poseidon2bPermutation,
    widths: Seq<nat>,
    tables: Seq<Seq<Seq<Block128>>>,
    groups: Seq<LaneView>,
    state: C::State,
    k: nat,
    i: nat,
)
    requires
        k < i,
    ensures
        walk_run::<C>(permutation, widths, tables, groups, state, i).layers.len() == i,
        walk_run::<C>(permutation, widths, tables, groups, state, i).layers[k as int]
            == walk_run::<C>(permutation, widths, tables, groups, state, k + 1).layers[k as int],
    decreases i,
{
    lemma_walk_len::<C>(permutation, widths, tables, groups, state, i);
    if k + 1 < i {
        lemma_walk_prefix::<C>(permutation, widths, tables, groups, state, k, (i - 1) as nat);
    }
}

proof fn lemma_walk_len<C: FiatShamir<Block128>>(
    permutation: Poseidon2bPermutation,
    widths: Seq<nat>,
    tables: Seq<Seq<Seq<Block128>>>,
    groups: Seq<LaneView>,
    state: C::State,
    i: nat,
)
    ensures
        walk_run::<C>(permutation, widths, tables, groups, state, i).layers.len() == i,
    decreases i,
{
    if i > 0 {
        lemma_walk_len::<C>(permutation, widths, tables, groups, state, (i - 1) as nat);
    }
}

/// Completeness: if the output claims are true of layer 66, the verifier accepts the honest proof,
/// ends in the prover's transcript state and derives the prover's terminal claims, which are true of
/// layer zero.  The proof takes `66 · 32 · (8 W + 4 A)` bytes for `A` regions of largest width `W`.
pub proof fn ragged_completeness<C: FiatShamir<Block128>>(
    permutation: Poseidon2bPermutation,
    widths: Seq<nat>,
    tables: Seq<Seq<Seq<Block128>>>,
    groups: Seq<LaneView>,
    state: C::State,
)
    requires
        widths.len() > 0,
        ragged_walk::groups_shape(widths, groups),
        ragged_walk::tables_shape(widths, tables),
        claims_true(tables_at(permutation, tables, 66), groups),
    ensures
        ({
            let all = walk_run::<C>(permutation, widths, tables, groups, state, 66);
            &&& ragged_verdict::<C>(permutation, widths, groups, all.layers, state) == (
                Ok::<Seq<LaneView>, RaggedError>(all.groups),
                all.state,
            )
            &&& ragged_walk::groups_shape(widths, all.groups)
            &&& claims_true(tables, all.groups)
            &&& layers_byte_len(all.layers) == 66 * (32 * (8 * ragged_walk::max_of(widths) + 4
                * groups.len()))
        }),
{
    let all = walk_run::<C>(permutation, widths, tables, groups, state, 66);
    assert forall|k: int| 0 <= k < 66 implies #[trigger] all.layers[k] == walk_run::<C>(
        permutation,
        widths,
        tables,
        groups,
        state,
        (k + 1) as nat,
    ).layers[k] by {
        lemma_walk_prefix::<C>(permutation, widths, tables, groups, state, k as nat, 66);
    }
    lemma_walk_len::<C>(permutation, widths, tables, groups, state, 66);
    lemma_walk::<C>(permutation, widths, tables, groups, state, all.layers, 66);
    lemma_uniform_byte_len(all.layers, ragged_walk::max_of(widths), groups.len());
    let base = tables_at(permutation, tables, 0);
    assert forall|a: int| 0 <= a < all.groups.len() implies ragged_walk::claim_true(
        tables[a],
        #[trigger] all.groups[a],
    ) by {
        assert(base[a] =~= tables[a]);
        assert(ragged_walk::claim_true(base[a], all.groups[a]));
    }
    assert(walk_proof_shape(widths, groups, all.layers)) by {
        assert forall|a: int| 0 <= a < groups.len() implies (#[trigger] groups[a]).point.len()
            == widths[a] && widths[a] > 0 by {}
    }
}

/// The selector of the further coordinates: one on the vertices whose bits from `w` on are zero,
/// zero on the others.
pub open spec fn selector(x: int, w: nat, n: nat) -> Block256 {
    ragged_walk::gate(mle::vertex::<Block256>(x, n).skip(w as int))
}

/// The selector preserves the Boolean sum: summing a table in `w` variables against it over the
/// larger cube in `n` variables gives the sum of the table.
pub proof fn selector_preserves_sum(table: Seq<Block256>, w: nat, n: nat)
    requires
        w <= n,
        table.len() == mle::cube(w),
    ensures
        sums::sum_to(
            mle::cube(n),
            |x: int| selector(x, w, n).times(table[x % (mle::cube(w) as int)]),
        ) == sums::total(table),
    decreases n,
{
    let size = mle::cube(w) as int;
    mle::lemma_cube_monotone(w, w);
    let f = |x: int| selector(x, w, n).times(table[x % size]);
    if n == w {
        assert forall|x: int| 0 <= x < size implies #[trigger] sums::listed(mle::cube(n), f)[x]
            == table[x] by {
            assert(mle::vertex::<Block256>(x, n).skip(w as int) =~= Seq::empty());
            algebra::lemma_neutral_left(table[x]);
            vstd::arithmetic::div_mod::lemma_small_mod(x as nat, size as nat);
        }
        assert(sums::listed(mle::cube(n), f) =~= table);
    } else {
        let m = (n - 1) as nat;
        let half = mle::cube(m);
        let g = |x: int| selector(x, w, m).times(table[x % size]);
        selector_preserves_sum(table, w, m);
        let all = sums::listed(mle::cube(n), f);
        let low = sums::listed(half, g);
        let zeros = Seq::new(half, |x: int| Block256::nil());
        assert forall|x: int| 0 <= x < mle::cube(n) implies #[trigger] all[x] == (low + zeros)[x] by {
            mle::lemma_vertex_top::<Block256>(x, n);
            let bits = mle::vertex::<Block256>(x, n);
            let high = bits.skip(w as int);
            assert(high.drop_last() =~= bits.drop_last().skip(w as int));
            let top = Block256::unit().plus(bits.last());
            let rest = ragged_walk::gate(high.drop_last());
            if x < half {
                Block256::plus_laws(Block256::unit(), Block256::nil(), Block256::nil());
                Block256::times_laws(rest, Block256::unit(), rest);
            } else {
                Block256::plus_laws(Block256::unit(), Block256::unit(), Block256::nil());
                algebra::lemma_times_nil(rest);
                algebra::lemma_times_nil(table[x % size]);
            }
        }
        assert(all =~= low + zeros);
        sums::lemma_total_concat(low, zeros);
        sums::lemma_total_zero(zeros);
        Block256::plus_laws(sums::total(low), Block256::nil(), Block256::nil());
    }
}

/// The layer-zero tables of a list of regions.
pub open spec fn layer_zero_tables(layer_zero: Seq<&[Vec<Block128>; 4]>) -> Seq<Seq<Seq<Block128>>> {
    Seq::new(layer_zero.len(), |a: int| table_seq(*layer_zero[a]))
}

/// The widths that the points of claims give.
pub open spec fn claim_widths(groups: Seq<LaneView>) -> Seq<nat> {
    Seq::new(groups.len(), |a: int| groups[a].point.len())
}

/// Whether four columns of equal length match a point.
pub open spec fn columns_match(columns: [Vec<Block128>; 4], width: nat) -> bool {
    &&& columns@[0]@.len() == mle::cube(width)
    &&& columns@[1]@.len() == mle::cube(width)
    &&& columns@[2]@.len() == mle::cube(width)
    &&& columns@[3]@.len() == mle::cube(width)
}

/// The layer states of one region.
fn serve_region(permutation: &Poseidon2bPermutation, columns: &[Vec<Block128>; 4], width: Ghost<nat>) -> (states:
    DescendingLayerStates)
    requires
        columns_match(*columns, width@),
    ensures
        states.serves(*permutation, table_seq(*columns), 66),
{
    proof {
        assert(columns@[0]@.len() == mle::cube(width@));
    }
    DescendingLayerStates::new(permutation, columns)
}

/// A copy of a list of claims.
fn copy_claims(claims: &[LaneClaim]) -> (out: Vec<LaneClaim>)
    ensures
        lane_views(out@) == lane_views(claims@),
{
    let mut out: Vec<LaneClaim> = Vec::with_capacity(claims.len());
    let mut a: usize = 0;
    while a < claims.len()
        invariant
            a <= claims.len(),
            out@.len() == a,
            forall|k: int| 0 <= k < a ==> (#[trigger] out@[k])@ == claims@[k]@,
        decreases claims.len() - a,
    {
        out.push(LaneClaim { point: copied(&claims[a].point), values: claims[a].values });
        a = a + 1;
    }
    proof {
        assert(lane_views(out@) =~= lane_views(claims@));
    }
    out
}

/// The largest width.
fn largest(widths: &Vec<usize>) -> (m: usize)
    ensures
        m == ragged_walk::max_of(width_seq(widths@)),
{
    let ghost w = width_seq(widths@);
    let mut m: usize = 0;
    let mut a: usize = 0;
    while a < widths.len()
        invariant
            a <= widths.len(),
            w == width_seq(widths@),
            m == ragged_walk::max_of(w.take(a as int)),
        decreases widths.len() - a,
    {
        proof {
            assert(w.take(a + 1).drop_last() =~= w.take(a as int));
        }
        if widths[a] > m {
            m = widths[a];
        }
        a = a + 1;
    }
    proof {
        assert(w.take(a as int) =~= w);
    }
    m
}

/// Prove one aggregate walk with one output claim per unequal-width region.
///
/// `layer_zero` lists the four columns of each region, `output_groups` the claims on its layer 66.
/// Returns the proof and the terminal claims on layer zero.
pub fn prove_ragged<C: FiatShamir<Block128>>(
    permutation: &Poseidon2bPermutation,
    layer_zero: &[&[Vec<Block128>; 4]],
    output_groups: &[LaneClaim],
    channel: &mut WideChannel<C>,
) -> (result: (RaggedProof, Vec<LaneClaim>))
    requires
        layer_zero@.len() > 0,
        layer_zero@.len() == output_groups@.len(),
        forall|a: int|
            0 <= a < layer_zero@.len() ==> (#[trigger] output_groups@[a]).point@.len() > 0
                && columns_match(*layer_zero@[a], output_groups@[a].point@.len()),
    ensures
        ({
            let groups = lane_views(output_groups@);
            let all = walk_run::<C>(
                *permutation,
                claim_widths(groups),
                layer_zero_tables(layer_zero@),
                groups,
                old(channel).state(),
                66,
            );
            &&& layer_views(result.0.layers@) == all.layers
            &&& lane_views(result.1@) == all.groups
            &&& final(channel).state() == all.state
        }),
{
    let ghost first = lane_views(output_groups@);
    let ghost w = claim_widths(first);
    let ghost tables = layer_zero_tables(layer_zero@);
    let ghost entry = channel.state();
    let n: usize = layer_zero.len();
    let mut widths: Vec<usize> = Vec::with_capacity(n);
    let mut a: usize = 0;
    while a < n
        invariant
            a <= n,
            n == layer_zero@.len(),
            n == output_groups@.len(),
            widths@.len() == a,
            forall|k: int| 0 <= k < a ==> #[trigger] widths@[k] == output_groups@[k].point@.len(),
        decreases n - a,
    {
        widths.push(output_groups[a].point.len());
        a = a + 1;
    }
    proof {
        assert(width_seq(widths@) =~= w);
        assert forall|k: int| 0 <= k < tables.len() implies ragged_walk::rows_shape(
            #[trigger] tables[k],
            w[k],
        ) by {
            assert(output_groups@[k].point@.len() == w[k]);
            assert(columns_match(*layer_zero@[k], w[k]));
            assert(tables[k] == table_seq(*layer_zero@[k]));
        }
        assert(ragged_walk::groups_shape(w, first)) by {
            assert forall|k: int| 0 <= k < first.len() implies (#[trigger] first[k]).point.len()
                == w[k] && first[k].values.len() == 4 && w[k] > 0 by {
                assert(first[k].values == output_groups@[k].values@);
                assert(output_groups@[k].point@.len() > 0);
            }
        }
    }
    let max_width = largest(&widths);
    absorb_statement(channel, &widths, output_groups);
    let serve = |k: usize| -> (states: DescendingLayerStates)
        requires
            k < layer_zero@.len(),
            columns_match(*layer_zero@[k as int], output_groups@[k as int].point@.len()),
        ensures
            states.serves(*permutation, table_seq(*layer_zero@[k as int]), 66),
        {
            serve_region(permutation, layer_zero[k], Ghost(output_groups@[k as int].point@.len()))
        };
    proof {
        assert forall|k: int| 0 <= k < n implies columns_match(
            *#[trigger] layer_zero@[k],
            output_groups@[k].point@.len(),
        ) by {
            assert(output_groups@[k].point@.len() > 0);
        }
    }
    let mut servers: Vec<DescendingLayerStates> = map_range(n, 2, serve);
    let mut groups = copy_claims(output_groups);
    let mut layers: Vec<RaggedLayerProof> = Vec::with_capacity(66);
    proof {
        assert(layer_views(layers@) =~= Seq::empty());
    }
    let mut i: usize = 0;
    while i < 66
        invariant
            i <= 66,
            n == layer_zero@.len(),
            n == widths@.len(),
            w == width_seq(widths@),
            w.len() == n,
            tables == layer_zero_tables(layer_zero@),
            max_width == ragged_walk::max_of(w),
            ragged_walk::tables_shape(w, tables),
            ragged_walk::groups_shape(w, first),
            servers@.len() == n,
            forall|k: int|
                0 <= k < n ==> (#[trigger] servers@[k]).serves(
                    *permutation,
                    tables[k],
                    (66 - i) as nat,
                ),
            ({
                let now = walk_run::<C>(*permutation, w, tables, first, entry, i as nat);
                &&& now.layers == layer_views(layers@)
                &&& now.groups == lane_views(groups@)
                &&& now.state == channel.state()
            }),
            ragged_walk::groups_shape(w, lane_views(groups@)),
        decreases 66 - i,
    {
        let round: usize = 65 - i;
        let ghost before = layers@;
        let mut base_states: Vec<Vec<[Block128; 4]>> = Vec::with_capacity(n);
        let mut b: usize = 0;
        while b < n
            invariant
                b <= n,
                round == 65 - i,
                i < 66,
                servers@.len() == n,
                base_states@.len() == b,
                forall|k: int|
                    0 <= k < b ==> (#[trigger] servers@[k]).serves(
                        *permutation,
                        tables[k],
                        round as nat,
                    ),
                forall|k: int|
                    b <= k < n ==> (#[trigger] servers@[k]).serves(
                        *permutation,
                        tables[k],
                        (round + 1) as nat,
                    ),
                forall|k: int|
                    0 <= k < b ==> row_seq((#[trigger] base_states@[k])@)
                        == layer_states::layers_of(*permutation, tables[k], round as nat),
            decreases n - b,
        {
            let rows = servers[b].state(permutation, round, Ghost(tables[b as int]));
            base_states.push(rows);
            b = b + 1;
        }
        let ghost rows = tables_at(*permutation, tables, round as nat);
        proof {
            assert(tables_of(base_states@) =~= rows);
            assert forall|k: int| 0 <= k < rows.len() implies ragged_walk::rows_shape(
                #[trigger] rows[k],
                w[k],
            ) by {
                assert(ragged_walk::rows_shape(tables[k], w[k]));
                lemma_layers_shape(*permutation, tables[k], w[k], round as nat);
            }
        }
        let ghost now_groups = lane_views(groups@);
        let ghost now_state = channel.state();
        let (layer, next_groups) = prove_one_layer(
            permutation,
            round,
            &widths,
            max_width,
            &groups,
            &base_states,
            channel,
        );
        layers.push(layer);
        groups = next_groups;
        proof {
            assert(layer_views(layers@) =~= layer_views(before).push(layer@));
            ragged_walk::lemma_prove_shape::<WideChannel<C>>(
                *permutation,
                round as int,
                w,
                rows,
                now_groups,
                now_state,
            );
        }
        i = i + 1;
    }
    (RaggedProof { layers }, groups)
}

/// Whether every region has variables and a point of its width.
fn points_fit(widths: &[usize], groups: &[LaneClaim]) -> (fit: bool)
    requires
        widths@.len() == groups@.len(),
    ensures
        fit <==> forall|a: int|
            0 <= a < groups@.len() ==> (#[trigger] lane_views(groups@)[a]).point.len()
                == width_seq(widths@)[a] && width_seq(widths@)[a] > 0,
{
    let ghost views = lane_views(groups@);
    let ghost w = width_seq(widths@);
    let mut a: usize = 0;
    while a < widths.len()
        invariant
            a <= widths@.len(),
            widths@.len() == groups@.len(),
            views == lane_views(groups@),
            w == width_seq(widths@),
            forall|k: int|
                0 <= k < a ==> (#[trigger] views[k]).point.len() == w[k] && w[k] > 0,
        decreases widths.len() - a,
    {
        let width: usize = widths[a];
        let len: usize = groups[a].point.len();
        proof {
            assert(views[a as int].point.len() == len);
            assert(w[a as int] == width);
        }
        if width == 0 || len != width {
            return false;
        }
        proof {
            assert forall|k: int| 0 <= k < a + 1 implies (#[trigger] views[k]).point.len() == w[k]
                && w[k] > 0 by {
                if k == a {
                    assert(views[k].point.len() == len);
                } else {
                    assert(views[k].point.len() == w[k]);
                }
            }
        }
        a = a + 1;
    }
    true
}

/// Whether a proof has 66 layers of the given shape.
fn layers_fit(proof: &RaggedProof, rounds: usize, regions: usize) -> (fit: bool)
    ensures
        fit <==> proof.layers@.len() == 66 && forall|i: int|
            0 <= i < proof.layers@.len() ==> (#[trigger] layer_views(proof.layers@)[i]).wires.len()
                == rounds && layer_views(proof.layers@)[i].next.len() == regions,
{
    let ghost views = layer_views(proof.layers@);
    if proof.layers.len() != 66 {
        return false;
    }
    let mut i: usize = 0;
    while i < 66
        invariant
            i <= 66,
            proof.layers@.len() == 66,
            views == layer_views(proof.layers@),
            forall|k: int|
                0 <= k < i ==> (#[trigger] views[k]).wires.len() == rounds && views[k].next.len()
                    == regions,
        decreases 66 - i,
    {
        let layer = &proof.layers[i];
        proof {
            assert(views[i as int] == layer@);
        }
        if layer.round_coeffs.len() != rounds || layer.next_values.len() != regions {
            return false;
        }
        i = i + 1;
    }
    true
}

/// Verify a walk.
///
/// Returns the terminal claims on layer zero, `Shape` if statement and proof do not fit together, or
/// the first layer whose claim does not match.
pub fn verify_ragged<C: FiatShamir<Block128>>(
    permutation: &Poseidon2bPermutation,
    widths: &[usize],
    output_groups: &[LaneClaim],
    proof: &RaggedProof,
    channel: &mut WideChannel<C>,
) -> (result: Result<Vec<LaneClaim>, RaggedError>)
    ensures
        ragged_verdict::<C>(
            *permutation,
            width_seq(widths@),
            lane_views(output_groups@),
            layer_views(proof.layers@),
            old(channel).state(),
        ) == (
            match result {
                Ok(claims) => Ok(lane_views(claims@)),
                Err(error) => Err(error),
            },
            final(channel).state(),
        ),
        result matches Ok(claims) ==> ragged_walk::groups_shape(
            width_seq(widths@),
            lane_views(claims@),
        ),
{
    let ghost w = width_seq(widths@);
    let ghost first = lane_views(output_groups@);
    let ghost views = layer_views(proof.layers@);
    let ghost entry = channel.state();
    let n: usize = widths.len();
    if n == 0 || n != output_groups.len() {
        return Err(RaggedError::Shape);
    }
    if !points_fit(widths, output_groups) {
        return Err(RaggedError::Shape);
    }
    let owned = copied(widths);
    let max_width = largest(&owned);
    if !layers_fit(proof, max_width, n) {
        return Err(RaggedError::Shape);
    }
    proof {
        assert(ragged_walk::groups_shape(w, first)) by {
            assert forall|k: int| 0 <= k < first.len() implies (#[trigger] first[k]).point.len()
                == w[k] && first[k].values.len() == 4 && w[k] > 0 by {
                assert(first[k].values == output_groups@[k].values@);
            }
        }
        assert(walk_proof_shape(w, first, views));
    }
    absorb_statement(channel, &owned, output_groups);
    let mut groups = copy_claims(output_groups);
    let mut i: usize = 0;
    while i < 66
        invariant
            i <= 66,
            n == owned@.len(),
            w == width_seq(owned@),
            w == width_seq(widths@),
            w.len() == n,
            first == lane_views(output_groups@),
            views == layer_views(proof.layers@),
            views.len() == 66,
            entry == old(channel).state(),
            max_width == ragged_walk::max_of(w),
            walk_proof_shape(w, first, views),
            ragged_walk::groups_shape(w, lane_views(groups@)),
            walk_verdict::<C>(*permutation, w, first, views, entry, i as nat) == (
                Ok::<Seq<LaneView>, RaggedError>(lane_views(groups@)),
                channel.state(),
            ),
        decreases 66 - i,
    {
        proof {
            assert(views[i as int] == proof.layers@[i as int]@);
            assert(views[i as int].wires.len() == max_width);
        }
        match verify_one_layer(
            permutation,
            65 - i,
            &owned,
            max_width,
            &groups,
            &proof.layers[i],
            channel,
        ) {
            Some(next) => {
                groups = next;
            },
            None => {
                proof {
                    lemma_walk_stops::<C>(
                        *permutation,
                        w,
                        first,
                        views,
                        entry,
                        (i + 1) as nat,
                        66,
                    );
                }
                return Err(RaggedError::LayerMismatch(66 - i));
            },
        }
        i = i + 1;
    }
    Ok(groups)
}

/// Once a layer has been rejected the outcome does not change.
proof fn lemma_walk_stops<C: FiatShamir<Block128>>(
    permutation: Poseidon2bPermutation,
    widths: Seq<nat>,
    groups: Seq<LaneView>,
    layers: Seq<LayerView>,
    state: C::State,
    i: nat,
    n: nat,
)
    requires
        i <= n,
        walk_verdict::<C>(permutation, widths, groups, layers, state, i).0 is Err,
    ensures
        walk_verdict::<C>(permutation, widths, groups, layers, state, n) == walk_verdict::<C>(
            permutation,
            widths,
            groups,
            layers,
            state,
            i,
        ),
    decreases n - i,
{
    if i < n {
        lemma_walk_stops::<C>(permutation, widths, groups, layers, state, i, (n - 1) as nat);
    }
}

proof fn lemma_lane_is_column(columns: [Vec<Block128>; 4], width: nat, lane: int)
    requires
        columns_match(columns, width),
        0 <= lane < 4,
    ensures
        ragged_walk::base_lane(table_seq(columns), lane) == columns@[lane]@,
{
    assert(ragged_walk::base_lane(table_seq(columns), lane) =~= columns@[lane]@);
}

/// The values of four columns at a point.
fn evaluate_lanes(columns: &[Vec<Block128>; 4], point: &[Block256]) -> (values: [Block256; 4])
    requires
        columns_match(*columns, point@.len()),
    ensures
        ragged_walk::claim_true(
            table_seq(*columns),
            LaneView { point: point@, values: values@ },
        ),
{
    let values = [
        evaluate_column(&columns[0], point),
        evaluate_column(&columns[1], point),
        evaluate_column(&columns[2], point),
        evaluate_column(&columns[3], point),
    ];
    proof {
        assert forall|lane: int| 0 <= lane < 4 implies #[trigger] values@[lane] == mle::mle_eval(
            wide::embed_column(ragged_walk::base_lane(table_seq(*columns), lane)),
            point@,
        ) by {
            lemma_lane_is_column(*columns, point@.len(), lane);
        }
    }
    values
}

/// The true claims on output columns at the given points.
pub fn claims_from_outputs(outputs: &[[Vec<Block128>; 4]], points: &[Vec<Block256>]) -> (claims: Vec<
    LaneClaim,
>)
    requires
        outputs@.len() == points@.len(),
        forall|a: int|
            0 <= a < outputs@.len() ==> columns_match(
                #[trigger] outputs@[a],
                points@[a]@.len(),
            ),
    ensures
        claims@.len() == outputs@.len(),
        forall|a: int|
            0 <= a < claims@.len() ==> (#[trigger] claims@[a])@.point == points@[a]@
                && ragged_walk::claim_true(table_seq(outputs@[a]), claims@[a]@),
{
    let mut claims: Vec<LaneClaim> = Vec::with_capacity(outputs.len());
    let mut a: usize = 0;
    while a < outputs.len()
        invariant
            a <= outputs.len(),
            outputs@.len() == points@.len(),
            forall|k: int|
                0 <= k < outputs@.len() ==> columns_match(
                    #[trigger] outputs@[k],
                    points@[k]@.len(),
                ),
            claims@.len() == a,
            forall|k: int|
                0 <= k < a ==> (#[trigger] claims@[k])@.point == points@[k]@
                    && ragged_walk::claim_true(table_seq(outputs@[k]), claims@[k]@),
        decreases outputs.len() - a,
    {
        proof {
            assert(columns_match(outputs@[a as int], points@[a as int]@.len()));
        }
        let values = evaluate_lanes(&outputs[a], &points[a]);
        claims.push(LaneClaim { point: copied(&points[a]), values });
        a = a + 1;
    }
    claims
}

/// Bind the terminal reductions to the actual layer-zero columns.
pub fn discharge_terminals(layer_zero: &[&[Vec<Block128>; 4]], terminals: &[LaneClaim]) -> (holds: bool)
    requires
        layer_zero@.len() == terminals@.len() ==> forall|a: int|
            0 <= a < layer_zero@.len() ==> columns_match(
                *#[trigger] layer_zero@[a],
                terminals@[a].point@.len(),
            ),
    ensures
        holds <==> layer_zero@.len() == terminals@.len() && claims_true(
            layer_zero_tables(layer_zero@),
            lane_views(terminals@),
        ),
{
    if layer_zero.len() != terminals.len() {
        return false;
    }
    let ghost tables = layer_zero_tables(layer_zero@);
    let ghost views = lane_views(terminals@);
    let evaluate = |a: usize| -> (values: [Block256; 4])
        requires
            a < layer_zero@.len(),
            layer_zero@.len() == terminals@.len(),
            columns_match(*layer_zero@[a as int], terminals@[a as int].point@.len()),
        ensures
            ragged_walk::claim_true(
                table_seq(*layer_zero@[a as int]),
                LaneView { point: terminals@[a as int].point@, values: values@ },
            ),
        { evaluate_lanes(layer_zero[a], &terminals[a].point) };
    let evaluated: Vec<[Block256; 4]> = map_range(terminals.len(), 2, evaluate);
    let mut a: usize = 0;
    while a < terminals.len()
        invariant
            a <= terminals.len(),
            layer_zero@.len() == terminals@.len(),
            tables == layer_zero_tables(layer_zero@),
            views == lane_views(terminals@),
            evaluated@.len() == terminals@.len(),
            forall|k: int|
                0 <= k < terminals@.len() ==> ragged_walk::claim_true(
                    table_seq(*layer_zero@[k]),
                    LaneView { point: terminals@[k].point@, values: (#[trigger] evaluated@[k])@ },
                ),
            forall|k: int|
                0 <= k < a ==> ragged_walk::claim_true(tables[k], #[trigger] views[k]),
        decreases terminals.len() - a,
    {
        let values = evaluated[a];
        let claimed = terminals[a].values;
        proof {
            let want = LaneView { point: terminals@[a as int].point@, values: values@ };
            assert(ragged_walk::claim_true(tables[a as int], want));
            assert forall|lane: int| 0 <= lane < 4 implies #[trigger] values@[lane]
                == mle::mle_eval(
                wide::embed_column(ragged_walk::base_lane(tables[a as int], lane)),
                views[a as int].point,
            ) by {
                assert(want.values[lane] == values@[lane]);
            }
        }
        if values[0] != claimed[0] || values[1] != claimed[1] || values[2] != claimed[2]
            || values[3] != claimed[3] {
            proof {
                let v = views[a as int].values;
                assert(v == claimed@);
                if ragged_walk::claim_true(tables[a as int], views[a as int]) {
                    assert(v[0] == values@[0]);
                    assert(v[1] == values@[1]);
                    assert(v[2] == values@[2]);
                    assert(v[3] == values@[3]);
                }
            }
            return false;
        }
        proof {
            let v = views[a as int].values;
            assert(v == claimed@);
            assert forall|lane: int| 0 <= lane < 4 implies #[trigger] v[lane] == mle::mle_eval(
                wide::embed_column(ragged_walk::base_lane(tables[a as int], lane)),
                views[a as int].point,
            ) by {
                assert(values@[lane] == claimed@[lane]);
            }
        }
        a = a + 1;
    }
    true
}

/// The whole statement of a walk is bound to the transcript before any challenge: the domain element, the
/// number of regions, and region by region its width, a one, the coordinates of its point and those of
/// its values, the low one of each before the high one.
pub proof fn statement_is_bound<C: FiatShamir<Block128>>(
    widths: Seq<nat>,
    groups: Seq<LaneView>,
    state: C::State,
    parts: Seq<Seq<Block128>>,
    states: Seq<C::State>,
)
    requires
        parts.len() == groups.len(),
        states.len() == groups.len() + 1,
        states[0] == C::absorbed(
            C::absorbed(state, Block128(0x5241_4747_4544_5f47_4b52_5f56_3100_0001)),
            Block128(groups.len() as u128),
        ),
        forall|a: int|
            0 <= a < groups.len() ==> {
                let (n, m) = (groups[a].point.len() as int, groups[a].values.len() as int);
                &&& (#[trigger] parts[a]).len() == 2 + 2 * n + 2 * m
                &&& parts[a][0] == Block128(widths[a] as u128)
                &&& parts[a][1] == Block128(1)
                &&& forall|j: int|
                    0 <= j < n ==> parts[a][2 + 2 * j] == (#[trigger] groups[a].point[j]).lo
                        && parts[a][3 + 2 * j] == groups[a].point[j].hi
                &&& forall|j: int|
                    0 <= j < m ==> parts[a][2 + 2 * n + 2 * j] == (#[trigger]
                    groups[a].values[j]).lo && parts[a][3 + 2 * n + 2 * j] == groups[a].values[j].hi
                &&& states[a + 1] == transcript::absorb_seq::<Block128, C>(states[a], parts[a])
            },
    ensures
        statement_state::<C>(widths, groups, state) == states.last(),
{
    lemma_regions_bound::<C>(widths, groups, parts, states, groups.len());
}

proof fn lemma_regions_bound<C: FiatShamir<Block128>>(
    widths: Seq<nat>,
    groups: Seq<LaneView>,
    parts: Seq<Seq<Block128>>,
    states: Seq<C::State>,
    k: nat,
)
    requires
        k <= groups.len(),
        parts.len() == groups.len(),
        states.len() == groups.len() + 1,
        forall|a: int|
            0 <= a < groups.len() ==> {
                let (n, m) = (groups[a].point.len() as int, groups[a].values.len() as int);
                &&& (#[trigger] parts[a]).len() == 2 + 2 * n + 2 * m
                &&& parts[a][0] == Block128(widths[a] as u128)
                &&& parts[a][1] == Block128(1)
                &&& forall|j: int|
                    0 <= j < n ==> parts[a][2 + 2 * j] == (#[trigger] groups[a].point[j]).lo
                        && parts[a][3 + 2 * j] == groups[a].point[j].hi
                &&& forall|j: int|
                    0 <= j < m ==> parts[a][2 + 2 * n + 2 * j] == (#[trigger]
                    groups[a].values[j]).lo && parts[a][3 + 2 * n + 2 * j] == groups[a].values[j].hi
                &&& states[a + 1] == transcript::absorb_seq::<Block128, C>(states[a], parts[a])
            },
    ensures
        regions_state::<C>(widths, groups, states[0], k) == states[k as int],
    decreases k,
{
    if k > 0 {
        let a = k - 1;
        lemma_regions_bound::<C>(widths, groups, parts, states, a as nat);
        let part = parts[a];
        let (point, values) = (groups[a].point, groups[a].values);
        let (n, m) = (point.len() as int, values.len() as int);
        let (head, x, y) = (
            part.take(2),
            part.subrange(2, 2 + 2 * n),
            part.subrange(2 + 2 * n, 2 + 2 * n + 2 * m),
        );
        assert forall|j: int| 0 <= j < n implies x[2 * j] == (#[trigger] point[j]).lo && x[2 * j
            + 1] == point[j].hi by {
            assert(part[2 + 2 * j] == groups[a].point[j].lo);
        }
        assert forall|j: int| 0 <= j < m implies y[2 * j] == (#[trigger] values[j]).lo && y[2 * j
            + 1] == values[j].hi by {
            assert(part[2 + 2 * n + 2 * j] == groups[a].values[j].lo);
        }
        let s = states[a];
        let opened = C::absorbed(C::absorbed(s, part[0]), part[1]);
        let none = Seq::<Block128>::empty();
        transcript::every_element_is_absorbed::<Block128, C>(s, none, part[0]);
        transcript::every_element_is_absorbed::<Block128, C>(s, none.push(part[0]), part[1]);
        assert(none.push(part[0]).push(part[1]) =~= head);
        wide::wide_elements_are_framed::<C>(opened, point, x);
        let mid = transcript::absorb_seq::<Block128, C>(opened, x);
        wide::wide_elements_are_framed::<C>(mid, values, y);
        transcript::lemma_absorb_concat::<Block128, C>(s, head, x);
        transcript::lemma_absorb_concat::<Block128, C>(s, head + x, y);
        assert(head + x + y =~= part);
        assert(states[a + 1] == states[k as int]);
    }
}

/// Whether the first `n` layers of a walk, counted from the first one sent, are accepted.
pub open spec fn accepted_before<C: FiatShamir<Block128>>(
    permutation: Poseidon2bPermutation,
    widths: Seq<nat>,
    claims: Seq<Seq<LaneView>>,
    layers: Seq<LayerView>,
    states: Seq<C::State>,
    n: int,
) -> bool {
    forall|k: int|
        0 <= k < n ==> ragged_walk::layer_accepted::<WideChannel<C>>(
            permutation,
            65 - k,
            widths,
            #[trigger] claims[k],
            layers[k],
            states[k],
        )
}

/// What the verdict on a walk means, for whatever claims and transcript states follow from its layers:
/// - the shape is wrong unless there is a region, statement and proof speak of the same regions with
///   points of their positive widths, and each of 66 layers has a message for each coordinate of the
///   largest width and values for each region; then nothing goes on the transcript;
/// - the walk is accepted exactly if all 66 layers are, layer 66 first, each for the claims that the one
///   before leaves, and the claims left by the last are handed on;
/// - otherwise the error names the first layer that is rejected.
pub proof fn every_layer_is_checked<C: FiatShamir<Block128>>(
    permutation: Poseidon2bPermutation,
    widths: Seq<nat>,
    groups: Seq<LaneView>,
    layers: Seq<LayerView>,
    state: C::State,
    largest: nat,
    claims: Seq<Seq<LaneView>>,
    states: Seq<C::State>,
    i: int,
)
    requires
        claims.len() == 67,
        states.len() == 67,
        claims[0] == groups,
        states[0] == statement_state::<C>(widths, groups, state),
        forall|k: int|
            0 <= k < 66 ==> (claims[k + 1], states[k + 1]) == ragged_walk::verify_layer::<
                WideChannel<C>,
            >(widths, #[trigger] claims[k], layers[k], states[k]),
        widths.len() > 0 ==> (forall|a: int|
            0 <= a < widths.len() ==> #[trigger] widths[a] <= largest) && exists|a: int|
            0 <= a < widths.len() && #[trigger] widths[a] == largest,
        0 <= i < 66,
    ensures
        ({
            let verdict = ragged_verdict::<C>(permutation, widths, groups, layers, state);
            let fits = {
                &&& widths.len() > 0
                &&& widths.len() == groups.len()
                &&& forall|a: int|
                    0 <= a < groups.len() ==> (#[trigger] groups[a]).point.len() == widths[a]
                        && widths[a] > 0
                &&& layers.len() == 66
                &&& forall|k: int|
                    0 <= k < layers.len() ==> (#[trigger] layers[k]).wires.len() == largest
                        && layers[k].next.len() == groups.len()
            };
            let all_before = |n: int|
                accepted_before::<C>(permutation, widths, claims, layers, states, n);
            &&& !fits ==> verdict == (
                Err::<Seq<LaneView>, RaggedError>(RaggedError::Shape),
                state,
            )
            &&& fits ==> (verdict.0 is Ok <==> all_before(66))
            &&& verdict.0 is Ok ==> fits && verdict.0->Ok_0 == claims[66] && verdict.1 == states[66]
            &&& fits && all_before(i) && !all_before(i + 1) ==> verdict == (
                Err::<Seq<LaneView>, RaggedError>(RaggedError::LayerMismatch((66 - i) as usize)),
                states[i + 1],
            )
        }),
{
    let fits = {
        &&& widths.len() > 0
        &&& widths.len() == groups.len()
        &&& forall|a: int|
            0 <= a < groups.len() ==> (#[trigger] groups[a]).point.len() == widths[a] && widths[a]
                > 0
        &&& layers.len() == 66
        &&& forall|k: int|
            0 <= k < layers.len() ==> (#[trigger] layers[k]).wires.len() == largest
                && layers[k].next.len() == groups.len()
    };
    if widths.len() > 0 {
        ragged_walk::largest_width_is_attained(widths, largest);
    }
    assert(fits == walk_proof_shape(widths, groups, layers));
    let passes = |k: int|
        ragged_walk::layer_accepted::<WideChannel<C>>(
            permutation,
            65 - k,
            widths,
            claims[k],
            layers[k],
            states[k],
        );
    if accepted_before::<C>(permutation, widths, claims, layers, states, 66) {
        lemma_accepted_so_far::<C>(permutation, widths, groups, layers, state, claims, states, 66);
        assert(accepted_before::<C>(permutation, widths, claims, layers, states, i + 1));
    } else {
        let bad = choose|k: int|
            0 <= k < 66 && !ragged_walk::layer_accepted::<WideChannel<C>>(
                permutation,
                65 - k,
                widths,
                #[trigger] claims[k],
                layers[k],
                states[k],
            );
        assert(!passes(bad));
        let j = lemma_first_rejected(passes, 66);
        assert forall|k: int| 0 <= k < j implies ragged_walk::layer_accepted::<WideChannel<C>>(
            permutation,
            65 - k,
            widths,
            #[trigger] claims[k],
            layers[k],
            states[k],
        ) by {
            assert(passes(k));
        }
        assert(!passes(j as int));
        lemma_accepted_so_far::<C>(permutation, widths, groups, layers, state, claims, states, j);
        let (now, next) = (j as int, j as int + 1);
        assert((claims[next], states[next]) == ragged_walk::verify_layer::<WideChannel<C>>(
            widths,
            claims[now],
            layers[now],
            states[now],
        ));
        assert(walk_verdict::<C>(permutation, widths, groups, layers, state, j + 1) == (
            Err::<Seq<LaneView>, RaggedError>(RaggedError::LayerMismatch((66 - j) as usize)),
            states[next],
        ));
        lemma_rejected_stays::<C>(permutation, widths, groups, layers, state, j + 1, 66);
        if accepted_before::<C>(permutation, widths, claims, layers, states, i)
            && !accepted_before::<C>(permutation, widths, claims, layers, states, i + 1) {
            assert(i <= j) by {
                let here = claims[now];
            }
            assert(j <= i) by {
                if i < j {
                    assert(accepted_before::<C>(
                        permutation,
                        widths,
                        claims,
                        layers,
                        states,
                        i + 1,
                    ));
                }
            }
        }
    }
}

proof fn lemma_first_rejected(accepted: spec_fn(int) -> bool, n: nat) -> (j: nat)
    requires
        exists|k: int| 0 <= k < n && !#[trigger] accepted(k),
    ensures
        j < n,
        !accepted(j as int),
        forall|k: int| 0 <= k < j ==> #[trigger] accepted(k),
    decreases n,
{
    let k = choose|k: int| 0 <= k < n && !#[trigger] accepted(k);
    if exists|l: int| 0 <= l < k && !#[trigger] accepted(l) {
        lemma_first_rejected(accepted, k as nat)
    } else {
        k as nat
    }
}

proof fn lemma_accepted_so_far<C: FiatShamir<Block128>>(
    permutation: Poseidon2bPermutation,
    widths: Seq<nat>,
    groups: Seq<LaneView>,
    layers: Seq<LayerView>,
    state: C::State,
    claims: Seq<Seq<LaneView>>,
    states: Seq<C::State>,
    n: nat,
)
    requires
        n <= 66,
        claims.len() == 67,
        states.len() == 67,
        claims[0] == groups,
        states[0] == statement_state::<C>(widths, groups, state),
        forall|k: int|
            0 <= k < 66 ==> (claims[k + 1], states[k + 1]) == ragged_walk::verify_layer::<
                WideChannel<C>,
            >(widths, #[trigger] claims[k], layers[k], states[k]),
        forall|k: int|
            0 <= k < n ==> ragged_walk::layer_accepted::<WideChannel<C>>(
                permutation,
                65 - k,
                widths,
                #[trigger] claims[k],
                layers[k],
                states[k],
            ),
    ensures
        walk_verdict::<C>(permutation, widths, groups, layers, state, n) == (
            Ok::<Seq<LaneView>, RaggedError>(claims[n as int]),
            states[n as int],
        ),
    decreases n,
{
    if n > 0 {
        let m = n - 1;
        lemma_accepted_so_far::<C>(
            permutation,
            widths,
            groups,
            layers,
            state,
            claims,
            states,
            m as nat,
        );
        assert((claims[m + 1], states[m + 1]) == ragged_walk::verify_layer::<WideChannel<C>>(
            widths,
            claims[m],
            layers[m],
            states[m],
        ));
    }
}

proof fn lemma_rejected_stays<C: FiatShamir<Block128>>(
    permutation: Poseidon2bPermutation,
    widths: Seq<nat>,
    groups: Seq<LaneView>,
    layers: Seq<LayerView>,
    state: C::State,
    j: nat,
    n: nat,
)
    requires
        j <= n,
        walk_verdict::<C>(permutation, widths, groups, layers, state, j).0 is Err,
    ensures
        walk_verdict::<C>(permutation, widths, groups, layers, state, n) == walk_verdict::<C>(
            permutation,
            widths,
            groups,
            layers,
            state,
            j,
        ),
    decreases n,
{
    if j < n {
        lemma_rejected_stays::<C>(
            permutation,
            widths,
            groups,
            layers,
            state,
            j,
            (n - 1) as nat,
        );
    }
}

/// Numbers are written in positional notation: one digit below ten, and the digits of the tenth followed
/// by the last digit from ten on.
pub proof fn decimals_are_positional(n: nat, digit: nat)
    requires
        digit < 10,
    ensures
        decimal(digit).len() == 1,
        decimal(digit)[0] as nat == 48 + digit,
        n > 0 ==> decimal(10 * n + digit) == decimal(n) + decimal(digit),
{
    assert((10 * n + digit) % 10 == digit && (10 * n + digit) / 10 == n);
}

/// A layer takes 32 bytes for each of the eight coefficients of each round and each of the four values
/// of each region.
pub proof fn layer_sizes(layers: Seq<LayerView>, layer: LayerView)
    ensures
        layers_byte_len(Seq::empty()) == 0,
        layers_byte_len(layers.push(layer)) == layers_byte_len(layers) + 32 * (8
            * layer.wires.len() + 4 * layer.next.len()),
{
    assert(layers.push(layer).drop_last() =~= layers);
}

/// Claims are true lane by lane: each of the four values of each region is the multilinear extension, at
/// the point of the region, of the column of that lane with its entries embedded.
pub proof fn claims_are_true_lane_by_lane(
    tables: Seq<Seq<Seq<Block128>>>,
    groups: Seq<LaneView>,
    columns: Seq<Seq<Seq<Block256>>>,
)
    requires
        columns.len() == groups.len(),
        forall|a: int, lane: int|
            0 <= a < groups.len() && 0 <= lane < 4 ==> (#[trigger] columns[a][lane]).len()
                == tables[a].len(),
        forall|a: int, lane: int, i: int|
            0 <= a < groups.len() && 0 <= lane < 4 && 0 <= i < tables[a].len()
                ==> #[trigger] columns[a][lane][i] == (Block256 {
                lo: tables[a][i][lane],
                hi: Block128(0),
            }),
    ensures
        claims_true(tables, groups) <==> forall|a: int|
            0 <= a < groups.len() ==> (#[trigger] groups[a]).values.len() == 4 && forall|lane: int|
                0 <= lane < 4 ==> #[trigger] groups[a].values[lane] == mle::mle_eval(
                    columns[a][lane],
                    groups[a].point,
                ),
{
    assert forall|a: int, lane: int|
        0 <= a < groups.len() && 0 <= lane < 4 implies #[trigger] columns[a][lane]
        == wide::embed_column(ragged_walk::base_lane(tables[a], lane)) by {
        assert(columns[a][lane].len() == tables[a].len());
        assert(columns[a][lane] =~= wide::embed_column(ragged_walk::base_lane(tables[a], lane)));
    }
    if claims_true(tables, groups) {
        assert forall|a: int| 0 <= a < groups.len() implies (#[trigger] groups[a]).values.len() == 4
            && forall|lane: int|
            0 <= lane < 4 ==> #[trigger] groups[a].values[lane] == mle::mle_eval(
                columns[a][lane],
                groups[a].point,
            ) by {
            assert(ragged_walk::claim_true(tables[a], groups[a]));
            assert forall|lane: int| 0 <= lane < 4 implies #[trigger] groups[a].values[lane]
                == mle::mle_eval(columns[a][lane], groups[a].point) by {
                let column = columns[a][lane];
            }
        }
    } else {
        let a = choose|a: int|
            0 <= a < groups.len() && !ragged_walk::claim_true(tables[a], #[trigger] groups[a]);
        if groups[a].values.len() == 4 {
            let lane = choose|lane: int|
                0 <= lane < 4 && #[trigger] groups[a].values[lane] != mle::mle_eval(
                    wide::embed_column(ragged_walk::base_lane(tables[a], lane)),
                    groups[a].point,
                );
            let column = columns[a][lane];
        }
    }
}

} // verus!
