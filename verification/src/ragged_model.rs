//! The aggregate walk over regions of unequal width: definitions and their laws.
//!
//! In each layer a random combination of claims on the outputs of a round is reduced to claims on
//! its inputs.  A region of width `w` takes part with a table of weights and a table of rows in `w`
//! variables; all regions share the challenges, lowest variable first.  A region that has run out of
//! variables is multiplied by `1 + X` in every further coordinate.
use crate::algebra;
use crate::block256;
use crate::block256::Block256;
use crate::mle;
use crate::permutation;
use crate::permutation::Poseidon2bPermutation;
use crate::poly;
use crate::sums;
use crate::tower_field::TowerField;
use vstd::prelude::*;

verus! {

/// What lane `lane` contributes to round `r`: its S-box if the lane is active, the lane itself
/// otherwise.
pub open spec fn term(p: Poseidon2bPermutation, r: int, lane: int, v: Block256) -> Block256 {
    if Poseidon2bPermutation::active(r, lane) {
        permutation::power7(v.plus(block256::embed(p.constant(lane, r))))
    } else {
        v
    }
}

/// The weighted sum of the terms of a row.
pub open spec fn relation(
    p: Poseidon2bPermutation,
    r: int,
    c: Seq<Block256>,
    s: Seq<Block256>,
) -> Block256 {
    sums::sum_to(4, |lane: int| c[lane].times(term(p, r, lane, s[lane])))
}

/// The tables by which a region takes part in a layer.
pub struct Region {
    /// The weights.
    pub eq: Seq<Block256>,
    /// The rows, of four lanes each.
    pub rows: Seq<Seq<Block256>>,
}

/// The rows with their lowest variable fixed to `x`.
pub open spec fn fold_rows(rows: Seq<Seq<Block256>>, x: Block256) -> Seq<Seq<Block256>> {
    Seq::new(
        rows.len() / 2,
        |y: int| Seq::new(4, |lane: int| mle::lerp(rows[2 * y][lane], rows[2 * y + 1][lane], x)),
    )
}

/// The region with one coordinate fixed to `x`: one of its own variables, or a further coordinate.
pub open spec fn fold_region(region: Region, native: bool, x: Block256) -> Region {
    if native {
        Region { eq: mle::fold_low(region.eq, x), rows: fold_rows(region.rows, x) }
    } else {
        Region {
            eq: seq![region.eq[0].times(Block256::unit().plus(x))],
            rows: region.rows,
        }
    }
}

/// The weighted sum of the relation over all rows of a region.
pub open spec fn region_total(
    p: Poseidon2bPermutation,
    r: int,
    c: Seq<Block256>,
    region: Region,
) -> Block256 {
    sums::sum_to(region.eq.len(), |y: int| region.eq[y].times(relation(p, r, c, region.rows[y])))
}

/// The sum over all regions.
pub open spec fn walk_total(
    p: Poseidon2bPermutation,
    r: int,
    cs: Seq<Seq<Block256>>,
    regions: Seq<Region>,
) -> Block256 {
    sums::sum_to(regions.len(), |a: int| region_total(p, r, cs[a], regions[a]))
}

/// All regions with coordinate `k` fixed to `x`.
pub open spec fn fold_walk(
    regions: Seq<Region>,
    widths: Seq<nat>,
    k: int,
    x: Block256,
) -> Seq<Region> {
    Seq::new(regions.len(), |a: int| fold_region(regions[a], k < widths[a], x))
}

/// The value at `x` of the round polynomial of coordinate `k`.
pub open spec fn walk_value(
    p: Poseidon2bPermutation,
    r: int,
    cs: Seq<Seq<Block256>>,
    regions: Seq<Region>,
    widths: Seq<nat>,
    k: int,
    x: Block256,
) -> Block256 {
    walk_total(p, r, cs, fold_walk(regions, widths, k, x))
}

/// The nine coefficients of the round polynomial of coordinate `k`.
pub open spec fn walk_coeffs(
    p: Poseidon2bPermutation,
    r: int,
    cs: Seq<Seq<Block256>>,
    regions: Seq<Region>,
    widths: Seq<nat>,
    k: int,
) -> Seq<Block256> {
    poly::lagrange(
        Seq::new(9, |j: int| walk_value(p, r, cs, regions, widths, k, poly::node(j))),
    )
}

/// Whether a region of width `w` has the shape it has before coordinate `k`.
pub open spec fn region_shape(region: Region, w: nat, k: int) -> bool {
    let len = if k < w {
        mle::cube((w - k) as nat)
    } else {
        1
    };
    &&& region.eq.len() == len
    &&& region.rows.len() == len
    &&& forall|y: int| 0 <= y < len ==> (#[trigger] region.rows[y]).len() == 4
}

/// Whether all regions have the shape they have before coordinate `k`.
pub open spec fn walk_shape(regions: Seq<Region>, widths: Seq<nat>, k: int) -> bool {
    &&& regions.len() == widths.len()
    &&& forall|a: int|
        0 <= a < regions.len() ==> region_shape(#[trigger] regions[a], widths[a], k)
}

/// Fixing a coordinate leads to the shape of the next one.
pub proof fn lemma_fold_shape(regions: Seq<Region>, widths: Seq<nat>, k: int, x: Block256)
    requires
        walk_shape(regions, widths, k),
    ensures
        walk_shape(fold_walk(regions, widths, k, x), widths, k + 1),
{
    let folded = fold_walk(regions, widths, k, x);
    assert forall|a: int| 0 <= a < folded.len() implies region_shape(
        #[trigger] folded[a],
        widths[a],
        k + 1,
    ) by {
        assert(region_shape(regions[a], widths[a], k));
        if k < widths[a] {
            assert(mle::cube((widths[a] - k) as nat) == 2 * mle::cube((widths[a] - k - 1) as nat));
            assert(mle::cube(0) == 1);
        }
    }
}

proof fn lemma_region_telescope(
    p: Poseidon2bPermutation,
    r: int,
    c: Seq<Block256>,
    region: Region,
    w: nat,
    k: int,
)
    requires
        region_shape(region, w, k),
    ensures
        region_total(p, r, c, fold_region(region, k < w, Block256::nil())).plus(
            region_total(p, r, c, fold_region(region, k < w, Block256::unit())),
        ) == region_total(p, r, c, region),
{
    let (zero, one) = (Block256::nil(), Block256::unit());
    let lo = fold_region(region, k < w, zero);
    let hi = fold_region(region, k < w, one);
    let f = |y: int| region.eq[y].times(relation(p, r, c, region.rows[y]));
    let g = |y: int| lo.eq[y].times(relation(p, r, c, lo.rows[y]));
    let h = |y: int| hi.eq[y].times(relation(p, r, c, hi.rows[y]));
    if k < w {
        let half = mle::cube((w - k - 1) as nat);
        assert(region.eq.len() == 2 * half);
        let all = sums::listed(region.eq.len(), f);
        sums::lemma_total_pairs(all);
        let pairs = Seq::new(all.len() / 2, |i: int| all[2 * i].plus(all[2 * i + 1]));
        sums::lemma_sum_plus(half, g, h);
        assert forall|y: int| 0 <= y < half implies #[trigger] pairs[y] == sums::listed(
            half,
            |i: int| g(i).plus(h(i)),
        )[y] by {
            let (a, b) = (region.rows[2 * y], region.rows[2 * y + 1]);
            assert(a.len() == 4 && b.len() == 4);
            mle::lemma_lerp(region.eq[2 * y], region.eq[2 * y + 1], zero);
            assert forall|l: int| 0 <= l < 4 implies #[trigger] lo.rows[y][l] == a[l]
                && hi.rows[y][l] == b[l] by {
                mle::lemma_lerp(a[l], b[l], zero);
            }
            assert(lo.rows[y] =~= a);
            assert forall|l: int| 0 <= l < 4 implies #[trigger] hi.rows[y][l] == b[l] by {
                mle::lemma_lerp(a[l], b[l], zero);
            }
            assert(hi.rows[y] =~= b);
        }
        assert(pairs =~= sums::listed(half, |i: int| g(i).plus(h(i))));
    } else {
        let e = region.eq[0];
        let q = relation(p, r, c, region.rows[0]);
        Block256::plus_laws(one, zero, zero);
        Block256::times_laws(e, one, one);
        algebra::lemma_times_nil(e);
        Block256::plus_laws(one, one, one);
        algebra::lemma_times_nil(q);
        sums::lemma_sum_step(0, f);
        sums::lemma_sum_step(0, g);
        sums::lemma_sum_step(0, h);
        algebra::lemma_neutral_left(e.times(q));
        Block256::plus_laws(e.times(q), zero, zero);
        algebra::lemma_neutral_left(zero);
    }
}

/// The values of a round polynomial at zero and one add up to the sum before the round.
pub proof fn lemma_walk_telescope(
    p: Poseidon2bPermutation,
    r: int,
    cs: Seq<Seq<Block256>>,
    regions: Seq<Region>,
    widths: Seq<nat>,
    k: int,
)
    requires
        walk_shape(regions, widths, k),
    ensures
        walk_value(p, r, cs, regions, widths, k, Block256::nil()).plus(
            walk_value(p, r, cs, regions, widths, k, Block256::unit()),
        ) == walk_total(p, r, cs, regions),
{
    let lo = fold_walk(regions, widths, k, Block256::nil());
    let hi = fold_walk(regions, widths, k, Block256::unit());
    let n = regions.len();
    let f = |a: int| region_total(p, r, cs[a], lo[a]);
    let g = |a: int| region_total(p, r, cs[a], hi[a]);
    let h = |a: int| region_total(p, r, cs[a], regions[a]);
    sums::lemma_sum_plus(n, f, g);
    assert forall|a: int| 0 <= a < n implies #[trigger] h(a) == (|i: int| f(i).plus(g(i)))(a) by {
        lemma_region_telescope(p, r, cs[a], regions[a], widths[a], k);
    }
    sums::lemma_sum_equal(n, h, |i: int| f(i).plus(g(i)));
}

// ----------------------------------------------------------------------------------------------
// Round polynomials in coefficient form.
// ----------------------------------------------------------------------------------------------

/// The coefficients of `(a + b X)^7`.
pub open spec fn affine7(a: Block256, b: Block256) -> Seq<Block256> {
    let a2 = a.times(a);
    let b2 = b.times(b);
    let p1 = seq![a, b];
    let p2 = sums::seq_scale(a2, p1) + sums::seq_scale(b2, p1);
    sums::seq_scale(a2.times(a2), p2) + sums::seq_scale(b2.times(b2), p2)
}

/// `(a + b X)^7` in coefficient form has the right values.
pub proof fn lemma_affine7(a: Block256, b: Block256, x: Block256)
    ensures
        affine7(a, b).len() == 8,
        poly::poly_eval(affine7(a, b), x) == permutation::power7(a.plus(b.times(x))),
{
    let (a2, b2) = (a.times(a), b.times(b));
    let (a4, b4) = (a2.times(a2), b2.times(b2));
    let p1 = seq![a, b];
    let p2 = sums::seq_scale(a2, p1) + sums::seq_scale(b2, p1);
    let u = a.plus(b.times(x));
    let u2 = u.times(u);
    let x2 = x.times(x);
    let x4 = x2.times(x2);
    // p1(x) = u.
    let t1 = p1.drop_first();
    assert(t1.drop_first() =~= Seq::empty());
    assert(poly::poly_eval(t1.drop_first(), x) == Block256::nil());
    assert(poly::poly_eval(t1, x) == b.plus(x.times(Block256::nil())));
    algebra::lemma_times_nil(x);
    Block256::plus_laws(b, x, x);
    Block256::times_laws(x, b, b);
    assert(poly::poly_eval(p1, x) == u);
    // u^2 = a^2 + b^2 x^2 and p2(x) = u^2 u.
    algebra::lemma_square_sum(a, b.times(x));
    algebra::lemma_square_product(b, x);
    assert(u2 == a2.plus(b2.times(x2)));
    poly::lemma_eval_concat(sums::seq_scale(a2, p1), sums::seq_scale(b2, p1), x);
    poly::lemma_eval_scale(a2, p1, x);
    poly::lemma_eval_scale(b2, p1, x);
    lemma_powers(x);
    Block256::times_laws(x2, b2, u);
    algebra::lemma_distribute_right(a2, b2.times(x2), u);
    assert(poly::poly_eval(p2, x) == u2.times(u));
    // u^4 = a^4 + b^4 x^4 and the whole is u^4 u^2 u.
    algebra::lemma_square_sum(a2, b2.times(x2));
    algebra::lemma_square_product(b2, x2);
    let u4 = u2.times(u2);
    assert(u4 == a4.plus(b4.times(x4)));
    poly::lemma_eval_concat(sums::seq_scale(a4, p2), sums::seq_scale(b4, p2), x);
    poly::lemma_eval_scale(a4, p2, x);
    poly::lemma_eval_scale(b4, p2, x);
    let e = u2.times(u);
    Block256::times_laws(x4, b4, e);
    algebra::lemma_distribute_right(a4, b4.times(x4), e);
    assert(poly::poly_eval(affine7(a, b), x) == u4.times(e));
    Block256::times_laws(u4, e, e);
    Block256::times_laws(u2, u, u);
}

proof fn lemma_powers(x: Block256)
    ensures
        poly::power(x, 2) == x.times(x),
        poly::power(x, 4) == x.times(x).times(x.times(x)),
{
    reveal_with_fuel(poly::power, 5);
    algebra::lemma_neutral_left(x);
    let x2 = x.times(x);
    Block256::times_laws(x2, x, x);
}

/// The coefficients of the term of a lane whose value is `base + delta X`.
pub open spec fn lane_poly(
    p: Poseidon2bPermutation,
    r: int,
    lane: int,
    base: Block256,
    delta: Block256,
) -> Seq<Block256> {
    if Poseidon2bPermutation::active(r, lane) {
        affine7(base.plus(block256::embed(p.constant(lane, r))), delta)
    } else {
        seq![base, delta] + poly::poly_zero(6)
    }
}

proof fn lemma_lane_poly(
    p: Poseidon2bPermutation,
    r: int,
    lane: int,
    base: Block256,
    delta: Block256,
    x: Block256,
)
    ensures
        lane_poly(p, r, lane, base, delta).len() == 8,
        poly::poly_eval(lane_poly(p, r, lane, base, delta), x) == term(
            p,
            r,
            lane,
            base.plus(delta.times(x)),
        ),
{
    if Poseidon2bPermutation::active(r, lane) {
        let c = block256::embed(p.constant(lane, r));
        lemma_affine7(base.plus(c), delta, x);
        let m = delta.times(x);
        Block256::plus_laws(base, c, m);
        Block256::plus_laws(c, m, m);
        Block256::plus_laws(base, m, c);
    } else {
        let p1 = seq![base, delta];
        poly::lemma_eval_pad(p1, 6, x);
        let t1 = p1.drop_first();
        assert(poly::poly_eval(t1.drop_first(), x) == Block256::nil());
        assert(poly::poly_eval(t1, x) == delta.plus(x.times(Block256::nil())));
        algebra::lemma_times_nil(x);
        Block256::plus_laws(delta, x, x);
        Block256::times_laws(x, delta, delta);
    }
}

/// The weighted sum of the first `m` lane polynomials.
pub open spec fn relation_poly(
    p: Poseidon2bPermutation,
    r: int,
    c: Seq<Block256>,
    base: Seq<Block256>,
    delta: Seq<Block256>,
    m: nat,
) -> Seq<Block256>
    decreases m,
{
    if m == 0 {
        poly::poly_zero(8)
    } else {
        sums::seq_plus(
            relation_poly(p, r, c, base, delta, (m - 1) as nat),
            sums::seq_scale(c[m - 1], lane_poly(p, r, m - 1, base[m - 1], delta[m - 1])),
        )
    }
}

proof fn lemma_relation_poly(
    p: Poseidon2bPermutation,
    r: int,
    c: Seq<Block256>,
    base: Seq<Block256>,
    delta: Seq<Block256>,
    m: nat,
    x: Block256,
)
    ensures
        relation_poly(p, r, c, base, delta, m).len() == 8,
        poly::poly_eval(relation_poly(p, r, c, base, delta, m), x) == sums::sum_to(
            m,
            |lane: int| c[lane].times(term(p, r, lane, base[lane].plus(delta[lane].times(x)))),
        ),
    decreases m,
{
    let f = |lane: int| c[lane].times(term(p, r, lane, base[lane].plus(delta[lane].times(x))));
    if m == 0 {
        poly::lemma_eval_zero(poly::poly_zero::<Block256>(8), x);
        sums::lemma_sum_step(0, f);
    } else {
        let k = (m - 1) as nat;
        let q = lane_poly(p, r, k as int, base[k as int], delta[k as int]);
        lemma_relation_poly(p, r, c, base, delta, k, x);
        lemma_lane_poly(p, r, k as int, base[k as int], delta[k as int], x);
        poly::lemma_eval_scale(c[k as int], q, x);
        poly::lemma_eval_plus(
            relation_poly(p, r, c, base, delta, k),
            sums::seq_scale(c[k as int], q),
            x,
        );
        sums::lemma_sum_step(k, f);
    }
}

/// The coefficients of `(eb + ed X)` times the relation on `base + delta X`.
pub open spec fn pair_poly(
    p: Poseidon2bPermutation,
    r: int,
    c: Seq<Block256>,
    eb: Block256,
    ed: Block256,
    base: Seq<Block256>,
    delta: Seq<Block256>,
) -> Seq<Block256> {
    poly::poly_times_affine(relation_poly(p, r, c, base, delta, 4), eb, ed)
}

proof fn lemma_pair_poly(
    p: Poseidon2bPermutation,
    r: int,
    c: Seq<Block256>,
    eb: Block256,
    ed: Block256,
    base: Seq<Block256>,
    delta: Seq<Block256>,
    row: Seq<Block256>,
    x: Block256,
)
    requires
        forall|l: int| 0 <= l < 4 ==> #[trigger] row[l] == base[l].plus(delta[l].times(x)),
    ensures
        pair_poly(p, r, c, eb, ed, base, delta).len() == 9,
        poly::poly_eval(pair_poly(p, r, c, eb, ed, base, delta), x) == eb.plus(ed.times(x)).times(
            relation(p, r, c, row),
        ),
{
    let q = relation_poly(p, r, c, base, delta, 4);
    lemma_relation_poly(p, r, c, base, delta, 4, x);
    poly::lemma_eval_times_affine(q, eb, ed, x);
    sums::lemma_sum_equal(
        4,
        |lane: int| c[lane].times(term(p, r, lane, base[lane].plus(delta[lane].times(x)))),
        |lane: int| c[lane].times(term(p, r, lane, row[lane])),
    );
}

/// The differences of the lanes of two rows.
pub open spec fn row_delta(lo: Seq<Block256>, hi: Seq<Block256>) -> Seq<Block256> {
    Seq::new(4, |lane: int| lo[lane].plus(hi[lane]))
}

/// Four zeros.
pub open spec fn zero_row() -> Seq<Block256> {
    Seq::new(4, |lane: int| Block256::nil())
}

/// The polynomial that the pair `y` of rows of a region contributes to one of its own coordinates.
pub open spec fn native_pair(
    p: Poseidon2bPermutation,
    r: int,
    c: Seq<Block256>,
    region: Region,
    y: int,
) -> Seq<Block256> {
    pair_poly(
        p,
        r,
        c,
        region.eq[2 * y],
        region.eq[2 * y].plus(region.eq[2 * y + 1]),
        region.rows[2 * y],
        row_delta(region.rows[2 * y], region.rows[2 * y + 1]),
    )
}

/// The sum of the contributions of the first `m` pairs.
pub open spec fn native_pairs(
    p: Poseidon2bPermutation,
    r: int,
    c: Seq<Block256>,
    region: Region,
    m: nat,
) -> Seq<Block256>
    decreases m,
{
    if m == 0 {
        poly::poly_zero(9)
    } else {
        sums::seq_plus(
            native_pairs(p, r, c, region, (m - 1) as nat),
            native_pair(p, r, c, region, m - 1),
        )
    }
}

/// The contribution of a region to a coordinate.
pub open spec fn region_poly(
    p: Poseidon2bPermutation,
    r: int,
    c: Seq<Block256>,
    region: Region,
    native: bool,
) -> Seq<Block256> {
    if native {
        native_pairs(p, r, c, region, region.rows.len() / 2)
    } else {
        pair_poly(p, r, c, region.eq[0], region.eq[0], region.rows[0], zero_row())
    }
}

proof fn lemma_native_pairs(
    p: Poseidon2bPermutation,
    r: int,
    c: Seq<Block256>,
    region: Region,
    m: nat,
    x: Block256,
)
    requires
        2 * m <= region.rows.len(),
        region.rows.len() == region.eq.len(),
    ensures
        native_pairs(p, r, c, region, m).len() == 9,
        poly::poly_eval(native_pairs(p, r, c, region, m), x) == sums::sum_to(
            m,
            |y: int|
                mle::fold_low(region.eq, x)[y].times(
                    relation(p, r, c, fold_rows(region.rows, x)[y]),
                ),
        ),
    decreases m,
{
    let f = |y: int|
        mle::fold_low(region.eq, x)[y].times(relation(p, r, c, fold_rows(region.rows, x)[y]));
    if m == 0 {
        poly::lemma_eval_zero(poly::poly_zero::<Block256>(9), x);
        sums::lemma_sum_step(0, f);
    } else {
        let k = m - 1;
        lemma_native_pairs(p, r, c, region, k as nat, x);
        let (lo, hi) = (region.rows[2 * k], region.rows[2 * k + 1]);
        let (el, eh) = (region.eq[2 * k], region.eq[2 * k + 1]);
        let delta = row_delta(lo, hi);
        let row = fold_rows(region.rows, x)[k];
        assert forall|l: int| 0 <= l < 4 implies #[trigger] row[l] == lo[l].plus(
            delta[l].times(x),
        ) by {
            Block256::times_laws(x, lo[l].plus(hi[l]), x);
        }
        Block256::times_laws(x, el.plus(eh), x);
        lemma_pair_poly(p, r, c, el, el.plus(eh), lo, delta, row, x);
        poly::lemma_eval_plus(
            native_pairs(p, r, c, region, k as nat),
            native_pair(p, r, c, region, k),
            x,
        );
        sums::lemma_sum_step(k as nat, f);
    }
}

/// The contribution of a region in coefficient form has the right values.
pub proof fn lemma_region_poly(
    p: Poseidon2bPermutation,
    r: int,
    c: Seq<Block256>,
    region: Region,
    w: nat,
    k: int,
    x: Block256,
)
    requires
        region_shape(region, w, k),
    ensures
        region_poly(p, r, c, region, k < w).len() == 9,
        poly::poly_eval(region_poly(p, r, c, region, k < w), x) == region_total(
            p,
            r,
            c,
            fold_region(region, k < w, x),
        ),
{
    let folded = fold_region(region, k < w, x);
    let f = |y: int| folded.eq[y].times(relation(p, r, c, folded.rows[y]));
    if k < w {
        let half = mle::cube((w - k - 1) as nat);
        assert(region.rows.len() == 2 * half);
        lemma_native_pairs(p, r, c, region, half, x);
        sums::lemma_sum_equal(
            half,
            |y: int|
                mle::fold_low(region.eq, x)[y].times(
                    relation(p, r, c, fold_rows(region.rows, x)[y]),
                ),
            f,
        );
    } else {
        let e = region.eq[0];
        let row = region.rows[0];
        assert forall|l: int| 0 <= l < 4 implies #[trigger] row[l] == row[l].plus(
            zero_row()[l].times(x),
        ) by {
            algebra::lemma_times_nil(x);
            Block256::plus_laws(row[l], x, x);
        }
        lemma_pair_poly(p, r, c, e, e, row, zero_row(), row, x);
        Block256::times_laws(e, Block256::unit(), x);
        sums::lemma_sum_step(0, f);
        algebra::lemma_neutral_left(f(0));
    }
}

/// The sum of the contributions of the first `m` regions.
pub open spec fn walk_poly(
    p: Poseidon2bPermutation,
    r: int,
    cs: Seq<Seq<Block256>>,
    regions: Seq<Region>,
    widths: Seq<nat>,
    k: int,
    m: nat,
) -> Seq<Block256>
    decreases m,
{
    if m == 0 {
        poly::poly_zero(9)
    } else {
        sums::seq_plus(
            walk_poly(p, r, cs, regions, widths, k, (m - 1) as nat),
            region_poly(p, r, cs[m - 1], regions[m - 1], k < widths[m - 1]),
        )
    }
}

proof fn lemma_walk_poly(
    p: Poseidon2bPermutation,
    r: int,
    cs: Seq<Seq<Block256>>,
    regions: Seq<Region>,
    widths: Seq<nat>,
    k: int,
    m: nat,
    x: Block256,
)
    requires
        walk_shape(regions, widths, k),
        m <= regions.len(),
    ensures
        walk_poly(p, r, cs, regions, widths, k, m).len() == 9,
        poly::poly_eval(walk_poly(p, r, cs, regions, widths, k, m), x) == sums::sum_to(
            m,
            |a: int| region_total(p, r, cs[a], fold_walk(regions, widths, k, x)[a]),
        ),
    decreases m,
{
    let f = |a: int| region_total(p, r, cs[a], fold_walk(regions, widths, k, x)[a]);
    if m == 0 {
        poly::lemma_eval_zero(poly::poly_zero::<Block256>(9), x);
        sums::lemma_sum_step(0, f);
    } else {
        let a = m - 1;
        lemma_walk_poly(p, r, cs, regions, widths, k, a as nat, x);
        assert(region_shape(regions[a], widths[a], k));
        lemma_region_poly(p, r, cs[a], regions[a], widths[a], k, x);
        poly::lemma_eval_plus(
            walk_poly(p, r, cs, regions, widths, k, a as nat),
            region_poly(p, r, cs[a], regions[a], k < widths[a]),
            x,
        );
        sums::lemma_sum_step(a as nat, f);
    }
}

/// The sum of all contributions is the round polynomial, which has the right values.
pub proof fn lemma_walk_coeffs(
    p: Poseidon2bPermutation,
    r: int,
    cs: Seq<Seq<Block256>>,
    regions: Seq<Region>,
    widths: Seq<nat>,
    k: int,
    x: Block256,
)
    requires
        walk_shape(regions, widths, k),
    ensures
        walk_coeffs(p, r, cs, regions, widths, k) == walk_poly(
            p,
            r,
            cs,
            regions,
            widths,
            k,
            regions.len(),
        ),
        walk_coeffs(p, r, cs, regions, widths, k).len() == 9,
        poly::poly_eval(walk_coeffs(p, r, cs, regions, widths, k), x) == walk_value(
            p,
            r,
            cs,
            regions,
            widths,
            k,
            x,
        ),
{
    let n = regions.len();
    let coeffs = walk_poly(p, r, cs, regions, widths, k, n);
    let evals = Seq::new(9, |j: int| walk_value(p, r, cs, regions, widths, k, poly::node(j)));
    assert forall|j: int| 0 <= j < 9 implies #[trigger] evals[j] == poly::samples(coeffs, 9)[j] by {
        lemma_walk_poly(p, r, cs, regions, widths, k, n, poly::node(j));
    }
    lemma_walk_poly(p, r, cs, regions, widths, k, n, x);
    assert(evals =~= poly::samples(coeffs, 9));
    poly::interpolation_round_trip(coeffs, 9, x);
}

} // verus!
