//! The compared constructions on regions of unequal width: inputs, proofs and their verification.
use crate::bench_plan;
use crate::bench_plan::{cube_size, largest_width, SampleShape, Variant, PRODUCTION_WIDTHS};
use crate::block128::Block128;
use crate::block256::Block256;
use crate::channel;
use crate::channel::Poseidon2bChannel;
use crate::layer_states;
use crate::layer_states::{initial_layer_columns, output_layer_columns, table_seq};
use crate::mle;
use crate::permutation::Poseidon2bPermutation;
use crate::ragged;
use crate::ragged::{
    claims_from_outputs, discharge_terminals, prove_ragged, verify_ragged, LaneClaim, RaggedProof,
};
use crate::ragged_walk;
use crate::ragged_walk::{LaneView, LayerView};
use crate::tables::copied;
use crate::tower_field::TowerField;
use crate::wide;
use crate::wide::WideChannel;
use vstd::prelude::*;

verus! {

/// Deterministic generator of field elements (SplitMix64).
pub struct Rng(pub u64);

/// The generator's state after one step.
pub open spec fn advanced(state: u64) -> u64 {
    state.wrapping_add(0x9e37_79b9_7f4a_7c15u64)
}

/// The number handed out in a state.
pub open spec fn mixed(state: u64) -> u64 {
    let a = (state ^ (state >> 30u64)).wrapping_mul(0xbf58_476d_1ce4_e5b9u64);
    let b = (a ^ (a >> 27u64)).wrapping_mul(0x94d0_49bb_1331_11ebu64);
    b ^ (b >> 31u64)
}

/// The field element that follows a state: two numbers, the low half first.
#[verifier::opaque]
pub open spec fn word(state: u64) -> Block128 {
    Block128(
        (mixed(advanced(state)) as u128) | ((mixed(advanced(advanced(state))) as u128) << 64u128),
    )
}

/// The state after `n` field elements.
pub open spec fn skipped(state: u64, n: nat) -> u64
    decreases n,
{
    if n == 0 {
        state
    } else {
        advanced(advanced(skipped(state, (n - 1) as nat)))
    }
}

proof fn lemma_skipped(state: u64, m: nat, n: nat)
    ensures
        skipped(skipped(state, m), n) == skipped(state, m + n),
    decreases n,
{
    if n > 0 {
        lemma_skipped(state, m, (n - 1) as nat);
    }
}

/// Field element number `n` of a stream.
pub open spec fn element(seed: u64, n: nat) -> Block128 {
    word(skipped(seed, n))
}

impl Rng {
    /// The next number.
    pub fn next_u64(&mut self) -> (r: u64)
        ensures
            final(self).0 == advanced(old(self).0),
            r == mixed(final(self).0),
    {
        self.0 = self.0.wrapping_add(0x9e37_79b9_7f4a_7c15);
        let mut value: u64 = self.0;
        value = (value ^ (value >> 30u64)).wrapping_mul(0xbf58_476d_1ce4_e5b9);
        value = (value ^ (value >> 27u64)).wrapping_mul(0x94d0_49bb_1331_11eb);
        value ^ (value >> 31u64)
    }

    /// The next base field element.
    pub fn base(&mut self) -> (r: Block128)
        ensures
            final(self).0 == skipped(old(self).0, 1),
            r == word(old(self).0),
    {
        proof {
            reveal(word);
            reveal_with_fuel(skipped, 2);
        }
        let low = self.next_u64();
        let high = self.next_u64();
        Block128((low as u128) | ((high as u128) << 64u128))
    }

    /// The next extension field element.
    pub fn wide(&mut self) -> (r: Block256)
        ensures
            final(self).0 == skipped(old(self).0, 2),
            r.lo == element(old(self).0, 0),
            r.hi == element(old(self).0, 1),
    {
        proof {
            lemma_skipped(self.0, 1, 1);
        }
        let lo = self.base();
        let hi = self.base();
        Block256::new(lo, hi)
    }

    /// The next `len` base field elements.
    fn column(&mut self, len: usize) -> (column: Vec<Block128>)
        ensures
            final(self).0 == skipped(old(self).0, len as nat),
            column@ == Seq::new(len as nat, |j: int| element(old(self).0, j as nat)),
    {
        let ghost seed = self.0;
        let mut column: Vec<Block128> = Vec::with_capacity(len);
        let mut j: usize = 0;
        while j < len
            invariant
                j <= len,
                self.0 == skipped(seed, j as nat),
                column@ == Seq::new(j as nat, |k: int| element(seed, k as nat)),
            decreases len - j,
        {
            proof {
                lemma_skipped(seed, j as nat, 1);
            }
            let next = self.base();
            column.push(next);
            j = j + 1;
            proof {
                assert(column@ =~= Seq::new(j as nat, |k: int| element(seed, k as nat)));
            }
        }
        column
    }
}

/// Seed of the stream that fills region zero.
pub const INPUT_SEED: u64 = 0x6672_6f73_745f_0000;

/// Seed of the stream of points.
pub const POINT_SEED: u64 = 0x7261_6767_6564_0001;

/// The raw rows of region `a` in `w` variables: the stream of the region fills one lane after the
/// other.
pub open spec fn raw_rows(a: int, w: nat) -> Seq<Seq<Block128>> {
    let seed = (INPUT_SEED + a) as u64;
    let len = mle::cube(w);
    Seq::new(
        len,
        |i: int|
            seq![
                element(seed, i as nat),
                element(seed, (len + i) as nat),
                element(seed, (2 * len + i) as nat),
                element(seed, (3 * len + i) as nat),
            ],
    )
}

/// The layer-zero rows of region `a` in `w` variables.
pub open spec fn native_rows(permutation: Poseidon2bPermutation, a: int, w: nat) -> Seq<
    Seq<Block128>,
> {
    Seq::new(mle::cube(w), |i: int| permutation.initial_layer(raw_rows(a, w)[i]))
}

/// Coordinates of the points of the first `a` regions.
pub open spec fn point_offset(widths: Seq<usize>, a: nat) -> nat
    decreases a,
{
    if a == 0 {
        0
    } else {
        point_offset(widths, (a - 1) as nat) + widths[a - 1] as nat
    }
}

/// The point at which the output of region `a` is claimed.
pub open spec fn native_point(widths: Seq<usize>, a: nat) -> Seq<Block256> {
    Seq::new(
        widths[a as int] as nat,
        |j: int|
            Block256 {
                lo: element(POINT_SEED, 2 * (point_offset(widths, a) + j as nat)),
                hi: element(POINT_SEED, 2 * (point_offset(widths, a) + j as nat) + 1),
            },
    )
}

/// Whether the seed of every region fits in its word and the widths can be laid out in memory.
pub open spec fn widths_fit(widths: Seq<usize>) -> bool {
    &&& INPUT_SEED + widths.len() - 1 <= u64::MAX
    &&& forall|a: int| 0 <= a < widths.len() ==> mle::cube(#[trigger] widths[a] as nat) <= usize::MAX
}

/// `len` elements of a stream from element `from` on.
spec fn stretch(seed: u64, from: nat, len: nat) -> Seq<Block128> {
    Seq::new(len, |j: int| element(skipped(seed, from), j as nat))
}

/// Columns that a stream fills one after the other have the raw rows of the region.
proof fn lemma_raw_rows(raw: [Vec<Block128>; 4], a: int, w: nat)
    requires
        ({
            let seed = (INPUT_SEED + a) as u64;
            let len = mle::cube(w);
            &&& raw@[0]@ == stretch(seed, 0, len)
            &&& raw@[1]@ == stretch(seed, len, len)
            &&& raw@[2]@ == stretch(seed, 2 * len, len)
            &&& raw@[3]@ == stretch(seed, 3 * len, len)
        }),
    ensures
        table_seq(raw) == raw_rows(a, w),
{
    let seed = (INPUT_SEED + a) as u64;
    let len = mle::cube(w);
    let want = raw_rows(a, w);
    assert forall|i: int| 0 <= i < len implies #[trigger] table_seq(raw)[i] == want[i] by {
        lemma_skipped(seed, 0, i as nat);
        lemma_skipped(seed, len, i as nat);
        lemma_skipped(seed, 2 * len, i as nat);
        lemma_skipped(seed, 3 * len, i as nat);
        assert(table_seq(raw)[i] =~= want[i]);
    }
    assert(table_seq(raw) =~= want);
}

/// The layer-zero columns of region `a`.
fn fixture_region(permutation: &Poseidon2bPermutation, a: usize, width: usize) -> (columns: [Vec<
    Block128,
>; 4])
    requires
        INPUT_SEED + a <= u64::MAX,
        mle::cube(width as nat) <= usize::MAX,
    ensures
        table_seq(columns) == native_rows(*permutation, a as int, width as nat),
        ragged::columns_match(columns, width as nat),
{
    let mut rng = Rng(INPUT_SEED + a as u64);
    let ghost seed = rng.0;
    let len: usize = cube_size(width);
    let c0 = rng.column(len);
    let c1 = rng.column(len);
    proof {
        lemma_skipped(seed, len as nat, len as nat);
    }
    let c2 = rng.column(len);
    proof {
        lemma_skipped(seed, 2 * len as nat, len as nat);
    }
    let c3 = rng.column(len);
    let raw = [c0, c1, c2, c3];
    proof {
        let n = len as nat;
        assert(raw@[0]@ =~= stretch(seed, 0, n));
        assert(raw@[1]@ =~= stretch(seed, n, n));
        assert(raw@[2]@ =~= stretch(seed, 2 * n, n));
        assert(raw@[3]@ =~= stretch(seed, 3 * n, n));
        lemma_raw_rows(raw, a as int, width as nat);
    }
    let columns = initial_layer_columns(permutation, &raw);
    proof {
        assert(table_seq(columns) =~= native_rows(*permutation, a as int, width as nat));
        assert(columns@[0]@.len() == len);
        assert(columns@[1]@.len() == len);
        assert(columns@[2]@.len() == len);
        assert(columns@[3]@.len() == len);
    }
    columns
}

/// The layer-zero columns of all regions at their native widths.
pub fn fixture(permutation: &Poseidon2bPermutation, widths: &[usize]) -> (regions: Vec<
    [Vec<Block128>; 4],
>)
    requires
        widths_fit(widths@),
    ensures
        regions@.len() == widths@.len(),
        forall|a: int|
            0 <= a < widths@.len() ==> table_seq(#[trigger] regions@[a]) == native_rows(
                *permutation,
                a,
                widths@[a] as nat,
            ) && ragged::columns_match(regions@[a], widths@[a] as nat),
{
    let mut regions: Vec<[Vec<Block128>; 4]> = Vec::with_capacity(widths.len());
    let mut a: usize = 0;
    while a < widths.len()
        invariant
            a <= widths.len(),
            widths_fit(widths@),
            regions@.len() == a,
            forall|k: int|
                0 <= k < a ==> table_seq(#[trigger] regions@[k]) == native_rows(
                    *permutation,
                    k,
                    widths@[k] as nat,
                ) && ragged::columns_match(regions@[k], widths@[k] as nat),
        decreases widths.len() - a,
    {
        regions.push(fixture_region(permutation, a, widths[a]));
        a = a + 1;
    }
    regions
}

/// The points at which the outputs of all regions are claimed.
pub fn native_points(widths: &[usize]) -> (points: Vec<Vec<Block256>>)
    ensures
        points@.len() == widths@.len(),
        forall|a: int|
            0 <= a < widths@.len() ==> (#[trigger] points@[a])@ == native_point(widths@, a as nat),
{
    let mut rng = Rng(POINT_SEED);
    let mut points: Vec<Vec<Block256>> = Vec::with_capacity(widths.len());
    let mut a: usize = 0;
    while a < widths.len()
        invariant
            a <= widths.len(),
            rng.0 == skipped(POINT_SEED, 2 * point_offset(widths@, a as nat)),
            points@.len() == a,
            forall|k: int|
                0 <= k < a ==> (#[trigger] points@[k])@ == native_point(widths@, k as nat),
        decreases widths.len() - a,
    {
        let width: usize = widths[a];
        let ghost offset = point_offset(widths@, a as nat);
        let mut point: Vec<Block256> = Vec::with_capacity(width);
        let mut j: usize = 0;
        while j < width
            invariant
                j <= width,
                a < widths@.len(),
                width == widths@[a as int],
                offset == point_offset(widths@, a as nat),
                rng.0 == skipped(POINT_SEED, 2 * (offset + j as nat)),
                point@ == native_point(widths@, a as nat).take(j as int),
            decreases width - j,
        {
            proof {
                let n = 2 * (offset + j as nat);
                lemma_skipped(POINT_SEED, n, 0);
                lemma_skipped(POINT_SEED, n, 1);
                lemma_skipped(POINT_SEED, n, 2);
            }
            let next = rng.wide();
            point.push(next);
            j = j + 1;
            proof {
                assert(point@ =~= native_point(widths@, a as nat).take(j as int));
            }
        }
        proof {
            assert(point@ =~= native_point(widths@, a as nat));
        }
        points.push(point);
        a = a + 1;
    }
    points
}

/// Rows followed by zero rows up to `n` variables.
pub open spec fn padded_rows(rows: Seq<Seq<Block128>>, n: nat) -> Seq<Seq<Block128>> {
    Seq::new(
        mle::cube(n),
        |i: int|
            if i < rows.len() {
                rows[i]
            } else {
                seq![Block128::nil(), Block128::nil(), Block128::nil(), Block128::nil()]
            },
    )
}

/// A point with further coordinates zero, `n` in all.
pub open spec fn padded_point(point: Seq<Block256>, n: nat) -> Seq<Block256> {
    point + Seq::new((n - point.len()) as nat, |i: int| Block256::nil())
}

/// A column followed by zeros.
fn pad_column(column: &Vec<Block128>, len: usize) -> (out: Vec<Block128>)
    requires
        column@.len() <= len,
    ensures
        out@.len() == len,
        forall|i: int| 0 <= i < column@.len() ==> #[trigger] out@[i] == column@[i],
        forall|i: int| column@.len() <= i < len ==> #[trigger] out@[i] == Block128::nil(),
{
    let mut out = copied(column);
    while out.len() < len
        invariant
            column@.len() <= out@.len() <= len,
            forall|i: int| 0 <= i < column@.len() ==> #[trigger] out@[i] == column@[i],
            forall|i: int| column@.len() <= i < out@.len() ==> #[trigger] out@[i] == Block128::nil(),
        decreases len - out.len(),
    {
        out.push(Block128::zero());
    }
    out
}

/// Four columns followed by zeros up to `n` variables.
fn pad_columns(columns: &[Vec<Block128>; 4], len: usize, w: Ghost<nat>, n: Ghost<nat>) -> (out: [Vec<
    Block128,
>; 4])
    requires
        ragged::columns_match(*columns, w@),
        w@ <= n@,
        len == mle::cube(n@),
    ensures
        table_seq(out) == padded_rows(table_seq(*columns), n@),
        ragged::columns_match(out, n@),
{
    proof {
        mle::lemma_cube_monotone(w@, n@);
    }
    let out = [
        pad_column(&columns[0], len),
        pad_column(&columns[1], len),
        pad_column(&columns[2], len),
        pad_column(&columns[3], len),
    ];
    proof {
        let want = padded_rows(table_seq(*columns), n@);
        assert forall|i: int| 0 <= i < len implies #[trigger] table_seq(out)[i] == want[i] by {
            assert(table_seq(out)[i] =~= want[i]);
        }
        assert(table_seq(out) =~= want);
    }
    out
}

/// A point followed by zeros.
fn pad_point(point: &Vec<Block256>, n: usize) -> (out: Vec<Block256>)
    requires
        point@.len() <= n,
    ensures
        out@ == padded_point(point@, n as nat),
{
    let mut out = copied(point);
    while out.len() < n
        invariant
            point@.len() <= out@.len() <= n,
            forall|i: int| 0 <= i < point@.len() ==> #[trigger] out@[i] == point@[i],
            forall|i: int| point@.len() <= i < out@.len() ==> #[trigger] out@[i] == Block256::nil(),
        decreases n - out.len(),
    {
        out.push(Block256::zero());
    }
    proof {
        assert(out@ =~= padded_point(point@, n as nat));
    }
    out
}

/// Coordinates that are zero select the low part of a table.
pub proof fn zero_coordinates_select<F: TowerField>(table: Seq<F>, point: Seq<F>, m: nat)
    requires
        table.len() == mle::cube(point.len() + m),
    ensures
        mle::mle_eval(table, point + Seq::new(m, |i: int| F::nil())) == mle::mle_eval(
            table.take(mle::cube(point.len()) as int),
            point,
        ),
    decreases m,
{
    let zeros = Seq::new(m, |i: int| F::nil());
    if m == 0 {
        assert(point + zeros =~= point);
        assert(table.take(table.len() as int) =~= table);
    } else {
        let fewer = Seq::new((m - 1) as nat, |i: int| F::nil());
        let half = mle::cube((point.len() + m - 1) as nat);
        mle::lemma_fold_high(table, point + zeros);
        mle::lemma_fold_bit(table);
        assert((point + zeros).drop_last() =~= point + fewer);
        assert((point + zeros).last() == F::nil());
        zero_coordinates_select(table.take(half as int), point, (m - 1) as nat);
        mle::lemma_cube_monotone(point.len(), (point.len() + m - 1) as nat);
        assert(table.take(half as int).take(mle::cube(point.len()) as int) =~= table.take(
            mle::cube(point.len()) as int,
        ));
    }
}

/// Padding preserves output claims: what is claimed of the output of a region holds, at the point
/// with its further coordinates zero, of the output of the padded region.
pub proof fn padding_preserves_claims(
    permutation: Poseidon2bPermutation,
    rows: Seq<Seq<Block128>>,
    claim: LaneView,
    n: nat,
)
    requires
        ragged_walk::rows_shape(rows, claim.point.len()),
        claim.point.len() <= n,
        ragged_walk::claim_true(layer_states::layers_of(permutation, rows, 66), claim),
    ensures
        ragged_walk::rows_shape(padded_rows(rows, n), n),
        ragged_walk::claim_true(
            layer_states::layers_of(permutation, padded_rows(rows, n), 66),
            LaneView { point: padded_point(claim.point, n), values: claim.values },
        ),
{
    let w = claim.point.len();
    mle::lemma_cube_monotone(w, n);
    let small = layer_states::layers_of(permutation, rows, 66);
    let large = layer_states::layers_of(permutation, padded_rows(rows, n), 66);
    let extended = LaneView { point: padded_point(claim.point, n), values: claim.values };
    assert forall|lane: int| 0 <= lane < 4 implies #[trigger] extended.values[lane] == mle::mle_eval(
        wide::embed_column(ragged_walk::base_lane(large, lane)),
        extended.point,
    ) by {
        let table = wide::embed_column(ragged_walk::base_lane(large, lane));
        assert(claim.values[lane] == mle::mle_eval(
            wide::embed_column(ragged_walk::base_lane(small, lane)),
            claim.point,
        ));
        zero_coordinates_select(table, claim.point, (n - w) as nat);
        assert(table.take(mle::cube(w) as int) =~= wide::embed_column(
            ragged_walk::base_lane(small, lane),
        ));
    }
}

/// Whether `input` and `group` are what the construction proves of region `a`: the native table with
/// a true claim on its output, or both padded to `n` variables.
pub open spec fn is_prepared(
    permutation: Poseidon2bPermutation,
    widths: Seq<usize>,
    variant: Variant,
    n: nat,
    a: int,
    input: [Vec<Block128>; 4],
    group: LaneView,
) -> bool {
    let w = widths[a] as nat;
    let rows = native_rows(permutation, a, w);
    let point = native_point(widths, a as nat);
    &&& ragged_walk::claim_true(
        layer_states::layers_of(permutation, rows, 66),
        LaneView { point, values: group.values },
    )
    &&& if variant == Variant::Padded {
        &&& table_seq(input) == padded_rows(rows, n)
        &&& group.point == padded_point(point, n)
        &&& ragged::columns_match(input, n)
    } else {
        &&& table_seq(input) == rows
        &&& group.point == point
        &&& ragged::columns_match(input, w)
    }
}

/// Whether inputs, claims and widths are what the construction proves of regions of the given native
/// widths.
pub open spec fn prepared(
    permutation: Poseidon2bPermutation,
    native: Seq<usize>,
    variant: Variant,
    inputs: Seq<[Vec<Block128>; 4]>,
    groups: Seq<LaneClaim>,
    widths: Seq<usize>,
) -> bool {
    let n = ragged_walk::max_of(ragged::width_seq(native));
    &&& inputs.len() == native.len()
    &&& groups.len() == native.len()
    &&& widths.len() == native.len()
    &&& forall|a: int|
        0 <= a < native.len() ==> #[trigger] is_prepared(
            permutation,
            native,
            variant,
            n,
            a,
            inputs[a],
            groups[a]@,
        )
    &&& forall|a: int|
        0 <= a < native.len() ==> #[trigger] widths[a] == if variant == Variant::Padded {
            n
        } else {
            native[a] as nat
        }
}

/// The largest width bounds every width, and is one of them.
proof fn lemma_largest(widths: Seq<usize>, w: usize)
    requires
        forall|i: int| 0 <= i < widths.len() ==> #[trigger] widths[i] <= w,
        widths.len() > 0 ==> widths.contains(w),
        widths.len() == 0 ==> w == 0,
    ensures
        w == ragged_walk::max_of(ragged::width_seq(widths)),
{
    let all = ragged::width_seq(widths);
    if widths.len() > 0 {
        let i = choose|i: int| 0 <= i < widths.len() && widths[i] == w;
        ragged_walk::lemma_max(all, i);
        lemma_max_bound(all, w as nat);
    }
}

proof fn lemma_max_bound(widths: Seq<nat>, bound: nat)
    requires
        forall|i: int| 0 <= i < widths.len() ==> #[trigger] widths[i] <= bound,
    ensures
        ragged_walk::max_of(widths) <= bound,
    decreases widths.len(),
{
    if widths.len() > 0 {
        assert forall|i: int| 0 <= i < widths.drop_last().len() implies #[trigger]
        widths.drop_last()[i] <= bound by {
            assert(widths.drop_last()[i] == widths[i]);
        }
        lemma_max_bound(widths.drop_last(), bound);
        assert(widths[widths.len() - 1] <= bound);
    }
}

/// Inputs, output claims and widths of a construction on regions of the given native widths.
pub fn prepare_regions(
    permutation: &Poseidon2bPermutation,
    native: &[usize],
    variant: Variant,
) -> (result: (Vec<[Vec<Block128>; 4]>, Vec<LaneClaim>, Vec<usize>))
    requires
        widths_fit(native@),
    ensures
        prepared(*permutation, native@, variant, result.0@, result.1@, result.2@),
{
    let native_inputs = fixture(permutation, native);
    let points = native_points(native);
    let mut outputs: Vec<[Vec<Block128>; 4]> = Vec::with_capacity(native.len());
    let mut a: usize = 0;
    while a < native.len()
        invariant
            a <= native.len(),
            native_inputs@.len() == native@.len(),
            forall|k: int|
                0 <= k < native@.len() ==> table_seq(#[trigger] native_inputs@[k]) == native_rows(
                    *permutation,
                    k,
                    native@[k] as nat,
                ) && ragged::columns_match(native_inputs@[k], native@[k] as nat),
            outputs@.len() == a,
            forall|k: int|
                0 <= k < a ==> table_seq(#[trigger] outputs@[k]) == layer_states::layers_of(
                    *permutation,
                    native_rows(*permutation, k, native@[k] as nat),
                    66,
                ) && ragged::columns_match(outputs@[k], native@[k] as nat),
        decreases native.len() - a,
    {
        proof {
            assert(ragged::columns_match(native_inputs@[a as int], native@[a as int] as nat));
            assert(native_inputs@[a as int]@[0]@.len() == mle::cube(native@[a as int] as nat));
        }
        let output = output_layer_columns(permutation, &native_inputs[a]);
        proof {
            let len = mle::cube(native@[a as int] as nat);
            assert(output@[0]@.len() == len);
            assert(output@[1]@.len() == len);
            assert(output@[2]@.len() == len);
            assert(output@[3]@.len() == len);
        }
        outputs.push(output);
        a = a + 1;
    }
    proof {
        assert forall|k: int| 0 <= k < outputs@.len() implies ragged::columns_match(
            #[trigger] outputs@[k],
            points@[k]@.len(),
        ) by {
            assert(points@[k]@ == native_point(native@, k as nat));
        }
    }
    let groups = claims_from_outputs(&outputs, &points);
    proof {
        assert forall|k: int| 0 <= k < native@.len() implies ragged_walk::claim_true(
            layer_states::layers_of(
                *permutation,
                native_rows(*permutation, k, native@[k] as nat),
                66,
            ),
            LaneView {
                point: native_point(native@, k as nat),
                values: (#[trigger] groups@[k])@.values,
            },
        ) by {
            assert(table_seq(outputs@[k]) == layer_states::layers_of(
                *permutation,
                native_rows(*permutation, k, native@[k] as nat),
                66,
            ));
            assert(points@[k]@ == native_point(native@, k as nat));
        }
    }
    if variant == Variant::Padded {
        let max_width: usize = largest_width(native);
        let ghost n = max_width as nat;
        proof {
            lemma_largest(native@, max_width);
            if native@.len() > 0 {
                let i = choose|i: int| 0 <= i < native@.len() && native@[i] == max_width;
                assert(mle::cube(native@[i] as nat) <= usize::MAX);
            }
        }
        let mut inputs: Vec<[Vec<Block128>; 4]> = Vec::with_capacity(native.len());
        let mut padded_groups: Vec<LaneClaim> = Vec::with_capacity(native.len());
        let mut widths: Vec<usize> = Vec::with_capacity(native.len());
        let mut b: usize = 0;
        while b < native.len()
            invariant
                b <= native.len(),
                variant == Variant::Padded,
                n == max_width,
                native@.len() > 0 ==> mle::cube(n) <= usize::MAX,
                forall|k: int| 0 <= k < native@.len() ==> #[trigger] native@[k] <= max_width,
                native_inputs@.len() == native@.len(),
                points@.len() == native@.len(),
                groups@.len() == native@.len(),
                forall|k: int|
                    0 <= k < native@.len() ==> (#[trigger] points@[k])@ == native_point(
                        native@,
                        k as nat,
                    ),
                forall|k: int|
                    0 <= k < native@.len() ==> table_seq(#[trigger] native_inputs@[k])
                        == native_rows(*permutation, k, native@[k] as nat) && ragged::columns_match(
                        native_inputs@[k],
                        native@[k] as nat,
                    ),
                forall|k: int|
                    0 <= k < native@.len() ==> ragged_walk::claim_true(
                        layer_states::layers_of(
                            *permutation,
                            native_rows(*permutation, k, native@[k] as nat),
                            66,
                        ),
                        LaneView {
                            point: native_point(native@, k as nat),
                            values: (#[trigger] groups@[k])@.values,
                        },
                    ),
                inputs@.len() == b,
                padded_groups@.len() == b,
                widths@.len() == b,
                forall|k: int|
                    0 <= k < b ==> #[trigger] is_prepared(
                        *permutation,
                        native@,
                        variant,
                        n,
                        k,
                        inputs@[k],
                        padded_groups@[k]@,
                    ),
                forall|k: int| 0 <= k < b ==> #[trigger] widths@[k] == n,
            decreases native.len() - b,
        {
            let ghost w = native@[b as int] as nat;
            proof {
                assert(native@[b as int] <= max_width);
                assert(points@[b as int]@ == native_point(native@, b as nat));
                assert(ragged::columns_match(native_inputs@[b as int], w));
            }
            let len: usize = cube_size(max_width);
            inputs.push(pad_columns(&native_inputs[b], len, Ghost(w), Ghost(n)));
            padded_groups.push(
                LaneClaim { point: pad_point(&points[b], max_width), values: groups[b].values },
            );
            widths.push(max_width);
            proof {
                assert(groups@[b as int]@.values == padded_groups@[b as int]@.values);
                assert(is_prepared(
                    *permutation,
                    native@,
                    variant,
                    n,
                    b as int,
                    inputs@[b as int],
                    padded_groups@[b as int]@,
                ));
            }
            b = b + 1;
        }
        (inputs, padded_groups, widths)
    } else {
        let widths = copied(native);
        proof {
            let n = ragged_walk::max_of(ragged::width_seq(native@));
            assert forall|k: int| 0 <= k < native@.len() implies #[trigger] is_prepared(
                *permutation,
                native@,
                variant,
                n,
                k,
                native_inputs@[k],
                groups@[k]@,
            ) by {
                assert(points@[k]@ == native_point(native@, k as nat));
                assert(groups@[k]@.point == points@[k]@);
            }
        }
        (native_inputs, groups, widths)
    }
}

/// Inputs, output claims and widths of a construction on the compared regions.
pub fn prepare(permutation: &Poseidon2bPermutation, variant: Variant) -> (result: (
    Vec<[Vec<Block128>; 4]>,
    Vec<LaneClaim>,
    Vec<usize>,
))
    ensures
        prepared(
            *permutation,
            PRODUCTION_WIDTHS@,
            variant,
            result.0@,
            result.1@,
            result.2@,
        ),
{
    proof {
        assert forall|a: int| 0 <= a < 9 implies mle::cube(
            #[trigger] PRODUCTION_WIDTHS@[a] as nat,
        ) <= usize::MAX by {
            mle::lemma_cube_monotone(PRODUCTION_WIDTHS@[a] as nat, 17);
            reveal_with_fuel(mle::cube, 18);
        }
    }
    prepare_regions(permutation, &PRODUCTION_WIDTHS, variant)
}

/// The proofs of a construction.
#[derive(Clone, Debug, PartialEq, Eq)]
pub enum Proofs {
    Independent(Vec<RaggedProof>),
    Aggregate(RaggedProof),
}

/// The messages of the proofs of a construction.
pub enum ProofsView {
    /// One walk per region.
    Independent(Seq<Seq<LayerView>>),
    /// One walk over all regions.
    Aggregate(Seq<LayerView>),
}

/// The messages of a list of proofs.
pub open spec fn proof_views(proofs: Seq<RaggedProof>) -> Seq<Seq<LayerView>> {
    Seq::new(proofs.len(), |a: int| ragged::layer_views(proofs[a].layers@))
}

impl View for Proofs {
    type V = ProofsView;

    open spec fn view(&self) -> ProofsView {
        match *self {
            Proofs::Independent(proofs) => ProofsView::Independent(proof_views(proofs@)),
            Proofs::Aggregate(proof) => ProofsView::Aggregate(
                ragged::layer_views(proof.layers@),
            ),
        }
    }
}

/// Wire size of a list of walks.
pub open spec fn walks_byte_len(walks: Seq<Seq<LayerView>>) -> nat
    decreases walks.len(),
{
    if walks.len() == 0 {
        0
    } else {
        walks_byte_len(walks.drop_last()) + ragged::layers_byte_len(walks.last())
    }
}

proof fn lemma_walks_prefix(walks: Seq<Seq<LayerView>>, i: nat)
    requires
        i <= walks.len(),
    ensures
        walks_byte_len(walks.take(i as int)) <= walks_byte_len(walks),
    decreases walks.len(),
{
    if i == walks.len() {
        assert(walks.take(i as int) =~= walks);
    } else {
        lemma_walks_prefix(walks.drop_last(), i);
        assert(walks.drop_last().take(i as int) =~= walks.take(i as int));
    }
}

impl ProofsView {
    /// Wire size of the proofs.
    pub open spec fn size(self) -> nat {
        match self {
            ProofsView::Independent(walks) => walks_byte_len(walks),
            ProofsView::Aggregate(layers) => ragged::layers_byte_len(layers),
        }
    }
}

impl Proofs {
    /// Raw algebraic transcript size.
    pub fn byte_len(&self) -> (r: usize)
        requires
            self@.size() <= usize::MAX,
        ensures
            r == self@.size(),
    {
        match self {
            Proofs::Independent(proofs) => {
                let ghost walks = proof_views(proofs@);
                let mut total: usize = 0;
                let mut i: usize = 0;
                while i < proofs.len()
                    invariant
                        i <= proofs.len(),
                        walks == proof_views(proofs@),
                        walks_byte_len(walks) <= usize::MAX,
                        total == walks_byte_len(walks.take(i as int)),
                    decreases proofs.len() - i,
                {
                    proof {
                        lemma_walks_prefix(walks, (i + 1) as nat);
                        assert(walks.take(i + 1).drop_last() =~= walks.take(i as int));
                        assert(walks.take(i + 1).last() == ragged::layer_views(
                            proofs@[i as int].layers@,
                        ));
                    }
                    total = total + proofs[i].byte_len();
                    i = i + 1;
                }
                proof {
                    assert(walks.take(i as int) =~= walks);
                }
                total
            },
            Proofs::Aggregate(proof) => proof.byte_len(),
        }
    }
}

/// Rows of the input tables in all, counted on the first column of each region.
pub open spec fn physical_rows(inputs: Seq<[Vec<Block128>; 4]>) -> nat
    decreases inputs.len(),
{
    if inputs.len() == 0 {
        0
    } else {
        physical_rows(inputs.drop_last()) + inputs.last()@[0]@.len()
    }
}

proof fn lemma_rows_prefix(inputs: Seq<[Vec<Block128>; 4]>, i: nat)
    requires
        i <= inputs.len(),
    ensures
        physical_rows(inputs.take(i as int)) <= physical_rows(inputs),
    decreases inputs.len(),
{
    if i == inputs.len() {
        assert(inputs.take(i as int) =~= inputs);
    } else {
        lemma_rows_prefix(inputs.drop_last(), i);
        assert(inputs.drop_last().take(i as int) =~= inputs.take(i as int));
    }
}

/// Inputs of the given widths have as many rows as the widths call for.
pub proof fn rows_follow_widths(inputs: Seq<[Vec<Block128>; 4]>, widths: Seq<usize>)
    requires
        inputs.len() == widths.len(),
        forall|a: int|
            0 <= a < inputs.len() ==> ragged::columns_match(
                #[trigger] inputs[a],
                widths[a] as nat,
            ),
    ensures
        physical_rows(inputs) == bench_plan::row_total(widths),
    decreases inputs.len(),
{
    if inputs.len() > 0 {
        assert(ragged::columns_match(inputs.last(), widths.last() as nat));
        assert forall|a: int| 0 <= a < inputs.len() - 1 implies ragged::columns_match(
            #[trigger] inputs.drop_last()[a],
            widths.drop_last()[a] as nat,
        ) by {
            assert(ragged::columns_match(inputs[a], widths[a] as nat));
        }
        rows_follow_widths(inputs.drop_last(), widths.drop_last());
    }
}

/// The sizes of a sample: the rows of its inputs, the bytes of one layer of states at 64 bytes a row,
/// and the bytes of its proofs.
pub fn sample_shape(inputs: &[[Vec<Block128>; 4]], proofs: &Proofs) -> (shape: SampleShape)
    requires
        64 * physical_rows(inputs@) <= usize::MAX,
        proofs@.size() <= usize::MAX,
    ensures
        shape.physical_rows == physical_rows(inputs@),
        shape.layer_bytes == 64 * physical_rows(inputs@),
        shape.proof_bytes == proofs@.size(),
{
    let mut rows: usize = 0;
    let mut i: usize = 0;
    while i < inputs.len()
        invariant
            i <= inputs.len(),
            64 * physical_rows(inputs@) <= usize::MAX,
            rows == physical_rows(inputs@.take(i as int)),
        decreases inputs.len() - i,
    {
        proof {
            lemma_rows_prefix(inputs@, (i + 1) as nat);
            assert(inputs@.take(i + 1).drop_last() =~= inputs@.take(i as int));
        }
        rows = rows + inputs[i][0].len();
        i = i + 1;
    }
    proof {
        assert(inputs@.take(i as int) =~= inputs@);
    }
    SampleShape { physical_rows: rows, layer_bytes: rows * 64, proof_bytes: proofs.byte_len() }
}

/// Whether inputs and claims fit together.
pub open spec fn provable(inputs: Seq<[Vec<Block128>; 4]>, groups: Seq<LaneClaim>) -> bool {
    &&& inputs.len() > 0
    &&& inputs.len() == groups.len()
    &&& forall|a: int|
        0 <= a < inputs.len() ==> (#[trigger] groups[a]).point@.len() > 0 && ragged::columns_match(
            inputs[a],
            groups[a].point@.len(),
        )
}

/// The layer-zero rows of all regions.
pub open spec fn input_tables(inputs: Seq<[Vec<Block128>; 4]>) -> Seq<Seq<Seq<Block128>>> {
    Seq::new(inputs.len(), |a: int| table_seq(inputs[a]))
}

/// The messages of the honest walk over regions with the given layer-zero rows.
pub open spec fn honest_walk(
    permutation: Poseidon2bPermutation,
    tables: Seq<Seq<Seq<Block128>>>,
    groups: Seq<LaneView>,
) -> Seq<LayerView> {
    ragged::walk_run::<Poseidon2bChannel>(
        permutation,
        ragged::claim_widths(groups),
        tables,
        groups,
        channel::fresh(permutation),
        66,
    ).layers
}

/// The honest proofs of a construction.
pub open spec fn honest_proofs(
    permutation: Poseidon2bPermutation,
    variant: Variant,
    tables: Seq<Seq<Seq<Block128>>>,
    groups: Seq<LaneView>,
) -> ProofsView {
    if variant == Variant::Independent {
        ProofsView::Independent(
            Seq::new(
                tables.len(),
                |a: int| honest_walk(permutation, seq![tables[a]], seq![groups[a]]),
            ),
        )
    } else {
        ProofsView::Aggregate(honest_walk(permutation, tables, groups))
    }
}

/// A copy of a claim.
fn copy_claim(claim: &LaneClaim) -> (out: LaneClaim)
    ensures
        out@ == claim@,
{
    LaneClaim { point: copied(&claim.point), values: claim.values }
}

/// References to all regions.
fn references(inputs: &[[Vec<Block128>; 4]]) -> (out: Vec<&[Vec<Block128>; 4]>)
    ensures
        out@.len() == inputs@.len(),
        forall|a: int| 0 <= a < inputs@.len() ==> *(#[trigger] out@[a]) == inputs@[a],
{
    let mut out: Vec<&[Vec<Block128>; 4]> = Vec::with_capacity(inputs.len());
    let mut a: usize = 0;
    while a < inputs.len()
        invariant
            a <= inputs.len(),
            out@.len() == a,
            forall|k: int| 0 <= k < a ==> *(#[trigger] out@[k]) == inputs@[k],
        decreases inputs.len() - a,
    {
        out.push(&inputs[a]);
        a = a + 1;
    }
    out
}

/// The walk over one region on a fresh channel.
fn prove_single(permutation: &Poseidon2bPermutation, input: &[Vec<Block128>; 4], group: &LaneClaim) -> (proof:
    RaggedProof)
    requires
        group.point@.len() > 0,
        ragged::columns_match(*input, group.point@.len()),
    ensures
        ragged::layer_views(proof.layers@) == honest_walk(
            *permutation,
            seq![table_seq(*input)],
            seq![group@],
        ),
{
    let mut regions: Vec<&[Vec<Block128>; 4]> = Vec::with_capacity(1);
    regions.push(input);
    let mut groups: Vec<LaneClaim> = Vec::with_capacity(1);
    groups.push(copy_claim(group));
    proof {
        assert(ragged::lane_views(groups@) =~= seq![group@]);
        assert(ragged::layer_zero_tables(regions@) =~= seq![table_seq(*input)]);
    }
    let mut channel = WideChannel::new(Poseidon2bChannel::new(*permutation));
    prove_ragged(permutation, &regions, &groups, &mut channel).0
}

/// Prove the claims with a construction, each walk on a fresh channel.
pub fn prove_once(
    permutation: &Poseidon2bPermutation,
    variant: Variant,
    inputs: &[[Vec<Block128>; 4]],
    groups: &[LaneClaim],
) -> (proofs: Proofs)
    requires
        provable(inputs@, groups@),
    ensures
        proofs@ == honest_proofs(
            *permutation,
            variant,
            input_tables(inputs@),
            ragged::lane_views(groups@),
        ),
{
    if variant == Variant::Independent {
        let mut proofs: Vec<RaggedProof> = Vec::with_capacity(inputs.len());
        let mut a: usize = 0;
        while a < inputs.len()
            invariant
                a <= inputs.len(),
                provable(inputs@, groups@),
                proofs@.len() == a,
                forall|k: int|
                    0 <= k < a ==> ragged::layer_views((#[trigger] proofs@[k]).layers@)
                        == honest_walk(
                        *permutation,
                        seq![table_seq(inputs@[k])],
                        seq![groups@[k]@],
                    ),
            decreases inputs.len() - a,
        {
            proof {
                assert(groups@[a as int].point@.len() > 0);
            }
            proofs.push(prove_single(permutation, &inputs[a], &groups[a]));
            a = a + 1;
        }
        proof {
            let tables = input_tables(inputs@);
            let views = ragged::lane_views(groups@);
            assert(proof_views(proofs@) =~= Seq::new(
                tables.len(),
                |k: int| honest_walk(*permutation, seq![tables[k]], seq![views[k]]),
            ));
        }
        Proofs::Independent(proofs)
    } else {
        let regions = references(inputs);
        proof {
            assert(ragged::layer_zero_tables(regions@) =~= input_tables(inputs@));
            assert forall|a: int| 0 <= a < regions@.len() implies (#[trigger]
            groups@[a]).point@.len() > 0 && ragged::columns_match(
                *regions@[a],
                groups@[a].point@.len(),
            ) by {
                assert(*regions@[a] == inputs@[a]);
            }
        }
        let mut channel = WideChannel::new(Poseidon2bChannel::new(*permutation));
        Proofs::Aggregate(prove_ragged(permutation, &regions, groups, &mut channel).0)
    }
}

/// Whether the verifier accepts a walk on a fresh channel and, if asked for, its terminal claims are
/// true of the layer-zero rows.
pub open spec fn walk_holds(
    permutation: Poseidon2bPermutation,
    widths: Seq<nat>,
    tables: Seq<Seq<Seq<Block128>>>,
    groups: Seq<LaneView>,
    layers: Seq<LayerView>,
    discharge: bool,
) -> bool {
    let verdict = ragged::ragged_verdict::<Poseidon2bChannel>(
        permutation,
        widths,
        groups,
        layers,
        channel::fresh(permutation),
    ).0;
    &&& verdict is Ok
    &&& discharge ==> ragged::claims_true(tables, verdict->Ok_0)
}

/// Whether one walk holds for the region in its place alone.
pub open spec fn single_holds(
    permutation: Poseidon2bPermutation,
    widths: Seq<nat>,
    tables: Seq<Seq<Seq<Block128>>>,
    groups: Seq<LaneView>,
    walks: Seq<Seq<LayerView>>,
    discharge: bool,
    a: int,
) -> bool {
    walk_holds(
        permutation,
        seq![widths[a]],
        seq![tables[a]],
        seq![groups[a]],
        walks[a],
        discharge,
    )
}

/// Whether the walks hold, each for the region in its place, as far as there are both.
pub open spec fn singles_hold(
    permutation: Poseidon2bPermutation,
    widths: Seq<nat>,
    tables: Seq<Seq<Seq<Block128>>>,
    groups: Seq<LaneView>,
    walks: Seq<Seq<LayerView>>,
    discharge: bool,
) -> bool {
    forall|a: int|
        0 <= a < walks.len() && a < tables.len() ==> #[trigger] single_holds(
            permutation,
            widths,
            tables,
            groups,
            walks,
            discharge,
            a,
        )
}

/// Whether the proofs are those of the construction and all of them hold.  Independent proofs are
/// paired with the regions in order, as far as both go.
pub open spec fn proofs_hold(
    permutation: Poseidon2bPermutation,
    variant: Variant,
    widths: Seq<nat>,
    tables: Seq<Seq<Seq<Block128>>>,
    groups: Seq<LaneView>,
    proofs: ProofsView,
    discharge: bool,
) -> bool {
    match proofs {
        ProofsView::Independent(walks) => {
            &&& variant == Variant::Independent
            &&& singles_hold(permutation, widths, tables, groups, walks, discharge)
        },
        ProofsView::Aggregate(layers) => {
            &&& variant != Variant::Independent
            &&& walk_holds(permutation, widths, tables, groups, layers, discharge)
        },
    }
}

/// Verify one walk on a fresh channel.
fn verify_walk(
    permutation: &Poseidon2bPermutation,
    regions: &[&[Vec<Block128>; 4]],
    groups: &[LaneClaim],
    widths: &[usize],
    proof: &RaggedProof,
    discharge: bool,
) -> (holds: bool)
    requires
        widths@.len() == regions@.len(),
        forall|a: int|
            0 <= a < regions@.len() ==> ragged::columns_match(
                *#[trigger] regions@[a],
                widths@[a] as nat,
            ),
    ensures
        holds == walk_holds(
            *permutation,
            ragged::width_seq(widths@),
            ragged::layer_zero_tables(regions@),
            ragged::lane_views(groups@),
            ragged::layer_views(proof.layers@),
            discharge,
        ),
{
    let mut channel = WideChannel::new(Poseidon2bChannel::new(*permutation));
    match verify_ragged(permutation, widths, groups, proof, &mut channel) {
        Ok(terminals) => {
            if discharge {
                proof {
                    let w = ragged::width_seq(widths@);
                    let views = ragged::lane_views(terminals@);
                    assert forall|a: int| 0 <= a < regions@.len() implies ragged::columns_match(
                        *#[trigger] regions@[a],
                        terminals@[a].point@.len(),
                    ) by {
                        assert(views[a].point.len() == w[a]);
                    }
                }
                discharge_terminals(regions, &terminals)
            } else {
                true
            }
        },
        Err(_) => false,
    }
}

/// Verify the proofs of a construction, each walk on a fresh channel, with or without evaluating the
/// terminal claims on the layer-zero columns.  Independent proofs are paired with the regions in order,
/// as far as both go.
pub fn verify_once(
    permutation: &Poseidon2bPermutation,
    variant: Variant,
    inputs: &[[Vec<Block128>; 4]],
    groups: &[LaneClaim],
    widths: &[usize],
    proofs: &Proofs,
    discharge: bool,
) -> (holds: bool)
    requires
        inputs@.len() == groups@.len(),
        inputs@.len() == widths@.len(),
        forall|a: int|
            0 <= a < inputs@.len() ==> ragged::columns_match(
                #[trigger] inputs@[a],
                widths@[a] as nat,
            ),
    ensures
        holds == proofs_hold(
            *permutation,
            variant,
            ragged::width_seq(widths@),
            input_tables(inputs@),
            ragged::lane_views(groups@),
            proofs@,
            discharge,
        ),
{
    let ghost w = ragged::width_seq(widths@);
    let ghost tables = input_tables(inputs@);
    let ghost views = ragged::lane_views(groups@);
    match proofs {
        Proofs::Independent(list) => {
            let ghost walks = proof_views(list@);
            if variant != Variant::Independent {
                return false;
            }
            let mut a: usize = 0;
            while a < list.len() && a < inputs.len()
                invariant
                    a <= list.len(),
                    a <= inputs.len(),
                    variant == Variant::Independent,
                    proofs@ == ProofsView::Independent(walks),
                    inputs@.len() == groups@.len(),
                    inputs@.len() == widths@.len(),
                    w == ragged::width_seq(widths@),
                    tables == input_tables(inputs@),
                    views == ragged::lane_views(groups@),
                    walks == proof_views(list@),
                    forall|k: int|
                        0 <= k < inputs@.len() ==> ragged::columns_match(
                            #[trigger] inputs@[k],
                            widths@[k] as nat,
                        ),
                    forall|k: int|
                        0 <= k < a ==> #[trigger] single_holds(
                            *permutation,
                            w,
                            tables,
                            views,
                            walks,
                            discharge,
                            k,
                        ),
                decreases list.len() - a,
            {
                let mut region: Vec<&[Vec<Block128>; 4]> = Vec::with_capacity(1);
                region.push(&inputs[a]);
                let mut group: Vec<LaneClaim> = Vec::with_capacity(1);
                group.push(copy_claim(&groups[a]));
                let mut width: Vec<usize> = Vec::with_capacity(1);
                width.push(widths[a]);
                proof {
                    assert(ragged::columns_match(inputs@[a as int], widths@[a as int] as nat));
                    assert(ragged::width_seq(width@) =~= seq![w[a as int]]);
                    assert(ragged::layer_zero_tables(region@) =~= seq![tables[a as int]]);
                    assert(ragged::lane_views(group@) =~= seq![views[a as int]]);
                    assert(walks[a as int] == ragged::layer_views(list@[a as int].layers@));
                }
                if !verify_walk(permutation, &region, &group, &width, &list[a], discharge) {
                    assert(!single_holds(
                        *permutation,
                        w,
                        tables,
                        views,
                        walks,
                        discharge,
                        a as int,
                    ));
                    return false;
                }
                a = a + 1;
            }
            true
        },
        Proofs::Aggregate(walk) => {
            if variant == Variant::Independent {
                return false;
            }
            let regions = references(inputs);
            proof {
                assert(ragged::layer_zero_tables(regions@) =~= tables);
                assert forall|a: int| 0 <= a < regions@.len() implies ragged::columns_match(
                    *#[trigger] regions@[a],
                    widths@[a] as nat,
                ) by {
                    assert(ragged::columns_match(inputs@[a], widths@[a] as nat));
                }
            }
            verify_walk(permutation, &regions, groups, widths, walk, discharge)
        },
    }
}

/// The messages of a walk with one added to the coefficient of `X^3` in the first round of the fourth
/// layer sent.
pub open spec fn corrupted_walk(layers: Seq<LayerView>) -> Seq<LayerView> {
    let layer = layers[3];
    let wire = layer.wires[0];
    let wires = layer.wires.update(0, wire.update(2, wire[2].plus(Block256::unit())));
    layers.update(3, LayerView { wires, next: layer.next })
}

/// Whether a walk has the coefficient that is corrupted.
pub open spec fn corruptible(layers: Seq<LayerView>) -> bool {
    layers.len() > 3 && layers[3].wires.len() > 0
}

/// Corrupt one coefficient of a walk.
fn corrupt_walk(walk: &mut RaggedProof)
    requires
        corruptible(ragged::layer_views(old(walk).layers@)),
    ensures
        ragged::layer_views(final(walk).layers@) == corrupted_walk(
            ragged::layer_views(old(walk).layers@),
        ),
{
    let ghost before = walk.layers@;
    let changed = walk.layers[3].round_coeffs[0][2] + Block256::one();
    walk.layers[3].round_coeffs[0][2] = changed;
    proof {
        let views = ragged::layer_views(before);
        let want = corrupted_walk(views);
        let got = ragged::layer_views(walk.layers@);
        assert(views[3].wires[0] == before[3].round_coeffs@[0]@);
        assert(got[3].wires[0] =~= want[3].wires[0]);
        assert(got[3].wires =~= want[3].wires);
        assert(got[3].next =~= want[3].next);
        assert forall|i: int| 0 <= i < got.len() implies #[trigger] got[i] == want[i] by {
            if i != 3 {
                assert(walk.layers@[i] == before[i]);
            }
        }
        assert(got =~= want);
    }
}

/// The walk in which proofs are corrupted: the first or the only one.
pub open spec fn first_walk(proofs: ProofsView) -> Seq<LayerView> {
    match proofs {
        ProofsView::Independent(walks) => walks[0],
        ProofsView::Aggregate(layers) => layers,
    }
}

/// Corrupt one coefficient of the first walk.
pub fn corrupt(proofs: &mut Proofs)
    requires
        old(proofs)@ matches ProofsView::Independent(walks) ==> walks.len() > 0,
        corruptible(first_walk(old(proofs)@)),
    ensures
        final(proofs)@ == match old(proofs)@ {
            ProofsView::Independent(walks) => ProofsView::Independent(
                walks.update(0, corrupted_walk(walks[0])),
            ),
            ProofsView::Aggregate(layers) => ProofsView::Aggregate(corrupted_walk(layers)),
        },
{
    match proofs {
        Proofs::Independent(list) => {
            let ghost before = list@;
            corrupt_walk(&mut list[0]);
            proof {
                assert(proof_views(list@) =~= proof_views(before).update(
                    0,
                    corrupted_walk(proof_views(before)[0]),
                ));
            }
        },
        Proofs::Aggregate(walk) => {
            corrupt_walk(walk);
        },
    }
}

/// Whether the verifier rejects the first walk.
pub fn first_walk_rejected(
    permutation: &Poseidon2bPermutation,
    groups: &[LaneClaim],
    widths: &[usize],
    proofs: &Proofs,
) -> (rejected: bool)
    requires
        proofs@ matches ProofsView::Independent(walks) ==> walks.len() > 0 && groups@.len() > 0
            && widths@.len() > 0,
    ensures
        rejected == match proofs@ {
            ProofsView::Independent(walks) => ragged::ragged_verdict::<Poseidon2bChannel>(
                *permutation,
                seq![widths@[0] as nat],
                seq![groups@[0]@],
                walks[0],
                channel::fresh(*permutation),
            ).0 is Err,
            ProofsView::Aggregate(layers) => ragged::ragged_verdict::<Poseidon2bChannel>(
                *permutation,
                ragged::width_seq(widths@),
                ragged::lane_views(groups@),
                layers,
                channel::fresh(*permutation),
            ).0 is Err,
        },
{
    let mut channel = WideChannel::new(Poseidon2bChannel::new(*permutation));
    match proofs {
        Proofs::Independent(list) => {
            let mut group: Vec<LaneClaim> = Vec::with_capacity(1);
            group.push(copy_claim(&groups[0]));
            let mut width: Vec<usize> = Vec::with_capacity(1);
            width.push(widths[0]);
            proof {
                assert(ragged::width_seq(width@) =~= seq![widths@[0] as nat]);
                assert(ragged::lane_views(group@) =~= seq![groups@[0]@]);
            }
            verify_ragged(permutation, &width, &group, &list[0], &mut channel).is_err()
        },
        Proofs::Aggregate(walk) => {
            verify_ragged(permutation, widths, groups, walk, &mut channel).is_err()
        },
    }
}

/// Whether claims and tables have the shape of the regions, and the claims are true of layer 66.
pub open spec fn statement_true(
    permutation: Poseidon2bPermutation,
    widths: Seq<nat>,
    tables: Seq<Seq<Seq<Block128>>>,
    groups: Seq<LaneView>,
) -> bool {
    &&& widths.len() > 0
    &&& ragged_walk::groups_shape(widths, groups)
    &&& ragged_walk::tables_shape(widths, tables)
    &&& ragged::claims_true(ragged::tables_at(permutation, tables, 66), groups)
}

/// What a construction is given to prove is true, for native regions of positive width.
pub proof fn prepared_statement_is_true(
    permutation: Poseidon2bPermutation,
    native: Seq<usize>,
    variant: Variant,
    inputs: Seq<[Vec<Block128>; 4]>,
    groups: Seq<LaneClaim>,
    widths: Seq<usize>,
)
    requires
        native.len() > 0,
        forall|a: int| 0 <= a < native.len() ==> #[trigger] native[a] > 0,
        prepared(permutation, native, variant, inputs, groups, widths),
    ensures
        provable(inputs, groups),
        statement_true(
            permutation,
            ragged::width_seq(widths),
            input_tables(inputs),
            ragged::lane_views(groups),
        ),
{
    let n = ragged_walk::max_of(ragged::width_seq(native));
    let w = ragged::width_seq(widths);
    let tables = input_tables(inputs);
    let views = ragged::lane_views(groups);
    let outputs = ragged::tables_at(permutation, tables, 66);
    assert forall|a: int| 0 <= a < native.len() implies {
        &&& (#[trigger] groups[a]).point@.len() == widths[a]
        &&& groups[a].point@.len() > 0
        &&& ragged::columns_match(inputs[a], groups[a].point@.len())
        &&& groups[a]@.values.len() == 4
        &&& ragged_walk::rows_shape(tables[a], w[a])
        &&& ragged_walk::claim_true(outputs[a], views[a])
    } by {
        assert(is_prepared(permutation, native, variant, n, a, inputs[a], groups[a]@));
        assert(native[a] > 0);
        assert(widths[a] == if variant == Variant::Padded {
            n
        } else {
            native[a] as nat
        });
        ragged_walk::lemma_max(ragged::width_seq(native), a);
        let rows = native_rows(permutation, a, native[a] as nat);
        let claim = LaneView {
            point: native_point(native, a as nat),
            values: groups[a]@.values,
        };
        assert(groups[a]@.values == groups[a].values@);
        lemma_native_shape(permutation, a, native[a] as nat);
        padding_preserves_claims(permutation, rows, claim, n);
        assert(views[a] == groups[a]@);
        assert(tables[a] == table_seq(inputs[a]));
        if variant == Variant::Padded {
            assert(views[a] == (LaneView {
                point: padded_point(claim.point, n),
                values: claim.values,
            }));
        } else {
            assert(views[a] == claim);
        }
    }
    assert(ragged_walk::groups_shape(w, views)) by {
        assert forall|a: int| 0 <= a < views.len() implies (#[trigger] views[a]).point.len() == w[a]
            && views[a].values.len() == 4 && w[a] > 0 by {
            assert(groups[a].point@.len() == widths[a]);
        }
    }
    assert(ragged_walk::tables_shape(w, tables)) by {
        assert forall|a: int| 0 <= a < tables.len() implies ragged_walk::rows_shape(
            #[trigger] tables[a],
            w[a],
        ) by {
            assert(groups[a].point@.len() == widths[a]);
        }
    }
    assert forall|a: int| 0 <= a < views.len() implies ragged_walk::claim_true(
        outputs[a],
        #[trigger] views[a],
    ) by {
        assert(groups[a].point@.len() == widths[a]);
    }
}

proof fn lemma_native_shape(permutation: Poseidon2bPermutation, a: int, w: nat)
    ensures
        ragged_walk::rows_shape(native_rows(permutation, a, w), w),
{
}

/// All constructions claim the same output values.
pub proof fn constructions_claim_the_same(
    permutation: Poseidon2bPermutation,
    native: Seq<usize>,
    first: Variant,
    inputs: Seq<[Vec<Block128>; 4]>,
    groups: Seq<LaneClaim>,
    widths: Seq<usize>,
    second: Variant,
    other_inputs: Seq<[Vec<Block128>; 4]>,
    other_groups: Seq<LaneClaim>,
    other_widths: Seq<usize>,
    a: int,
)
    requires
        prepared(permutation, native, first, inputs, groups, widths),
        prepared(permutation, native, second, other_inputs, other_groups, other_widths),
        0 <= a < native.len(),
    ensures
        groups[a]@.values == other_groups[a]@.values,
{
    let n = ragged_walk::max_of(ragged::width_seq(native));
    assert(is_prepared(permutation, native, first, n, a, inputs[a], groups[a]@));
    assert(is_prepared(permutation, native, second, n, a, other_inputs[a], other_groups[a]@));
    let outputs = layer_states::layers_of(
        permutation,
        native_rows(permutation, a, native[a] as nat),
        66,
    );
    let point = native_point(native, a as nat);
    let x = LaneView { point, values: groups[a]@.values };
    let y = LaneView { point, values: other_groups[a]@.values };
    assert forall|lane: int| 0 <= lane < 4 implies x.values[lane] == #[trigger] y.values[lane] by {
        assert(x.values[lane] == mle::mle_eval(
            wide::embed_column(ragged_walk::base_lane(outputs, lane)),
            point,
        ));
    }
    assert(x.values =~= y.values);
}

/// Every construction is complete: its honest proofs of a true statement are accepted, and the
/// terminal claims are true of the layer-zero rows.
pub proof fn constructions_are_complete(
    permutation: Poseidon2bPermutation,
    variant: Variant,
    widths: Seq<nat>,
    tables: Seq<Seq<Seq<Block128>>>,
    groups: Seq<LaneView>,
)
    requires
        statement_true(permutation, widths, tables, groups),
    ensures
        proofs_hold(
            permutation,
            variant,
            widths,
            tables,
            groups,
            honest_proofs(permutation, variant, tables, groups),
            true,
        ),
{
    let state = channel::fresh(permutation);
    if variant == Variant::Independent {
        assert forall|a: int| 0 <= a < tables.len() implies walk_holds(
            permutation,
            seq![widths[a]],
            seq![tables[a]],
            seq![groups[a]],
            #[trigger] honest_walk(permutation, seq![tables[a]], seq![groups[a]]),
            true,
        ) by {
            lemma_one_region(permutation, widths, tables, groups, a);
            assert(ragged::claim_widths(seq![groups[a]]) =~= seq![widths[a]]);
            ragged::ragged_completeness::<Poseidon2bChannel>(
                permutation,
                seq![widths[a]],
                seq![tables[a]],
                seq![groups[a]],
                state,
            );
        }
    } else {
        assert(ragged::claim_widths(groups) =~= widths);
        ragged::ragged_completeness::<Poseidon2bChannel>(
            permutation,
            widths,
            tables,
            groups,
            state,
        );
    }
}

proof fn lemma_one_region(
    permutation: Poseidon2bPermutation,
    widths: Seq<nat>,
    tables: Seq<Seq<Seq<Block128>>>,
    groups: Seq<LaneView>,
    a: int,
)
    requires
        statement_true(permutation, widths, tables, groups),
        0 <= a < tables.len(),
    ensures
        statement_true(permutation, seq![widths[a]], seq![tables[a]], seq![groups[a]]),
        groups[a].point.len() == widths[a],
{
    let outputs = ragged::tables_at(permutation, tables, 66);
    assert(groups[a].point.len() == widths[a]);
    assert(ragged_walk::rows_shape(tables[a], widths[a]));
    assert(ragged_walk::claim_true(outputs[a], groups[a]));
    assert(ragged::tables_at(permutation, seq![tables[a]], 66) =~= seq![outputs[a]]);
}

/// Wire sizes of the honest proofs of a true statement: `66 · 32 · (8 W + 4 A)` bytes for an aggregate
/// walk over `A` regions of largest width `W`, and `66 · 32 · (8 w + 4)` bytes for each independent
/// walk over a region of width `w`.
pub proof fn construction_sizes(
    permutation: Poseidon2bPermutation,
    widths: Seq<nat>,
    tables: Seq<Seq<Seq<Block128>>>,
    groups: Seq<LaneView>,
)
    requires
        statement_true(permutation, widths, tables, groups),
    ensures
        honest_proofs(permutation, Variant::Padded, tables, groups).size() == 66 * (32 * (8
            * ragged_walk::max_of(widths) + 4 * widths.len())),
        honest_proofs(permutation, Variant::Ragged, tables, groups).size() == 66 * (32 * (8
            * ragged_walk::max_of(widths) + 4 * widths.len())),
        honest_proofs(permutation, Variant::Independent, tables, groups).size()
            == independent_size(widths),
{
    let state = channel::fresh(permutation);
    assert(ragged::claim_widths(groups) =~= widths);
    ragged::ragged_completeness::<Poseidon2bChannel>(permutation, widths, tables, groups, state);
    let walks = Seq::new(
        tables.len(),
        |a: int| honest_walk(permutation, seq![tables[a]], seq![groups[a]]),
    );
    assert forall|a: int| 0 <= a < walks.len() implies ragged::layers_byte_len(#[trigger] walks[a])
        == 66 * (32 * (8 * widths[a] + 4)) by {
        lemma_one_region(permutation, widths, tables, groups, a);
        assert(ragged::claim_widths(seq![groups[a]]) =~= seq![widths[a]]);
        ragged::ragged_completeness::<Poseidon2bChannel>(
            permutation,
            seq![widths[a]],
            seq![tables[a]],
            seq![groups[a]],
            state,
        );
        reveal_with_fuel(ragged_walk::max_of, 2);
    }
    lemma_walk_sizes(walks, widths);
}

/// Wire size of one independent walk per region.
pub open spec fn independent_size(widths: Seq<nat>) -> nat
    decreases widths.len(),
{
    if widths.len() == 0 {
        0
    } else {
        independent_size(widths.drop_last()) + 66 * (32 * (8 * widths.last() + 4))
    }
}

proof fn lemma_walk_sizes(walks: Seq<Seq<LayerView>>, widths: Seq<nat>)
    requires
        walks.len() == widths.len(),
        forall|a: int|
            0 <= a < walks.len() ==> ragged::layers_byte_len(#[trigger] walks[a]) == 66 * (32 * (8
                * widths[a] + 4)),
    ensures
        walks_byte_len(walks) == independent_size(widths),
    decreases walks.len(),
{
    if walks.len() > 0 {
        let fewer = walks.drop_last();
        assert forall|a: int| 0 <= a < fewer.len() implies ragged::layers_byte_len(
            #[trigger] fewer[a],
        ) == 66 * (32 * (8 * widths.drop_last()[a] + 4)) by {
            assert(fewer[a] == walks[a]);
        }
        lemma_walk_sizes(fewer, widths.drop_last());
        assert(ragged::layers_byte_len(walks[walks.len() - 1]) == 66 * (32 * (8 * widths.last() + 4)));
    }
}

/// On the compared regions an aggregate walk takes 363,264 bytes and the independent walks take
/// 2,272,512 bytes.
pub proof fn production_sizes()
    ensures
        ({
            let widths = ragged::width_seq(PRODUCTION_WIDTHS@);
            &&& 66 * (32 * (8 * ragged_walk::max_of(widths) + 4 * widths.len())) == 363264
            &&& independent_size(widths) == 2272512
        }),
{
    let widths = ragged::width_seq(PRODUCTION_WIDTHS@);
    assert(widths =~= seq![14nat, 15, 17, 16, 12, 15, 16, 12, 13]);
    reveal_with_fuel(ragged_walk::max_of, 10);
    reveal_with_fuel(independent_size, 10);
}

/// The raw rows of a region come from a stream of its own, lane after lane: whatever states follow each
/// other by two steps of the generator, from the seed of the region on.
pub proof fn regions_have_their_streams(a: int, w: nat, states: Seq<u64>, i: int)
    requires
        a >= 0,
        0x6672_6f73_745f_0000 + a <= u64::MAX,
        0 <= i < mle::cube(w),
        states.len() == 4 * mle::cube(w),
        states[0] == 0x6672_6f73_745f_0000 + a,
        forall|j: int, k: int|
            0 <= j < k < states.len() && k == j + 1 ==> #[trigger] states[k] == (#[trigger]
            states[j]).wrapping_add(0x9e37_79b9_7f4a_7c15u64).wrapping_add(
                0x9e37_79b9_7f4a_7c15u64,
            ),
    ensures
        raw_rows(a, w).len() == mle::cube(w),
        raw_rows(a, w)[i] == seq![
            word(states[i]),
            word(states[mle::cube(w) + i]),
            word(states[2 * mle::cube(w) + i]),
            word(states[3 * mle::cube(w) + i]),
        ],
{
    let len = mle::cube(w);
    assert((INPUT_SEED + a) as u64 == states[0]);
    lemma_stream(states, i as nat);
    lemma_stream(states, (len + i) as nat);
    lemma_stream(states, (2 * len + i) as nat);
    lemma_stream(states, (3 * len + i) as nat);
}

proof fn lemma_stream(states: Seq<u64>, k: nat)
    requires
        k < states.len(),
        forall|j: int, k: int|
            0 <= j < k < states.len() && k == j + 1 ==> #[trigger] states[k] == (#[trigger]
            states[j]).wrapping_add(0x9e37_79b9_7f4a_7c15u64).wrapping_add(
                0x9e37_79b9_7f4a_7c15u64,
            ),
    ensures
        skipped(states[0], k) == states[k as int],
    decreases k,
{
    if k > 0 {
        lemma_stream(states, (k - 1) as nat);
    }
}

/// The points of all regions come from one stream, region after region, two elements to a coordinate,
/// the low one first.
pub proof fn points_share_a_stream(widths: Seq<usize>, a: nat, j: int, states: Seq<u64>)
    requires
        a < widths.len(),
        0 <= j < widths[a as int],
        states.len() > 2 * (point_offset(widths, a) + j) + 1,
        states[0] == 0x7261_6767_6564_0001,
        forall|j: int, k: int|
            0 <= j < k < states.len() && k == j + 1 ==> #[trigger] states[k] == (#[trigger]
            states[j]).wrapping_add(0x9e37_79b9_7f4a_7c15u64).wrapping_add(
                0x9e37_79b9_7f4a_7c15u64,
            ),
    ensures
        native_point(widths, a).len() == widths[a as int],
        native_point(widths, a)[j].lo == word(states[2 * (point_offset(widths, a) + j)]),
        native_point(widths, a)[j].hi == word(states[2 * (point_offset(widths, a) + j) + 1]),
        point_offset(widths, 0) == 0,
        point_offset(widths, a + 1) == point_offset(widths, a) + widths[a as int],
{
    lemma_stream(states, (2 * (point_offset(widths, a) + j)) as nat);
    lemma_stream(states, (2 * (point_offset(widths, a) + j) + 1) as nat);
}

/// The native rows of a region are its raw rows after the first linear layer of the permutation.
pub proof fn native_rows_are_initial_layers(permutation: Poseidon2bPermutation, a: int, w: nat, i: int)
    requires
        0 <= i < mle::cube(w),
    ensures
        native_rows(permutation, a, w).len() == mle::cube(w),
        native_rows(permutation, a, w)[i] == permutation.initial_layer(raw_rows(a, w)[i]),
{
}

/// What it means that proofs hold: they are of the kind of the construction, the verifier accepts each
/// walk on a fresh channel, the aggregate one for all regions and an independent one for the region in
/// its place, and if the terminal claims are to be discharged, they are true of the layer-zero rows.
pub proof fn holding_means_accepted(
    permutation: Poseidon2bPermutation,
    variant: Variant,
    widths: Seq<nat>,
    tables: Seq<Seq<Seq<Block128>>>,
    groups: Seq<LaneView>,
    walks: Seq<Seq<LayerView>>,
    layers: Seq<LayerView>,
    discharge: bool,
    a: int,
)
    ensures
        ({
            let whole = ragged::ragged_verdict::<Poseidon2bChannel>(
                permutation,
                widths,
                groups,
                layers,
                channel::fresh(permutation),
            ).0;
            proofs_hold(
                permutation,
                variant,
                widths,
                tables,
                groups,
                ProofsView::Aggregate(layers),
                discharge,
            ) <==> variant != Variant::Independent && whole is Ok && (discharge
                ==> ragged::claims_true(tables, whole->Ok_0))
        }),
        0 <= a < walks.len() && a < tables.len() && proofs_hold(
            permutation,
            variant,
            widths,
            tables,
            groups,
            ProofsView::Independent(walks),
            discharge,
        ) ==> {
            let own = ragged::ragged_verdict::<Poseidon2bChannel>(
                permutation,
                seq![widths[a]],
                seq![groups[a]],
                walks[a],
                channel::fresh(permutation),
            ).0;
            variant == Variant::Independent && own is Ok && (discharge ==> ragged::claims_true(
                seq![tables[a]],
                own->Ok_0,
            ))
        },
{
    if 0 <= a < walks.len() && a < tables.len() && proofs_hold(
        permutation,
        variant,
        widths,
        tables,
        groups,
        ProofsView::Independent(walks),
        discharge,
    ) {
        assert(single_holds(permutation, widths, tables, groups, walks, discharge, a));
    }
}

/// Corrupting a walk changes one coefficient and nothing else: that of `X^3` in the first round of the
/// fourth layer sent, by one.
pub proof fn corruption_changes_one_coefficient(layers: Seq<LayerView>, i: int, k: int, j: int)
    requires
        layers.len() > 3,
        layers[3].wires.len() > 0,
        layers[3].wires[0].len() == 8,
        0 <= i < layers.len(),
        0 <= k < layers[i].wires.len(),
        0 <= j < layers[i].wires[k].len(),
    ensures
        corrupted_walk(layers).len() == layers.len(),
        corrupted_walk(layers)[i].next == layers[i].next,
        corrupted_walk(layers)[i].wires.len() == layers[i].wires.len(),
        corrupted_walk(layers)[i].wires[k].len() == layers[i].wires[k].len(),
        corrupted_walk(layers)[i].wires[k][j] == if i == 3 && k == 0 && j == 2 {
            layers[i].wires[k][j].plus(Block256 { lo: Block128(1), hi: Block128(0) })
        } else {
            layers[i].wires[k][j]
        },
{
}

} // verus!
