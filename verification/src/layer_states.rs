//! Rows of Poseidon2b states, and the layers of many permutations at once.
use crate::block128::Block128;
use crate::mle;
use crate::parallel::map_range;
use crate::permutation::Poseidon2bPermutation;
use crate::tower_field::TowerField;
use vstd::prelude::*;

verus! {

/// Distance between two stored layers.
const CHECKPOINT_SPACING: usize = 8;

/// Number of rows from which rows are handled in parallel.
const PAR_THRESHOLD: usize = 16;

/// A list of rows as a sequence of sequences.
pub open spec fn row_seq(rows: Seq<[Block128; 4]>) -> Seq<Seq<Block128>> {
    Seq::new(rows.len(), |i: int| rows[i]@)
}

/// The rows of four columns of equal length.
pub open spec fn table_seq(columns: [Vec<Block128>; 4]) -> Seq<Seq<Block128>> {
    Seq::new(
        columns@[0]@.len(),
        |i: int| seq![columns@[0]@[i], columns@[1]@[i], columns@[2]@[i], columns@[3]@[i]],
    )
}

/// Whether four columns have the same length, a power of two.
pub open spec fn columns_shape(columns: [Vec<Block128>; 4]) -> bool {
    &&& columns@[1]@.len() == columns@[0]@.len()
    &&& columns@[2]@.len() == columns@[0]@.len()
    &&& columns@[3]@.len() == columns@[0]@.len()
    &&& exists|w: nat| columns@[0]@.len() == #[trigger] mle::cube(w)
}

/// The state after some rounds, row by row.
pub open spec fn layers_of(
    permutation: Poseidon2bPermutation,
    rows: Seq<Seq<Block128>>,
    l: nat,
) -> Seq<Seq<Block128>> {
    Seq::new(rows.len(), |i: int| permutation.layer(rows[i], l))
}

/// Row `i` of four columns.
fn row_of(columns: &[Vec<Block128>; 4], i: usize) -> (row: [Block128; 4])
    requires
        i < columns@[0]@.len(),
        columns@[1]@.len() == columns@[0]@.len(),
        columns@[2]@.len() == columns@[0]@.len(),
        columns@[3]@.len() == columns@[0]@.len(),
    ensures
        row@ == table_seq(*columns)[i as int],
{
    let row = [columns[0][i], columns[1][i], columns[2][i], columns[3][i]];
    proof {
        assert(row@ =~= table_seq(*columns)[i as int]);
    }
    row
}

/// The rows of four columns.
pub fn columns_to_rows(columns: &[Vec<Block128>; 4]) -> (rows: Vec<[Block128; 4]>)
    requires
        columns@[1]@.len() == columns@[0]@.len(),
        columns@[2]@.len() == columns@[0]@.len(),
        columns@[3]@.len() == columns@[0]@.len(),
    ensures
        row_seq(rows@) == table_seq(*columns),
{
    let pick = |i: usize| -> (row: [Block128; 4])
        requires
            i < columns@[0]@.len(),
            columns@[1]@.len() == columns@[0]@.len(),
            columns@[2]@.len() == columns@[0]@.len(),
            columns@[3]@.len() == columns@[0]@.len(),
        ensures
            row@ == table_seq(*columns)[i as int],
        { row_of(columns, i) };
    let rows: Vec<[Block128; 4]> = map_range(columns[0].len(), PAR_THRESHOLD, pick);
    proof {
        assert(row_seq(rows@) =~= table_seq(*columns));
    }
    rows
}

/// One lane of a list of rows.
fn lane_column(rows: &Vec<[Block128; 4]>, lane: usize) -> (column: Vec<Block128>)
    requires
        lane < 4,
    ensures
        column@ == Seq::new(rows@.len(), |i: int| rows@[i]@[lane as int]),
{
    let mut column: Vec<Block128> = Vec::with_capacity(rows.len());
    let mut i: usize = 0;
    while i < rows.len()
        invariant
            i <= rows.len(),
            lane < 4,
            column@ == Seq::new(i as nat, |k: int| rows@[k]@[lane as int]),
        decreases rows.len() - i,
    {
        column.push(rows[i][lane]);
        i = i + 1;
        proof {
            assert(column@ =~= Seq::new(i as nat, |k: int| rows@[k]@[lane as int]));
        }
    }
    column
}

/// The four columns of a list of rows.
pub fn rows_of(rows: &Vec<[Block128; 4]>) -> (columns: [Vec<Block128>; 4])
    ensures
        table_seq(columns) == row_seq(rows@),
        forall|lane: int| 0 <= lane < 4 ==> (#[trigger] columns@[lane])@.len() == rows@.len(),
{
    let columns = [
        lane_column(rows, 0),
        lane_column(rows, 1),
        lane_column(rows, 2),
        lane_column(rows, 3),
    ];
    proof {
        assert forall|i: int| 0 <= i < rows@.len() implies #[trigger] table_seq(columns)[i]
            == row_seq(rows@)[i] by {
            assert(table_seq(columns)[i] =~= rows@[i]@);
        }
        assert(table_seq(columns) =~= row_seq(rows@));
    }
    columns
}

/// Apply the permutation's initial linear layer to raw input columns.  The returned columns are the
/// layer consumed by the 66-round walk.
pub fn initial_layer_columns(
    permutation: &Poseidon2bPermutation,
    raw: &[Vec<Block128>; 4],
) -> (columns: [Vec<Block128>; 4])
    requires
        columns_shape(*raw),
    ensures
        table_seq(columns) == Seq::new(
            raw@[0]@.len(),
            |i: int| permutation.initial_layer(table_seq(*raw)[i]),
        ),
        forall|lane: int| 0 <= lane < 4 ==> (#[trigger] columns@[lane])@.len() == raw@[0]@.len(),
        columns_shape(columns),
{
    let step = |i: usize| -> (row: [Block128; 4])
        requires
            i < raw@[0]@.len(),
            raw@[1]@.len() == raw@[0]@.len(),
            raw@[2]@.len() == raw@[0]@.len(),
            raw@[3]@.len() == raw@[0]@.len(),
        ensures
            row@ == permutation.initial_layer(table_seq(*raw)[i as int]),
        { permutation.apply_full_mds(row_of(raw, i)) };
    let rows: Vec<[Block128; 4]> = map_range(raw[0].len(), PAR_THRESHOLD, step);
    let columns = rows_of(&rows);
    proof {
        assert(row_seq(rows@) =~= Seq::new(
            raw@[0]@.len(),
            |i: int| permutation.initial_layer(table_seq(*raw)[i]),
        ));
        assert(columns@[0]@.len() == raw@[0]@.len());
        assert(columns@[1]@.len() == raw@[0]@.len());
        assert(columns@[2]@.len() == raw@[0]@.len());
        assert(columns@[3]@.len() == raw@[0]@.len());
        let w = choose|w: nat| raw@[0]@.len() == #[trigger] mle::cube(w);
        assert(columns@[0]@.len() == mle::cube(w));
    }
    columns
}

/// Apply `count` rounds from round `first` on to a state.
fn apply_rounds(
    permutation: &Poseidon2bPermutation,
    start: [Block128; 4],
    first: usize,
    count: usize,
    origin: Ghost<Seq<Block128>>,
) -> (state: [Block128; 4])
    requires
        first + count <= 66,
        start@ == permutation.layer(origin@, first as nat),
    ensures
        state@ == permutation.layer(origin@, (first + count) as nat),
{
    let mut state = start;
    let mut done: usize = 0;
    while done < count
        invariant
            done <= count,
            first + count <= 66,
            state@ == permutation.layer(origin@, (first + done) as nat),
        decreases count - done,
    {
        state = permutation.apply_round_mut(first + done, state);
        done = done + 1;
    }
    state
}

/// Apply `count` rounds from round `first` on to every row.
fn apply_round_span(
    permutation: &Poseidon2bPermutation,
    first: usize,
    count: usize,
    rows: &Vec<[Block128; 4]>,
    origin: Ghost<Seq<Seq<Block128>>>,
) -> (out: Vec<[Block128; 4]>)
    requires
        first + count <= 66,
        row_seq(rows@) == layers_of(*permutation, origin@, first as nat),
    ensures
        row_seq(out@) == layers_of(*permutation, origin@, (first + count) as nat),
{
    let ghost before = row_seq(rows@);
    proof {
        assert(before.len() == rows@.len());
        assert(before.len() == origin@.len());
        assert forall|i: int| 0 <= i < rows@.len() implies (#[trigger] rows@[i])@
            == permutation.layer(origin@[i], first as nat) by {
            assert(before[i] == rows@[i]@);
        }
    }
    let step = |i: usize| -> (row: [Block128; 4])
        requires
            i < rows@.len(),
            first + count <= 66,
            rows@[i as int]@ == permutation.layer(origin@[i as int], first as nat),
        ensures
            row@ == permutation.layer(origin@[i as int], (first + count) as nat),
        { apply_rounds(permutation, rows[i], first, count, Ghost(origin@[i as int])) };
    let out: Vec<[Block128; 4]> = map_range(rows.len(), PAR_THRESHOLD, step);
    proof {
        assert(row_seq(out@) =~= layers_of(*permutation, origin@, (first + count) as nat));
    }
    out
}

/// Evaluate all 66 nonlinear/linear rounds from layer zero.
pub fn output_layer_columns(
    permutation: &Poseidon2bPermutation,
    layer_zero: &[Vec<Block128>; 4],
) -> (columns: [Vec<Block128>; 4])
    requires
        columns_shape(*layer_zero),
    ensures
        table_seq(columns) == layers_of(*permutation, table_seq(*layer_zero), 66),
        forall|lane: int|
            0 <= lane < 4 ==> (#[trigger] columns@[lane])@.len() == layer_zero@[0]@.len(),
{
    let rows = columns_to_rows(layer_zero);
    let ghost origin = table_seq(*layer_zero);
    proof {
        assert(layers_of(*permutation, origin, 0) =~= origin);
    }
    let out = apply_round_span(permutation, 0, 66, &rows, Ghost(origin));
    proof {
        assert(row_seq(out@).len() == origin.len());
    }
    rows_of(&out)
}

/// The 66-layer path is the permutation: walking from the initial layer through all rounds gives the
/// permuted rows.
pub proof fn layer_path_is_permutation(
    permutation: Poseidon2bPermutation,
    raw: Seq<Seq<Block128>>,
    i: int,
)
    requires
        0 <= i < raw.len(),
    ensures
        layers_of(
            permutation,
            Seq::new(raw.len(), |k: int| permutation.initial_layer(raw[k])),
            66,
        )[i] == permutation.permuted(raw[i]),
{
}

/// Supplies descending layer states while storing only checkpoints plus one replay window.
pub(crate) struct DescendingLayerStates {
    checkpoints: Vec<Vec<[Block128; 4]>>,
    window: Vec<Vec<[Block128; 4]>>,
    window_base: usize,
}

impl DescendingLayerStates {
    /// Whether the states of all rounds below `next` can still be supplied, in descending order, for
    /// rows that start as `origin`.
    pub(crate) closed spec fn serves(
        self,
        permutation: Poseidon2bPermutation,
        origin: Seq<Seq<Block128>>,
        next: nat,
    ) -> bool {
        &&& next <= 66
        &&& self.checkpoints@.len() == 9
        &&& forall|j: int|
            0 <= j < 9 && 8 * j < next && 8 * j != self.window_base ==> row_seq(
                (#[trigger] self.checkpoints@[j])@,
            ) == layers_of(permutation, origin, (8 * j) as nat)
        &&& self.window_base < next ==> {
            &&& self.window_base == ((next - 1) / 8) * 8
            &&& self.window@.len() >= next - self.window_base
            &&& forall|k: int|
                0 <= k < next - self.window_base ==> row_seq((#[trigger] self.window@[k])@)
                    == layers_of(permutation, origin, (self.window_base + k) as nat)
        }
    }

    /// Walk through the rounds once and keep every eighth layer.
    pub(crate) fn new(permutation: &Poseidon2bPermutation, layer_zero: &[Vec<Block128>; 4]) -> (states: Self)
        requires
            columns_shape(*layer_zero),
        ensures
            states.serves(*permutation, table_seq(*layer_zero), 66),
    {
        let ghost origin = table_seq(*layer_zero);
        let mut current = columns_to_rows(layer_zero);
        let mut checkpoints: Vec<Vec<[Block128; 4]>> = Vec::with_capacity(9);
        proof {
            assert(layers_of(*permutation, origin, 0) =~= origin);
        }
        let mut j: usize = 0;
        while j < 8
            invariant
                j <= 8,
                checkpoints@.len() == j,
                row_seq(current@) == layers_of(*permutation, origin, (8 * j) as nat),
                forall|k: int|
                    0 <= k < j ==> row_seq((#[trigger] checkpoints@[k])@) == layers_of(
                        *permutation,
                        origin,
                        (8 * k) as nat,
                    ),
            decreases 8 - j,
        {
            let following = apply_round_span(
                permutation,
                CHECKPOINT_SPACING * j,
                CHECKPOINT_SPACING,
                &current,
                Ghost(origin),
            );
            checkpoints.push(current);
            current = following;
            j = j + 1;
        }
        checkpoints.push(current);
        DescendingLayerStates { checkpoints, window: Vec::new(), window_base: usize::MAX }
    }

    /// The rows that enter round `round`, the highest that has not been supplied yet.
    pub(crate) fn state(
        &mut self,
        permutation: &Poseidon2bPermutation,
        round: usize,
        origin: Ghost<Seq<Seq<Block128>>>,
    ) -> (rows: Vec<[Block128; 4]>)
        requires
            old(self).serves(*permutation, origin@, (round + 1) as nat),
        ensures
            row_seq(rows@) == layers_of(*permutation, origin@, round as nat),
            final(self).serves(*permutation, origin@, round as nat),
    {
        let base: usize = (round / CHECKPOINT_SPACING) * CHECKPOINT_SPACING;
        if self.window_base != base {
            let length: usize = if 66 - base < CHECKPOINT_SPACING {
                66 - base
            } else {
                CHECKPOINT_SPACING
            };
            let index: usize = base / CHECKPOINT_SPACING;
            proof {
                assert(index < 9 && 8 * index == base);
                assert(row_seq(self.checkpoints@[index as int]@) == layers_of(
                    *permutation,
                    origin@,
                    (8 * index) as nat,
                ));
            }
            let mut checkpoints: Vec<Vec<[Block128; 4]>> = Vec::new();
            std::mem::swap(&mut checkpoints, &mut self.checkpoints);
            let ghost stored = checkpoints@;
            let checkpoint_rows = take_at(&mut checkpoints, index);
            self.checkpoints = checkpoints;
            self.window = replay_window(permutation, checkpoint_rows, base, length, origin);
            self.window_base = base;
            proof {
                assert forall|j: int|
                    0 <= j < 9 && 8 * j < round + 1 && 8 * j != self.window_base implies row_seq(
                    (#[trigger] self.checkpoints@[j])@,
                ) == layers_of(*permutation, origin@, (8 * j) as nat) by {
                    assert(self.checkpoints@[j] == stored[j]);
                }
            }
        }
        let slot: usize = round - base;
        let mut window: Vec<Vec<[Block128; 4]>> = Vec::new();
        std::mem::swap(&mut window, &mut self.window);
        let rows = take_at(&mut window, slot);
        self.window = window;
        rows
    }
}

/// Move an entry out of a list, leaving an empty one.
fn take_at(list: &mut Vec<Vec<[Block128; 4]>>, index: usize) -> (entry: Vec<[Block128; 4]>)
    requires
        index < old(list)@.len(),
    ensures
        entry@ == old(list)@[index as int]@,
        final(list)@.len() == old(list)@.len(),
        forall|j: int|
            0 <= j < old(list)@.len() && j != index ==> final(list)@[j] == old(list)@[j],
{
    let mut entry: Vec<[Block128; 4]> = Vec::new();
    std::mem::swap(&mut entry, &mut list[index]);
    entry
}

/// The states of `length` rounds from a stored layer on.
fn replay_window(
    permutation: &Poseidon2bPermutation,
    checkpoint: Vec<[Block128; 4]>,
    base: usize,
    length: usize,
    origin: Ghost<Seq<Seq<Block128>>>,
) -> (window: Vec<Vec<[Block128; 4]>>)
    requires
        0 < length,
        base + length <= 66,
        row_seq(checkpoint@) == layers_of(*permutation, origin@, base as nat),
    ensures
        window@.len() == length,
        forall|k: int|
            0 <= k < length ==> row_seq((#[trigger] window@[k])@) == layers_of(
                *permutation,
                origin@,
                (base + k) as nat,
            ),
{
    let mut window: Vec<Vec<[Block128; 4]>> = Vec::with_capacity(length);
    window.push(checkpoint);
    let mut offset: usize = 1;
    while offset < length
        invariant
            1 <= offset <= length,
            base + length <= 66,
            window@.len() == offset,
            forall|k: int|
                0 <= k < offset ==> row_seq((#[trigger] window@[k])@) == layers_of(
                    *permutation,
                    origin@,
                    (base + k) as nat,
                ),
        decreases length - offset,
    {
        proof {
            assert(row_seq(window@[offset - 1]@) == layers_of(
                *permutation,
                origin@,
                (base + offset - 1) as nat,
            ));
        }
        let following = apply_round_span(
            permutation,
            base + offset - 1,
            1,
            &window[offset - 1],
            origin,
        );
        window.push(following);
        offset = offset + 1;
    }
    window
}

} // verus!
