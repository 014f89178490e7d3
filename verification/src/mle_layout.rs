//! Layout of one permutation as nine-variable multilinear tables.
//!
//! Cell `(row << 2) | lane` of a column belongs to lane `lane` of row `row`.  Row `r` of the `state`
//! column is the state that enters round `r`; row 66 is the output.  The other columns hold the S-box
//! input and its powers on the active cells of the 66 rounds.  All other cells are zero.
use crate::block128::Block128;
use crate::layers;
use crate::layers::PermLayerWitness;
use crate::mle;
use crate::permutation::{round_kind, Poseidon2bPermutation, RoundKind};
use crate::sums;
use crate::tower_field::TowerField;
use vstd::prelude::*;

verus! {

/// Number of variables of a column.
pub const N_PERM_VARS: usize = 9;

/// Number of cells of a column.
pub const N_PERM_CELLS: usize = 512;

/// The columns of one permutation.
#[derive(Debug, Clone, PartialEq, Eq)]
pub struct PermMle {
    pub state: Vec<Block128>,
    pub sin: Vec<Block128>,
    pub x2: Vec<Block128>,
    pub x3: Vec<Block128>,
    pub x4: Vec<Block128>,
    pub sout: Vec<Block128>,
}

/// The contents of the columns of one permutation.
pub struct PermColumns {
    /// The state column.
    pub state: Seq<Block128>,
    /// The S-box inputs.
    pub sin: Seq<Block128>,
    /// Their squares.
    pub x2: Seq<Block128>,
    /// Their cubes.
    pub x3: Seq<Block128>,
    /// Their fourth powers.
    pub x4: Seq<Block128>,
    /// The S-box outputs.
    pub sout: Seq<Block128>,
}

impl View for PermMle {
    type V = PermColumns;

    open spec fn view(&self) -> PermColumns {
        PermColumns {
            state: self.state@,
            sin: self.sin@,
            x2: self.x2@,
            x3: self.x3@,
            x4: self.x4@,
            sout: self.sout@,
        }
    }
}

impl PermColumns {
    /// Whether all columns have one entry per cell.
    pub open spec fn well_formed(self) -> bool {
        &&& self.state.len() == 512
        &&& self.sin.len() == 512
        &&& self.x2.len() == 512
        &&& self.x3.len() == 512
        &&& self.x4.len() == 512
        &&& self.sout.len() == 512
    }
}

/// Whether the cell is touched by the S-box.
pub open spec fn cell_active(cell: int) -> bool {
    cell / 4 < 66 && Poseidon2bPermutation::active(cell / 4, cell % 4)
}

/// The public column that is one on the active cells and zero elsewhere.
pub open spec fn active_column() -> Seq<Block128> {
    Seq::new(
        512,
        |cell: int|
            if cell_active(cell) {
                Block128::unit()
            } else {
                Block128::nil()
            },
    )
}

/// The public column of round constants: zero on inactive cells.
pub open spec fn rc_column(permutation: Poseidon2bPermutation) -> Seq<Block128> {
    Seq::new(
        512,
        |cell: int|
            if cell_active(cell) {
                permutation.constant(cell % 4, cell / 4)
            } else {
                Block128::nil()
            },
    )
}

/// The state column of the permutation of `state_in`.
pub open spec fn state_column(
    permutation: Poseidon2bPermutation,
    state_in: Seq<Block128>,
) -> Seq<Block128> {
    Seq::new(
        512,
        |cell: int|
            if cell / 4 <= 66 {
                layers::layer_state(permutation, state_in, (cell / 4) as nat)[cell % 4]
            } else {
                Block128::nil()
            },
    )
}

/// The S-box input column: `active · (state + rc)`.
pub open spec fn sin_column(
    permutation: Poseidon2bPermutation,
    state: Seq<Block128>,
) -> Seq<Block128> {
    sums::seq_times(active_column(), sums::seq_plus(state, rc_column(permutation)))
}

/// The columns of the permutation of `state_in`.
pub open spec fn perm_columns(
    permutation: Poseidon2bPermutation,
    state_in: Seq<Block128>,
) -> PermColumns {
    let state = state_column(permutation, state_in);
    let sin = sin_column(permutation, state);
    let x2 = sums::seq_times(sin, sin);
    let x3 = sums::seq_times(x2, sin);
    let x4 = sums::seq_times(x2, x2);
    PermColumns { state, sin, x2, x3, x4, sout: sums::seq_times(x4, x3) }
}

/// A column has `2^9` cells.
pub proof fn lemma_cells()
    ensures
        mle::cube(9) == 512,
{
    reveal_with_fuel(mle::cube, 10);
}

/// Build the `active` column.
pub fn build_active_mle() -> (v: Vec<Block128>)
    ensures
        v@ == active_column(),
{
    let mut v: Vec<Block128> = Vec::with_capacity(512);
    let mut cell: usize = 0;
    while cell < 512
        invariant
            cell <= 512,
            v@ == active_column().take(cell as int),
        decreases 512 - cell,
    {
        let row: usize = cell / 4;
        let lane: usize = cell % 4;
        let touched = row < 66 && (lane == 0 || round_kind(row) == RoundKind::Full);
        v.push(
            if touched {
                Block128::one()
            } else {
                Block128::zero()
            },
        );
        cell = cell + 1;
        proof {
            assert(v@ =~= active_column().take(cell as int));
        }
    }
    proof {
        assert(active_column().take(512) =~= active_column());
    }
    v
}

/// Build the column of round constants.
pub fn build_rc_mle(permutation: &Poseidon2bPermutation) -> (v: Vec<Block128>)
    ensures
        v@ == rc_column(*permutation),
{
    let mut v: Vec<Block128> = Vec::with_capacity(512);
    let mut cell: usize = 0;
    while cell < 512
        invariant
            cell <= 512,
            v@ == rc_column(*permutation).take(cell as int),
        decreases 512 - cell,
    {
        let row: usize = cell / 4;
        let lane: usize = cell % 4;
        let touched = row < 66 && (lane == 0 || round_kind(row) == RoundKind::Full);
        v.push(
            if touched {
                permutation.round_constants[lane][row]
            } else {
                Block128::zero()
            },
        );
        cell = cell + 1;
        proof {
            assert(v@ =~= rc_column(*permutation).take(cell as int));
        }
    }
    proof {
        assert(rc_column(*permutation).take(512) =~= rc_column(*permutation));
    }
    v
}

/// Pack the states of a witness into a column.
pub fn pack_column(witness: &PermLayerWitness) -> (v: Vec<Block128>)
    requires
        witness.states@.len() == 67,
    ensures
        v@ == Seq::new(
            512,
            |cell: int|
                if cell / 4 <= 66 {
                    witness.states@[cell / 4]@[cell % 4]
                } else {
                    Block128::nil()
                },
        ),
{
    let ghost want = Seq::new(
        512,
        |cell: int|
            if cell / 4 <= 66 {
                witness.states@[cell / 4]@[cell % 4]
            } else {
                Block128::nil()
            },
    );
    let mut v: Vec<Block128> = Vec::with_capacity(512);
    let mut cell: usize = 0;
    while cell < 512
        invariant
            cell <= 512,
            witness.states@.len() == 67,
            want == Seq::new(
                512,
                |c: int|
                    if c / 4 <= 66 {
                        witness.states@[c / 4]@[c % 4]
                    } else {
                        Block128::nil()
                    },
            ),
            v@ == want.take(cell as int),
        decreases 512 - cell,
    {
        let row: usize = cell / 4;
        v.push(
            if row <= 66 {
                witness.states[row][cell % 4]
            } else {
                Block128::zero()
            },
        );
        cell = cell + 1;
        proof {
            assert(v@ =~= want.take(cell as int));
        }
    }
    proof {
        assert(want.take(512) =~= want);
    }
    v
}

/// The elementwise product of two columns.
fn multiply_columns(a: &[Block128], b: &[Block128]) -> (v: Vec<Block128>)
    requires
        a@.len() == b@.len(),
    ensures
        v@ == sums::seq_times(a@, b@),
{
    let mut v: Vec<Block128> = Vec::with_capacity(a.len());
    let mut i: usize = 0;
    while i < a.len()
        invariant
            i <= a.len(),
            a@.len() == b@.len(),
            v@ == sums::seq_times(a@, b@).take(i as int),
        decreases a.len() - i,
    {
        v.push(a[i] * b[i]);
        i = i + 1;
        proof {
            assert(v@ =~= sums::seq_times(a@, b@).take(i as int));
        }
    }
    proof {
        assert(sums::seq_times(a@, b@).take(i as int) =~= sums::seq_times(a@, b@));
    }
    v
}

/// The elementwise sum of two columns.
pub fn add_columns(a: &[Block128], b: &[Block128]) -> (v: Vec<Block128>)
    requires
        a@.len() == b@.len(),
    ensures
        v@ == sums::seq_plus(a@, b@),
{
    let mut v: Vec<Block128> = Vec::with_capacity(a.len());
    let mut i: usize = 0;
    while i < a.len()
        invariant
            i <= a.len(),
            a@.len() == b@.len(),
            v@ == sums::seq_plus(a@, b@).take(i as int),
        decreases a.len() - i,
    {
        v.push(a[i] + b[i]);
        i = i + 1;
        proof {
            assert(v@ =~= sums::seq_plus(a@, b@).take(i as int));
        }
    }
    proof {
        assert(sums::seq_plus(a@, b@).take(i as int) =~= sums::seq_plus(a@, b@));
    }
    v
}

impl PermMle {
    /// The columns of a witness.
    pub fn from_witness(
        permutation: &Poseidon2bPermutation,
        state_in: [Block128; 4],
        witness: &PermLayerWitness,
    ) -> (mle: Self)
        requires
            witness.is_for(*permutation, state_in@),
        ensures
            mle@ == perm_columns(*permutation, state_in@),
            mle@.well_formed(),
    {
        let state = pack_column(witness);
        proof {
            assert forall|cell: int| 0 <= cell < 512 implies #[trigger] state@[cell]
                == state_column(*permutation, state_in@)[cell] by {
                if cell / 4 <= 66 {
                    assert(witness.states@[cell / 4]@ == layers::layer_state(
                        *permutation,
                        state_in@,
                        (cell / 4) as nat,
                    ));
                }
            }
            assert(state@ =~= state_column(*permutation, state_in@));
        }
        let active = build_active_mle();
        let rc = build_rc_mle(permutation);
        let shifted = add_columns(&state, &rc);
        let sin = multiply_columns(&active, &shifted);
        let x2 = multiply_columns(&sin, &sin);
        let x3 = multiply_columns(&x2, &sin);
        let x4 = multiply_columns(&x2, &x2);
        let sout = multiply_columns(&x4, &x3);
        PermMle { state, sin, x2, x3, x4, sout }
    }
}

/// The S-box output column of a witness.
pub fn pack_sout(
    permutation: &Poseidon2bPermutation,
    state_in: [Block128; 4],
    witness: &PermLayerWitness,
) -> (sout: Vec<Block128>)
    requires
        witness.is_for(*permutation, state_in@),
    ensures
        sout@ == perm_columns(*permutation, state_in@).sout,
        sout@.len() == 512,
{
    PermMle::from_witness(permutation, state_in, witness).sout
}

/// On the active cells the last column is the S-box of the shifted state, elsewhere it is zero.
pub proof fn sout_is_sbox(permutation: Poseidon2bPermutation, state_in: Seq<Block128>, cell: int)
    requires
        0 <= cell < 512,
    ensures
        perm_columns(permutation, state_in).sout[cell] == if cell_active(cell) {
            crate::permutation::power7(
                state_column(permutation, state_in)[cell].plus(
                    permutation.constant(cell % 4, cell / 4),
                ),
            )
        } else {
            Block128::nil()
        },
{
    let c = perm_columns(permutation, state_in);
    let x = c.sin[cell];
    let x2 = x.times(x);
    let shifted = c.state[cell].plus(rc_column(permutation)[cell]);
    crate::algebra::lemma_neutral_left(shifted);
    crate::algebra::lemma_times_nil(shifted);
    Block128::times_laws(x2.times(x2), x2.times(x), x);
    Block128::times_laws(x2, x, x);
    if !cell_active(cell) {
        crate::algebra::lemma_times_nil(x);
        crate::algebra::lemma_times_nil(x2);
        crate::algebra::lemma_times_nil(Block128::nil());
    }
}

/// What the columns of a permutation hold, for whatever states follow each other by its rounds: cell
/// `4 r + lane` of the state column is lane `lane` of the state that enters round `r`, or of the output
/// for `r = 66`, and zero further on.  The active cells are those whose lane passes the S-box in a
/// round; there the other columns are the powers of the state plus the constant, elsewhere zero.
pub proof fn columns_hold_the_rounds(
    permutation: Poseidon2bPermutation,
    state_in: Seq<Block128>,
    states: Seq<Seq<Block128>>,
    cell: int,
)
    requires
        0 <= cell < 512,
        states.len() == 67,
        states[0] == permutation.initial_layer(state_in),
        forall|r: int|
            0 <= r < 66 ==> states[r + 1] == permutation.apply_round(r, #[trigger] states[r]),
    ensures
        ({
            let c = perm_columns(permutation, state_in);
            let (r, lane) = (cell / 4, cell % 4);
            let passes = r < 66 && (r < 4 || r >= 62 || lane == 0);
            let constant = permutation.round_constants@[lane]@[r];
            let x = if passes {
                states[r][lane].plus(constant)
            } else {
                Block128::nil()
            };
            &&& c.well_formed()
            &&& c.state[cell] == if r <= 66 {
                states[r][lane]
            } else {
                Block128::nil()
            }
            &&& active_column()[cell] == if passes {
                Block128::unit()
            } else {
                Block128::nil()
            }
            &&& rc_column(permutation)[cell] == if passes {
                constant
            } else {
                Block128::nil()
            }
            &&& c.sin[cell] == x
            &&& c.x2[cell] == x.times(x)
            &&& c.x3[cell] == x.times(x).times(x)
            &&& c.x4[cell] == x.times(x).times(x).times(x)
            &&& c.sout[cell] == x.times(x).times(x).times(x).times(x).times(x).times(x)
        }),
{
    let c = perm_columns(permutation, state_in);
    let (r, lane) = (cell / 4, cell % 4);
    crate::permutation::permutation_is_66_rounds(permutation, state_in, states);
    if r <= 66 {
        assert(permutation.layer(permutation.initial_layer(state_in), r as nat) == states[r]);
    }
    let x = c.sin[cell];
    let shifted = c.state[cell].plus(rc_column(permutation)[cell]);
    crate::algebra::lemma_neutral_left(shifted);
    crate::algebra::lemma_times_nil(shifted);
    let x2 = x.times(x);
    let x4 = x2.times(x).times(x);
    Block128::times_laws(x2, x, x);
    Block128::times_laws(x4, x2, x);
    Block128::times_laws(x4, x, x);
}

} // verus!
