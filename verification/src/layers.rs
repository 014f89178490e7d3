//! Native evaluation of one permutation, layer by layer.
use crate::block128::Block128;
use crate::permutation::Poseidon2bPermutation;
use vstd::prelude::*;

verus! {

/// The states between the rounds of one permutation.
#[derive(Debug, Clone, PartialEq, Eq)]
pub struct PermLayerWitness {
    /// The state that enters round `r`, and the output state at the end: 67 entries.
    pub states: Vec<[Block128; 4]>,
}

/// The state that enters round `r` of the permutation of `state_in`.
pub open spec fn layer_state(
    permutation: Poseidon2bPermutation,
    state_in: Seq<Block128>,
    r: nat,
) -> Seq<Block128> {
    permutation.layer(permutation.initial_layer(state_in), r)
}

impl PermLayerWitness {
    /// Whether this is the witness for `state_in`.
    pub open spec fn is_for(
        self,
        permutation: Poseidon2bPermutation,
        state_in: Seq<Block128>,
    ) -> bool {
        &&& self.states@.len() == 67
        &&& forall|r: int|
            0 <= r < 67 ==> (#[trigger] self.states@[r])@ == layer_state(
                permutation,
                state_in,
                r as nat,
            )
    }
}

/// Evaluate one permutation and keep the state between any two rounds.
pub fn evaluate_permutation(permutation: &Poseidon2bPermutation, state_in: [Block128; 4]) -> (witness:
    PermLayerWitness)
    ensures
        witness.is_for(*permutation, state_in@),
        witness.states@[66]@ == permutation.permuted(state_in@),
{
    let mut current = permutation.apply_full_mds(state_in);
    let mut states: Vec<[Block128; 4]> = Vec::with_capacity(67);
    states.push(current);
    let mut r: usize = 0;
    while r < 66
        invariant
            r <= 66,
            states@.len() == r + 1,
            current@ == layer_state(*permutation, state_in@, r as nat),
            forall|i: int|
                0 <= i <= r ==> (#[trigger] states@[i])@ == layer_state(
                    *permutation,
                    state_in@,
                    i as nat,
                ),
        decreases 66 - r,
    {
        current = permutation.apply_round_mut(r, current);
        states.push(current);
        r = r + 1;
    }
    PermLayerWitness { states }
}

/// The witness of a permutation holds the state that enters each round and the output: whatever states
/// follow each other by its rounds.
pub proof fn witness_holds_the_rounds(
    permutation: Poseidon2bPermutation,
    state_in: Seq<Block128>,
    states: Seq<Seq<Block128>>,
    witness: PermLayerWitness,
)
    requires
        states.len() == 67,
        states[0] == permutation.initial_layer(state_in),
        forall|r: int|
            0 <= r < 66 ==> states[r + 1] == permutation.apply_round(r, #[trigger] states[r]),
        witness.is_for(permutation, state_in),
    ensures
        witness.states@.len() == 67,
        forall|r: int| 0 <= r < 67 ==> (#[trigger] witness.states@[r])@ == states[r],
{
    crate::permutation::permutation_is_66_rounds(permutation, state_in, states);
    assert forall|r: int| 0 <= r < 67 implies (#[trigger] witness.states@[r])@ == states[r] by {
        assert(permutation.layer(permutation.initial_layer(state_in), r as nat) == states[r]);
    }
}

} // verus!
