//! Public benchmark statement: a sequence of 59 Poseidon2b permutations.
//!
//! The output state of each permutation is the input state of the next.
use crate::block128::Block128;
use crate::permutation::Poseidon2bPermutation;
use vstd::prelude::*;

verus! {

/// Number of Poseidon2b permutations in the sequence.
pub const N_PERMUTATIONS: usize = 59;

/// Public input to the fixed benchmark sequence.
#[derive(Debug, Clone, Copy, PartialEq, Eq)]
pub struct SequenceInput {
    pub initial_state: [Block128; 4],
}

/// Native evaluation of the benchmark sequence.
#[derive(Debug, Clone, PartialEq, Eq)]
pub struct SequenceWitness {
    pub states: Vec<([Block128; 4], [Block128; 4])>,
    pub final_state: [Block128; 4],
}

/// The state after `i` permutations.
pub open spec fn state_after(
    permutation: Poseidon2bPermutation,
    initial: Seq<Block128>,
    i: nat,
) -> Seq<Block128>
    decreases i,
{
    if i == 0 {
        initial
    } else {
        permutation.permuted(state_after(permutation, initial, (i - 1) as nat))
    }
}

/// The two public lanes of the final state.
pub open spec fn digest_of(permutation: Poseidon2bPermutation, initial: Seq<Block128>) -> Seq<
    Block128,
> {
    let out = state_after(permutation, initial, 59);
    seq![out[0], out[1]]
}

impl SequenceWitness {
    /// Whether this is the witness for the given initial state: entry `i` holds the states before
    /// and after permutation `i`.
    pub open spec fn is_for(
        self,
        permutation: Poseidon2bPermutation,
        initial: Seq<Block128>,
    ) -> bool {
        &&& self.states@.len() == 59
        &&& forall|i: int|
            0 <= i < 59 ==> (#[trigger] self.states@[i]).0@ == state_after(
                permutation,
                initial,
                i as nat,
            ) && self.states@[i].1@ == state_after(permutation, initial, (i + 1) as nat)
        &&& self.final_state@ == state_after(permutation, initial, 59)
    }
}

/// Adjacent entries of a witness are linked: the output of each permutation is the input of the
/// next, and the last output is the final state.
pub proof fn witness_links_states(
    witness: SequenceWitness,
    permutation: Poseidon2bPermutation,
    initial: Seq<Block128>,
)
    requires
        witness.is_for(permutation, initial),
    ensures
        witness.states@[0].0@ == initial,
        forall|i: int|
            #![trigger witness.states@[i]]
            0 <= i < 58 ==> witness.states@[i].1@ == witness.states@[i + 1].0@,
        forall|i: int|
            #![trigger witness.states@[i]]
            0 <= i < 59 ==> witness.states@[i].1@ == permutation.permuted(witness.states@[i].0@),
        witness.states@[58].1@ == witness.final_state@,
{
}

/// The digest of a sequence of 59 permutations is the first two lanes of its last state: whatever
/// states follow each other by the permutation.
pub proof fn digest_ends_the_sequence(
    permutation: Poseidon2bPermutation,
    states: Seq<Seq<Block128>>,
)
    requires
        states.len() == 60,
        forall|i: int|
            0 <= i < 59 ==> states[i + 1] == permutation.permuted(#[trigger] states[i]),
    ensures
        digest_of(permutation, states[0]).len() == 2,
        digest_of(permutation, states[0])[0] == states[59][0],
        digest_of(permutation, states[0])[1] == states[59][1],
{
    lemma_state_after(permutation, states, 59);
}

/// The witness of a sequence holds the states before and after each permutation, and the digest is
/// the first two lanes of its last entry.
pub proof fn witness_holds_the_sequence(
    permutation: Poseidon2bPermutation,
    states: Seq<Seq<Block128>>,
    witness: SequenceWitness,
)
    requires
        states.len() == 60,
        forall|i: int|
            0 <= i < 59 ==> states[i + 1] == permutation.permuted(#[trigger] states[i]),
        witness.is_for(permutation, states[0]),
    ensures
        digest_of(permutation, states[0])[0] == witness.states@[58].1@[0],
        digest_of(permutation, states[0])[1] == witness.states@[58].1@[1],
        witness.states@.len() == 59,
        forall|i: int|
            0 <= i < 59 ==> (#[trigger] witness.states@[i]).0@ == states[i]
                && witness.states@[i].1@ == states[i + 1],
        witness.final_state@ == states[59],
{
    assert forall|i: int| 0 <= i < 59 implies (#[trigger] witness.states@[i]).0@ == states[i]
        && witness.states@[i].1@ == states[i + 1] by {
        lemma_state_after(permutation, states, i as nat);
        lemma_state_after(permutation, states, (i + 1) as nat);
    }
    lemma_state_after(permutation, states, 59);
    assert(witness.states@[58].1@ == states[59]);
}

/// States that follow each other by the permutation are the states of the sequence.
pub proof fn lemma_state_after(
    permutation: Poseidon2bPermutation,
    states: Seq<Seq<Block128>>,
    i: nat,
)
    requires
        i < states.len(),
        forall|k: int|
            0 <= k < states.len() - 1 ==> states[k + 1] == permutation.permuted(
                #[trigger] states[k],
            ),
    ensures
        state_after(permutation, states[0], i) == states[i as int],
    decreases i,
{
    if i > 0 {
        lemma_state_after(permutation, states, (i - 1) as nat);
        assert(states[i - 1 + 1] == permutation.permuted(states[i - 1]));
    }
}

/// Evaluate the public sequence natively.
pub fn evaluate_sequence(permutation: &Poseidon2bPermutation, input: &SequenceInput) -> (witness:
    SequenceWitness)
    ensures
        witness.is_for(*permutation, input.initial_state@),
{
    let mut current = input.initial_state;
    let mut states: Vec<([Block128; 4], [Block128; 4])> = Vec::with_capacity(N_PERMUTATIONS);
    let mut i: usize = 0;
    while i < 59
        invariant
            i <= 59,
            states@.len() == i,
            current@ == state_after(*permutation, input.initial_state@, i as nat),
            forall|k: int|
                0 <= k < i ==> (#[trigger] states@[k]).0@ == state_after(
                    *permutation,
                    input.initial_state@,
                    k as nat,
                ) && states@[k].1@ == state_after(
                    *permutation,
                    input.initial_state@,
                    (k + 1) as nat,
                ),
        decreases 59 - i,
    {
        let state_in = current;
        permutation.permute_mut(&mut current);
        states.push((state_in, current));
        i = i + 1;
    }
    SequenceWitness { states, final_state: current }
}

/// Two-lane public digest used to bind the sequence to the transcript.
pub fn sequence_digest(permutation: &Poseidon2bPermutation, input: &SequenceInput) -> (digest: [Block128; 2])
    ensures
        digest@ == digest_of(*permutation, input.initial_state@),
        digest@[0] == state_after(*permutation, input.initial_state@, 59)[0],
        digest@[1] == state_after(*permutation, input.initial_state@, 59)[1],
{
    let final_state = evaluate_sequence(permutation, input).final_state;
    let digest = [final_state[0], final_state[1]];
    proof {
        assert(digest@ =~= digest_of(*permutation, input.initial_state@));
    }
    digest
}

} // verus!
