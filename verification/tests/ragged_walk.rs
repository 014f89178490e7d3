//! The aggregate walk over regions of unequal width.
use frost_gkr::layer_states::{initial_layer_columns, output_layer_columns};
use frost_gkr::ragged::{
    claims_from_outputs, discharge_terminals, prove_ragged, verify_ragged, LaneClaim, RaggedError,
    RaggedProof,
};
use frost_gkr::wide::{evaluate_column, WideChannel};
use frost_gkr::{
    Block128, Block256, FullMatrix, Poseidon2bChannel, Poseidon2bPermutation, TowerField,
};

fn splitmix(state: &mut u64) -> u64 {
    *state = state.wrapping_add(0x9e37_79b9_7f4a_7c15);
    let mut value = *state;
    value = (value ^ (value >> 30)).wrapping_mul(0xbf58_476d_1ce4_e5b9);
    value = (value ^ (value >> 27)).wrapping_mul(0x94d0_49bb_1331_11eb);
    value ^ (value >> 31)
}

fn next_block(state: &mut u64) -> Block128 {
    let low = splitmix(state) as u128;
    Block128(low | ((splitmix(state) as u128) << 64))
}

/// Parameters drawn from a fixed stream; the matrices have small entries.
fn permutation() -> Poseidon2bPermutation {
    let mut s = 0x706f_7365_6964_6f6eu64;
    let mut round_constants = [[Block128(0); 66]; 4];
    for lane in round_constants.iter_mut() {
        for constant in lane.iter_mut() {
            *constant = next_block(&mut s);
        }
    }
    let mut byte = || Block128((splitmix(&mut s) & 0xff) as u128);
    let full = FullMatrix {
        m00: byte(),
        m01: byte(),
        m03: byte(),
        m10: byte(),
        m11: byte(),
        m21: byte(),
        m22: byte(),
        m23: byte(),
        m32: byte(),
        m33: byte(),
    };
    let partial_diagonal = std::array::from_fn(|_| byte());
    Poseidon2bPermutation {
        round_constants,
        full,
        partial_diagonal,
    }
}

struct Rng(u64);

impl Rng {
    fn base(&mut self) -> Block128 {
        next_block(&mut self.0)
    }

    fn wide(&mut self) -> Block256 {
        Block256::new(self.base(), self.base())
    }
}

fn fixture(widths: &[usize]) -> Vec<[Vec<Block128>; 4]> {
    widths
        .iter()
        .enumerate()
        .map(|(region, &width)| {
            let mut rng = Rng(0x7261_6767_6564_0000 + region as u64);
            let raw = std::array::from_fn(|_| {
                (0..1usize << width).map(|_| rng.base()).collect::<Vec<_>>()
            });
            initial_layer_columns(&permutation(), &raw)
        })
        .collect()
}

fn points(widths: &[usize]) -> Vec<Vec<Block256>> {
    let mut rng = Rng(0x706f_696e_7473_0001);
    widths
        .iter()
        .map(|&width| (0..width).map(|_| rng.wide()).collect())
        .collect()
}

fn outputs_of(inputs: &[[Vec<Block128>; 4]]) -> Vec<[Vec<Block128>; 4]> {
    inputs
        .iter()
        .map(|columns| output_layer_columns(&permutation(), columns))
        .collect()
}

fn prove_verify(
    inputs: &[[Vec<Block128>; 4]],
    groups: &[LaneClaim],
) -> (RaggedProof, Vec<LaneClaim>) {
    let p = permutation();
    let references = inputs.iter().collect::<Vec<_>>();
    let mut prover = WideChannel::new(Poseidon2bChannel::new(p));
    let (proof, prover_terminals) = prove_ragged(&p, &references, groups, &mut prover);
    let widths = inputs
        .iter()
        .map(|columns| columns[0].len().trailing_zeros() as usize)
        .collect::<Vec<_>>();
    let mut verifier = WideChannel::new(Poseidon2bChannel::new(p));
    let verifier_terminals = verify_ragged(&p, &widths, groups, &proof, &mut verifier).unwrap();
    assert_eq!(prover_terminals, verifier_terminals);
    assert!(discharge_terminals(&references, &verifier_terminals));
    (proof, verifier_terminals)
}

#[test]
fn flat_66_layer_path_matches_native_poseidon2b() {
    let mut rng = Rng(0x706f_7365_6964_6f6e);
    let raw = std::array::from_fn(|_| (0..32).map(|_| rng.base()).collect::<Vec<_>>());
    let layer_zero = initial_layer_columns(&permutation(), &raw);
    let output = output_layer_columns(&permutation(), &layer_zero);
    let permutation = permutation();
    for index in 0..32 {
        let mut expected = std::array::from_fn(|lane| raw[lane][index]);
        permutation.permute_mut(&mut expected);
        assert_eq!(std::array::from_fn(|lane| output[lane][index]), expected);
    }
}

#[test]
fn unequal_width_roundtrip_and_mutation_rejection() {
    let p = permutation();
    let widths = [2, 4, 3];
    let inputs = fixture(&widths);
    let outputs = outputs_of(&inputs);
    let groups = claims_from_outputs(&outputs, &points(&widths));
    let (proof, _) = prove_verify(&inputs, &groups);

    let mut bad = proof.clone();
    bad.layers[7].round_coeffs[1][3] += Block256::one();
    let mut verifier = WideChannel::new(Poseidon2bChannel::new(p));
    assert!(verify_ragged(&p, &widths, &groups, &bad, &mut verifier).is_err());

    // The first wrong layer is reported.
    let mut wrong = proof.clone();
    wrong.layers[0].next_values[2][1] += Block256::one();
    let mut verifier = WideChannel::new(Poseidon2bChannel::new(p));
    assert_eq!(
        verify_ragged(&p, &widths, &groups, &wrong, &mut verifier),
        Err(RaggedError::LayerMismatch(66))
    );
}

#[test]
fn shapes_are_checked() {
    let p = permutation();
    let widths = [1, 2];
    let inputs = fixture(&widths);
    let groups = claims_from_outputs(&outputs_of(&inputs), &points(&widths));
    let (proof, terminals) = prove_verify(&inputs, &groups);
    assert_eq!(proof.byte_len(), 66 * 32 * (8 * 2 + 4 * 2));
    let check = |widths: &[usize], groups: &[LaneClaim], proof: &RaggedProof| {
        let mut verifier = WideChannel::new(Poseidon2bChannel::new(p));
        verify_ragged(&p, widths, groups, proof, &mut verifier)
    };
    assert_eq!(check(&[], &[], &proof), Err(RaggedError::Shape));
    assert_eq!(check(&[1], &groups, &proof), Err(RaggedError::Shape));
    assert_eq!(check(&[2, 2], &groups, &proof), Err(RaggedError::Shape));
    assert_eq!(check(&[1, 0], &groups, &proof), Err(RaggedError::Shape));
    let mut short = proof.clone();
    short.layers.pop();
    assert_eq!(check(&widths, &groups, &short), Err(RaggedError::Shape));
    let mut thin = proof.clone();
    thin.layers[3].next_values.pop();
    assert_eq!(check(&widths, &groups, &thin), Err(RaggedError::Shape));

    let references = inputs.iter().collect::<Vec<_>>();
    assert!(!discharge_terminals(&references, &terminals[..1]));
    let mut off = terminals.clone();
    off[1].values[3] += Block256::one();
    assert!(!discharge_terminals(&references, &off));
}

#[test]
fn errors_are_described() {
    assert_eq!(RaggedError::Shape.message(), "ragged walk proof shape mismatch");
    assert_eq!(
        RaggedError::LayerMismatch(66).message(),
        "ragged walk layer 66 claim mismatch"
    );
    assert_eq!(
        RaggedError::LayerMismatch(0).message(),
        "ragged walk layer 0 claim mismatch"
    );
    assert_eq!(
        RaggedError::LayerMismatch(1203).message(),
        "ragged walk layer 1203 claim mismatch"
    );
}

#[test]
fn column_evaluation_at_vertices() {
    let column: Vec<Block128> = (10u8..14).map(Block128::from).collect();
    let (zero, one) = (Block256::zero(), Block256::one());
    assert_eq!(evaluate_column(&column, &[one, zero]), Block256::from(11u8));
    assert_eq!(evaluate_column(&column, &[zero, one]), Block256::from(12u8));
    assert_eq!(
        evaluate_column(&column, &[one + one, one]),
        Block256::from(12u8)
    );
}

#[test]
fn ragged_independent_and_physical_padding_prove_the_same_output_claims() {
    let widths = [2, 4, 3];
    let max_width = *widths.iter().max().unwrap();
    let inputs = fixture(&widths);
    let outputs = outputs_of(&inputs);
    let native_points = points(&widths);
    let native_groups = claims_from_outputs(&outputs, &native_points);
    let (ragged, _) = prove_verify(&inputs, &native_groups);

    let independent_bytes = inputs
        .iter()
        .zip(&native_groups)
        .map(|(input, group)| {
            let one_input = vec![input.clone()];
            let one_group = vec![group.clone()];
            prove_verify(&one_input, &one_group).0.byte_len()
        })
        .sum::<usize>();

    let padded_inputs = inputs
        .iter()
        .map(|columns| {
            std::array::from_fn(|lane| {
                let mut column = columns[lane].clone();
                column.resize(1usize << max_width, Block128::zero());
                column
            })
        })
        .collect::<Vec<_>>();
    let padded_outputs = outputs_of(&padded_inputs);
    let padded_points = native_points
        .iter()
        .map(|point| {
            let mut point = point.clone();
            point.resize(max_width, Block256::zero());
            point
        })
        .collect::<Vec<_>>();
    let padded_groups = claims_from_outputs(&padded_outputs, &padded_points);
    assert_eq!(
        native_groups
            .iter()
            .map(|group| group.values)
            .collect::<Vec<_>>(),
        padded_groups
            .iter()
            .map(|group| group.values)
            .collect::<Vec<_>>()
    );
    let (padded, _) = prove_verify(&padded_inputs, &padded_groups);

    assert_eq!(ragged.byte_len(), padded.byte_len());
    assert!(ragged.byte_len() < independent_bytes);
}
