//! Proofs of the fixed sequence.
use frost_gkr::evaluate::evaluate_slice;
use frost_gkr::{
    build_boundary_mle, discharge_legacy_native, evaluate_sequence, prove_legacy, sequence_digest,
    verify_legacy, Block128, FullMatrix, Poseidon2bChannel, Poseidon2bPermutation, SequenceInput,
    TowerField,
};

const LEGACY_EXPECTED_BYTES: usize = 287_712;

fn splitmix(state: &mut u64) -> u64 {
    *state = state.wrapping_add(0x9e37_79b9_7f4a_7c15);
    let mut value = *state;
    value = (value ^ (value >> 30)).wrapping_mul(0xbf58_476d_1ce4_e5b9);
    value = (value ^ (value >> 27)).wrapping_mul(0x94d0_49bb_1331_11eb);
    value ^ (value >> 31)
}

fn next_block(state: &mut u64) -> Block128 {
    let low = splitmix(state) as u128;
    Block128(low | ((splitmix(state) as u128) << 64))
}

/// Parameters drawn from a fixed stream; the matrices have small entries.
fn permutation() -> Poseidon2bPermutation {
    let mut s = 0x706f_7365_6964_6f6eu64;
    let mut round_constants = [[Block128(0); 66]; 4];
    for lane in round_constants.iter_mut() {
        for constant in lane.iter_mut() {
            *constant = next_block(&mut s);
        }
    }
    let mut byte = || Block128((splitmix(&mut s) & 0xff) as u128);
    let full = FullMatrix {
        m00: byte(),
        m01: byte(),
        m03: byte(),
        m10: byte(),
        m11: byte(),
        m21: byte(),
        m22: byte(),
        m23: byte(),
        m32: byte(),
        m33: byte(),
    };
    let partial_diagonal = std::array::from_fn(|_| byte());
    Poseidon2bPermutation {
        round_constants,
        full,
        partial_diagonal,
    }
}

fn fixture() -> SequenceInput {
    SequenceInput {
        initial_state: [
            Block128::from(1u128),
            Block128::from(2u128),
            Block128::from(3u128),
            Block128::from(4u128),
        ],
    }
}

#[test]
fn legacy_round_trip_and_native_discharge() {
    let p = permutation();
    let input = fixture();
    let digest = sequence_digest(&p, &input);

    let mut prover_channel = Poseidon2bChannel::new(p);
    let (proof, prover_reduction) = prove_legacy(&p, &input, digest, &mut prover_channel);

    let mut verifier_channel = Poseidon2bChannel::new(p);
    let verifier_reduction =
        verify_legacy(&p, &proof, &input, digest, &mut verifier_channel).unwrap();

    assert_eq!(prover_reduction, verifier_reduction);
    assert!(discharge_legacy_native(&p, &input, &verifier_reduction));
    assert_eq!(proof.byte_len(), LEGACY_EXPECTED_BYTES);

    let mut wrong = verifier_reduction.clone();
    wrong.value += Block128::one();
    assert!(!discharge_legacy_native(&p, &input, &wrong));
    let table = build_boundary_mle(&p, &evaluate_sequence(&p, &input).states);
    assert_eq!(
        evaluate_slice(&table, &verifier_reduction.point),
        verifier_reduction.value
    );
}

#[test]
fn legacy_wrong_digest_is_rejected() {
    let p = permutation();
    let input = fixture();
    let digest = sequence_digest(&p, &input);
    let mut prover_channel = Poseidon2bChannel::new(p);
    let (proof, _) = prove_legacy(&p, &input, digest, &mut prover_channel);

    let mut bad = digest;
    bad[0] += Block128::one();
    let mut verifier_channel = Poseidon2bChannel::new(p);
    assert!(verify_legacy(&p, &proof, &input, bad, &mut verifier_channel).is_none());

    let mut short = proof.clone();
    short.permutations.pop();
    let mut verifier_channel = Poseidon2bChannel::new(p);
    assert!(verify_legacy(&p, &short, &input, digest, &mut verifier_channel).is_none());

    let mut tampered = proof.clone();
    tampered.permutations[30].sin_r4_check.a_final += Block128::one();
    let mut verifier_channel = Poseidon2bChannel::new(p);
    assert!(verify_legacy(&p, &tampered, &input, digest, &mut verifier_channel).is_none());
}
