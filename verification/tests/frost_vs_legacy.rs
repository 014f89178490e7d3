//! The two proofs of the fixed sequence side by side.
//!
//! The constraint phase of the FROST proofs here is transparent: the points come from the transcript
//! and the claims are read off the columns.
use frost_gkr::evaluate::evaluate_slice;
use frost_gkr::frost::discharge_frost_columns;
use frost_gkr::{
    build_unified_from_sequence, discharge_frost_native, discharge_legacy_native,
    evaluate_permutation, prove_frost, prove_legacy, sequence_digest, verify_frost, verify_legacy,
    Block128, FiatShamir, FrostProof, FrostReductions, FullMatrix, PermMle, Poseidon2bChannel,
    Poseidon2bPermutation, SequenceInput, ShiftProof, ShiftReduction, TowerField, UnifiedMle,
    UnifiedProof, UnifiedReduction, N_UNIFIED_CELLS, N_UNIFIED_VARS,
};

const LEGACY_EXPECTED_BYTES: usize = 287_712;
const FROST_EXPECTED_BYTES: usize = 5_568;

fn splitmix(state: &mut u64) -> u64 {
    *state = state.wrapping_add(0x9e37_79b9_7f4a_7c15);
    let mut value = *state;
    value = (value ^ (value >> 30)).wrapping_mul(0xbf58_476d_1ce4_e5b9);
    value = (value ^ (value >> 27)).wrapping_mul(0x94d0_49bb_1331_11eb);
    value ^ (value >> 31)
}

fn next_block(state: &mut u64) -> Block128 {
    let low = splitmix(state) as u128;
    Block128(low | ((splitmix(state) as u128) << 64))
}

/// Parameters drawn from a fixed stream; the matrices have small entries.
fn permutation() -> Poseidon2bPermutation {
    let mut s = 0x706f_7365_6964_6f6eu64;
    let mut round_constants = [[Block128(0); 66]; 4];
    for lane in round_constants.iter_mut() {
        for constant in lane.iter_mut() {
            *constant = next_block(&mut s);
        }
    }
    let mut byte = || Block128((splitmix(&mut s) & 0xff) as u128);
    let full = FullMatrix {
        m00: byte(),
        m01: byte(),
        m03: byte(),
        m10: byte(),
        m11: byte(),
        m21: byte(),
        m22: byte(),
        m23: byte(),
        m32: byte(),
        m33: byte(),
    };
    let partial_diagonal = std::array::from_fn(|_| byte());
    Poseidon2bPermutation {
        round_constants,
        full,
        partial_diagonal,
    }
}

fn fixture() -> SequenceInput {
    SequenceInput {
        initial_state: [
            Block128::from(1u128),
            Block128::from(2u128),
            Block128::from(3u128),
            Block128::from(4u128),
        ],
    }
}

/// One block of 512 cells per permutation, zero blocks at the end.
fn lay_out(inputs: Vec<[Block128; 4]>) -> UnifiedMle {
    let p = permutation();
    assert_eq!(inputs.len(), 59);
    let mut mle = UnifiedMle {
        state: Vec::new(),
        s_in: Vec::new(),
        s_out: Vec::new(),
    };
    for input in inputs {
        let witness = evaluate_permutation(&p, input);
        let columns = PermMle::from_witness(&p, input, &witness);
        mle.state.extend(columns.state);
        mle.s_in.extend(columns.sin);
        mle.s_out.extend(columns.sout);
    }
    mle.state.resize(N_UNIFIED_CELLS, Block128::zero());
    mle.s_in.resize(N_UNIFIED_CELLS, Block128::zero());
    mle.s_out.resize(N_UNIFIED_CELLS, Block128::zero());
    mle
}

fn point(channel: &mut Poseidon2bChannel) -> Vec<Block128> {
    (0..N_UNIFIED_VARS).map(|_| channel.squeeze()).collect()
}

fn prove_main(mle: &UnifiedMle, channel: &mut Poseidon2bChannel) -> (UnifiedProof, Vec<Block128>) {
    let r = point(channel);
    let state_at_r = evaluate_slice(&mle.state, &r);
    channel.absorb(state_at_r);
    let proof = UnifiedProof {
        round_polys: vec![[Block128::zero(); 10]; N_UNIFIED_VARS],
        state_at_r,
        shifted_at_r: [Block128::zero(); 11],
    };
    (proof, r)
}

fn prove_shift(
    mle: &UnifiedMle,
    _: &Vec<Block128>,
    channel: &mut Poseidon2bChannel,
) -> (ShiftProof, Vec<Block128>) {
    let r = point(channel);
    let proof = ShiftProof {
        round_polys: vec![[Block128::zero(); 3]; N_UNIFIED_VARS],
        state_at_r2: evaluate_slice(&mle.state, &r),
        s_in_at_r2: evaluate_slice(&mle.s_in, &r),
        s_out_at_r2: evaluate_slice(&mle.s_out, &r),
    };
    (proof, r)
}

fn verify_main(proof: &UnifiedProof, channel: &mut Poseidon2bChannel) -> Option<UnifiedReduction> {
    if proof.round_polys.len() != N_UNIFIED_VARS {
        return None;
    }
    let r_prime = point(channel);
    channel.absorb(proof.state_at_r);
    Some(UnifiedReduction {
        r_prime,
        state_at_r: proof.state_at_r,
        shifted_at_r: proof.shifted_at_r,
    })
}

fn verify_shift(
    proof: &ShiftProof,
    _: &UnifiedReduction,
    channel: &mut Poseidon2bChannel,
) -> Option<ShiftReduction> {
    if proof.round_polys.len() != N_UNIFIED_VARS {
        return None;
    }
    Some(ShiftReduction {
        r_double_prime: point(channel),
        state_at_r2: proof.state_at_r2,
        s_in_at_r2: proof.s_in_at_r2,
        s_out_at_r2: proof.s_out_at_r2,
    })
}

fn prove(input: &SequenceInput, digest: [Block128; 2]) -> (FrostProof, FrostReductions) {
    let p = permutation();
    let mut channel = Poseidon2bChannel::new(p);
    prove_frost(&p, input, digest, &mut channel, lay_out, prove_main, prove_shift)
}

fn verify(
    proof: &FrostProof,
    input: &SequenceInput,
    digest: [Block128; 2],
) -> Option<FrostReductions> {
    let p = permutation();
    let mut channel = Poseidon2bChannel::new(p);
    verify_frost(&p, proof, input, digest, &mut channel, verify_main, verify_shift)
}

#[test]
fn both_protocols_prove_the_same_sequence() {
    let p = permutation();
    let input = fixture();
    let digest = sequence_digest(&p, &input);

    let mut legacy_prover_channel = Poseidon2bChannel::new(p);
    let (legacy_proof, legacy_prover_reduction) =
        prove_legacy(&p, &input, digest, &mut legacy_prover_channel);
    let mut legacy_verifier_channel = Poseidon2bChannel::new(p);
    let legacy_verifier_reduction = verify_legacy(
        &p,
        &legacy_proof,
        &input,
        digest,
        &mut legacy_verifier_channel,
    )
    .unwrap();
    assert_eq!(legacy_prover_reduction, legacy_verifier_reduction);
    assert!(discharge_legacy_native(&p, &input, &legacy_verifier_reduction));

    let (frost_proof, frost_prover_reductions) = prove(&input, digest);
    let frost_verifier_reductions = verify(&frost_proof, &input, digest).unwrap();
    assert_eq!(frost_prover_reductions, frost_verifier_reductions);
    assert!(discharge_frost_native(
        &p,
        &input,
        &frost_verifier_reductions,
        lay_out
    ));

    assert_eq!(legacy_proof.byte_len(), LEGACY_EXPECTED_BYTES);
    assert_eq!(frost_proof.byte_len(), FROST_EXPECTED_BYTES);
}

#[test]
fn changing_the_public_input_invalidates_both_proofs() {
    let p = permutation();
    let input = fixture();
    let digest = sequence_digest(&p, &input);

    let mut legacy_prover_channel = Poseidon2bChannel::new(p);
    let (legacy_proof, _) = prove_legacy(&p, &input, digest, &mut legacy_prover_channel);
    let (frost_proof, _) = prove(&input, digest);

    let mut changed = input;
    changed.initial_state[0] += Block128::one();

    let mut legacy_verifier_channel = Poseidon2bChannel::new(p);
    assert!(verify_legacy(
        &p,
        &legacy_proof,
        &changed,
        digest,
        &mut legacy_verifier_channel
    )
    .is_none());
    assert!(verify(&frost_proof, &changed, digest).is_none());
}

#[test]
fn frost_round_trip_and_native_discharge() {
    let p = permutation();
    let input = fixture();
    let digest = sequence_digest(&p, &input);
    let (proof, prover_reductions) = prove(&input, digest);
    let verifier_reductions = verify(&proof, &input, digest).unwrap();

    assert_eq!(prover_reductions, verifier_reductions);
    assert!(discharge_frost_native(&p, &input, &verifier_reductions, lay_out));

    // Each column is checked.
    let mle = build_unified_from_sequence(&p, &input, lay_out);
    for column in 0..3 {
        let mut wrong = verifier_reductions.clone();
        match column {
            0 => wrong.state.value += Block128::one(),
            1 => wrong.sin.value += Block128::one(),
            _ => wrong.sout.value += Block128::one(),
        }
        assert!(!discharge_frost_columns(&mle, &wrong));
    }
}

#[test]
fn tampered_main_claim_is_rejected() {
    let input = fixture();
    let digest = sequence_digest(&permutation(), &input);
    let (mut proof, _) = prove(&input, digest);
    proof.frost.main.state_at_r += Block128::one();
    assert!(verify(&proof, &input, digest).is_none());
}

#[test]
fn tampered_shift_claim_is_rejected() {
    let input = fixture();
    let digest = sequence_digest(&permutation(), &input);
    let (mut proof, _) = prove(&input, digest);
    proof.frost.shift.s_in_at_r2 += Block128::one();
    assert!(verify(&proof, &input, digest).is_none());
}

#[test]
fn tampered_batch_reduction_is_rejected() {
    let input = fixture();
    let digest = sequence_digest(&permutation(), &input);
    let (mut proof, _) = prove(&input, digest);
    proof.state_batch.b_final += Block128::one();
    assert!(verify(&proof, &input, digest).is_none());
}

#[test]
fn frost_wrong_digest_is_rejected() {
    let input = fixture();
    let digest = sequence_digest(&permutation(), &input);
    let (proof, _) = prove(&input, digest);

    let mut bad = digest;
    bad[1] += Block128::one();
    assert!(verify(&proof, &input, bad).is_none());
}

#[test]
fn rejected_constraint_phases_end_the_verification() {
    let input = fixture();
    let digest = sequence_digest(&permutation(), &input);
    let (proof, _) = prove(&input, digest);
    let mut short = proof.clone();
    short.frost.main.round_polys.pop();
    assert!(verify(&short, &input, digest).is_none());
    let mut short = proof.clone();
    short.frost.shift.round_polys.pop();
    assert!(verify(&short, &input, digest).is_none());
}
