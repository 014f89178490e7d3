//! Product sumcheck, batch evaluation and the permutation chain.
use frost_gkr::batch_eval::lagrange_at_0_1_2;
use frost_gkr::evaluate::evaluate_slice;
use frost_gkr::product_sumcheck::lagrange_at_0_1_2_3;
use frost_gkr::{
    active_mle, build_active_mle, build_boundary_mle, build_rc_mle, compute_product_claim, evaluate_permutation,
    evaluate_sequence, pack_column, prove_batch_eval, prove_perm, prove_product, prove_square,
    rc_mle, sequence_digest, verify_batch_eval, verify_perm, verify_product, Block128, EvalClaim,
    FiatShamir, FullMatrix, PermMle, Poseidon2bChannel, Poseidon2bPermutation, SequenceInput,
    TowerField, N_PERMUTATIONS, N_PERM_CELLS,
};
use rand::rngs::StdRng;
use rand::{Rng, SeedableRng};

fn splitmix(state: &mut u64) -> u64 {
    *state = state.wrapping_add(0x9e37_79b9_7f4a_7c15);
    let mut value = *state;
    value = (value ^ (value >> 30)).wrapping_mul(0xbf58_476d_1ce4_e5b9);
    value = (value ^ (value >> 27)).wrapping_mul(0x94d0_49bb_1331_11eb);
    value ^ (value >> 31)
}

fn next_block(state: &mut u64) -> Block128 {
    let low = splitmix(state) as u128;
    Block128(low | ((splitmix(state) as u128) << 64))
}

/// Parameters drawn from a fixed stream; the matrices have small entries.
fn permutation() -> Poseidon2bPermutation {
    let mut s = 0x706f_7365_6964_6f6eu64;
    let mut round_constants = [[Block128(0); 66]; 4];
    for lane in round_constants.iter_mut() {
        for constant in lane.iter_mut() {
            *constant = next_block(&mut s);
        }
    }
    let mut byte = || Block128((splitmix(&mut s) & 0xff) as u128);
    let full = FullMatrix {
        m00: byte(),
        m01: byte(),
        m03: byte(),
        m10: byte(),
        m11: byte(),
        m21: byte(),
        m22: byte(),
        m23: byte(),
        m32: byte(),
        m33: byte(),
    };
    let partial_diagonal = std::array::from_fn(|_| byte());
    Poseidon2bPermutation {
        round_constants,
        full,
        partial_diagonal,
    }
}

fn rand_vec(rng: &mut StdRng, n: usize) -> Vec<Block128> {
    (0..n).map(|_| Block128::from(rng.gen::<u128>())).collect()
}

fn fresh_channel(seed: u64) -> Poseidon2bChannel {
    let mut ch = Poseidon2bChannel::new(permutation());
    ch.absorb(Block128::from(seed as u128));
    ch
}

fn fixture() -> SequenceInput {
    SequenceInput {
        initial_state: [
            Block128::from(1u128),
            Block128::from(2u128),
            Block128::from(3u128),
            Block128::from(4u128),
        ],
    }
}

#[test]
fn lagrange_roundtrip_through_0_1_2_3() {
    // Fix a known deg-3 polynomial p(X) = 7 + 3X + 2X^2 + X^3 and
    // verify Lagrange reconstruction at several points.
    let c0 = Block128::from(7u128);
    let c1 = Block128::from(3u128);
    let c2 = Block128::from(2u128);
    let c3 = Block128::from(1u128);
    let eval = |x: Block128| -> Block128 { c0 + c1 * x + c2 * x * x + c3 * x * x * x };

    let evals = [
        eval(Block128::from(0u128)),
        eval(Block128::from(1u128)),
        eval(Block128::from(2u128)),
        eval(Block128::from(3u128)),
    ];

    for r_i in [5u128, 17, 0x1234, u128::MAX] {
        let r = Block128::from(r_i);
        let got = lagrange_at_0_1_2_3(&evals, r);
        let want = eval(r);
        assert_eq!(got, want, "lagrange mismatch at r={r_i}");
    }
}

#[test]
fn lagrange_through_three_points() {
    let eval = |x: Block128| Block128(9) + Block128(4) * x + Block128(6) * x * x;
    let evals = [eval(Block128(0)), eval(Block128(1)), eval(Block128(2))];
    for r in [0u128, 1, 2, 3, 0xffff_0000] {
        assert_eq!(lagrange_at_0_1_2(&evals, Block128(r)), eval(Block128(r)));
    }
}

#[test]
fn different_messages_agree_at_few_points() {
    // Cubic polynomials through four nodes that differ at the first node only.
    let one = Block128::one();
    let zero = Block128::zero();
    let sent = [one, zero, zero, zero];
    let honest = [zero, zero, zero, zero];
    let agreements = (0u128..1024)
        .filter(|&x| {
            lagrange_at_0_1_2_3(&sent, Block128(x)) == lagrange_at_0_1_2_3(&honest, Block128(x))
        })
        .collect::<Vec<_>>();
    assert_eq!(agreements, vec![1, 2, 3]);
}

#[test]
fn lifted_claims_are_claims_on_the_boundary_table() {
    let p = permutation();
    let input = fixture();
    let states = evaluate_sequence(&p, &input).states;
    let table = build_boundary_mle(&p, &states);
    let mut rng = StdRng::seed_from_u64(8);
    let point = rand_vec(&mut rng, 9);
    let index = 37usize;
    let column = pack_column(&evaluate_permutation(&p, states[index].0));
    let mut lifted = point.clone();
    lifted.extend((0..6).map(|bit| Block128((index as u128 >> bit) & 1)));
    assert_eq!(evaluate_slice(&table, &lifted), evaluate_slice(&column, &point));
}

#[test]
fn product_round_trip_and_rejection() {
    let mut rng = StdRng::seed_from_u64(11);
    // Sizes on both sides of the parallel threshold.
    for n in [0usize, 1, 3, 8] {
        let a = rand_vec(&mut rng, 1 << n);
        let b = rand_vec(&mut rng, 1 << n);
        let r = rand_vec(&mut rng, n);
        let v = compute_product_claim(&a, &b, &r);
        let (proof, point) = prove_product(&a, &b, &r, v, &mut fresh_channel(1));
        let got = verify_product(&proof, &r, v, &mut fresh_channel(1)).unwrap();
        assert_eq!(got, point);
        assert_eq!(proof.a_final, evaluate_slice(&a, &point));
        assert_eq!(proof.b_final, evaluate_slice(&b, &point));
        assert_eq!(proof.byte_len(), n * 64 + 32);

        let wrong = v + Block128::one();
        assert!(verify_product(&proof, &r, wrong, &mut fresh_channel(1)).is_none());
        let mut short = proof.clone();
        if short.rounds.pop().is_some() {
            assert!(verify_product(&short, &r, v, &mut fresh_channel(1)).is_none());
        }
    }
}

#[test]
fn square_path_matches_product_path() {
    let mut rng = StdRng::seed_from_u64(12);
    let n = 8;
    let a = rand_vec(&mut rng, 1 << n);
    let r = rand_vec(&mut rng, n);
    let v = compute_product_claim(&a, &a, &r);
    let general = prove_product(&a, &a, &r, v, &mut fresh_channel(5));
    let special = prove_square(&a, &r, v, &mut fresh_channel(5));
    assert_eq!(general, special);
}

#[test]
fn honest_roundtrip_single_claim() {
    let mut rng = StdRng::seed_from_u64(1);
    let n = 5;
    let b = rand_vec(&mut rng, 1 << n);
    let r0 = rand_vec(&mut rng, n);
    let v0 = evaluate_slice(&b, &r0);
    let claims = vec![EvalClaim {
        point: r0,
        value: v0,
    }];

    let mut cp = fresh_channel(7);
    let (proof, red_p) = prove_batch_eval(&b, &claims, &mut cp);

    let mut cv = fresh_channel(7);
    let red_v = verify_batch_eval(&proof, &claims, n, &mut cv).unwrap();
    assert_eq!(red_p, red_v);
    assert_eq!(red_v.value, evaluate_slice(&b, &red_v.point));
}

#[test]
fn honest_roundtrip_many_claims() {
    let mut rng = StdRng::seed_from_u64(2);
    let n = 6;
    let b = rand_vec(&mut rng, 1 << n);
    let m = 17;
    let claims: Vec<EvalClaim> = (0..m)
        .map(|_| {
            let r = rand_vec(&mut rng, n);
            let v = evaluate_slice(&b, &r);
            EvalClaim { point: r, value: v }
        })
        .collect();

    let mut cp = fresh_channel(13);
    let (proof, red_p) = prove_batch_eval(&b, &claims, &mut cp);

    let mut cv = fresh_channel(13);
    let red_v = verify_batch_eval(&proof, &claims, n, &mut cv).unwrap();
    assert_eq!(red_p, red_v);
    assert_eq!(red_v.value, evaluate_slice(&b, &red_v.point));
}

#[test]
fn forged_verifier_claim_rejected() {
    // Prover runs honestly. Verifier is handed a claim vector with
    // one tampered `value`; its initial running claim forks, so
    // round 0's telescope `e0+e1 == claim` fails immediately.
    let mut rng = StdRng::seed_from_u64(3);
    let n = 5;
    let b = rand_vec(&mut rng, 1 << n);
    let r0 = rand_vec(&mut rng, n);
    let good = evaluate_slice(&b, &r0);
    let honest_claims = vec![EvalClaim {
        point: r0.clone(),
        value: good,
    }];

    let mut cp = fresh_channel(9);
    let (proof, _) = prove_batch_eval(&b, &honest_claims, &mut cp);

    let bad_claims = vec![EvalClaim {
        point: r0,
        value: good + Block128::from(1u128),
    }];
    let mut cv = fresh_channel(9);
    assert!(verify_batch_eval(&proof, &bad_claims, n, &mut cv).is_none());
}

#[test]
fn tampered_b_final_rejected() {
    let mut rng = StdRng::seed_from_u64(4);
    let n = 5;
    let b = rand_vec(&mut rng, 1 << n);
    let r0 = rand_vec(&mut rng, n);
    let v0 = evaluate_slice(&b, &r0);
    let claims = vec![EvalClaim {
        point: r0,
        value: v0,
    }];

    let mut cp = fresh_channel(17);
    let (mut proof, _) = prove_batch_eval(&b, &claims, &mut cp);
    proof.b_final += Block128::from(1u128);

    let mut cv = fresh_channel(17);
    assert!(verify_batch_eval(&proof, &claims, n, &mut cv).is_none());
}

#[test]
fn determinism() {
    let mut rng = StdRng::seed_from_u64(5);
    let n = 5;
    let b = rand_vec(&mut rng, 1 << n);
    let r0 = rand_vec(&mut rng, n);
    let v0 = evaluate_slice(&b, &r0);
    let claims = vec![EvalClaim {
        point: r0,
        value: v0,
    }];

    let mut c1 = fresh_channel(21);
    let (p1, _) = prove_batch_eval(&b, &claims, &mut c1);
    let mut c2 = fresh_channel(21);
    let (p2, _) = prove_batch_eval(&b, &claims, &mut c2);
    assert_eq!(p1, p2);
}

#[test]
fn batch_shape_errors_are_rejected() {
    let mut rng = StdRng::seed_from_u64(6);
    let n = 3;
    let b = rand_vec(&mut rng, 1 << n);
    let point = rand_vec(&mut rng, n);
    let value = evaluate_slice(&b, &point);
    let claims = vec![EvalClaim { point, value }];
    let (proof, _) = prove_batch_eval(&b, &claims, &mut fresh_channel(2));
    assert_eq!(proof.byte_len(), 3 * 48 + 16);
    assert!(verify_batch_eval(&proof, &[], n, &mut fresh_channel(2)).is_none());
    assert!(verify_batch_eval(&proof, &claims, n + 1, &mut fresh_channel(2)).is_none());
    let mut short = proof.clone();
    short.rounds.pop();
    assert!(verify_batch_eval(&short, &claims, n, &mut fresh_channel(2)).is_none());
}

#[test]
fn active_mle_counts_match_schedule() {
    let a = build_active_mle();
    let mut ones = 0usize;
    for v in &a {
        if *v == Block128::one() {
            ones += 1;
        } else {
            assert_eq!(*v, Block128::zero());
        }
    }
    // 8 full rounds × 4 lanes + 58 partial rounds × 1 lane = 32 + 58 = 90.
    assert_eq!(ones, 8 * 4 + 58);
    assert_eq!(active_mle(), a);
}

#[test]
fn rc_mle_zero_on_inactive_cells() {
    let a = build_active_mle();
    let rc = build_rc_mle(&permutation());
    for i in 0..N_PERM_CELLS {
        if a[i] == Block128::zero() {
            assert_eq!(rc[i], Block128::zero());
        }
    }
    assert_eq!(rc_mle(&permutation()), rc);
    assert_eq!(rc[(5 << 2) | 0], permutation().round_constants[0][5]);
    assert_eq!(rc[(63 << 2) | 3], permutation().round_constants[3][63]);
}

#[test]
fn columns_follow_the_layers() {
    let p = permutation();
    let input = [Block128(7), Block128(8), Block128(9), Block128(10)];
    let witness = evaluate_permutation(&p, input);
    let mut out = input;
    p.permute_mut(&mut out);
    assert_eq!(witness.states.len(), 67);
    assert_eq!(witness.states[66], out);
    let state = pack_column(&witness);
    let mle = PermMle::from_witness(&p, input, &witness);
    assert_eq!(mle.state, state);
    assert_eq!(state[(66 << 2) | 2], out[2]);
    assert_eq!(state[67 << 2], Block128::zero());
    let cell = (10 << 2) | 0;
    let x = state[cell] + p.round_constants[0][10];
    assert_eq!(mle.sin[cell], x);
    assert_eq!(mle.sout[cell], x * x * x * x * x * x * x);
    assert_eq!(mle.sout[cell + 1], Block128::zero());
}

#[test]
fn permutation_chain_round_trip() {
    let p = permutation();
    let input = [Block128(1), Block128(2), Block128(3), Block128(4)];
    let witness = evaluate_permutation(&p, input);
    let mle = PermMle::from_witness(&p, input, &witness);
    let (proof, _r0, v0, claims) = prove_perm(&p, input, &mut fresh_channel(3));
    assert_eq!(proof.byte_len(), 8 * (9 * 64 + 32));
    let got = verify_perm(&p, &proof, &mut fresh_channel(3), |point| {
        evaluate_slice(&mle.sout, point)
    })
    .unwrap();
    assert_eq!(got, claims);
    for claim in &got {
        assert_eq!(claim.value, evaluate_slice(&mle.state, &claim.point));
    }
    let wrong = verify_perm(&p, &proof, &mut fresh_channel(3), |_| v0 + Block128::one());
    assert!(wrong.is_none());
    let mut bad = proof.clone();
    bad.x4_x2x2.b_final += Block128::one();
    assert!(verify_perm(&p, &bad, &mut fresh_channel(3), |_| v0).is_none());
}

#[test]
fn sequence_has_fixed_length_and_links_adjacent_states() {
    let witness = evaluate_sequence(&permutation(), &fixture());
    assert_eq!(witness.states.len(), N_PERMUTATIONS);
    for pair in witness.states.windows(2) {
        assert_eq!(pair[0].1, pair[1].0);
    }
    assert_eq!(witness.states.last().unwrap().1, witness.final_state);
}

#[test]
fn digest_is_deterministic_and_input_bound() {
    let p = permutation();
    let input = fixture();
    assert_eq!(sequence_digest(&p, &input), sequence_digest(&p, &input));

    let mut changed = input;
    changed.initial_state[0] += Block128::one();
    assert_ne!(sequence_digest(&p, &input), sequence_digest(&p, &changed));
}
