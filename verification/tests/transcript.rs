//! Permutation, sponge, channel and domain separation.
use frost_gkr::{
    capacity_iv, round_kind, sbox_x7, tag_frost_gkr, Block128, DomainTag, FiatShamir, FullMatrix,
    Poseidon2bChannel, Poseidon2bPermutation, Poseidon2bSponge, RoundKind, TowerField,
};

fn splitmix(state: &mut u64) -> u64 {
    *state = state.wrapping_add(0x9e37_79b9_7f4a_7c15);
    let mut value = *state;
    value = (value ^ (value >> 30)).wrapping_mul(0xbf58_476d_1ce4_e5b9);
    value = (value ^ (value >> 27)).wrapping_mul(0x94d0_49bb_1331_11eb);
    value ^ (value >> 31)
}

fn next_block(state: &mut u64) -> Block128 {
    let low = splitmix(state) as u128;
    Block128(low | ((splitmix(state) as u128) << 64))
}

/// Parameters drawn from a fixed stream.
fn permutation() -> Poseidon2bPermutation {
    let mut s = 0x706f_7365_6964_6f6eu64;
    let mut round_constants = [[Block128(0); 66]; 4];
    for lane in round_constants.iter_mut() {
        for constant in lane.iter_mut() {
            *constant = next_block(&mut s);
        }
    }
    let full = FullMatrix {
        m00: next_block(&mut s),
        m01: next_block(&mut s),
        m03: next_block(&mut s),
        m10: next_block(&mut s),
        m11: next_block(&mut s),
        m21: next_block(&mut s),
        m22: next_block(&mut s),
        m23: next_block(&mut s),
        m32: next_block(&mut s),
        m33: next_block(&mut s),
    };
    let partial_diagonal = std::array::from_fn(|_| next_block(&mut s));
    Poseidon2bPermutation {
        round_constants,
        full,
        partial_diagonal,
    }
}

#[test]
fn channel_is_deterministic() {
    let mut c1 = Poseidon2bChannel::new(permutation());
    c1.absorb(Block128::from(42u128));
    let a1 = c1.squeeze();
    let b1 = c1.squeeze();

    let mut c2 = Poseidon2bChannel::new(permutation());
    c2.absorb(Block128::from(42u128));
    let a2 = c2.squeeze();
    let b2 = c2.squeeze();

    assert_eq!(a1, a2);
    assert_eq!(b1, b2);
}

#[test]
fn distinct_inputs_distinct_challenges() {
    let mut c1 = Poseidon2bChannel::new(permutation());
    c1.absorb(Block128::from(1u128));
    let a = c1.squeeze();

    let mut c2 = Poseidon2bChannel::new(permutation());
    c2.absorb(Block128::from(2u128));
    let b = c2.squeeze();

    assert_ne!(a, b);
}

#[test]
fn channel_iv_diverges_from_bare_sponge() {
    // Same absorb, different IV => different squeezes.
    let mut c = Poseidon2bChannel::new(permutation());
    c.absorb(Block128::from(1u128));
    let iv_challenge = c.squeeze();

    let mut bare = Poseidon2bSponge::new(permutation());
    bare.absorb(Block128::from(1u128));
    bare.flush_to_squeeze();
    let [bare_a, _] = bare.squeeze();

    assert_ne!(iv_challenge, bare_a);
}

#[test]
fn transcript_iv_is_nonzero_and_split() {
    let [high, low] = capacity_iv(tag_frost_gkr());
    assert_ne!(high, Block128::zero());
    assert_ne!(low, Block128::zero());
    assert_ne!(high, low);
}

#[test]
fn labels_are_big_endian() {
    assert_eq!(DomainTag::new(b"FROSTGKR"), tag_frost_gkr());
    assert_eq!(tag_frost_gkr().as_u64(), 0x4652_4f53_5447_4b52);
    assert_eq!(DomainTag::new(b"\0\0\0\0\0\0\x01\x02").as_u64(), 0x0102);
    assert_eq!(
        capacity_iv(tag_frost_gkr()),
        [
            Block128(0x4652_4f53_5447_4b52_0000_0000_0000_0000),
            Block128(0x4652_4f53_5447_4b52)
        ]
    );
}

#[test]
fn updates_compose_over_any_split() {
    let data: Vec<u8> = (0..100u8).collect();
    let mut whole = Poseidon2bSponge::new(permutation());
    whole.update(&data);
    whole.flush_to_squeeze();
    let expected = whole.squeeze();
    for split in [0usize, 1, 31, 32, 33, 64, 99, 100] {
        let mut parts = Poseidon2bSponge::new(permutation());
        parts.update(&data[..split]);
        parts.update(&data[split..]);
        parts.flush_to_squeeze();
        assert_eq!(parts.squeeze(), expected);
    }
}

#[test]
fn full_blocks_need_no_padding_and_flush_is_idempotent() {
    let p = permutation();
    let mut sponge = Poseidon2bSponge::with_iv(p, [Block128(5), Block128(6)]);
    sponge.absorb(Block128(1));
    sponge.absorb(Block128(2));
    let mut copy = sponge.clone();
    sponge.flush_to_squeeze();
    let mut state = [Block128(1), Block128(2), Block128(5), Block128(6)];
    p.permute_mut(&mut state);
    assert_eq!(sponge.squeeze(), [state[0], state[1]]);
    copy.flush_to_squeeze();
    copy.flush_to_squeeze();
    assert_eq!(copy.squeeze(), [state[0], state[1]]);
}

#[test]
fn absorbing_nothing_changes_nothing() {
    let mut sponge = Poseidon2bSponge::new(permutation());
    sponge.update(&[7; 5]);
    let mut copy = sponge.clone();
    copy.update(&[]);
    sponge.flush_to_squeeze();
    copy.flush_to_squeeze();
    assert_eq!(copy.squeeze(), sponge.squeeze());
}

#[test]
fn partial_blocks_are_padded_at_both_ends() {
    let p = permutation();
    // Sixteen bytes: the second word is the padding 0x80 .. 0x01.
    let mut sponge = Poseidon2bSponge::new(p);
    sponge.absorb(Block128(9));
    sponge.flush_to_squeeze();
    let pad = 0x0100_0000_0000_0000_0000_0000_0000_0080u128;
    let mut state = [Block128(9), Block128(pad), Block128(0), Block128(0)];
    p.permute_mut(&mut state);
    assert_eq!(sponge.squeeze(), [state[0], state[1]]);

    // A single missing byte carries both marks.
    let mut sponge = Poseidon2bSponge::new(p);
    sponge.update(&[0u8; 31]);
    sponge.flush_to_squeeze();
    let mut state = [Block128(0), Block128(0x81 << 120), Block128(0), Block128(0)];
    p.permute_mut(&mut state);
    assert_eq!(sponge.squeeze(), [state[0], state[1]]);
}

#[test]
fn challenges_come_in_pairs_and_absorbing_drops_the_second() {
    let p = permutation();
    let mut channel = Poseidon2bChannel::new(p);
    let mut sponge = Poseidon2bSponge::with_iv(p, capacity_iv(tag_frost_gkr()));
    let [a, b] = sponge.squeeze();
    assert_eq!(channel.squeeze(), a);
    assert_eq!(channel.squeeze(), b);
    let [c, _] = sponge.squeeze();
    assert_eq!(channel.squeeze(), c);
    channel.absorb(Block128(3));
    sponge.absorb(Block128(3));
    sponge.flush_to_squeeze();
    let [d, _] = sponge.squeeze();
    assert_eq!(channel.squeeze(), d);
}

fn dense(matrix: &[[Block128; 4]; 4], input: [Block128; 4]) -> [Block128; 4] {
    std::array::from_fn(|row| {
        (0..4).fold(Block128::zero(), |sum, column| {
            sum + matrix[row][column] * input[column]
        })
    })
}

#[test]
fn specialized_flat_mds_matches_dense_matrices() {
    let p = permutation();
    let mut s = 0x6d64_735f_7061_6972u64;
    for _ in 0..1_000 {
        let input: [Block128; 4] = std::array::from_fn(|_| next_block(&mut s));
        assert_eq!(p.apply_full_mds(input), dense(&p.full_matrix(), input));
        assert_eq!(p.apply_partial_mds(input), dense(&p.partial_matrix(), input));
    }
}

#[test]
fn permutation_is_initial_layer_and_66_rounds() {
    let p = permutation();
    let input = [Block128(1), Block128(2), Block128(3), Block128(4)];
    let mut expected = dense(&p.full_matrix(), input);
    for r in 0..66 {
        let full = r < 4 || r >= 62;
        assert_eq!(round_kind(r), if full { RoundKind::Full } else { RoundKind::Partial });
        for lane in 0..4 {
            if full || lane == 0 {
                expected[lane] = sbox_x7(expected[lane] + p.round_constants[lane][r]);
            }
        }
        let matrix = if full { p.full_matrix() } else { p.partial_matrix() };
        expected = dense(&matrix, expected);
    }
    let mut state = input;
    p.permute_mut(&mut state);
    assert_eq!(state, expected);
    let x = Block128(0x1357_9bdf);
    assert_eq!(sbox_x7(x), x * x * x * x * x * x * x);
}
