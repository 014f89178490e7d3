//! Field arithmetic, multilinear evaluation and interpolation.
use frost_gkr::evaluate::{evaluate_inplace_scalars, evaluate_packed, evaluate_slice};
use frost_gkr::{
    Bit, Block128, Block16, Block256, Block32, Block64, Block8, CanonicalDeserialize,
    CanonicalSerialize, RoundPolynomial, SerializationError, TowerField,
};
use rand::Rng;

type F = Block128;

#[test]
fn test_evaluate_at_hypercube_vertex() {
    let n = 4;
    let mut rng = rand::thread_rng();
    let evals: Vec<F> = (0..(1 << n)).map(|_| F::from(rng.gen::<u128>())).collect();

    for i in 0..(1 << n) {
        let point: Vec<F> = (0..n)
            .map(|b| if (i >> b) & 1 == 1 { F::one() } else { F::zero() })
            .collect();
        let result = evaluate_slice(&evals, &point);
        assert_eq!(result, evals[i], "mismatch at vertex {i}");
    }
}

#[test]
fn test_evaluate_linear() {
    let a = F::from(5u8);
    let b = F::from(2u8);
    let c = F::from(3u8);
    let d = F::from(7u8);

    let evals = vec![a, a + b, a + c, a + b + c + d];

    assert_eq!(evaluate_slice(&evals, &[F::zero(), F::zero()]), a);
    assert_eq!(evaluate_slice(&evals, &[F::one(), F::zero()]), a + b);
    assert_eq!(evaluate_slice(&evals, &[F::zero(), F::one()]), a + c);
    assert_eq!(evaluate_slice(&evals, &[F::one(), F::one()]), a + b + c + d);
}

#[test]
fn interpolation_round_trip_degree_nine() {
    let evaluations: Vec<_> = (0u8..=9).map(|x| Block128::from(x as u128 + 7)).collect();
    let polynomial = RoundPolynomial::from_evals(&evaluations);
    assert_eq!(polynomial.degree(), 9);
    for (x, expected) in evaluations.into_iter().enumerate() {
        assert_eq!(polynomial.evaluate(Block128::from(x as u128)), expected);
    }
}

#[test]
fn embedded_base_field_is_a_homomorphism() {
    let mut rng = rand::thread_rng();
    for _ in 0..100 {
        let left = Block128(rng.gen());
        let right = Block128(rng.gen());
        assert_eq!(
            Block256::from(left + right),
            Block256::from(left) + Block256::from(right)
        );
        assert_eq!(
            Block256::from(left * right),
            Block256::from(left) * Block256::from(right)
        );
    }
}

#[test]
fn inversion_and_square_are_consistent() {
    let mut rng = rand::thread_rng();
    for _ in 0..100 {
        let value = Block256::new(Block128(rng.gen()), Block128(rng.gen()));
        assert_eq!(value.square(), value * value);
        if value == Block256::zero() {
            assert_eq!(value.invert(), Block256::zero());
        } else {
            assert_eq!(value * value.invert(), Block256::one());
        }
    }
}

#[test]
fn canonical_round_trip() {
    let value = Block256::new(
        Block128(0x0123_4567_89ab_cdef_fedc_ba98_7654_3210),
        Block128(0xf0e1_d2c3_b4a5_9687_7869_5a4b_3c2d_1e0f),
    );
    let bytes = value.to_bytes();
    assert_eq!(
        <Block256 as CanonicalDeserialize>::deserialize(&bytes).unwrap(),
        value
    );
}

#[test]
fn challenge_support_excludes_the_base_subfield() {
    let mut rng = rand::thread_rng();
    for _ in 0..1_000 {
        let challenge = Block256::from_challenge_lanes(Block128(rng.gen()), Block128(rng.gen()));
        assert_ne!(challenge.hi, Block128::zero());
    }
}

#[test]
fn challenges_coincide_in_pairs_and_are_affine() {
    let mut rng = rand::thread_rng();
    for _ in 0..100 {
        let (lo, hi): (u128, u128) = (rng.gen(), rng.gen());
        let of = |lo: u128, hi: u128| Block256::from_challenge_lanes(Block128(lo), Block128(hi));
        assert_eq!(of(lo, hi), of(lo, hi ^ 1));
        assert_ne!(of(lo, hi), of(lo ^ 1, hi));
        assert_ne!(of(lo, hi), of(lo, hi ^ 2));
        let (lo2, hi2, lo3, hi3): (u128, u128, u128, u128) =
            (rng.gen(), rng.gen(), rng.gen(), rng.gen());
        assert_eq!(
            of(lo, hi) + of(lo2, hi2) + of(lo3, hi3),
            of(lo ^ lo2 ^ lo3, hi ^ hi2 ^ hi3)
        );
    }
}

#[test]
fn encoding_is_little_endian_and_checks_lengths() {
    let value = Block256::new(
        Block128(0x0f0e_0d0c_0b0a_0908_0706_0504_0302_0100),
        Block128(0x1f1e_1d1c_1b1a_1918_1716_1514_1312_1110),
    );
    let expected: Vec<u8> = (0u8..32).collect();
    assert_eq!(value.serialized_size(), 32);
    assert_eq!(value.to_bytes(), expected);

    let mut long = [0xffu8; 34];
    assert_eq!(value.serialize(&mut long), Ok(()));
    assert_eq!(&long[..32], expected.as_slice());
    assert_eq!(&long[32..], &[0xff, 0xff]);

    let mut short = [7u8; 31];
    assert_eq!(value.serialize(&mut short), Err(SerializationError));
    assert_eq!(short, [7u8; 31]);
    assert_eq!(
        <Block256 as CanonicalDeserialize>::deserialize(&expected[..31]),
        Err(SerializationError)
    );

    let mut array = [0u8; 32];
    array.copy_from_slice(&expected);
    assert_eq!(Block256::from_uniform_bytes(&array), value);
}

#[test]
fn base_arithmetic_has_known_values() {
    // x^7 * x = x^8 = x^4 + x^3 + x + 1 in the bottom field.
    assert_eq!(Block8(0x80).fmul(Block8(0x02)), Block8(0x1b));
    assert_eq!(Block8(0x53).fmul(Block8(0xca)), Block8(0x01));
    assert_eq!(Block8(0x53).invert(), Block8(0xca));
    assert_eq!(Block8(0).invert(), Block8(0));
    // X^2 = X + tau in every extension.
    assert_eq!(Block16(0x0100).fmul(Block16(0x0100)), Block16(0x0120));
    assert_eq!(Block32(0x1_0000).fmul(Block32(0x1_0000)), Block32(0x1_2000));
    assert_eq!(
        Block64(0x1_0000_0000).fmul(Block64(0x1_0000_0000)),
        Block64(0x1_2000_0000)
    );
    assert_eq!(
        Block128(1 << 64) * Block128(1 << 64),
        Block128((1 << 64) + 0x2000_0000_0000_0000)
    );
    let x = Block256::new(Block128::zero(), Block128::one());
    assert_eq!(
        x * x,
        Block256::new(Block128::extension_tau(), Block128::one())
    );
}

#[test]
fn field_laws_hold_on_samples() {
    let mut rng = rand::thread_rng();
    for _ in 0..50 {
        let a = Block128(rng.gen());
        let b = Block128(rng.gen());
        let c = Block128(rng.gen());
        assert_eq!(a * b, b * a);
        assert_eq!((a * b) * c, a * (b * c));
        assert_eq!(a * (b + c), a * b + a * c);
        assert_eq!(a + a, Block128::zero());
        assert_eq!(a - b, a + b);
        assert_eq!(a.square(), a * a);
        assert_eq!(a * Block128::one(), a);
        if a != Block128::zero() {
            assert_eq!(a * a.invert(), Block128::one());
        }
        let mut d = a;
        d += b;
        d -= c;
        d *= b;
        assert_eq!(d, (a + b + c) * b);
    }
    assert_eq!(Block128::zero().invert(), Block128::zero());
}

#[test]
fn conversions_extend_with_zeros() {
    assert_eq!(Block128::from(0xabu8), Block128(0xab));
    assert_eq!(Block128::from(0xdead_beefu32), Block128(0xdead_beef));
    assert_eq!(Block128::from(u64::MAX), Block128(u64::MAX as u128));
    assert_eq!(Block128::from(Bit(true)), Block128::one());
    assert_eq!(Block128::from(Bit(false)), Block128::zero());
    assert_eq!(Block128::from(Block8(3)), Block128(3));
    assert_eq!(Block128::from(Block16(300)), Block128(300));
    assert_eq!(Block128::from(Block32(70_000)), Block128(70_000));
    assert_eq!(Block128::from(Block64(1 << 40)), Block128(1 << 40));
    assert_eq!(Block256::from(9u8), Block256::from_base(Block128(9)));
    assert_eq!(Block256::from(9u32), Block256::from(9u64));
    assert_eq!(Block256::from(9u128), Block256::from(Block8(9)));
    assert_eq!(Block256::from(Block16(9)), Block256::from(Block32(9)));
    assert_eq!(Block256::from(Block64(1)), Block256::from(Bit(true)));
    assert!(Block256::from(0u8).is_zero());
    assert!(!Block256::from(1u8).is_zero());
    assert_eq!(Block128::BITS, 128);
    assert_eq!(Block256::BITS, 256);
}

#[test]
fn scaling_matches_embedded_multiplication() {
    let a = Block256::new(Block128(0x1234_5678_9abc), Block128(0xfedc_ba98));
    let s = Block128(0x0bad_cafe_0bad_cafe);
    assert_eq!(a.scale_base(s), a * Block256::from_base(s));
    assert_eq!(a.scale_base(Block128::one()), a);
    let mut b = a;
    b += a;
    assert!(b.is_zero());
    b -= a;
    assert_eq!(b, a);
    b *= a.invert();
    assert_eq!(b, Block256::one());
    assert_eq!(
        Block256::extension_tau(),
        Block256::from_base(Block128::extension_tau())
    );
}

#[test]
fn polynomial_edges() {
    let empty: RoundPolynomial<F> = RoundPolynomial::from_coeffs(vec![]);
    assert_eq!(empty.degree(), 0);
    assert_eq!(empty.evaluate(F::from(5u8)), F::zero());
    let constant = RoundPolynomial::from_evals(&[F::from(9u8)]);
    assert_eq!(constant.coeffs, vec![F::from(9u8)]);
    // 1 + 2X + 3X^2 is recovered from its values.
    let coeffs = vec![F::from(1u8), F::from(2u8), F::from(3u8)];
    let p = RoundPolynomial::from_coeffs(coeffs.clone());
    let evals: Vec<F> = (0u8..3).map(|k| p.evaluate(F::from(k))).collect();
    assert_eq!(RoundPolynomial::from_evals(&evals).coeffs, coeffs);
    assert_eq!(p.evaluate(F::one()), F::zero());
}

#[test]
fn evaluation_paths_agree() {
    let mut rng = rand::thread_rng();
    for n in 0..6usize {
        let evals: Vec<F> = (0..(1usize << n)).map(|_| F::from(rng.gen::<u128>())).collect();
        let point: Vec<F> = (0..n).map(|_| F::from(rng.gen::<u128>())).collect();
        let expected = evaluate_slice(&evals, &point);
        assert_eq!(evaluate_inplace_scalars(evals.clone(), &point), expected);
        assert_eq!(evaluate_packed(&evals, &point), expected);
    }
    // Missing low coordinates count as zero on the packed path.
    let evals: Vec<F> = (0..16u8).map(F::from).collect();
    let r = F::from(0x77u8);
    let full = [F::zero(), F::zero(), F::zero(), r];
    assert_eq!(evaluate_packed(&evals, &[r]), evaluate_slice(&evals, &full));
}
