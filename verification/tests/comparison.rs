//! The three constructions on regions of unequal width.
use frost_gkr::bench_plan::{
    cube_size, largest_width, legacy_first, native_row_count, padded_row_count, row_count,
    same_shape, sample_order, variant_index, Operation, Rounds, SampleShape, Variant,
    PRODUCTION_WIDTHS,
};
use frost_gkr::bench_walks::{
    corrupt, first_walk_rejected, native_points, prepare_regions, prove_once, sample_shape,
    verify_once, Proofs, Rng,
};
use frost_gkr::{
    claims_from_outputs, output_layer_columns, Block128, Block256, FullMatrix,
    Poseidon2bPermutation, TowerField,
};

fn splitmix(state: &mut u64) -> u64 {
    *state = state.wrapping_add(0x9e37_79b9_7f4a_7c15);
    let mut value = *state;
    value = (value ^ (value >> 30)).wrapping_mul(0xbf58_476d_1ce4_e5b9);
    value = (value ^ (value >> 27)).wrapping_mul(0x94d0_49bb_1331_11eb);
    value ^ (value >> 31)
}

fn next_block(state: &mut u64) -> Block128 {
    let low = splitmix(state) as u128;
    Block128(low | ((splitmix(state) as u128) << 64))
}

/// Parameters drawn from a fixed stream; the matrices have small entries.
fn permutation() -> Poseidon2bPermutation {
    let mut s = 0x706f_7365_6964_6f6eu64;
    let mut round_constants = [[Block128(0); 66]; 4];
    for lane in round_constants.iter_mut() {
        for constant in lane.iter_mut() {
            *constant = next_block(&mut s);
        }
    }
    let mut byte = || Block128((splitmix(&mut s) & 0xff) as u128);
    let full = FullMatrix {
        m00: byte(),
        m01: byte(),
        m03: byte(),
        m10: byte(),
        m11: byte(),
        m21: byte(),
        m22: byte(),
        m23: byte(),
        m32: byte(),
        m33: byte(),
    };
    let partial_diagonal = std::array::from_fn(|_| byte());
    Poseidon2bPermutation {
        round_constants,
        full,
        partial_diagonal,
    }
}

const VARIANTS: [Variant; 3] = [Variant::Independent, Variant::Padded, Variant::Ragged];

#[test]
fn words_select_constructions() {
    for variant in VARIANTS {
        assert_eq!(Variant::parse(variant.argument()), Some(variant));
    }
    assert_eq!(Variant::parse("rugged"), None);
    assert_eq!(Variant::parse(""), None);
    assert_eq!(Variant::Ragged.name(), "one implicit ragged walk");
    assert_eq!(Variant::Padded.name(), "one physically max-padded walk");
    assert_eq!(Variant::Independent.name(), "independent native walks");
}

#[test]
fn order_of_samples_rotates() {
    let [independent, padded, ragged] = VARIANTS;
    assert_eq!(sample_order(0), [independent, padded, ragged]);
    assert_eq!(sample_order(1), [ragged, independent, padded]);
    assert_eq!(sample_order(2), [padded, ragged, independent]);
    assert_eq!(sample_order(3), sample_order(0));
    assert_eq!(sample_order(usize::MAX), sample_order(usize::MAX % 3));
    assert_eq!(VARIANTS.map(variant_index), [0, 1, 2]);
}

#[test]
fn row_counts_of_the_compared_regions() {
    assert_eq!(native_row_count(), 360_448);
    assert_eq!(padded_row_count(), 1_179_648);
    assert_eq!(largest_width(&PRODUCTION_WIDTHS), 17);
    assert_eq!(row_count(&[0, 3, 1]), 11);
    assert_eq!(row_count(&[]), 0);
    assert_eq!(cube_size(20), 1 << 20);
}

#[test]
fn steps_cover_warmups_and_samples() {
    let rounds = Rounds {
        warmups: 1,
        samples: 2,
    };
    let mut next = rounds.start();
    let mut seen = Vec::new();
    while let Some(progress) = next {
        let (step, after) = progress.step(rounds);
        seen.push((
            step.warmup,
            step.round,
            variant_index(step.variant),
            step.mutation_check,
            step.cooldown,
        ));
        next = after;
    }
    assert_eq!(
        seen,
        vec![
            (true, 0, 0, false, true),
            (true, 0, 1, false, true),
            (true, 0, 2, false, true),
            (false, 0, 0, true, true),
            (false, 0, 1, true, true),
            (false, 0, 2, true, true),
            (false, 1, 2, false, true),
            (false, 1, 0, false, true),
            (false, 1, 1, false, false),
        ]
    );
    let none = Rounds {
        warmups: 0,
        samples: 0,
    };
    assert_eq!(none.start(), None);
}

#[test]
fn shapes_of_samples_are_compared() {
    let shape = SampleShape {
        physical_rows: 4,
        layer_bytes: 256,
        proof_bytes: 9,
    };
    let other = SampleShape {
        proof_bytes: 10,
        ..shape
    };
    assert!(same_shape(&[]));
    assert!(same_shape(&[shape, shape]));
    assert!(!same_shape(&[shape, other]));
}

#[test]
fn generator_is_splitmix() {
    // Reference outputs of SplitMix64 from state zero.
    let mut rng = Rng(0);
    assert_eq!(rng.next_u64(), 0xe220_a839_7b1d_cdaf);
    assert_eq!(rng.next_u64(), 0x6e78_9e6a_a1b9_65f4);
    let mut rng = Rng(0);
    assert_eq!(
        rng.base(),
        Block128(0x6e78_9e6a_a1b9_65f4_e220_a839_7b1d_cdaf)
    );
    let mut rng = Rng(7);
    let mut again = Rng(7);
    let lo = again.base();
    assert_eq!(rng.wide(), Block256::new(lo, again.base()));
}

#[test]
fn constructions_prove_the_same_claims() {
    let p = permutation();
    let native = [1, 2];
    let mut claimed = Vec::new();
    let mut sizes = Vec::new();
    for variant in VARIANTS {
        let (inputs, groups, widths) = prepare_regions(&p, &native, variant);
        let outputs: Vec<_> = inputs.iter().map(|c| output_layer_columns(&p, c)).collect();
        let points: Vec<_> = groups.iter().map(|g| g.point.clone()).collect();
        assert_eq!(claims_from_outputs(&outputs, &points), groups);
        claimed.push(groups.iter().map(|g| g.values).collect::<Vec<_>>());

        let proofs = prove_once(&p, variant, &inputs, &groups);
        assert!(verify_once(&p, variant, &inputs, &groups, &widths, &proofs, true));
        sizes.push(proofs.byte_len());
        let mut corrupted = proofs.clone();
        corrupt(&mut corrupted);
        assert!(first_walk_rejected(&p, &groups, &widths, &corrupted));
        assert!(!verify_once(&p, variant, &inputs, &groups, &widths, &corrupted, false));

        // A bundle of the other kind is refused.
        let other = match proofs {
            Proofs::Independent(mut list) => Proofs::Aggregate(list.remove(0)),
            Proofs::Aggregate(walk) => Proofs::Independent(vec![walk]),
        };
        assert!(!verify_once(&p, variant, &inputs, &groups, &widths, &other, false));
    }
    assert_eq!(claimed[0], claimed[1]);
    assert_eq!(claimed[0], claimed[2]);
    let walk = |width: usize, regions: usize| 66 * 32 * (8 * width + 4 * regions);
    assert_eq!(sizes, vec![walk(1, 1) + walk(2, 1), walk(2, 2), walk(2, 2)]);
}

#[test]
fn independent_proofs_are_paired_with_regions_in_order() {
    let p = permutation();
    let variant = Variant::Independent;
    let (inputs, groups, widths) = prepare_regions(&p, &[1, 2], variant);
    let holds = |list: Vec<_>| {
        let proofs = Proofs::Independent(list);
        verify_once(&p, variant, &inputs, &groups, &widths, &proofs, true)
    };
    let Proofs::Independent(list) = prove_once(&p, variant, &inputs, &groups) else {
        panic!("independent walks expected");
    };
    // What is left over on either side is not looked at.
    assert!(holds(Vec::new()));
    assert!(holds(vec![list[0].clone()]));
    assert!(holds(vec![list[0].clone(), list[1].clone(), list[0].clone()]));
    assert!(!holds(vec![list[1].clone()]));
    assert!(!holds(vec![list[0].clone(), list[0].clone()]));
}

#[test]
fn sample_sizes_follow_inputs_and_proofs() {
    let p = permutation();
    let expected = [(6, 384), (8, 512), (6, 384)];
    for (variant, (rows, bytes)) in VARIANTS.into_iter().zip(expected) {
        let (inputs, groups, _) = prepare_regions(&p, &[1, 2], variant);
        let proofs = prove_once(&p, variant, &inputs, &groups);
        let shape = sample_shape(&inputs, &proofs);
        assert_eq!(shape.physical_rows, rows);
        assert_eq!(shape.layer_bytes, bytes);
        assert_eq!(shape.proof_bytes, proofs.byte_len());
    }
    let shape = sample_shape(&[], &Proofs::Independent(Vec::new()));
    assert_eq!(
        shape,
        SampleShape { physical_rows: 0, layer_bytes: 0, proof_bytes: 0 }
    );
}

#[test]
fn pairs_alternate() {
    let order: Vec<bool> = (0..4).map(legacy_first).collect();
    assert_eq!(order, vec![true, false, true, false]);
}

#[test]
fn paired_timings_restart_after_the_warmups() {
    let rounds = Rounds { warmups: 3, samples: 2 };
    let mut seen = Vec::new();
    let mut next = rounds.start_pairs();
    while let Some(progress) = next {
        let (step, after) = progress.step(rounds);
        seen.push((step.warmup, step.pair, step.operation));
        next = after;
    }
    let (l, f) = (Operation::Legacy, Operation::Frost);
    assert_eq!(
        seen,
        vec![
            (true, 0, l),
            (true, 0, f),
            (true, 1, f),
            (true, 1, l),
            (true, 2, l),
            (true, 2, f),
            (false, 0, l),
            (false, 0, f),
            (false, 1, f),
            (false, 1, l),
        ]
    );
    assert!(Rounds { warmups: 0, samples: 0 }.start_pairs().is_none());
    let only_warmups = Rounds { warmups: 1, samples: 0 };
    let (_, second) = only_warmups.start_pairs().unwrap().step(only_warmups);
    assert!(second.unwrap().step(only_warmups).1.is_none());
}

#[test]
fn honest_walks_are_not_rejected_and_false_terminals_are() {
    let p = permutation();
    let (inputs, groups, widths) = prepare_regions(&p, &[1], Variant::Ragged);
    let proofs = prove_once(&p, Variant::Ragged, &inputs, &groups);
    assert!(!first_walk_rejected(&p, &groups, &widths, &proofs));
    // The walk itself does not read the inputs: only the discharge does.
    let mut others = inputs.clone();
    others[0][2][1] += Block128::one();
    let holds = |discharge: bool| {
        verify_once(&p, Variant::Ragged, &others, &groups, &widths, &proofs, discharge)
    };
    assert!(holds(false));
    assert!(!holds(true));
}

#[test]
fn padding_appends_zeros() {
    let p = permutation();
    let native = [1, 2];
    let (plain, _, _) = prepare_regions(&p, &native, Variant::Ragged);
    let (padded, groups, widths) = prepare_regions(&p, &native, Variant::Padded);
    assert_eq!(widths, vec![2, 2]);
    for lane in 0..4 {
        assert_eq!(padded[0][lane][..2], plain[0][lane][..]);
        assert_eq!(padded[0][lane][2..], [Block128::zero(); 2]);
        assert_eq!(padded[1][lane], plain[1][lane]);
    }
    let points = native_points(&native);
    assert_eq!(groups[0].point, vec![points[0][0], Block256::zero()]);
    assert_eq!(groups[1].point, points[1]);
}
