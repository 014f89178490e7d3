//! FROST-GKR building blocks over binary tower fields.
//!
//! The crate proves statements about sequences of Poseidon2b permutations over GF(2^128) by
//! sumcheck arguments, and verifies those proofs.  Every function carries its contract, and the laws
//! that tie the functions together (field laws, interpolation, completeness of each protocol) are
//! proof functions next to the definitions they speak of.
//!
//! * Fields: [`tower_field`], [`block8`] to [`block256`], with [`quad`] for quadratic extensions and
//!   [`algebra`] for consequences of the field laws.
//! * Polynomials: [`poly`], [`round_polynomial`], [`mle`], [`fold`], [`mod@eq`], [`evaluate`].
//! * Transcript: [`transcript`], [`domain`], [`permutation`], [`sponge`], [`channel`], [`wide`].
//! * Protocols: [`sumcheck`], [`product_sumcheck`], [`batch_eval`], [`perm_sumcheck`], [`legacy`],
//!   [`frost`], [`ragged`].
//! * Soundness: [`soundness`] for the sumcheck arguments, [`walk_soundness`] for the ragged walk.
//! * Comparison of the ragged constructions: [`bench_plan`], [`bench_walks`].
pub mod tower_field;
pub mod algebra;
pub mod quad;
pub mod bit;
pub mod block8;
pub mod block16;
pub mod block32;
pub mod block64;
pub mod block128;
pub mod block256;
pub mod batch_eval;
pub mod bench_plan;
pub mod bench_walks;
pub mod channel;
pub mod domain;
pub mod eq;
pub mod evaluate;
pub mod fold;
pub mod frost;
pub mod layer_states;
pub mod layers;
pub mod le_bytes;
pub mod legacy;
pub mod mle;
pub mod mle_layout;
pub mod packed;
pub mod parallel;
pub mod perm_sumcheck;
pub mod permutation;
pub mod poly;
pub mod product_sumcheck;
pub mod ragged;
pub mod ragged_model;
pub mod ragged_walk;
pub mod round_polynomial;
pub mod sequence;
pub mod serialization;
pub mod soundness;
pub mod sponge;
pub mod sumcheck;
pub mod sums;
pub mod tables;
pub mod transcript;
pub mod walk_soundness;
pub mod wide;

pub use crate::batch_eval::{
    prove_batch_eval, verify_batch_eval, BatchEvalProof, BatchEvalReduction, BatchEvalRound,
    EvalClaim,
};
pub use crate::bit::Bit;
pub use crate::block128::Block128;
pub use crate::block16::Block16;
pub use crate::block256::Block256;
pub use crate::block32::Block32;
pub use crate::block64::Block64;
pub use crate::block8::Block8;
pub use crate::channel::Poseidon2bChannel;
pub use crate::domain::{capacity_iv, tag_frost_gkr, DomainTag};
pub use crate::frost::{
    build_unified_from_sequence, discharge_frost_native, prove_frost, verify_frost, FrostCoreProof,
    FrostProof, FrostReductions, ShiftProof, ShiftReduction, UnifiedMle, UnifiedProof,
    UnifiedReduction, N_UNIFIED_CELLS, N_UNIFIED_VARS,
};
pub use crate::layer_states::{initial_layer_columns, output_layer_columns};
pub use crate::layers::{evaluate_permutation, PermLayerWitness};
pub use crate::legacy::{
    build_boundary_mle, discharge_legacy_native, prove_legacy, verify_legacy, LegacyProof,
    N_BOUNDARY_CELLS, N_BOUNDARY_VARS,
};
pub use crate::mle_layout::{
    build_active_mle, build_rc_mle, pack_column, PermMle, N_PERM_CELLS, N_PERM_VARS,
};
pub use crate::perm_sumcheck::{
    active_mle, prove_perm, prove_perm_with_mle, rc_mle, verify_perm, PermProof, PermStateClaim,
    N_STATE_CLAIMS_PER_SLOT,
};
pub use crate::permutation::{round_kind, sbox_x7, FullMatrix, Poseidon2bPermutation, RoundKind};
pub use crate::product_sumcheck::{
    compute_product_claim, prove_product, prove_square, verify_product, ProductProof, RoundEvals,
};
pub use crate::ragged::{
    claims_from_outputs, discharge_terminals, prove_ragged, verify_ragged, LaneClaim, RaggedError,
    RaggedLayerProof, RaggedProof,
};
pub use crate::round_polynomial::RoundPolynomial;
pub use crate::sequence::{
    evaluate_sequence, sequence_digest, SequenceInput, SequenceWitness, N_PERMUTATIONS,
};
pub use crate::serialization::{CanonicalDeserialize, CanonicalSerialize, SerializationError};
pub use crate::sponge::Poseidon2bSponge;
pub use crate::tower_field::TowerField;
pub use crate::transcript::FiatShamir;
pub use crate::wide::{evaluate_column, WideChannel};
