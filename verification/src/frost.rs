//! FROST-GKR orchestration for the fixed 59-permutation sequence.
//!
//! The main degree-nine sumcheck proves the unified Poseidon2b relation.  The degree-two shift
//! sumcheck reduces shifted-table claims to the three original witness columns.  Three
//! batch-evaluation arguments then expose one terminal claim for each column.
//!
//! The arithmetization is a parameter: the caller supplies the function that lays the sequence out
//! as three columns, and the provers and verifiers of the two constraint sumchecks.  The statement,
//! the order of the phases on the transcript, and everything that follows the two sumchecks is fixed
//! here.
use crate::algebra;
use crate::batch_eval;
use crate::batch_eval::{
    prove_batch_eval, verify_batch_eval, BatchEvalProof, BatchEvalProofView, BatchEvalReduction,
    ClaimView, EvalClaim,
};
use crate::block128::Block128;
use crate::evaluate::evaluate_slice;
use crate::legacy::absorb_digest;
use crate::mle;
use crate::permutation::Poseidon2bPermutation;
use crate::sequence;
use crate::sequence::{evaluate_sequence, sequence_digest, SequenceInput, N_PERMUTATIONS};
use crate::soundness;
use crate::tables::copied;
use crate::tower_field::TowerField;
use crate::transcript;
use crate::transcript::FiatShamir;
use vstd::prelude::*;

verus! {

/// Variables of the unified hypercube of slots, rounds and lanes.
pub const N_UNIFIED_VARS: usize = 15;

/// Cells of the unified hypercube.
pub const N_UNIFIED_CELLS: usize = 32768;

/// The three witness columns of the unified hypercube.
#[derive(Debug, Clone, PartialEq, Eq)]
pub struct UnifiedMle {
    /// State before each round.
    pub state: Vec<Block128>,
    /// Input of the nonlinear layer.
    pub s_in: Vec<Block128>,
    /// Output of the nonlinear layer.
    pub s_out: Vec<Block128>,
}

/// The contents of the three columns.
pub struct UnifiedColumns {
    /// State before each round.
    pub state: Seq<Block128>,
    /// Input of the nonlinear layer.
    pub s_in: Seq<Block128>,
    /// Output of the nonlinear layer.
    pub s_out: Seq<Block128>,
}

impl View for UnifiedMle {
    type V = UnifiedColumns;

    open spec fn view(&self) -> UnifiedColumns {
        UnifiedColumns { state: self.state@, s_in: self.s_in@, s_out: self.s_out@ }
    }
}

impl UnifiedColumns {
    /// Whether each column has one entry per cell of the hypercube.
    pub open spec fn well_formed(self) -> bool {
        &&& self.state.len() == mle::cube(15)
        &&& self.s_in.len() == mle::cube(15)
        &&& self.s_out.len() == mle::cube(15)
    }
}

/// Proof of the main sumcheck: ten evaluations per round, and the twelve values on which the
/// relation is evaluated at the end.
#[derive(Debug, Clone, PartialEq, Eq)]
pub struct UnifiedProof {
    pub round_polys: Vec<[Block128; 10]>,
    /// The state column at the terminal point.
    pub state_at_r: Block128,
    /// The other terminal values of the relation.
    pub shifted_at_r: [Block128; 11],
}

/// Proof of the shift sumcheck: three evaluations per round, and the three columns at the terminal
/// point.
#[derive(Debug, Clone, PartialEq, Eq)]
pub struct ShiftProof {
    pub round_polys: Vec<[Block128; 3]>,
    pub state_at_r2: Block128,
    pub s_in_at_r2: Block128,
    pub s_out_at_r2: Block128,
}

/// The two constraint sumchecks.
#[derive(Debug, Clone, PartialEq, Eq)]
pub struct FrostCoreProof {
    pub main: UnifiedProof,
    pub shift: ShiftProof,
}

/// What a verified main sumcheck leaves to be shown.
#[derive(Debug, Clone, PartialEq, Eq)]
pub struct UnifiedReduction {
    /// The terminal point.
    pub r_prime: Vec<Block128>,
    /// The claimed state column at that point.
    pub state_at_r: Block128,
    /// The other claimed values at that point.
    pub shifted_at_r: [Block128; 11],
}

/// What a verified shift sumcheck leaves to be shown.
#[derive(Debug, Clone, PartialEq, Eq)]
pub struct ShiftReduction {
    /// The terminal point.
    pub r_double_prime: Vec<Block128>,
    pub state_at_r2: Block128,
    pub s_in_at_r2: Block128,
    pub s_out_at_r2: Block128,
}

/// The claims on the columns that the two constraint sumchecks end with.
pub struct CoreClaims {
    /// Terminal point of the main sumcheck.
    pub r_prime: Seq<Block128>,
    /// State column at `r_prime`.
    pub state_at_r: Block128,
    /// Terminal point of the shift sumcheck.
    pub r_double_prime: Seq<Block128>,
    /// State column at `r_double_prime`.
    pub state_at_r2: Block128,
    /// Column of nonlinear inputs at `r_double_prime`.
    pub s_in_at_r2: Block128,
    /// Column of nonlinear outputs at `r_double_prime`.
    pub s_out_at_r2: Block128,
}

impl CoreClaims {
    /// Whether both points have one coordinate per variable of the hypercube.
    pub open spec fn well_formed(self) -> bool {
        self.r_prime.len() == 15 && self.r_double_prime.len() == 15
    }

    /// Whether every claim is true of the columns.
    pub open spec fn hold(self, columns: UnifiedColumns) -> bool {
        &&& self.state_at_r == mle::mle_eval(columns.state, self.r_prime)
        &&& self.state_at_r2 == mle::mle_eval(columns.state, self.r_double_prime)
        &&& self.s_in_at_r2 == mle::mle_eval(columns.s_in, self.r_double_prime)
        &&& self.s_out_at_r2 == mle::mle_eval(columns.s_out, self.r_double_prime)
    }

    /// The claims on the state column.
    pub open spec fn on_state(self) -> Seq<ClaimView> {
        seq![
            ClaimView { point: self.r_prime, value: self.state_at_r },
            ClaimView { point: self.r_double_prime, value: self.state_at_r2 },
        ]
    }

    /// The claim on the column of nonlinear inputs.
    pub open spec fn on_sin(self) -> Seq<ClaimView> {
        seq![ClaimView { point: self.r_double_prime, value: self.s_in_at_r2 }]
    }

    /// The claim on the column of nonlinear outputs.
    pub open spec fn on_sout(self) -> Seq<ClaimView> {
        seq![ClaimView { point: self.r_double_prime, value: self.s_out_at_r2 }]
    }
}

/// The claims of the two constraint provers.
pub open spec fn proved_claims(
    main: UnifiedProof,
    r_prime: Seq<Block128>,
    shift: ShiftProof,
    r_double_prime: Seq<Block128>,
) -> CoreClaims {
    CoreClaims {
        r_prime,
        state_at_r: main.state_at_r,
        r_double_prime,
        state_at_r2: shift.state_at_r2,
        s_in_at_r2: shift.s_in_at_r2,
        s_out_at_r2: shift.s_out_at_r2,
    }
}

/// The claims of the two constraint verifiers.
pub open spec fn verified_claims(main: UnifiedReduction, shift: ShiftReduction) -> CoreClaims {
    CoreClaims {
        r_prime: main.r_prime@,
        state_at_r: main.state_at_r,
        r_double_prime: shift.r_double_prime@,
        state_at_r2: shift.state_at_r2,
        s_in_at_r2: shift.s_in_at_r2,
        s_out_at_r2: shift.s_out_at_r2,
    }
}

/// Algebraic proof emitted by FROST-GKR.
#[derive(Debug, Clone, PartialEq, Eq)]
pub struct FrostProof {
    pub frost: FrostCoreProof,
    pub state_batch: BatchEvalProof,
    pub sin_batch: BatchEvalProof,
    pub sout_batch: BatchEvalProof,
}

/// The three batch-evaluation proofs.
pub struct FrostBatches {
    /// On the state column.
    pub state: BatchEvalProofView,
    /// On the column of nonlinear inputs.
    pub sin: BatchEvalProofView,
    /// On the column of nonlinear outputs.
    pub sout: BatchEvalProofView,
}

/// Wire size of a proof with the given numbers of rounds.
pub open spec fn frost_byte_len(main: nat, shift: nat, batches: FrostBatches) -> nat {
    main * 160 + shift * 48 + 240 + batch_eval::batch_byte_len(batches.state.rounds.len())
        + batch_eval::batch_byte_len(batches.sin.rounds.len()) + batch_eval::batch_byte_len(
        batches.sout.rounds.len(),
    )
}

impl FrostProof {
    /// The three batch-evaluation proofs.
    pub open spec fn batches(self) -> FrostBatches {
        FrostBatches {
            state: self.state_batch@,
            sin: self.sin_batch@,
            sout: self.sout_batch@,
        }
    }

    /// Raw field-element byte size.
    pub fn byte_len(&self) -> (r: usize)
        requires
            frost_byte_len(
                self.frost.main.round_polys@.len(),
                self.frost.shift.round_polys@.len(),
                self.batches(),
            ) <= usize::MAX,
        ensures
            r == frost_byte_len(
                self.frost.main.round_polys@.len(),
                self.frost.shift.round_polys@.len(),
                self.batches(),
            ),
    {
        let main_polys: usize = self.frost.main.round_polys.len() * 10 * 16;
        let shift_polys: usize = self.frost.shift.round_polys.len() * 3 * 16;
        let main_finals: usize = 12 * 16;
        let shift_finals: usize = 3 * 16;
        main_polys + shift_polys + main_finals + shift_finals + self.state_batch.byte_len()
            + self.sin_batch.byte_len() + self.sout_batch.byte_len()
    }
}

/// Terminal MLE reductions emitted by the FROST-GKR verifier.
#[derive(Debug, Clone, PartialEq, Eq)]
pub struct FrostReductions {
    pub state: BatchEvalReduction,
    pub sin: BatchEvalReduction,
    pub sout: BatchEvalReduction,
}

/// The contents of the terminal reductions.
pub struct FrostReductionsView {
    /// Claim on the state column.
    pub state: ClaimView,
    /// Claim on the column of nonlinear inputs.
    pub sin: ClaimView,
    /// Claim on the column of nonlinear outputs.
    pub sout: ClaimView,
}

impl View for FrostReductions {
    type V = FrostReductionsView;

    open spec fn view(&self) -> FrostReductionsView {
        FrostReductionsView { state: self.state@, sin: self.sin@, sout: self.sout@ }
    }
}

impl FrostReductionsView {
    /// Whether each point has one coordinate per variable of the hypercube.
    pub open spec fn well_formed(self) -> bool {
        &&& self.state.point.len() == 15
        &&& self.sin.point.len() == 15
        &&& self.sout.point.len() == 15
    }

    /// Whether every reduction is true of the columns.
    pub open spec fn hold(self, columns: UnifiedColumns) -> bool {
        &&& self.state.value == mle::mle_eval(columns.state, self.state.point)
        &&& self.sin.value == mle::mle_eval(columns.s_in, self.sin.point)
        &&& self.sout.value == mle::mle_eval(columns.s_out, self.sout.point)
    }
}

/// The batch phase of the honest prover: proofs, reductions and the transcript state at the end.
pub open spec fn batches_run<C: FiatShamir<Block128>>(
    columns: UnifiedColumns,
    claims: CoreClaims,
    state: C::State,
) -> (FrostBatches, FrostReductionsView, C::State) {
    let s1 = batch_eval::batch_run::<C>(columns.state, claims.on_state(), 15, state).state;
    let s2 = batch_eval::batch_run::<C>(columns.s_in, claims.on_sin(), 15, s1).state;
    let s3 = batch_eval::batch_run::<C>(columns.s_out, claims.on_sout(), 15, s2).state;
    (
        FrostBatches {
            state: batch_eval::batch_proof::<C>(columns.state, claims.on_state(), 15, state),
            sin: batch_eval::batch_proof::<C>(columns.s_in, claims.on_sin(), 15, s1),
            sout: batch_eval::batch_proof::<C>(columns.s_out, claims.on_sout(), 15, s2),
        },
        FrostReductionsView {
            state: batch_eval::batch_reduction::<C>(columns.state, claims.on_state(), 15, state),
            sin: batch_eval::batch_reduction::<C>(columns.s_in, claims.on_sin(), 15, s1),
            sout: batch_eval::batch_reduction::<C>(columns.s_out, claims.on_sout(), 15, s2),
        },
        s3,
    )
}

/// The batch phase of the verifier: the reductions if all three batches are accepted, and the
/// transcript state, which is left where the first rejection occurs.
pub open spec fn batches_verdict<C: FiatShamir<Block128>>(
    batches: FrostBatches,
    claims: CoreClaims,
    state: C::State,
) -> (Option<FrostReductionsView>, C::State) {
    let s1 = batch_eval::batch_verifier_state::<C>(batches.state, claims.on_state(), 15, state);
    let s2 = batch_eval::batch_verifier_state::<C>(batches.sin, claims.on_sin(), 15, s1);
    let s3 = batch_eval::batch_verifier_state::<C>(batches.sout, claims.on_sout(), 15, s2);
    if !batch_eval::batch_accepted::<C>(batches.state, claims.on_state(), 15, state) {
        (None, s1)
    } else if !batch_eval::batch_accepted::<C>(batches.sin, claims.on_sin(), 15, s1) {
        (None, s2)
    } else if !batch_eval::batch_accepted::<C>(batches.sout, claims.on_sout(), 15, s2) {
        (None, s3)
    } else {
        (
            Some(
                FrostReductionsView {
                    state: batch_eval::batch_verified::<C>(
                        batches.state,
                        claims.on_state(),
                        state,
                    ),
                    sin: batch_eval::batch_verified::<C>(batches.sin, claims.on_sin(), s1),
                    sout: batch_eval::batch_verified::<C>(batches.sout, claims.on_sout(), s2),
                },
            ),
            s3,
        )
    }
}

/// Completeness of the batch phase: if the claims of the two constraint sumchecks hold of the
/// columns, the verifier accepts the honest batches, ends in the prover's transcript state and
/// derives the prover's reductions, which hold of the columns.
pub proof fn batches_completeness<C: FiatShamir<Block128>>(
    columns: UnifiedColumns,
    claims: CoreClaims,
    state: C::State,
)
    requires
        columns.well_formed(),
        claims.well_formed(),
        claims.hold(columns),
    ensures
        ({
            let (batches, reductions, end) = batches_run::<C>(columns, claims, state);
            &&& batches_verdict::<C>(batches, claims, state) == (Some(reductions), end)
            &&& reductions.well_formed()
            &&& reductions.hold(columns)
        }),
{
    let s1 = batch_eval::batch_run::<C>(columns.state, claims.on_state(), 15, state).state;
    let s2 = batch_eval::batch_run::<C>(columns.s_in, claims.on_sin(), 15, s1).state;
    batch_eval::batch_completeness::<C>(columns.state, claims.on_state(), 15, state);
    batch_eval::batch_completeness::<C>(columns.s_in, claims.on_sin(), 15, s1);
    batch_eval::batch_completeness::<C>(columns.s_out, claims.on_sout(), 15, s2);
}

/// A batch proof with another final value.
pub open spec fn with_final(batch: BatchEvalProofView, b_final: Block128) -> BatchEvalProofView {
    BatchEvalProofView { rounds: batch.rounds, b_final }
}

/// Changing the final value of one batch of an accepted proof makes the verifier reject, unless the
/// weight of that value is zero.
pub proof fn tampered_batch_is_rejected<C: FiatShamir<Block128>>(
    batches: FrostBatches,
    claims: CoreClaims,
    state: C::State,
    b_final: Block128,
)
    requires
        batches_verdict::<C>(batches, claims, state).0 is Some,
    ensures
        ({
            let s1 = batch_eval::batch_verifier_state::<C>(
                batches.state,
                claims.on_state(),
                15,
                state,
            );
            let s2 = batch_eval::batch_verifier_state::<C>(batches.sin, claims.on_sin(), 15, s1);
            let zero = Block128::nil();
            let state_weight = batch_eval::final_weight::<C>(
                batches.state.rounds,
                claims.on_state(),
                state,
            );
            let sin_weight = batch_eval::final_weight::<C>(batches.sin.rounds, claims.on_sin(), s1);
            let sout_weight = batch_eval::final_weight::<C>(
                batches.sout.rounds,
                claims.on_sout(),
                s2,
            );
            let bad_state = FrostBatches { state: with_final(batches.state, b_final), ..batches };
            let bad_sin = FrostBatches { sin: with_final(batches.sin, b_final), ..batches };
            let bad_sout = FrostBatches { sout: with_final(batches.sout, b_final), ..batches };
            &&& b_final != batches.state.b_final && state_weight != zero ==> batches_verdict::<C>(
                bad_state,
                claims,
                state,
            ).0 is None
            &&& b_final != batches.sin.b_final && sin_weight != zero ==> batches_verdict::<C>(
                bad_sin,
                claims,
                state,
            ).0 is None
            &&& b_final != batches.sout.b_final && sout_weight != zero ==> batches_verdict::<C>(
                bad_sout,
                claims,
                state,
            ).0 is None
        }),
{
    let s1 = batch_eval::batch_verifier_state::<C>(batches.state, claims.on_state(), 15, state);
    let s2 = batch_eval::batch_verifier_state::<C>(batches.sin, claims.on_sin(), 15, s1);
    let bad_state = with_final(batches.state, b_final);
    let bad_sin = with_final(batches.sin, b_final);
    let bad_sout = with_final(batches.sout, b_final);
    if batch_eval::batch_accepted::<C>(bad_state, claims.on_state(), 15, state) {
        batch_eval::batch_final_is_bound::<C>(
            batches.state,
            bad_state,
            claims.on_state(),
            15,
            state,
        );
    }
    if batch_eval::batch_accepted::<C>(bad_sin, claims.on_sin(), 15, s1) {
        batch_eval::batch_final_is_bound::<C>(batches.sin, bad_sin, claims.on_sin(), 15, s1);
    }
    if batch_eval::batch_accepted::<C>(bad_sout, claims.on_sout(), 15, s2) {
        batch_eval::batch_final_is_bound::<C>(batches.sout, bad_sout, claims.on_sout(), 15, s2);
    }
}

/// Soundness of the batch phase: if the verifier accepts and its reductions are true of the columns,
/// then for each column the claims of the constraint sumchecks combine to the value of the true ones
/// or some round is lucky.  For a column with a single claim, that claim is true, its coefficient is
/// zero, or some round is lucky.
pub proof fn batches_soundness<C: FiatShamir<Block128>>(
    columns: UnifiedColumns,
    batches: FrostBatches,
    claims: CoreClaims,
    state: C::State,
)
    requires
        columns.well_formed(),
        batches_verdict::<C>(batches, claims, state).0 matches Some(reductions) && reductions.hold(
            columns,
        ),
    ensures
        ({
            let s1 = batch_eval::batch_verifier_state::<C>(
                batches.state,
                claims.on_state(),
                15,
                state,
            );
            let s2 = batch_eval::batch_verifier_state::<C>(batches.sin, claims.on_sin(), 15, s1);
            let coeffs = batch_eval::alphas::<C>(claims.on_state(), state);
            &&& batch_eval::combined_value(claims.on_state(), coeffs) == batch_eval::combined_value(
                soundness::true_claims(columns.state, claims.on_state()),
                coeffs,
            ) || soundness::lucky_batch::<C>(
                columns.state,
                claims.on_state(),
                15,
                batches.state,
                state,
            )
            &&& claims.s_in_at_r2 == mle::mle_eval(columns.s_in, claims.r_double_prime)
                || batch_eval::alphas::<C>(claims.on_sin(), s1)[0] == Block128::nil()
                || soundness::lucky_batch::<C>(columns.s_in, claims.on_sin(), 15, batches.sin, s1)
            &&& claims.s_out_at_r2 == mle::mle_eval(columns.s_out, claims.r_double_prime)
                || batch_eval::alphas::<C>(claims.on_sout(), s2)[0] == Block128::nil()
                || soundness::lucky_batch::<C>(
                columns.s_out,
                claims.on_sout(),
                15,
                batches.sout,
                s2,
            )
        }),
{
    let s1 = batch_eval::batch_verifier_state::<C>(batches.state, claims.on_state(), 15, state);
    let s2 = batch_eval::batch_verifier_state::<C>(batches.sin, claims.on_sin(), 15, s1);
    soundness::batch_soundness::<C>(columns.state, claims.on_state(), 15, batches.state, state);
    soundness::batch_soundness::<C>(columns.s_in, claims.on_sin(), 15, batches.sin, s1);
    soundness::batch_soundness::<C>(columns.s_out, claims.on_sout(), 15, batches.sout, s2);
    lemma_single_claim(
        columns.s_in,
        claims.on_sin(),
        batch_eval::alphas::<C>(claims.on_sin(), s1),
    );
    lemma_single_claim(
        columns.s_out,
        claims.on_sout(),
        batch_eval::alphas::<C>(claims.on_sout(), s2),
    );
}

/// A single claim combines like the true one only if it is true or its coefficient is zero.
proof fn lemma_single_claim(b: Seq<Block128>, claims: Seq<ClaimView>, alphas: Seq<Block128>)
    requires
        claims.len() == 1,
        alphas.len() == 1,
    ensures
        batch_eval::combined_value(claims, alphas) == batch_eval::combined_value(
            soundness::true_claims(b, claims),
            alphas,
        ) ==> claims[0].value == mle::mle_eval(b, claims[0].point) || alphas[0] == Block128::nil(),
{
    let truth = soundness::true_claims(b, claims);
    let (x, y) = (claims[0].value, truth[0].value);
    let w = alphas[0];
    reveal_with_fuel(batch_eval::combined_value, 2);
    algebra::lemma_neutral_left(w.times(x));
    algebra::lemma_neutral_left(w.times(y));
    Block128::times_laws(w, x, y);
    Block128::plus_laws(w.times(x), w.times(x), w.times(x));
    if w.times(x) == w.times(y) {
        algebra::lemma_no_zero_divisors(w, x.plus(y));
        if x.plus(y) == Block128::nil() {
            algebra::lemma_plus_zero_eq(x, y);
        }
    }
}

/// What accepting the batch phase means: the batch on the state column is accepted for the claims at the
/// terminal points of both constraint sumchecks, and the batches on the two other columns for the claims
/// at the terminal point of the shift sumcheck, one after the other on the transcript.  The reductions
/// are those of the three batches.
pub proof fn batches_acceptance<C: FiatShamir<Block128>>(
    batches: FrostBatches,
    main: UnifiedReduction,
    shift: ShiftReduction,
    state: C::State,
)
    ensures
        ({
            let on_state = seq![
                ClaimView { point: main.r_prime@, value: main.state_at_r },
                ClaimView { point: shift.r_double_prime@, value: shift.state_at_r2 },
            ];
            let on_sin = seq![
                ClaimView { point: shift.r_double_prime@, value: shift.s_in_at_r2 },
            ];
            let on_sout = seq![
                ClaimView { point: shift.r_double_prime@, value: shift.s_out_at_r2 },
            ];
            let s1 = batch_eval::batch_verifier_state::<C>(batches.state, on_state, 15, state);
            let s2 = batch_eval::batch_verifier_state::<C>(batches.sin, on_sin, 15, s1);
            let s3 = batch_eval::batch_verifier_state::<C>(batches.sout, on_sout, 15, s2);
            let verdict = batches_verdict::<C>(batches, verified_claims(main, shift), state);
            let good = {
                &&& batch_eval::batch_accepted::<C>(batches.state, on_state, 15, state)
                &&& batch_eval::batch_accepted::<C>(batches.sin, on_sin, 15, s1)
                &&& batch_eval::batch_accepted::<C>(batches.sout, on_sout, 15, s2)
            };
            &&& verdict.0 is Some <==> good
            &&& good ==> {
                &&& verdict.1 == s3
                &&& verdict.0->0.state == batch_eval::batch_verified::<C>(
                    batches.state,
                    on_state,
                    state,
                )
                &&& verdict.0->0.sin == batch_eval::batch_verified::<C>(batches.sin, on_sin, s1)
                &&& verdict.0->0.sout == batch_eval::batch_verified::<C>(batches.sout, on_sout, s2)
            }
        }),
{
}

/// Reductions hold of columns exactly if all three do: the state, the nonlinear inputs and the nonlinear
/// outputs, each at its own point; so do the claims of the two constraint sumchecks.
pub proof fn all_columns_are_discharged(
    reductions: FrostReductionsView,
    claims: CoreClaims,
    columns: UnifiedColumns,
)
    ensures
        reductions.hold(columns) <==> {
            &&& mle::mle_eval(columns.state, reductions.state.point) == reductions.state.value
            &&& mle::mle_eval(columns.s_in, reductions.sin.point) == reductions.sin.value
            &&& mle::mle_eval(columns.s_out, reductions.sout.point) == reductions.sout.value
        },
        claims.hold(columns) <==> {
            &&& mle::mle_eval(columns.state, claims.r_prime) == claims.state_at_r
            &&& mle::mle_eval(columns.state, claims.r_double_prime) == claims.state_at_r2
            &&& mle::mle_eval(columns.s_in, claims.r_double_prime) == claims.s_in_at_r2
            &&& mle::mle_eval(columns.s_out, claims.r_double_prime) == claims.s_out_at_r2
        },
        reductions.well_formed() <==> reductions.state.point.len() == 15
            && reductions.sin.point.len() == 15 && reductions.sout.point.len() == 15,
        columns.well_formed() <==> columns.state.len() == 32768 && columns.s_in.len() == 32768
            && columns.s_out.len() == 32768,
{
    crate::legacy::lemma_boundary_cells();
}

/// Each round of the main sumcheck takes ten elements of 16 bytes and each of the shift sumcheck three;
/// their terminal values take twelve and three, and the batches their own sizes.
pub proof fn frost_sizes(main: nat, shift: nat, batches: FrostBatches)
    ensures
        frost_byte_len(main + 1, shift, batches) == frost_byte_len(main, shift, batches) + 10 * 16,
        frost_byte_len(main, shift + 1, batches) == frost_byte_len(main, shift, batches) + 3 * 16,
        frost_byte_len(0, 0, batches) == 15 * 16 + batch_eval::batch_byte_len(
            batches.state.rounds.len(),
        ) + batch_eval::batch_byte_len(batches.sin.rounds.len()) + batch_eval::batch_byte_len(
            batches.sout.rounds.len(),
        ),
{
}

/// Every claim of the two constraint sumchecks is checked: if the verifier accepts and its three
/// reductions are true of the columns, then, unless a round is lucky,
/// - the claims on the state column at the terminal points of both sumchecks have errors that cancel
///   under the two coefficients taken from the transcript once both claims are bound, in this order;
/// - the claims on the two other columns at the terminal point of the shift sumcheck are true or have
///   coefficient zero.
pub proof fn every_core_claim_is_checked<C: FiatShamir<Block128>>(
    columns: UnifiedColumns,
    batches: FrostBatches,
    main: UnifiedReduction,
    shift: ShiftReduction,
    state: C::State,
)
    requires
        columns.state.len() == mle::cube(15),
        columns.s_in.len() == mle::cube(15),
        columns.s_out.len() == mle::cube(15),
        batches_verdict::<C>(batches, verified_claims(main, shift), state).0 matches Some(red)
            && red.state.value == mle::mle_eval(columns.state, red.state.point) && red.sin.value
            == mle::mle_eval(columns.s_in, red.sin.point) && red.sout.value == mle::mle_eval(
            columns.s_out,
            red.sout.point,
        ),
    ensures
        ({
            let on_state = seq![
                ClaimView { point: main.r_prime@, value: main.state_at_r },
                ClaimView { point: shift.r_double_prime@, value: shift.state_at_r2 },
            ];
            let on_sin = seq![
                ClaimView { point: shift.r_double_prime@, value: shift.s_in_at_r2 },
            ];
            let on_sout = seq![
                ClaimView { point: shift.r_double_prime@, value: shift.s_out_at_r2 },
            ];
            let s1 = batch_eval::batch_verifier_state::<C>(batches.state, on_state, 15, state);
            let s2 = batch_eval::batch_verifier_state::<C>(batches.sin, on_sin, 15, s1);
            let a = batch_eval::alphas::<C>(on_state, state);
            let b = batch_eval::alphas::<C>(on_sin, s1);
            let c = batch_eval::alphas::<C>(on_sout, s2);
            let at = |column: Seq<Block128>, point: Seq<Block128>| mle::mle_eval(column, point);
            let e0 = main.state_at_r.plus(at(columns.state, main.r_prime@));
            let e1 = shift.state_at_r2.plus(at(columns.state, shift.r_double_prime@));
            &&& a[0].times(e0).plus(a[1].times(e1)) == Block128::nil() || soundness::lucky_batch::<
                C,
            >(columns.state, on_state, 15, batches.state, state)
            &&& shift.s_in_at_r2 == at(columns.s_in, shift.r_double_prime@) || b[0]
                == Block128::nil() || soundness::lucky_batch::<C>(
                columns.s_in,
                on_sin,
                15,
                batches.sin,
                s1,
            )
            &&& shift.s_out_at_r2 == at(columns.s_out, shift.r_double_prime@) || c[0]
                == Block128::nil() || soundness::lucky_batch::<C>(
                columns.s_out,
                on_sout,
                15,
                batches.sout,
                s2,
            )
        }),
{
    let claims = verified_claims(main, shift);
    batches_soundness::<C>(columns, batches, claims, state);
    let coeffs = batch_eval::alphas::<C>(claims.on_state(), state);
    lemma_two_claims(columns.state, claims.on_state(), coeffs);
}

/// Two claims combine like the true ones exactly if their errors cancel under the coefficients.
proof fn lemma_two_claims(b: Seq<Block128>, claims: Seq<ClaimView>, alphas: Seq<Block128>)
    requires
        claims.len() == 2,
        alphas.len() == 2,
    ensures
        batch_eval::combined_value(claims, alphas) == batch_eval::combined_value(
            soundness::true_claims(b, claims),
            alphas,
        ) ==> alphas[0].times(claims[0].value.plus(mle::mle_eval(b, claims[0].point))).plus(
            alphas[1].times(claims[1].value.plus(mle::mle_eval(b, claims[1].point))),
        ) == Block128::nil(),
{
    let truth = soundness::true_claims(b, claims);
    let mixed = seq![truth[0], claims[1]];
    batch_eval::combination_is_linear(claims, mixed, alphas, 0);
    batch_eval::combination_is_linear(mixed, truth, alphas, 1);
    let p = batch_eval::combined_value(claims, alphas);
    let q = batch_eval::combined_value(mixed, alphas);
    Block128::plus_laws(p, q, q);
    Block128::plus_laws(q, p, p);
    Block128::plus_laws(p, p, q);
    Block128::plus_laws(p.plus(q), q, p);
    Block128::plus_laws(p.plus(q), p.plus(q), p);
}

/// A proof whose two constraint sumchecks have one round per variable, and whose batches the
/// verifier accepts, takes 5,568 bytes and 75 rounds in all.
pub proof fn frost_proof_size<C: FiatShamir<Block128>>(
    batches: FrostBatches,
    claims: CoreClaims,
    state: C::State,
)
    requires
        batches_verdict::<C>(batches, claims, state).0 is Some,
    ensures
        frost_byte_len(15, 15, batches) == 5568,
        15 + 15 + batches.state.rounds.len() + batches.sin.rounds.len() + batches.sout.rounds.len()
            == 75,
{
}

/// The states before each permutation of the sequence.
pub open spec fn input_states(
    inputs: Seq<[Block128; 4]>,
    permutation: Poseidon2bPermutation,
    initial: Seq<Block128>,
) -> bool {
    &&& inputs.len() == 59
    &&& forall|i: int|
        0 <= i < 59 ==> (#[trigger] inputs[i])@ == sequence::state_after(
            permutation,
            initial,
            i as nat,
        )
}

/// Whether `build` can lay the sequence out as these columns.
pub open spec fn laid_out<B: FnOnce(Vec<[Block128; 4]>) -> UnifiedMle>(
    permutation: Poseidon2bPermutation,
    initial: Seq<Block128>,
    build: B,
    mle: UnifiedMle,
) -> bool {
    exists|inputs: Vec<[Block128; 4]>|
        input_states(inputs@, permutation, initial) && #[trigger] build.ensures((inputs,), mle)
}

/// What a completed pair of prover and verifier of the main sumcheck agrees on: the verifier accepts
/// what the prover sent, at the prover's point and with the prover's values, it leaves the transcript
/// where the prover did, and the claim on the state column is true.
pub open spec fn main_agrees<T: FiatShamir<Block128>>(
    columns: UnifiedColumns,
    proved: (UnifiedProof, Vec<Block128>),
    prover_end: T::State,
    verified: Option<UnifiedReduction>,
    verifier_end: T::State,
) -> bool {
    &&& verified is Some
    &&& verified->0.r_prime@ == proved.1@
    &&& verified->0.state_at_r == proved.0.state_at_r
    &&& verifier_end == prover_end
    &&& proved.0.state_at_r == mle::mle_eval(columns.state, proved.1@)
}

/// The same of the shift sumcheck, with its claims on the three columns.
pub open spec fn shift_agrees<T: FiatShamir<Block128>>(
    columns: UnifiedColumns,
    proved: (ShiftProof, Vec<Block128>),
    prover_end: T::State,
    verified: Option<ShiftReduction>,
    verifier_end: T::State,
) -> bool {
    &&& verified is Some
    &&& verified->0.r_double_prime@ == proved.1@
    &&& verified->0.state_at_r2 == proved.0.state_at_r2
    &&& verified->0.s_in_at_r2 == proved.0.s_in_at_r2
    &&& verified->0.s_out_at_r2 == proved.0.s_out_at_r2
    &&& verifier_end == prover_end
    &&& proved.0.state_at_r2 == mle::mle_eval(columns.state, proved.1@)
    &&& proved.0.s_in_at_r2 == mle::mle_eval(columns.s_in, proved.1@)
    &&& proved.0.s_out_at_r2 == mle::mle_eval(columns.s_out, proved.1@)
}

/// Completeness of FROST-GKR: if the two constraint sumchecks are complete on the columns of the
/// sequence and the layout is a function of the sequence, then the verifier accepts every honest proof
/// of the right digest from the transcript state that the prover started from.  It derives the
/// prover's reductions, ends in the prover's transcript state, and the reductions are true of the
/// columns, so that they are discharged.
pub proof fn frost_completeness<
    T: FiatShamir<Block128>,
    B: FnOnce(Vec<[Block128; 4]>) -> UnifiedMle,
    PM: FnOnce(&UnifiedMle, &mut T) -> (UnifiedProof, Vec<Block128>),
    VM: FnOnce(&UnifiedProof, &mut T) -> Option<UnifiedReduction>,
    PS: FnOnce(&UnifiedMle, &Vec<Block128>, &mut T) -> (ShiftProof, Vec<Block128>),
    VS: FnOnce(&ShiftProof, &UnifiedReduction, &mut T) -> Option<ShiftReduction>,
>(
    permutation: Poseidon2bPermutation,
    initial: Seq<Block128>,
    build: B,
    prove_main: PM,
    verify_main: VM,
    prove_shift: PS,
    verify_shift: VS,
    start: T::State,
    proof: FrostProof,
    reductions: FrostReductionsView,
    end: T::State,
    result: Option<FrostReductionsView>,
    verifier_end: T::State,
)
    requires
        forall|a: UnifiedMle, b: UnifiedMle|
            #![trigger laid_out(permutation, initial, build, a), laid_out(permutation, initial, build, b)]
            laid_out(permutation, initial, build, a) && laid_out(permutation, initial, build, b)
                ==> a@ == b@,
        forall|
            mle: UnifiedMle,
            c: &mut T,
            main: (UnifiedProof, Vec<Block128>),
            d: &mut T,
            verified: Option<UnifiedReduction>,
        |
            {
                &&& laid_out(permutation, initial, build, mle)
                &&& #[trigger] prove_main.ensures((&mle, c), main)
                &&& d.state() == c.state()
                &&& #[trigger] verify_main.ensures((&main.0, d), verified)
            } ==> main_agrees::<T>(mle@, main, final(c).state(), verified, final(d).state()),
        forall|
            mle: UnifiedMle,
            c1: &mut T,
            main: (UnifiedProof, Vec<Block128>),
            d1: &mut T,
            reduced: UnifiedReduction,
            c2: &mut T,
            shift: (ShiftProof, Vec<Block128>),
            d2: &mut T,
            verified: Option<ShiftReduction>,
        |
            {
                &&& laid_out(permutation, initial, build, mle)
                &&& #[trigger] prove_main.ensures((&mle, c1), main)
                &&& d1.state() == c1.state()
                &&& #[trigger] verify_main.ensures((&main.0, d1), Some(reduced))
                &&& c2.state() == final(c1).state()
                &&& #[trigger] prove_shift.ensures((&mle, &main.1, c2), shift)
                &&& d2.state() == c2.state()
                &&& #[trigger] verify_shift.ensures((&shift.0, &reduced, d2), verified)
            } ==> shift_agrees::<T>(mle@, shift, final(c2).state(), verified, final(d2).state()),
        exists|
            mle: UnifiedMle,
            c1: &mut T,
            main: (UnifiedProof, Vec<Block128>),
            c2: &mut T,
            shift: (ShiftProof, Vec<Block128>),
        |
            {
                &&& laid_out(permutation, initial, build, mle)
                &&& mle@.well_formed()
                &&& c1.state() == transcript::absorb_seq::<Block128, T>(
                    start,
                    sequence::digest_of(permutation, initial),
                )
                &&& #[trigger] prove_main.ensures((&mle, c1), main)
                &&& main.1@.len() == 15
                &&& c2.state() == final(c1).state()
                &&& #[trigger] prove_shift.ensures((&mle, &main.1, c2), shift)
                &&& shift.1@.len() == 15
                &&& proof.frost.main == main.0
                &&& proof.frost.shift == shift.0
                &&& (proof.batches(), reductions, end) == batches_run::<T>(
                    mle@,
                    proved_claims(main.0, main.1@, shift.0, shift.1@),
                    final(c2).state(),
                )
            },
        exists|c1: &mut T, main: Option<UnifiedReduction>|
            {
                &&& c1.state() == transcript::absorb_seq::<Block128, T>(
                    start,
                    sequence::digest_of(permutation, initial),
                )
                &&& #[trigger] verify_main.ensures((&proof.frost.main, c1), main)
                &&& match main {
                    None => result is None && verifier_end == final(c1).state(),
                    Some(main) => exists|c2: &mut T, shift: Option<ShiftReduction>|
                        {
                            &&& c2.state() == final(c1).state()
                            &&& #[trigger] verify_shift.ensures(
                                (&proof.frost.shift, &main, c2),
                                shift,
                            )
                            &&& match shift {
                                None => result is None && verifier_end == final(c2).state(),
                                Some(shift) => batches_verdict::<T>(
                                    proof.batches(),
                                    verified_claims(main, shift),
                                    final(c2).state(),
                                ) == (result, verifier_end),
                            }
                        },
                }
            },
    ensures
        result == Some(reductions),
        verifier_end == end,
        reductions.well_formed(),
        forall|mle: UnifiedMle| #[trigger]
            laid_out(permutation, initial, build, mle) ==> reductions.hold(mle@),
{
    let digest = sequence::digest_of(permutation, initial);
    let (mle, c1, main, c2, shift) = choose|
        mle: UnifiedMle,
        c1: &mut T,
        main: (UnifiedProof, Vec<Block128>),
        c2: &mut T,
        shift: (ShiftProof, Vec<Block128>),
    |
        {
            &&& laid_out(permutation, initial, build, mle)
            &&& mle@.well_formed()
            &&& c1.state() == transcript::absorb_seq::<Block128, T>(start, digest)
            &&& #[trigger] prove_main.ensures((&mle, c1), main)
            &&& main.1@.len() == 15
            &&& c2.state() == final(c1).state()
            &&& #[trigger] prove_shift.ensures((&mle, &main.1, c2), shift)
            &&& shift.1@.len() == 15
            &&& proof.frost.main == main.0
            &&& proof.frost.shift == shift.0
            &&& (proof.batches(), reductions, end) == batches_run::<T>(
                mle@,
                proved_claims(main.0, main.1@, shift.0, shift.1@),
                final(c2).state(),
            )
        };
    let claims = proved_claims(main.0, main.1@, shift.0, shift.1@);
    let (d1, reduced) = choose|d1: &mut T, reduced: Option<UnifiedReduction>|
        {
            &&& d1.state() == transcript::absorb_seq::<Block128, T>(start, digest)
            &&& #[trigger] verify_main.ensures((&proof.frost.main, d1), reduced)
            &&& match reduced {
                None => result is None && verifier_end == final(d1).state(),
                Some(reduced) => exists|c2: &mut T, shift: Option<ShiftReduction>|
                    {
                        &&& c2.state() == final(d1).state()
                        &&& #[trigger] verify_shift.ensures(
                            (&proof.frost.shift, &reduced, c2),
                            shift,
                        )
                        &&& match shift {
                            None => result is None && verifier_end == final(c2).state(),
                            Some(shift) => batches_verdict::<T>(
                                proof.batches(),
                                verified_claims(reduced, shift),
                                final(c2).state(),
                            ) == (result, verifier_end),
                        }
                    },
            }
        };
    assert(main_agrees::<T>(mle@, main, final(c1).state(), reduced, final(d1).state()));
    let reduced = reduced->0;
    let (d2, terminal) = choose|d2: &mut T, terminal: Option<ShiftReduction>|
        {
            &&& d2.state() == final(d1).state()
            &&& #[trigger] verify_shift.ensures((&proof.frost.shift, &reduced, d2), terminal)
            &&& match terminal {
                None => result is None && verifier_end == final(d2).state(),
                Some(terminal) => batches_verdict::<T>(
                    proof.batches(),
                    verified_claims(reduced, terminal),
                    final(d2).state(),
                ) == (result, verifier_end),
            }
        };
    assert(shift_agrees::<T>(mle@, shift, final(c2).state(), terminal, final(d2).state()));
    assert(verified_claims(reduced, terminal->0) == claims);
    batches_completeness::<T>(mle@, claims, final(c2).state());
}

/// The layout receives the states before each of the 59 permutations: whatever states follow each other
/// by the permutation.
pub proof fn layout_receives_the_sequence(
    inputs: Seq<[Block128; 4]>,
    permutation: Poseidon2bPermutation,
    states: Seq<Seq<Block128>>,
)
    requires
        states.len() == 60,
        forall|i: int|
            0 <= i < 59 ==> states[i + 1] == permutation.permuted(#[trigger] states[i]),
    ensures
        input_states(inputs, permutation, states[0]) <==> inputs.len() == 59 && forall|i: int|
            0 <= i < 59 ==> (#[trigger] inputs[i])@ == states[i],
{
    assert forall|i: int| 0 <= i < 59 implies #[trigger] sequence::state_after(
        permutation,
        states[0],
        i as nat,
    ) == states[i] by {
        sequence::lemma_state_after(permutation, states, i as nat);
    }
    if input_states(inputs, permutation, states[0]) {
        assert forall|i: int| 0 <= i < 59 implies (#[trigger] inputs[i])@ == states[i] by {
            assert(sequence::state_after(permutation, states[0], i as nat) == states[i]);
        }
    } else if inputs.len() == 59 {
        let i = choose|i: int|
            0 <= i < 59 && (#[trigger] inputs[i])@ != sequence::state_after(
                permutation,
                states[0],
                i as nat,
            );
        assert(sequence::state_after(permutation, states[0], i as nat) == states[i]);
        assert(inputs[i]@ != states[i]);
    }
}

/// Lay out the three-column unified witness for the public sequence: `build` receives the 59 states
/// before each permutation.
pub fn build_unified_from_sequence<B: FnOnce(Vec<[Block128; 4]>) -> UnifiedMle>(
    permutation: &Poseidon2bPermutation,
    input: &SequenceInput,
    build: B,
) -> (mle: UnifiedMle)
    requires
        forall|inputs: Vec<[Block128; 4]>|
            input_states(inputs@, *permutation, input.initial_state@) ==> #[trigger] build.requires(
                (inputs,),
            ),
    ensures
        laid_out(*permutation, input.initial_state@, build, mle),
{
    let witness = evaluate_sequence(permutation, input);
    let mut state_inputs: Vec<[Block128; 4]> = Vec::with_capacity(N_PERMUTATIONS);
    let mut i: usize = 0;
    while i < 59
        invariant
            i <= 59,
            witness.is_for(*permutation, input.initial_state@),
            state_inputs@.len() == i,
            forall|k: int|
                0 <= k < i ==> (#[trigger] state_inputs@[k])@ == sequence::state_after(
                    *permutation,
                    input.initial_state@,
                    k as nat,
                ),
        decreases 59 - i,
    {
        state_inputs.push(witness.states[i].0);
        i = i + 1;
    }
    build(state_inputs)
}

/// The batch phase of the prover, from the columns and what the two constraint provers returned.
pub fn prove_frost_batches<T: FiatShamir<Block128>>(
    mle: &UnifiedMle,
    main: UnifiedProof,
    r_prime: Vec<Block128>,
    shift: ShiftProof,
    r_double_prime: Vec<Block128>,
    channel: &mut T,
) -> (result: (FrostProof, FrostReductions))
    requires
        mle@.well_formed(),
        r_prime@.len() == 15,
        r_double_prime@.len() == 15,
    ensures
        result.0.frost.main == main,
        result.0.frost.shift == shift,
        (result.0.batches(), result.1@, final(channel).state()) == batches_run::<T>(
            mle@,
            proved_claims(main, r_prime@, shift, r_double_prime@),
            old(channel).state(),
        ),
{
    let ghost claims = proved_claims(main, r_prime@, shift, r_double_prime@);
    let mut state_claims: Vec<EvalClaim> = Vec::with_capacity(2);
    state_claims.push(EvalClaim { point: r_prime, value: main.state_at_r });
    state_claims.push(EvalClaim { point: copied(&r_double_prime), value: shift.state_at_r2 });
    assert(batch_eval::claim_views(state_claims@) =~= claims.on_state());
    let (state_batch, state) = prove_batch_eval(&mle.state, &state_claims, channel);

    let mut sin_claims: Vec<EvalClaim> = Vec::with_capacity(1);
    sin_claims.push(EvalClaim { point: copied(&r_double_prime), value: shift.s_in_at_r2 });
    assert(batch_eval::claim_views(sin_claims@) =~= claims.on_sin());
    let (sin_batch, sin) = prove_batch_eval(&mle.s_in, &sin_claims, channel);

    let mut sout_claims: Vec<EvalClaim> = Vec::with_capacity(1);
    sout_claims.push(EvalClaim { point: r_double_prime, value: shift.s_out_at_r2 });
    assert(batch_eval::claim_views(sout_claims@) =~= claims.on_sout());
    let (sout_batch, sout) = prove_batch_eval(&mle.s_out, &sout_claims, channel);

    (
        FrostProof {
            frost: FrostCoreProof { main, shift },
            state_batch,
            sin_batch,
            sout_batch,
        },
        FrostReductions { state, sin, sout },
    )
}

/// The batch phase of the verifier, from what the two constraint verifiers returned.
pub fn verify_frost_batches<T: FiatShamir<Block128>>(
    proof: &FrostProof,
    main: UnifiedReduction,
    shift: ShiftReduction,
    channel: &mut T,
) -> (result: Option<FrostReductions>)
    ensures
        batches_verdict::<T>(proof.batches(), verified_claims(main, shift), old(channel).state())
            == (
            match result {
                Some(reductions) => Some(reductions@),
                None => None,
            },
            final(channel).state(),
        ),
        result matches Some(reductions) ==> reductions@.well_formed(),
{
    let ghost claims = verified_claims(main, shift);
    let mut state_claims: Vec<EvalClaim> = Vec::with_capacity(2);
    state_claims.push(EvalClaim { point: main.r_prime, value: main.state_at_r });
    state_claims.push(
        EvalClaim { point: copied(&shift.r_double_prime), value: shift.state_at_r2 },
    );
    assert(batch_eval::claim_views(state_claims@) =~= claims.on_state());
    let state = match verify_batch_eval(&proof.state_batch, &state_claims, N_UNIFIED_VARS, channel) {
        Some(reduction) => reduction,
        None => {
            return None;
        },
    };

    let mut sin_claims: Vec<EvalClaim> = Vec::with_capacity(1);
    sin_claims.push(EvalClaim { point: copied(&shift.r_double_prime), value: shift.s_in_at_r2 });
    assert(batch_eval::claim_views(sin_claims@) =~= claims.on_sin());
    let sin = match verify_batch_eval(&proof.sin_batch, &sin_claims, N_UNIFIED_VARS, channel) {
        Some(reduction) => reduction,
        None => {
            return None;
        },
    };

    let mut sout_claims: Vec<EvalClaim> = Vec::with_capacity(1);
    sout_claims.push(EvalClaim { point: shift.r_double_prime, value: shift.s_out_at_r2 });
    assert(batch_eval::claim_views(sout_claims@) =~= claims.on_sout());
    match verify_batch_eval(&proof.sout_batch, &sout_claims, N_UNIFIED_VARS, channel) {
        Some(sout) => Some(FrostReductions { state, sin, sout }),
        None => None,
    }
}

/// Prove the fixed sequence with FROST-GKR.
///
/// `build` lays the sequence out as three columns, `prove_main` and `prove_shift` run the two
/// constraint sumchecks on them.  The digest goes on the transcript before the main sumcheck, the
/// shift sumcheck follows the main one, and the batch phase follows both.
pub fn prove_frost<
    T: FiatShamir<Block128>,
    B: FnOnce(Vec<[Block128; 4]>) -> UnifiedMle,
    M: FnOnce(&UnifiedMle, &mut T) -> (UnifiedProof, Vec<Block128>),
    S: FnOnce(&UnifiedMle, &Vec<Block128>, &mut T) -> (ShiftProof, Vec<Block128>),
>(
    permutation: &Poseidon2bPermutation,
    input: &SequenceInput,
    claimed_digest: [Block128; 2],
    channel: &mut T,
    build: B,
    prove_main: M,
    prove_shift: S,
) -> (result: (FrostProof, FrostReductions))
    requires
        forall|inputs: Vec<[Block128; 4]>|
            input_states(inputs@, *permutation, input.initial_state@) ==> #[trigger] build.requires(
                (inputs,),
            ),
        forall|inputs: Vec<[Block128; 4]>, mle: UnifiedMle| #[trigger]
            build.ensures((inputs,), mle) ==> mle@.well_formed(),
        forall|mle: &UnifiedMle, c: &mut T|
            mle@.well_formed() ==> #[trigger] prove_main.requires((mle, c)),
        forall|mle: &UnifiedMle, c: &mut T, main: (UnifiedProof, Vec<Block128>)| #[trigger]
            prove_main.ensures((mle, c), main) ==> main.1@.len() == 15,
        forall|mle: &UnifiedMle, r_prime: &Vec<Block128>, c: &mut T|
            mle@.well_formed() && r_prime@.len() == 15 ==> #[trigger] prove_shift.requires(
                (mle, r_prime, c),
            ),
        forall|
            mle: &UnifiedMle,
            r_prime: &Vec<Block128>,
            c: &mut T,
            shift: (ShiftProof, Vec<Block128>),
        | #[trigger]
            prove_shift.ensures((mle, r_prime, c), shift) ==> shift.1@.len() == 15,
    ensures
        exists|
            mle: UnifiedMle,
            c1: &mut T,
            main: (UnifiedProof, Vec<Block128>),
            c2: &mut T,
            shift: (ShiftProof, Vec<Block128>),
        |
            {
                &&& laid_out(*permutation, input.initial_state@, build, mle)
                &&& mle@.well_formed()
                &&& c1.state() == transcript::absorb_seq::<Block128, T>(
                    old(channel).state(),
                    claimed_digest@,
                )
                &&& #[trigger] prove_main.ensures((&mle, c1), main)
                &&& main.1@.len() == 15
                &&& c2.state() == final(c1).state()
                &&& #[trigger] prove_shift.ensures((&mle, &main.1, c2), shift)
                &&& shift.1@.len() == 15
                &&& result.0.frost.main == main.0
                &&& result.0.frost.shift == shift.0
                &&& (result.0.batches(), result.1@, final(channel).state()) == batches_run::<T>(
                    mle@,
                    proved_claims(main.0, main.1@, shift.0, shift.1@),
                    final(c2).state(),
                )
            },
{
    absorb_digest(channel, &claimed_digest);
    let mle = build_unified_from_sequence(permutation, input, build);
    let (main, r_prime) = prove_main(&mle, channel);
    let (shift, r_double_prime) = prove_shift(&mle, &r_prime, channel);
    prove_frost_batches(&mle, main, r_prime, shift, r_double_prime, channel)
}

/// Verify FROST-GKR and return its three terminal MLE reductions.
///
/// `verify_main` and `verify_shift` verify the two constraint sumchecks.  A wrong digest is rejected
/// before anything goes on the transcript.
pub fn verify_frost<
    T: FiatShamir<Block128>,
    M: FnOnce(&UnifiedProof, &mut T) -> Option<UnifiedReduction>,
    S: FnOnce(&ShiftProof, &UnifiedReduction, &mut T) -> Option<ShiftReduction>,
>(
    permutation: &Poseidon2bPermutation,
    proof: &FrostProof,
    input: &SequenceInput,
    claimed_digest: [Block128; 2],
    channel: &mut T,
    verify_main: M,
    verify_shift: S,
) -> (result: Option<FrostReductions>)
    requires
        forall|c: &mut T| #[trigger] verify_main.requires((&proof.frost.main, c)),
        forall|main: &UnifiedReduction, c: &mut T| #[trigger]
            verify_shift.requires((&proof.frost.shift, main, c)),
    ensures
        result matches Some(reductions) ==> reductions@.well_formed(),
        claimed_digest@ != sequence::digest_of(*permutation, input.initial_state@) ==> result is None
            && final(channel).state() == old(channel).state(),
        claimed_digest@ == sequence::digest_of(*permutation, input.initial_state@) ==> exists|
            c1: &mut T,
            main: Option<UnifiedReduction>,
        |
            {
                &&& c1.state() == transcript::absorb_seq::<Block128, T>(
                    old(channel).state(),
                    claimed_digest@,
                )
                &&& #[trigger] verify_main.ensures((&proof.frost.main, c1), main)
                &&& match main {
                    None => result is None && final(channel).state() == final(c1).state(),
                    Some(main) => exists|c2: &mut T, shift: Option<ShiftReduction>|
                        {
                            &&& c2.state() == final(c1).state()
                            &&& #[trigger] verify_shift.ensures(
                                (&proof.frost.shift, &main, c2),
                                shift,
                            )
                            &&& match shift {
                                None => {
                                    result is None && final(channel).state() == final(c2).state()
                                },
                                Some(shift) => batches_verdict::<T>(
                                    proof.batches(),
                                    verified_claims(main, shift),
                                    final(c2).state(),
                                ) == (
                                    match result {
                                        Some(reductions) => Some(reductions@),
                                        None => None,
                                    },
                                    final(channel).state(),
                                ),
                            }
                        },
                }
            },
{
    let digest = sequence_digest(permutation, input);
    proof {
        if digest[0] == claimed_digest[0] && digest[1] == claimed_digest[1] {
            assert(digest@ =~= claimed_digest@);
        }
    }
    if digest[0] != claimed_digest[0] || digest[1] != claimed_digest[1] {
        return None;
    }
    absorb_digest(channel, &claimed_digest);
    let main = match verify_main(&proof.frost.main, channel) {
        Some(main) => main,
        None => {
            return None;
        },
    };
    let shift = match verify_shift(&proof.frost.shift, &main, channel) {
        Some(shift) => shift,
        None => {
            return None;
        },
    };
    verify_frost_batches(proof, main, shift, channel)
}

/// Evaluate all three terminal reductions against the columns.
pub fn discharge_frost_columns(mle: &UnifiedMle, reductions: &FrostReductions) -> (holds: bool)
    requires
        mle@.well_formed(),
        reductions@.well_formed(),
    ensures
        holds <==> reductions@.hold(mle@),
        holds <==> reductions.state.value == mle::mle_eval(mle.state@, reductions.state.point@)
            && reductions.sin.value == mle::mle_eval(mle.s_in@, reductions.sin.point@)
            && reductions.sout.value == mle::mle_eval(mle.s_out@, reductions.sout.point@),
{
    evaluate_slice(&mle.state, &reductions.state.point) == reductions.state.value
        && evaluate_slice(&mle.s_in, &reductions.sin.point) == reductions.sin.value
        && evaluate_slice(&mle.s_out, &reductions.sout.point) == reductions.sout.value
}

/// Evaluate all three terminal FROST-GKR reductions directly, on the columns that `build` lays out.
pub fn discharge_frost_native<B: FnOnce(Vec<[Block128; 4]>) -> UnifiedMle>(
    permutation: &Poseidon2bPermutation,
    input: &SequenceInput,
    reductions: &FrostReductions,
    build: B,
) -> (holds: bool)
    requires
        reductions@.well_formed(),
        forall|inputs: Vec<[Block128; 4]>|
            input_states(inputs@, *permutation, input.initial_state@) ==> #[trigger] build.requires(
                (inputs,),
            ),
        forall|inputs: Vec<[Block128; 4]>, mle: UnifiedMle| #[trigger]
            build.ensures((inputs,), mle) ==> mle@.well_formed(),
    ensures
        exists|mle: UnifiedMle| #[trigger]
            laid_out(*permutation, input.initial_state@, build, mle) && (holds
                <==> reductions@.hold(mle@)),
{
    let mle = build_unified_from_sequence(permutation, input, build);
    discharge_frost_columns(&mle, reductions)
}

} // verus!
