//! Chained product-sumcheck reduction for one Poseidon2b permutation.
//!
//! Given a claim `v = sout_mle(r)` at a random 9-variable point `r`, this protocol reduces it, via
//! five product sumchecks plus three "sin-expansion" product sumchecks, to a set of claims on the
//! `state` column MLE.
//!
//! The layered S-box is `sout = x4 · x3`, `x4 = x2 · x2`, `x3 = x2 · sin`, `x2 = sin · sin`.  Four
//! two-variable product layers, with two consumers of `x2`.  The chain is:
//!
//! ```text
//!     v₀ = sout(r₀)
//! ──► sumcheck: sout = x4·x3       at r₀   → (x4(r₁),  x3(r₁))
//! ──► sumcheck: x4   = x2·x2       at r₁   → (x2(r₂),  x2(r₂))
//! ──► sumcheck: x3   = x2·sin      at r₁   → (x2(r₃),  sin(r₃))
//! ──► sumcheck: x2   = sin·sin     at r₂   → (sin(r₄), sin(r₄))
//! ──► sumcheck: x2   = sin·sin     at r₃   → (sin(r₅), sin(r₅))
//! ```
//!
//! For each of the three resulting `sin(ρ)` claims one more product sumcheck is run on the identity
//! `sin(x) = active(x) · (state(x) + rc(x))`, which holds on every hypercube vertex.  It reduces to
//! `(active(ρ'), B(ρ'))` with `B = state + rc`.  The verifier recomputes `active` and `rc` at `ρ'`
//! publicly, and hands `B(ρ') − rc(ρ')` on as a claim on the `state` column.
use crate::algebra;
use crate::batch_eval::ClaimView;
use crate::block128::Block128;
use crate::evaluate::evaluate_slice;
use crate::layers::evaluate_permutation;
use crate::mle;
use crate::mle_layout;
use crate::mle_layout::{
    add_columns, build_active_mle, build_rc_mle, PermColumns, PermMle, N_PERM_VARS,
};
use crate::permutation::Poseidon2bPermutation;
use crate::product_sumcheck;
use crate::product_sumcheck::{
    prove_product, prove_square, verify_product, ProductProof, ProductProofView,
};
use crate::sums;
use crate::tables::copied;
use crate::tower_field::TowerField;
use crate::transcript;
use crate::transcript::{squeeze_many, FiatShamir};
use vstd::prelude::*;

verus! {

/// Full permutation sumcheck proof: five S-box chain sumchecks and three sin-expansion sumchecks.
#[derive(Debug, Clone, PartialEq, Eq)]
pub struct PermProof {
    pub sout_x4x3: ProductProof,
    pub x4_x2x2: ProductProof,
    pub x3_x2sin: ProductProof,
    pub x2_at_r2_sinsin: ProductProof,
    pub x2_at_r3_sinsin: ProductProof,
    pub sin_r3_check: ProductProof,
    pub sin_r4_check: ProductProof,
    pub sin_r5_check: ProductProof,
}

/// The contents of a permutation proof.
pub struct PermProofView {
    pub sout_x4x3: ProductProofView,
    pub x4_x2x2: ProductProofView,
    pub x3_x2sin: ProductProofView,
    pub x2_at_r2_sinsin: ProductProofView,
    pub x2_at_r3_sinsin: ProductProofView,
    pub sin_r3_check: ProductProofView,
    pub sin_r4_check: ProductProofView,
    pub sin_r5_check: ProductProofView,
}

impl View for PermProof {
    type V = PermProofView;

    open spec fn view(&self) -> PermProofView {
        PermProofView {
            sout_x4x3: self.sout_x4x3@,
            x4_x2x2: self.x4_x2x2@,
            x3_x2sin: self.x3_x2sin@,
            x2_at_r2_sinsin: self.x2_at_r2_sinsin@,
            x2_at_r3_sinsin: self.x2_at_r3_sinsin@,
            sin_r3_check: self.sin_r3_check@,
            sin_r4_check: self.sin_r4_check@,
            sin_r5_check: self.sin_r5_check@,
        }
    }
}

/// Number of rounds of all eight sumchecks.
pub open spec fn perm_rounds(proof: PermProofView) -> nat {
    proof.sout_x4x3.rounds.len() + proof.x4_x2x2.rounds.len() + proof.x3_x2sin.rounds.len()
        + proof.x2_at_r2_sinsin.rounds.len() + proof.x2_at_r3_sinsin.rounds.len()
        + proof.sin_r3_check.rounds.len() + proof.sin_r4_check.rounds.len()
        + proof.sin_r5_check.rounds.len()
}

/// Wire size of a permutation proof.
pub open spec fn perm_byte_len(proof: PermProofView) -> nat {
    perm_rounds(proof) * 64 + 256
}

impl PermProof {
    /// Sum of the eight inner proof sizes, in raw bytes.
    pub fn byte_len(&self) -> (r: usize)
        requires
            perm_byte_len(self@) <= usize::MAX,
        ensures
            r == perm_byte_len(self@),
    {
        self.sout_x4x3.byte_len() + self.x4_x2x2.byte_len() + self.x3_x2sin.byte_len()
            + self.x2_at_r2_sinsin.byte_len() + self.x2_at_r3_sinsin.byte_len()
            + self.sin_r3_check.byte_len() + self.sin_r4_check.byte_len()
            + self.sin_r5_check.byte_len()
    }
}

/// Output of a verified permutation sumcheck: an evaluation claim on the permutation's `state`
/// column.
#[derive(Debug, Clone, PartialEq, Eq)]
pub struct PermStateClaim {
    /// 9-variable evaluation point on the `state` MLE.
    pub point: Vec<Block128>,
    /// `state_mle(point)` as reduced by the sumcheck chain.
    pub value: Block128,
}

impl View for PermStateClaim {
    type V = ClaimView;

    open spec fn view(&self) -> ClaimView {
        ClaimView { point: self.point@, value: self.value }
    }
}

/// Three state claims drop out of a permutation, one per sin-expansion sumcheck.
pub const N_STATE_CLAIMS_PER_SLOT: usize = 3;

/// The public `active` column.
pub fn active_mle() -> (v: Vec<Block128>)
    ensures
        v@ == mle_layout::active_column(),
{
    build_active_mle()
}

/// The public round-constant column.
pub fn rc_mle(permutation: &Poseidon2bPermutation) -> (v: Vec<Block128>)
    ensures
        v@ == mle_layout::rc_column(*permutation),
{
    build_rc_mle(permutation)
}

/// What the prover of one permutation has done.
pub struct PermRun<S> {
    /// The proof.
    pub proof: PermProofView,
    /// The point of the initial claim.
    pub r0: Seq<Block128>,
    /// The initial claim.
    pub v0: Block128,
    /// The claims on the state column.
    pub claims: Seq<ClaimView>,
    /// The transcript state.
    pub state: S,
}

/// The true claim on a column at a point.
pub open spec fn claim_on(column: Seq<Block128>, point: Seq<Block128>) -> ClaimView {
    ClaimView { point, value: mle::mle_eval(column, point) }
}

/// The point of the initial claim.
pub open spec fn claim_point<C: FiatShamir<Block128>>(state: C::State) -> Seq<Block128> {
    transcript::squeeze_seq::<Block128, C>(state, 9)
}

/// The transcript state once the point of the initial claim has been squeezed.
pub open spec fn claim_state<C: FiatShamir<Block128>>(state: C::State) -> C::State {
    transcript::squeeze_state::<Block128, C>(state, 9)
}

/// The honest prover on given columns.
#[verifier::opaque]
pub open spec fn perm_run<C: FiatShamir<Block128>>(
    permutation: Poseidon2bPermutation,
    c: PermColumns,
    state: C::State,
) -> PermRun<C::State> {
    let active = mle_layout::active_column();
    let shifted = sums::seq_plus(c.state, mle_layout::rc_column(permutation));
    let r0 = claim_point::<C>(state);
    let t0 = claim_state::<C>(state);
    let r1 = product_sumcheck::product_point::<C>(c.x4, c.x3, r0, t0);
    let t1 = product_sumcheck::product_state::<C>(c.x4, c.x3, r0, t0);
    let r2 = product_sumcheck::product_point::<C>(c.x2, c.x2, r1, t1);
    let t2 = product_sumcheck::product_state::<C>(c.x2, c.x2, r1, t1);
    let r3 = product_sumcheck::product_point::<C>(c.x2, c.sin, r1, t2);
    let t3 = product_sumcheck::product_state::<C>(c.x2, c.sin, r1, t2);
    let r4 = product_sumcheck::product_point::<C>(c.sin, c.sin, r2, t3);
    let t4 = product_sumcheck::product_state::<C>(c.sin, c.sin, r2, t3);
    let r5 = product_sumcheck::product_point::<C>(c.sin, c.sin, r3, t4);
    let t5 = product_sumcheck::product_state::<C>(c.sin, c.sin, r3, t4);
    let rs3 = product_sumcheck::product_point::<C>(active, shifted, r3, t5);
    let t6 = product_sumcheck::product_state::<C>(active, shifted, r3, t5);
    let rs4 = product_sumcheck::product_point::<C>(active, shifted, r4, t6);
    let t7 = product_sumcheck::product_state::<C>(active, shifted, r4, t6);
    let rs5 = product_sumcheck::product_point::<C>(active, shifted, r5, t7);
    let t8 = product_sumcheck::product_state::<C>(active, shifted, r5, t7);
    PermRun {
        proof: PermProofView {
            sout_x4x3: product_sumcheck::product_proof::<C>(c.x4, c.x3, r0, t0),
            x4_x2x2: product_sumcheck::product_proof::<C>(c.x2, c.x2, r1, t1),
            x3_x2sin: product_sumcheck::product_proof::<C>(c.x2, c.sin, r1, t2),
            x2_at_r2_sinsin: product_sumcheck::product_proof::<C>(c.sin, c.sin, r2, t3),
            x2_at_r3_sinsin: product_sumcheck::product_proof::<C>(c.sin, c.sin, r3, t4),
            sin_r3_check: product_sumcheck::product_proof::<C>(active, shifted, r3, t5),
            sin_r4_check: product_sumcheck::product_proof::<C>(active, shifted, r4, t6),
            sin_r5_check: product_sumcheck::product_proof::<C>(active, shifted, r5, t7),
        },
        r0,
        v0: mle::mle_eval(c.sout, r0),
        claims: seq![claim_on(c.state, rs3), claim_on(c.state, rs4), claim_on(c.state, rs5)],
        state: t8,
    }
}

/// The claim on the state column that a sin-expansion sumcheck implies at `rs`, if its first factor
/// is the public `active` column there.
pub open spec fn derived_claim(
    permutation: Poseidon2bPermutation,
    proof: ProductProofView,
    rs: Seq<Block128>,
) -> Option<ClaimView> {
    if proof.a_final == mle::mle_eval(mle_layout::active_column(), rs) {
        Some(
            ClaimView {
                point: rs,
                value: proof.b_final.plus(mle::mle_eval(mle_layout::rc_column(permutation), rs)),
            },
        )
    } else {
        None
    }
}

/// The last part of the verifier: three sin expansions.
pub open spec fn sin_verdict<C: FiatShamir<Block128>>(
    permutation: Poseidon2bPermutation,
    proof: PermProofView,
    r3: Seq<Block128>,
    r4: Seq<Block128>,
    r5: Seq<Block128>,
    state: C::State,
) -> (Option<Seq<ClaimView>>, C::State) {
    let s3 = product_sumcheck::product_verdict::<C>(
        proof.sin_r3_check,
        r3,
        proof.x3_x2sin.b_final,
        state,
    );
    if s3.0 is None {
        (None, s3.1)
    } else {
        let c3 = derived_claim(permutation, proof.sin_r3_check, s3.0->0);
        if c3 is None {
            (None, s3.1)
        } else {
            let s4 = product_sumcheck::product_verdict::<C>(
                proof.sin_r4_check,
                r4,
                proof.x2_at_r2_sinsin.a_final,
                s3.1,
            );
            if s4.0 is None {
                (None, s4.1)
            } else {
                let c4 = derived_claim(permutation, proof.sin_r4_check, s4.0->0);
                if c4 is None {
                    (None, s4.1)
                } else {
                    let s5 = product_sumcheck::product_verdict::<C>(
                        proof.sin_r5_check,
                        r5,
                        proof.x2_at_r3_sinsin.a_final,
                        s4.1,
                    );
                    if s5.0 is None {
                        (None, s5.1)
                    } else {
                        let c5 = derived_claim(permutation, proof.sin_r5_check, s5.0->0);
                        if c5 is None {
                            (None, s5.1)
                        } else {
                            (Some(seq![c3->0, c4->0, c5->0]), s5.1)
                        }
                    }
                }
            }
        }
    }
}

/// The second part of the verifier: the two squares of S-box inputs, whose factors must agree.
pub open spec fn square_verdict<C: FiatShamir<Block128>>(
    permutation: Poseidon2bPermutation,
    proof: PermProofView,
    r2: Seq<Block128>,
    r3: Seq<Block128>,
    state: C::State,
) -> (Option<Seq<ClaimView>>, C::State) {
    let s4 = product_sumcheck::product_verdict::<C>(
        proof.x2_at_r2_sinsin,
        r2,
        proof.x4_x2x2.a_final,
        state,
    );
    if s4.0 is None {
        (None, s4.1)
    } else {
        let s5 = product_sumcheck::product_verdict::<C>(
            proof.x2_at_r3_sinsin,
            r3,
            proof.x3_x2sin.a_final,
            s4.1,
        );
        if s5.0 is None || proof.x2_at_r2_sinsin.a_final != proof.x2_at_r2_sinsin.b_final
            || proof.x2_at_r3_sinsin.a_final != proof.x2_at_r3_sinsin.b_final {
            (None, s5.1)
        } else {
            sin_verdict::<C>(permutation, proof, r3, s4.0->0, s5.0->0, s5.1)
        }
    }
}

/// The outcome of the verifier for the claim `sout(r0) = v0`: the claims on the state column if it
/// accepts, and the transcript state that it is left with.
#[verifier::opaque]
pub open spec fn perm_verdict<C: FiatShamir<Block128>>(
    permutation: Poseidon2bPermutation,
    proof: PermProofView,
    r0: Seq<Block128>,
    v0: Block128,
    state: C::State,
) -> (Option<Seq<ClaimView>>, C::State) {
    let s1 = product_sumcheck::product_verdict::<C>(proof.sout_x4x3, r0, v0, state);
    if s1.0 is None {
        (None, s1.1)
    } else {
        let r1 = s1.0->0;
        let s2 = product_sumcheck::product_verdict::<C>(
            proof.x4_x2x2,
            r1,
            proof.sout_x4x3.a_final,
            s1.1,
        );
        if s2.0 is None {
            (None, s2.1)
        } else {
            let s3 = product_sumcheck::product_verdict::<C>(
                proof.x3_x2sin,
                r1,
                proof.sout_x4x3.b_final,
                s2.1,
            );
            if s3.0 is None || proof.x4_x2x2.a_final != proof.x4_x2x2.b_final {
                (None, s3.1)
            } else {
                square_verdict::<C>(permutation, proof, s2.0->0, s3.0->0, s3.1)
            }
        }
    }
}

/// Whether the columns satisfy the layered S-box relation.
pub open spec fn columns_consistent(permutation: Poseidon2bPermutation, c: PermColumns) -> bool {
    &&& c.state.len() == 512
    &&& c.sin == mle_layout::sin_column(permutation, c.state)
    &&& c.x2 == sums::seq_times(c.sin, c.sin)
    &&& c.x3 == sums::seq_times(c.x2, c.sin)
    &&& c.x4 == sums::seq_times(c.x2, c.x2)
    &&& c.sout == sums::seq_times(c.x4, c.x3)
}

/// The point of the initial claim is the next nine challenges of the transcript.
pub proof fn claim_point_is_squeezed<C: FiatShamir<Block128>>(states: Seq<C::State>)
    requires
        states.len() == 10,
        forall|i: int| 0 <= i < 9 ==> states[i + 1] == C::squeezed(#[trigger] states[i]),
    ensures
        claim_point::<C>(states[0]).len() == 9,
        forall|i: int|
            0 <= i < 9 ==> #[trigger] claim_point::<C>(states[0])[i] == C::challenge(states[i]),
        claim_state::<C>(states[0]) == states[9],
{
    transcript::challenges_are_successive::<Block128, C>(states, 9);
}

/// What accepting a permutation means: all eight product proofs are accepted one after the other, each
/// for the value and at the point that those before it leave, the factors of the three squares agree,
/// the first factor of each expansion is the public `active` column at its point, and the claims handed
/// on are the second factors minus the public constants there.
pub proof fn every_product_is_checked<C: FiatShamir<Block128>>(
    permutation: Poseidon2bPermutation,
    proof: PermProofView,
    r0: Seq<Block128>,
    v0: Block128,
    state: C::State,
    points: Seq<Seq<Block128>>,
    states: Seq<C::State>,
)
    requires
        points.len() == 8,
        states.len() == 9,
        states[0] == state,
        product_sumcheck::product_verdict::<C>(proof.sout_x4x3, r0, v0, states[0]) == (
            Some(points[0]),
            states[1],
        ),
        product_sumcheck::product_verdict::<C>(
            proof.x4_x2x2,
            points[0],
            proof.sout_x4x3.a_final,
            states[1],
        ) == (Some(points[1]), states[2]),
        product_sumcheck::product_verdict::<C>(
            proof.x3_x2sin,
            points[0],
            proof.sout_x4x3.b_final,
            states[2],
        ) == (Some(points[2]), states[3]),
        product_sumcheck::product_verdict::<C>(
            proof.x2_at_r2_sinsin,
            points[1],
            proof.x4_x2x2.a_final,
            states[3],
        ) == (Some(points[3]), states[4]),
        product_sumcheck::product_verdict::<C>(
            proof.x2_at_r3_sinsin,
            points[2],
            proof.x3_x2sin.a_final,
            states[4],
        ) == (Some(points[4]), states[5]),
        product_sumcheck::product_verdict::<C>(
            proof.sin_r3_check,
            points[2],
            proof.x3_x2sin.b_final,
            states[5],
        ) == (Some(points[5]), states[6]),
        product_sumcheck::product_verdict::<C>(
            proof.sin_r4_check,
            points[3],
            proof.x2_at_r2_sinsin.a_final,
            states[6],
        ) == (Some(points[6]), states[7]),
        product_sumcheck::product_verdict::<C>(
            proof.sin_r5_check,
            points[4],
            proof.x2_at_r3_sinsin.a_final,
            states[7],
        ) == (Some(points[7]), states[8]),
    ensures
        ({
            let verdict = perm_verdict::<C>(permutation, proof, r0, v0, state);
            let active = mle_layout::active_column();
            let rc = mle_layout::rc_column(permutation);
            let agree = {
                &&& proof.x4_x2x2.a_final == proof.x4_x2x2.b_final
                &&& proof.x2_at_r2_sinsin.a_final == proof.x2_at_r2_sinsin.b_final
                &&& proof.x2_at_r3_sinsin.a_final == proof.x2_at_r3_sinsin.b_final
                &&& proof.sin_r3_check.a_final == mle::mle_eval(active, points[5])
                &&& proof.sin_r4_check.a_final == mle::mle_eval(active, points[6])
                &&& proof.sin_r5_check.a_final == mle::mle_eval(active, points[7])
            };
            &&& verdict.0 is Some <==> agree
            &&& agree ==> {
                let claims = verdict.0->0;
                &&& claims.len() == 3
                &&& verdict.1 == states[8]
                &&& claims[0].point == points[5]
                &&& claims[1].point == points[6]
                &&& claims[2].point == points[7]
                &&& claims[0].value.plus(mle::mle_eval(rc, points[5])) == proof.sin_r3_check.b_final
                &&& claims[1].value.plus(mle::mle_eval(rc, points[6])) == proof.sin_r4_check.b_final
                &&& claims[2].value.plus(mle::mle_eval(rc, points[7])) == proof.sin_r5_check.b_final
            }
        }),
{
    reveal(perm_verdict);
    let rc = mle_layout::rc_column(permutation);
    algebra::lemma_plus_cancel(proof.sin_r3_check.b_final, mle::mle_eval(rc, points[5]));
    algebra::lemma_plus_cancel(proof.sin_r4_check.b_final, mle::mle_eval(rc, points[6]));
    algebra::lemma_plus_cancel(proof.sin_r5_check.b_final, mle::mle_eval(rc, points[7]));
}

/// A permutation is rejected as soon as one of its product proofs is: accepting it means that there
/// are points and states through which all eight are accepted.
pub proof fn no_product_is_skipped<C: FiatShamir<Block128>>(
    permutation: Poseidon2bPermutation,
    proof: PermProofView,
    r0: Seq<Block128>,
    v0: Block128,
    state: C::State,
)
    requires
        perm_verdict::<C>(permutation, proof, r0, v0, state).0 is Some,
    ensures
        ({
            let s1 = product_sumcheck::product_verdict::<C>(proof.sout_x4x3, r0, v0, state);
            let s2 = product_sumcheck::product_verdict::<C>(
                proof.x4_x2x2,
                s1.0->0,
                proof.sout_x4x3.a_final,
                s1.1,
            );
            let s3 = product_sumcheck::product_verdict::<C>(
                proof.x3_x2sin,
                s1.0->0,
                proof.sout_x4x3.b_final,
                s2.1,
            );
            let s4 = product_sumcheck::product_verdict::<C>(
                proof.x2_at_r2_sinsin,
                s2.0->0,
                proof.x4_x2x2.a_final,
                s3.1,
            );
            let s5 = product_sumcheck::product_verdict::<C>(
                proof.x2_at_r3_sinsin,
                s3.0->0,
                proof.x3_x2sin.a_final,
                s4.1,
            );
            let s6 = product_sumcheck::product_verdict::<C>(
                proof.sin_r3_check,
                s3.0->0,
                proof.x3_x2sin.b_final,
                s5.1,
            );
            let s7 = product_sumcheck::product_verdict::<C>(
                proof.sin_r4_check,
                s4.0->0,
                proof.x2_at_r2_sinsin.a_final,
                s6.1,
            );
            let s8 = product_sumcheck::product_verdict::<C>(
                proof.sin_r5_check,
                s5.0->0,
                proof.x2_at_r3_sinsin.a_final,
                s7.1,
            );
            &&& s1.0 is Some && s2.0 is Some && s3.0 is Some && s4.0 is Some
            &&& s5.0 is Some && s6.0 is Some && s7.0 is Some && s8.0 is Some
        }),
{
    reveal(perm_verdict);
}

/// One step of the chain: the verifier accepts the honest proof for a column that is a product.
proof fn lemma_step<C: FiatShamir<Block128>>(
    a: Seq<Block128>,
    b: Seq<Block128>,
    r: Seq<Block128>,
    state: C::State,
)
    requires
        a.len() == 512,
        b.len() == 512,
        r.len() == 9,
    ensures
        product_sumcheck::product_verdict::<C>(
            product_sumcheck::product_proof::<C>(a, b, r, state),
            r,
            mle::mle_eval(sums::seq_times(a, b), r),
            state,
        ) == (
            Some(product_sumcheck::product_point::<C>(a, b, r, state)),
            product_sumcheck::product_state::<C>(a, b, r, state),
        ),
        product_sumcheck::product_point::<C>(a, b, r, state).len() == 9,
        product_sumcheck::product_proof::<C>(a, b, r, state).rounds.len() == 9,
        ({
            let proof = product_sumcheck::product_proof::<C>(a, b, r, state);
            let at = product_sumcheck::product_point::<C>(a, b, r, state);
            proof.a_final == mle::mle_eval(a, at) && proof.b_final == mle::mle_eval(b, at)
        }),
{
    mle_layout::lemma_cells();
    product_sumcheck::lemma_product_column(a, b, r);
    product_sumcheck::product_completeness::<C>(a, b, r, state);
}

/// The claim derived from an honest sin expansion is the true claim on the state column.
proof fn lemma_derived<C: FiatShamir<Block128>>(
    permutation: Poseidon2bPermutation,
    state_col: Seq<Block128>,
    r: Seq<Block128>,
    state: C::State,
)
    requires
        state_col.len() == 512,
        r.len() == 9,
    ensures
        ({
            let active = mle_layout::active_column();
            let shifted = sums::seq_plus(state_col, mle_layout::rc_column(permutation));
            let proof = product_sumcheck::product_proof::<C>(active, shifted, r, state);
            let rs = product_sumcheck::product_point::<C>(active, shifted, r, state);
            derived_claim(permutation, proof, rs) == Some(claim_on(state_col, rs))
        }),
{
    let active = mle_layout::active_column();
    let rc = mle_layout::rc_column(permutation);
    let shifted = sums::seq_plus(state_col, rc);
    lemma_step::<C>(active, shifted, r, state);
    mle_layout::lemma_cells();
    let rs = product_sumcheck::product_point::<C>(active, shifted, r, state);
    mle::lemma_mle_plus(state_col, rc, rs);
    algebra::lemma_plus_cancel(mle::mle_eval(state_col, rs), mle::mle_eval(rc, rs));
}

/// Completeness: on columns that satisfy the S-box relation the verifier accepts the honest proof of
/// the true claim, ends in the prover's transcript state, and derives the prover's claims, which are
/// true of the state column.
pub proof fn perm_completeness<C: FiatShamir<Block128>>(
    permutation: Poseidon2bPermutation,
    c: PermColumns,
    state: C::State,
)
    requires
        columns_consistent(permutation, c),
    ensures
        ({
            let all = perm_run::<C>(permutation, c, state);
            &&& perm_verdict::<C>(permutation, all.proof, all.r0, all.v0, claim_state::<C>(state))
                == (Some(all.claims), all.state)
            &&& all.r0 == claim_point::<C>(state)
            &&& all.v0 == mle::mle_eval(c.sout, all.r0)
            &&& perm_rounds(all.proof) == 72
            &&& all.claims.len() == 3
            &&& forall|i: int|
                0 <= i < 3 ==> (#[trigger] all.claims[i]).point.len() == 9 && all.claims[i].value
                    == mle::mle_eval(c.state, all.claims[i].point)
        }),
{
    reveal(perm_run);
    reveal(perm_verdict);
    let active = mle_layout::active_column();
    let shifted = sums::seq_plus(c.state, mle_layout::rc_column(permutation));
    let r0 = claim_point::<C>(state);
    let t0 = claim_state::<C>(state);
    lemma_step::<C>(c.x4, c.x3, r0, t0);
    let r1 = product_sumcheck::product_point::<C>(c.x4, c.x3, r0, t0);
    let t1 = product_sumcheck::product_state::<C>(c.x4, c.x3, r0, t0);
    lemma_step::<C>(c.x2, c.x2, r1, t1);
    let r2 = product_sumcheck::product_point::<C>(c.x2, c.x2, r1, t1);
    let t2 = product_sumcheck::product_state::<C>(c.x2, c.x2, r1, t1);
    lemma_step::<C>(c.x2, c.sin, r1, t2);
    let r3 = product_sumcheck::product_point::<C>(c.x2, c.sin, r1, t2);
    let t3 = product_sumcheck::product_state::<C>(c.x2, c.sin, r1, t2);
    lemma_step::<C>(c.sin, c.sin, r2, t3);
    let r4 = product_sumcheck::product_point::<C>(c.sin, c.sin, r2, t3);
    let t4 = product_sumcheck::product_state::<C>(c.sin, c.sin, r2, t3);
    lemma_step::<C>(c.sin, c.sin, r3, t4);
    let r5 = product_sumcheck::product_point::<C>(c.sin, c.sin, r3, t4);
    let t5 = product_sumcheck::product_state::<C>(c.sin, c.sin, r3, t4);
    lemma_step::<C>(active, shifted, r3, t5);
    lemma_derived::<C>(permutation, c.state, r3, t5);
    let t6 = product_sumcheck::product_state::<C>(active, shifted, r3, t5);
    lemma_step::<C>(active, shifted, r4, t6);
    lemma_derived::<C>(permutation, c.state, r4, t6);
    let t7 = product_sumcheck::product_state::<C>(active, shifted, r4, t6);
    lemma_step::<C>(active, shifted, r5, t7);
    lemma_derived::<C>(permutation, c.state, r5, t7);
}

/// Honest prover.  Squeezes the claim point `r₀`, evaluates `sout_mle(r₀) = v₀`, runs the chain, and
/// returns the proof together with `r₀`, `v₀` and the three claims on the state column.
pub fn prove_perm<T: FiatShamir<Block128>>(
    permutation: &Poseidon2bPermutation,
    state_in: [Block128; 4],
    channel: &mut T,
) -> (result: (PermProof, Vec<Block128>, Block128, [PermStateClaim; 3]))
    ensures
        ({
            let all = perm_run::<T>(
                *permutation,
                mle_layout::perm_columns(*permutation, state_in@),
                old(channel).state(),
            );
            &&& result.0@ == all.proof
            &&& result.1@ == all.r0
            &&& result.2 == all.v0
            &&& result.3@.len() == 3
            &&& forall|i: int| 0 <= i < 3 ==> (#[trigger] result.3@[i])@ == all.claims[i]
            &&& final(channel).state() == all.state
        }),
{
    let witness = evaluate_permutation(permutation, state_in);
    let columns = PermMle::from_witness(permutation, state_in, &witness);
    prove_perm_with_mle(permutation, &columns, channel)
}

/// Like [`prove_perm`] but takes pre-computed columns.
pub fn prove_perm_with_mle<T: FiatShamir<Block128>>(
    permutation: &Poseidon2bPermutation,
    mle: &PermMle,
    channel: &mut T,
) -> (result: (PermProof, Vec<Block128>, Block128, [PermStateClaim; 3]))
    requires
        mle@.well_formed(),
    ensures
        ({
            let all = perm_run::<T>(*permutation, mle@, old(channel).state());
            &&& result.0@ == all.proof
            &&& result.1@ == all.r0
            &&& result.2 == all.v0
            &&& result.3@.len() == 3
            &&& forall|i: int| 0 <= i < 3 ==> (#[trigger] result.3@[i])@ == all.claims[i]
            &&& final(channel).state() == all.state
        }),
{
    proof {
        reveal(perm_run);
        mle_layout::lemma_cells();
    }
    let r0 = squeeze_many(channel, N_PERM_VARS);
    let v0 = evaluate_slice(&mle.sout, &r0);
    // S-box chain; two equal factors take the squaring path.
    let (p_sout, r1) = prove_product(&mle.x4, &mle.x3, &r0, v0, channel);
    let (p_x4, r2) = prove_square(&mle.x2, &r1, p_sout.a_final, channel);
    let (p_x3, r3) = prove_product(&mle.x2, &mle.sin, &r1, p_sout.b_final, channel);
    let (p_x2a, r4) = prove_square(&mle.sin, &r2, p_x4.a_final, channel);
    let (p_x2b, r5) = prove_square(&mle.sin, &r3, p_x3.a_final, channel);
    // Sin expansion: sin(ρ) = Σ_x eq(ρ,x) · active(x) · (state(x) + rc(x)).
    let active = active_mle();
    let rc = rc_mle(permutation);
    let shifted = add_columns(&mle.state, &rc);
    let (p_sin_r3, rs3) = prove_product(&active, &shifted, &r3, p_x3.b_final, channel);
    let (p_sin_r4, rs4) = prove_product(&active, &shifted, &r4, p_x2a.a_final, channel);
    let (p_sin_r5, rs5) = prove_product(&active, &shifted, &r5, p_x2b.a_final, channel);
    let state_at_rs3 = evaluate_slice(&mle.state, &rs3);
    let state_at_rs4 = evaluate_slice(&mle.state, &rs4);
    let state_at_rs5 = evaluate_slice(&mle.state, &rs5);
    let proof_out = PermProof {
        sout_x4x3: p_sout,
        x4_x2x2: p_x4,
        x3_x2sin: p_x3,
        x2_at_r2_sinsin: p_x2a,
        x2_at_r3_sinsin: p_x2b,
        sin_r3_check: p_sin_r3,
        sin_r4_check: p_sin_r4,
        sin_r5_check: p_sin_r5,
    };
    let claims = [
        PermStateClaim { point: rs3, value: state_at_rs3 },
        PermStateClaim { point: rs4, value: state_at_rs4 },
        PermStateClaim { point: rs5, value: state_at_rs5 },
    ];
    (proof_out, r0, v0, claims)
}

/// Check `a_final == active(rs)` and extract the implied `state_mle(rs) = b_final - rc(rs)` claim.
fn derive_state_claim(
    permutation: &Poseidon2bPermutation,
    proof: &ProductProof,
    rs: &[Block128],
    active: &[Block128],
    rc: &[Block128],
) -> (claim: Option<PermStateClaim>)
    requires
        rs@.len() == 9,
        active@ == mle_layout::active_column(),
        rc@ == mle_layout::rc_column(*permutation),
    ensures
        derived_claim(*permutation, proof@, rs@) == match claim {
            Some(c) => Some(c@),
            None => None,
        },
{
    proof {
        mle_layout::lemma_cells();
    }
    let active_val = evaluate_slice(active, rs);
    if proof.a_final != active_val {
        return None;
    }
    let rc_val = evaluate_slice(rc, rs);
    let state_val = proof.b_final + rc_val;
    Some(PermStateClaim { point: copied(rs), value: state_val })
}

/// The views of three claims.
pub open spec fn three_claims(claims: Option<[PermStateClaim; 3]>) -> Option<Seq<ClaimView>> {
    match claims {
        Some(c) => Some(seq![c@[0]@, c@[1]@, c@[2]@]),
        None => None,
    }
}

/// Verify the chain for the claim `sout(r0) = v0`.
///
/// The chain bottoms out in three sin-expansion sumchecks; for each one `a_final == active(rs)` is
/// checked against the public column, and the implied `state_mle(rs)` claim is handed on.
pub fn verify_perm_at<T: FiatShamir<Block128>>(
    permutation: &Poseidon2bPermutation,
    proof: &PermProof,
    r0: &[Block128],
    v0: Block128,
    channel: &mut T,
) -> (result: Option<[PermStateClaim; 3]>)
    requires
        r0@.len() == 9,
    ensures
        perm_verdict::<T>(*permutation, proof@, r0@, v0, old(channel).state()) == (
            three_claims(result),
            final(channel).state(),
        ),
        result matches Some(c) ==> forall|i: int|
            0 <= i < 3 ==> (#[trigger] c@[i])@.point.len() == 9,
{
    proof {
        reveal(perm_verdict);
    }
    let r1 = match verify_product(&proof.sout_x4x3, r0, v0, channel) {
        Some(r) => r,
        None => {
            return None;
        },
    };
    let r2 = match verify_product(&proof.x4_x2x2, &r1, proof.sout_x4x3.a_final, channel) {
        Some(r) => r,
        None => {
            return None;
        },
    };
    let r3 = match verify_product(&proof.x3_x2sin, &r1, proof.sout_x4x3.b_final, channel) {
        Some(r) => r,
        None => {
            return None;
        },
    };
    // Both factors of `x4 = x2 · x2` are the same MLE, so their final values must agree.
    if proof.x4_x2x2.a_final != proof.x4_x2x2.b_final {
        return None;
    }
    let r4 = match verify_product(&proof.x2_at_r2_sinsin, &r2, proof.x4_x2x2.a_final, channel) {
        Some(r) => r,
        None => {
            return None;
        },
    };
    let r5 = match verify_product(&proof.x2_at_r3_sinsin, &r3, proof.x3_x2sin.a_final, channel) {
        Some(r) => r,
        None => {
            return None;
        },
    };
    if proof.x2_at_r2_sinsin.a_final != proof.x2_at_r2_sinsin.b_final {
        return None;
    }
    if proof.x2_at_r3_sinsin.a_final != proof.x2_at_r3_sinsin.b_final {
        return None;
    }
    // Three sin claims to discharge.
    let active = active_mle();
    let rc = rc_mle(permutation);
    let rs3 = match verify_product(&proof.sin_r3_check, &r3, proof.x3_x2sin.b_final, channel) {
        Some(r) => r,
        None => {
            return None;
        },
    };
    let claim3 = match derive_state_claim(permutation, &proof.sin_r3_check, &rs3, &active, &rc) {
        Some(c) => c,
        None => {
            return None;
        },
    };
    let rs4 = match verify_product(
        &proof.sin_r4_check,
        &r4,
        proof.x2_at_r2_sinsin.a_final,
        channel,
    ) {
        Some(r) => r,
        None => {
            return None;
        },
    };
    let claim4 = match derive_state_claim(permutation, &proof.sin_r4_check, &rs4, &active, &rc) {
        Some(c) => c,
        None => {
            return None;
        },
    };
    let rs5 = match verify_product(
        &proof.sin_r5_check,
        &r5,
        proof.x2_at_r3_sinsin.a_final,
        channel,
    ) {
        Some(r) => r,
        None => {
            return None;
        },
    };
    let claim5 = match derive_state_claim(permutation, &proof.sin_r5_check, &rs5, &active, &rc) {
        Some(c) => c,
        None => {
            return None;
        },
    };
    Some([claim3, claim4, claim5])
}

/// Honest verifier: squeezes the claim point `r₀`, asks `v0_provider` for `v₀ = sout_mle(r₀)`, and
/// walks the sumcheck chain with the prover.  Returns the three state-MLE claims on accept, `None` on
/// reject; the caller is responsible for discharging the claims.
pub fn verify_perm<T: FiatShamir<Block128>, F: FnOnce(&[Block128]) -> Block128>(
    permutation: &Poseidon2bPermutation,
    proof: &PermProof,
    channel: &mut T,
    v0_provider: F,
) -> (result: Option<[PermStateClaim; 3]>)
    requires
        forall|point: &[Block128]|
            point@ == claim_point::<T>(old(channel).state()) ==> #[trigger] call_requires(
                v0_provider,
                (point,),
            ),
    ensures
        exists|point: &[Block128], v0: Block128|
            {
                &&& point@ == claim_point::<T>(old(channel).state())
                &&& #[trigger] call_ensures(v0_provider, (point,), v0)
                &&& perm_verdict::<T>(
                    *permutation,
                    proof@,
                    point@,
                    v0,
                    claim_state::<T>(old(channel).state()),
                ) == (three_claims(result), final(channel).state())
            },
        result matches Some(c) ==> forall|i: int|
            0 <= i < 3 ==> (#[trigger] c@[i])@.point.len() == 9,
{
    let r0 = squeeze_many(channel, N_PERM_VARS);
    let point = r0.as_slice();
    let v0 = v0_provider(point);
    let result = verify_perm_at(permutation, proof, point, v0, channel);
    proof {
        assert(call_ensures(v0_provider, (point,), v0));
    }
    result
}

/// A permutation proof takes the bytes of its eight product proofs.
pub proof fn perm_sizes(proof: PermProofView)
    ensures
        perm_byte_len(proof) == product_sumcheck::product_byte_len(proof.sout_x4x3.rounds.len())
            + product_sumcheck::product_byte_len(proof.x4_x2x2.rounds.len())
            + product_sumcheck::product_byte_len(proof.x3_x2sin.rounds.len())
            + product_sumcheck::product_byte_len(proof.x2_at_r2_sinsin.rounds.len())
            + product_sumcheck::product_byte_len(proof.x2_at_r3_sinsin.rounds.len())
            + product_sumcheck::product_byte_len(proof.sin_r3_check.rounds.len())
            + product_sumcheck::product_byte_len(proof.sin_r4_check.rounds.len())
            + product_sumcheck::product_byte_len(proof.sin_r5_check.rounds.len()),
{
}

} // verus!
