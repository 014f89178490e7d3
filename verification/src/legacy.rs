//! Product-chain baseline for the fixed 59-permutation sequence.
//!
//! Each permutation is proved independently with eight nine-variable product sumchecks.  A final
//! batch-evaluation sumcheck collapses the resulting state claims to one terminal MLE evaluation.
use crate::batch_eval;
use crate::batch_eval::{
    prove_batch_eval, verify_batch_eval, BatchEvalProof, BatchEvalProofView, BatchEvalReduction,
    ClaimView, EvalClaim,
};
use crate::block128::Block128;
use crate::evaluate::evaluate_slice;
use crate::layers::evaluate_permutation;
use crate::mle;
use crate::mle_layout;
use crate::mle_layout::{pack_sout, PermMle, N_PERM_VARS};
use crate::parallel::map_range;
use crate::perm_sumcheck;
use crate::perm_sumcheck::{
    prove_perm_with_mle, verify_perm_at, PermProof, PermProofView, PermStateClaim,
};
use crate::permutation::Poseidon2bPermutation;
use crate::sequence;
use crate::sequence::{evaluate_sequence, SequenceInput, N_PERMUTATIONS};
use crate::soundness;
use crate::tables::copied;
use crate::tower_field::TowerField;
use crate::transcript;
use crate::transcript::{squeeze_many, FiatShamir};
use vstd::prelude::*;

verus! {

/// Smallest power of two at least `N_PERMUTATIONS`.
pub const N_PERMUTATIONS_PADDED: usize = 64;

/// Number of Boolean variables used to index the padded permutation axis.
pub const N_SEQUENCE_VARS: usize = 6;

/// Variables in the concatenated boundary MLE.
pub const N_BOUNDARY_VARS: usize = 15;

/// Cells in the concatenated boundary MLE.
pub const N_BOUNDARY_CELLS: usize = 32768;

/// Algebraic proof emitted by the product-chain baseline.
#[derive(Debug, Clone, PartialEq, Eq)]
pub struct LegacyProof {
    pub permutations: Vec<PermProof>,
    pub boundary: BatchEvalProof,
}

/// The contents of a product-chain proof.
pub struct LegacyProofView {
    /// One proof per permutation.
    pub permutations: Seq<PermProofView>,
    /// The proof that collapses the state claims.
    pub boundary: BatchEvalProofView,
}

/// The contents of a list of permutation proofs.
pub open spec fn perm_views(proofs: Seq<PermProof>) -> Seq<PermProofView> {
    Seq::new(proofs.len(), |i: int| proofs[i]@)
}

impl View for LegacyProof {
    type V = LegacyProofView;

    open spec fn view(&self) -> LegacyProofView {
        LegacyProofView {
            permutations: perm_views(self.permutations@),
            boundary: self.boundary@,
        }
    }
}

/// The sizes of a list of permutation proofs, added up.
pub open spec fn perms_byte_len(proofs: Seq<PermProofView>) -> nat
    decreases proofs.len(),
{
    if proofs.len() == 0 {
        0
    } else {
        perms_byte_len(proofs.drop_last()) + perm_sumcheck::perm_byte_len(proofs.last())
    }
}

/// The sumcheck rounds of a list of permutation proofs, added up.
pub open spec fn constraint_rounds(proofs: Seq<PermProofView>) -> nat
    decreases proofs.len(),
{
    if proofs.len() == 0 {
        0
    } else {
        constraint_rounds(proofs.drop_last()) + perm_sumcheck::perm_rounds(proofs.last())
    }
}

/// Wire size of a product-chain proof.
pub open spec fn legacy_byte_len(proof: LegacyProofView) -> nat {
    perms_byte_len(proof.permutations) + batch_eval::batch_byte_len(proof.boundary.rounds.len())
}

proof fn lemma_perms_prefix(proofs: Seq<PermProofView>, i: nat)
    requires
        i <= proofs.len(),
    ensures
        perms_byte_len(proofs.take(i as int)) <= perms_byte_len(proofs),
    decreases proofs.len(),
{
    if i == proofs.len() {
        assert(proofs.take(i as int) =~= proofs);
    } else {
        lemma_perms_prefix(proofs.drop_last(), i);
        assert(proofs.drop_last().take(i as int) =~= proofs.take(i as int));
    }
}

impl LegacyProof {
    /// Raw wire size: all permutation proofs and the boundary proof.
    pub fn byte_len(&self) -> (r: usize)
        requires
            legacy_byte_len(self@) <= usize::MAX,
        ensures
            r == legacy_byte_len(self@),
    {
        let ghost views = self@.permutations;
        let mut total: usize = 0;
        let mut i: usize = 0;
        while i < self.permutations.len()
            invariant
                i <= self.permutations.len(),
                views == self@.permutations,
                legacy_byte_len(self@) <= usize::MAX,
                total == perms_byte_len(views.take(i as int)),
            decreases self.permutations.len() - i,
        {
            proof {
                lemma_perms_prefix(views, (i + 1) as nat);
                assert(views.take(i + 1).drop_last() =~= views.take(i as int));
            }
            total = total + self.permutations[i].byte_len();
            i = i + 1;
        }
        proof {
            assert(views.take(i as int) =~= views);
        }
        total + self.boundary.byte_len()
    }
}

/// The input state of permutation `i`.
pub open spec fn input_of(
    permutation: Poseidon2bPermutation,
    initial: Seq<Block128>,
    i: int,
) -> Seq<Block128> {
    sequence::state_after(permutation, initial, i as nat)
}

/// The columns of permutation `i`.
pub open spec fn columns_of(
    permutation: Poseidon2bPermutation,
    initial: Seq<Block128>,
    i: int,
) -> mle_layout::PermColumns {
    mle_layout::perm_columns(permutation, input_of(permutation, initial, i))
}

/// The concatenated state columns; the blocks after the last permutation are zero.
pub open spec fn boundary_table(
    permutation: Poseidon2bPermutation,
    initial: Seq<Block128>,
) -> Seq<Block128> {
    Seq::new(
        32768,
        |x: int|
            if x / 512 < 59 {
                columns_of(permutation, initial, x / 512).state[x % 512]
            } else {
                Block128::nil()
            },
    )
}

/// The claim on the boundary table that corresponds to a claim on the state column of permutation
/// `index`.
pub open spec fn lifted(index: int, claim: ClaimView) -> ClaimView {
    ClaimView { point: claim.point + mle::vertex(index, 6), value: claim.value }
}

/// The claims of one permutation, lifted.
pub open spec fn lifted_all(index: int, claims: Seq<ClaimView>) -> Seq<ClaimView> {
    seq![lifted(index, claims[0]), lifted(index, claims[1]), lifted(index, claims[2])]
}

/// What the prover has done after some permutations.
pub struct ChainRun<S> {
    /// The proofs.
    pub proofs: Seq<PermProofView>,
    /// The lifted claims.
    pub claims: Seq<ClaimView>,
    /// The transcript state.
    pub state: S,
}

/// The first `i` permutations of the honest prover.
pub open spec fn chain_run<C: FiatShamir<Block128>>(
    permutation: Poseidon2bPermutation,
    initial: Seq<Block128>,
    state: C::State,
    i: nat,
) -> ChainRun<C::State>
    decreases i,
{
    if i == 0 {
        ChainRun { proofs: Seq::empty(), claims: Seq::empty(), state }
    } else {
        let prev = chain_run::<C>(permutation, initial, state, (i - 1) as nat);
        let step = perm_sumcheck::perm_run::<C>(
            permutation,
            columns_of(permutation, initial, i - 1),
            prev.state,
        );
        ChainRun {
            proofs: prev.proofs.push(step.proof),
            claims: prev.claims + lifted_all(i - 1, step.claims),
            state: step.state,
        }
    }
}

/// What the honest prover sends, its reduced claim, and its final transcript state.
pub open spec fn legacy_run<C: FiatShamir<Block128>>(
    permutation: Poseidon2bPermutation,
    initial: Seq<Block128>,
    digest: Seq<Block128>,
    state: C::State,
) -> (LegacyProofView, ClaimView, C::State) {
    let bound = transcript::absorb_seq::<Block128, C>(state, digest);
    let chain = chain_run::<C>(permutation, initial, bound, 59);
    let table = boundary_table(permutation, initial);
    (
        LegacyProofView {
            permutations: chain.proofs,
            boundary: batch_eval::batch_proof::<C>(table, chain.claims, 15, chain.state),
        },
        batch_eval::batch_reduction::<C>(table, chain.claims, 15, chain.state),
        batch_eval::batch_run::<C>(table, chain.claims, 15, chain.state).state,
    )
}

/// The outcome of the verifier after the first `i` permutations: the claims if all were accepted,
/// and the transcript state.
pub open spec fn chain_verdict<C: FiatShamir<Block128>>(
    permutation: Poseidon2bPermutation,
    initial: Seq<Block128>,
    proofs: Seq<PermProofView>,
    state: C::State,
    i: nat,
) -> (Option<Seq<ClaimView>>, C::State)
    decreases i,
{
    if i == 0 {
        (Some(Seq::empty()), state)
    } else {
        let prev = chain_verdict::<C>(permutation, initial, proofs, state, (i - 1) as nat);
        if prev.0 is None {
            prev
        } else {
            let r0 = perm_sumcheck::claim_point::<C>(prev.1);
            let verdict = perm_sumcheck::perm_verdict::<C>(
                permutation,
                proofs[i - 1],
                r0,
                mle::mle_eval(columns_of(permutation, initial, i - 1).sout, r0),
                perm_sumcheck::claim_state::<C>(prev.1),
            );
            if verdict.0 is None {
                (None, verdict.1)
            } else {
                (Some(prev.0->0 + lifted_all(i - 1, verdict.0->0)), verdict.1)
            }
        }
    }
}

/// The outcome of the verifier: the reduced claim if it accepts, and the transcript state that it is
/// left with.
pub open spec fn legacy_verdict<C: FiatShamir<Block128>>(
    permutation: Poseidon2bPermutation,
    initial: Seq<Block128>,
    digest: Seq<Block128>,
    proof: LegacyProofView,
    state: C::State,
) -> (Option<ClaimView>, C::State) {
    if proof.permutations.len() != 59 || digest != sequence::digest_of(permutation, initial) {
        (None, state)
    } else {
        let bound = transcript::absorb_seq::<Block128, C>(state, digest);
        let chain = chain_verdict::<C>(permutation, initial, proof.permutations, bound, 59);
        if chain.0 is None {
            (None, chain.1)
        } else {
            let claims = chain.0->0;
            (
                if batch_eval::batch_accepted::<C>(proof.boundary, claims, 15, chain.1) {
                    Some(batch_eval::batch_verified::<C>(proof.boundary, claims, chain.1))
                } else {
                    None
                },
                batch_eval::batch_verifier_state::<C>(proof.boundary, claims, 15, chain.1),
            )
        }
    }
}

/// The boundary table has `2^15` cells.
pub proof fn lemma_boundary_cells()
    ensures
        mle::cube(15) == 32768,
        mle::cube(6) == 64,
{
    mle_layout::lemma_cells();
    assert(mle::cube(6) == 64) by {
        reveal_with_fuel(mle::cube, 7);
    }
    mle::lemma_cube_sum(9, 6);
    assert(512 * 64 == 32768) by (nonlinear_arith);
}

/// Fixing the high variables to the bits of `index` selects a block of the table.
pub proof fn lemma_block<F: TowerField>(table: Seq<F>, point: Seq<F>, index: int, m: nat)
    requires
        table.len() == mle::cube(point.len() + m),
        0 <= index < mle::cube(m),
    ensures
        ({
            let size = mle::cube(point.len()) as int;
            &&& 0 <= index * size
            &&& index * size + size <= table.len()
            &&& mle::mle_eval(table, point + mle::vertex(index, m)) == mle::mle_eval(
                table.subrange(index * size, index * size + size),
                point,
            )
        }),
    decreases m,
{
    let size = mle::cube(point.len()) as int;
    let bits = mle::vertex::<F>(index, m);
    if m == 0 {
        assert(point + bits =~= point);
        assert(index * size == 0) by (nonlinear_arith)
            requires
                index == 0,
        ;
        assert(table.subrange(0, size) =~= table);
    } else {
        let m1 = (m - 1) as nat;
        let half = mle::cube(m1) as int;
        let low = if index < half {
            index
        } else {
            index - half
        };
        mle::lemma_vertex_top::<F>(index, m);
        mle::lemma_cube_sum(point.len(), m1);
        let whole = point + bits;
        let bound = mle::cube(point.len() + m1) as int;
        assert((point.len() + m - 1) as nat == point.len() + m1);
        assert(mle::cube(point.len() + m) == 2 * mle::cube(point.len() + m1));
        assert(whole.last() == bits.last());
        assert(whole.drop_last() =~= point + mle::vertex::<F>(low, m1));
        mle::lemma_fold_high(table, whole);
        mle::lemma_fold_bit(table);
        let part = mle::fold_high(table, whole.last());
        lemma_block(part, point, low, m1);
        assert(bound == size * half);
        assert(size * half == half * size) by (nonlinear_arith);
        assert((index - half) * size == index * size - half * size) by (nonlinear_arith);
        if index < half {
            assert(part.subrange(low * size, low * size + size) =~= table.subrange(
                index * size,
                index * size + size,
            ));
        } else {
            assert(part.subrange(low * size, low * size + size) =~= table.subrange(
                index * size,
                index * size + size,
            ));
        }
    }
}

/// A true claim on the state column of a permutation lifts to a true claim on the boundary table.
pub proof fn lifting_preserves_truth(
    permutation: Poseidon2bPermutation,
    initial: Seq<Block128>,
    index: int,
    point: Seq<Block128>,
)
    requires
        0 <= index < 59,
        point.len() == 9,
    ensures
        mle::mle_eval(boundary_table(permutation, initial), point + mle::vertex(index, 6))
            == mle::mle_eval(columns_of(permutation, initial, index).state, point),
{
    let table = boundary_table(permutation, initial);
    lemma_boundary_cells();
    mle_layout::lemma_cells();
    lemma_block(table, point, index, 6);
    let column = columns_of(permutation, initial, index).state;
    assert(table.subrange(index * 512, index * 512 + 512) =~= column);
}

/// The honest chain: shapes, truth of the lifted claims, and acceptance.
proof fn lemma_chain<C: FiatShamir<Block128>>(
    permutation: Poseidon2bPermutation,
    initial: Seq<Block128>,
    state: C::State,
    proofs: Seq<PermProofView>,
    i: nat,
)
    requires
        i <= 59,
        proofs.len() >= i,
        forall|k: int|
            0 <= k < i ==> #[trigger] proofs[k] == chain_run::<C>(
                permutation,
                initial,
                state,
                (k + 1) as nat,
            ).proofs[k],
    ensures
        ({
            let now = chain_run::<C>(permutation, initial, state, i);
            let table = boundary_table(permutation, initial);
            &&& now.proofs.len() == i
            &&& now.claims.len() == 3 * i
            &&& forall|k: int|
                0 <= k < now.claims.len() ==> (#[trigger] now.claims[k]).point.len() == 15
                    && now.claims[k].value == mle::mle_eval(table, now.claims[k].point)
            &&& chain_verdict::<C>(permutation, initial, proofs, state, i) == (
                Some(now.claims),
                now.state,
            )
            &&& perms_byte_len(now.proofs) == i * 4864
            &&& constraint_rounds(now.proofs) == i * 72
        }),
    decreases i,
{
    let table = boundary_table(permutation, initial);
    let now = chain_run::<C>(permutation, initial, state, i);
    if i > 0 {
        let prev = chain_run::<C>(permutation, initial, state, (i - 1) as nat);
        lemma_chain::<C>(permutation, initial, state, proofs, (i - 1) as nat);
        let c = columns_of(permutation, initial, i - 1);
        let step = perm_sumcheck::perm_run::<C>(permutation, c, prev.state);
        perm_sumcheck::perm_completeness::<C>(permutation, c, prev.state);
        assert(proofs[i - 1] == now.proofs[i - 1]);
        assert forall|k: int| 0 <= k < now.claims.len() implies (#[trigger] now.claims[k]).point.len()
            == 15 && now.claims[k].value == mle::mle_eval(table, now.claims[k].point) by {
            if k < prev.claims.len() {
                assert(now.claims[k] == prev.claims[k]);
            } else {
                let j = k - prev.claims.len();
                assert(now.claims[k] == lifted(i - 1, step.claims[j]));
                lifting_preserves_truth(permutation, initial, i - 1, step.claims[j].point);
            }
        }
        assert(now.proofs.drop_last() =~= prev.proofs);
    }
}

/// Earlier proofs of the honest chain are a prefix of later ones.
proof fn lemma_chain_prefix<C: FiatShamir<Block128>>(
    permutation: Poseidon2bPermutation,
    initial: Seq<Block128>,
    state: C::State,
    k: nat,
    i: nat,
)
    requires
        k < i,
    ensures
        chain_run::<C>(permutation, initial, state, i).proofs.len() == i,
        chain_run::<C>(permutation, initial, state, i).proofs[k as int] == chain_run::<C>(
            permutation,
            initial,
            state,
            k + 1,
        ).proofs[k as int],
    decreases i,
{
    lemma_chain_len::<C>(permutation, initial, state, i);
    if k + 1 < i {
        lemma_chain_prefix::<C>(permutation, initial, state, k, (i - 1) as nat);
    }
}

proof fn lemma_chain_len<C: FiatShamir<Block128>>(
    permutation: Poseidon2bPermutation,
    initial: Seq<Block128>,
    state: C::State,
    i: nat,
)
    ensures
        chain_run::<C>(permutation, initial, state, i).proofs.len() == i,
    decreases i,
{
    if i > 0 {
        lemma_chain_len::<C>(permutation, initial, state, (i - 1) as nat);
    }
}

/// Completeness: the verifier accepts the honest proof of the true digest, ends in the prover's
/// transcript state and derives the prover's reduced claim, which is true of the boundary table.
/// The proof takes 287,712 bytes: 4,248 rounds for the permutations and 4,263 in all.
pub proof fn legacy_completeness<C: FiatShamir<Block128>>(
    permutation: Poseidon2bPermutation,
    initial: Seq<Block128>,
    state: C::State,
)
    ensures
        ({
            let digest = sequence::digest_of(permutation, initial);
            let (proof, reduced, end) = legacy_run::<C>(permutation, initial, digest, state);
            &&& legacy_verdict::<C>(permutation, initial, digest, proof, state) == (
                Some(reduced),
                end,
            )
            &&& reduced.point.len() == 15
            &&& reduced.value == mle::mle_eval(boundary_table(permutation, initial), reduced.point)
            &&& legacy_byte_len(proof) == 287712
            &&& constraint_rounds(proof.permutations) == 4248
            &&& constraint_rounds(proof.permutations) + proof.boundary.rounds.len() == 4263
        }),
{
    let digest = sequence::digest_of(permutation, initial);
    let bound = transcript::absorb_seq::<Block128, C>(state, digest);
    let chain = chain_run::<C>(permutation, initial, bound, 59);
    let table = boundary_table(permutation, initial);
    assert forall|k: int| 0 <= k < 59 implies #[trigger] chain.proofs[k] == chain_run::<C>(
        permutation,
        initial,
        bound,
        (k + 1) as nat,
    ).proofs[k] by {
        lemma_chain_prefix::<C>(permutation, initial, bound, k as nat, 59);
    }
    lemma_chain_len::<C>(permutation, initial, bound, 59);
    lemma_chain::<C>(permutation, initial, bound, chain.proofs, 59);
    lemma_boundary_cells();
    batch_eval::batch_completeness::<C>(table, chain.claims, 15, chain.state);
}

/// A proof is only accepted for the true digest.
pub proof fn wrong_digest_is_rejected<C: FiatShamir<Block128>>(
    permutation: Poseidon2bPermutation,
    initial: Seq<Block128>,
    digest: Seq<Block128>,
    proof: LegacyProofView,
    state: C::State,
)
    requires
        digest != sequence::digest_of(permutation, initial),
    ensures
        legacy_verdict::<C>(permutation, initial, digest, proof, state) == (None::<ClaimView>, state),
{
}

/// The blocks of the boundary table after the last permutation are zero.
pub proof fn padding_blocks_are_zero(
    permutation: Poseidon2bPermutation,
    initial: Seq<Block128>,
    index: int,
    point: Seq<Block128>,
)
    requires
        59 <= index < 64,
        point.len() == 9,
    ensures
        mle::mle_eval(boundary_table(permutation, initial), point + mle::vertex(index, 6))
            == Block128::nil(),
{
    let table = boundary_table(permutation, initial);
    lemma_boundary_cells();
    mle_layout::lemma_cells();
    lemma_block(table, point, index, 6);
    let block = table.subrange(index * 512, index * 512 + 512);
    let terms = crate::sums::seq_times(mle::eq_table(point), block);
    assert forall|j: int| 0 <= j < terms.len() implies #[trigger] terms[j] == Block128::nil() by {
        assert(block[j] == Block128::nil());
        crate::algebra::lemma_times_nil(mle::eq_table(point)[j]);
    }
    crate::sums::lemma_total_zero(terms);
}

/// Every permutation of an accepted chain is checked: permutation `i` is accepted at the next nine
/// challenges, for the value of its own S-box output column there, in the transcript state that the
/// ones before leave, and its three claims, with the bits of `i` appended to their points, are the
/// claims `3 i` to `3 i + 2` of the chain.
pub proof fn every_permutation_is_checked<C: FiatShamir<Block128>>(
    permutation: Poseidon2bPermutation,
    initial: Seq<Block128>,
    proofs: Seq<PermProofView>,
    state: C::State,
    i: nat,
    n: nat,
)
    requires
        i < n,
        chain_verdict::<C>(permutation, initial, proofs, state, n).0 is Some,
    ensures
        ({
            let before = chain_verdict::<C>(permutation, initial, proofs, state, i);
            let after = chain_verdict::<C>(permutation, initial, proofs, state, i + 1);
            let all = chain_verdict::<C>(permutation, initial, proofs, state, n).0->0;
            let input = sequence::state_after(permutation, initial, i);
            let sout = mle_layout::perm_columns(permutation, input).sout;
            let r0 = perm_sumcheck::claim_point::<C>(before.1);
            let verdict = perm_sumcheck::perm_verdict::<C>(
                permutation,
                proofs[i as int],
                r0,
                mle::mle_eval(sout, r0),
                perm_sumcheck::claim_state::<C>(before.1),
            );
            &&& before.0 is Some
            &&& verdict.0 is Some
            &&& after.1 == verdict.1
            &&& all.len() == 3 * n
            &&& forall|j: int|
                0 <= j < 3 ==> {
                    &&& (#[trigger] all[3 * i + j]).point == verdict.0->0[j].point + mle::vertex(
                        i as int,
                        6,
                    )
                    &&& all[3 * i + j].value == verdict.0->0[j].value
                }
        }),
    decreases n,
{
    let m = (n - 1) as nat;
    let prev = chain_verdict::<C>(permutation, initial, proofs, state, m);
    let all = chain_verdict::<C>(permutation, initial, proofs, state, n).0->0;
    lemma_chain_claims::<C>(permutation, initial, proofs, state, n);
    lemma_chain_claims::<C>(permutation, initial, proofs, state, m);
    if i < m {
        every_permutation_is_checked::<C>(permutation, initial, proofs, state, i, m);
        assert forall|j: int| 0 <= j < 3 implies #[trigger] all[3 * i + j] == prev.0->0[3 * i
            + j] by {}
    }
}

proof fn lemma_chain_claims<C: FiatShamir<Block128>>(
    permutation: Poseidon2bPermutation,
    initial: Seq<Block128>,
    proofs: Seq<PermProofView>,
    state: C::State,
    n: nat,
)
    ensures
        chain_verdict::<C>(permutation, initial, proofs, state, n).0 matches Some(claims)
            ==> claims.len() == 3 * n,
    decreases n,
{
    if n > 0 {
        lemma_chain_claims::<C>(permutation, initial, proofs, state, (n - 1) as nat);
    }
}

/// What accepting a product-chain proof means: it has 59 permutation proofs, the digest is that of the
/// sequence, all permutations are accepted once the digest is on the transcript, and the boundary batch
/// is accepted for all their claims.  The reduction is the one of that batch.
pub proof fn legacy_acceptance<C: FiatShamir<Block128>>(
    permutation: Poseidon2bPermutation,
    initial: Seq<Block128>,
    digest: Seq<Block128>,
    proof: LegacyProofView,
    state: C::State,
)
    ensures
        ({
            let verdict = legacy_verdict::<C>(permutation, initial, digest, proof, state);
            let chain = chain_verdict::<C>(
                permutation,
                initial,
                proof.permutations,
                transcript::absorb_seq::<Block128, C>(state, digest),
                59,
            );
            let good = {
                &&& proof.permutations.len() == 59
                &&& digest == sequence::digest_of(permutation, initial)
                &&& chain.0 is Some
                &&& (chain.0->0).len() == 177
                &&& batch_eval::batch_accepted::<C>(proof.boundary, chain.0->0, 15, chain.1)
            };
            &&& verdict.0 is Some <==> good
            &&& good ==> verdict.0->0 == batch_eval::batch_verified::<C>(
                proof.boundary,
                chain.0->0,
                chain.1,
            )
            &&& good ==> verdict.1 == batch_eval::batch_verifier_state::<C>(
                proof.boundary,
                chain.0->0,
                15,
                chain.1,
            )
        }),
{
    lemma_chain_claims::<C>(
        permutation,
        initial,
        proof.permutations,
        transcript::absorb_seq::<Block128, C>(state, digest),
        59,
    );
}

/// Changing the final value of the boundary batch of an accepted proof makes the verifier reject,
/// unless the weight of that value is zero.
pub proof fn tampered_boundary_is_rejected<C: FiatShamir<Block128>>(
    permutation: Poseidon2bPermutation,
    initial: Seq<Block128>,
    digest: Seq<Block128>,
    proof: LegacyProofView,
    other: LegacyProofView,
    state: C::State,
)
    requires
        legacy_verdict::<C>(permutation, initial, digest, proof, state).0 is Some,
        other.permutations == proof.permutations,
        other.boundary.rounds == proof.boundary.rounds,
        other.boundary.b_final != proof.boundary.b_final,
        ({
            let chain = chain_verdict::<C>(
                permutation,
                initial,
                proof.permutations,
                transcript::absorb_seq::<Block128, C>(state, digest),
                59,
            );
            batch_eval::final_weight::<C>(proof.boundary.rounds, chain.0->0, chain.1)
                != Block128::nil()
        }),
    ensures
        legacy_verdict::<C>(permutation, initial, digest, other, state).0 is None,
{
    legacy_acceptance::<C>(permutation, initial, digest, proof, state);
    legacy_acceptance::<C>(permutation, initial, digest, other, state);
    let chain = chain_verdict::<C>(
        permutation,
        initial,
        proof.permutations,
        transcript::absorb_seq::<Block128, C>(state, digest),
        59,
    );
    if legacy_verdict::<C>(permutation, initial, digest, other, state).0 is Some {
        batch_eval::batch_final_is_bound::<C>(
            proof.boundary,
            other.boundary,
            chain.0->0,
            15,
            chain.1,
        );
    }
}

/// Soundness of the product chain: if the verifier accepts and its reduction is true of the boundary
/// table, the claims of all 59 permutations combine to the value of the true ones, by coefficients
/// taken from the transcript once all of them are bound, or some round of the boundary batch is lucky.
pub proof fn legacy_soundness<C: FiatShamir<Block128>>(
    permutation: Poseidon2bPermutation,
    initial: Seq<Block128>,
    digest: Seq<Block128>,
    proof: LegacyProofView,
    state: C::State,
)
    requires
        legacy_verdict::<C>(permutation, initial, digest, proof, state).0 matches Some(reduced)
            && reduced.value == mle::mle_eval(
            boundary_table(permutation, initial),
            reduced.point,
        ),
    ensures
        ({
            let table = boundary_table(permutation, initial);
            let chain = chain_verdict::<C>(
                permutation,
                initial,
                proof.permutations,
                transcript::absorb_seq::<Block128, C>(state, digest),
                59,
            );
            let claims = chain.0->0;
            let coeffs = batch_eval::alphas::<C>(claims, chain.1);
            &&& chain.0 is Some
            &&& claims.len() == 177
            &&& batch_eval::combined_value(claims, coeffs) == batch_eval::combined_value(
                soundness::true_claims(table, claims),
                coeffs,
            ) || soundness::lucky_batch::<C>(table, claims, 15, proof.boundary, chain.1)
        }),
{
    legacy_acceptance::<C>(permutation, initial, digest, proof, state);
    lemma_boundary_cells();
    let chain = chain_verdict::<C>(
        permutation,
        initial,
        proof.permutations,
        transcript::absorb_seq::<Block128, C>(state, digest),
        59,
    );
    soundness::batch_soundness::<C>(
        boundary_table(permutation, initial),
        chain.0->0,
        15,
        proof.boundary,
        chain.1,
    );
}

/// Build the concatenated state-column MLE.
pub fn build_boundary_mle(
    permutation: &Poseidon2bPermutation,
    states: &[([Block128; 4], [Block128; 4])],
) -> (boundary: Vec<Block128>)
    requires
        states@.len() == 59,
    ensures
        boundary@ == Seq::new(
            32768,
            |x: int|
                if x / 512 < 59 {
                    mle_layout::state_column(*permutation, states@[x / 512].0@)[x % 512]
                } else {
                    Block128::nil()
                },
        ),
{
    let column = |index: usize| -> (mle: PermMle)
        requires
            index < states@.len(),
        ensures
            mle@ == mle_layout::perm_columns(*permutation, states@[index as int].0@),
        { columns_for(permutation, states[index].0) };
    let mles: Vec<PermMle> = map_range(N_PERMUTATIONS, 2, column);
    let ghost inputs = Seq::new(59, |i: int| states@[i].0@);
    let boundary = assemble_boundary_mle(permutation, &mles, Ghost(inputs));
    proof {
        assert(boundary@ =~= Seq::new(
            32768,
            |x: int|
                if x / 512 < 59 {
                    mle_layout::state_column(*permutation, states@[x / 512].0@)[x % 512]
                } else {
                    Block128::nil()
                },
        ));
    }
    boundary
}

/// The columns of the permutation of `state_in`.
fn columns_for(permutation: &Poseidon2bPermutation, state_in: [Block128; 4]) -> (mle: PermMle)
    ensures
        mle@ == mle_layout::perm_columns(*permutation, state_in@),
{
    let witness = evaluate_permutation(permutation, state_in);
    PermMle::from_witness(permutation, state_in, &witness)
}

/// The S-box output column of the permutation of `state_in`.
fn sout_for(permutation: &Poseidon2bPermutation, state_in: [Block128; 4]) -> (sout: Vec<Block128>)
    ensures
        sout@ == mle_layout::perm_columns(*permutation, state_in@).sout,
        sout@.len() == 512,
{
    let witness = evaluate_permutation(permutation, state_in);
    pack_sout(permutation, state_in, &witness)
}

/// Concatenate the state columns of 59 permutations and pad with zeros.
fn assemble_boundary_mle(
    permutation: &Poseidon2bPermutation,
    mles: &Vec<PermMle>,
    inputs: Ghost<Seq<Seq<Block128>>>,
) -> (boundary: Vec<Block128>)
    requires
        mles@.len() == 59,
        inputs@.len() == 59,
        forall|i: int|
            0 <= i < 59 ==> (#[trigger] mles@[i])@ == mle_layout::perm_columns(
                *permutation,
                inputs@[i],
            ),
    ensures
        boundary@ == Seq::new(
            32768,
            |x: int|
                if x / 512 < 59 {
                    mle_layout::state_column(*permutation, inputs@[x / 512])[x % 512]
                } else {
                    Block128::nil()
                },
        ),
{
    let ghost want = Seq::new(
        32768,
        |x: int|
            if x / 512 < 59 {
                mle_layout::state_column(*permutation, inputs@[x / 512])[x % 512]
            } else {
                Block128::nil()
            },
    );
    let mut boundary: Vec<Block128> = Vec::with_capacity(N_BOUNDARY_CELLS);
    let mut x: usize = 0;
    while x < 32768
        invariant
            x <= 32768,
            mles@.len() == 59,
            inputs@.len() == 59,
            forall|i: int|
                0 <= i < 59 ==> (#[trigger] mles@[i])@ == mle_layout::perm_columns(
                    *permutation,
                    inputs@[i],
                ),
            boundary@.len() == x,
            forall|k: int|
                0 <= k < x ==> boundary@[k] == if k / 512 < 59 {
                    mle_layout::state_column(*permutation, inputs@[k / 512])[k % 512]
                } else {
                    Block128::nil()
                },
        decreases 32768 - x,
    {
        let block: usize = x / 512;
        if block < 59 {
            proof {
                assert(mles@[block as int]@.state == mle_layout::state_column(
                    *permutation,
                    inputs@[block as int],
                ));
            }
            boundary.push(mles[block].state[x % 512]);
        } else {
            boundary.push(Block128::zero());
        }
        x = x + 1;
    }
    proof {
        assert(boundary@ =~= want);
    }
    boundary
}

/// The coordinates of a permutation index.
fn sequence_index_to_bits(index: usize) -> (bits: Vec<Block128>)
    requires
        index < 64,
    ensures
        bits@ == mle::vertex::<Block128>(index as int, 6),
{
    let mut bits: Vec<Block128> = Vec::with_capacity(N_SEQUENCE_VARS);
    let mut rest: usize = index;
    let mut i: usize = 0;
    assert(mle::cube(0) == 1);
    while i < 6
        invariant
            i <= 6,
            rest == index as int / (mle::cube(i as nat) as int),
            bits@ == mle::vertex::<Block128>(index as int, 6).take(i as int),
        decreases 6 - i,
    {
        bits.push(
            if rest % 2 == 1 {
                Block128::one()
            } else {
                Block128::zero()
            },
        );
        proof {
            let size = mle::cube(i as nat) as int;
            mle::lemma_cube_monotone(i as nat, i as nat);
            vstd::arithmetic::div_mod::lemma_div_denominator(index as int, size, 2);
            assert(mle::cube((i + 1) as nat) == 2 * size);
            assert(bits@ =~= mle::vertex::<Block128>(index as int, 6).take(i + 1));
        }
        rest = rest / 2;
        i = i + 1;
    }
    proof {
        assert(bits@ =~= mle::vertex::<Block128>(index as int, 6));
    }
    bits
}

/// Lift a claim on a state column to the boundary table.
fn lift_claim(index: usize, claim: &PermStateClaim) -> (out: EvalClaim)
    requires
        index < 64,
        claim.point@.len() == 9,
    ensures
        out@ == lifted(index as int, claim@),
{
    let bits = sequence_index_to_bits(index);
    let mut point = copied(&claim.point);
    let mut i: usize = 0;
    while i < bits.len()
        invariant
            i <= bits.len(),
            point@ == claim.point@ + bits@.take(i as int),
        decreases bits.len() - i,
    {
        point.push(bits[i]);
        i = i + 1;
        proof {
            assert(point@ =~= claim.point@ + bits@.take(i as int));
        }
    }
    proof {
        assert(bits@.take(i as int) =~= bits@);
    }
    EvalClaim { point, value: claim.value }
}

/// Bind the digest to the transcript.
pub fn absorb_digest<T: FiatShamir<Block128>>(channel: &mut T, digest: &[Block128; 2])
    ensures
        final(channel).state() == transcript::absorb_seq::<Block128, T>(
            old(channel).state(),
            digest@,
        ),
{
    transcript::absorb_slice(channel, digest.as_slice());
}

/// Append the lifted claims of one permutation.
fn push_lifted(claims: &mut Vec<EvalClaim>, index: usize, state_claims: &[PermStateClaim; 3])
    requires
        index < 64,
        forall|i: int| 0 <= i < 3 ==> (#[trigger] state_claims@[i])@.point.len() == 9,
    ensures
        batch_eval::claim_views(final(claims)@) == batch_eval::claim_views(old(claims)@)
            + lifted_all(
            index as int,
            seq![state_claims@[0]@, state_claims@[1]@, state_claims@[2]@],
        ),
        final(claims)@.len() == old(claims)@.len() + 3,
{
    let ghost before = claims@;
    proof {
        assert(state_claims@[0]@.point.len() == 9);
        assert(state_claims@[1]@.point.len() == 9);
        assert(state_claims@[2]@.point.len() == 9);
    }
    claims.push(lift_claim(index, &state_claims[0]));
    claims.push(lift_claim(index, &state_claims[1]));
    claims.push(lift_claim(index, &state_claims[2]));
    proof {
        assert(batch_eval::claim_views(claims@) =~= batch_eval::claim_views(before) + lifted_all(
            index as int,
            seq![state_claims@[0]@, state_claims@[1]@, state_claims@[2]@],
        ));
    }
}

/// Prove the fixed sequence with the product-chain baseline.
pub fn prove_legacy<T: FiatShamir<Block128>>(
    permutation: &Poseidon2bPermutation,
    input: &SequenceInput,
    claimed_digest: [Block128; 2],
    channel: &mut T,
) -> (result: (LegacyProof, BatchEvalReduction))
    ensures
        (result.0@, result.1@, final(channel).state()) == legacy_run::<T>(
            *permutation,
            input.initial_state@,
            claimed_digest@,
            old(channel).state(),
        ),
{
    let ghost initial = input.initial_state@;
    let witness = evaluate_sequence(permutation, input);
    absorb_digest(channel, &claimed_digest);
    let ghost bound = channel.state();
    let column = |index: usize| -> (mle: PermMle)
        requires
            index < witness.states@.len(),
        ensures
            mle@ == mle_layout::perm_columns(*permutation, witness.states@[index as int].0@),
        { columns_for(permutation, witness.states[index].0) };
    let mles: Vec<PermMle> = map_range(N_PERMUTATIONS, 2, column);
    proof {
        assert forall|i: int| 0 <= i < 59 implies (#[trigger] mles@[i])@ == columns_of(
            *permutation,
            initial,
            i,
        ) by {
            assert(witness.states@[i].0@ == input_of(*permutation, initial, i));
        }
    }
    let mut proofs: Vec<PermProof> = Vec::with_capacity(N_PERMUTATIONS);
    let mut claims: Vec<EvalClaim> = Vec::with_capacity(N_PERMUTATIONS * 3);
    proof {
        assert(perm_views(proofs@) =~= Seq::empty());
        assert(batch_eval::claim_views(claims@) =~= Seq::empty());
    }
    let mut i: usize = 0;
    while i < 59
        invariant
            i <= 59,
            mles@.len() == 59,
            forall|k: int|
                0 <= k < 59 ==> (#[trigger] mles@[k])@ == columns_of(*permutation, initial, k),
            ({
                let now = chain_run::<T>(*permutation, initial, bound, i as nat);
                &&& now.proofs == perm_views(proofs@)
                &&& now.claims == batch_eval::claim_views(claims@)
                &&& now.state == channel.state()
            }),
            claims@.len() == 3 * i,
            forall|k: int| 0 <= k < claims@.len() ==> (#[trigger] claims@[k])@.point.len() == 15,
        decreases 59 - i,
    {
        let ghost before = proofs@;
        let ghost now = chain_run::<T>(*permutation, initial, bound, i as nat);
        let ghost c = columns_of(*permutation, initial, i as int);
        let ghost old_claims = claims@;
        proof {
            assert(mles@[i as int]@ == c);
            perm_sumcheck::perm_completeness::<T>(*permutation, c, channel.state());
        }
        let (perm_proof, _r0, _v0, state_claims) = prove_perm_with_mle(
            permutation,
            &mles[i],
            channel,
        );
        let ghost step = perm_sumcheck::perm_run::<T>(*permutation, c, now.state);
        proof {
            assert(state_claims@[0]@ == step.claims[0]);
            assert(state_claims@[1]@ == step.claims[1]);
            assert(state_claims@[2]@ == step.claims[2]);
        }
        proofs.push(perm_proof);
        push_lifted(&mut claims, i, &state_claims);
        proof {
            assert(perm_views(proofs@) =~= perm_views(before).push(perm_proof@));
            let next = chain_run::<T>(*permutation, initial, bound, (i + 1) as nat);
            assert(lifted_all(i as int, step.claims) =~= lifted_all(
                i as int,
                seq![state_claims@[0]@, state_claims@[1]@, state_claims@[2]@],
            ));
            assert forall|k: int| 0 <= k < claims@.len() implies (#[trigger] claims@[k])@.point.len()
                == 15 by {
                assert(claims@[k]@ == batch_eval::claim_views(claims@)[k]);
                if k < old_claims.len() {
                    assert(batch_eval::claim_views(old_claims)[k] == old_claims[k]@);
                }
            }
        }
        i = i + 1;
    }
    let ghost inputs = Seq::new(59, |k: int| input_of(*permutation, initial, k));
    let boundary_mle = assemble_boundary_mle(permutation, &mles, Ghost(inputs));
    proof {
        lemma_boundary_cells();
        assert(boundary_mle@ =~= boundary_table(*permutation, initial));
        assert(claims@[0]@.point.len() == 15);
    }
    let (boundary, reduction) = prove_batch_eval(&boundary_mle, &claims, channel);
    (LegacyProof { permutations: proofs, boundary }, reduction)
}

/// Verify the product-chain baseline and return its terminal MLE reduction.
pub fn verify_legacy<T: FiatShamir<Block128>>(
    permutation: &Poseidon2bPermutation,
    proof: &LegacyProof,
    input: &SequenceInput,
    claimed_digest: [Block128; 2],
    channel: &mut T,
) -> (result: Option<BatchEvalReduction>)
    ensures
        legacy_verdict::<T>(
            *permutation,
            input.initial_state@,
            claimed_digest@,
            proof@,
            old(channel).state(),
        ) == (
            match result {
                Some(reduction) => Some(reduction@),
                None => None,
            },
            final(channel).state(),
        ),
        result matches Some(reduction) ==> reduction@.point.len() == 15,
{
    let ghost initial = input.initial_state@;
    if proof.permutations.len() != 59 {
        return None;
    }
    let witness = evaluate_sequence(permutation, input);
    let ghost want = sequence::digest_of(*permutation, initial);
    if witness.final_state[0] != claimed_digest[0] || witness.final_state[1] != claimed_digest[1] {
        proof {
            assert(claimed_digest@[0] != want[0] || claimed_digest@[1] != want[1]);
        }
        return None;
    }
    proof {
        assert(claimed_digest@ =~= want);
    }
    absorb_digest(channel, &claimed_digest);
    let ghost bound = channel.state();
    let column = |index: usize| -> (sout: Vec<Block128>)
        requires
            index < witness.states@.len(),
        ensures
            sout@ == mle_layout::perm_columns(*permutation, witness.states@[index as int].0@).sout,
            sout@.len() == 512,
        { sout_for(permutation, witness.states[index].0) };
    let souts: Vec<Vec<Block128>> = map_range(N_PERMUTATIONS, 2, column);
    proof {
        assert forall|i: int| 0 <= i < 59 implies (#[trigger] souts@[i])@ == columns_of(
            *permutation,
            initial,
            i,
        ).sout && souts@[i]@.len() == 512 by {
            assert(witness.states@[i].0@ == input_of(*permutation, initial, i));
        }
    }
    let ghost views = proof@.permutations;
    let mut claims: Vec<EvalClaim> = Vec::with_capacity(N_PERMUTATIONS * 3);
    proof {
        assert(batch_eval::claim_views(claims@) =~= Seq::empty());
    }
    let mut i: usize = 0;
    while i < 59
        invariant
            i <= 59,
            proof.permutations.len() == 59,
            views == proof@.permutations,
            initial == input.initial_state@,
            claimed_digest@ == sequence::digest_of(*permutation, initial),
            bound == transcript::absorb_seq::<Block128, T>(old(channel).state(), claimed_digest@),
            souts@.len() == 59,
            forall|k: int|
                0 <= k < 59 ==> (#[trigger] souts@[k])@ == columns_of(
                    *permutation,
                    initial,
                    k,
                ).sout && souts@[k]@.len() == 512,
            chain_verdict::<T>(*permutation, initial, views, bound, i as nat) == (
                Some(batch_eval::claim_views(claims@)),
                channel.state(),
            ),
        decreases 59 - i,
    {
        proof {
            mle_layout::lemma_cells();
            assert(views[i as int] == proof.permutations@[i as int]@);
            assert(souts@[i as int]@.len() == 512);
        }
        let ghost prev = chain_verdict::<T>(*permutation, initial, views, bound, i as nat);
        let r0 = squeeze_many(channel, N_PERM_VARS);
        let v0 = evaluate_slice(&souts[i], &r0);
        let outcome = verify_perm_at(permutation, &proof.permutations[i], &r0, v0, channel);
        let ghost next = chain_verdict::<T>(*permutation, initial, views, bound, (i + 1) as nat);
        match outcome {
            Some(state_claims) => {
                push_lifted(&mut claims, i, &state_claims);
            },
            None => {
                proof {
                    lemma_chain_stops::<T>(
                        *permutation,
                        initial,
                        views,
                        bound,
                        (i + 1) as nat,
                        59,
                    );
                }
                return None;
            },
        }
        i = i + 1;
    }
    verify_batch_eval(&proof.boundary, &claims, N_BOUNDARY_VARS, channel)
}

/// Once a permutation has been rejected the outcome does not change.
proof fn lemma_chain_stops<C: FiatShamir<Block128>>(
    permutation: Poseidon2bPermutation,
    initial: Seq<Block128>,
    proofs: Seq<PermProofView>,
    state: C::State,
    i: nat,
    n: nat,
)
    requires
        i <= n,
        chain_verdict::<C>(permutation, initial, proofs, state, i).0 is None,
    ensures
        chain_verdict::<C>(permutation, initial, proofs, state, n) == chain_verdict::<C>(
            permutation,
            initial,
            proofs,
            state,
            i,
        ),
    decreases n - i,
{
    if i < n {
        lemma_chain_stops::<C>(permutation, initial, proofs, state, i, (n - 1) as nat);
    }
}

/// Evaluate the terminal baseline reduction directly.
pub fn discharge_legacy_native(
    permutation: &Poseidon2bPermutation,
    input: &SequenceInput,
    reduction: &BatchEvalReduction,
) -> (holds: bool)
    requires
        reduction@.point.len() == 15,
    ensures
        holds <==> reduction@.value == mle::mle_eval(
            boundary_table(*permutation, input.initial_state@),
            reduction@.point,
        ),
{
    let witness = evaluate_sequence(permutation, input);
    let boundary = build_boundary_mle(permutation, &witness.states);
    proof {
        lemma_boundary_cells();
        let table = boundary_table(*permutation, input.initial_state@);
        assert forall|x: int| 0 <= x < 32768 implies #[trigger] boundary@[x] == table[x] by {
            if x / 512 < 59 {
                assert(witness.states@[x / 512].0@ == input_of(
                    *permutation,
                    input.initial_state@,
                    x / 512,
                ));
            }
        }
        assert(boundary@ =~= table);
    }
    evaluate_slice(&boundary, &reduction.point) == reduction.value
}

/// One more permutation proof adds its own bytes and rounds to a product-chain proof.
pub proof fn legacy_sizes(proof: LegacyProofView, next: PermProofView)
    ensures
        ({
            let more = LegacyProofView {
                permutations: proof.permutations.push(next),
                boundary: proof.boundary,
            };
            let none = LegacyProofView {
                permutations: Seq::empty(),
                boundary: proof.boundary,
            };
            &&& legacy_byte_len(more) == legacy_byte_len(proof) + perm_sumcheck::perm_byte_len(next)
            &&& legacy_byte_len(none) == batch_eval::batch_byte_len(proof.boundary.rounds.len())
            &&& constraint_rounds(more.permutations) == constraint_rounds(proof.permutations)
                + perm_sumcheck::perm_rounds(next)
        }),
{
    assert(proof.permutations.push(next).drop_last() =~= proof.permutations);
}

/// The boundary table holds the state columns of the sequence, one block of 512 cells after the other,
/// and zeros after the last: whatever states follow each other by the permutation.
pub proof fn boundary_holds_the_sequence(
    permutation: Poseidon2bPermutation,
    states: Seq<Seq<Block128>>,
    block: int,
    cell: int,
)
    requires
        states.len() == 60,
        forall|i: int|
            0 <= i < 59 ==> states[i + 1] == permutation.permuted(#[trigger] states[i]),
        0 <= block < 64,
        0 <= cell < 512,
    ensures
        boundary_table(permutation, states[0]).len() == 32768,
        boundary_table(permutation, states[0])[512 * block + cell] == if block < 59 {
            mle_layout::perm_columns(permutation, states[block]).state[cell]
        } else {
            Block128::nil()
        },
{
    let x = 512 * block + cell;
    assert(x / 512 == block && x % 512 == cell);
    if block < 59 {
        sequence::lemma_state_after(permutation, states, block as nat);
    }
}

} // verus!
