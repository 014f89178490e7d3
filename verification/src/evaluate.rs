//! Multilinear polynomial evaluation over the boolean hypercube.
use crate::block128::Block128;
use crate::fold::fold_highest_var_inplace;
use crate::mle;
use crate::packed::{fold_packed, pack_slice, unpack, PackedBlock128, PACKED_LANES};
use crate::packed;
use crate::tables::copied;
use crate::tower_field::TowerField;
use vstd::prelude::*;

verus! {

/// Fold the highest variables of a table by the coordinates of `point`, from the last one down,
/// as long as `point` has coordinates.
fn fold_by_point<F: TowerField>(evals: &mut Vec<F>, point: &[F])
    requires
        old(evals)@.len() == mle::cube(point@.len()),
    ensures
        final(evals)@.len() == 1,
        final(evals)@[0] == mle::mle_eval(old(evals)@, point@),
{
    let ghost table = evals@;
    let mut i: usize = point.len();
    proof {
        assert(point@.take(i as int) =~= point@);
    }
    while i > 0
        invariant
            i <= point.len(),
            evals@.len() == mle::cube(i as nat),
            mle::mle_eval(evals@, point@.take(i as int)) == mle::mle_eval(table, point@),
        decreases i,
    {
        i = i - 1;
        let r = point[i];
        proof {
            let p = point@.take(i + 1);
            assert(p.drop_last() =~= point@.take(i as int));
            assert(p.last() == r);
            mle::lemma_fold_high(evals@, p);
        }
        fold_highest_var_inplace(evals, r);
    }
    proof {
        assert(point@.take(0) =~= Seq::empty());
        mle::lemma_mle_empty(evals@);
    }
}

/// Evaluate a multilinear polynomial at a point using in-place folding.
pub fn evaluate_inplace_scalars<F: TowerField>(evals: Vec<F>, point: &[F]) -> (r: F)
    requires
        evals@.len() == mle::cube(point@.len()),
    ensures
        r == mle::mle_eval(evals@, point@),
{
    let mut evals = evals;
    fold_by_point(&mut evals, point);
    evals[0]
}

/// Convenience function: evaluate without consuming the input.
pub fn evaluate_slice<F: TowerField>(evals: &[F], point: &[F]) -> (r: F)
    requires
        evals@.len() == mle::cube(point@.len()),
    ensures
        r == mle::mle_eval(evals@, point@),
{
    evaluate_inplace_scalars(copied(evals), point)
}

/// The point obtained from `point` by setting the missing low coordinates of `n` variables to zero.
pub open spec fn zero_extended<F: TowerField>(point: Seq<F>, n: nat) -> Seq<F> {
    Seq::new((n - point.len()) as nat, |i: int| F::nil()) + point
}

/// Evaluate an MLE using packed fold operations.
///
/// Tables that fill at least two packed vectors may come with fewer coordinates than variables: the
/// missing low coordinates are taken to be zero.
pub fn evaluate_packed(poly: &[Block128], point: &[Block128]) -> (r: Block128)
    requires
        exists|n: nat| point@.len() <= n && poly@.len() == #[trigger] mle::cube(n),
        poly@.len() < 2 * PACKED_LANES ==> poly@.len() == mle::cube(point@.len()),
    ensures
        forall|n: nat|
            poly@.len() == #[trigger] mle::cube(n) ==> r == mle::mle_eval(
                poly@,
                zero_extended(point@, n),
            ),
{
    let ghost n = choose|n: nat| point@.len() <= n && poly@.len() == #[trigger] mle::cube(n);
    proof {
        assert forall|m: nat| poly@.len() == #[trigger] mle::cube(m) implies m == n by {
            mle::lemma_cube_injective(m, n);
        }
    }
    // Too small for the packed path to be worthwhile: fall back to scalars.
    if poly.len() < PACKED_LANES * 2 || poly.len() % PACKED_LANES != 0 {
        proof {
            if poly.len() >= PACKED_LANES * 2 {
                packed::lemma_lanes_divide(n);
            }
            mle::lemma_cube_injective(n, point@.len());
            assert(zero_extended(point@, n) =~= point@);
        }
        return evaluate_slice(poly, point);
    }
    let mut evals: Vec<PackedBlock128> = pack_slice(poly);
    let mut remaining: usize = point.len();
    let ghost mut vars: nat = n;
    proof {
        assert(point@.take(remaining as int) =~= point@);
    }
    while evals.len() > 1 && remaining > 0
        invariant
            remaining <= point.len(),
            remaining <= vars,
            packed::flat(evals@).len() == mle::cube(vars),
            evals.len() > 0,
            mle::mle_eval(
                packed::flat(evals@),
                zero_extended(point@.take(remaining as int), vars),
            ) == mle::mle_eval(poly@, zero_extended(point@, n)),
        decreases remaining,
    {
        remaining = remaining - 1;
        let r = point[remaining];
        proof {
            packed::lemma_even_count(evals@, vars);
            let p = zero_extended(point@.take(remaining + 1), vars);
            assert(p.last() == r);
            assert(p.drop_last() =~= zero_extended(
                point@.take(remaining as int),
                (vars - 1) as nat,
            ));
            mle::lemma_fold_high(packed::flat(evals@), p);
            vars = (vars - 1) as nat;
        }
        fold_packed(&mut evals, r);
    }
    // Unpack and fold any remaining variables one element at a time.
    let mut scalars: Vec<Block128> = unpack(&evals);
    while remaining > 0
        invariant
            remaining <= point.len(),
            remaining <= vars,
            scalars@.len() == mle::cube(vars),
            mle::mle_eval(scalars@, zero_extended(point@.take(remaining as int), vars))
                == mle::mle_eval(poly@, zero_extended(point@, n)),
        decreases remaining,
    {
        remaining = remaining - 1;
        let r = point[remaining];
        proof {
            let p = zero_extended(point@.take(remaining + 1), vars);
            assert(p.last() == r);
            assert(p.drop_last() =~= zero_extended(
                point@.take(remaining as int),
                (vars - 1) as nat,
            ));
            mle::lemma_fold_high(scalars@, p);
            vars = (vars - 1) as nat;
        }
        fold_highest_var_inplace(&mut scalars, r);
    }
    proof {
        mle::lemma_vertex_zero::<Block128>(vars);
        assert(zero_extended(point@.take(0), vars) =~= mle::vertex(0, vars));
        mle::lemma_cube_monotone(vars, vars);
        mle::mle_at_vertex(scalars@, 0, vars);
    }
    scalars[0]
}

/// Coordinates bind the highest variables: a missing low coordinate of a point is zero, so the value is
/// that of the entries whose low bits are zero.
pub proof fn missing_coordinates_are_zero<F: TowerField>(point: Seq<F>, n: nat)
    requires
        point.len() <= n,
    ensures
        zero_extended(point, n).len() == n,
        forall|i: int|
            0 <= i < n - point.len() ==> #[trigger] zero_extended(point, n)[i] == F::nil(),
        forall|i: int|
            0 <= i < point.len() ==> zero_extended(point, n)[n - point.len() + i]
                == #[trigger] point[i],
{
}

} // verus!
