//! Fixing one variable of a multilinear table.
use crate::mle;
use crate::tower_field::TowerField;
use vstd::prelude::*;

verus! {

/// Fix the highest variable of `evals` to `r`, halving the table.
pub fn fold_highest_var_inplace<F: TowerField>(evals: &mut Vec<F>, r: F)
    ensures
        final(evals)@ == mle::fold_high(old(evals)@, r),
{
    let ghost before = evals@;
    let half: usize = evals.len() / 2;
    let mut j: usize = 0;
    while j < half
        invariant
            half == before.len() / 2,
            evals.len() == before.len(),
            j <= half,
            forall|i: int| 0 <= i < j ==> evals@[i] == #[trigger] mle::fold_high(before, r)[i],
            forall|i: int| j <= i < evals.len() ==> evals@[i] == before[i],
        decreases half - j,
    {
        let lo = evals[j];
        let hi = evals[j + half];
        evals.set(j, lo.fadd(r.fmul(lo.fadd(hi))));
        j = j + 1;
    }
    evals.truncate(half);
    proof {
        assert(evals@ =~= mle::fold_high(before, r));
    }
}

} // verus!
