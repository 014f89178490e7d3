//! The equality indicator of the hypercube.
use crate::algebra;
use crate::mle;
use crate::sums;
use crate::tower_field::TowerField;
use vstd::prelude::*;

verus! {

/// The product over all variables of `1 + a[i] + b[i]`.
pub fn eq_ind<F: TowerField>(a: &[F], b: &[F]) -> (r: F)
    requires
        a.len() == b.len(),
    ensures
        r == mle::eq_product(a@, b@),
{
    let mut acc = F::one();
    let mut i: usize = 0;
    while i < a.len()
        invariant
            a.len() == b.len(),
            i <= a.len(),
            acc == mle::eq_product(a@.take(i as int), b@.take(i as int)),
        decreases a.len() - i,
    {
        proof {
            assert(a@.take(i + 1).drop_last() =~= a@.take(i as int));
            assert(b@.take(i + 1).drop_last() =~= b@.take(i as int));
        }
        acc = acc.fmul(F::one().fadd(a[i]).fadd(b[i]));
        i = i + 1;
    }
    proof {
        assert(a@.take(i as int) =~= a@);
        assert(b@.take(i as int) =~= b@);
    }
    acc
}

/// The table whose entry `x` is `scale` times the Lagrange weight of vertex `x`.
pub fn scaled_eq_table<F: TowerField>(point: &[F], scale: F) -> (table: Vec<F>)
    requires
        mle::cube(point@.len()) <= usize::MAX,
    ensures
        table@ == sums::seq_scale(scale, mle::eq_table(point@)),
{
    let mut table: Vec<F> = Vec::new();
    table.push(scale);
    proof {
        F::times_laws(scale, F::unit(), scale);
        assert(table@ =~= sums::seq_scale(scale, mle::eq_table(point@.take(0))));
    }
    let mut i: usize = 0;
    while i < point.len()
        invariant
            i <= point.len(),
            mle::cube(point@.len()) <= usize::MAX,
            table@ == sums::seq_scale(scale, mle::eq_table(point@.take(i as int))),
        decreases point.len() - i,
    {
        let r_i = point[i];
        let ghost before = table@;
        proof {
            mle::lemma_cube_monotone((i + 1) as nat, point@.len());
        }
        let cur: usize = table.len();
        let ghost low = mle::eq_table(point@.take(i as int));
        let mut j: usize = 0;
        while j < cur
            invariant
                cur == before.len(),
                j <= cur,
                table.len() == cur + j,
                2 * cur <= usize::MAX,
                forall|k: int| 0 <= k < j ==> table@[k] == F::unit().plus(r_i).times(before[k]),
                forall|k: int| j <= k < cur ==> table@[k] == before[k],
                forall|k: int| cur <= k < cur + j ==> table@[k] == r_i.times(before[k - cur]),
            decreases cur - j,
        {
            proof {
                algebra::lemma_distribute_right(F::unit(), r_i, before[j as int]);
                algebra::lemma_neutral_left(before[j as int]);
                F::times_laws(before[j as int], r_i, r_i);
            }
            let prod = table[j].fmul(r_i);
            let kept = table[j].fadd(prod);
            table.set(j, kept);
            table.push(prod);
            j = j + 1;
        }
        proof {
            let next = point@.take(i + 1);
            assert(next.drop_last() =~= point@.take(i as int));
            assert(next.last() == r_i);
            mle::lemma_eq_table_halves(next);
            let want = sums::seq_scale(scale, mle::eq_table(next));
            assert forall|k: int| 0 <= k < want.len() implies #[trigger] want[k] == table@[k] by {
                let e = if k < cur { low[k] } else { low[k - cur] };
                let f = if k < cur { F::unit().plus(r_i) } else { r_i };
                F::times_laws(scale, f, e);
                F::times_laws(f, scale, e);
            }
            assert(table@ =~= want);
        }
        i = i + 1;
    }
    proof {
        assert(point@.take(i as int) =~= point@);
    }
    table
}

/// The table of all Lagrange weights at `point`.
pub fn eq_ind_partial_eval<F: TowerField>(point: &[F]) -> (table: Vec<F>)
    requires
        mle::cube(point@.len()) <= usize::MAX,
    ensures
        table@ == mle::eq_table(point@),
{
    let table = scaled_eq_table(point, F::one());
    proof {
        let want = mle::eq_table(point@);
        assert forall|k: int| 0 <= k < want.len() implies #[trigger] want[k] == table@[k] by {
            algebra::lemma_neutral_left(want[k]);
        }
        assert(table@ =~= want);
    }
    table
}

} // verus!
