//! Copies of vectors, and sums over rows.
use crate::sums;
use crate::tower_field::TowerField;
use vstd::prelude::*;

verus! {

/// A copy of a slice.
pub fn copied<T: Copy>(values: &[T]) -> (table: Vec<T>)
    ensures
        table@ == values@,
{
    let mut table: Vec<T> = Vec::with_capacity(values.len());
    let mut i: usize = 0;
    while i < values.len()
        invariant
            i <= values.len(),
            table@ == values@.take(i as int),
        decreases values.len() - i,
    {
        table.push(values[i]);
        i = i + 1;
        proof {
            assert(table@ =~= values@.take(i as int));
        }
    }
    proof {
        assert(values@.take(i as int) =~= values@);
    }
    table
}

/// The elements of a vector in reverse order.
pub fn reversed<T: Copy>(values: &Vec<T>) -> (table: Vec<T>)
    ensures
        table@ == values@.reverse(),
{
    let n: usize = values.len();
    let mut table: Vec<T> = Vec::with_capacity(n);
    let mut i: usize = 0;
    while i < n
        invariant
            n == values.len(),
            i <= n,
            table@ == values@.reverse().take(i as int),
        decreases n - i,
    {
        table.push(values[n - 1 - i]);
        i = i + 1;
        proof {
            assert(table@ =~= values@.reverse().take(i as int));
        }
    }
    proof {
        assert(values@.reverse().take(i as int) =~= values@.reverse());
    }
    table
}

/// Column `k` of a sequence of rows.
pub open spec fn column<F, const N: usize>(rows: Seq<[F; N]>, k: int) -> Seq<F> {
    Seq::new(rows.len(), |j: int| rows[j]@[k])
}

/// The sum of column `k` of a list of rows.
pub fn sum_column<F: TowerField, const N: usize>(rows: &Vec<[F; N]>, k: usize) -> (r: F)
    requires
        k < N,
    ensures
        r == sums::total(column(rows@, k as int)),
{
    let mut acc = F::zero();
    let mut j: usize = 0;
    let ghost all = column(rows@, k as int);
    while j < rows.len()
        invariant
            k < N,
            j <= rows.len(),
            all == column(rows@, k as int),
            acc == sums::total(all.take(j as int)),
        decreases rows.len() - j,
    {
        proof {
            sums::lemma_total_take(all, j as int);
        }
        acc = acc.fadd(rows[j][k]);
        j = j + 1;
    }
    proof {
        assert(all.take(j as int) =~= all);
    }
    acc
}

} // verus!
