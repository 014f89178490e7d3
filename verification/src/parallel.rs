//! Parallel evaluation of a function on a range of indices.
use rayon::iter::{IntoParallelIterator, ParallelIterator};
use vstd::prelude::*;

verus! {

/// `(0..n).into_par_iter().map(f).collect()` of the rayon crate: the vector that holds at position
/// `i` what `f` returned for `i`.  Rayon's range iterator knows its length and collects by position,
/// so the order does not depend on the order in which the calls run.
#[verifier::external_body]
fn par_collect<T: Send, F: Fn(usize) -> T + Send + Sync>(n: usize, f: F) -> (out: Vec<T>)
    requires
        forall|i: usize| i < n ==> #[trigger] call_requires(f, (i,)),
    ensures
        out@.len() == n,
        forall|i: int| 0 <= i < n ==> call_ensures(f, (i as usize,), #[trigger] out@[i]),
{
    (0..n).into_par_iter().map(f).collect()
}

/// What `f` returns for each index below `n`, computed in parallel from `threshold` indices on.
pub fn map_range<T: Send, F: Fn(usize) -> T + Send + Sync>(n: usize, threshold: usize, f: F) -> (out:
    Vec<T>)
    requires
        forall|i: usize| i < n ==> #[trigger] call_requires(f, (i,)),
    ensures
        out@.len() == n,
        forall|i: int| 0 <= i < n ==> call_ensures(f, (i as usize,), #[trigger] out@[i]),
{
    if n >= threshold {
        return par_collect(n, f);
    }
    let mut out: Vec<T> = Vec::with_capacity(n);
    let mut i: usize = 0;
    while i < n
        invariant
            i <= n,
            out@.len() == i,
            forall|j: usize| j < n ==> #[trigger] call_requires(f, (j,)),
            forall|j: int| 0 <= j < i ==> call_ensures(f, (j as usize,), #[trigger] out@[j]),
        decreases n - i,
    {
        out.push(f(i));
        i = i + 1;
    }
    out
}

} // verus!
