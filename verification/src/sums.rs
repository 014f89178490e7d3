//! Finite sums of field elements.
use crate::algebra;
use crate::tower_field::TowerField;
use vstd::prelude::*;

verus! {

/// The sum of all elements of a sequence.
pub open spec fn total<F: TowerField>(s: Seq<F>) -> F
    decreases s.len(),
{
    if s.len() == 0 {
        F::nil()
    } else {
        total(s.drop_last()).plus(s.last())
    }
}

/// Elementwise sum of two sequences of the same length.
pub open spec fn seq_plus<F: TowerField>(s: Seq<F>, t: Seq<F>) -> Seq<F> {
    Seq::new(s.len(), |i: int| s[i].plus(t[i]))
}

/// Elementwise product of two sequences of the same length.
pub open spec fn seq_times<F: TowerField>(s: Seq<F>, t: Seq<F>) -> Seq<F> {
    Seq::new(s.len(), |i: int| s[i].times(t[i]))
}

/// All elements of a sequence multiplied by one factor.
pub open spec fn seq_scale<F: TowerField>(c: F, s: Seq<F>) -> Seq<F> {
    Seq::new(s.len(), |i: int| c.times(s[i]))
}

/// The inner product of two sequences of the same length.
pub open spec fn dot<F: TowerField>(s: Seq<F>, t: Seq<F>) -> F {
    total(seq_times(s, t))
}

/// The sum over all positions of the product of three sequences.
pub open spec fn dot3<F: TowerField>(s: Seq<F>, t: Seq<F>, u: Seq<F>) -> F {
    total(seq_times(seq_times(s, t), u))
}

/// The sum of a sequence extended by one element.
pub proof fn lemma_total_push<F: TowerField>(s: Seq<F>, x: F)
    ensures
        total(s.push(x)) == total(s).plus(x),
{
    assert(s.push(x).drop_last() =~= s);
}

/// The sum of a prefix, extended by the next element.
pub proof fn lemma_total_take<F: TowerField>(s: Seq<F>, k: int)
    requires
        0 <= k < s.len(),
    ensures
        total(s.take(k + 1)) == total(s.take(k)).plus(s[k]),
        total(s.take(0)) == F::nil(),
{
    assert(s.take(k + 1) =~= s.take(k).push(s[k]));
    lemma_total_push(s.take(k), s[k]);
}

/// The sum of a concatenation.
pub proof fn lemma_total_concat<F: TowerField>(s: Seq<F>, t: Seq<F>)
    ensures
        total(s + t) == total(s).plus(total(t)),
    decreases t.len(),
{
    if t.len() == 0 {
        assert(s + t =~= s);
        F::plus_laws(total(s), F::nil(), F::nil());
    } else {
        lemma_total_concat(s, t.drop_last());
        assert((s + t).drop_last() =~= s + t.drop_last());
        F::plus_laws(total(s), total(t.drop_last()), t.last());
    }
}

/// A sum with its first term split off.
pub proof fn lemma_total_front<F: TowerField>(s: Seq<F>)
    requires
        s.len() > 0,
    ensures
        total(s) == s[0].plus(total(s.drop_first())),
{
    let head = seq![s[0]];
    assert(s =~= head + s.drop_first());
    lemma_total_concat(head, s.drop_first());
    assert(head =~= Seq::empty().push(s[0]));
    lemma_total_push(Seq::empty(), s[0]);
    algebra::lemma_neutral_left(s[0]);
}

/// The sum of an elementwise sum.
pub proof fn lemma_total_plus<F: TowerField>(s: Seq<F>, t: Seq<F>)
    requires
        s.len() == t.len(),
    ensures
        total(seq_plus(s, t)) == total(s).plus(total(t)),
    decreases s.len(),
{
    if s.len() == 0 {
        F::plus_laws(F::nil(), F::nil(), F::nil());
    } else {
        let (s1, t1) = (s.drop_last(), t.drop_last());
        lemma_total_plus(s1, t1);
        assert(seq_plus(s, t).drop_last() =~= seq_plus(s1, t1));
        algebra::lemma_plus_swap(total(s1), total(t1), s.last(), t.last());
    }
}

/// A common factor can be taken out of a sum.
pub proof fn lemma_total_scale<F: TowerField>(c: F, s: Seq<F>)
    ensures
        total(seq_scale(c, s)) == c.times(total(s)),
    decreases s.len(),
{
    if s.len() == 0 {
        algebra::lemma_times_nil(c);
    } else {
        let s1 = s.drop_last();
        lemma_total_scale(c, s1);
        assert(seq_scale(c, s).drop_last() =~= seq_scale(c, s1));
        F::times_laws(c, total(s1), s.last());
    }
}

/// A sum of zeros is zero.
pub proof fn lemma_total_zero<F: TowerField>(s: Seq<F>)
    requires
        forall|i: int| 0 <= i < s.len() ==> s[i] == F::nil(),
    ensures
        total(s) == F::nil(),
    decreases s.len(),
{
    if s.len() > 0 {
        lemma_total_zero(s.drop_last());
        F::plus_laws(F::nil(), F::nil(), F::nil());
    }
}

/// The inner product is additive in its second argument.
pub proof fn lemma_dot_plus<F: TowerField>(s: Seq<F>, t: Seq<F>, u: Seq<F>)
    requires
        s.len() == t.len() == u.len(),
    ensures
        dot(s, seq_plus(t, u)) == dot(s, t).plus(dot(s, u)),
{
    let (a, b) = (seq_times(s, t), seq_times(s, u));
    assert forall|i: int| 0 <= i < s.len() implies #[trigger] seq_times(s, seq_plus(t, u))[i]
        == seq_plus(a, b)[i] by {
        F::times_laws(s[i], t[i], u[i]);
    }
    assert(seq_times(s, seq_plus(t, u)) =~= seq_plus(a, b));
    lemma_total_plus(a, b);
}

/// A common factor can be taken out of an inner product.
pub proof fn lemma_dot_scale<F: TowerField>(c: F, s: Seq<F>, t: Seq<F>)
    requires
        s.len() == t.len(),
    ensures
        dot(s, seq_scale(c, t)) == c.times(dot(s, t)),
        dot(seq_scale(c, s), t) == c.times(dot(s, t)),
{
    let a = seq_times(s, t);
    assert forall|i: int| 0 <= i < s.len() implies #[trigger] seq_times(s, seq_scale(c, t))[i]
        == seq_scale(c, a)[i] && seq_times(seq_scale(c, s), t)[i] == seq_scale(c, a)[i] by {
        F::times_laws(s[i], c, t[i]);
        F::times_laws(c, s[i], t[i]);
    }
    assert(seq_times(s, seq_scale(c, t)) =~= seq_scale(c, a));
    assert forall|i: int| 0 <= i < s.len() implies #[trigger] seq_times(seq_scale(c, s), t)[i]
        == seq_scale(c, a)[i] by {
        F::times_laws(c, s[i], t[i]);
    }
    assert(seq_times(seq_scale(c, s), t) =~= seq_scale(c, a));
    lemma_total_scale(c, a);
}

/// The inner product is symmetric.
pub proof fn lemma_dot_comm<F: TowerField>(s: Seq<F>, t: Seq<F>)
    requires
        s.len() == t.len(),
    ensures
        dot(s, t) == dot(t, s),
{
    assert forall|i: int| 0 <= i < s.len() implies #[trigger] seq_times(s, t)[i] == seq_times(
        t,
        s,
    )[i] by {
        F::times_laws(s[i], t[i], t[i]);
    }
    assert(seq_times(s, t) =~= seq_times(t, s));
}

/// The sum over the even positions plus the sum over the odd positions.
pub proof fn lemma_total_pairs<F: TowerField>(s: Seq<F>)
    requires
        s.len() % 2 == 0,
    ensures
        total(s) == total(Seq::new(s.len() / 2, |i: int| s[2 * i].plus(s[2 * i + 1]))),
    decreases s.len(),
{
    let pairs = Seq::new(s.len() / 2, |i: int| s[2 * i].plus(s[2 * i + 1]));
    if s.len() > 0 {
        let s1 = s.drop_last();
        let s2 = s1.drop_last();
        lemma_total_pairs(s2);
        assert(total(s1) == total(s2).plus(s1.last()));
        assert(pairs.drop_last() =~= Seq::new(s2.len() / 2, |i: int| s2[2 * i].plus(s2[2 * i + 1])));
        F::plus_laws(total(s2), s1.last(), s.last());
    }
}

/// The values `f(0), ..., f(n - 1)`.
pub open spec fn listed<F: TowerField>(n: nat, f: spec_fn(int) -> F) -> Seq<F> {
    Seq::new(n, f)
}

/// The sum `f(0) + ... + f(n - 1)`.
pub open spec fn sum_to<F: TowerField>(n: nat, f: spec_fn(int) -> F) -> F {
    total(listed(n, f))
}

/// A sum extended by one term.
pub proof fn lemma_sum_step<F: TowerField>(n: nat, f: spec_fn(int) -> F)
    ensures
        sum_to(n + 1, f) == sum_to(n, f).plus(f(n as int)),
        sum_to(0, f) == F::nil(),
{
    assert(listed(n + 1, f) =~= listed(n, f).push(f(n as int)));
    lemma_total_push(listed(n, f), f(n as int));
}

/// Sums of equal terms are equal.
pub proof fn lemma_sum_equal<F: TowerField>(n: nat, f: spec_fn(int) -> F, g: spec_fn(int) -> F)
    requires
        forall|i: int| 0 <= i < n ==> #[trigger] f(i) == g(i),
    ensures
        sum_to(n, f) == sum_to(n, g),
{
    assert(listed(n, f) =~= listed(n, g));
}

/// The sum of sums.
pub proof fn lemma_sum_plus<F: TowerField>(n: nat, f: spec_fn(int) -> F, g: spec_fn(int) -> F)
    ensures
        sum_to(n, |i: int| f(i).plus(g(i))) == sum_to(n, f).plus(sum_to(n, g)),
{
    lemma_total_plus(listed(n, f), listed(n, g));
    assert(listed(n, |i: int| f(i).plus(g(i))) =~= seq_plus(listed(n, f), listed(n, g)));
}

/// A common factor can be taken out of a sum.
pub proof fn lemma_sum_scale<F: TowerField>(n: nat, c: F, f: spec_fn(int) -> F)
    ensures
        sum_to(n, |i: int| c.times(f(i))) == c.times(sum_to(n, f)),
{
    lemma_total_scale(c, listed(n, f));
    assert(listed(n, |i: int| c.times(f(i))) =~= seq_scale(c, listed(n, f)));
}

/// The order of a double sum can be exchanged.
pub proof fn lemma_sum_exchange<F: TowerField>(m: nat, n: nat, f: spec_fn(int, int) -> F)
    ensures
        sum_to(m, |i: int| sum_to(n, |j: int| f(i, j))) == sum_to(
            n,
            |j: int| sum_to(m, |i: int| f(i, j)),
        ),
    decreases m,
{
    let rows = |i: int| sum_to(n, |j: int| f(i, j));
    let columns = |j: int| sum_to(m, |i: int| f(i, j));
    if m == 0 {
        assert forall|j: int| 0 <= j < n implies #[trigger] listed(n, columns)[j] == F::nil() by {
            lemma_sum_step(0, |i: int| f(i, j));
        }
        lemma_total_zero(listed(n, columns));
        lemma_sum_step(0, rows);
    } else {
        let k = (m - 1) as nat;
        lemma_sum_exchange(k, n, f);
        lemma_sum_step(k, rows);
        let shorter = |j: int| sum_to(k, |i: int| f(i, j));
        let last = |j: int| f(k as int, j);
        lemma_sum_plus(n, shorter, last);
        assert forall|j: int| 0 <= j < n implies #[trigger] columns(j) == (|j: int|
            shorter(j).plus(last(j)))(j) by {
            lemma_sum_step(k, |i: int| f(i, j));
        }
        lemma_sum_equal(n, columns, |j: int| shorter(j).plus(last(j)));
        assert(rows(k as int) == sum_to(n, last)) by {
            lemma_sum_equal(n, |j: int| f(k as int, j), last);
        }
    }
}

} // verus!
