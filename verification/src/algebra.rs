//! Consequences of the field laws that hold in every level of the tower.
use crate::tower_field::TowerField;
use vstd::prelude::*;

verus! {

/// Zero annihilates.
pub proof fn lemma_times_nil<F: TowerField>(a: F)
    ensures
        a.times(F::nil()) == F::nil(),
        F::nil().times(a) == F::nil(),
{
    let z = F::nil();
    F::plus_laws(z, z, z);
    F::times_laws(a, z, z);
    F::plus_laws(a.times(z), z, z);
}

/// `0 + a = a` and `1 * a = a`.
pub proof fn lemma_neutral_left<F: TowerField>(a: F)
    ensures
        F::nil().plus(a) == a,
        F::unit().times(a) == a,
{
    F::plus_laws(a, F::nil(), a);
    F::times_laws(a, F::unit(), a);
}

/// Adding the same element twice cancels.
pub proof fn lemma_plus_cancel<F: TowerField>(a: F, b: F)
    ensures
        a.plus(a.plus(b)) == b,
        a.plus(b).plus(b) == a,
        b.plus(a).plus(b) == a,
        a.plus(b.plus(a)) == b,
{
    F::plus_laws(a, a, b);
    F::plus_laws(b, a, a);
    F::plus_laws(a, b, b);
    F::plus_laws(b, F::nil(), b);
    F::plus_laws(a, F::nil(), b);
}

/// Two elements whose sum is zero are equal.
pub proof fn lemma_plus_zero_eq<F: TowerField>(a: F, b: F)
    requires
        a.plus(b) == F::nil(),
    ensures
        a == b,
{
    lemma_plus_cancel(a, b);
    lemma_neutral_left(b);
}

/// Exchange of the inner terms of a four-term sum.
pub proof fn lemma_plus_swap<F: TowerField>(a: F, b: F, c: F, d: F)
    ensures
        a.plus(b).plus(c.plus(d)) == a.plus(c).plus(b.plus(d)),
{
    F::plus_laws(a, b, c.plus(d));
    F::plus_laws(b, c, d);
    F::plus_laws(c, b, d);
    F::plus_laws(a, c, b.plus(d));
}

/// Exchange of the inner factors of a four-factor product.
pub proof fn lemma_times_swap<F: TowerField>(a: F, b: F, c: F, d: F)
    ensures
        a.times(b).times(c.times(d)) == a.times(c).times(b.times(d)),
{
    F::times_laws(a, b, c.times(d));
    F::times_laws(b, c, d);
    F::times_laws(c, b, d);
    F::times_laws(a, c, b.times(d));
}

/// Distribution from the right.
pub proof fn lemma_distribute_right<F: TowerField>(a: F, b: F, c: F)
    ensures
        a.plus(b).times(c) == a.times(c).plus(b.times(c)),
{
    F::times_laws(a.plus(b), c, c);
    F::times_laws(c, a, b);
    F::times_laws(a, c, c);
    F::times_laws(b, c, c);
}

/// The product of two sums.
pub proof fn lemma_times_sums<F: TowerField>(a: F, b: F, c: F, d: F)
    ensures
        a.plus(b).times(c.plus(d)) == a.times(c).plus(b.times(c)).plus(
            a.times(d).plus(b.times(d)),
        ),
{
    F::times_laws(a.plus(b), c, d);
    lemma_distribute_right(a, b, c);
    lemma_distribute_right(a, b, d);
}

/// Squaring is additive in characteristic two.
pub proof fn lemma_square_sum<F: TowerField>(a: F, b: F)
    ensures
        a.plus(b).times(a.plus(b)) == a.times(a).plus(b.times(b)),
{
    let ab = a.times(b);
    lemma_times_sums(a, b, a, b);
    F::times_laws(b, a, a);
    lemma_plus_swap(a.times(a), ab, ab, b.times(b));
    F::plus_laws(a.times(a), ab, ab);
    F::plus_laws(ab, b.times(b), b.times(b));
    lemma_plus_swap(a.times(a), ab, b.times(b), ab);
    F::plus_laws(a.times(a).plus(b.times(b)), F::nil(), F::nil());
}

/// Squaring is multiplicative.
pub proof fn lemma_square_product<F: TowerField>(a: F, b: F)
    ensures
        a.times(b).times(a.times(b)) == a.times(a).times(b.times(b)),
{
    lemma_times_swap(a, b, a, b);
}

/// A field has no zero divisors.
pub proof fn lemma_no_zero_divisors<F: TowerField>(a: F, b: F)
    requires
        a.times(b) == F::nil(),
    ensures
        a == F::nil() || b == F::nil(),
{
    if a != F::nil() {
        F::inverse_laws(a);
        F::times_laws(a, a.inverse(), b);
        F::times_laws(a.inverse(), a, b);
        lemma_neutral_left(b);
        lemma_times_nil(a.inverse());
    }
}

} // verus!
