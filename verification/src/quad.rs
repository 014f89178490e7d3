//! Quadratic extensions.
//!
//! A pair `(a, b)` over a field denotes `a + b X` modulo `X^2 + X + tau`.  The lemmas of this
//! module show that pairs form a field whenever the polynomial is irreducible.
use crate::algebra;
use crate::tower_field::{QuadBase, TowerField};
use vstd::prelude::*;

verus! {

/// Sum of two pairs.
pub open spec fn quad_plus<T: TowerField>(a: (T, T), b: (T, T)) -> (T, T) {
    (a.0.plus(b.0), a.1.plus(b.1))
}

/// Product of a base element and a pair.
pub open spec fn quad_scale<T: TowerField>(s: T, b: (T, T)) -> (T, T) {
    (s.times(b.0), s.times(b.1))
}

/// Product of `X` and a pair: `X (b0 + b1 X) = tau b1 + (b0 + b1) X`.
pub open spec fn quad_shift<T: TowerField>(b: (T, T)) -> (T, T) {
    (b.1.times(T::tau()), b.0.plus(b.1))
}

/// Product of two pairs: `(a0 + a1 X) b = a0 b + a1 (X b)`.
pub open spec fn quad_times<T: TowerField>(a: (T, T), b: (T, T)) -> (T, T) {
    quad_plus(quad_scale(a.0, b), quad_scale(a.1, quad_shift(b)))
}

/// Norm of a pair: its product with its conjugate `(a0 + a1) + a1 X`.
pub open spec fn quad_norm<T: TowerField>(a: (T, T)) -> T {
    a.1.times(a.1).times(T::tau()).plus(a.1.times(a.0)).plus(a.0.times(a.0))
}

/// Inverse of a pair: its conjugate divided by its norm.
pub open spec fn quad_inverse<T: TowerField>(a: (T, T)) -> (T, T) {
    let n = quad_norm(a).inverse();
    (a.1.plus(a.0).times(n), a.1.times(n))
}

/// Pairs are added like vectors.
pub proof fn lemma_quad_plus<T: TowerField>(a: (T, T), b: (T, T), c: (T, T))
    ensures
        quad_plus(a, b) == quad_plus(b, a),
        quad_plus(quad_plus(a, b), c) == quad_plus(a, quad_plus(b, c)),
        quad_plus(a, (T::nil(), T::nil())) == a,
        quad_plus(a, a) == (T::nil(), T::nil()),
{
    T::plus_laws(a.0, b.0, c.0);
    T::plus_laws(a.1, b.1, c.1);
}

proof fn lemma_scale_plus<T: TowerField>(s: T, a: (T, T), b: (T, T))
    ensures
        quad_scale(s, quad_plus(a, b)) == quad_plus(quad_scale(s, a), quad_scale(s, b)),
{
    T::times_laws(s, a.0, b.0);
    T::times_laws(s, a.1, b.1);
}

proof fn lemma_scale_sum<T: TowerField>(s: T, t: T, b: (T, T))
    ensures
        quad_scale(s.plus(t), b) == quad_plus(quad_scale(s, b), quad_scale(t, b)),
{
    algebra::lemma_distribute_right(s, t, b.0);
    algebra::lemma_distribute_right(s, t, b.1);
}

proof fn lemma_scale_scale<T: TowerField>(s: T, t: T, b: (T, T))
    ensures
        quad_scale(s.times(t), b) == quad_scale(s, quad_scale(t, b)),
{
    T::times_laws(s, t, b.0);
    T::times_laws(s, t, b.1);
}

proof fn lemma_shift_plus<T: TowerField>(a: (T, T), b: (T, T))
    ensures
        quad_shift(quad_plus(a, b)) == quad_plus(quad_shift(a), quad_shift(b)),
{
    algebra::lemma_distribute_right(a.1, b.1, T::tau());
    algebra::lemma_plus_swap(a.0, b.0, a.1, b.1);
}

proof fn lemma_shift_scale<T: TowerField>(s: T, b: (T, T))
    ensures
        quad_shift(quad_scale(s, b)) == quad_scale(s, quad_shift(b)),
{
    T::times_laws(s, b.1, T::tau());
    T::times_laws(s, b.0, b.1);
}

/// `X^2 = X + tau`.
proof fn lemma_shift_shift<T: TowerField>(b: (T, T))
    ensures
        quad_shift(quad_shift(b)) == quad_plus(quad_scale(T::tau(), b), quad_shift(b)),
{
    let t = T::tau();
    algebra::lemma_distribute_right(b.0, b.1, t);
    T::times_laws(b.0, t, t);
    T::times_laws(b.1, t, t);
}

proof fn lemma_quad_swap<T: TowerField>(a: (T, T), b: (T, T), c: (T, T), d: (T, T))
    ensures
        quad_plus(quad_plus(a, b), quad_plus(c, d)) == quad_plus(quad_plus(a, c), quad_plus(b, d)),
{
    algebra::lemma_plus_swap(a.0, b.0, c.0, d.0);
    algebra::lemma_plus_swap(a.1, b.1, c.1, d.1);
}

/// The product is additive in its second argument.
pub proof fn lemma_quad_distribute<T: TowerField>(a: (T, T), b: (T, T), c: (T, T))
    ensures
        quad_times(a, quad_plus(b, c)) == quad_plus(quad_times(a, b), quad_times(a, c)),
{
    lemma_shift_plus(b, c);
    lemma_scale_plus(a.0, b, c);
    lemma_scale_plus(a.1, quad_shift(b), quad_shift(c));
    lemma_quad_swap(
        quad_scale(a.0, b),
        quad_scale(a.0, c),
        quad_scale(a.1, quad_shift(b)),
        quad_scale(a.1, quad_shift(c)),
    );
}

proof fn lemma_quad_distribute_left<T: TowerField>(a: (T, T), b: (T, T), c: (T, T))
    ensures
        quad_times(quad_plus(a, b), c) == quad_plus(quad_times(a, c), quad_times(b, c)),
{
    lemma_scale_sum(a.0, b.0, c);
    lemma_scale_sum(a.1, b.1, quad_shift(c));
    lemma_quad_swap(
        quad_scale(a.0, c),
        quad_scale(b.0, c),
        quad_scale(a.1, quad_shift(c)),
        quad_scale(b.1, quad_shift(c)),
    );
}

proof fn lemma_quad_scale_left<T: TowerField>(s: T, b: (T, T), c: (T, T))
    ensures
        quad_times(quad_scale(s, b), c) == quad_scale(s, quad_times(b, c)),
{
    lemma_scale_scale(s, b.0, c);
    lemma_scale_scale(s, b.1, quad_shift(c));
    lemma_scale_plus(s, quad_scale(b.0, c), quad_scale(b.1, quad_shift(c)));
}

proof fn lemma_quad_shift_left<T: TowerField>(b: (T, T), c: (T, T))
    ensures
        quad_times(quad_shift(b), c) == quad_shift(quad_times(b, c)),
{
    let t = T::tau();
    let xc = quad_shift(c);
    let p = quad_scale(b.1.times(t), c);
    let q0 = quad_scale(b.0, xc);
    let q1 = quad_scale(b.1, xc);
    // Left: b1 tau c + (b0 + b1) X c.
    lemma_scale_sum(b.0, b.1, xc);
    assert(quad_times(quad_shift(b), c) == quad_plus(p, quad_plus(q0, q1)));
    // Right: b0 X c + b1 X X c.
    lemma_shift_plus(quad_scale(b.0, c), quad_scale(b.1, xc));
    lemma_shift_scale(b.0, c);
    lemma_shift_scale(b.1, xc);
    lemma_shift_shift(c);
    lemma_scale_plus(b.1, quad_scale(t, c), xc);
    lemma_scale_scale(b.1, t, c);
    assert(quad_shift(quad_times(b, c)) == quad_plus(q0, quad_plus(p, q1)));
    lemma_quad_plus(p, q0, q1);
    lemma_quad_plus(q0, p, q1);
}

/// The product is associative.
pub proof fn lemma_quad_assoc<T: TowerField>(a: (T, T), b: (T, T), c: (T, T))
    ensures
        quad_times(quad_times(a, b), c) == quad_times(a, quad_times(b, c)),
{
    lemma_quad_distribute_left(quad_scale(a.0, b), quad_scale(a.1, quad_shift(b)), c);
    lemma_quad_scale_left(a.0, b, c);
    lemma_quad_scale_left(a.1, quad_shift(b), c);
    lemma_quad_shift_left(b, c);
}

/// The product is commutative, and `(1, 0)` is neutral.
pub proof fn lemma_quad_comm<T: TowerField>(a: (T, T), b: (T, T))
    ensures
        quad_times(a, b) == quad_times(b, a),
        quad_times(a, (T::unit(), T::nil())) == a,
{
    let t = T::tau();
    T::times_laws(a.0, b.0, b.1);
    T::times_laws(a.0, b.1, b.1);
    T::times_laws(a.1, b.0, b.1);
    T::times_laws(b.1, a.0, a.1);
    T::times_laws(a.1, b.1, t);
    T::times_laws(b.1, a.1, t);
    let p = a.0.times(b.1);
    let q = a.1.times(b.0);
    let r = a.1.times(b.1);
    T::times_laws(b.0, a.1, a.0);
    T::plus_laws(p, q, r);
    T::plus_laws(q, p, r);
    // One is neutral.
    algebra::lemma_times_nil(a.0);
    algebra::lemma_times_nil(a.1);
    algebra::lemma_times_nil(t);
    T::times_laws(a.0, t, t);
    T::times_laws(a.1, t, t);
    T::plus_laws(T::unit(), t, t);
    T::plus_laws(a.0, t, t);
    algebra::lemma_neutral_left(a.1);
}

/// The Karatsuba form of the product.
pub proof fn lemma_quad_karatsuba<T: TowerField>(a: (T, T), b: (T, T))
    ensures
        quad_times(a, b) == (
            a.0.times(b.0).plus(a.1.times(b.1).times(T::tau())),
            a.0.times(b.0).plus(a.0.plus(a.1).times(b.0.plus(b.1))),
        ),
{
    let t = T::tau();
    T::times_laws(a.1, b.1, t);
    let p = a.0.times(b.0);
    let q = a.0.times(b.1);
    let r = a.1.times(b.0.plus(b.1));
    algebra::lemma_distribute_right(a.0, a.1, b.0.plus(b.1));
    T::times_laws(a.0, b.0, b.1);
    T::plus_laws(p, q, r);
    algebra::lemma_plus_cancel(p, q.plus(r));
}

/// The product of a pair and a base element.
pub proof fn lemma_quad_times_base<T: TowerField>(a: (T, T), b: T)
    ensures
        quad_times(a, (b, T::nil())) == (a.0.times(b), a.1.times(b)),
{
    let z = T::nil();
    algebra::lemma_times_nil(T::tau());
    algebra::lemma_times_nil(a.0);
    algebra::lemma_times_nil(a.1);
    T::plus_laws(b, z, z);
    T::plus_laws(a.0.times(b), z, z);
    algebra::lemma_neutral_left(a.1.times(b));
}

/// The square of a pair: `(a0 + a1 X)^2 = a0^2 + tau a1^2 + a1^2 X`.
pub proof fn lemma_quad_square<T: TowerField>(a: (T, T))
    ensures
        quad_times(a, a) == (
            a.0.times(a.0).plus(a.1.times(a.1).times(T::tau())),
            a.1.times(a.1),
        ),
{
    let t = T::tau();
    T::times_laws(a.1, a.1, t);
    T::times_laws(a.1, a.0, a.1);
    T::times_laws(a.0, a.1, a.1);
    algebra::lemma_plus_cancel(a.0.times(a.1), a.1.times(a.1));
}

/// A pair times `tau X`.
pub proof fn lemma_quad_times_tau<T: TowerField>(a: (T, T))
    ensures
        quad_times(a, (T::nil(), T::tau())) == (
            a.1.times(T::tau()).times(T::tau()),
            a.0.plus(a.1).times(T::tau()),
        ),
{
    let t = T::tau();
    algebra::lemma_times_nil(a.0);
    algebra::lemma_neutral_left(t);
    algebra::lemma_neutral_left(a.1.times(t.times(t)));
    T::times_laws(a.1, t, t);
    algebra::lemma_distribute_right(a.0, a.1, t);
}

/// A pair times its conjugate is its norm.
proof fn lemma_quad_conjugate<T: TowerField>(a: (T, T))
    ensures
        quad_times(a, (a.1.plus(a.0), a.1)) == (quad_norm(a), T::nil()),
{
    let t = T::tau();
    let c = a.1.plus(a.0);
    let aa = a.0.times(a.0);
    let ab = a.1.times(a.0);
    let bbt = a.1.times(a.1).times(t);
    T::times_laws(a.0, a.1, a.0);
    T::times_laws(a.1, a.1, t);
    T::plus_laws(ab, aa, bbt);
    T::plus_laws(ab.plus(aa), bbt, bbt);
    T::plus_laws(bbt, ab, aa);
    algebra::lemma_plus_cancel(a.0, a.1);
    T::plus_laws(a.0, a.1, a.1);
    T::plus_laws(ab, ab, ab);
}

/// Only the zero pair has norm zero.
proof fn lemma_quad_norm_zero<T: QuadBase>(a: (T, T))
    requires
        quad_norm(a) == T::nil(),
    ensures
        a == (T::nil(), T::nil()),
{
    let t = T::tau();
    if a.1 == T::nil() {
        algebra::lemma_times_nil(a.1);
        algebra::lemma_times_nil(t);
        algebra::lemma_times_nil(a.0);
        algebra::lemma_neutral_left(T::nil());
        algebra::lemma_neutral_left(a.0.times(a.0));
        algebra::lemma_no_zero_divisors(a.0, a.0);
    } else {
        let i = a.1.inverse();
        let z = a.0.times(i);
        let ii = i.times(i);
        T::inverse_laws(a.1);
        T::tau_irreducible(z);
        let bb = a.1.times(a.1);
        let ab = a.1.times(a.0);
        let aa = a.0.times(a.0);
        // Multiply the norm by the square of the inverse of a1.
        algebra::lemma_distribute_right(bb.times(t).plus(ab), aa, ii);
        algebra::lemma_distribute_right(bb.times(t), ab, ii);
        algebra::lemma_times_nil(ii);
        algebra::lemma_square_product(a.0, i);
        assert(aa.times(ii) == z.times(z));
        algebra::lemma_times_swap(a.1, a.0, i, i);
        algebra::lemma_neutral_left(z);
        assert(ab.times(ii) == z);
        T::times_laws(bb, t, ii);
        T::times_laws(t, ii, ii);
        T::times_laws(bb, ii, t);
        algebra::lemma_times_swap(a.1, a.1, i, i);
        T::times_laws(T::unit(), t, t);
        T::times_laws(T::unit(), T::unit(), t);
        algebra::lemma_neutral_left(t);
        assert(bb.times(t).times(ii) == t);
        T::plus_laws(t, z, z.times(z));
        T::plus_laws(z, z.times(z), z);
        algebra::lemma_plus_zero_eq(t, z.plus(z.times(z)));
        assert(false);
    }
}

/// Every non-zero pair is invertible, and the zero pair maps to itself.
pub proof fn lemma_quad_inverse<T: QuadBase>(a: (T, T))
    ensures
        a != (T::nil(), T::nil()) ==> quad_times(a, quad_inverse(a)) == (T::unit(), T::nil()),
        quad_inverse((T::nil(), T::nil())) == (T::nil(), T::nil()),
{
    let n = quad_norm(a);
    let c = (a.1.plus(a.0), a.1);
    if a != (T::nil(), T::nil()) {
        if n == T::nil() {
            lemma_quad_norm_zero(a);
        }
        T::inverse_laws(n);
        let i = n.inverse();
        T::times_laws(c.0, i, i);
        T::times_laws(c.1, i, i);
        assert(quad_inverse(a) == quad_scale(i, c));
        lemma_quad_comm(a, quad_scale(i, c));
        lemma_quad_scale_left(i, c, a);
        lemma_quad_comm(a, c);
        lemma_quad_conjugate(a);
        T::times_laws(n, i, i);
        T::times_laws(i, n, n);
        algebra::lemma_times_nil(i);
    }
    let z = T::nil();
    algebra::lemma_times_nil(z);
    algebra::lemma_times_nil(T::tau());
    algebra::lemma_neutral_left(z);
    T::inverse_laws(z);
}

/// `tau X` is not of the form `z^2 + z` in the extension.
pub proof fn lemma_quad_tau<T: QuadBase>(z: (T, T))
    ensures
        quad_plus(quad_times(z, z), z) != (T::nil(), T::tau()),
{
    lemma_quad_square(z);
    T::tau_irreducible(z.1);
}

} // verus!
