//! Univariate polynomials in coefficient form.
use crate::algebra;
use crate::sums;
use crate::tower_field::TowerField;
use vstd::prelude::*;

verus! {

/// The value at `x` of the polynomial whose coefficient of `X^i` is `coeffs[i]`.
pub open spec fn poly_eval<F: TowerField>(coeffs: Seq<F>, x: F) -> F
    decreases coeffs.len(),
{
    if coeffs.len() == 0 {
        F::nil()
    } else {
        coeffs[0].plus(x.times(poly_eval(coeffs.drop_first(), x)))
    }
}

/// The coefficients of `X p`.
pub open spec fn poly_shift<F: TowerField>(p: Seq<F>) -> Seq<F> {
    seq![F::nil()] + p
}

/// The coefficients of `(c + d X) p`.
pub open spec fn poly_times_affine<F: TowerField>(p: Seq<F>, c: F, d: F) -> Seq<F> {
    sums::seq_plus(sums::seq_scale(c, p.push(F::nil())), sums::seq_scale(d, poly_shift(p)))
}

/// `x^n`.
pub open spec fn power<F: TowerField>(x: F, n: nat) -> F
    decreases n,
{
    if n == 0 {
        F::unit()
    } else {
        power(x, (n - 1) as nat).times(x)
    }
}

/// `n` zero coefficients.
pub open spec fn poly_zero<F: TowerField>(n: nat) -> Seq<F> {
    Seq::new(n, |i: int| F::nil())
}

/// The quotient of `p` by `X + a`.
pub open spec fn poly_quotient<F: TowerField>(p: Seq<F>, a: F) -> Seq<F>
    decreases p.len(),
{
    if p.len() <= 1 {
        Seq::empty()
    } else {
        let tail = p.drop_first();
        seq![poly_eval(tail, a)] + poly_quotient(tail, a)
    }
}

/// The `k`-th interpolation node.
pub open spec fn node<F: TowerField>(k: int) -> F {
    F::of_byte(k as u8)
}

/// The product of `X + node(j)` over all `j < m` other than `k`, in coefficient form.
pub open spec fn numerator<F: TowerField>(k: int, m: nat) -> Seq<F>
    decreases m,
{
    if m == 0 {
        seq![F::unit()]
    } else {
        let j = m - 1;
        if j == k {
            numerator(k, j as nat)
        } else {
            poly_times_affine(numerator(k, j as nat), node(j), F::unit())
        }
    }
}

/// The product of `x + node(j)` over all `j < m` other than `k`.
pub open spec fn node_product<F: TowerField>(k: int, m: nat, x: F) -> F
    decreases m,
{
    if m == 0 {
        F::unit()
    } else {
        let j = m - 1;
        if j == k {
            node_product(k, j as nat, x)
        } else {
            node_product(k, j as nat, x).times(x.plus(node(j)))
        }
    }
}

/// The sum of the first `m` terms of the Lagrange interpolant through `(node(k), evals[k])`.
pub open spec fn lagrange_partial<F: TowerField>(evals: Seq<F>, m: nat) -> Seq<F>
    decreases m,
{
    if m == 0 {
        poly_zero(evals.len())
    } else {
        let k = m - 1;
        let n = evals.len();
        let scale = evals[k].times(node_product(k, n, node::<F>(k)).inverse());
        sums::seq_plus(
            lagrange_partial(evals, k as nat),
            sums::seq_scale(scale, numerator(k, n)),
        )
    }
}

/// The coefficients of the polynomial of degree below `evals.len()` through `(node(k), evals[k])`.
pub open spec fn lagrange<F: TowerField>(evals: Seq<F>) -> Seq<F> {
    lagrange_partial(evals, evals.len())
}

/// The value at `x` of the interpolant through `(node(k), evals[k])`.
pub open spec fn interpolate<F: TowerField>(evals: Seq<F>, x: F) -> F {
    poly_eval(lagrange(evals), x)
}

/// The sum of the first `m` Lagrange terms at `x`.
pub open spec fn lagrange_sum<F: TowerField>(evals: Seq<F>, m: nat, x: F) -> F
    decreases m,
{
    if m == 0 {
        F::nil()
    } else {
        let k = m - 1;
        let n = evals.len();
        lagrange_sum(evals, k as nat, x).plus(
            evals[k].times(node_product(k, n, node::<F>(k)).inverse()).times(node_product(k, n, x)),
        )
    }
}

/// The values of a polynomial at the first `n` nodes.
pub open spec fn samples<F: TowerField>(coeffs: Seq<F>, n: nat) -> Seq<F> {
    Seq::new(n, |k: int| poly_eval(coeffs, node(k)))
}

/// Evaluation is additive in the coefficients.
pub proof fn lemma_eval_plus<F: TowerField>(p: Seq<F>, q: Seq<F>, x: F)
    requires
        p.len() == q.len(),
    ensures
        poly_eval(sums::seq_plus(p, q), x) == poly_eval(p, x).plus(poly_eval(q, x)),
    decreases p.len(),
{
    if p.len() == 0 {
        F::plus_laws(F::nil(), F::nil(), F::nil());
    } else {
        let (p1, q1) = (p.drop_first(), q.drop_first());
        lemma_eval_plus(p1, q1, x);
        assert(sums::seq_plus(p, q).drop_first() =~= sums::seq_plus(p1, q1));
        F::times_laws(x, poly_eval(p1, x), poly_eval(q1, x));
        algebra::lemma_plus_swap(
            p[0],
            q[0],
            x.times(poly_eval(p1, x)),
            x.times(poly_eval(q1, x)),
        );
    }
}

/// A common factor of the coefficients is a factor of the value.
pub proof fn lemma_eval_scale<F: TowerField>(c: F, p: Seq<F>, x: F)
    ensures
        poly_eval(sums::seq_scale(c, p), x) == c.times(poly_eval(p, x)),
    decreases p.len(),
{
    if p.len() == 0 {
        algebra::lemma_times_nil(c);
    } else {
        let p1 = p.drop_first();
        lemma_eval_scale(c, p1, x);
        assert(sums::seq_scale(c, p).drop_first() =~= sums::seq_scale(c, p1));
        F::times_laws(c, p[0], x.times(poly_eval(p1, x)));
        F::times_laws(x, c, poly_eval(p1, x));
        F::times_laws(c, x, poly_eval(p1, x));
    }
}

/// Zero coefficients do not contribute.
pub proof fn lemma_eval_zero<F: TowerField>(p: Seq<F>, x: F)
    requires
        forall|i: int| 0 <= i < p.len() ==> p[i] == F::nil(),
    ensures
        poly_eval(p, x) == F::nil(),
    decreases p.len(),
{
    if p.len() > 0 {
        lemma_eval_zero(p.drop_first(), x);
        algebra::lemma_times_nil(x);
        F::plus_laws(F::nil(), F::nil(), F::nil());
    }
}

/// Leading zero coefficients do not change the value.
pub proof fn lemma_eval_pad<F: TowerField>(p: Seq<F>, m: nat, x: F)
    ensures
        poly_eval(p + poly_zero(m), x) == poly_eval(p, x),
    decreases p.len(),
{
    if p.len() == 0 {
        assert(p + poly_zero(m) =~= poly_zero(m));
        lemma_eval_zero(poly_zero::<F>(m), x);
    } else {
        assert((p + poly_zero(m)).drop_first() =~= p.drop_first() + poly_zero(m));
        lemma_eval_pad(p.drop_first(), m, x);
    }
}

/// The value of a polynomial whose coefficients are split in two parts.
pub proof fn lemma_eval_concat<F: TowerField>(p: Seq<F>, q: Seq<F>, x: F)
    ensures
        poly_eval(p + q, x) == poly_eval(p, x).plus(power(x, p.len()).times(poly_eval(q, x))),
    decreases p.len(),
{
    let e = poly_eval(q, x);
    if p.len() == 0 {
        assert(p + q =~= q);
        algebra::lemma_neutral_left(e);
    } else {
        let tail = p.drop_first();
        assert((p + q).drop_first() =~= tail + q);
        lemma_eval_concat(tail, q, x);
        let w = power(x, tail.len());
        F::times_laws(x, poly_eval(tail, x), w.times(e));
        F::times_laws(x, w, e);
        F::times_laws(w, x, e);
        F::plus_laws(p[0], x.times(poly_eval(tail, x)), x.times(w.times(e)));
    }
}

/// The value at zero is the constant coefficient, and the value at one is the sum of all
/// coefficients.
pub proof fn lemma_eval_bits<F: TowerField>(p: Seq<F>)
    ensures
        poly_eval(p, F::unit()) == sums::total(p),
        p.len() > 0 ==> poly_eval(p, F::nil()) == p[0],
    decreases p.len(),
{
    if p.len() > 0 {
        let tail = p.drop_first();
        lemma_eval_bits(tail);
        algebra::lemma_times_nil(poly_eval(tail, F::nil()));
        F::plus_laws(p[0], F::nil(), F::nil());
        algebra::lemma_neutral_left(poly_eval(tail, F::unit()));
        sums::lemma_total_front(p);
    }
}

/// The value of `(c + d X) p`.
pub proof fn lemma_eval_times_affine<F: TowerField>(p: Seq<F>, c: F, d: F, x: F)
    ensures
        poly_times_affine(p, c, d).len() == p.len() + 1,
        poly_eval(poly_times_affine(p, c, d), x) == c.plus(d.times(x)).times(poly_eval(p, x)),
{
    let e = poly_eval(p, x);
    let a = p.push(F::nil());
    let b = poly_shift(p);
    lemma_eval_plus(sums::seq_scale(c, a), sums::seq_scale(d, b), x);
    lemma_eval_scale(c, a, x);
    lemma_eval_scale(d, b, x);
    assert(a =~= p + poly_zero(1));
    lemma_eval_pad(p, 1, x);
    assert(b.drop_first() =~= p);
    algebra::lemma_neutral_left(x.times(e));
    F::times_laws(d, x, e);
    algebra::lemma_distribute_right(c, d.times(x), e);
}

/// Division with remainder: `p(x) = (x + a) q(x) + p(a)`.
pub proof fn lemma_quotient<F: TowerField>(p: Seq<F>, a: F, x: F)
    requires
        p.len() > 0,
    ensures
        poly_quotient(p, a).len() == p.len() - 1,
        poly_eval(p, x) == x.plus(a).times(poly_eval(poly_quotient(p, a), x)).plus(
            poly_eval(p, a),
        ),
    decreases p.len(),
{
    let tail = p.drop_first();
    let q = poly_quotient(p, a);
    if p.len() == 1 {
        assert(poly_eval(tail, x) == F::nil() && poly_eval(tail, a) == F::nil());
        assert(poly_eval(q, x) == F::nil());
        algebra::lemma_times_nil(x);
        algebra::lemma_times_nil(a);
        algebra::lemma_times_nil(x.plus(a));
        algebra::lemma_neutral_left(poly_eval(p, a));
    } else {
        let q1 = poly_quotient(tail, a);
        lemma_quotient(tail, a, x);
        assert(q.drop_first() =~= q1);
        let ta = poly_eval(tail, a);
        let e = poly_eval(q1, x);
        let s = x.plus(a);
        // p(x) = c + x (s e + ta), and s (ta + x e) + c + a ta is the same.
        F::times_laws(x, s.times(e), ta);
        F::times_laws(s, ta, x.times(e));
        F::times_laws(x, s, e);
        F::times_laws(s, x, e);
        algebra::lemma_distribute_right(x, a, ta);
        let (xt, at, m) = (x.times(ta), a.times(ta), s.times(x.times(e)));
        let c = p[0];
        assert(poly_eval(p, x) == c.plus(m.plus(xt)));
        assert(s.times(poly_eval(q, x)) == xt.plus(at).plus(m));
        // Right: (xt + at + m) + (c + at).
        F::plus_laws(xt, at, m);
        F::plus_laws(at, m, xt);
        F::plus_laws(xt.plus(m), at, c);
        F::plus_laws(c, at, at);
        F::plus_laws(m, xt, at);
        F::plus_laws(xt, m, at);
        assert(xt.plus(at).plus(m) == m.plus(xt).plus(at));
        F::plus_laws(m.plus(xt), at, c.plus(at));
        F::plus_laws(at, c, at);
        algebra::lemma_plus_cancel(at, c);
        F::plus_laws(m.plus(xt), c, c);
    }
}

/// A polynomial that vanishes at `a` and has a zero quotient is zero.
proof fn lemma_zero_quotient<F: TowerField>(p: Seq<F>, a: F)
    requires
        p.len() > 0,
        poly_eval(p, a) == F::nil(),
        forall|i: int|
            0 <= i < p.len() - 1 ==> #[trigger] poly_quotient(p, a)[i] == F::nil(),
    ensures
        forall|i: int| 0 <= i < p.len() ==> p[i] == F::nil(),
    decreases p.len(),
{
    let tail = p.drop_first();
    if p.len() == 1 {
        assert(poly_eval(tail, a) == F::nil());
        algebra::lemma_times_nil(a);
        F::plus_laws(p[0], F::nil(), F::nil());
    } else {
        let q = poly_quotient(p, a);
        let q1 = poly_quotient(tail, a);
        lemma_quotient(p, a, a);
        lemma_quotient(tail, a, a);
        assert(q[0] == poly_eval(tail, a));
        assert forall|i: int| 0 <= i < tail.len() - 1 implies #[trigger] q1[i] == F::nil() by {
            assert(q[i + 1] == q1[i]);
        }
        lemma_zero_quotient(tail, a);
        algebra::lemma_times_nil(a);
        F::plus_laws(p[0], F::nil(), F::nil());
        assert forall|i: int| 0 <= i < p.len() implies p[i] == F::nil() by {
            if i > 0 {
                assert(p[i] == tail[i - 1]);
            }
        }
    }
}

/// A polynomial with at least as many distinct roots as coefficients is zero.
pub proof fn lemma_roots<F: TowerField>(p: Seq<F>, roots: Seq<F>)
    requires
        p.len() <= roots.len(),
        forall|i: int, j: int|
            0 <= i < j < roots.len() ==> #[trigger] roots[i] != #[trigger] roots[j],
        forall|i: int| 0 <= i < roots.len() ==> poly_eval(p, #[trigger] roots[i]) == F::nil(),
    ensures
        forall|i: int| 0 <= i < p.len() ==> p[i] == F::nil(),
    decreases p.len(),
{
    if p.len() > 0 {
        let a = roots.last();
        let rest = roots.drop_last();
        let q = poly_quotient(p, a);
        lemma_quotient(p, a, a);
        assert forall|i: int| 0 <= i < rest.len() implies poly_eval(q, #[trigger] rest[i])
            == F::nil() by {
            let x = rest[i];
            assert(x == roots[i]);
            assert(poly_eval(p, roots[i]) == F::nil());
            assert(poly_eval(p, roots[roots.len() - 1]) == F::nil());
            lemma_quotient(p, a, x);
            F::plus_laws(x.plus(a).times(poly_eval(q, x)), F::nil(), F::nil());
            algebra::lemma_no_zero_divisors(x.plus(a), poly_eval(q, x));
            if x.plus(a) == F::nil() {
                algebra::lemma_plus_zero_eq(x, a);
                assert(roots[i] != roots[roots.len() - 1]);
            }
        }
        lemma_roots(q, rest);
        assert(poly_eval(p, roots[roots.len() - 1]) == F::nil());
        lemma_zero_quotient(p, a);
    }
}

/// Two polynomials that agree at `n` distinct points and have at most `n` coefficients each agree
/// everywhere.
pub proof fn lemma_agree<F: TowerField>(p: Seq<F>, q: Seq<F>, points: Seq<F>, x: F)
    requires
        p.len() <= points.len(),
        q.len() <= points.len(),
        forall|i: int, j: int|
            0 <= i < j < points.len() ==> #[trigger] points[i] != #[trigger] points[j],
        forall|i: int|
            0 <= i < points.len() ==> poly_eval(p, #[trigger] points[i]) == poly_eval(q, points[i]),
    ensures
        poly_eval(p, x) == poly_eval(q, x),
        p.len() == q.len() ==> p == q,
{
    let n = points.len();
    let p1 = p + poly_zero((n - p.len()) as nat);
    let q1 = q + poly_zero((n - q.len()) as nat);
    let d = sums::seq_plus(p1, q1);
    assert forall|i: int| 0 <= i < n implies poly_eval(d, #[trigger] points[i]) == F::nil() by {
        let y = points[i];
        lemma_eval_plus(p1, q1, y);
        lemma_eval_pad(p, (n - p.len()) as nat, y);
        lemma_eval_pad(q, (n - q.len()) as nat, y);
        F::plus_laws(poly_eval(p, y), y, y);
    }
    lemma_roots(d, points);
    lemma_eval_plus(p1, q1, x);
    lemma_eval_pad(p, (n - p.len()) as nat, x);
    lemma_eval_pad(q, (n - q.len()) as nat, x);
    lemma_eval_zero(d, x);
    algebra::lemma_plus_zero_eq(poly_eval(p, x), poly_eval(q, x));
    if p.len() == q.len() {
        assert forall|i: int| 0 <= i < p.len() implies p[i] == q[i] by {
            assert(d[i] == F::nil());
            algebra::lemma_plus_zero_eq(p[i], q[i]);
        }
        assert(p =~= q);
    }
}

/// The value of a numerator, and its number of coefficients.
pub proof fn lemma_numerator<F: TowerField>(k: int, m: nat, x: F)
    ensures
        numerator::<F>(k, m).len() == (if 0 <= k < m {
            m
        } else {
            m + 1
        }),
        poly_eval(numerator::<F>(k, m), x) == node_product(k, m, x),
    decreases m,
{
    if m == 0 {
        let one = seq![F::unit()];
        assert(poly_eval(one.drop_first(), x) == F::nil());
        algebra::lemma_times_nil(x);
        F::plus_laws(F::unit(), F::nil(), F::nil());
    } else {
        let j = m - 1;
        lemma_numerator::<F>(k, j as nat, x);
        if j != k {
            let p = numerator::<F>(k, j as nat);
            lemma_eval_times_affine(p, node(j), F::unit(), x);
            algebra::lemma_neutral_left(x);
            F::plus_laws(x, node(j), x);
            F::times_laws(x.plus(node(j)), poly_eval(p, x), x);
        }
    }
}

/// A node product vanishes exactly at the nodes it runs over.
proof fn lemma_node_product<F: TowerField>(k: int, m: nat, i: int)
    requires
        m <= 256,
        0 <= i < 256,
        0 <= k < 256,
    ensures
        node_product(k, m, node::<F>(i)) == F::nil() <==> i < m && i != k,
    decreases m,
{
    F::inverse_laws(F::nil());
    if m > 0 {
        let j = m - 1;
        let x = node::<F>(i);
        lemma_node_product::<F>(k, j as nat, i);
        if j != k {
            let p = node_product(k, j as nat, x);
            let f = x.plus(node(j));
            if i == j {
                F::plus_laws(x, x, x);
            } else if f == F::nil() {
                algebra::lemma_plus_zero_eq(x, node(j));
                F::byte_laws(i as u8, j as u8);
            }
            algebra::lemma_times_nil(p);
            algebra::lemma_times_nil(f);
            if p.times(f) == F::nil() {
                algebra::lemma_no_zero_divisors(p, f);
            }
        }
    }
}

/// The partial interpolants take the prescribed values at the nodes they include and vanish at the
/// others.
proof fn lemma_lagrange_partial<F: TowerField>(evals: Seq<F>, m: nat, i: int)
    requires
        m <= evals.len() <= 256,
        0 <= i < evals.len(),
    ensures
        lagrange_partial(evals, m).len() == evals.len(),
        poly_eval(lagrange_partial(evals, m), node(i)) == if i < m {
            evals[i]
        } else {
            F::nil()
        },
    decreases m,
{
    let n = evals.len();
    let x = node::<F>(i);
    if m == 0 {
        lemma_eval_zero(poly_zero::<F>(n), x);
    } else {
        let k = m - 1;
        let prev = lagrange_partial(evals, k as nat);
        let den = node_product(k, n, node::<F>(k));
        let scale = evals[k].times(den.inverse());
        let num = numerator::<F>(k, n);
        lemma_lagrange_partial(evals, k as nat, i);
        lemma_numerator::<F>(k, n, x);
        lemma_eval_scale(scale, num, x);
        lemma_eval_plus(prev, sums::seq_scale(scale, num), x);
        lemma_node_product::<F>(k, n, i);
        lemma_node_product::<F>(k, n, k);
        algebra::lemma_times_nil(scale);
        F::plus_laws(poly_eval(prev, x), F::nil(), F::nil());
        if i == k {
            F::inverse_laws(den);
            F::times_laws(evals[k], den.inverse(), den);
            F::times_laws(den, den.inverse(), den);
            F::times_laws(evals[k], F::unit(), den);
            algebra::lemma_neutral_left(evals[k]);
        }
    }
}

/// The partial interpolants at any point.
proof fn lemma_lagrange_sum<F: TowerField>(evals: Seq<F>, m: nat, x: F)
    requires
        m <= evals.len(),
    ensures
        lagrange_partial(evals, m).len() == evals.len(),
        poly_eval(lagrange_partial(evals, m), x) == lagrange_sum(evals, m, x),
    decreases m,
{
    let n = evals.len();
    if m == 0 {
        lemma_eval_zero(poly_zero::<F>(n), x);
    } else {
        let k = m - 1;
        let scale = evals[k].times(node_product(k, n, node::<F>(k)).inverse());
        lemma_lagrange_sum(evals, k as nat, x);
        lemma_numerator::<F>(k, n, x);
        lemma_eval_scale(scale, numerator::<F>(k, n), x);
        lemma_eval_plus(
            lagrange_partial(evals, k as nat),
            sums::seq_scale(scale, numerator::<F>(k, n)),
            x,
        );
    }
}

/// The interpolant takes the prescribed values at the nodes.
pub proof fn lemma_lagrange<F: TowerField>(evals: Seq<F>)
    requires
        evals.len() <= 256,
    ensures
        lagrange(evals).len() == evals.len(),
        forall|k: int|
            0 <= k < evals.len() ==> poly_eval(lagrange(evals), #[trigger] node::<F>(k))
                == evals[k],
{
    assert forall|k: int| 0 <= k < evals.len() implies poly_eval(
        lagrange(evals),
        #[trigger] node::<F>(k),
    ) == evals[k] by {
        lemma_lagrange_partial(evals, evals.len(), k);
    }
    if evals.len() > 0 {
        lemma_lagrange_partial(evals, evals.len(), 0);
    }
}

/// The first `n` nodes.
pub open spec fn nodes<F: TowerField>(n: nat) -> Seq<F> {
    Seq::new(n, |k: int| node(k))
}

/// The nodes are pairwise distinct.
pub proof fn lemma_nodes_distinct<F: TowerField>(n: nat)
    requires
        n <= 256,
    ensures
        forall|i: int, j: int|
            0 <= i < j < n ==> #[trigger] nodes::<F>(n)[i] != #[trigger] nodes::<F>(n)[j],
{
    assert forall|i: int, j: int| 0 <= i < j < n implies #[trigger] nodes::<F>(n)[i]
        != #[trigger] nodes::<F>(n)[j] by {
        F::byte_laws(i as u8, j as u8);
    }
}

/// Interpolation is unique: a polynomial with at most `n` coefficients is recovered, at every
/// point, from its values at the first `n` nodes; with exactly `n` coefficients, so are they.
pub proof fn interpolation_round_trip<F: TowerField>(coeffs: Seq<F>, n: nat, x: F)
    requires
        coeffs.len() <= n <= 256,
    ensures
        interpolate(samples(coeffs, n), x) == poly_eval(coeffs, x),
        coeffs.len() == n ==> lagrange(samples(coeffs, n)) == coeffs,
{
    let evals = samples(coeffs, n);
    lemma_lagrange(evals);
    lemma_nodes_distinct::<F>(n);
    assert forall|i: int| 0 <= i < n implies poly_eval(lagrange(evals), #[trigger] nodes::<F>(n)[i])
        == poly_eval(coeffs, nodes::<F>(n)[i]) by {
        assert(nodes::<F>(n)[i] == node::<F>(i));
    }
    lemma_agree(lagrange(evals), coeffs, nodes(n), x);
}

/// Interpolate through `(node(k), evals[k])` and evaluate at `x`, without forming the coefficients.
pub fn interpolate_at<F: TowerField>(evals: &[F], x: F) -> (r: F)
    requires
        evals@.len() <= 256,
    ensures
        r == interpolate(evals@, x),
{
    let n: usize = evals.len();
    let mut acc = F::zero();
    let mut k: usize = 0;
    while k < n
        invariant
            k <= n,
            n == evals.len(),
            n <= 256,
            acc == lagrange_sum(evals@, k as nat, x),
        decreases n - k,
    {
        let x_k = F::from_byte(k as u8);
        let mut num = F::one();
        let mut den = F::one();
        let mut j: usize = 0;
        while j < n
            invariant
                j <= n <= 256,
                k < n,
                x_k == node::<F>(k as int),
                num == node_product(k as int, j as nat, x),
                den == node_product(k as int, j as nat, x_k),
            decreases n - j,
        {
            if j != k {
                let x_j = F::from_byte(j as u8);
                num = num.fmul(x.fadd(x_j));
                den = den.fmul(x_k.fadd(x_j));
            }
            j = j + 1;
        }
        acc = acc.fadd(evals[k].fmul(den.invert()).fmul(num));
        k = k + 1;
    }
    proof {
        lemma_lagrange_sum(evals@, evals@.len(), x);
    }
    acc
}

/// A polynomial at a point is the sum of its coefficients times the powers of the point: one more
/// coefficient at the top contributes itself times the next power.
pub proof fn polynomial_sums_powers<F: TowerField>(coeffs: Seq<F>, c: F, x: F)
    ensures
        poly_eval(Seq::<F>::empty(), x) == F::nil(),
        poly_eval(coeffs.push(c), x) == poly_eval(coeffs, x).plus(
            c.times(power(x, coeffs.len())),
        ),
        power(x, 0) == F::unit(),
        power(x, coeffs.len() + 1) == power(x, coeffs.len()).times(x),
    decreases coeffs.len(),
{
    let all = coeffs.push(c);
    let n = coeffs.len();
    assert((n + 1 - 1) as nat == n);
    if n == 0 {
        assert(all.drop_first() =~= Seq::empty());
        assert(coeffs =~= Seq::empty());
        algebra::lemma_times_nil(x);
        F::plus_laws(c, F::nil(), c);
        algebra::lemma_neutral_left(c);
        F::times_laws(c, F::unit(), c);
    } else {
        let tail = coeffs.drop_first();
        polynomial_sums_powers(tail, c, x);
        assert(all.drop_first() =~= tail.push(c));
        let (t, q) = (poly_eval(tail, x), c.times(power(x, tail.len())));
        F::times_laws(x, t, q);
        F::plus_laws(coeffs[0], x.times(t), x.times(q));
        let w = power(x, tail.len());
        F::times_laws(x, c, w);
        F::times_laws(c, x, w);
        F::times_laws(x, w, w);
        F::times_laws(c.times(w), x, x);
        F::times_laws(c, w, x);
    }
}

/// The interpolant takes the given value at each node, the nodes being the first bytes as field
/// elements.
pub proof fn interpolant_meets_its_values<F: TowerField>(evals: Seq<F>, k: int)
    requires
        0 <= k < evals.len() <= 256,
    ensures
        interpolate(evals, F::of_byte(k as u8)) == evals[k],
{
    lemma_lagrange(evals);
    assert(poly_eval(lagrange(evals), node::<F>(k)) == evals[k]);
}

} // verus!
