//! Multilinear extensions over the Boolean hypercube.
//!
//! A table of `2^n` values lists a function on `{0,1}^n`: variable `i` is bit `i` of the index.
use crate::algebra;
use crate::sums;
use crate::tower_field::TowerField;
use vstd::prelude::*;

verus! {

/// Number of vertices of the hypercube with `n` variables.
pub open spec fn cube(n: nat) -> nat
    decreases n,
{
    if n == 0 {
        1
    } else {
        2 * cube((n - 1) as nat)
    }
}

/// Cubes grow with their dimension.
pub proof fn lemma_cube_monotone(m: nat, n: nat)
    requires
        m <= n,
    ensures
        0 < cube(m) <= cube(n),
        n < cube(n),
    decreases n,
{
    if n > 0 {
        if m < n {
            lemma_cube_monotone(m, (n - 1) as nat);
        } else {
            lemma_cube_monotone((n - 1) as nat, (n - 1) as nat);
        }
    }
}

/// Cubes of different dimensions have different sizes.
pub proof fn lemma_cube_injective(m: nat, n: nat)
    requires
        cube(m) == cube(n),
    ensures
        m == n,
{
    if m < n {
        lemma_cube_monotone(m, (n - 1) as nat);
    } else if n < m {
        lemma_cube_monotone(n, (m - 1) as nat);
    }
}

/// `2^(m + n) = 2^m 2^n`.
pub proof fn lemma_cube_sum(m: nat, n: nat)
    ensures
        cube(m + n) == cube(m) * cube(n),
    decreases n,
{
    if n > 0 {
        lemma_cube_sum(m, (n - 1) as nat);
        let (a, b) = (cube(m), cube((n - 1) as nat));
        assert(a * (2 * b) == 2 * (a * b)) by (nonlinear_arith);
        assert(cube(n) == 2 * b);
        assert(cube(m + n) == 2 * cube((m + n - 1) as nat));
        assert((m + n - 1) as nat == m + (n - 1) as nat);
        assert(cube(m) * cube(n) == a * (2 * b));
    } else {
        assert(cube(n) == 1);
        assert(cube(m) * 1 == cube(m)) by (nonlinear_arith);
    }
}

/// The Lagrange weight of vertex `x` at `point`: the product over all variables of `point[i]` where
/// bit `i` of `x` is set and of `1 + point[i]` where it is not.
pub open spec fn eq_weight<F: TowerField>(point: Seq<F>, x: int) -> F
    decreases point.len(),
{
    if point.len() == 0 {
        F::unit()
    } else {
        let half = cube((point.len() - 1) as nat);
        if x < half {
            eq_weight(point.drop_last(), x).times(F::unit().plus(point.last()))
        } else {
            eq_weight(point.drop_last(), x - half).times(point.last())
        }
    }
}

/// The table of all Lagrange weights at `point`.
pub open spec fn eq_table<F: TowerField>(point: Seq<F>) -> Seq<F> {
    Seq::new(cube(point.len()), |x: int| eq_weight(point, x))
}

/// The value at `point` of the multilinear polynomial that agrees with `table` on the hypercube.
pub open spec fn mle_eval<F: TowerField>(table: Seq<F>, point: Seq<F>) -> F {
    sums::dot(eq_table(point), table)
}

/// The product over all variables of `1 + a[i] + b[i]`; on the hypercube, one exactly where `a`
/// and `b` agree.
pub open spec fn eq_product<F: TowerField>(a: Seq<F>, b: Seq<F>) -> F
    decreases a.len(),
{
    if a.len() == 0 {
        F::unit()
    } else {
        eq_product(a.drop_last(), b.drop_last()).times(F::unit().plus(a.last()).plus(b.last()))
    }
}

/// The affine function with value `lo` at zero and `hi` at one.
pub open spec fn lerp<F: TowerField>(lo: F, hi: F, r: F) -> F {
    lo.plus(r.times(lo.plus(hi)))
}

/// The table after the highest variable has been fixed to `r`.
pub open spec fn fold_high<F: TowerField>(table: Seq<F>, r: F) -> Seq<F> {
    Seq::new(table.len() / 2, |j: int| lerp(table[j], table[j + table.len() / 2], r))
}

/// The table after the lowest variable has been fixed to `r`.
pub open spec fn fold_low<F: TowerField>(table: Seq<F>, r: F) -> Seq<F> {
    Seq::new(table.len() / 2, |j: int| lerp(table[2 * j], table[2 * j + 1], r))
}

/// The table after the highest variables have been fixed to the challenges, in order.
pub open spec fn fold_highs<F: TowerField>(table: Seq<F>, challenges: Seq<F>) -> Seq<F>
    decreases challenges.len(),
{
    if challenges.len() == 0 {
        table
    } else {
        fold_high(fold_highs(table, challenges.drop_last()), challenges.last())
    }
}

/// An affine function at zero and at one, and as a weighted sum of its values there.
pub proof fn lemma_lerp<F: TowerField>(lo: F, hi: F, r: F)
    ensures
        lerp(lo, hi, F::nil()) == lo,
        lerp(lo, hi, F::unit()) == hi,
        lerp(lo, hi, r) == F::unit().plus(r).times(lo).plus(r.times(hi)),
{
    algebra::lemma_neutral_left(lo.plus(hi));
    algebra::lemma_times_nil(lo.plus(hi));
    algebra::lemma_plus_cancel(lo, hi);
    F::plus_laws(lo, lo, lo);
    algebra::lemma_neutral_left(lo);
    algebra::lemma_distribute_right(F::unit(), r, lo);
    F::times_laws(r, lo, hi);
    F::plus_laws(lo, r.times(lo), r.times(hi));
}

/// The two halves of the table of weights.
pub proof fn lemma_eq_table_halves<F: TowerField>(point: Seq<F>)
    requires
        point.len() > 0,
    ensures
        ({
            let low = eq_table(point.drop_last());
            let r = point.last();
            eq_table(point) == sums::seq_scale(F::unit().plus(r), low) + sums::seq_scale(r, low)
        }),
{
    let low = eq_table(point.drop_last());
    let r = point.last();
    let n1 = (point.len() - 1) as nat;
    let whole = sums::seq_scale(F::unit().plus(r), low) + sums::seq_scale(r, low);
    assert forall|x: int| 0 <= x < cube(point.len()) implies #[trigger] eq_table(point)[x]
        == whole[x] by {
        if x < cube(n1) {
            F::times_laws(low[x], F::unit().plus(r), r);
        } else {
            F::times_laws(low[x - cube(n1)], r, r);
        }
    }
    assert(eq_table(point) =~= whole);
}

/// Fixing the highest variable does not change the value at a point that agrees on it.
pub proof fn lemma_fold_high<F: TowerField>(table: Seq<F>, point: Seq<F>)
    requires
        point.len() > 0,
        table.len() == cube(point.len()),
    ensures
        mle_eval(table, point) == mle_eval(fold_high(table, point.last()), point.drop_last()),
{
    let r = point.last();
    let low = eq_table(point.drop_last());
    let h = cube((point.len() - 1) as nat) as int;
    let (a, b) = (table.take(h), table.skip(h));
    let (wa, wb) = (sums::seq_scale(F::unit().plus(r), low), sums::seq_scale(r, low));
    lemma_eq_table_halves(point);
    assert(sums::seq_times(eq_table(point), table) =~= sums::seq_times(wa, a) + sums::seq_times(
        wb,
        b,
    ));
    sums::lemma_total_concat(sums::seq_times(wa, a), sums::seq_times(wb, b));
    let (sa, sb) = (sums::seq_scale(F::unit().plus(r), a), sums::seq_scale(r, b));
    sums::lemma_dot_scale(F::unit().plus(r), low, a);
    sums::lemma_dot_scale(r, low, b);
    sums::lemma_dot_plus(low, sa, sb);
    assert forall|j: int| 0 <= j < h implies #[trigger] fold_high(table, r)[j] == sums::seq_plus(
        sa,
        sb,
    )[j] by {
        lemma_lerp(table[j], table[j + h], r);
    }
    assert(fold_high(table, r) =~= sums::seq_plus(sa, sb));
}

/// Fixing variables from the highest down evaluates the multilinear extension.
pub proof fn lemma_fold_highs<F: TowerField>(table: Seq<F>, challenges: Seq<F>, rest: Seq<F>)
    requires
        table.len() == cube(rest.len() + challenges.len()),
    ensures
        fold_highs(table, challenges).len() == cube(rest.len()),
        mle_eval(table, rest + challenges.reverse()) == mle_eval(
            fold_highs(table, challenges),
            rest,
        ),
    decreases challenges.len(),
{
    if challenges.len() == 0 {
        assert(rest + challenges.reverse() =~= rest);
    } else {
        let c = challenges.last();
        let prev = challenges.drop_last();
        lemma_fold_highs(table, prev, rest.push(c));
        assert(rest + challenges.reverse() =~= rest.push(c) + prev.reverse());
        assert(rest.push(c).drop_last() =~= rest);
        lemma_fold_high(fold_highs(table, prev), rest.push(c));
    }
}

/// Fixing all variables from the highest down leaves the value of the multilinear extension.
pub proof fn lemma_fold_all<F: TowerField>(table: Seq<F>, challenges: Seq<F>)
    requires
        table.len() == cube(challenges.len()),
    ensures
        fold_highs(table, challenges).len() == 1,
        fold_highs(table, challenges)[0] == mle_eval(table, challenges.reverse()),
{
    lemma_fold_highs(table, challenges, Seq::empty());
    assert(Seq::<F>::empty() + challenges.reverse() =~= challenges.reverse());
    lemma_mle_empty(fold_highs(table, challenges));
}

/// A table without variables is its single value.
pub proof fn lemma_mle_empty<F: TowerField>(table: Seq<F>)
    requires
        table.len() == 1,
    ensures
        mle_eval(table, Seq::empty()) == table[0],
{
    let p = Seq::<F>::empty();
    let s = sums::seq_times(eq_table(p), table);
    assert(s.len() == 1);
    assert(s =~= Seq::empty().push(table[0])) by {
        algebra::lemma_neutral_left(table[0]);
    }
    sums::lemma_total_push(Seq::empty(), table[0]);
    algebra::lemma_neutral_left(table[0]);
}

/// The weight table is itself multilinear: its extension at `b` is the product of `1 + a[i] + b[i]`.
pub proof fn lemma_eq_product<F: TowerField>(a: Seq<F>, b: Seq<F>)
    requires
        a.len() == b.len(),
    ensures
        mle_eval(eq_table(a), b) == eq_product(a, b),
    decreases a.len(),
{
    if a.len() == 0 {
        assert(b =~= Seq::empty());
        lemma_mle_empty(eq_table(a));
    } else {
        let (p, c) = (a.last(), b.last());
        let low = eq_table(a.drop_last());
        let f = F::unit().plus(p).plus(c);
        let h = cube((a.len() - 1) as nat) as int;
        lemma_fold_high(eq_table(a), b);
        lemma_eq_table_halves(a);
        assert forall|j: int| 0 <= j < h implies #[trigger] fold_high(eq_table(a), c)[j]
            == sums::seq_scale(f, low)[j] by {
            lemma_eq_fold_entry(low[j], p, c);
        }
        assert(fold_high(eq_table(a), c) =~= sums::seq_scale(f, low));
        sums::lemma_dot_scale(f, eq_table(b.drop_last()), low);
        lemma_eq_product(a.drop_last(), b.drop_last());
        F::times_laws(f, eq_product(a.drop_last(), b.drop_last()), f);
    }
}

/// Fixing a variable of the weight table multiplies the remaining weights by `1 + p + c`.
pub proof fn lemma_eq_fold_entry<F: TowerField>(w: F, p: F, c: F)
    ensures
        lerp(F::unit().plus(p).times(w), p.times(w), c) == F::unit().plus(p).plus(c).times(w),
{
    let q = F::unit().plus(p);
    algebra::lemma_distribute_right(q, p, w);
    algebra::lemma_plus_cancel(F::unit(), p);
    algebra::lemma_neutral_left(w);
    algebra::lemma_distribute_right(q, c, w);
    assert(q.times(w).plus(p.times(w)) == w);
}

/// The multilinear extension is additive in the table.
pub proof fn lemma_mle_plus<F: TowerField>(s: Seq<F>, t: Seq<F>, point: Seq<F>)
    requires
        s.len() == t.len() == cube(point.len()),
    ensures
        mle_eval(sums::seq_plus(s, t), point) == mle_eval(s, point).plus(mle_eval(t, point)),
{
    sums::lemma_dot_plus(eq_table(point), s, t);
}

/// The coordinates of hypercube vertex `x`: coordinate `i` is bit `i`.
pub open spec fn vertex<F: TowerField>(x: int, n: nat) -> Seq<F> {
    Seq::new(
        n,
        |i: int|
            if (x / (cube(i as nat) as int)) % 2 == 1 {
                F::unit()
            } else {
                F::nil()
            },
    )
}

/// The bits of `x + 2^m` below bit `m` are those of `x`.
proof fn lemma_low_bits(x: int, i: nat, m: nat)
    requires
        0 <= x,
        i < m,
    ensures
        ((x + cube(m)) / (cube(i) as int)) % 2 == (x / (cube(i) as int)) % 2,
{
    let d = (m - i - 1) as nat;
    let (p, q) = (cube(i) as int, cube(d) as int);
    lemma_cube_sum(i, (d + 1) as nat);
    lemma_cube_monotone(i, i);
    assert(cube((d + 1) as nat) == 2 * cube(d));
    assert(p * (2 * q) == (2 * q) * p) by (nonlinear_arith);
    vstd::arithmetic::div_mod::lemma_hoist_over_denominator(x, 2 * q, p as nat);
}

/// The top bit of a vertex, and the coordinates below it.
pub proof fn lemma_vertex_top<F: TowerField>(x: int, n: nat)
    requires
        n > 0,
        0 <= x < cube(n),
    ensures
        ({
            let half = cube((n - 1) as nat) as int;
            let low = if x < half {
                x
            } else {
                x - half
            };
            &&& 0 <= low < half
            &&& vertex::<F>(x, n).drop_last() == vertex::<F>(low, (n - 1) as nat)
            &&& vertex::<F>(x, n).last() == if x < half {
                F::nil()
            } else {
                F::unit()
            }
        }),
{
    let half = cube((n - 1) as nat) as int;
    lemma_cube_monotone((n - 1) as nat, (n - 1) as nat);
    let low = if x < half {
        x
    } else {
        x - half
    };
    assert(x / half == if x < half {
        0int
    } else {
        1int
    }) by {
        if x < half {
            vstd::arithmetic::div_mod::lemma_basic_div(x, half);
        } else {
            vstd::arithmetic::div_mod::lemma_basic_div(x - half, half);
            vstd::arithmetic::div_mod::lemma_div_plus_one(x - half, half);
        }
    }
    assert forall|i: int| 0 <= i < n - 1 implies #[trigger] vertex::<F>(x, n)[i] == vertex::<F>(
        low,
        (n - 1) as nat,
    )[i] by {
        if x >= half {
            lemma_low_bits(low, i as nat, (n - 1) as nat);
        }
    }
    assert(vertex::<F>(x, n).drop_last() =~= vertex::<F>(low, (n - 1) as nat));
}

/// At a vertex of the hypercube the multilinear extension is the table entry.
pub proof fn mle_at_vertex<F: TowerField>(table: Seq<F>, x: int, n: nat)
    requires
        table.len() == cube(n),
        0 <= x < cube(n),
    ensures
        mle_eval(table, vertex(x, n)) == table[x],
    decreases n,
{
    let p = vertex::<F>(x, n);
    if n == 0 {
        assert(p =~= Seq::empty());
        lemma_mle_empty(table);
    } else {
        let half = cube((n - 1) as nat) as int;
        lemma_vertex_top::<F>(x, n);
        lemma_fold_high(table, p);
        let folded = fold_high(table, p.last());
        if x < half {
            mle_at_vertex(folded, x, (n - 1) as nat);
            lemma_lerp(table[x], table[x + half], F::nil());
        } else {
            mle_at_vertex(folded, x - half, (n - 1) as nat);
            lemma_lerp(table[x - half], table[x], F::nil());
        }
    }
}

/// Fixing the highest variable to zero or one selects a half of the table.
pub proof fn lemma_fold_bit<F: TowerField>(table: Seq<F>)
    requires
        table.len() % 2 == 0,
    ensures
        fold_high(table, F::nil()) == table.take((table.len() / 2) as int),
        fold_high(table, F::unit()) == table.skip((table.len() / 2) as int),
{
    let h = (table.len() / 2) as int;
    assert forall|j: int| 0 <= j < h implies #[trigger] fold_high(table, F::nil())[j] == table.take(
        h,
    )[j] by {
        lemma_lerp(table[j], table[j + h], F::nil());
    }
    assert forall|j: int| 0 <= j < h implies #[trigger] fold_high(table, F::unit())[j]
        == table.skip(h)[j] by {
        lemma_lerp(table[j], table[j + h], F::nil());
    }
    assert(fold_high(table, F::nil()) =~= table.take(h));
    assert(fold_high(table, F::unit()) =~= table.skip(h));
}

/// The vertex of index zero is the origin.
pub proof fn lemma_vertex_zero<F: TowerField>(n: nat)
    ensures
        vertex::<F>(0, n) == Seq::new(n, |i: int| F::nil()),
{
    assert forall|i: int| 0 <= i < n implies #[trigger] vertex::<F>(0, n)[i] == F::nil() by {
        lemma_cube_monotone(i as nat, i as nat);
        vstd::arithmetic::div_mod::lemma_basic_div(0, cube(i as nat) as int);
    }
    assert(vertex::<F>(0, n) =~= Seq::new(n, |i: int| F::nil()));
}

/// The weight of a vertex in terms of its lowest bit and the rest.
proof fn lemma_weight_low<F: TowerField>(point: Seq<F>, y: int, odd: bool)
    requires
        point.len() > 0,
        0 <= y < cube((point.len() - 1) as nat),
    ensures
        eq_weight(
            point,
            if odd {
                2 * y + 1
            } else {
                2 * y
            },
        ) == (if odd {
            point[0]
        } else {
            F::unit().plus(point[0])
        }).times(eq_weight(point.drop_first(), y)),
    decreases point.len(),
{
    let x = if odd {
        2 * y + 1
    } else {
        2 * y
    };
    let f = if odd {
        point[0]
    } else {
        F::unit().plus(point[0])
    };
    let rest = point.drop_first();
    if point.len() == 1 {
        assert(cube(0) == 1);
        assert(point.drop_last() =~= Seq::empty());
        assert(rest =~= Seq::empty());
        assert(eq_weight(point.drop_last(), 0) == F::unit());
        assert(eq_weight(rest, y) == F::unit());
        F::times_laws(F::unit(), f, f);
        assert(eq_weight(point, x) == F::unit().times(f));
    } else {
        let n1 = (point.len() - 1) as nat;
        let n2 = (point.len() - 2) as nat;
        let half = cube(n1) as int;
        let quarter = cube(n2) as int;
        assert(half == 2 * quarter);
        let low = point.drop_last();
        assert(low.drop_first() =~= rest.drop_last());
        assert(low[0] == point[0]);
        assert(rest.last() == point.last());
        let y1 = if y < quarter {
            y
        } else {
            y - quarter
        };
        let g = if y < quarter {
            F::unit().plus(point.last())
        } else {
            point.last()
        };
        lemma_weight_low(low, y1, odd);
        F::times_laws(f, eq_weight(rest.drop_last(), y1), g);
        assert(eq_weight(rest, y) == eq_weight(rest.drop_last(), y1).times(g));
        if y < quarter {
            assert(eq_weight(point, x) == eq_weight(low, x).times(g));
        } else {
            assert(eq_weight(point, x) == eq_weight(low, x - half).times(g));
        }
    }
}

/// Fixing the lowest variable does not change the value at a point that agrees on it.
pub proof fn lemma_fold_low<F: TowerField>(table: Seq<F>, point: Seq<F>)
    requires
        point.len() > 0,
        table.len() == cube(point.len()),
    ensures
        fold_low(table, point[0]).len() == cube((point.len() - 1) as nat),
        mle_eval(table, point) == mle_eval(fold_low(table, point[0]), point.drop_first()),
{
    let rest = point.drop_first();
    let r = point[0];
    let terms = sums::seq_times(eq_table(point), table);
    let half = cube((point.len() - 1) as nat);
    assert(table.len() == 2 * half);
    sums::lemma_total_pairs(terms);
    let pairs = Seq::new(terms.len() / 2, |i: int| terms[2 * i].plus(terms[2 * i + 1]));
    let want = sums::seq_times(eq_table(rest), fold_low(table, r));
    assert forall|y: int| 0 <= y < half implies #[trigger] pairs[y] == want[y] by {
        let w = eq_weight(rest, y);
        let (lo, hi) = (table[2 * y], table[2 * y + 1]);
        lemma_weight_low(point, y, false);
        lemma_weight_low(point, y, true);
        let f = F::unit().plus(r);
        F::times_laws(f, w, lo);
        F::times_laws(w, f, lo);
        F::times_laws(r, w, hi);
        F::times_laws(w, r, hi);
        F::times_laws(w, f.times(lo), r.times(hi));
        lemma_lerp(lo, hi, r);
    }
    assert(pairs =~= want);
}

/// The table after the lowest variables have been fixed to the challenges, in order.
pub open spec fn fold_lows<F: TowerField>(table: Seq<F>, challenges: Seq<F>) -> Seq<F>
    decreases challenges.len(),
{
    if challenges.len() == 0 {
        table
    } else {
        fold_low(fold_lows(table, challenges.drop_last()), challenges.last())
    }
}

/// Fixing variables from the lowest up evaluates the multilinear extension.
pub proof fn lemma_fold_lows<F: TowerField>(table: Seq<F>, challenges: Seq<F>, rest: Seq<F>)
    requires
        table.len() == cube(challenges.len() + rest.len()),
    ensures
        fold_lows(table, challenges).len() == cube(rest.len()),
        mle_eval(table, challenges + rest) == mle_eval(fold_lows(table, challenges), rest),
    decreases challenges.len(),
{
    if challenges.len() == 0 {
        assert(challenges + rest =~= rest);
    } else {
        let c = challenges.last();
        let prev = challenges.drop_last();
        let more = seq![c] + rest;
        lemma_fold_lows(table, prev, more);
        assert(challenges + rest =~= prev + more);
        assert(more.drop_first() =~= rest);
        lemma_fold_low(fold_lows(table, prev), more);
    }
}

/// Fixing all variables from the lowest up leaves the value of the multilinear extension.
pub proof fn lemma_fold_lows_all<F: TowerField>(table: Seq<F>, challenges: Seq<F>)
    requires
        table.len() == cube(challenges.len()),
    ensures
        fold_lows(table, challenges).len() == 1,
        fold_lows(table, challenges)[0] == mle_eval(table, challenges),
{
    lemma_fold_lows(table, challenges, Seq::empty());
    assert(challenges + Seq::<F>::empty() =~= challenges);
    lemma_mle_empty(fold_lows(table, challenges));
}

/// The extension is multilinear: its value at a point is affine in the last coordinate, between the
/// values of the two halves of the table, and the extension of a single value is that value.
pub proof fn extension_is_multilinear<F: TowerField>(low: Seq<F>, high: Seq<F>, point: Seq<F>, x: F)
    requires
        low.len() == cube(point.len()),
        high.len() == cube(point.len()),
    ensures
        mle_eval(low + high, point.push(x)) == F::unit().plus(x).times(mle_eval(low, point)).plus(
            x.times(mle_eval(high, point)),
        ),
        point.len() == 0 ==> mle_eval(low, point) == low[0],
{
    let table = low + high;
    let at = point.push(x);
    assert(at.drop_last() =~= point);
    lemma_fold_high(table, at);
    let (a, b) = (sums::seq_scale(F::unit().plus(x), low), sums::seq_scale(x, high));
    assert forall|j: int| 0 <= j < low.len() implies #[trigger] fold_high(table, x)[j]
        == sums::seq_plus(a, b)[j] by {
        lemma_lerp(low[j], high[j], x);
    }
    assert(fold_high(table, x) =~= sums::seq_plus(a, b));
    let w = eq_table(point);
    sums::lemma_dot_plus(w, a, b);
    lemma_dot_scale_right(F::unit().plus(x), w, low);
    lemma_dot_scale_right(x, w, high);
    if point.len() == 0 {
        assert(point =~= Seq::empty());
        lemma_mle_empty(low);
    }
}

proof fn lemma_dot_scale_right<F: TowerField>(c: F, s: Seq<F>, t: Seq<F>)
    requires
        s.len() == t.len(),
    ensures
        sums::dot(s, sums::seq_scale(c, t)) == c.times(sums::dot(s, t)),
{
    let left = sums::seq_times(s, sums::seq_scale(c, t));
    let right = sums::seq_scale(c, sums::seq_times(s, t));
    assert forall|j: int| 0 <= j < s.len() implies #[trigger] left[j] == right[j] by {
        F::times_laws(s[j], c, t[j]);
        F::times_laws(c, s[j], t[j]);
    }
    assert(left =~= right);
    sums::lemma_total_scale(c, sums::seq_times(s, t));
}

/// `eq` compares points coordinate by coordinate: one more pair of coordinates contributes
/// `a b + (1 + a)(1 + b)`.
pub proof fn eq_compares_coordinates<F: TowerField>(p: Seq<F>, q: Seq<F>, a: F, b: F)
    ensures
        eq_product(p.push(a), q.push(b)) == eq_product(p, q).times(
            a.times(b).plus(F::unit().plus(a).times(F::unit().plus(b))),
        ),
        eq_product(Seq::<F>::empty(), Seq::<F>::empty()) == F::unit(),
{
    let one = F::unit();
    assert(p.push(a).drop_last() =~= p);
    assert(q.push(b).drop_last() =~= q);
    algebra::lemma_times_sums(one, a, one, b);
    algebra::lemma_neutral_left(one);
    algebra::lemma_neutral_left(b);
    F::times_laws(a, one, one);
    let ab = a.times(b);
    let u = one.plus(a);
    F::plus_laws(u, b, ab);
    F::plus_laws(ab, u.plus(b), ab);
    F::plus_laws(u.plus(b), ab, ab);
    F::plus_laws(u.plus(b), F::nil(), ab);
}

} // verus!
