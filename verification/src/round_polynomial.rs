//! Round polynomials exchanged by sumcheck provers and verifiers.
use crate::algebra;
use crate::poly;
use crate::sums;
use crate::tower_field::TowerField;
use vstd::prelude::*;

verus! {

/// Univariate polynomial in coefficient form: `coeffs[i]` is the coefficient of `X^i`.
#[derive(Debug, Clone, PartialEq, Eq)]
pub struct RoundPolynomial<F> {
    pub coeffs: Vec<F>,
}

/// Multiply a polynomial by `X + a`.
fn times_linear<F: TowerField>(p: &Vec<F>, a: F) -> (r: Vec<F>)
    requires
        p.len() < usize::MAX,
    ensures
        r@ == poly::poly_times_affine(p@, a, F::unit()),
{
    let n: usize = p.len();
    let mut r: Vec<F> = Vec::with_capacity(n + 1);
    let mut i: usize = 0;
    let ghost want = poly::poly_times_affine(p@, a, F::unit());
    while i <= n
        invariant
            n == p.len(),
            i <= n + 1,
            r.len() == i,
            n < usize::MAX,
            want == poly::poly_times_affine(p@, a, F::unit()),
            forall|j: int| 0 <= j < i ==> r@[j] == #[trigger] want[j],
        decreases n + 1 - i,
    {
        proof {
            let low = if i < n { p@[i as int] } else { F::nil() };
            let high = if i > 0 { p@[i - 1] } else { F::nil() };
            algebra::lemma_neutral_left(high);
            F::times_laws(a, low, low);
            algebra::lemma_times_nil(a);
            algebra::lemma_times_nil(F::unit());
            algebra::lemma_neutral_left(high);
            algebra::lemma_neutral_left(F::nil());
            F::plus_laws(a.times(low), F::nil(), F::nil());
            assert(want[i as int] == a.times(low).plus(F::unit().times(high)));
        }
        let shifted = if i > 0 { p[i - 1] } else { F::zero() };
        let scaled = if i < n { p[i].fmul(a) } else { F::zero() };
        r.push(scaled.fadd(shifted));
        i = i + 1;
    }
    proof {
        assert(r@ =~= want);
    }
    r
}

impl<F: TowerField> RoundPolynomial<F> {
    /// The polynomial with the given coefficients.
    pub fn from_coeffs(coeffs: Vec<F>) -> (r: Self)
        ensures
            r.coeffs == coeffs,
    {
        RoundPolynomial { coeffs }
    }

    /// One less than the number of coefficients, and zero if there are none.
    pub fn degree(&self) -> (r: usize)
        ensures
            r == (if self.coeffs@.len() == 0 {
                0
            } else {
                self.coeffs@.len() - 1
            }),
    {
        self.coeffs.len().saturating_sub(1)
    }

    /// Horner evaluation: `c0 + x*(c1 + x*(c2 + ...))`.
    pub fn evaluate(&self, x: F) -> (r: F)
        ensures
            r == poly::poly_eval(self.coeffs@, x),
    {
        let mut acc = F::zero();
        let mut i: usize = self.coeffs.len();
        while i > 0
            invariant
                i <= self.coeffs.len(),
                acc == poly::poly_eval(self.coeffs@.skip(i as int), x),
            decreases i,
        {
            i = i - 1;
            proof {
                assert(self.coeffs@.skip(i as int).drop_first() =~= self.coeffs@.skip(i + 1));
                F::times_laws(acc, x, x);
                F::plus_laws(acc.times(x), self.coeffs@[i as int], x);
            }
            acc = acc.fmul(x).fadd(self.coeffs[i]);
        }
        proof {
            assert(self.coeffs@.skip(0) =~= self.coeffs@);
        }
        acc
    }

    /// Interpolate from `(0, e0), (1, e1), …, (d, e_d)`, where the byte `k` denotes the `k`-th
    /// node.
    pub fn from_evals(evals: &[F]) -> (r: Self)
        requires
            0 < evals.len() <= 256,
        ensures
            r.coeffs@ == poly::lagrange(evals@),
            r.coeffs@.len() == evals@.len(),
            forall|k: int|
                0 <= k < evals@.len() ==> poly::poly_eval(r.coeffs@, #[trigger] F::of_byte(k as u8))
                    == evals@[k],
    {
        let n: usize = evals.len();
        let mut coefficients: Vec<F> = Vec::with_capacity(n);
        let mut fill: usize = 0;
        while fill < n
            invariant
                fill <= n,
                coefficients@ == poly::poly_zero::<F>(fill as nat),
            decreases n - fill,
        {
            coefficients.push(F::zero());
            fill = fill + 1;
            proof {
                assert(coefficients@ =~= poly::poly_zero::<F>(fill as nat));
            }
        }
        let mut k: usize = 0;
        while k < n
            invariant
                n == evals.len(),
                0 < n <= 256,
                k <= n,
                coefficients@ == poly::lagrange_partial(evals@, k as nat),
                coefficients.len() == n,
            decreases n - k,
        {
            let evaluation = evals[k];
            let x_k = F::from_byte(k as u8);
            let mut numerator: Vec<F> = Vec::with_capacity(n);
            numerator.push(F::one());
            let mut denominator = F::one();
            let mut j: usize = 0;
            while j < n
                invariant
                    j <= n <= 256,
                    k < n,
                    x_k == poly::node::<F>(k as int),
                    numerator@ == poly::numerator::<F>(k as int, j as nat),
                    denominator == poly::node_product(k as int, j as nat, x_k),
                decreases n - j,
            {
                if j != k {
                    proof {
                        poly::lemma_numerator::<F>(k as int, j as nat, x_k);
                    }
                    let x_j = F::from_byte(j as u8);
                    numerator = times_linear(&numerator, x_j);
                    denominator = denominator.fmul(x_k.fadd(x_j));
                }
                j = j + 1;
            }
            proof {
                poly::lemma_numerator::<F>(k as int, n as nat, x_k);
            }
            let scale = evaluation.fmul(denominator.invert());
            let ghost before = coefficients@;
            let ghost want = poly::lagrange_partial(evals@, (k + 1) as nat);
            let mut i: usize = 0;
            while i < n
                invariant
                    i <= n,
                    coefficients.len() == n,
                    numerator.len() == n,
                    before.len() == n,
                    want == sums::seq_plus(before, sums::seq_scale(scale, numerator@)),
                    forall|m: int| 0 <= m < i ==> coefficients@[m] == #[trigger] want[m],
                    forall|m: int| i <= m < n ==> coefficients@[m] == before[m],
                decreases n - i,
            {
                proof {
                    F::times_laws(numerator@[i as int], scale, scale);
                    assert(want[i as int] == before[i as int].plus(
                        scale.times(numerator@[i as int]),
                    ));
                }
                let updated = coefficients[i].fadd(numerator[i].fmul(scale));
                coefficients.set(i, updated);
                i = i + 1;
            }
            proof {
                assert(coefficients@ =~= want);
            }
            k = k + 1;
        }
        proof {
            poly::lemma_lagrange(evals@);
            assert forall|m: int| 0 <= m < evals@.len() implies poly::poly_eval(
                coefficients@,
                #[trigger] F::of_byte(m as u8),
            ) == evals@[m] by {
                assert(F::of_byte(m as u8) == poly::node::<F>(m));
            }
        }
        RoundPolynomial { coeffs: coefficients }
    }
}

} // verus!
