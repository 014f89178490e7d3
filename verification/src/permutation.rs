//! The Poseidon2b permutation over GF(2^128).
//!
//! The width is four; a linear layer is followed by 66 rounds.  In the four first and the four last
//! rounds every lane passes the S-box `x^7`; in the others only lane zero does.  The round constants
//! and the matrix entries are parameters: a [`Poseidon2bPermutation`] carries them.
use crate::algebra;
use crate::block128::Block128;
use crate::sums;
use crate::tower_field::TowerField;
use vstd::prelude::*;

verus! {

/// Number of rounds.
pub const N_ROUNDS: usize = 66;

/// Number of lanes.
pub const STATE_SIZE: usize = 4;

/// Whether the S-box is applied to every lane or to lane zero alone.
#[derive(Debug, Clone, Copy, PartialEq, Eq, Structural)]
pub enum RoundKind {
    Full,
    Partial,
}

/// The kind of round `r`.
pub open spec fn kind_of(r: int) -> RoundKind {
    if r < 4 || r >= 62 {
        RoundKind::Full
    } else {
        RoundKind::Partial
    }
}

/// The kind of round `r`.
pub fn round_kind(r: usize) -> (kind: RoundKind)
    ensures
        kind == kind_of(r as int),
{
    if r < 4 || r >= 62 {
        RoundKind::Full
    } else {
        RoundKind::Partial
    }
}

/// The entries of the full-round matrix that are not one.
#[derive(Debug, Clone, Copy, PartialEq, Eq)]
pub struct FullMatrix {
    pub m00: Block128,
    pub m01: Block128,
    pub m03: Block128,
    pub m10: Block128,
    pub m11: Block128,
    pub m21: Block128,
    pub m22: Block128,
    pub m23: Block128,
    pub m32: Block128,
    pub m33: Block128,
}

/// A Poseidon2b permutation, given by its parameters.
#[derive(Debug, Clone, Copy, PartialEq, Eq)]
pub struct Poseidon2bPermutation {
    /// The constant of lane `l` in round `r` is `round_constants[l][r]`.
    pub round_constants: [[Block128; 66]; 4],
    /// The matrix of the initial layer and of the full rounds.
    pub full: FullMatrix,
    /// The diagonal of the matrix of the partial rounds; all its other entries are one.
    pub partial_diagonal: [Block128; 4],
}

/// The image of a vector of four elements under a matrix given by its entries.
pub open spec fn matrix_apply<F: TowerField>(entry: spec_fn(int, int) -> F, s: Seq<F>) -> Seq<F> {
    Seq::new(
        4,
        |row: int| sums::total(Seq::new(4, |column: int| entry(row, column).times(s[column]))),
    )
}

/// The S-box `x^7`.
pub open spec fn power7<F: TowerField>(x: F) -> F {
    let x2 = x.times(x);
    x.times(x2).times(x2.times(x2))
}

/// The S-box is the seventh power, taken factor by factor.
pub proof fn sbox_is_seventh_power<F: TowerField>(x: F)
    ensures
        power7(x) == x.times(x).times(x).times(x).times(x).times(x).times(x),
{
    let x2 = x.times(x);
    let x3 = x2.times(x);
    F::times_laws(x, x2, x);
    F::times_laws(x3, x2, x2);
    F::times_laws(x3, x, x);
    F::times_laws(x3.times(x).times(x), x, x);
}

/// The linear layer at the start is the product with the full-round matrix, lane by lane.
pub proof fn initial_layer_is_explicit(p: Poseidon2bPermutation, s: Seq<Block128>)
    ensures
        ({
            let m = p.full;
            let out = p.initial_layer(s);
            &&& out.len() == 4
            &&& out[0] == m.m00.times(s[0]).plus(m.m01.times(s[1])).plus(s[2]).plus(
                m.m03.times(s[3]),
            )
            &&& out[1] == m.m10.times(s[0]).plus(m.m11.times(s[1])).plus(s[2]).plus(s[3])
            &&& out[2] == s[0].plus(m.m21.times(s[1])).plus(m.m22.times(s[2])).plus(
                m.m23.times(s[3]),
            )
            &&& out[3] == s[0].plus(s[1]).plus(m.m32.times(s[2])).plus(m.m33.times(s[3]))
        }),
{
    let entry = |row: int, column: int| p.full_entry(row, column);
    lemma_matrix_rows(entry, s);
    algebra::lemma_neutral_left(s[0]);
    algebra::lemma_neutral_left(s[1]);
    algebra::lemma_neutral_left(s[2]);
    algebra::lemma_neutral_left(s[3]);
}

/// A round adds the constants to the lanes that pass the S-box, raises these to the seventh power,
/// and mixes: all lanes and the full-round matrix in the four first and four last rounds, lane zero
/// and the partial-round matrix in the others.
pub proof fn round_is_explicit(p: Poseidon2bPermutation, r: int, s: Seq<Block128>)
    requires
        0 <= r < 66,
    ensures
        ({
            let pow7 = |x: Block128| x.times(x).times(x).times(x).times(x).times(x).times(x);
            let c = |lane: int| p.round_constants@[lane]@[r];
            let out = p.apply_round(r, s);
            &&& out.len() == 4
            &&& (r < 4 || r >= 62) ==> out == p.initial_layer(
                seq![
                    pow7(s[0].plus(c(0))),
                    pow7(s[1].plus(c(1))),
                    pow7(s[2].plus(c(2))),
                    pow7(s[3].plus(c(3))),
                ],
            )
            &&& 4 <= r < 62 ==> {
                let x = pow7(s[0].plus(c(0)));
                let d = p.partial_diagonal@;
                &&& out[0] == d[0].times(x).plus(s[1]).plus(s[2]).plus(s[3])
                &&& out[1] == x.plus(d[1].times(s[1])).plus(s[2]).plus(s[3])
                &&& out[2] == x.plus(s[1]).plus(d[2].times(s[2])).plus(s[3])
                &&& out[3] == x.plus(s[1]).plus(s[2]).plus(d[3].times(s[3]))
            }
        }),
{
    let entry = |row: int, column: int| p.round_entry(r, row, column);
    let terms = p.round_terms(r, s);
    let c = |lane: int| p.round_constants@[lane]@[r];
    sbox_is_seventh_power(s[0].plus(c(0)));
    sbox_is_seventh_power(s[1].plus(c(1)));
    sbox_is_seventh_power(s[2].plus(c(2)));
    sbox_is_seventh_power(s[3].plus(c(3)));
    if r < 4 || r >= 62 {
        let pow7 = |x: Block128| x.times(x).times(x).times(x).times(x).times(x).times(x);
        assert(terms =~= seq![
            pow7(s[0].plus(c(0))),
            pow7(s[1].plus(c(1))),
            pow7(s[2].plus(c(2))),
            pow7(s[3].plus(c(3))),
        ]);
        lemma_matrix_congruent(
            |row: int, column: int| p.full_entry(row, column),
            entry,
            terms,
        );
    } else {
        lemma_matrix_rows(entry, terms);
        algebra::lemma_neutral_left(terms[0]);
        algebra::lemma_neutral_left(terms[1]);
        algebra::lemma_neutral_left(terms[2]);
        algebra::lemma_neutral_left(terms[3]);
    }
}

/// The permutation is the linear layer at the start followed by rounds 0 to 65: whatever states
/// follow each other in this way.
pub proof fn permutation_is_66_rounds(
    p: Poseidon2bPermutation,
    s: Seq<Block128>,
    states: Seq<Seq<Block128>>,
)
    requires
        states.len() == 67,
        states[0] == p.initial_layer(s),
        forall|r: int| 0 <= r < 66 ==> states[r + 1] == p.apply_round(r, #[trigger] states[r]),
    ensures
        p.permuted(s) == states[66],
        forall|r: int|
            0 <= r < 67 ==> p.layer(p.initial_layer(s), r as nat) == #[trigger] states[r],
{
    assert forall|r: int| 0 <= r < 67 implies p.layer(p.initial_layer(s), r as nat)
        == #[trigger] states[r] by {
        lemma_layer_states(p, states, r as nat);
    }
    lemma_layer_states(p, states, 66);
}

proof fn lemma_layer_states(p: Poseidon2bPermutation, states: Seq<Seq<Block128>>, r: nat)
    requires
        r < states.len(),
        forall|k: int|
            0 <= k < states.len() - 1 ==> states[k + 1] == p.apply_round(k, #[trigger] states[k]),
    ensures
        p.layer(states[0], r) == states[r as int],
    decreases r,
{
    if r > 0 {
        lemma_layer_states(p, states, (r - 1) as nat);
        assert(states[r - 1 + 1] == p.apply_round(r - 1, states[r - 1]));
    }
}

/// The rows of a product of a matrix and a vector.
proof fn lemma_matrix_rows<F: TowerField>(entry: spec_fn(int, int) -> F, s: Seq<F>)
    ensures
        forall|row: int|
            0 <= row < 4 ==> #[trigger] matrix_apply(entry, s)[row] == entry(row, 0).times(
                s[0],
            ).plus(entry(row, 1).times(s[1])).plus(entry(row, 2).times(s[2])).plus(
                entry(row, 3).times(s[3]),
            ),
{
    assert forall|row: int| 0 <= row < 4 implies #[trigger] matrix_apply(entry, s)[row] == entry(
        row,
        0,
    ).times(s[0]).plus(entry(row, 1).times(s[1])).plus(entry(row, 2).times(s[2])).plus(
        entry(row, 3).times(s[3]),
    ) by {
        lemma_total4(Seq::new(4, |column: int| entry(row, column).times(s[column])));
    }
}

/// A sum of four terms.
pub proof fn lemma_total4<F: TowerField>(s: Seq<F>)
    requires
        s.len() == 4,
    ensures
        sums::total(s) == s[0].plus(s[1]).plus(s[2]).plus(s[3]),
{
    let s3 = s.drop_last();
    let s2 = s3.drop_last();
    let s1 = s2.drop_last();
    assert(sums::total(s1.drop_last()) == F::nil());
    assert(sums::total(s1) == F::nil().plus(s[0]));
    assert(sums::total(s2) == sums::total(s1).plus(s[1]));
    assert(sums::total(s3) == sums::total(s2).plus(s[2]));
    algebra::lemma_neutral_left(s[0]);
}

impl Poseidon2bPermutation {
    /// The full-round matrix.
    pub open spec fn full_entry(self, row: int, column: int) -> Block128 {
        if row == 0 && column == 0 {
            self.full.m00
        } else if row == 0 && column == 1 {
            self.full.m01
        } else if row == 0 && column == 3 {
            self.full.m03
        } else if row == 1 && column == 0 {
            self.full.m10
        } else if row == 1 && column == 1 {
            self.full.m11
        } else if row == 2 && column == 1 {
            self.full.m21
        } else if row == 2 && column == 2 {
            self.full.m22
        } else if row == 2 && column == 3 {
            self.full.m23
        } else if row == 3 && column == 2 {
            self.full.m32
        } else if row == 3 && column == 3 {
            self.full.m33
        } else {
            Block128::unit()
        }
    }

    /// The partial-round matrix.
    pub open spec fn partial_entry(self, row: int, column: int) -> Block128 {
        if row == column {
            self.partial_diagonal@[row]
        } else {
            Block128::unit()
        }
    }

    /// The matrix of round `r`.
    pub open spec fn round_entry(self, r: int, row: int, column: int) -> Block128 {
        match kind_of(r) {
            RoundKind::Full => self.full_entry(row, column),
            RoundKind::Partial => self.partial_entry(row, column),
        }
    }

    /// The constant added to lane `lane` in round `r`.
    pub open spec fn constant(self, lane: int, r: int) -> Block128 {
        self.round_constants@[lane]@[r]
    }

    /// Whether lane `lane` passes the S-box in round `r`.
    pub open spec fn active(r: int, lane: int) -> bool {
        kind_of(r) == RoundKind::Full || lane == 0
    }

    /// The initial linear layer.
    pub open spec fn initial_layer(self, s: Seq<Block128>) -> Seq<Block128> {
        matrix_apply(|row: int, column: int| self.full_entry(row, column), s)
    }

    /// The lanes after constants and S-boxes of round `r`.
    pub open spec fn round_terms(self, r: int, s: Seq<Block128>) -> Seq<Block128> {
        Seq::new(
            4,
            |lane: int|
                if Self::active(r, lane) {
                    power7(s[lane].plus(self.constant(lane, r)))
                } else {
                    s[lane]
                },
        )
    }

    /// Round `r`.
    pub open spec fn apply_round(self, r: int, s: Seq<Block128>) -> Seq<Block128> {
        matrix_apply(
            |row: int, column: int| self.round_entry(r, row, column),
            self.round_terms(r, s),
        )
    }

    /// The state that enters round `r`, from the state that enters round zero.
    pub open spec fn layer(self, s: Seq<Block128>, r: nat) -> Seq<Block128>
        decreases r,
    {
        if r == 0 {
            s
        } else {
            self.apply_round(r - 1, self.layer(s, (r - 1) as nat))
        }
    }

    /// The permutation.
    pub open spec fn permuted(self, s: Seq<Block128>) -> Seq<Block128> {
        self.layer(self.initial_layer(s), 66)
    }

    /// The entries of the full-round matrix.
    pub fn full_matrix(&self) -> (m: [[Block128; 4]; 4])
        ensures
            forall|row: int, column: int|
                0 <= row < 4 && 0 <= column < 4 ==> (#[trigger] m@[row]@[column])
                    == self.full_entry(row, column),
    {
        let one = Block128::one();
        [
            [self.full.m00, self.full.m01, one, self.full.m03],
            [self.full.m10, self.full.m11, one, one],
            [one, self.full.m21, self.full.m22, self.full.m23],
            [one, one, self.full.m32, self.full.m33],
        ]
    }

    /// The entries of the partial-round matrix.
    pub fn partial_matrix(&self) -> (m: [[Block128; 4]; 4])
        ensures
            forall|row: int, column: int|
                0 <= row < 4 && 0 <= column < 4 ==> (#[trigger] m@[row]@[column])
                    == self.partial_entry(row, column),
    {
        let one = Block128::one();
        let d = self.partial_diagonal;
        [[d[0], one, one, one], [one, d[1], one, one], [one, one, d[2], one], [one, one, one, d[3]]]
    }

    /// Multiply by the full-round matrix; only the ten entries that are not one cost a product.
    pub fn apply_full_mds(&self, input: [Block128; 4]) -> (out: [Block128; 4])
        ensures
            out@ == self.initial_layer(input@),
    {
        let m = &self.full;
        let out = [
            m.m00 * input[0] + m.m01 * input[1] + input[2] + m.m03 * input[3],
            m.m10 * input[0] + m.m11 * input[1] + input[2] + input[3],
            input[0] + m.m21 * input[1] + m.m22 * input[2] + m.m23 * input[3],
            input[0] + input[1] + m.m32 * input[2] + m.m33 * input[3],
        ];
        proof {
            let entry = |row: int, column: int| self.full_entry(row, column);
            let want = matrix_apply(entry, input@);
            assert forall|row: int| 0 <= row < 4 implies #[trigger] want[row] == out@[row] by {
                let terms = Seq::new(4, |column: int| entry(row, column).times(input@[column]));
                lemma_total4(terms);
                algebra::lemma_neutral_left(input@[0]);
                algebra::lemma_neutral_left(input@[1]);
                algebra::lemma_neutral_left(input@[2]);
                algebra::lemma_neutral_left(input@[3]);
            }
            assert(out@ =~= want);
        }
        out
    }

    /// Multiply by the partial-round matrix: the sum of all lanes, with each lane's own
    /// contribution replaced by its diagonal product.
    pub fn apply_partial_mds(&self, input: [Block128; 4]) -> (out: [Block128; 4])
        ensures
            out@ == matrix_apply(
                |row: int, column: int| self.partial_entry(row, column),
                input@,
            ),
    {
        let d = &self.partial_diagonal;
        let sum = input[0] + input[1] + input[2] + input[3];
        let out = [
            d[0] * input[0] + sum + input[0],
            d[1] * input[1] + sum + input[1],
            d[2] * input[2] + sum + input[2],
            d[3] * input[3] + sum + input[3],
        ];
        proof {
            let entry = |row: int, column: int| self.partial_entry(row, column);
            let want = matrix_apply(entry, input@);
            let (a, b, c, e) = (input@[0], input@[1], input@[2], input@[3]);
            assert forall|row: int| 0 <= row < 4 implies #[trigger] want[row] == out@[row] by {
                let terms = Seq::new(4, |column: int| entry(row, column).times(input@[column]));
                lemma_total4(terms);
                algebra::lemma_neutral_left(a);
                algebra::lemma_neutral_left(b);
                algebra::lemma_neutral_left(c);
                algebra::lemma_neutral_left(e);
                let p = d@[row].times(input@[row]);
                if row == 0 {
                    lemma_replace_first(p, a, b, c, e);
                } else if row == 1 {
                    lemma_replace_second(p, a, b, c, e);
                } else if row == 2 {
                    lemma_replace_third(p, a, b, c, e);
                } else {
                    lemma_replace_fourth(p, a, b, c, e);
                }
            }
            assert(out@ =~= want);
        }
        out
    }

    /// Apply round `r`.
    pub fn apply_round_mut(&self, r: usize, state: [Block128; 4]) -> (out: [Block128; 4])
        requires
            r < 66,
        ensures
            out@ == self.apply_round(r as int, state@),
    {
        match round_kind(r) {
            RoundKind::Full => {
                let terms = [
                    sbox_x7(state[0] + self.round_constants[0][r]),
                    sbox_x7(state[1] + self.round_constants[1][r]),
                    sbox_x7(state[2] + self.round_constants[2][r]),
                    sbox_x7(state[3] + self.round_constants[3][r]),
                ];
                proof {
                    assert(terms@ =~= self.round_terms(r as int, state@));
                    lemma_matrix_congruent(
                        |row: int, column: int| self.full_entry(row, column),
                        |row: int, column: int| self.round_entry(r as int, row, column),
                        terms@,
                    );
                }
                self.apply_full_mds(terms)
            },
            RoundKind::Partial => {
                let terms = [
                    sbox_x7(state[0] + self.round_constants[0][r]),
                    state[1],
                    state[2],
                    state[3],
                ];
                proof {
                    assert(terms@ =~= self.round_terms(r as int, state@));
                    lemma_matrix_congruent(
                        |row: int, column: int| self.partial_entry(row, column),
                        |row: int, column: int| self.round_entry(r as int, row, column),
                        terms@,
                    );
                }
                self.apply_partial_mds(terms)
            },
        }
    }

    /// Apply the permutation in place.
    pub fn permute_mut(&self, state: &mut [Block128; 4])
        ensures
            final(state)@ == self.permuted(old(state)@),
    {
        let ghost start = self.initial_layer(state@);
        let mut current = self.apply_full_mds(*state);
        let mut r: usize = 0;
        while r < 66
            invariant
                r <= 66,
                current@ == self.layer(start, r as nat),
            decreases 66 - r,
        {
            current = self.apply_round_mut(r, current);
            r = r + 1;
        }
        *state = current;
    }
}

/// The S-box `x^7`.
pub fn sbox_x7(x: Block128) -> (y: Block128)
    ensures
        y == power7(x),
{
    let x2 = x.square();
    let x4 = x2.square();
    x * x2 * x4
}

/// Matrices with the same entries have the same image.
pub proof fn lemma_matrix_congruent<F: TowerField>(
    a: spec_fn(int, int) -> F,
    b: spec_fn(int, int) -> F,
    s: Seq<F>,
)
    requires
        forall|row: int, column: int|
            0 <= row < 4 && 0 <= column < 4 ==> #[trigger] a(row, column) == b(row, column),
    ensures
        matrix_apply(a, s) == matrix_apply(b, s),
{
    assert forall|row: int| 0 <= row < 4 implies #[trigger] matrix_apply(a, s)[row]
        == matrix_apply(b, s)[row] by {
        let x = Seq::new(4, |column: int| a(row, column).times(s[column]));
        let y = Seq::new(4, |column: int| b(row, column).times(s[column]));
        assert(x =~= y);
    }
    assert(matrix_apply(a, s) =~= matrix_apply(b, s));
}

proof fn lemma_replace_first<F: TowerField>(p: F, a: F, b: F, c: F, d: F)
    ensures
        p.plus(a.plus(b).plus(c).plus(d)).plus(a) == p.plus(b).plus(c).plus(d),
{
    let rest = b.plus(c).plus(d);
    F::plus_laws(a, b, c);
    F::plus_laws(a, b.plus(c), d);
    assert(a.plus(b).plus(c).plus(d) == a.plus(rest));
    F::plus_laws(p, a.plus(rest), a);
    algebra::lemma_plus_cancel(a, rest);
    F::plus_laws(a.plus(rest), a, a);
    assert(a.plus(rest).plus(a) == rest);
    F::plus_laws(p, b.plus(c), d);
    F::plus_laws(p, b, c);
}

proof fn lemma_replace_second<F: TowerField>(p: F, a: F, b: F, c: F, d: F)
    ensures
        p.plus(a.plus(b).plus(c).plus(d)).plus(b) == a.plus(p).plus(c).plus(d),
{
    F::plus_laws(a, b, c);
    F::plus_laws(p, a, a);
    lemma_replace_first(p, b, a, c, d);
}

proof fn lemma_replace_third<F: TowerField>(p: F, a: F, b: F, c: F, d: F)
    ensures
        p.plus(a.plus(b).plus(c).plus(d)).plus(c) == a.plus(b).plus(p).plus(d),
{
    F::plus_laws(c, a, b);
    F::plus_laws(a.plus(b), c, c);
    lemma_replace_first(p, c, a, b, d);
    F::plus_laws(p, a, b);
    F::plus_laws(a.plus(b), p, p);
}

proof fn lemma_replace_fourth<F: TowerField>(p: F, a: F, b: F, c: F, d: F)
    ensures
        p.plus(a.plus(b).plus(c).plus(d)).plus(d) == a.plus(b).plus(c).plus(p),
{
    let rest = a.plus(b).plus(c);
    F::plus_laws(p, rest.plus(d), d);
    algebra::lemma_plus_cancel(rest, d);
    F::plus_laws(rest, p, p);
}

} // verus!
