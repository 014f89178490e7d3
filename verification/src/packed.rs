//! Fixed-width vectors of field elements.
use crate::block128::Block128;
use crate::mle;
use crate::tower_field::TowerField;
use vstd::prelude::*;

verus! {

/// Number of field elements in a packed vector.
pub const PACKED_LANES: usize = 4;

/// Four field elements handled together.
#[derive(Copy, Clone, Debug, PartialEq, Eq)]
pub struct PackedBlock128 {
    pub lanes: [Block128; 4],
}

/// The elements of a sequence of packed vectors in order.
pub open spec fn flat(packed: Seq<PackedBlock128>) -> Seq<Block128> {
    Seq::new(packed.len() * 4, |i: int| packed[i / 4].lanes@[i % 4])
}

/// A cube of at least two packed vectors is divided by the packing width.
pub proof fn lemma_lanes_divide(n: nat)
    requires
        mle::cube(n) >= 8,
    ensures
        mle::cube(n) % 4 == 0,
{
    if n < 3 {
        mle::lemma_cube_monotone(n, 2);
        assert(mle::cube(2) == 4) by {
            reveal_with_fuel(mle::cube, 3);
        }
    }
    assert(mle::cube(n) == 2 * mle::cube((n - 1) as nat));
    assert(mle::cube((n - 1) as nat) == 2 * mle::cube((n - 2) as nat));
}

/// A cube that fills more than one packed vector fills an even number of them.
pub proof fn lemma_even_count(packed: Seq<PackedBlock128>, n: nat)
    requires
        packed.len() > 1,
        flat(packed).len() == mle::cube(n),
    ensures
        n > 0,
        packed.len() % 2 == 0,
{
    assert(mle::cube(n) >= 8);
    if n < 3 {
        mle::lemma_cube_monotone(n, 2);
        assert(mle::cube(2) == 4) by {
            reveal_with_fuel(mle::cube, 3);
        }
    }
    assert(mle::cube(n) == 2 * mle::cube((n - 1) as nat));
    assert(mle::cube((n - 1) as nat) == 2 * mle::cube((n - 2) as nat));
    assert(mle::cube((n - 2) as nat) == 2 * mle::cube((n - 3) as nat));
}

impl PackedBlock128 {
    /// Lane-wise sum.
    pub fn xor(self, other: Self) -> (r: Self)
        ensures
            forall|i: int| 0 <= i < 4 ==> r.lanes@[i] == self.lanes@[i].plus(other.lanes@[i]),
    {
        PackedBlock128 {
            lanes: [
                self.lanes[0] + other.lanes[0],
                self.lanes[1] + other.lanes[1],
                self.lanes[2] + other.lanes[2],
                self.lanes[3] + other.lanes[3],
            ],
        }
    }

    /// All lanes multiplied by one element.
    pub fn scalar_mul(self, scalar: Block128) -> (r: Self)
        ensures
            forall|i: int| 0 <= i < 4 ==> r.lanes@[i] == scalar.times(self.lanes@[i]),
    {
        PackedBlock128 {
            lanes: [
                scalar * self.lanes[0],
                scalar * self.lanes[1],
                scalar * self.lanes[2],
                scalar * self.lanes[3],
            ],
        }
    }
}

/// Pack a slice whose length is a multiple of the packing width.
pub fn pack_slice(values: &[Block128]) -> (packed: Vec<PackedBlock128>)
    requires
        values@.len() % 4 == 0,
    ensures
        flat(packed@) == values@,
{
    let count: usize = values.len() / 4;
    let mut packed: Vec<PackedBlock128> = Vec::with_capacity(count);
    let mut i: usize = 0;
    while i < count
        invariant
            count == values.len() / 4,
            values@.len() % 4 == 0,
            i <= count,
            packed.len() == i,
            forall|k: int| 0 <= k < 4 * i ==> #[trigger] flat(packed@)[k] == values@[k],
        decreases count - i,
    {
        let ghost before = packed@;
        let entry = PackedBlock128 {
            lanes: [values[4 * i], values[4 * i + 1], values[4 * i + 2], values[4 * i + 3]],
        };
        packed.push(entry);
        proof {
            assert forall|k: int| 0 <= k < 4 * (i + 1) implies #[trigger] flat(packed@)[k]
                == values@[k] by {
                if k < 4 * i {
                    assert(flat(before)[k] == values@[k]);
                } else {
                    assert(k / 4 == i);
                    assert(k == 4 * i + k % 4);
                }
            }
        }
        i = i + 1;
    }
    proof {
        assert(flat(packed@) =~= values@);
    }
    packed
}

/// The elements of packed vectors in order.
pub fn unpack(packed: &Vec<PackedBlock128>) -> (values: Vec<Block128>)
    ensures
        values@ == flat(packed@),
{
    let mut values: Vec<Block128> = Vec::new();
    let mut i: usize = 0;
    while i < packed.len()
        invariant
            i <= packed.len(),
            values.len() == 4 * i,
            forall|k: int| 0 <= k < 4 * i ==> values@[k] == #[trigger] flat(packed@)[k],
        decreases packed.len() - i,
    {
        let entry = packed[i];
        let ghost before = values@;
        values.push(entry.lanes[0]);
        values.push(entry.lanes[1]);
        values.push(entry.lanes[2]);
        values.push(entry.lanes[3]);
        proof {
            assert forall|k: int| 0 <= k < 4 * (i + 1) implies values@[k]
                == #[trigger] flat(packed@)[k] by {
                if k < 4 * i {
                    assert(before[k] == flat(packed@)[k]);
                } else {
                    assert(k / 4 == i);
                    assert(k == 4 * i + k % 4);
                }
            }
        }
        i = i + 1;
    }
    proof {
        assert(values@ =~= flat(packed@));
    }
    values
}

/// Fix the highest variable of a packed table to `r`.
pub fn fold_packed(evals: &mut Vec<PackedBlock128>, r: Block128)
    requires
        old(evals)@.len() % 2 == 0,
    ensures
        flat(final(evals)@) == mle::fold_high(flat(old(evals)@), r),
        final(evals)@.len() == old(evals)@.len() / 2,
{
    let ghost before = evals@;
    let half: usize = evals.len() / 2;
    let mut i: usize = 0;
    while i < half
        invariant
            half == before.len() / 2,
            before.len() % 2 == 0,
            evals.len() == before.len(),
            i <= half,
            forall|j: int, l: int|
                0 <= j < i && 0 <= l < 4 ==> #[trigger] evals@[j].lanes@[l] == mle::lerp(
                    before[j].lanes@[l],
                    before[j + half].lanes@[l],
                    r,
                ),
            forall|j: int| i <= j < before.len() ==> evals@[j] == before[j],
        decreases half - i,
    {
        let lo = evals[i];
        let hi = evals[i + half];
        let diff = hi.xor(lo);
        let scaled = diff.scalar_mul(r);
        let folded = lo.xor(scaled);
        proof {
            assert forall|l: int| 0 <= l < 4 implies #[trigger] folded.lanes@[l] == mle::lerp(
                lo.lanes@[l],
                hi.lanes@[l],
                r,
            ) by {
                Block128::plus_laws(lo.lanes@[l], hi.lanes@[l], r);
                assert(diff.lanes@[l] == hi.lanes@[l].plus(lo.lanes@[l]));
                assert(scaled.lanes@[l] == r.times(diff.lanes@[l]));
            }
        }
        evals.set(i, folded);
        i = i + 1;
    }
    evals.truncate(half);
    proof {
        let table = flat(before);
        assert forall|k: int| 0 <= k < half * 4 implies #[trigger] flat(evals@)[k]
            == mle::fold_high(table, r)[k] by {
            assert(evals@[k / 4].lanes@[k % 4] == mle::lerp(
                before[k / 4].lanes@[k % 4],
                before[k / 4 + half].lanes@[k % 4],
                r,
            ));
            assert(table.len() / 2 == half * 4);
            assert((k + half * 4) / 4 == k / 4 + half);
            assert((k + half * 4) % 4 == k % 4);
        }
        assert(flat(evals@) =~= mle::fold_high(table, r));
    }
}

} // verus!
