//! GF(2^256) messages over a GF(2^128) transcript, and columns evaluated at GF(2^256) points.
use crate::block128::Block128;
use crate::block256;
use crate::block256::Block256;
use crate::eq::eq_ind_partial_eval;
use crate::mle;
use crate::sums;
use crate::tower_field::TowerField;
use crate::transcript;
use crate::transcript::FiatShamir;
use vstd::prelude::*;

verus! {

/// Fiat-Shamir adapter that frames GF(2^256) messages as two GF(2^128) coordinates.
pub struct WideChannel<C> {
    inner: C,
}

impl<C: FiatShamir<Block128>> FiatShamir<Block256> for WideChannel<C> {
    type State = C::State;

    closed spec fn state(&self) -> C::State {
        self.inner.state()
    }

    open spec fn absorbed(state: C::State, elem: Block256) -> C::State {
        C::absorbed(C::absorbed(state, elem.lo), elem.hi)
    }

    open spec fn challenge(state: C::State) -> Block256 {
        block256::challenge(C::challenge(state), C::challenge(C::squeezed(state)))
    }

    open spec fn squeezed(state: C::State) -> C::State {
        C::squeezed(C::squeezed(state))
    }

    fn absorb(&mut self, elem: Block256) {
        self.inner.absorb(elem.lo);
        self.inner.absorb(elem.hi);
    }

    fn squeeze(&mut self) -> (r: Block256) {
        let lo = self.inner.squeeze();
        let raw_hi = self.inner.squeeze();
        Block256::from_challenge_lanes(lo, raw_hi)
    }
}

impl<C: FiatShamir<Block128>> WideChannel<C> {
    /// Wrap a channel.
    pub fn new(inner: C) -> (channel: Self)
        ensures
            channel.state() == inner.state(),
    {
        WideChannel { inner }
    }

    /// Absorb the low and then the high coordinate.
    pub fn absorb(&mut self, value: Block256)
        ensures
            final(self).state() == C::absorbed(
                C::absorbed(old(self).state(), value.lo),
                value.hi,
            ),
    {
        FiatShamir::<Block256>::absorb(self, value);
    }

    /// Absorb all elements in order.
    pub fn absorb_slice(&mut self, values: &[Block256])
        ensures
            final(self).state() == transcript::absorb_seq::<Block256, WideChannel<C>>(
                old(self).state(),
                values@,
            ),
    {
        transcript::absorb_slice(self, values);
    }

    /// A challenge outside the embedded base field, from two base challenges.
    pub fn squeeze(&mut self) -> (r: Block256)
        ensures
            r == block256::challenge(
                C::challenge(old(self).state()),
                C::challenge(C::squeezed(old(self).state())),
            ),
            r.hi != Block128::nil(),
            final(self).state() == C::squeezed(C::squeezed(old(self).state())),
    {
        proof {
            block256::challenge_outside_base_field(
                C::challenge(old(self).state()),
                C::challenge(C::squeezed(old(self).state())),
            );
        }
        FiatShamir::<Block256>::squeeze(self)
    }

    /// Absorb one base field element.
    pub fn absorb_base(&mut self, value: Block128)
        ensures
            final(self).state() == C::absorbed(old(self).state(), value),
    {
        self.inner.absorb(value);
    }
}

/// Elements of GF(2^256) are framed as their low and high coordinates, in order, and a wide challenge
/// is made of two successive base challenges: the first is its low coordinate.
pub proof fn wide_elements_are_framed<C: FiatShamir<Block128>>(
    state: C::State,
    elems: Seq<Block256>,
    lanes: Seq<Block128>,
)
    requires
        lanes.len() == 2 * elems.len(),
        forall|i: int|
            0 <= i < elems.len() ==> lanes[2 * i] == (#[trigger] elems[i]).lo && lanes[2 * i + 1]
                == elems[i].hi,
    ensures
        transcript::absorb_seq::<Block256, WideChannel<C>>(state, elems)
            == transcript::absorb_seq::<Block128, C>(state, lanes),
        ({
            let first = C::challenge(state);
            let second = C::challenge(C::squeezed(state));
            let wide = <WideChannel<C> as FiatShamir<Block256>>::challenge(state);
            &&& wide.lo == first
            &&& wide.hi == second.times(second).plus(second).plus(Block128::tau())
            &&& <WideChannel<C> as FiatShamir<Block256>>::squeezed(state) == C::squeezed(
                C::squeezed(state),
            )
        }),
    decreases elems.len(),
{
    if elems.len() == 0 {
        transcript::every_element_is_absorbed::<Block128, C>(state, lanes, Block128::nil());
        assert(lanes =~= Seq::empty());
        assert(elems =~= Seq::empty());
    } else {
        let k = elems.len() - 1;
        let rest = lanes.take(2 * k);
        assert forall|i: int| 0 <= i < k implies rest[2 * i] == (#[trigger] elems.drop_last()[i]).lo
            && rest[2 * i + 1] == elems.drop_last()[i].hi by {
            assert(elems[i] == elems.drop_last()[i]);
        }
        wide_elements_are_framed::<C>(state, elems.drop_last(), rest);
        assert(lanes[2 * k] == elems[k].lo);
        let mid = rest.push(elems[k].lo);
        transcript::every_element_is_absorbed::<Block128, C>(state, rest, elems[k].lo);
        transcript::every_element_is_absorbed::<Block128, C>(state, mid, elems[k].hi);
        assert(mid.push(elems[k].hi) =~= lanes);
        assert(elems.drop_last().push(elems[k]) =~= elems);
    }
}

/// A base field column with its entries embedded.
pub open spec fn embed_column(column: Seq<Block128>) -> Seq<Block256> {
    Seq::new(column.len(), |i: int| block256::embed(column[i]))
}

/// Evaluate a base-field multilinear column at an extension-field point.
pub fn evaluate_column(column: &[Block128], point: &[Block256]) -> (r: Block256)
    requires
        column@.len() == mle::cube(point@.len()),
    ensures
        r == mle::mle_eval(embed_column(column@), point@),
{
    let len: usize = column.len();
    let table = eq_ind_partial_eval(point);
    let ghost terms = sums::seq_times(table@, embed_column(column@));
    let mut sum = Block256::zero();
    let mut i: usize = 0;
    while i < len
        invariant
            i <= len,
            len == column@.len(),
            table@.len() == len,
            terms == sums::seq_times(table@, embed_column(column@)),
            sum == sums::total(terms.take(i as int)),
        decreases len - i,
    {
        proof {
            sums::lemma_total_take(terms, i as int);
        }
        sum = sum + table[i].scale_base(column[i]);
        i = i + 1;
    }
    proof {
        assert(terms.take(i as int) =~= terms);
    }
    sum
}

} // verus!
