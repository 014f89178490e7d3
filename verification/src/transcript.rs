//! Fiat-Shamir transcripts.
use vstd::prelude::*;

verus! {

/// A Fiat-Shamir channel over elements of type `F`: a deterministic machine that absorbs messages
/// and hands out challenges.
pub trait FiatShamir<F>: Sized {
    /// What the channel has committed to.
    type State;

    /// The current state.
    spec fn state(&self) -> Self::State;

    /// The state after absorbing `elem`.
    spec fn absorbed(state: Self::State, elem: F) -> Self::State;

    /// The next challenge.
    spec fn challenge(state: Self::State) -> F;

    /// The state after the next challenge has been handed out.
    spec fn squeezed(state: Self::State) -> Self::State;

    /// Absorb one message element.
    fn absorb(&mut self, elem: F)
        ensures
            final(self).state() == Self::absorbed(old(self).state(), elem),
    ;

    /// Hand out the next challenge.
    fn squeeze(&mut self) -> (r: F)
        ensures
            r == Self::challenge(old(self).state()),
            final(self).state() == Self::squeezed(old(self).state()),
    ;
}

/// The state after absorbing a sequence of elements in order.
pub open spec fn absorb_seq<F, C: FiatShamir<F>>(state: C::State, elems: Seq<F>) -> C::State
    decreases elems.len(),
{
    if elems.len() == 0 {
        state
    } else {
        C::absorbed(absorb_seq::<F, C>(state, elems.drop_last()), elems.last())
    }
}

/// The state after `n` challenges.
pub open spec fn squeeze_state<F, C: FiatShamir<F>>(state: C::State, n: nat) -> C::State
    decreases n,
{
    if n == 0 {
        state
    } else {
        C::squeezed(squeeze_state::<F, C>(state, (n - 1) as nat))
    }
}

/// The next `n` challenges.
pub open spec fn squeeze_seq<F, C: FiatShamir<F>>(state: C::State, n: nat) -> Seq<F> {
    Seq::new(n, |i: int| C::challenge(squeeze_state::<F, C>(state, i as nat)))
}

/// Nothing is absorbed for no elements, and every element is absorbed in its turn, both seen from the
/// last element and from the first.
pub proof fn every_element_is_absorbed<F, C: FiatShamir<F>>(
    state: C::State,
    elems: Seq<F>,
    elem: F,
)
    ensures
        absorb_seq::<F, C>(state, Seq::empty()) == state,
        absorb_seq::<F, C>(state, elems.push(elem)) == C::absorbed(
            absorb_seq::<F, C>(state, elems),
            elem,
        ),
        absorb_seq::<F, C>(state, seq![elem] + elems) == absorb_seq::<F, C>(
            C::absorbed(state, elem),
            elems,
        ),
{
    assert(elems.push(elem).drop_last() =~= elems);
    lemma_absorb_concat::<F, C>(state, seq![elem], elems);
    assert(seq![elem].drop_last() =~= Seq::<F>::empty());
    assert(absorb_seq::<F, C>(state, Seq::<F>::empty()) == state);
}

/// Challenges taken one after the other: challenge number `i` is the one of the channel that has
/// handed out `i` challenges, whatever number is taken.
pub proof fn challenges_are_successive<F, C: FiatShamir<F>>(states: Seq<C::State>, n: nat)
    requires
        states.len() == n + 1,
        forall|i: int| 0 <= i < n ==> states[i + 1] == C::squeezed(#[trigger] states[i]),
    ensures
        squeeze_state::<F, C>(states[0], n) == states[n as int],
        squeeze_seq::<F, C>(states[0], n).len() == n,
        forall|i: int|
            0 <= i < n ==> #[trigger] squeeze_seq::<F, C>(states[0], n)[i] == C::challenge(
                states[i],
            ),
    decreases n,
{
    if n > 0 {
        let m = (n - 1) as nat;
        let before = states.drop_last();
        assert forall|i: int| 0 <= i < m implies before[i + 1] == C::squeezed(
            #[trigger] before[i],
        ) by {
            assert(states[i + 1] == C::squeezed(states[i]));
        }
        challenges_are_successive::<F, C>(before, m);
        assert(states[m as int + 1] == C::squeezed(states[m as int]));
        assert forall|i: int| 0 <= i < n implies #[trigger] squeeze_seq::<F, C>(states[0], n)[i]
            == C::challenge(states[i]) by {
            if i < m {
                assert(squeeze_seq::<F, C>(states[0], m)[i] == C::challenge(before[i]));
            }
        }
    }
}

/// Absorbing a concatenation is absorbing its parts in order.
pub proof fn lemma_absorb_concat<F, C: FiatShamir<F>>(state: C::State, a: Seq<F>, b: Seq<F>)
    ensures
        absorb_seq::<F, C>(state, a + b) == absorb_seq::<F, C>(absorb_seq::<F, C>(state, a), b),
    decreases b.len(),
{
    if b.len() == 0 {
        assert(a + b =~= a);
    } else {
        assert((a + b).drop_last() =~= a + b.drop_last());
        lemma_absorb_concat::<F, C>(state, a, b.drop_last());
    }
}

/// Absorb all elements of a slice in order.
pub fn absorb_slice<F: Copy, C: FiatShamir<F>>(channel: &mut C, elems: &[F])
    ensures
        final(channel).state() == absorb_seq::<F, C>(old(channel).state(), elems@),
{
    let ghost start = channel.state();
    let mut i: usize = 0;
    while i < elems.len()
        invariant
            i <= elems.len(),
            channel.state() == absorb_seq::<F, C>(start, elems@.take(i as int)),
        decreases elems.len() - i,
    {
        channel.absorb(elems[i]);
        proof {
            assert(elems@.take(i + 1).drop_last() =~= elems@.take(i as int));
        }
        i = i + 1;
    }
    proof {
        assert(elems@.take(i as int) =~= elems@);
    }
}

/// Take `n` challenges.
pub fn squeeze_many<F, C: FiatShamir<F>>(channel: &mut C, n: usize) -> (challenges: Vec<F>)
    ensures
        challenges@ == squeeze_seq::<F, C>(old(channel).state(), n as nat),
        final(channel).state() == squeeze_state::<F, C>(old(channel).state(), n as nat),
{
    let ghost start = channel.state();
    let mut challenges: Vec<F> = Vec::with_capacity(n);
    let mut i: usize = 0;
    while i < n
        invariant
            i <= n,
            challenges@ == squeeze_seq::<F, C>(start, i as nat),
            channel.state() == squeeze_state::<F, C>(start, i as nat),
        decreases n - i,
    {
        challenges.push(channel.squeeze());
        i = i + 1;
        proof {
            assert(challenges@ =~= squeeze_seq::<F, C>(start, i as nat));
        }
    }
    challenges
}

} // verus!
