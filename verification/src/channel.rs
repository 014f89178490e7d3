//! Poseidon2b-backed Fiat-Shamir channel.
//!
//! The channel is seeded with the dedicated `FROSTGKR` capacity lanes.  A squeeze advances the
//! sponge by one permutation and yields two challenges, handed out one at a time.
use crate::block128::Block128;
use crate::domain;
use crate::domain::{capacity_iv, tag_frost_gkr};
use crate::le_bytes;
use crate::permutation::Poseidon2bPermutation;
use crate::sponge::{Poseidon2bSponge, SpongeState};
use crate::tower_field::TowerField;
use crate::transcript;
use crate::transcript::FiatShamir;
use vstd::prelude::*;

verus! {

/// Fiat-Shamir channel backed by a Poseidon2b sponge.
#[derive(Debug, Clone)]
pub struct Poseidon2bChannel {
    sponge: Poseidon2bSponge,
    /// A squeeze yields two elements; the second is handed out on the next call before the sponge
    /// advances again.
    pending: Option<Block128>,
}

/// What a channel has committed to.
pub struct ChannelState {
    /// The sponge.
    pub sponge: SpongeState,
    /// A challenge that has been squeezed but not handed out.
    pub pending: Option<Block128>,
}

/// The state of a fresh channel.
pub open spec fn fresh(permutation: Poseidon2bPermutation) -> ChannelState {
    let iv = domain::iv_lanes(domain::be_value(domain::frost_gkr_label()) as u64);
    ChannelState {
        sponge: SpongeState {
            permutation,
            lanes: seq![Block128::nil(), Block128::nil(), iv[0], iv[1]],
            pending: Seq::empty(),
        },
        pending: None,
    }
}

impl Poseidon2bChannel {
    /// A fresh channel.
    pub fn new(permutation: Poseidon2bPermutation) -> (channel: Self)
        ensures
            channel.state() == fresh(permutation),
    {
        let iv = capacity_iv(tag_frost_gkr());
        Poseidon2bChannel { sponge: Poseidon2bSponge::with_iv(permutation, iv), pending: None }
    }
}

impl FiatShamir<Block128> for Poseidon2bChannel {
    type State = ChannelState;

    closed spec fn state(&self) -> ChannelState {
        ChannelState { sponge: self.sponge@, pending: self.pending }
    }

    open spec fn absorbed(state: ChannelState, elem: Block128) -> ChannelState {
        ChannelState {
            sponge: state.sponge.updated(le_bytes::word_bytes(elem.0)),
            pending: None,
        }
    }

    open spec fn challenge(state: ChannelState) -> Block128 {
        match state.pending {
            Some(b) => b,
            None => state.sponge.flushed().lanes[0],
        }
    }

    open spec fn squeezed(state: ChannelState) -> ChannelState {
        match state.pending {
            Some(b) => ChannelState { sponge: state.sponge, pending: None },
            None => ChannelState {
                sponge: state.sponge.flushed().stepped(),
                pending: Some(state.sponge.flushed().lanes[1]),
            },
        }
    }

    /// Absorb one element; a buffered challenge is dropped, since later challenges must reflect the
    /// new state.
    fn absorb(&mut self, elem: Block128) {
        self.pending = None;
        self.sponge.absorb(elem);
    }

    fn squeeze(&mut self) -> (r: Block128) {
        if let Some(b) = self.pending {
            self.pending = None;
            return b;
        }
        self.sponge.flush_to_squeeze();
        let out = self.sponge.squeeze();
        self.pending = Some(out[1]);
        out[0]
    }
}

/// Challenges are the lanes of the rate, block after block: from a channel without a buffered
/// challenge, challenges `2 k` and `2 k + 1` are the two lanes of the rate after the flushed state has
/// been permuted `k` times.
pub proof fn challenges_are_successive_rates(
    state: ChannelState,
    blocks: Seq<Seq<Block128>>,
    k: nat,
)
    requires
        state.pending is None,
        k < blocks.len(),
        blocks[0] == state.sponge.flushed().lanes,
        forall|i: int|
            0 <= i < blocks.len() - 1 ==> blocks[i + 1] == state.sponge.permutation.permuted(
                #[trigger] blocks[i],
            ),
    ensures
        ({
            let even = transcript::squeeze_state::<Block128, Poseidon2bChannel>(state, 2 * k);
            let odd = transcript::squeeze_state::<Block128, Poseidon2bChannel>(state, 2 * k + 1);
            &&& Poseidon2bChannel::challenge(even) == blocks[k as int][0]
            &&& Poseidon2bChannel::challenge(odd) == blocks[k as int][1]
            &&& even.pending is None
            &&& even.sponge.flushed().lanes == blocks[k as int]
        }),
    decreases k,
{
    lemma_rate(state, blocks, k);
    let even = transcript::squeeze_state::<Block128, Poseidon2bChannel>(state, 2 * k);
    let odd = transcript::squeeze_state::<Block128, Poseidon2bChannel>(state, 2 * k + 1);
    assert((2 * k + 1 - 1) as nat == 2 * k);
    assert(odd == Poseidon2bChannel::squeezed(even));
}

proof fn lemma_rate(state: ChannelState, blocks: Seq<Seq<Block128>>, k: nat)
    requires
        state.pending is None,
        k < blocks.len(),
        blocks[0] == state.sponge.flushed().lanes,
        forall|i: int|
            0 <= i < blocks.len() - 1 ==> blocks[i + 1] == state.sponge.permutation.permuted(
                #[trigger] blocks[i],
            ),
    ensures
        ({
            let now = transcript::squeeze_state::<Block128, Poseidon2bChannel>(state, 2 * k);
            &&& now.pending is None
            &&& now.sponge.flushed().lanes == blocks[k as int]
            &&& now.sponge.permutation == state.sponge.permutation
        }),
    decreases k,
{
    if k > 0 {
        let j = (k - 1) as nat;
        lemma_rate(state, blocks, j);
        let before = transcript::squeeze_state::<Block128, Poseidon2bChannel>(state, 2 * j);
        let mid = transcript::squeeze_state::<Block128, Poseidon2bChannel>(state, 2 * j + 1);
        let now = transcript::squeeze_state::<Block128, Poseidon2bChannel>(state, 2 * k);
        assert((2 * j + 1 - 1) as nat == 2 * j);
        assert(mid == Poseidon2bChannel::squeezed(before));
        assert((2 * k - 1) as nat == 2 * j + 1);
        assert(now == Poseidon2bChannel::squeezed(mid));
        assert(blocks[j as int + 1] == state.sponge.permutation.permuted(blocks[j as int]));
        crate::sponge::flush_is_idempotent(before.sponge);
        crate::sponge::reading_permutes_the_lanes(before.sponge.flushed());
    }
}

/// A message replaces a buffered challenge: what a channel holds after absorbing an element is its
/// sponge with the element's bytes absorbed and no buffered challenge, so that the next challenge is
/// the first lane of the flushed sponge.
pub proof fn messages_discard_buffered_challenges(state: ChannelState, elem: Block128)
    ensures
        ({
            let next = Poseidon2bChannel::absorbed(state, elem);
            &&& next.pending is None
            &&& next.sponge == state.sponge.updated(le_bytes::word_bytes(elem.0))
            &&& Poseidon2bChannel::challenge(next) == next.sponge.flushed().lanes[0]
        }),
{
}

/// A fresh channel has a zero rate, nothing pending, and the label `FROSTGKR` in its capacity: in the
/// upper half of the first lane and in the lower half of the second.
pub proof fn fresh_channel_is_labelled(permutation: Poseidon2bPermutation)
    ensures
        fresh(permutation).pending is None,
        fresh(permutation).sponge.permutation == permutation,
        fresh(permutation).sponge.pending.len() == 0,
        fresh(permutation).sponge.lanes == seq![
            Block128(0),
            Block128(0),
            Block128(0x4652_4f53_5447_4b52_0000_0000_0000_0000),
            Block128(0x4652_4f53_5447_4b52),
        ],
{
    let label = domain::frost_gkr_label();
    assert(domain::be_value(label) == 0x4652_4f53_5447_4b52) by {
        domain::lemma_be_value8(label);
    }
    let n: u128 = 0x4652_4f53_5447_4b52;
    assert(n << 64u128 == 0x4652_4f53_5447_4b52_0000_0000_0000_0000u128) by (bit_vector)
        requires
            n == 0x4652_4f53_5447_4b52u128,
    ;
    assert(fresh(permutation).sponge.lanes =~= seq![
        Block128(0),
        Block128(0),
        Block128(0x4652_4f53_5447_4b52_0000_0000_0000_0000),
        Block128(0x4652_4f53_5447_4b52),
    ]);
}

} // verus!
