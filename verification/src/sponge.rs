//! Minimal Poseidon2b sponge used by the Fiat-Shamir channel.
//!
//! Sponge parameters: width 4, rate 2, capacity 2.
use crate::block128::Block128;
use crate::le_bytes;
use crate::permutation::Poseidon2bPermutation;
use crate::tower_field::TowerField;
use vstd::prelude::*;

verus! {

/// Poseidon2b sponge with width 4, rate 2, capacity 2.
#[derive(Debug)]
pub struct Poseidon2bSponge {
    state: [Block128; 4],
    buffer: [u8; 32],
    filled_bytes: usize,
    permutation: Poseidon2bPermutation,
}

/// What a sponge has committed to.
pub struct SpongeState {
    /// The permutation.
    pub permutation: Poseidon2bPermutation,
    /// The four lanes; the first two are the rate.
    pub lanes: Seq<Block128>,
    /// Absorbed bytes that do not fill a block yet.
    pub pending: Seq<u8>,
}

/// The lanes after a block of 32 bytes has been added to the rate and permuted.
pub open spec fn absorb_block(
    permutation: Poseidon2bPermutation,
    lanes: Seq<Block128>,
    block: Seq<u8>,
) -> Seq<Block128> {
    permutation.permuted(
        seq![
            lanes[0].plus(Block128(le_bytes::le_value(block.subrange(0, 16)) as u128)),
            lanes[1].plus(Block128(le_bytes::le_value(block.subrange(16, 32)) as u128)),
            lanes[2],
            lanes[3],
        ],
    )
}

/// The lanes and the bytes left over once all full blocks of `bytes` have been absorbed.
pub open spec fn absorb_bytes(
    permutation: Poseidon2bPermutation,
    lanes: Seq<Block128>,
    bytes: Seq<u8>,
) -> (Seq<Block128>, Seq<u8>)
    decreases bytes.len(),
{
    if bytes.len() < 32 {
        (lanes, bytes)
    } else {
        absorb_bytes(
            permutation,
            absorb_block(permutation, lanes, bytes.take(32)),
            bytes.skip(32),
        )
    }
}

/// Padding of `n` bytes: zeros, with the top bit of the first byte and the low bit of the last byte
/// set.
pub open spec fn padding(n: nat) -> Seq<u8> {
    Seq::new(
        n,
        |i: int|
            ((if i == 0 {
                0x80int
            } else {
                0
            }) + (if i == n - 1 {
                0x01int
            } else {
                0
            })) as u8,
    )
}

impl SpongeState {
    /// The state after absorbing bytes.
    pub open spec fn updated(self, data: Seq<u8>) -> SpongeState {
        let (lanes, pending) = absorb_bytes(self.permutation, self.lanes, self.pending + data);
        SpongeState { permutation: self.permutation, lanes, pending }
    }

    /// The state once pending bytes, if any, have been padded and absorbed.
    pub open spec fn flushed(self) -> SpongeState {
        if self.pending.len() == 0 {
            self
        } else {
            let block = self.pending + padding((32 - self.pending.len()) as nat);
            SpongeState {
                permutation: self.permutation,
                lanes: absorb_block(self.permutation, self.lanes, block),
                pending: Seq::empty(),
            }
        }
    }

    /// The state after the rate has been read once.
    pub open spec fn stepped(self) -> SpongeState {
        SpongeState {
            permutation: self.permutation,
            lanes: self.permutation.permuted(self.lanes),
            pending: self.pending,
        }
    }
}

/// Absorbing bytes that extend what was absorbed before: only the left-over bytes matter.
pub proof fn lemma_absorb_more(
    permutation: Poseidon2bPermutation,
    lanes: Seq<Block128>,
    a: Seq<u8>,
    b: Seq<u8>,
)
    ensures
        ({
            let (mid, rest) = absorb_bytes(permutation, lanes, a);
            absorb_bytes(permutation, lanes, a + b) == absorb_bytes(permutation, mid, rest + b)
        }),
    decreases a.len(),
{
    if a.len() >= 32 {
        let next = absorb_block(permutation, lanes, a.take(32));
        lemma_absorb_more(permutation, next, a.skip(32), b);
        assert((a + b).take(32) =~= a.take(32));
        assert((a + b).skip(32) =~= a.skip(32) + b);
    }
}

/// Fewer bytes than a block are left over.
pub proof fn lemma_absorb_rest(
    permutation: Poseidon2bPermutation,
    lanes: Seq<Block128>,
    bytes: Seq<u8>,
)
    ensures
        absorb_bytes(permutation, lanes, bytes).1.len() < 32,
    decreases bytes.len(),
{
    if bytes.len() >= 32 {
        lemma_absorb_rest(
            permutation,
            absorb_block(permutation, lanes, bytes.take(32)),
            bytes.skip(32),
        );
    }
}

/// Streaming: absorbing `a` and then `b` is absorbing their concatenation.
pub proof fn updates_compose(state: SpongeState, a: Seq<u8>, b: Seq<u8>)
    ensures
        state.updated(a).updated(b) == state.updated(a + b),
{
    lemma_absorb_more(state.permutation, state.lanes, state.pending + a, b);
    assert(state.pending + (a + b) =~= (state.pending + a) + b);
}

/// Absorbing leaves fewer pending bytes than fill the rate, and absorbing no bytes changes nothing.
pub proof fn pending_stays_short(state: SpongeState, data: Seq<u8>)
    ensures
        state.updated(data).pending.len() < 32,
        state.updated(data).updated(Seq::empty()) == state.updated(data),
{
    lemma_absorb_rest(state.permutation, state.lanes, state.pending + data);
    updates_compose(state, data, Seq::empty());
    assert(data + Seq::<u8>::empty() =~= data);
}

/// Reading the rate advances the sponge by one permutation of all its lanes: the rate read next is
/// the first two lanes of the permuted state, and nothing else changes.
pub proof fn reading_permutes_the_lanes(state: SpongeState)
    ensures
        state.stepped().lanes == state.permutation.permuted(state.lanes),
        state.stepped().permutation == state.permutation,
        state.stepped().pending == state.pending,
{
}

/// Two field elements fill a block: they are added to the two lanes of the rate, the capacity is kept,
/// and the state is permuted.
pub proof fn two_elements_are_added_to_the_rate(state: SpongeState, a: Block128, b: Block128)
    requires
        state.pending.len() == 0,
    ensures
        ({
            let end = state.updated(le_bytes::word_bytes(a.0)).updated(le_bytes::word_bytes(b.0));
            &&& end.permutation == state.permutation
            &&& end.pending.len() == 0
            &&& end.lanes == state.permutation.permuted(
                seq![
                    state.lanes[0].plus(a),
                    state.lanes[1].plus(b),
                    state.lanes[2],
                    state.lanes[3],
                ],
            )
        }),
{
    let (x, y) = (le_bytes::word_bytes(a.0), le_bytes::word_bytes(b.0));
    le_bytes::lemma_word_round_trip(a.0, x);
    le_bytes::lemma_word_round_trip(b.0, y);
    updates_compose(state, x, y);
    let block = x + y;
    assert(state.pending + block =~= block);
    assert(block.take(32) =~= block);
    assert(block.subrange(0, 16) =~= x);
    assert(block.subrange(16, 32) =~= y);
    let lanes = absorb_block(state.permutation, state.lanes, block);
    assert(absorb_bytes(state.permutation, lanes, block.skip(32)) == (lanes, block.skip(32)));
}

/// Bytes that do not fill the block are kept for later and change no lane.
pub proof fn short_data_is_kept(state: SpongeState, data: Seq<u8>)
    requires
        state.pending.len() + data.len() < 32,
    ensures
        state.updated(data).lanes == state.lanes,
        state.updated(data).pending == state.pending + data,
        state.updated(data).permutation == state.permutation,
{
}

/// Bytes that fill the block are added to the rate as two words, lowest byte first, and the state is
/// permuted; further bytes go into the next block.
pub proof fn full_blocks_are_permuted(
    state: SpongeState,
    data: Seq<u8>,
    rest: Seq<u8>,
    a: Block128,
    b: Block128,
)
    requires
        state.pending + data == le_bytes::word_bytes(a.0) + le_bytes::word_bytes(b.0),
    ensures
        state.updated(data + rest) == (SpongeState {
            permutation: state.permutation,
            lanes: state.permutation.permuted(
                seq![
                    state.lanes[0].plus(a),
                    state.lanes[1].plus(b),
                    state.lanes[2],
                    state.lanes[3],
                ],
            ),
            pending: Seq::empty(),
        }).updated(rest),
{
    let (x, y) = (le_bytes::word_bytes(a.0), le_bytes::word_bytes(b.0));
    le_bytes::lemma_word_round_trip(a.0, x);
    le_bytes::lemma_word_round_trip(b.0, y);
    let block = x + y;
    assert(block.take(32) =~= block);
    assert(block.subrange(0, 16) =~= x);
    assert(block.subrange(16, 32) =~= y);
    assert(block.skip(32) =~= Seq::empty());
    let lanes = absorb_block(state.permutation, state.lanes, block);
    assert(absorb_bytes(state.permutation, lanes, Seq::empty()) == (lanes, Seq::<u8>::empty()));
    updates_compose(state, data, rest);
}

/// Flushing pending bytes is absorbing the padding that fills their block: the byte `0x80`, zeros, and
/// the low bit of the last byte of the block.
pub proof fn flushing_absorbs_the_padding(state: SpongeState, filler: Seq<u8>)
    requires
        0 < state.pending.len() < 32,
        filler.len() == 32 - state.pending.len(),
        forall|i: int|
            1 <= i < filler.len() - 1 ==> #[trigger] filler[i] == 0,
        filler.len() == 1 ==> filler[0] == 0x81,
        filler.len() > 1 ==> filler[0] == 0x80 && filler[filler.len() - 1] == 0x01,
    ensures
        state.flushed() == state.updated(filler),
        state.flushed().pending.len() == 0,
        state.flushed().permutation == state.permutation,
{
    assert(filler =~= padding((32 - state.pending.len()) as nat));
    let block = state.pending + filler;
    assert(block.take(32) =~= block);
    let lanes = absorb_block(state.permutation, state.lanes, block);
    assert(block.skip(32) =~= Seq::empty());
    assert(absorb_bytes(state.permutation, lanes, Seq::empty()) == (lanes, Seq::<u8>::empty()));
}

/// Flushing twice is flushing once.
pub proof fn flush_is_idempotent(state: SpongeState)
    ensures
        state.flushed().flushed() == state.flushed(),
        state.flushed().pending.len() == 0,
{
}

proof fn lemma_push_byte(
    permutation: Poseidon2bPermutation,
    lanes: Seq<Block128>,
    bytes: Seq<u8>,
    byte: u8,
)
    ensures
        ({
            let (mid, rest) = absorb_bytes(permutation, lanes, bytes);
            absorb_bytes(permutation, lanes, bytes.push(byte)) == if rest.len() < 31 {
                (mid, rest.push(byte))
            } else {
                (absorb_block(permutation, mid, rest.push(byte)), Seq::empty())
            }
        }),
{
    let (mid, rest) = absorb_bytes(permutation, lanes, bytes);
    lemma_absorb_more(permutation, lanes, bytes, seq![byte]);
    lemma_absorb_rest(permutation, lanes, bytes);
    assert(bytes + seq![byte] =~= bytes.push(byte));
    assert(rest + seq![byte] =~= rest.push(byte));
    let full = rest.push(byte);
    if rest.len() == 31 {
        assert(full.take(32) =~= full);
        assert(full.skip(32) =~= Seq::empty());
        assert(absorb_bytes(permutation, absorb_block(permutation, mid, full), full.skip(32)) == (
            absorb_block(permutation, mid, full),
            full.skip(32),
        ));
    }
}

impl View for Poseidon2bSponge {
    type V = SpongeState;

    closed spec fn view(&self) -> SpongeState {
        SpongeState {
            permutation: self.permutation,
            lanes: self.state@,
            pending: self.buffer@.take(self.filled_bytes as int),
        }
    }
}

impl Clone for Poseidon2bSponge {
    fn clone(&self) -> (r: Self)
        ensures
            r == *self,
    {
        proof {
            use_type_invariant(self);
        }
        Poseidon2bSponge {
            state: self.state,
            buffer: self.buffer,
            filled_bytes: self.filled_bytes,
            permutation: self.permutation,
        }
    }
}

impl Poseidon2bSponge {
    #[verifier::type_invariant]
    spec fn buffer_has_room(self) -> bool {
        self.filled_bytes < 32
    }

    /// An all-zero sponge.
    pub fn new(permutation: Poseidon2bPermutation) -> (sponge: Self)
        ensures
            sponge@ == (SpongeState {
                permutation,
                lanes: seq![Block128::nil(), Block128::nil(), Block128::nil(), Block128::nil()],
                pending: Seq::empty(),
            }),
    {
        let zero = Block128::zero();
        Self::with_iv(permutation, [zero, zero])
    }

    /// A sponge whose rate is zero and whose capacity is `iv`.
    pub fn with_iv(permutation: Poseidon2bPermutation, iv: [Block128; 2]) -> (sponge: Self)
        ensures
            sponge@ == (SpongeState {
                permutation,
                lanes: seq![Block128::nil(), Block128::nil(), iv@[0], iv@[1]],
                pending: Seq::empty(),
            }),
    {
        let sponge = Poseidon2bSponge {
            state: [Block128::zero(), Block128::zero(), iv[0], iv[1]],
            buffer: [0u8; 32],
            filled_bytes: 0,
            permutation,
        };
        proof {
            assert(sponge@.lanes =~= seq![Block128::nil(), Block128::nil(), iv@[0], iv@[1]]);
            assert(sponge@.pending =~= Seq::empty());
        }
        sponge
    }

    /// Absorb raw bytes into the sponge.
    pub fn update(&mut self, data: &[u8])
        ensures
            final(self)@ == old(self)@.updated(data@),
            old(self)@.pending.len() < 32,
            final(self)@.pending.len() < 32,
            data@.len() == 0 ==> final(self)@ == old(self)@,
    {
        let ghost start = self@;
        proof {
            use_type_invariant(&*self);
            assert(start.pending + data@.take(0) =~= start.pending);
            assert(absorb_bytes(start.permutation, start.lanes, start.pending) == (
                start.lanes,
                start.pending,
            ));
        }
        let mut i: usize = 0;
        while i < data.len()
            invariant
                i <= data.len(),
                self@ == start.updated(data@.take(i as int)),
            decreases data.len() - i,
        {
            proof {
                use_type_invariant(&*self);
                let so_far = start.pending + data@.take(i as int);
                lemma_push_byte(
                    start.permutation,
                    start.lanes,
                    so_far,
                    data@[i as int],
                );
                assert(start.pending + data@.take(i + 1) =~= so_far.push(data@[i as int]));
            }
            let filled: usize = self.filled_bytes;
            let ghost pending = self@.pending;
            self.buffer[filled] = data[i];
            proof {
                assert(self.buffer@.take(filled + 1) =~= pending.push(data@[i as int]));
            }
            if filled == 31 {
                proof {
                    assert(self.buffer@.take(32) =~= self.buffer@);
                }
                self.permute_buffer();
                self.filled_bytes = 0;
                proof {
                    assert(self@.pending =~= Seq::empty());
                }
            } else {
                self.filled_bytes = filled + 1;
            }
            i = i + 1;
        }
        proof {
            assert(data@.take(i as int) =~= data@);
            use_type_invariant(&*self);
        }
    }

    /// Absorb a single field element as its 16 little-endian bytes.
    pub fn absorb(&mut self, elem: Block128)
        ensures
            final(self)@ == old(self)@.updated(le_bytes::word_bytes(elem.0)),
            old(self)@.pending.len() < 32,
            final(self)@.pending.len() < 32,
    {
        let bytes = le_bytes::word_to_bytes(elem.0);
        self.update(bytes.as_slice());
    }

    /// Read the rate and advance by one permutation.
    pub fn squeeze(&mut self) -> (out: [Block128; 2])
        ensures
            out@[0] == old(self)@.lanes[0],
            out@[1] == old(self)@.lanes[1],
            final(self)@ == old(self)@.stepped(),
            final(self)@.lanes == old(self)@.permutation.permuted(old(self)@.lanes),
            final(self)@.permutation == old(self)@.permutation,
            final(self)@.pending == old(self)@.pending,
            final(self)@.pending.len() < 32,
    {
        proof {
            use_type_invariant(&*self);
        }
        let out = [self.state[0], self.state[1]];
        let mut state = self.state;
        self.permutation.permute_mut(&mut state);
        self.state = state;
        out
    }

    /// Flush any buffered bytes into the state via one padded permutation, so that subsequent
    /// squeezes commit to everything absorbed so far.  Without buffered bytes nothing happens.
    pub fn flush_to_squeeze(&mut self)
        ensures
            final(self)@ == old(self)@.flushed(),
            old(self)@.pending.len() < 32,
    {
        proof {
            use_type_invariant(&*self);
        }
        let ghost start = self@;
        let filled: usize = self.filled_bytes;
        if filled != 0 {
            let mut i: usize = filled;
            while i < 32
                invariant
                    0 < filled <= i <= 32,
                    filled < 32,
                    self.filled_bytes == filled,
                    self.state@ == start.lanes,
                    self.permutation == start.permutation,
                    start.pending.len() == filled,
                    forall|j: int| 0 <= j < filled ==> self.buffer@[j] == start.pending[j],
                    forall|j: int|
                        filled <= j < i ==> self.buffer@[j] == padding((32 - filled) as nat)[j
                            - filled],
                decreases 32 - i,
            {
                let first: u8 = if i == filled { 0x80 } else { 0 };
                let last: u8 = if i == 31 { 0x01 } else { 0 };
                self.buffer[i] = first + last;
                i = i + 1;
            }
            proof {
                assert(self.buffer@ =~= start.pending + padding((32 - filled) as nat));
            }
            self.permute_buffer();
            self.filled_bytes = 0;
            proof {
                assert(self@.pending =~= Seq::empty());
            }
        }
    }

    /// Add the buffer to the rate and permute.
    fn permute_buffer(&mut self)
        ensures
            final(self).state@ == absorb_block(
                old(self).permutation,
                old(self).state@,
                old(self).buffer@,
            ),
            final(self).permutation == old(self).permutation,
            final(self).filled_bytes == old(self).filled_bytes,
            final(self).buffer == old(self).buffer,
    {
        proof {
            use_type_invariant(&*self);
            le_bytes::lemma_word_round_trip(0, self.buffer@.subrange(0, 16));
            le_bytes::lemma_word_round_trip(0, self.buffer@.subrange(16, 32));
        }
        let w0: u128 = le_bytes::word_from_bytes(self.buffer.as_slice(), 0);
        let w1: u128 = le_bytes::word_from_bytes(self.buffer.as_slice(), 16);
        let mut state = [
            self.state[0] + Block128(w0),
            self.state[1] + Block128(w1),
            self.state[2],
            self.state[3],
        ];
        proof {
            assert(state@ =~= seq![
                self.state@[0].plus(Block128(w0)),
                self.state@[1].plus(Block128(w1)),
                self.state@[2],
                self.state@[3],
            ]);
        }
        self.permutation.permute_mut(&mut state);
        self.state = state;
    }
}

} // verus!
