//! GF(2^256), represented as a quadratic extension of [`Block128`].
//!
//! An element `(lo, hi)` denotes `lo + hi * X` modulo `X^2 + X + tau`, where `tau` is the extension
//! constant of GF(2^128).  Committed values stay in GF(2^128), while challenges, sumcheck messages
//! and terminal claims can live in GF(2^256).
use crate::algebra;
use crate::bit::Bit;
use crate::block128::Block128;
use crate::block16::Block16;
use crate::block32::Block32;
use crate::block64::Block64;
use crate::block8::Block8;
use crate::le_bytes;
use crate::quad;
use crate::serialization::{CanonicalDeserialize, CanonicalSerialize, SerializationError};
use crate::tower_field::{QuadBase, TowerField};
use vstd::arithmetic::power2::{lemma2_to64, lemma2_to64_rest, lemma_pow2_adds, pow2};
use vstd::prelude::*;
use vstd::set_lib::{lemma_int_range, lemma_map_size, set_int_range};

verus! {

/// An element of GF(2^256).
#[derive(Copy, Clone, Default, Debug, PartialEq, Eq, Structural)]
pub struct Block256 {
    pub lo: Block128,
    pub hi: Block128,
}

/// The coordinates of an element as a pair.
pub open spec fn pair(a: Block256) -> (Block128, Block128) {
    (a.lo, a.hi)
}

/// The element with the given coordinates.
pub open spec fn element(p: (Block128, Block128)) -> Block256 {
    Block256 { lo: p.0, hi: p.1 }
}

/// The image of a base field element.
pub open spec fn embed(a: Block128) -> Block256 {
    Block256 { lo: a, hi: Block128::nil() }
}

/// The field product of two elements.
#[verifier::opaque]
pub open spec fn product(a: Block256, b: Block256) -> Block256 {
    element(quad::quad_times(pair(a), pair(b)))
}

/// The inverse of a non-zero element, and zero for zero.
#[verifier::opaque]
pub open spec fn reciprocal(a: Block256) -> Block256 {
    element(quad::quad_inverse(pair(a)))
}

/// The element that `from_challenge_lanes` derives from two base field elements.
pub open spec fn challenge(lo: Block128, raw_hi: Block128) -> Block256 {
    Block256 { lo, hi: raw_hi.times(raw_hi).plus(raw_hi).plus(Block128::tau()) }
}

/// The element whose coordinates are the two little-endian words of 32 bytes.
pub open spec fn from_bytes(bytes: Seq<u8>) -> Block256 {
    Block256 {
        lo: Block128(le_bytes::le_value(bytes.subrange(0, 16)) as u128),
        hi: Block128(le_bytes::le_value(bytes.subrange(16, 32)) as u128),
    }
}

/// The base field embeds homomorphically: sums, products, zero and one are preserved, and distinct
/// elements stay distinct.
pub proof fn embedding_is_homomorphism(a: Block128, b: Block128)
    ensures
        embed(a.plus(b)) == embed(a).plus(embed(b)),
        embed(a.times(b)) == embed(a).times(embed(b)),
        embed(Block128::nil()) == Block256::nil(),
        embed(Block128::unit()) == Block256::unit(),
        embed(a) == embed(b) ==> a == b,
{
    reveal(product);
    let z = Block128::nil();
    Block128::plus_laws(z, z, z);
    Block128::plus_laws(a.times(b), z, z);
    algebra::lemma_times_nil(a);
    algebra::lemma_times_nil(Block128::tau());
    algebra::lemma_times_nil(z);
    algebra::lemma_times_nil(b);
    algebra::lemma_times_nil(b.plus(z));
}

/// A challenge never lies in the embedded base field.
pub proof fn challenge_outside_base_field(lo: Block128, raw_hi: Block128)
    ensures
        challenge(lo, raw_hi).hi != Block128::nil(),
{
    Block128::tau_irreducible(raw_hi);
    if challenge(lo, raw_hi).hi == Block128::nil() {
        algebra::lemma_plus_zero_eq(raw_hi.times(raw_hi).plus(raw_hi), Block128::tau());
    }
}

/// Two pairs of lanes give the same challenge exactly when the low lanes are equal and the raw high
/// lanes are equal or differ by one.
pub proof fn challenges_coincide(lo: Block128, raw_hi: Block128, lo2: Block128, raw_hi2: Block128)
    ensures
        challenge(lo, raw_hi) == challenge(lo2, raw_hi2) <==> lo == lo2 && (raw_hi == raw_hi2
            || raw_hi == raw_hi2.plus(Block128::unit())),
{
    let one = Block128::unit();
    let tau = Block128::tau();
    let u = raw_hi.times(raw_hi).plus(raw_hi);
    let v = raw_hi2.times(raw_hi2).plus(raw_hi2);
    let d = raw_hi.plus(raw_hi2);
    algebra::lemma_plus_cancel(u, tau);
    algebra::lemma_plus_cancel(v, tau);
    algebra::lemma_plus_cancel(raw_hi, raw_hi2);
    algebra::lemma_neutral_left(raw_hi2);
    algebra::lemma_square_sum(raw_hi, raw_hi2);
    algebra::lemma_plus_swap(
        raw_hi.times(raw_hi),
        raw_hi,
        raw_hi2.times(raw_hi2),
        raw_hi2,
    );
    Block128::times_laws(d, d, one);
    assert(u.plus(v) == d.times(d.plus(one)));
    Block128::plus_laws(u, u, v);
    Block128::plus_laws(one, one, one);
    Block128::plus_laws(raw_hi2, one, one);
    if challenge(lo, raw_hi) == challenge(lo2, raw_hi2) {
        assert(u == v);
        algebra::lemma_no_zero_divisors(d, d.plus(one));
        if d == Block128::nil() {
            algebra::lemma_plus_zero_eq(raw_hi, raw_hi2);
        } else {
            algebra::lemma_plus_zero_eq(d, one);
        }
    }
    if raw_hi == raw_hi2.plus(one) {
        algebra::lemma_plus_cancel(one, raw_hi2);
        assert(d == one);
        algebra::lemma_times_nil(d);
        algebra::lemma_plus_zero_eq(u, v);
    }
}

/// The challenges form an affine subspace: the sum of any three is a challenge.
pub proof fn challenges_are_affine(
    lo: Block128,
    raw_hi: Block128,
    lo2: Block128,
    raw_hi2: Block128,
    lo3: Block128,
    raw_hi3: Block128,
)
    ensures
        challenge(lo, raw_hi).plus(challenge(lo2, raw_hi2)).plus(challenge(lo3, raw_hi3))
            == challenge(lo.plus(lo2).plus(lo3), raw_hi.plus(raw_hi2).plus(raw_hi3)),
{
    let tau = Block128::tau();
    let h12 = raw_hi.plus(raw_hi2);
    let (q1, q2, q3) = (raw_hi.times(raw_hi), raw_hi2.times(raw_hi2), raw_hi3.times(raw_hi3));
    algebra::lemma_square_sum(raw_hi, raw_hi2);
    algebra::lemma_square_sum(h12, raw_hi3);
    let (u1, u2, u3) = (q1.plus(raw_hi), q2.plus(raw_hi2), q3.plus(raw_hi3));
    algebra::lemma_plus_swap(q1, raw_hi, q2, raw_hi2);
    algebra::lemma_plus_swap(q1.plus(q2), h12, q3, raw_hi3);
    algebra::lemma_plus_swap(u1, tau, u2, tau);
    Block128::plus_laws(tau, tau, tau);
    Block128::plus_laws(u1.plus(u2), Block128::nil(), u3.plus(tau));
    Block128::plus_laws(u1.plus(u2), u3, tau);
}

/// The elements that are challenges.
pub open spec fn challenge_support() -> Set<Block256> {
    Set::new(
        |c: Block256| exists|lo: Block128, raw_hi: Block128| c == #[trigger] challenge(lo, raw_hi),
    )
}

/// Challenge number `n`: the low lane from the upper bits, an even raw high lane from the 127 lower
/// ones.
spec fn numbered_challenge(n: int) -> Block256 {
    challenge(
        Block128((n / 0x8000_0000_0000_0000_0000_0000_0000_0000) as u128),
        Block128((2 * (n % 0x8000_0000_0000_0000_0000_0000_0000_0000)) as u128),
    )
}

proof fn lemma_low_bit(x: u128)
    ensures
        x % 2 == 0 ==> (x ^ 1) % 2 == 1,
        x % 2 == 1 ==> (x ^ 1) % 2 == 0,
{
    assert((x % 2 == 0 ==> (x ^ 1) % 2 == 1) && (x % 2 == 1 ==> (x ^ 1) % 2 == 0)) by (bit_vector);
}

/// There are `2^255` challenges.
pub proof fn challenge_support_size()
    ensures
        challenge_support().finite(),
        challenge_support().len() == pow2(255),
{
    let half: int = 0x8000_0000_0000_0000_0000_0000_0000_0000;
    let size: int = 2 * half * half;
    let numbers = set_int_range(0, size);
    let f = |n: int| numbered_challenge(n);
    assert forall|m: int, n: int|
        #![trigger f(m), f(n)]
        numbers.contains(m) && numbers.contains(n) && f(m) == f(n) implies m == n by {
        let (x, y) = (Block128((2 * (m % half)) as u128), Block128((2 * (n % half)) as u128));
        challenges_coincide(Block128((m / half) as u128), x, Block128((n / half) as u128), y);
        lemma_low_bit(y.0);
        assert(x.0 % 2 == 0 && y.0 % 2 == 0);
    }
    assert forall|c: Block256| challenge_support().contains(c) implies numbers.map(f).contains(c) by {
        let (lo, raw_hi) = choose|lo: Block128, raw_hi: Block128|
            c == #[trigger] challenge(lo, raw_hi);
        let even = if raw_hi.0 % 2 == 0 {
            raw_hi
        } else {
            raw_hi.plus(Block128::unit())
        };
        lemma_low_bit(raw_hi.0);
        algebra::lemma_plus_cancel(raw_hi, Block128::unit());
        challenges_coincide(lo, raw_hi, lo, even);
        let n = lo.0 as int * half + even.0 as int / 2;
        assert(n / half == lo.0 && n % half == even.0 / 2);
        assert(numbers.contains(n));
        assert(f(n) == c);
    }
    assert(numbers.map(f) =~= challenge_support());
    lemma_int_range(0, size);
    lemma_map_size(numbers, challenge_support(), f);
    lemma_pow2_adds(127, 127);
    lemma_pow2_adds(254, 1);
    lemma_pow2_adds(64, 63);
    lemma2_to64_rest();
    lemma2_to64();
    assert(pow2(63) == 0x8000_0000_0000_0000 && pow2(64) == 0x1_0000_0000_0000_0000);
    assert(pow2(127) == half);
    assert(pow2(254) == half * half);
    assert(pow2(1) == 2);
    assert(pow2(255) == half * half * 2);
}

/// Scaling by a base field element is multiplication by its image.
pub proof fn scaling_is_multiplication(a: Block256, s: Block128)
    ensures
        a.times(embed(s)) == (Block256 { lo: a.lo.times(s), hi: a.hi.times(s) }),
{
    reveal(product);
    let z = Block128::nil();
    algebra::lemma_times_nil(a.lo);
    algebra::lemma_times_nil(Block128::tau());
    algebra::lemma_times_nil(a.hi);
    Block128::plus_laws(s, z, z);
    Block128::plus_laws(a.lo.times(s), z, z);
    algebra::lemma_neutral_left(a.hi.times(s));
}

impl Block256 {
    /// The element with the given coordinates.
    pub fn new(lo: Block128, hi: Block128) -> (r: Self)
        ensures
            r == (Block256 { lo, hi }),
    {
        Block256 { lo, hi }
    }

    /// The image of a base field element.
    pub fn from_base(value: Block128) -> (r: Self)
        ensures
            r == embed(value),
    {
        Block256 { lo: value, hi: Block128::zero() }
    }

    /// Whether this is the zero element.
    pub fn is_zero(self) -> (r: bool)
        ensures
            r <==> self == Self::nil(),
    {
        self == Self::zero()
    }

    /// Multiply both coordinates by a base field element.
    pub fn scale_base(self, scalar: Block128) -> (r: Self)
        ensures
            r == (Block256 { lo: self.lo.times(scalar), hi: self.hi.times(scalar) }),
            r == self.times(embed(scalar)),
    {
        proof {
            scaling_is_multiplication(self, scalar);
        }
        Block256 { lo: self.lo * scalar, hi: self.hi * scalar }
    }

    /// The square of an element.
    pub fn square(self) -> (r: Self)
        ensures
            r == self.times(self),
    {
        self.fsquare()
    }

    /// Map two uniform base field elements into the affine challenge support.  The high coordinate
    /// is never zero, so the result never lies in the embedded base field.
    pub fn from_challenge_lanes(lo: Block128, raw_hi: Block128) -> (r: Self)
        ensures
            r == challenge(lo, raw_hi),
            r.hi != Block128::nil(),
    {
        proof {
            challenge_outside_base_field(lo, raw_hi);
        }
        Block256 { lo, hi: raw_hi.square() + raw_hi + Block128::extension_tau() }
    }

    /// The element whose coordinates are the two little-endian words of `bytes`.
    pub fn from_uniform_bytes(bytes: &[u8; 32]) -> (r: Self)
        ensures
            r == from_bytes(bytes@),
    {
        proof {
            le_bytes::lemma_word_round_trip(0, bytes@.subrange(0, 16));
            le_bytes::lemma_word_round_trip(0, bytes@.subrange(16, 32));
        }
        let lo: u128 = le_bytes::word_from_bytes(bytes.as_slice(), 0);
        let hi: u128 = le_bytes::word_from_bytes(bytes.as_slice(), 16);
        Block256 { lo: Block128(lo), hi: Block128(hi) }
    }
}

impl TowerField for Block256 {
    const BITS: usize = 256;

    open spec fn nil() -> Self {
        embed(Block128::nil())
    }

    open spec fn unit() -> Self {
        embed(Block128::unit())
    }

    open spec fn plus(self, other: Self) -> Self {
        element(quad::quad_plus(pair(self), pair(other)))
    }

    open spec fn times(self, other: Self) -> Self {
        product(self, other)
    }

    open spec fn inverse(self) -> Self {
        reciprocal(self)
    }

    open spec fn of_byte(value: u8) -> Self {
        embed(Block128::of_byte(value))
    }

    open spec fn tau() -> Self {
        embed(Block128::tau())
    }

    proof fn plus_laws(a: Self, b: Self, c: Self) {
        quad::lemma_quad_plus(pair(a), pair(b), pair(c));
    }

    proof fn times_laws(a: Self, b: Self, c: Self) {
        reveal(product);
        quad::lemma_quad_comm(pair(a), pair(b));
        quad::lemma_quad_assoc(pair(a), pair(b), pair(c));
        quad::lemma_quad_distribute(pair(a), pair(b), pair(c));
    }

    proof fn inverse_laws(a: Self) {
        reveal(product);
        reveal(reciprocal);
        quad::lemma_quad_inverse(pair(a));
        Block128::inverse_laws(a.lo);
    }

    proof fn byte_laws(a: u8, b: u8) {
        Block128::byte_laws(a, b);
        Block128::plus_laws(Block128::nil(), Block128::nil(), Block128::nil());
    }

    fn zero() -> (r: Self) {
        Block256 { lo: Block128::zero(), hi: Block128::zero() }
    }

    fn one() -> (r: Self) {
        Block256 { lo: Block128::one(), hi: Block128::zero() }
    }

    fn fadd(self, other: Self) -> (r: Self) {
        Block256 { lo: self.lo + other.lo, hi: self.hi + other.hi }
    }

    fn fmul(self, other: Self) -> (r: Self) {
        proof {
            reveal(product);
            quad::lemma_quad_karatsuba(pair(self), pair(other));
        }
        let v0 = self.lo * other.lo;
        let v1 = self.hi * other.hi;
        let v_sum = (self.lo + self.hi) * (other.lo + other.hi);
        Block256 { lo: v0 + v1.mul_tau(), hi: v0 + v_sum }
    }

    fn fsquare(self) -> (r: Self) {
        proof {
            reveal(product);
            quad::lemma_quad_square(pair(self));
        }
        let lo2 = self.lo.square();
        let hi2 = self.hi.square();
        Block256 { lo: lo2 + hi2.mul_tau(), hi: hi2 }
    }

    fn invert(&self) -> (r: Self) {
        proof {
            reveal(reciprocal);
        }
        let hi2 = self.hi * self.hi;
        let lo2 = self.lo * self.lo;
        let hi_lo = self.hi * self.lo;
        let norm = hi2.mul_tau() + hi_lo + lo2;
        let norm_inv = norm.invert();
        Block256 { lo: (self.hi + self.lo) * norm_inv, hi: self.hi * norm_inv }
    }

    fn from_byte(value: u8) -> (r: Self) {
        Block256::from_base(Block128::from_byte(value))
    }

    fn extension_tau() -> (r: Self) {
        Block256::from_base(Block128::extension_tau())
    }
}

impl vstd::std_specs::ops::AddSpecImpl for Block256 {
    open spec fn obeys_add_spec() -> bool {
        true
    }

    open spec fn add_req(self, rhs: Block256) -> bool {
        true
    }

    open spec fn add_spec(self, rhs: Block256) -> Block256 {
        self.plus(rhs)
    }
}

impl std::ops::Add for Block256 {
    type Output = Block256;

    fn add(self, rhs: Block256) -> (r: Block256) {
        self.fadd(rhs)
    }
}

impl std::ops::AddAssign for Block256 {
    fn add_assign(&mut self, rhs: Block256)
        ensures
            *final(self) == old(self).plus(rhs),
    {
        *self = self.fadd(rhs);
    }
}

impl vstd::std_specs::ops::SubSpecImpl for Block256 {
    open spec fn obeys_sub_spec() -> bool {
        true
    }

    open spec fn sub_req(self, rhs: Block256) -> bool {
        true
    }

    open spec fn sub_spec(self, rhs: Block256) -> Block256 {
        self.plus(rhs)
    }
}

impl std::ops::Sub for Block256 {
    type Output = Block256;

    fn sub(self, rhs: Block256) -> (r: Block256) {
        self.fadd(rhs)
    }
}

impl std::ops::SubAssign for Block256 {
    fn sub_assign(&mut self, rhs: Block256)
        ensures
            *final(self) == old(self).plus(rhs),
    {
        *self = self.fadd(rhs);
    }
}

impl vstd::std_specs::ops::MulSpecImpl for Block256 {
    open spec fn obeys_mul_spec() -> bool {
        true
    }

    open spec fn mul_req(self, rhs: Block256) -> bool {
        true
    }

    open spec fn mul_spec(self, rhs: Block256) -> Block256 {
        self.times(rhs)
    }
}

impl std::ops::Mul for Block256 {
    type Output = Block256;

    fn mul(self, rhs: Block256) -> (r: Block256) {
        self.fmul(rhs)
    }
}

impl std::ops::MulAssign for Block256 {
    fn mul_assign(&mut self, rhs: Block256)
        ensures
            *final(self) == old(self).times(rhs),
    {
        *self = self.fmul(rhs);
    }
}

impl CanonicalSerialize for Block256 {
    open spec fn encoding(&self) -> Seq<u8> {
        le_bytes::word_bytes(self.lo.0) + le_bytes::word_bytes(self.hi.0)
    }

    fn serialized_size(&self) -> (size: usize) {
        proof {
            le_bytes::lemma_word_round_trip(self.lo.0, Seq::empty());
            le_bytes::lemma_word_round_trip(self.hi.0, Seq::empty());
        }
        32
    }

    fn serialize(&self, writer: &mut [u8]) -> (result: Result<(), SerializationError>) {
        proof {
            le_bytes::lemma_word_round_trip(self.lo.0, Seq::empty());
            le_bytes::lemma_word_round_trip(self.hi.0, Seq::empty());
        }
        if writer.len() < 32 {
            return Err(SerializationError);
        }
        let lo = le_bytes::word_to_bytes(self.lo.0);
        let hi = le_bytes::word_to_bytes(self.hi.0);
        let ghost before = writer@;
        let mut i: usize = 0;
        while i < 16
            invariant
                i <= 16,
                writer@.len() == before.len(),
                before.len() >= 32,
                lo@ == le_bytes::word_bytes(self.lo.0),
                hi@ == le_bytes::word_bytes(self.hi.0),
                lo@.len() == 16 && hi@.len() == 16,
                forall|j: int| 0 <= j < i ==> writer@[j] == lo@[j],
                forall|j: int| 16 <= j < 16 + i ==> writer@[j] == hi@[j - 16],
                forall|j: int| 32 <= j < before.len() ==> writer@[j] == before[j],
            decreases 16 - i,
        {
            writer[i] = lo[i];
            writer[16 + i] = hi[i];
            i = i + 1;
        }
        proof {
            assert(writer@ =~= self.encoding() + before.skip(32));
        }
        Ok(())
    }

    fn to_bytes(&self) -> (bytes: Vec<u8>) {
        let lo = le_bytes::word_to_bytes(self.lo.0);
        let hi = le_bytes::word_to_bytes(self.hi.0);
        let mut bytes: Vec<u8> = Vec::with_capacity(32);
        bytes.extend_from_slice(lo.as_slice());
        bytes.extend_from_slice(hi.as_slice());
        proof {
            assert(bytes@ =~= self.encoding());
        }
        bytes
    }
}

impl CanonicalDeserialize for Block256 {
    open spec fn decoding(bytes: Seq<u8>) -> Option<Self> {
        if bytes.len() < 32 {
            None
        } else {
            Some(from_bytes(bytes))
        }
    }

    proof fn round_trip(value: Self, rest: Seq<u8>) {
        let bytes = value.encoding() + rest;
        le_bytes::lemma_word_round_trip(value.lo.0, Seq::empty());
        le_bytes::lemma_word_round_trip(value.hi.0, Seq::empty());
        assert(bytes.subrange(0, 16) =~= le_bytes::word_bytes(value.lo.0));
        assert(bytes.subrange(16, 32) =~= le_bytes::word_bytes(value.hi.0));
    }

    fn deserialize(bytes: &[u8]) -> (result: Result<Self, SerializationError>) {
        if bytes.len() < 32 {
            return Err(SerializationError);
        }
        proof {
            le_bytes::lemma_word_round_trip(0, bytes@.subrange(0, 16));
            le_bytes::lemma_word_round_trip(0, bytes@.subrange(16, 32));
        }
        let lo: u128 = le_bytes::word_from_bytes(bytes, 0);
        let hi: u128 = le_bytes::word_from_bytes(bytes, 16);
        Ok(Block256 { lo: Block128(lo), hi: Block128(hi) })
    }
}

impl vstd::std_specs::convert::FromSpecImpl<u8> for Block256 {
    open spec fn obeys_from_spec() -> bool {
        true
    }

    open spec fn from_spec(value: u8) -> Block256 {
        embed(Block128(value as u128))
    }
}

impl From<u8> for Block256 {
    fn from(value: u8) -> (r: Block256) {
        Block256::from_base(Block128::from(value))
    }
}

impl vstd::std_specs::convert::FromSpecImpl<u32> for Block256 {
    open spec fn obeys_from_spec() -> bool {
        true
    }

    open spec fn from_spec(value: u32) -> Block256 {
        embed(Block128(value as u128))
    }
}

impl From<u32> for Block256 {
    fn from(value: u32) -> (r: Block256) {
        Block256::from_base(Block128::from(value))
    }
}

impl vstd::std_specs::convert::FromSpecImpl<u64> for Block256 {
    open spec fn obeys_from_spec() -> bool {
        true
    }

    open spec fn from_spec(value: u64) -> Block256 {
        embed(Block128(value as u128))
    }
}

impl From<u64> for Block256 {
    fn from(value: u64) -> (r: Block256) {
        Block256::from_base(Block128::from(value))
    }
}

impl vstd::std_specs::convert::FromSpecImpl<u128> for Block256 {
    open spec fn obeys_from_spec() -> bool {
        true
    }

    open spec fn from_spec(value: u128) -> Block256 {
        embed(Block128(value))
    }
}

impl From<u128> for Block256 {
    fn from(value: u128) -> (r: Block256) {
        Block256::from_base(Block128::from(value))
    }
}

impl vstd::std_specs::convert::FromSpecImpl<Block8> for Block256 {
    open spec fn obeys_from_spec() -> bool {
        true
    }

    open spec fn from_spec(value: Block8) -> Block256 {
        embed(Block128(value.0 as u128))
    }
}

impl From<Block8> for Block256 {
    fn from(value: Block8) -> (r: Block256) {
        Block256::from_base(Block128::from(value))
    }
}

impl vstd::std_specs::convert::FromSpecImpl<Block16> for Block256 {
    open spec fn obeys_from_spec() -> bool {
        true
    }

    open spec fn from_spec(value: Block16) -> Block256 {
        embed(Block128(value.0 as u128))
    }
}

impl From<Block16> for Block256 {
    fn from(value: Block16) -> (r: Block256) {
        Block256::from_base(Block128::from(value))
    }
}

impl vstd::std_specs::convert::FromSpecImpl<Block32> for Block256 {
    open spec fn obeys_from_spec() -> bool {
        true
    }

    open spec fn from_spec(value: Block32) -> Block256 {
        embed(Block128(value.0 as u128))
    }
}

impl From<Block32> for Block256 {
    fn from(value: Block32) -> (r: Block256) {
        Block256::from_base(Block128::from(value))
    }
}

impl vstd::std_specs::convert::FromSpecImpl<Block64> for Block256 {
    open spec fn obeys_from_spec() -> bool {
        true
    }

    open spec fn from_spec(value: Block64) -> Block256 {
        embed(Block128(value.0 as u128))
    }
}

impl From<Block64> for Block256 {
    fn from(value: Block64) -> (r: Block256) {
        Block256::from_base(Block128::from(value))
    }
}

impl vstd::std_specs::convert::FromSpecImpl<Bit> for Block256 {
    open spec fn obeys_from_spec() -> bool {
        true
    }

    open spec fn from_spec(value: Bit) -> Block256 {
        embed(Block128(if value.0 { 1 } else { 0 }))
    }
}

impl From<Bit> for Block256 {
    fn from(value: Bit) -> (r: Block256) {
        Block256::from_base(Block128::from(value))
    }
}

impl vstd::std_specs::convert::FromSpecImpl<Block128> for Block256 {
    open spec fn obeys_from_spec() -> bool {
        true
    }

    open spec fn from_spec(value: Block128) -> Block256 {
        embed(value)
    }
}

impl From<Block128> for Block256 {
    fn from(value: Block128) -> (r: Block256) {
        Block256::from_base(value)
    }
}

/// The relation of the extension: its generator `X` has the square `X + tau`, where `tau` is the
/// constant of the base field, and every element is its low coordinate plus its high coordinate
/// times `X`.
pub proof fn extension_relation(a: Block256)
    ensures
        ({
            let x = Block256 { lo: Block128(0), hi: Block128(1) };
            let tau = Block128(0x2000_0000_0000_0000_0000_0000_0000_0000);
            &&& x.times(x) == (Block256 { lo: tau, hi: Block128(1) })
            &&& x.times(Block256 { lo: a.hi, hi: Block128(0) }).plus(
                Block256 { lo: a.lo, hi: Block128(0) },
            ) == a
        }),
{
    reveal(product);
    let (z, one, tau) = (Block128::nil(), Block128::unit(), Block128::tau());
    algebra::lemma_times_nil(z);
    algebra::lemma_times_nil(one);
    algebra::lemma_neutral_left(one);
    algebra::lemma_neutral_left(tau);
    algebra::lemma_neutral_left(z);
    Block128::times_laws(tau, one, one);
    Block128::times_laws(one, one, one);
    let x = Block256 { lo: z, hi: one };
    quad::lemma_quad_square(pair(x));
    scaling_is_multiplication(x, a.hi);
    algebra::lemma_times_nil(a.hi);
    algebra::lemma_neutral_left(a.hi);
    algebra::lemma_neutral_left(a.lo);
    Block128::plus_laws(a.hi, z, z);
}

/// The bytes of two words, lowest first, are the bytes of the element with these coordinates.
pub proof fn bytes_hold_the_coordinates(a: Block256)
    ensures
        from_bytes(le_bytes::word_bytes(a.lo.0) + le_bytes::word_bytes(a.hi.0)) == a,
{
    let (x, y) = (le_bytes::word_bytes(a.lo.0), le_bytes::word_bytes(a.hi.0));
    le_bytes::lemma_word_round_trip(a.lo.0, x);
    le_bytes::lemma_word_round_trip(a.hi.0, y);
    assert((x + y).subrange(0, 16) =~= x);
    assert((x + y).subrange(16, 32) =~= y);
}

/// The encoding is the low and then the high coordinate, lowest byte first, in 32 bytes, and it can be
/// read back exactly where there are 32 bytes.
pub proof fn encoding_is_two_words(a: Block256, bytes: Seq<u8>)
    ensures
        a.encoding() == le_bytes::word_bytes(a.lo.0) + le_bytes::word_bytes(a.hi.0),
        a.encoding().len() == 32,
        Block256::decoding(bytes) is Some <==> bytes.len() >= 32,
        bytes.len() >= 32 ==> Block256::decoding(bytes) == Some(from_bytes(bytes.take(32))),
{
    le_bytes::lemma_word_round_trip(a.lo.0, Seq::empty());
    le_bytes::lemma_word_round_trip(a.hi.0, Seq::empty());
    if bytes.len() >= 32 {
        assert(bytes.take(32).subrange(0, 16) =~= bytes.subrange(0, 16));
        assert(bytes.take(32).subrange(16, 32) =~= bytes.subrange(16, 32));
    }
}

} // verus!
