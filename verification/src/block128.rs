//! GF(2^128), the quadratic extension of GF(2^64) by a root of `X^2 + X + tau`.
use crate::bit::Bit;
use crate::block16::Block16;
use crate::block32::Block32;
use crate::block64::Block64;
use crate::block8::Block8;
use crate::quad;
use crate::tower_field::{QuadBase, TowerField};
use vstd::prelude::*;

verus! {

/// An element of GF(2^128); the low half is the coefficient of one, the high half that of `X`.
#[derive(Copy, Clone, Default, Debug, PartialEq, Eq, Structural)]
pub struct Block128(pub u128);

/// The two coordinates of an element.
pub open spec fn parts(a: Block128) -> (Block64, Block64) {
    (Block64((a.0 & 0xffff_ffff_ffff_ffff) as u64), Block64((a.0 >> 64u128) as u64))
}

/// The element with the given coordinates.
pub open spec fn join(p: (Block64, Block64)) -> Block128 {
    Block128(((p.1.0 as u128) << 64u128) | (p.0.0 as u128))
}

/// The field product of two elements.
#[verifier::opaque]
pub open spec fn product(a: Block128, b: Block128) -> Block128 {
    join(quad::quad_times(parts(a), parts(b)))
}

/// The inverse of a non-zero element, and zero for zero.
#[verifier::opaque]
pub open spec fn reciprocal(a: Block128) -> Block128 {
    join(quad::quad_inverse(parts(a)))
}

proof fn lemma_xor(a: u128, b: u128, c: u128)
    by (bit_vector)
    ensures
        a ^ b == b ^ a,
        (a ^ b) ^ c == a ^ (b ^ c),
        a ^ 0 == a,
        a ^ a == 0,
        ((a ^ b) & 0xffff_ffff_ffff_ffff) as u64 == ((a & 0xffff_ffff_ffff_ffff) as u64) ^ ((b & 0xffff_ffff_ffff_ffff) as u64),
        ((a ^ b) >> 64u128) as u64 == ((a >> 64u128) as u64) ^ ((b >> 64u128) as u64),
        ((((a >> 64u128) as u64) as u128) << 64u128) | (((a & 0xffff_ffff_ffff_ffff) as u64) as u128) == a,
{
}

proof fn lemma_halves(lo: u64, hi: u64)
    by (bit_vector)
    ensures
        ((((hi as u128) << 64u128) | (lo as u128)) & 0xffff_ffff_ffff_ffff) as u64 == lo,
        ((((hi as u128) << 64u128) | (lo as u128)) >> 64u128) as u64 == hi,
        ((0u64 as u128) << 64u128) | (0u64 as u128) == 0,
        ((0u64 as u128) << 64u128) | (1u64 as u128) == 1,
        ((0x2000_0000_0000_0000u64 as u128) << 64u128) | (0u64 as u128) == 0x2000_0000_0000_0000_0000_0000_0000_0000,
{
}

proof fn lemma_bytes(a: u8, b: u8)
    by (bit_vector)
    ensures
        (a as u128) ^ (b as u128) == ((a ^ b) as u128),
{
}

/// An element is determined by its coordinates, which can be chosen freely, and addition acts on
/// them separately.
pub proof fn lemma_parts(a: Block128, b: Block128, p: (Block64, Block64))
    ensures
        join(parts(a)) == a,
        parts(join(p)) == p,
        parts(a.plus(b)) == quad::quad_plus(parts(a), parts(b)),
{
    lemma_xor(a.0, b.0, a.0);
    lemma_halves(p.0.0, p.1.0);
}

/// The coordinates of zero, one and `tau`.
pub proof fn lemma_constants()
    ensures
        parts(Block128::nil()) == (Block64::nil(), Block64::nil()),
        parts(Block128::unit()) == (Block64::unit(), Block64::nil()),
        parts(Block128::tau()) == (Block64::nil(), Block64::tau()),
{
    lemma_halves(0, 0);
    lemma_halves(1, 0);
    lemma_halves(0, 0x2000_0000_0000_0000);
}

fn low(a: Block128) -> (r: Block64)
    ensures
        r == parts(a).0,
{
    Block64((a.0 & 0xffff_ffff_ffff_ffff) as u64)
}

fn high(a: Block128) -> (r: Block64)
    ensures
        r == parts(a).1,
{
    Block64((a.0 >> 64u128) as u64)
}

fn assemble(lo: Block64, hi: Block64) -> (r: Block128)
    ensures
        r == join((lo, hi)),
{
    Block128(((hi.0 as u128) << 64u128) | (lo.0 as u128))
}

impl TowerField for Block128 {
    const BITS: usize = 128;

    open spec fn nil() -> Self {
        Block128(0)
    }

    open spec fn unit() -> Self {
        Block128(1)
    }

    open spec fn plus(self, other: Self) -> Self {
        Block128(self.0 ^ other.0)
    }

    open spec fn times(self, other: Self) -> Self {
        product(self, other)
    }

    open spec fn inverse(self) -> Self {
        reciprocal(self)
    }

    open spec fn of_byte(value: u8) -> Self {
        Block128(value as u128)
    }

    open spec fn tau() -> Self {
        Block128(0x2000_0000_0000_0000_0000_0000_0000_0000)
    }

    proof fn plus_laws(a: Self, b: Self, c: Self) {
        lemma_xor(a.0, b.0, c.0);
    }

    proof fn times_laws(a: Self, b: Self, c: Self) {
        reveal(product);
        lemma_constants();
        let (p, q, r) = (parts(a), parts(b), parts(c));
        lemma_parts(a, b, quad::quad_times(p, q));
        lemma_parts(b, c, quad::quad_times(q, r));
        lemma_parts(product(a, b), product(a, c), quad::quad_times(p, r));
        lemma_parts(product(a, b).plus(product(a, c)), a, p);
        quad::lemma_quad_comm(p, q);
        quad::lemma_quad_assoc(p, q, r);
        quad::lemma_quad_distribute(p, q, r);
    }

    proof fn inverse_laws(a: Self) {
        reveal(product);
        reveal(reciprocal);
        lemma_constants();
        lemma_parts(a, Self::nil(), quad::quad_inverse(parts(a)));
        lemma_parts(Self::unit(), Self::nil(), parts(a));
        quad::lemma_quad_inverse(parts(a));
        lemma_parts(Self::nil(), a, parts(a));
    }

    proof fn byte_laws(a: u8, b: u8) {
        lemma_bytes(a, b);
    }

    fn zero() -> (r: Self) {
        Block128(0)
    }

    fn one() -> (r: Self) {
        Block128(1)
    }

    fn fadd(self, other: Self) -> (r: Self) {
        Block128(self.0 ^ other.0)
    }

    fn fmul(self, other: Self) -> (r: Self) {
        proof {
            reveal(product);
            quad::lemma_quad_karatsuba(parts(self), parts(other));
            quad::lemma_quad_times_base(parts(self), parts(other).0);
            quad::lemma_quad_times_base(parts(other), parts(self).0);
            quad::lemma_quad_comm(parts(self), parts(other));
        }
        let (a0, a1) = (low(self), high(self));
        let (b0, b1) = (low(other), high(other));
        if b1.0 == 0 {
            return assemble(a0.fmul(b0), a1.fmul(b0));
        }
        if a1.0 == 0 {
            return assemble(b0.fmul(a0), b1.fmul(a0));
        }
        let v0 = a0.fmul(b0);
        let v1 = a1.fmul(b1);
        let sum = a0.fadd(a1).fmul(b0.fadd(b1));
        assemble(v0.fadd(v1.mul_tau()), v0.fadd(sum))
    }

    fn fsquare(self) -> (r: Self) {
        proof {
            reveal(product);
            quad::lemma_quad_square(parts(self));
        }
        let lo2 = low(self).fsquare();
        let hi2 = high(self).fsquare();
        assemble(lo2.fadd(hi2.mul_tau()), hi2)
    }

    fn invert(&self) -> (r: Self) {
        proof {
            reveal(reciprocal);
        }
        let (lo, hi) = (low(*self), high(*self));
        let norm = hi.fsquare().mul_tau().fadd(hi.fmul(lo)).fadd(lo.fsquare());
        let norm_inv = norm.invert();
        assemble(hi.fadd(lo).fmul(norm_inv), hi.fmul(norm_inv))
    }

    fn from_byte(value: u8) -> (r: Self) {
        Block128(value as u128)
    }

    fn extension_tau() -> (r: Self) {
        Block128(0x2000_0000_0000_0000_0000_0000_0000_0000)
    }
}

impl QuadBase for Block128 {
    proof fn tau_irreducible(z: Self) {
        reveal(product);
        lemma_constants();
        let p = parts(z);
        lemma_parts(product(z, z), z, quad::quad_times(p, p));
        quad::lemma_quad_tau(p);
    }

    fn mul_tau(self) -> (r: Self) {
        proof {
            reveal(product);
            lemma_constants();
            quad::lemma_quad_times_tau(parts(self));
        }
        let (lo, hi) = (low(self), high(self));
        assemble(hi.mul_tau().mul_tau(), lo.fadd(hi).mul_tau())
    }
}

impl Block128 {
    /// The square of an element.
    pub fn square(self) -> (r: Self)
        ensures
            r == self.times(self),
    {
        self.fsquare()
    }
}

impl vstd::std_specs::ops::AddSpecImpl for Block128 {
    open spec fn obeys_add_spec() -> bool {
        true
    }

    open spec fn add_req(self, rhs: Block128) -> bool {
        true
    }

    open spec fn add_spec(self, rhs: Block128) -> Block128 {
        self.plus(rhs)
    }
}

impl std::ops::Add for Block128 {
    type Output = Block128;

    fn add(self, rhs: Block128) -> (r: Block128) {
        self.fadd(rhs)
    }
}

impl vstd::std_specs::ops::SubSpecImpl for Block128 {
    open spec fn obeys_sub_spec() -> bool {
        true
    }

    open spec fn sub_req(self, rhs: Block128) -> bool {
        true
    }

    open spec fn sub_spec(self, rhs: Block128) -> Block128 {
        self.plus(rhs)
    }
}

impl std::ops::Sub for Block128 {
    type Output = Block128;

    fn sub(self, rhs: Block128) -> (r: Block128) {
        self.fadd(rhs)
    }
}

impl vstd::std_specs::ops::MulSpecImpl for Block128 {
    open spec fn obeys_mul_spec() -> bool {
        true
    }

    open spec fn mul_req(self, rhs: Block128) -> bool {
        true
    }

    open spec fn mul_spec(self, rhs: Block128) -> Block128 {
        self.times(rhs)
    }
}

impl std::ops::Mul for Block128 {
    type Output = Block128;

    fn mul(self, rhs: Block128) -> (r: Block128) {
        self.fmul(rhs)
    }
}

impl std::ops::AddAssign for Block128 {
    fn add_assign(&mut self, rhs: Block128)
        ensures
            *final(self) == old(self).plus(rhs),
    {
        *self = self.fadd(rhs);
    }
}

impl std::ops::SubAssign for Block128 {
    fn sub_assign(&mut self, rhs: Block128)
        ensures
            *final(self) == old(self).plus(rhs),
    {
        *self = self.fadd(rhs);
    }
}

impl std::ops::MulAssign for Block128 {
    fn mul_assign(&mut self, rhs: Block128)
        ensures
            *final(self) == old(self).times(rhs),
    {
        *self = self.fmul(rhs);
    }
}

impl vstd::std_specs::convert::FromSpecImpl<u8> for Block128 {
    open spec fn obeys_from_spec() -> bool {
        true
    }

    open spec fn from_spec(value: u8) -> Block128 {
        Block128(value as u128)
    }
}

impl From<u8> for Block128 {
    fn from(value: u8) -> (r: Block128) {
        Block128(value as u128)
    }
}

impl vstd::std_specs::convert::FromSpecImpl<u32> for Block128 {
    open spec fn obeys_from_spec() -> bool {
        true
    }

    open spec fn from_spec(value: u32) -> Block128 {
        Block128(value as u128)
    }
}

impl From<u32> for Block128 {
    fn from(value: u32) -> (r: Block128) {
        Block128(value as u128)
    }
}

impl vstd::std_specs::convert::FromSpecImpl<u64> for Block128 {
    open spec fn obeys_from_spec() -> bool {
        true
    }

    open spec fn from_spec(value: u64) -> Block128 {
        Block128(value as u128)
    }
}

impl From<u64> for Block128 {
    fn from(value: u64) -> (r: Block128) {
        Block128(value as u128)
    }
}

impl vstd::std_specs::convert::FromSpecImpl<u128> for Block128 {
    open spec fn obeys_from_spec() -> bool {
        true
    }

    open spec fn from_spec(value: u128) -> Block128 {
        Block128(value)
    }
}

impl From<u128> for Block128 {
    fn from(value: u128) -> (r: Block128) {
        Block128(value)
    }
}

impl vstd::std_specs::convert::FromSpecImpl<Block8> for Block128 {
    open spec fn obeys_from_spec() -> bool {
        true
    }

    open spec fn from_spec(value: Block8) -> Block128 {
        Block128(value.0 as u128)
    }
}

impl From<Block8> for Block128 {
    fn from(value: Block8) -> (r: Block128) {
        Block128(value.0 as u128)
    }
}

impl vstd::std_specs::convert::FromSpecImpl<Block16> for Block128 {
    open spec fn obeys_from_spec() -> bool {
        true
    }

    open spec fn from_spec(value: Block16) -> Block128 {
        Block128(value.0 as u128)
    }
}

impl From<Block16> for Block128 {
    fn from(value: Block16) -> (r: Block128) {
        Block128(value.0 as u128)
    }
}

impl vstd::std_specs::convert::FromSpecImpl<Block32> for Block128 {
    open spec fn obeys_from_spec() -> bool {
        true
    }

    open spec fn from_spec(value: Block32) -> Block128 {
        Block128(value.0 as u128)
    }
}

impl From<Block32> for Block128 {
    fn from(value: Block32) -> (r: Block128) {
        Block128(value.0 as u128)
    }
}

impl vstd::std_specs::convert::FromSpecImpl<Block64> for Block128 {
    open spec fn obeys_from_spec() -> bool {
        true
    }

    open spec fn from_spec(value: Block64) -> Block128 {
        Block128(value.0 as u128)
    }
}

impl From<Block64> for Block128 {
    fn from(value: Block64) -> (r: Block128) {
        Block128(value.0 as u128)
    }
}

impl vstd::std_specs::convert::FromSpecImpl<Bit> for Block128 {
    open spec fn obeys_from_spec() -> bool {
        true
    }

    open spec fn from_spec(value: Bit) -> Block128 {
        Block128(if value.0 { 1 } else { 0 })
    }
}

impl From<Bit> for Block128 {
    fn from(value: Bit) -> (r: Block128) {
        Block128(if value.0 { 1 } else { 0 })
    }
}

} // verus!
