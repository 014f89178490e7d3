//! GF(2^64), the quadratic extension of GF(2^32) by a root of `X^2 + X + tau`.
use crate::block32::Block32;
use crate::quad;
use crate::tower_field::{QuadBase, TowerField};
use vstd::prelude::*;

verus! {

/// An element of GF(2^64); the low half is the coefficient of one, the high half that of `X`.
#[derive(Copy, Clone, Default, Debug, PartialEq, Eq, Structural)]
pub struct Block64(pub u64);

/// The two coordinates of an element.
pub open spec fn parts(a: Block64) -> (Block32, Block32) {
    (Block32((a.0 & 0xffff_ffff) as u32), Block32((a.0 >> 32u64) as u32))
}

/// The element with the given coordinates.
pub open spec fn join(p: (Block32, Block32)) -> Block64 {
    Block64(((p.1.0 as u64) << 32u64) | (p.0.0 as u64))
}

/// The field product of two elements.
#[verifier::opaque]
pub open spec fn product(a: Block64, b: Block64) -> Block64 {
    join(quad::quad_times(parts(a), parts(b)))
}

/// The inverse of a non-zero element, and zero for zero.
#[verifier::opaque]
pub open spec fn reciprocal(a: Block64) -> Block64 {
    join(quad::quad_inverse(parts(a)))
}

proof fn lemma_xor(a: u64, b: u64, c: u64)
    by (bit_vector)
    ensures
        a ^ b == b ^ a,
        (a ^ b) ^ c == a ^ (b ^ c),
        a ^ 0 == a,
        a ^ a == 0,
        ((a ^ b) & 0xffff_ffff) as u32 == ((a & 0xffff_ffff) as u32) ^ ((b & 0xffff_ffff) as u32),
        ((a ^ b) >> 32u64) as u32 == ((a >> 32u64) as u32) ^ ((b >> 32u64) as u32),
        ((((a >> 32u64) as u32) as u64) << 32u64) | (((a & 0xffff_ffff) as u32) as u64) == a,
{
}

proof fn lemma_halves(lo: u32, hi: u32)
    by (bit_vector)
    ensures
        ((((hi as u64) << 32u64) | (lo as u64)) & 0xffff_ffff) as u32 == lo,
        ((((hi as u64) << 32u64) | (lo as u64)) >> 32u64) as u32 == hi,
        ((0u32 as u64) << 32u64) | (0u32 as u64) == 0,
        ((0u32 as u64) << 32u64) | (1u32 as u64) == 1,
        ((0x2000_0000u32 as u64) << 32u64) | (0u32 as u64) == 0x2000_0000_0000_0000,
{
}

proof fn lemma_bytes(a: u8, b: u8)
    by (bit_vector)
    ensures
        (a as u64) ^ (b as u64) == ((a ^ b) as u64),
{
}

/// An element is determined by its coordinates, which can be chosen freely, and addition acts on
/// them separately.
pub proof fn lemma_parts(a: Block64, b: Block64, p: (Block32, Block32))
    ensures
        join(parts(a)) == a,
        parts(join(p)) == p,
        parts(a.plus(b)) == quad::quad_plus(parts(a), parts(b)),
{
    lemma_xor(a.0, b.0, a.0);
    lemma_halves(p.0.0, p.1.0);
}

/// The coordinates of zero, one and `tau`.
pub proof fn lemma_constants()
    ensures
        parts(Block64::nil()) == (Block32::nil(), Block32::nil()),
        parts(Block64::unit()) == (Block32::unit(), Block32::nil()),
        parts(Block64::tau()) == (Block32::nil(), Block32::tau()),
{
    lemma_halves(0, 0);
    lemma_halves(1, 0);
    lemma_halves(0, 0x2000_0000);
}

fn low(a: Block64) -> (r: Block32)
    ensures
        r == parts(a).0,
{
    Block32((a.0 & 0xffff_ffff) as u32)
}

fn high(a: Block64) -> (r: Block32)
    ensures
        r == parts(a).1,
{
    Block32((a.0 >> 32u64) as u32)
}

fn assemble(lo: Block32, hi: Block32) -> (r: Block64)
    ensures
        r == join((lo, hi)),
{
    Block64(((hi.0 as u64) << 32u64) | (lo.0 as u64))
}

impl TowerField for Block64 {
    const BITS: usize = 64;

    open spec fn nil() -> Self {
        Block64(0)
    }

    open spec fn unit() -> Self {
        Block64(1)
    }

    open spec fn plus(self, other: Self) -> Self {
        Block64(self.0 ^ other.0)
    }

    open spec fn times(self, other: Self) -> Self {
        product(self, other)
    }

    open spec fn inverse(self) -> Self {
        reciprocal(self)
    }

    open spec fn of_byte(value: u8) -> Self {
        Block64(value as u64)
    }

    open spec fn tau() -> Self {
        Block64(0x2000_0000_0000_0000)
    }

    proof fn plus_laws(a: Self, b: Self, c: Self) {
        lemma_xor(a.0, b.0, c.0);
    }

    proof fn times_laws(a: Self, b: Self, c: Self) {
        reveal(product);
        lemma_constants();
        let (p, q, r) = (parts(a), parts(b), parts(c));
        lemma_parts(a, b, quad::quad_times(p, q));
        lemma_parts(b, c, quad::quad_times(q, r));
        lemma_parts(product(a, b), product(a, c), quad::quad_times(p, r));
        lemma_parts(product(a, b).plus(product(a, c)), a, p);
        quad::lemma_quad_comm(p, q);
        quad::lemma_quad_assoc(p, q, r);
        quad::lemma_quad_distribute(p, q, r);
    }

    proof fn inverse_laws(a: Self) {
        reveal(product);
        reveal(reciprocal);
        lemma_constants();
        lemma_parts(a, Self::nil(), quad::quad_inverse(parts(a)));
        lemma_parts(Self::unit(), Self::nil(), parts(a));
        quad::lemma_quad_inverse(parts(a));
        lemma_parts(Self::nil(), a, parts(a));
    }

    proof fn byte_laws(a: u8, b: u8) {
        lemma_bytes(a, b);
    }

    fn zero() -> (r: Self) {
        Block64(0)
    }

    fn one() -> (r: Self) {
        Block64(1)
    }

    fn fadd(self, other: Self) -> (r: Self) {
        Block64(self.0 ^ other.0)
    }

    fn fmul(self, other: Self) -> (r: Self) {
        proof {
            reveal(product);
            quad::lemma_quad_karatsuba(parts(self), parts(other));
            quad::lemma_quad_times_base(parts(self), parts(other).0);
            quad::lemma_quad_times_base(parts(other), parts(self).0);
            quad::lemma_quad_comm(parts(self), parts(other));
        }
        let (a0, a1) = (low(self), high(self));
        let (b0, b1) = (low(other), high(other));
        if b1.0 == 0 {
            return assemble(a0.fmul(b0), a1.fmul(b0));
        }
        if a1.0 == 0 {
            return assemble(b0.fmul(a0), b1.fmul(a0));
        }
        let v0 = a0.fmul(b0);
        let v1 = a1.fmul(b1);
        let sum = a0.fadd(a1).fmul(b0.fadd(b1));
        assemble(v0.fadd(v1.mul_tau()), v0.fadd(sum))
    }

    fn fsquare(self) -> (r: Self) {
        proof {
            reveal(product);
            quad::lemma_quad_square(parts(self));
        }
        let lo2 = low(self).fsquare();
        let hi2 = high(self).fsquare();
        assemble(lo2.fadd(hi2.mul_tau()), hi2)
    }

    fn invert(&self) -> (r: Self) {
        proof {
            reveal(reciprocal);
        }
        let (lo, hi) = (low(*self), high(*self));
        let norm = hi.fsquare().mul_tau().fadd(hi.fmul(lo)).fadd(lo.fsquare());
        let norm_inv = norm.invert();
        assemble(hi.fadd(lo).fmul(norm_inv), hi.fmul(norm_inv))
    }

    fn from_byte(value: u8) -> (r: Self) {
        Block64(value as u64)
    }

    fn extension_tau() -> (r: Self) {
        Block64(0x2000_0000_0000_0000)
    }
}

impl QuadBase for Block64 {
    proof fn tau_irreducible(z: Self) {
        reveal(product);
        lemma_constants();
        let p = parts(z);
        lemma_parts(product(z, z), z, quad::quad_times(p, p));
        quad::lemma_quad_tau(p);
    }

    fn mul_tau(self) -> (r: Self) {
        proof {
            reveal(product);
            lemma_constants();
            quad::lemma_quad_times_tau(parts(self));
        }
        let (lo, hi) = (low(self), high(self));
        assemble(hi.mul_tau().mul_tau(), lo.fadd(hi).mul_tau())
    }
}

} // verus!
