//! GF(2^16), the quadratic extension of GF(2^8) by a root of `X^2 + X + tau`.
use crate::block8::Block8;
use crate::quad;
use crate::tower_field::{QuadBase, TowerField};
use vstd::prelude::*;

verus! {

/// An element of GF(2^16); the low half is the coefficient of one, the high half that of `X`.
#[derive(Copy, Clone, Default, Debug, PartialEq, Eq, Structural)]
pub struct Block16(pub u16);

/// The two coordinates of an element.
pub open spec fn parts(a: Block16) -> (Block8, Block8) {
    (Block8((a.0 & 0xff) as u8), Block8((a.0 >> 8u16) as u8))
}

/// The element with the given coordinates.
pub open spec fn join(p: (Block8, Block8)) -> Block16 {
    Block16(((p.1.0 as u16) << 8u16) | (p.0.0 as u16))
}

/// The field product of two elements.
#[verifier::opaque]
pub open spec fn product(a: Block16, b: Block16) -> Block16 {
    join(quad::quad_times(parts(a), parts(b)))
}

/// The inverse of a non-zero element, and zero for zero.
#[verifier::opaque]
pub open spec fn reciprocal(a: Block16) -> Block16 {
    join(quad::quad_inverse(parts(a)))
}

proof fn lemma_xor(a: u16, b: u16, c: u16)
    by (bit_vector)
    ensures
        a ^ b == b ^ a,
        (a ^ b) ^ c == a ^ (b ^ c),
        a ^ 0 == a,
        a ^ a == 0,
        ((a ^ b) & 0xff) as u8 == ((a & 0xff) as u8) ^ ((b & 0xff) as u8),
        ((a ^ b) >> 8u16) as u8 == ((a >> 8u16) as u8) ^ ((b >> 8u16) as u8),
        ((((a >> 8u16) as u8) as u16) << 8u16) | (((a & 0xff) as u8) as u16) == a,
{
}

proof fn lemma_halves(lo: u8, hi: u8)
    by (bit_vector)
    ensures
        ((((hi as u16) << 8u16) | (lo as u16)) & 0xff) as u8 == lo,
        ((((hi as u16) << 8u16) | (lo as u16)) >> 8u16) as u8 == hi,
        ((0u8 as u16) << 8u16) | (0u8 as u16) == 0,
        ((0u8 as u16) << 8u16) | (1u8 as u16) == 1,
        ((0x20u8 as u16) << 8u16) | (0u8 as u16) == 0x2000,
{
}

proof fn lemma_bytes(a: u8, b: u8)
    by (bit_vector)
    ensures
        (a as u16) ^ (b as u16) == ((a ^ b) as u16),
{
}

/// An element is determined by its coordinates, which can be chosen freely, and addition acts on
/// them separately.
pub proof fn lemma_parts(a: Block16, b: Block16, p: (Block8, Block8))
    ensures
        join(parts(a)) == a,
        parts(join(p)) == p,
        parts(a.plus(b)) == quad::quad_plus(parts(a), parts(b)),
{
    lemma_xor(a.0, b.0, a.0);
    lemma_halves(p.0.0, p.1.0);
}

/// The coordinates of zero, one and `tau`.
pub proof fn lemma_constants()
    ensures
        parts(Block16::nil()) == (Block8::nil(), Block8::nil()),
        parts(Block16::unit()) == (Block8::unit(), Block8::nil()),
        parts(Block16::tau()) == (Block8::nil(), Block8::tau()),
{
    lemma_halves(0, 0);
    lemma_halves(1, 0);
    lemma_halves(0, 0x20);
}

fn low(a: Block16) -> (r: Block8)
    ensures
        r == parts(a).0,
{
    Block8((a.0 & 0xff) as u8)
}

fn high(a: Block16) -> (r: Block8)
    ensures
        r == parts(a).1,
{
    Block8((a.0 >> 8u16) as u8)
}

fn assemble(lo: Block8, hi: Block8) -> (r: Block16)
    ensures
        r == join((lo, hi)),
{
    Block16(((hi.0 as u16) << 8u16) | (lo.0 as u16))
}

impl TowerField for Block16 {
    const BITS: usize = 16;

    open spec fn nil() -> Self {
        Block16(0)
    }

    open spec fn unit() -> Self {
        Block16(1)
    }

    open spec fn plus(self, other: Self) -> Self {
        Block16(self.0 ^ other.0)
    }

    open spec fn times(self, other: Self) -> Self {
        product(self, other)
    }

    open spec fn inverse(self) -> Self {
        reciprocal(self)
    }

    open spec fn of_byte(value: u8) -> Self {
        Block16(value as u16)
    }

    open spec fn tau() -> Self {
        Block16(0x2000)
    }

    proof fn plus_laws(a: Self, b: Self, c: Self) {
        lemma_xor(a.0, b.0, c.0);
    }

    proof fn times_laws(a: Self, b: Self, c: Self) {
        reveal(product);
        lemma_constants();
        let (p, q, r) = (parts(a), parts(b), parts(c));
        lemma_parts(a, b, quad::quad_times(p, q));
        lemma_parts(b, c, quad::quad_times(q, r));
        lemma_parts(product(a, b), product(a, c), quad::quad_times(p, r));
        lemma_parts(product(a, b).plus(product(a, c)), a, p);
        quad::lemma_quad_comm(p, q);
        quad::lemma_quad_assoc(p, q, r);
        quad::lemma_quad_distribute(p, q, r);
    }

    proof fn inverse_laws(a: Self) {
        reveal(product);
        reveal(reciprocal);
        lemma_constants();
        lemma_parts(a, Self::nil(), quad::quad_inverse(parts(a)));
        lemma_parts(Self::unit(), Self::nil(), parts(a));
        quad::lemma_quad_inverse(parts(a));
        lemma_parts(Self::nil(), a, parts(a));
    }

    proof fn byte_laws(a: u8, b: u8) {
        lemma_bytes(a, b);
    }

    fn zero() -> (r: Self) {
        Block16(0)
    }

    fn one() -> (r: Self) {
        Block16(1)
    }

    fn fadd(self, other: Self) -> (r: Self) {
        Block16(self.0 ^ other.0)
    }

    fn fmul(self, other: Self) -> (r: Self) {
        proof {
            reveal(product);
            quad::lemma_quad_karatsuba(parts(self), parts(other));
            quad::lemma_quad_times_base(parts(self), parts(other).0);
            quad::lemma_quad_times_base(parts(other), parts(self).0);
            quad::lemma_quad_comm(parts(self), parts(other));
        }
        let (a0, a1) = (low(self), high(self));
        let (b0, b1) = (low(other), high(other));
        if b1.0 == 0 {
            return assemble(a0.fmul(b0), a1.fmul(b0));
        }
        if a1.0 == 0 {
            return assemble(b0.fmul(a0), b1.fmul(a0));
        }
        let v0 = a0.fmul(b0);
        let v1 = a1.fmul(b1);
        let sum = a0.fadd(a1).fmul(b0.fadd(b1));
        assemble(v0.fadd(v1.mul_tau()), v0.fadd(sum))
    }

    fn fsquare(self) -> (r: Self) {
        proof {
            reveal(product);
            quad::lemma_quad_square(parts(self));
        }
        let lo2 = low(self).fsquare();
        let hi2 = high(self).fsquare();
        assemble(lo2.fadd(hi2.mul_tau()), hi2)
    }

    fn invert(&self) -> (r: Self) {
        proof {
            reveal(reciprocal);
        }
        let (lo, hi) = (low(*self), high(*self));
        let norm = hi.fsquare().mul_tau().fadd(hi.fmul(lo)).fadd(lo.fsquare());
        let norm_inv = norm.invert();
        assemble(hi.fadd(lo).fmul(norm_inv), hi.fmul(norm_inv))
    }

    fn from_byte(value: u8) -> (r: Self) {
        Block16(value as u16)
    }

    fn extension_tau() -> (r: Self) {
        Block16(0x2000)
    }
}

impl QuadBase for Block16 {
    proof fn tau_irreducible(z: Self) {
        reveal(product);
        lemma_constants();
        let p = parts(z);
        lemma_parts(product(z, z), z, quad::quad_times(p, p));
        quad::lemma_quad_tau(p);
    }

    fn mul_tau(self) -> (r: Self) {
        proof {
            reveal(product);
            lemma_constants();
            quad::lemma_quad_times_tau(parts(self));
        }
        let (lo, hi) = (low(self), high(self));
        assemble(hi.mul_tau().mul_tau(), lo.fadd(hi).mul_tau())
    }
}

} // verus!
