//! GF(2^8), the bottom of the tower: polynomials over GF(2) modulo `x^8 + x^4 + x^3 + x + 1`.
use crate::tower_field::{QuadBase, TowerField};
use vstd::prelude::*;

verus! {

/// An element of GF(2^8); bit `i` is the coefficient of `x^i`.
#[derive(Copy, Clone, Default, Debug, PartialEq, Eq, Structural)]
pub struct Block8(pub u8);

/// Multiplication by `x`.
pub open spec fn gf8_step(a: u8) -> u8 {
    (a << 1u8) ^ (if a & 0x80 == 0x80 {
        0x1bu8
    } else {
        0u8
    })
}

/// `a` if bit `i` of `b` is set, zero otherwise.
pub open spec fn gf8_pick(a: u8, b: u8, i: u8) -> u8 {
    if (b >> i) & 1 == 1 {
        a
    } else {
        0u8
    }
}

/// The product: the sum of `a x^i` over the bits `i` of `b`.
pub open spec fn gf8_mul(a: u8, b: u8) -> u8 {
    let a1 = gf8_step(a);
    let a2 = gf8_step(a1);
    let a3 = gf8_step(a2);
    let a4 = gf8_step(a3);
    let a5 = gf8_step(a4);
    let a6 = gf8_step(a5);
    let a7 = gf8_step(a6);
    gf8_pick(a, b, 0) ^ gf8_pick(a1, b, 1) ^ gf8_pick(a2, b, 2) ^ gf8_pick(a3, b, 3) ^ gf8_pick(
        a4,
        b,
        4,
    ) ^ gf8_pick(a5, b, 5) ^ gf8_pick(a6, b, 6) ^ gf8_pick(a7, b, 7)
}

/// The field product of two elements.
#[verifier::opaque]
pub open spec fn product(a: Block8, b: Block8) -> Block8 {
    Block8(gf8_mul(a.0, b.0))
}

/// `a^254`, computed as `(a^17)^14 a^16`; the power `a^17` lies in the subfield of 16 elements.
pub open spec fn gf8_inverse(a: u8) -> u8 {
    let a2 = gf8_mul(a, a);
    let a4 = gf8_mul(a2, a2);
    let a8 = gf8_mul(a4, a4);
    let a16 = gf8_mul(a8, a8);
    let b = gf8_mul(a16, a);
    let b2 = gf8_mul(b, b);
    let b3 = gf8_mul(b2, b);
    let b6 = gf8_mul(b3, b3);
    let b7 = gf8_mul(b6, b);
    let b14 = gf8_mul(b7, b7);
    gf8_mul(b14, a16)
}

/// The inverse of a non-zero element, and zero for zero: `a^254`.
#[verifier::opaque]
pub open spec fn reciprocal(a: Block8) -> Block8 {
    Block8(gf8_inverse(a.0))
}

proof fn lemma_xor(a: u8, b: u8, c: u8)
    by (bit_vector)
    ensures
        a ^ b == b ^ a,
        (a ^ b) ^ c == a ^ (b ^ c),
        a ^ 0 == a,
        a ^ a == 0,
{
}

proof fn lemma_mul_comm(a: u8, b: u8)
    by (bit_vector)
    ensures
        gf8_mul(a, b) == gf8_mul(b, a),
        gf8_mul(a, 1) == a,
        gf8_mul(a, 0) == 0,
{
}

proof fn lemma_mul_distribute(a: u8, b: u8, c: u8)
    by (bit_vector)
    ensures
        gf8_mul(a, b ^ c) == gf8_mul(a, b) ^ gf8_mul(a, c),
{
}

proof fn lemma_mul_step(a: u8, b: u8)
    by (bit_vector)
    ensures
        gf8_mul(a, gf8_step(b)) == gf8_step(gf8_mul(a, b)),
{
}

/// `a (p x^i) = (a p) x^i` for a single bit `i` of `c`.
proof fn lemma_mul_pick(a: u8, p: u8, c: u8, i: u8)
    ensures
        gf8_mul(a, gf8_pick(p, c, i)) == gf8_pick(gf8_mul(a, p), c, i),
{
    lemma_mul_comm(a, p);
}

proof fn lemma_mul_assoc(a: u8, b: u8, c: u8)
    ensures
        gf8_mul(gf8_mul(a, b), c) == gf8_mul(a, gf8_mul(b, c)),
{
    let b1 = gf8_step(b);
    let b2 = gf8_step(b1);
    let b3 = gf8_step(b2);
    let b4 = gf8_step(b3);
    let b5 = gf8_step(b4);
    let b6 = gf8_step(b5);
    let b7 = gf8_step(b6);
    let p0 = gf8_pick(b, c, 0);
    let p1 = gf8_pick(b1, c, 1);
    let p2 = gf8_pick(b2, c, 2);
    let p3 = gf8_pick(b3, c, 3);
    let p4 = gf8_pick(b4, c, 4);
    let p5 = gf8_pick(b5, c, 5);
    let p6 = gf8_pick(b6, c, 6);
    let p7 = gf8_pick(b7, c, 7);
    lemma_mul_step(a, b);
    lemma_mul_step(a, b1);
    lemma_mul_step(a, b2);
    lemma_mul_step(a, b3);
    lemma_mul_step(a, b4);
    lemma_mul_step(a, b5);
    lemma_mul_step(a, b6);
    lemma_mul_pick(a, b, c, 0);
    lemma_mul_pick(a, b1, c, 1);
    lemma_mul_pick(a, b2, c, 2);
    lemma_mul_pick(a, b3, c, 3);
    lemma_mul_pick(a, b4, c, 4);
    lemma_mul_pick(a, b5, c, 5);
    lemma_mul_pick(a, b6, c, 6);
    lemma_mul_pick(a, b7, c, 7);
    lemma_mul_distribute(a, p0, p1);
    lemma_mul_distribute(a, p0 ^ p1, p2);
    lemma_mul_distribute(a, p0 ^ p1 ^ p2, p3);
    lemma_mul_distribute(a, p0 ^ p1 ^ p2 ^ p3, p4);
    lemma_mul_distribute(a, p0 ^ p1 ^ p2 ^ p3 ^ p4, p5);
    lemma_mul_distribute(a, p0 ^ p1 ^ p2 ^ p3 ^ p4 ^ p5, p6);
    lemma_mul_distribute(a, p0 ^ p1 ^ p2 ^ p3 ^ p4 ^ p5 ^ p6, p7);
}

/// Membership in the subfield of 16 elements.
spec fn in_gf4(b: u8) -> bool {
    &&& (b >> 1) & 1 == 0
    &&& (b >> 2) & 1 == (b >> 3) & 1
    &&& (b >> 5) & 1 == (b >> 7) & 1
    &&& (b >> 4) & 1 == ((b >> 5) ^ (b >> 6)) & 1
}

proof fn lemma_seventeenth_power(a: u8, a2: u8, a4: u8, a8: u8, a16: u8, b: u8)
    by (bit_vector)
    requires
        a2 == gf8_mul(a, a),
        a4 == gf8_mul(a2, a2),
        a8 == gf8_mul(a4, a4),
        a16 == gf8_mul(a8, a8),
        b == gf8_mul(a16, a),
    ensures
        a != 0 ==> b != 0,
        a == 0 ==> a16 == 0,
        in_gf4(b),
{
}

proof fn lemma_gf4_inverse(b: u8, b2: u8, b3: u8, b6: u8, b7: u8, b14: u8)
    by (bit_vector)
    requires
        in_gf4(b),
        b != 0,
        b2 == gf8_mul(b, b),
        b3 == gf8_mul(b2, b),
        b6 == gf8_mul(b3, b3),
        b7 == gf8_mul(b6, b),
        b14 == gf8_mul(b7, b7),
    ensures
        gf8_mul(b14, b) == 1,
{
}

proof fn lemma_inverse(a: u8)
    ensures
        a != 0 ==> gf8_mul(a, gf8_inverse(a)) == 1,
        a == 0 ==> gf8_inverse(a) == 0,
{
    let a2 = gf8_mul(a, a);
    let a4 = gf8_mul(a2, a2);
    let a8 = gf8_mul(a4, a4);
    let a16 = gf8_mul(a8, a8);
    let b = gf8_mul(a16, a);
    let b2 = gf8_mul(b, b);
    let b3 = gf8_mul(b2, b);
    let b6 = gf8_mul(b3, b3);
    let b7 = gf8_mul(b6, b);
    let b14 = gf8_mul(b7, b7);
    lemma_seventeenth_power(a, a2, a4, a8, a16, b);
    lemma_mul_comm(a, gf8_inverse(a));
    lemma_mul_assoc(b14, a16, a);
    lemma_mul_comm(b14, a);
    if a != 0 {
        lemma_gf4_inverse(b, b2, b3, b6, b7, b14);
    }
}

proof fn lemma_tau_bits(a: u8)
    by (bit_vector)
    ensures
        gf8_mul(a, a) ^ a != 0x20,
{
}

/// The square: bit `i` of `a` contributes `x^(2 i)`.
spec fn gf8_square(a: u8) -> u8 {
    gf8_pick(0x01, a, 0) ^ gf8_pick(0x04, a, 1) ^ gf8_pick(0x10, a, 2) ^ gf8_pick(0x40, a, 3)
        ^ gf8_pick(0x1b, a, 4) ^ gf8_pick(0x6c, a, 5) ^ gf8_pick(0xab, a, 6) ^ gf8_pick(0x9a, a, 7)
}

proof fn lemma_square_bits(a: u8)
    by (bit_vector)
    ensures
        gf8_square(a) == gf8_mul(a, a),
{
}

/// The product with `x^5`: the five high bits `h` of `a` wrap around as `h (x^4 + x^3 + x + 1)`, whose
/// coefficient of `x^8` wraps around once more.
spec fn gf8_wrap5(a: u8) -> u8 {
    let h = a >> 3u8;
    (a << 5u8) ^ h ^ (h << 1u8) ^ (h << 3u8) ^ (h << 4u8) ^ gf8_pick(0x1b, a, 7)
}

proof fn lemma_wrap5(a: u8)
    by (bit_vector)
    ensures
        gf8_wrap5(a) == gf8_mul(a, 0x20),
{
}

fn step(a: u8) -> (r: u8)
    ensures
        r == gf8_step(a),
{
    (a << 1u8) ^ (if a & 0x80 == 0x80 {
        0x1bu8
    } else {
        0u8
    })
}

fn pick(a: u8, b: u8, i: u8) -> (r: u8)
    requires
        i < 8,
    ensures
        r == gf8_pick(a, b, i),
{
    if (b >> i) & 1 == 1 {
        a
    } else {
        0u8
    }
}

impl TowerField for Block8 {
    const BITS: usize = 8;

    open spec fn nil() -> Self {
        Block8(0)
    }

    open spec fn unit() -> Self {
        Block8(1)
    }

    open spec fn plus(self, other: Self) -> Self {
        Block8(self.0 ^ other.0)
    }

    open spec fn times(self, other: Self) -> Self {
        product(self, other)
    }

    open spec fn inverse(self) -> Self {
        reciprocal(self)
    }

    open spec fn of_byte(value: u8) -> Self {
        Block8(value)
    }

    open spec fn tau() -> Self {
        Block8(0x20)
    }

    proof fn plus_laws(a: Self, b: Self, c: Self) {
        lemma_xor(a.0, b.0, c.0);
    }

    proof fn times_laws(a: Self, b: Self, c: Self) {
        reveal(product);
        lemma_mul_comm(a.0, b.0);
        lemma_mul_distribute(a.0, b.0, c.0);
        lemma_mul_assoc(a.0, b.0, c.0);
    }

    proof fn inverse_laws(a: Self) {
        reveal(product);
        reveal(reciprocal);
        lemma_inverse(a.0);
        lemma_inverse(0);
    }

    proof fn byte_laws(a: u8, b: u8) {
    }

    fn zero() -> (r: Self) {
        Block8(0)
    }

    fn one() -> (r: Self) {
        Block8(1)
    }

    fn fadd(self, other: Self) -> (r: Self) {
        Block8(self.0 ^ other.0)
    }

    fn fmul(self, other: Self) -> (r: Self) {
        proof {
            reveal(product);
        }
        let b: u8 = other.0;
        let a0: u8 = self.0;
        let a1: u8 = step(a0);
        let a2: u8 = step(a1);
        let a3: u8 = step(a2);
        let a4: u8 = step(a3);
        let a5: u8 = step(a4);
        let a6: u8 = step(a5);
        let a7: u8 = step(a6);
        Block8(
            pick(a0, b, 0) ^ pick(a1, b, 1) ^ pick(a2, b, 2) ^ pick(a3, b, 3) ^ pick(a4, b, 4)
                ^ pick(a5, b, 5) ^ pick(a6, b, 6) ^ pick(a7, b, 7),
        )
    }

    fn fsquare(self) -> (r: Self) {
        proof {
            reveal(product);
            lemma_square_bits(self.0);
        }
        let a: u8 = self.0;
        Block8(
            pick(0x01, a, 0) ^ pick(0x04, a, 1) ^ pick(0x10, a, 2) ^ pick(0x40, a, 3) ^ pick(
                0x1b,
                a,
                4,
            ) ^ pick(0x6c, a, 5) ^ pick(0xab, a, 6) ^ pick(0x9a, a, 7),
        )
    }

    fn invert(&self) -> (r: Self) {
        proof {
            reveal(product);
            reveal(reciprocal);
        }
        let a = *self;
        let a2 = a.fmul(a);
        let a4 = a2.fmul(a2);
        let a8 = a4.fmul(a4);
        let a16 = a8.fmul(a8);
        let b = a16.fmul(a);
        let b2 = b.fmul(b);
        let b3 = b2.fmul(b);
        let b6 = b3.fmul(b3);
        let b7 = b6.fmul(b);
        let b14 = b7.fmul(b7);
        b14.fmul(a16)
    }

    fn from_byte(value: u8) -> (r: Self) {
        Block8(value)
    }

    fn extension_tau() -> (r: Self) {
        Block8(0x20)
    }
}

impl QuadBase for Block8 {
    proof fn tau_irreducible(z: Self) {
        reveal(product);
        lemma_tau_bits(z.0);
    }

    fn mul_tau(self) -> (r: Self) {
        proof {
            reveal(product);
            lemma_wrap5(self.0);
        }
        let a: u8 = self.0;
        let h: u8 = a >> 3u8;
        Block8((a << 5u8) ^ h ^ (h << 1u8) ^ (h << 3u8) ^ (h << 4u8) ^ pick(0x1b, a, 7))
    }
}

} // verus!
