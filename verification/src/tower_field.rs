//! Binary tower fields.
//!
//! [`TowerField`] is the interface shared by every level of the tower: exact
//! arithmetic together with the laws of a field of characteristic two.  Each
//! law is a proof function, so a type can only implement the trait by proving
//! that its arithmetic is a field.
use vstd::prelude::*;

verus! {

/// A finite field of characteristic two.
pub trait TowerField: Copy + Sized {
    /// Size of an element in bits.
    const BITS: usize;

    /// The additive identity.
    spec fn nil() -> Self;

    /// The multiplicative identity.
    spec fn unit() -> Self;

    /// Field addition, which is also field subtraction.
    spec fn plus(self, other: Self) -> Self;

    /// Field multiplication.
    spec fn times(self, other: Self) -> Self;

    /// The multiplicative inverse, with the convention that zero maps to zero.
    spec fn inverse(self) -> Self;

    /// The field element whose low byte is `value` and whose other bits are zero.
    spec fn of_byte(value: u8) -> Self;

    /// The constant `t` of the quadratic polynomial `X^2 + X + t` associated with this level.
    spec fn tau() -> Self;

    /// Addition is commutative and associative, zero is neutral, every element is its own negative.
    proof fn plus_laws(a: Self, b: Self, c: Self)
        ensures
            a.plus(b) == b.plus(a),
            a.plus(b).plus(c) == a.plus(b.plus(c)),
            a.plus(Self::nil()) == a,
            a.plus(a) == Self::nil(),
    ;

    /// Multiplication is commutative and associative, one is neutral, and it distributes over
    /// addition.
    proof fn times_laws(a: Self, b: Self, c: Self)
        ensures
            a.times(b) == b.times(a),
            a.times(b).times(c) == a.times(b.times(c)),
            a.times(Self::unit()) == a,
            a.times(b.plus(c)) == a.times(b).plus(a.times(c)),
    ;

    /// Every non-zero element is invertible, and one differs from zero.
    proof fn inverse_laws(a: Self)
        ensures
            a != Self::nil() ==> a.times(a.inverse()) == Self::unit(),
            Self::nil().inverse() == Self::nil(),
            Self::unit() != Self::nil(),
    ;

    /// Distinct bytes denote distinct elements; the bytes zero and one denote zero and one.
    proof fn byte_laws(a: u8, b: u8)
        ensures
            Self::of_byte(a) == Self::of_byte(b) ==> a == b,
            Self::of_byte(0) == Self::nil(),
            Self::of_byte(1) == Self::unit(),
            Self::of_byte(a).plus(Self::of_byte(b)) == Self::of_byte(a ^ b),
    ;

    /// The additive identity.
    fn zero() -> (r: Self)
        ensures
            r == Self::nil(),
    ;

    /// The multiplicative identity.
    fn one() -> (r: Self)
        ensures
            r == Self::unit(),
    ;

    /// Field addition.
    fn fadd(self, other: Self) -> (r: Self)
        ensures
            r == self.plus(other),
    ;

    /// Field multiplication.
    fn fmul(self, other: Self) -> (r: Self)
        ensures
            r == self.times(other),
    ;

    /// Field squaring.
    fn fsquare(self) -> (r: Self)
        ensures
            r == self.times(self),
    ;

    /// Field inversion; zero maps to zero.
    fn invert(&self) -> (r: Self)
        ensures
            r == self.inverse(),
    ;

    /// The element denoted by a byte.
    fn from_byte(value: u8) -> (r: Self)
        ensures
            r == Self::of_byte(value),
    ;

    /// The constant of the quadratic polynomial associated with this level.
    fn extension_tau() -> (r: Self)
        ensures
            r == Self::tau(),
    ;
}

/// A field over which `X^2 + X + tau` is irreducible, so that adjoining a root gives a field again.
pub trait QuadBase: TowerField {
    /// `tau` is not of the form `z^2 + z`.
    proof fn tau_irreducible(z: Self)
        ensures
            z.times(z).plus(z) != Self::tau(),
    ;

    /// Multiplication by the constant `tau`.
    fn mul_tau(self) -> (r: Self)
        ensures
            r == self.times(Self::tau()),
    ;
}

} // verus!
