//! The numbers that coordinates are made of.
//!
//! Points, vectors and everything built on them are generic over a
//! [`Scalar`]. The library never looks inside a scalar: it only calls the
//! operations of the trait, and its contracts say which operations were
//! applied to which operands, in which order.

use vstd::prelude::*;

verus! {

/// One coordinate of a point or of a vector.
///
/// Every operation comes as a pair: the executable method, and a spec
/// function of the same name with `_spec` behind it that names what the
/// method returns. The contracts of this library are written over the spec
/// functions.
///
/// An implementation promises two things of each method, and nothing else:
/// it returns for every operand (no panic, no abort), and what it returns
/// depends on the operands alone. No law of arithmetic is asked for: sums
/// need not commute and `lt_spec` need not be an order, so a representation
/// that rounds qualifies. [`Fixed`](crate::fixed::Fixed) is such a
/// representation, and Verus checks its promise.
///
/// Code that Verus does not read may implement the trait too, for IEEE 754
/// binary64, say. There the `_spec` items are ordinary functions that
/// nothing calls; each is written as the method it names. Nothing checks
/// the promise of such an implementation: what this library proves about
/// its values rests on it.
pub trait Scalar: Copy + Sized {
    /// The additive identity, `0`.
    spec fn zero_spec() -> Self;

    /// The multiplicative identity, `1`.
    spec fn one_spec() -> Self;

    /// The bound below which a magnitude counts as nothing; for a
    /// floating-point representation, its machine epsilon.
    spec fn epsilon_spec() -> Self;

    /// `self + rhs`.
    spec fn add_spec(self, rhs: Self) -> Self;

    /// `self - rhs`.
    spec fn sub_spec(self, rhs: Self) -> Self;

    /// `self * rhs`.
    spec fn mul_spec(self, rhs: Self) -> Self;

    /// `self / rhs`.
    spec fn div_spec(self, rhs: Self) -> Self;

    /// `-self`.
    spec fn neg_spec(self) -> Self;

    /// `|self|`.
    spec fn abs_spec(self) -> Self;

    /// The non-negative square root of `self`.
    spec fn sqrt_spec(self) -> Self;

    /// `self < rhs`.
    spec fn lt_spec(self, rhs: Self) -> bool;

    /// `self == rhs`, as the representation compares numbers. This need not
    /// be equality of values: a representation may hold two zeros that
    /// compare equal, or a not-a-number that equals nothing.
    spec fn eq_spec(self, rhs: Self) -> bool;

    fn zero() -> (r: Self)
        ensures
            r == Self::zero_spec(),
    ;

    fn one() -> (r: Self)
        ensures
            r == Self::one_spec(),
    ;

    fn epsilon() -> (r: Self)
        ensures
            r == Self::epsilon_spec(),
    ;

    fn add(self, rhs: Self) -> (r: Self)
        ensures
            r == self.add_spec(rhs),
    ;

    fn sub(self, rhs: Self) -> (r: Self)
        ensures
            r == self.sub_spec(rhs),
    ;

    fn mul(self, rhs: Self) -> (r: Self)
        ensures
            r == self.mul_spec(rhs),
    ;

    fn div(self, rhs: Self) -> (r: Self)
        ensures
            r == self.div_spec(rhs),
    ;

    fn neg(self) -> (r: Self)
        ensures
            r == self.neg_spec(),
    ;

    fn abs(self) -> (r: Self)
        ensures
            r == self.abs_spec(),
    ;

    fn sqrt(self) -> (r: Self)
        ensures
            r == self.sqrt_spec(),
    ;

    fn lt(self, rhs: Self) -> (r: bool)
        ensures
            r == self.lt_spec(rhs),
    ;

    fn eq(self, rhs: Self) -> (r: bool)
        ensures
            r == self.eq_spec(rhs),
    ;
}

} // verus!
