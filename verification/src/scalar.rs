//! The capabilities of an element type.

use vstd::prelude::*;

verus! {

/// What an element type must offer: the two identities and the four
/// operations, each with the mathematical function that it computes.
pub trait Scalar: Copy {
    /// The additive identity.
    spec fn zero_value() -> Self;

    /// The multiplicative identity.
    spec fn one_value() -> Self;

    /// The sum of two elements.
    spec fn plus(self, rhs: Self) -> Self;

    /// The difference of two elements.
    spec fn minus(self, rhs: Self) -> Self;

    /// The product of two elements.
    spec fn times(self, rhs: Self) -> Self;

    /// Whether an element may stand below the line of a division.
    spec fn is_divisor(self) -> bool;

    /// The quotient of two elements; it has a meaning where `rhs.is_divisor()`.
    spec fn over(self, rhs: Self) -> Self;

    /// The additive identity.
    fn zero() -> (r: Self)
        ensures
            r == Self::zero_value(),
    ;

    /// The multiplicative identity.
    fn one() -> (r: Self)
        ensures
            r == Self::one_value(),
    ;

    /// The sum of `self` and `rhs`.
    fn add(self, rhs: Self) -> (r: Self)
        ensures
            r == self.plus(rhs),
    ;

    /// The difference of `self` and `rhs`.
    fn sub(self, rhs: Self) -> (r: Self)
        ensures
            r == self.minus(rhs),
    ;

    /// The product of `self` and `rhs`.
    fn mul(self, rhs: Self) -> (r: Self)
        ensures
            r == self.times(rhs),
    ;

    /// Whether `self` may stand below the line of a division.
    fn can_divide(self) -> (r: bool)
        ensures
            r == self.is_divisor(),
    ;

    /// The quotient of `self` by the divisor `rhs`.
    fn div(self, rhs: Self) -> (r: Self)
        requires
            rhs.is_divisor(),
        ensures
            r == self.over(rhs),
    ;
}

/// The laws of a commutative ring. Exact element types obey them; the
/// algebraic laws of matrices are proved for such types.
pub trait Ring: Scalar {
    /// `a + b` is `b + a`.
    proof fn plus_commutes(a: Self, b: Self)
        ensures
            a.plus(b) == b.plus(a),
    ;

    /// `(a + b) + c` is `a + (b + c)`.
    proof fn plus_associates(a: Self, b: Self, c: Self)
        ensures
            a.plus(b).plus(c) == a.plus(b.plus(c)),
    ;

    /// `a + 0` is `a`.
    proof fn plus_zero(a: Self)
        ensures
            a.plus(Self::zero_value()) == a,
    ;

    /// `a - b` is `a + (0 - b)`.
    proof fn minus_is_plus_negation(a: Self, b: Self)
        ensures
            a.minus(b) == a.plus(Self::zero_value().minus(b)),
    ;

    /// `a + (0 - a)` is `0`.
    proof fn plus_negation(a: Self)
        ensures
            a.plus(Self::zero_value().minus(a)) == Self::zero_value(),
    ;

    /// `a * b` is `b * a`.
    proof fn times_commutes(a: Self, b: Self)
        ensures
            a.times(b) == b.times(a),
    ;

    /// `(a * b) * c` is `a * (b * c)`.
    proof fn times_associates(a: Self, b: Self, c: Self)
        ensures
            a.times(b).times(c) == a.times(b.times(c)),
    ;

    /// `a * 1` is `a`.
    proof fn times_one(a: Self)
        ensures
            a.times(Self::one_value()) == a,
    ;

    /// `a * (b + c)` is `a * b + a * c`.
    proof fn times_distributes(a: Self, b: Self, c: Self)
        ensures
            a.times(b.plus(c)) == a.times(b).plus(a.times(c)),
    ;
}

/// Elements that can be compared: the larger and the smaller of two.
pub trait Extrema: Copy {
    /// Whether `self` is at most `other`.
    spec fn at_most(self, other: Self) -> bool;

    /// The larger of `self` and `other`: `other` where `self` is at most it,
    /// else `self`.
    fn maximum(self, other: Self) -> (r: Self)
        ensures
            r == if self.at_most(other) { other } else { self },
    ;

    /// The smaller of `self` and `other`: `self` where it is at most `other`,
    /// else `other`.
    fn minimum(self, other: Self) -> (r: Self)
        ensures
            r == if self.at_most(other) { self } else { other },
    ;
}

/// The laws of a total order. Exact element types obey them; what clamping
/// does to an element is proved for such types.
pub trait Order: Extrema {
    /// Of two elements, one is at most the other.
    proof fn at_most_total(a: Self, b: Self)
        ensures
            a.at_most(b) || b.at_most(a),
    ;

    /// Two elements, each at most the other, are equal.
    proof fn at_most_antisymmetric(a: Self, b: Self)
        requires
            a.at_most(b),
            b.at_most(a),
        ensures
            a == b,
    ;

    /// Where `a` is at most `b` and `b` at most `c`, `a` is at most `c`.
    proof fn at_most_transitive(a: Self, b: Self, c: Self)
        requires
            a.at_most(b),
            b.at_most(c),
        ensures
            a.at_most(c),
    ;
}

/// Elements that have a sign.
pub trait Signed: Copy {
    /// The absolute value.
    spec fn magnitude(self) -> Self;

    /// The absolute value of `self`.
    fn abs(self) -> (r: Self)
        ensures
            r == self.magnitude(),
    ;
}

/// Elements that can be read from text and written as text.
///
/// The two specification functions have bodies, so that a type outside
/// verified code need not name them: a verified type states its own.
pub trait Token: Sized {
    /// The element that a text stands for, if it stands for one.
    open spec fn parsed(text: Seq<char>) -> Option<Self> {
        None
    }

    /// The text of an element.
    open spec fn text(&self) -> Seq<char> {
        Seq::empty()
    }

    /// The element that `text` stands for, if it stands for one.
    fn parse(text: &[char]) -> (r: Option<Self>)
        ensures
            r == Self::parsed(text@),
    ;

    /// The text of `self`.
    fn render(&self) -> (r: String)
        ensures
            r@ == self.text(),
    ;
}

} // verus!
