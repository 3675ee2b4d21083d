//! Vectors of the plane.

use vstd::prelude::*;
use crate::scalar::Scalar;

verus! {

/// A vector of the plane, or a point of it.
#[derive(Clone, Copy, Debug, PartialEq, Eq, Structural)]
pub struct Vector2d {
    pub x: Scalar,
    pub y: Scalar,
}

impl Vector2d {
    /// The vector turned by a quarter, clockwise: `(y, -x)`.
    pub open spec fn spec_perp(self) -> Vector2d {
        Vector2d { x: self.y, y: self.x.neg() }
    }

    /// The opposite vector: `(-x, -y)`.
    pub open spec fn spec_reverse(self) -> Vector2d {
        Vector2d { x: self.x.neg(), y: self.y.neg() }
    }

    /// The vector brought to length one, `length` being its length and
    /// `shortened` the vector divided by its length: a vector without length
    /// stays as it is.
    pub open spec fn spec_normalise(self, length: Scalar, shortened: Vector2d) -> Vector2d {
        if length.gt(Scalar { bits: 0 }) {
            shortened
        } else {
            self
        }
    }

    /// Brings the vector to length one. The caller has taken the root for
    /// `length` and divided the vector by it for `shortened`; whether the
    /// division counts is decided here. A vector whose length is zero, or not
    /// a number, is returned as it is.
    pub fn normalise(self, length: Scalar, shortened: Vector2d) -> (r: Vector2d)
        ensures
            r == self.spec_normalise(length, shortened),
    {
        if length.greater_than(&Scalar::zero()) {
            shortened
        } else {
            self
        }
    }

    /// Turns the vector by a quarter, clockwise.
    pub fn perp(&self) -> (r: Vector2d)
        ensures
            r == self.spec_perp(),
    {
        Vector2d { x: self.y, y: self.x.negated() }
    }

    /// Turns the vector round.
    pub fn reverse(self) -> (r: Vector2d)
        ensures
            r == self.spec_reverse(),
    {
        Vector2d { x: self.x.negated(), y: self.y.negated() }
    }
}

/// A vector whose length is zero comes out of `normalise` as it went in,
/// whatever the division gave.
pub proof fn lemma_no_length_no_change(v: Vector2d, length: Scalar, shortened: Vector2d)
    requires
        length.magnitude() == 0,
    ensures
        v.spec_normalise(length, shortened) == v,
{
}

} // verus!
