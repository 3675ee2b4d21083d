//! Boxes whose sides run along the coordinate axes.

use vstd::prelude::*;
use crate::polygon::{Polygon, PolygonView};
use crate::response::{is_answer, Candidate, Response};
use crate::scalar::{Scalar, ONE_BITS};
use crate::vector2d::Vector2d;

verus! {

/// A box with sides along the coordinate axes: `position` is the corner with
/// the least coordinates.
#[derive(Clone, Copy, Debug, PartialEq, Eq, Structural)]
pub struct PolyBox {
    pub position: Vector2d,
    pub width: Scalar,
    pub height: Scalar,
}

impl PolyBox {
    /// The box as a polygon: at the same position, with the corners
    /// `(0, 0)`, `(width, 0)`, `(width, height)`, `(0, height)`, in this order.
    pub open spec fn spec_to_polygon(self) -> PolygonView {
        let zero = Scalar { bits: 0 };
        PolygonView {
            position: self.position,
            points: seq![
                Vector2d { x: zero, y: zero },
                Vector2d { x: self.width, y: zero },
                Vector2d { x: self.width, y: self.height },
                Vector2d { x: zero, y: self.height },
            ],
        }
    }

    /// A box has a width and a height that are numbers and not negative.
    /// The conversion does not ask for it: it copies whatever it is given.
    pub open spec fn well_formed(self) -> bool {
        Scalar { bits: 0 }.le(self.width) && Scalar { bits: 0 }.le(self.height)
    }

    /// Tells whether width and height are numbers and not negative.
    pub fn is_well_formed(&self) -> (r: bool)
        ensures
            r == self.well_formed(),
    {
        let zero = Scalar::zero();
        zero.at_most(&self.width) && zero.at_most(&self.height)
    }

    /// Turns the box into a polygon of four points.
    pub fn to_polygon(self) -> (r: Polygon)
        ensures
            r@ == self.spec_to_polygon(),
            r@.well_formed(),
    {
        let zero = Scalar::zero();
        let mut points: Vec<Vector2d> = Vec::new();
        points.push(Vector2d { x: zero, y: zero });
        points.push(Vector2d { x: self.width, y: zero });
        points.push(Vector2d { x: self.width, y: self.height });
        points.push(Vector2d { x: zero, y: self.height });
        assert(points@ =~= self.spec_to_polygon().points);
        Polygon { position: self.position, points }
    }
}

impl Vector2d {
    /// The box of side one whose least corner is this point.
    pub open spec fn spec_unit_square(self) -> PolyBox {
        PolyBox {
            position: self,
            width: Scalar { bits: ONE_BITS },
            height: Scalar { bits: ONE_BITS },
        }
    }

    /// The square of side one that stands for this point in a test against
    /// a polygon.
    pub fn unit_square(self) -> (r: Polygon)
        ensures
            r@ == self.spec_unit_square().spec_to_polygon(),
    {
        PolyBox { position: self, width: Scalar::one(), height: Scalar::one() }.to_polygon()
    }

    /// Tests whether the point lies in `poly`: the test of the point's unit
    /// square against the polygon. `sats` holds what each axis of that test
    /// says, in the order of `self.unit_square().axis_edges(&poly)`.
    pub fn in_polygon(self, poly: Polygon, sats: &Vec<Option<Candidate>>) -> (r: Option<Response>)
        requires
            sats@.len() == 4 + poly@.points.len(),
        ensures
            is_answer(self.spec_unit_square().spec_to_polygon(), poly@, sats@, r),
    {
        let unit_square = self.unit_square();
        unit_square.test(&poly, sats)
    }
}

} // verus!
