//! Convex polygons: their edges, in the order in which a test walks them.

use vstd::prelude::*;
use crate::vector2d::Vector2d;

verus! {

/// A convex polygon: corner points around a position. The points are given
/// relative to the position, in one sense of rotation; the last is joined to
/// the first.
#[derive(Debug)]
pub struct Polygon {
    pub position: Vector2d,
    pub points: Vec<Vector2d>,
}

/// A polygon as a value: its position and the sequence of its points.
pub struct PolygonView {
    pub position: Vector2d,
    pub points: Seq<Vector2d>,
}

impl View for Polygon {
    type V = PolygonView;

    open spec fn view(&self) -> PolygonView {
        PolygonView { position: self.position, points: self.points@ }
    }
}

impl Clone for Polygon {
    /// A polygon at the same position with the same points.
    fn clone(&self) -> (r: Polygon)
        ensures
            r@ == self@,
    {
        let mut points: Vec<Vector2d> = Vec::new();
        let mut index: usize = 0;
        while index < self.points.len()
            invariant
                0 <= index <= self.points.len(),
                points@ == self.points@.take(index as int),
            decreases self.points.len() - index,
        {
            points.push(self.points[index]);
            assert(points@ =~= self.points@.take(index + 1));
            index += 1;
        }
        assert(points@ =~= self.points@);
        Polygon { position: self.position, points }
    }
}

/// One side of a polygon, from one corner to the next.
#[derive(Clone, Copy, Debug, PartialEq, Eq, Structural)]
pub struct Edge {
    pub from: Vector2d,
    pub to: Vector2d,
}

impl PolygonView {
    /// The side that leaves corner `i`: it ends at the next corner, and the
    /// side that leaves the last corner ends at the first.
    pub open spec fn edge(self, i: int) -> Edge
        recommends
            0 <= i < self.points.len(),
    {
        Edge { from: self.points[i], to: self.points[(i + 1) % (self.points.len() as int)] }
    }

    /// All sides, each at the index of the corner that it leaves.
    pub open spec fn edges(self) -> Seq<Edge> {
        Seq::new(self.points.len(), |i: int| self.edge(i))
    }

    /// A polygon has three points at least. No test asks for it: with fewer
    /// points a test still answers, but its answer means nothing.
    pub open spec fn well_formed(self) -> bool {
        self.points.len() >= 3
    }
}

impl Polygon {
    /// Tells whether the polygon has three points at least.
    pub fn is_well_formed(&self) -> (r: bool)
        ensures
            r == self@.well_formed(),
    {
        self.points.len() >= 3
    }

    /// The same polygon with other points.
    pub fn set_points(self, points: Vec<Vector2d>) -> (r: Polygon)
        ensures
            r@.position == self@.position,
            r@.points == points@,
    {
        Polygon { position: self.position, points }
    }

    /// The sides of the polygon, one for each point and in the order of the
    /// points. Each side gives one axis to test: the side turned by a quarter
    /// and brought to length one.
    pub fn edges(&self) -> (r: Vec<Edge>)
        ensures
            r@ == self@.edges(),
    {
        let len = self.points.len();
        let mut sides: Vec<Edge> = Vec::new();
        let mut index: usize = 0;
        while index < len
            invariant
                len == self.points.len(),
                0 <= index <= len,
                sides@.len() == index,
                forall|i: int| 0 <= i < index ==> sides@[i] == self@.edge(i),
            decreases len - index,
        {
            let from = self.points[index];
            let to = if index < len - 1 {
                self.points[index + 1]
            } else {
                self.points[0]
            };
            assert(to == self@.points[(index + 1) % (len as int)]) by {
                if index < len - 1 {
                    vstd::arithmetic::div_mod::lemma_small_mod((index + 1) as nat, len as nat);
                } else {
                    vstd::arithmetic::div_mod::lemma_mod_self_0(len as int);
                }
            }
            sides.push(Edge { from, to });
            index += 1;
        }
        assert(sides@ =~= self@.edges());
        sides
    }

    /// The sides that give the axes of a test of `self` against `b`, in the
    /// order in which the axes are tried: all sides of `self`, then all sides
    /// of `b`. No side is left out, whether or not another runs the same way.
    pub fn axis_edges(&self, b: &Polygon) -> (r: Vec<Edge>)
        ensures
            r@ == self@.edges() + b@.edges(),
            r@.len() == self@.points.len() + b@.points.len(),
    {
        let mut sides = self.edges();
        let mut more = b.edges();
        sides.append(&mut more);
        sides
    }
}

} // verus!
