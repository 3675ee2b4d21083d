//! The test on one axis: do the shadows of two shapes meet on it, and if they
//! do, how far do they reach into each other.

use vstd::prelude::*;
use crate::range::Range;
use crate::scalar::Scalar;
use crate::vector2d::Vector2d;

verus! {

/// The distances between the ends of two ranges `a` and `b`, as the caller
/// has subtracted them.
#[derive(Clone, Copy, Debug, PartialEq, Eq, Structural)]
pub struct Differences {
    /// `a.max - b.min`
    pub a_max_b_min: Scalar,
    /// `b.max - a.min`
    pub b_max_a_min: Scalar,
    /// `a.min - b.max`
    pub a_min_b_max: Scalar,
}

/// What one axis has to say of two shapes whose shadows meet on it.
#[derive(Clone, Copy, Debug, PartialEq, Eq, Structural)]
pub struct ResponseLite {
    /// The shadow of the first shape lies within that of the second.
    pub a_in_b: bool,
    /// The shadow of the second shape lies within that of the first.
    pub b_in_a: bool,
    /// How far the shadows reach into each other; never negative.
    pub overlap: Scalar,
    /// The axis that was tested.
    pub axis: Vector2d,
}

/// One range ends before the other begins.
pub open spec fn separated(a: Range, b: Range) -> bool {
    a.min.gt(b.max) || b.min.gt(a.max)
}

/// The ranges meet, `b` begins first (or with `a`) and ends last (or with `a`).
pub open spec fn a_within_b(a: Range, b: Range) -> bool {
    !separated(a, b) && !a.min.lt(b.min) && !a.max.gt(b.max)
}

/// The ranges meet, `a` begins first and ends last (or with `b`).
pub open spec fn b_within_a(a: Range, b: Range) -> bool {
    !separated(a, b) && a.min.lt(b.min) && !a.max.lt(b.max)
}

/// Of the two ways out of a range that holds the other, the shorter one; the
/// second way counts backwards.
pub open spec fn shortest_way_out(option1: Scalar, option2: Scalar) -> Scalar {
    if option1.lt(option2) {
        option1
    } else {
        option2.neg()
    }
}

/// How far two ranges that meet reach into each other: where one holds the
/// other, the shorter way out; where they only cross, from the end of the
/// one that begins first to the beginning of the other.
pub open spec fn overlap_of(a: Range, b: Range, d: Differences) -> Scalar {
    if a_within_b(a, b) || b_within_a(a, b) {
        shortest_way_out(d.a_max_b_min, d.b_max_a_min).abs()
    } else if a.min.lt(b.min) {
        d.a_max_b_min.abs()
    } else {
        d.a_min_b_max.abs()
    }
}

/// What an axis says of two shapes with the shadows `a` and `b` on it:
/// nothing where it separates them.
pub open spec fn axis_says(a: Range, b: Range, d: Differences, axis: Vector2d) -> Option<
    ResponseLite,
> {
    if separated(a, b) {
        None
    } else {
        Some(
            ResponseLite {
                a_in_b: a_within_b(a, b),
                b_in_a: b_within_a(a, b),
                overlap: overlap_of(a, b, d),
                axis,
            },
        )
    }
}

/// Tests one axis. `a` and `b` are the shadows of the two shapes on it and
/// `d` the distances between their ends. Returns nothing where the axis
/// separates the shapes; otherwise what it says of them.
pub fn is_separating_axis(a: &Range, b: &Range, d: &Differences, axis: &Vector2d) -> (r: Option<
    ResponseLite,
>)
    ensures
        r == axis_says(*a, *b, *d, *axis),
        r matches Some(lite) ==> !lite.overlap.is_negative(),
{
    if a.min.greater_than(&b.max) || b.min.greater_than(&a.max) {
        return None;
    }
    let a_starts_further_left_than_b = a.min.less_than(&b.min);
    let a_in_b: bool;
    let b_in_a: bool;
    let overlap: Scalar;
    if a_starts_further_left_than_b {
        a_in_b = false;
        if a.max.less_than(&b.max) {
            b_in_a = false;
            overlap = d.a_max_b_min;
        } else {
            b_in_a = true;
            overlap = pick_shortest_way_out(d.a_max_b_min, d.b_max_a_min);
        }
    } else {
        b_in_a = false;
        if a.max.greater_than(&b.max) {
            a_in_b = false;
            overlap = d.a_min_b_max;
        } else {
            a_in_b = true;
            overlap = pick_shortest_way_out(d.a_max_b_min, d.b_max_a_min);
        }
    }
    Some(ResponseLite { a_in_b, b_in_a, overlap: overlap.absolute(), axis: *axis })
}

/// Picks the shorter of the two ways out of a range that holds the other.
pub fn pick_shortest_way_out(option1: Scalar, option2: Scalar) -> (r: Scalar)
    ensures
        r == shortest_way_out(option1, option2),
{
    if option1.less_than(&option2) {
        option1
    } else {
        option2.negated()
    }
}

/// The same distances, seen from the other shape: what was `a.max - b.min`
/// is now `b.max - a.min`, and the other way round.
pub open spec fn mirrored(d: Differences, e: Differences) -> bool {
    e.a_max_b_min == d.b_max_a_min && e.b_max_a_min == d.a_max_b_min
}

/// The range `a` lies inside `b` and begins after it.
pub open spec fn begins_and_ends_inside(a: Range, b: Range) -> bool {
    b.min.lt(a.min) && a.min.le(a.max) && a.max.le(b.max)
}

/// Where the shadow of one shape begins after that of the other and does not
/// end after it, the axis reports the first within the second; with the
/// shapes exchanged it reports the second within the first; and both times
/// the same overlap, as long as the two ways out are numbers.
pub proof fn lemma_within_is_mirrored(a: Range, b: Range, d: Differences, e: Differences)
    requires
        begins_and_ends_inside(a, b),
        mirrored(d, e),
        !d.a_max_b_min.is_nan(),
        !d.b_max_a_min.is_nan(),
    ensures
        !separated(a, b) && !separated(b, a),
        a_within_b(a, b) && !b_within_a(a, b),
        b_within_a(b, a) && !a_within_b(b, a),
        overlap_of(a, b, d) == overlap_of(b, a, e),
{
}

/// On no axis do both shadows count as holding each other.
pub proof fn lemma_never_both(a: Range, b: Range)
    ensures
        !(a_within_b(a, b) && b_within_a(a, b)),
{
}

} // verus!
