//! The shadow that a set of points throws on an axis.

use vstd::prelude::*;
use crate::scalar::{Scalar, GREATEST_FINITE_BITS, LEAST_FINITE_BITS};

verus! {

/// The stretch of an axis that a shape covers, from `min` to `max`.
#[derive(Clone, Copy, Debug, PartialEq, Eq, Structural)]
pub struct Range {
    pub min: Scalar,
    pub max: Scalar,
}

/// The number from which the search for the least starts; only what lies
/// below it can become the least.
pub open spec fn ceiling() -> Scalar {
    Scalar { bits: GREATEST_FINITE_BITS }
}

/// The number from which the search for the greatest starts; only what lies
/// above it can become the greatest.
pub open spec fn floor() -> Scalar {
    Scalar { bits: LEAST_FINITE_BITS }
}

/// `dots[k]` lies below the ceiling, nothing in `dots` lies below it, and
/// everything before it that is a number lies above it.
pub open spec fn first_least_at(dots: Seq<Scalar>, k: int) -> bool {
    &&& 0 <= k < dots.len()
    &&& dots[k].lt(ceiling())
    &&& forall|j: int| 0 <= j < dots.len() ==> !(#[trigger] dots[j]).lt(dots[k])
    &&& forall|j: int| 0 <= j < k ==> (#[trigger] dots[j]).is_nan() || dots[k].lt(dots[j])
}

/// `m` is the first least of `dots`, or the ceiling where nothing lies below
/// the ceiling.
pub open spec fn is_least_of(dots: Seq<Scalar>, m: Scalar) -> bool {
    ||| m == ceiling() && forall|j: int| 0 <= j < dots.len() ==> !(#[trigger] dots[j]).lt(ceiling())
    ||| exists|k: int| first_least_at(dots, k) && m == dots[k]
}

/// `dots[k]` lies above the floor, nothing in `dots` lies above it, and
/// everything before it that is a number lies below it.
pub open spec fn first_greatest_at(dots: Seq<Scalar>, k: int) -> bool {
    &&& 0 <= k < dots.len()
    &&& dots[k].gt(floor())
    &&& forall|j: int| 0 <= j < dots.len() ==> !(#[trigger] dots[j]).gt(dots[k])
    &&& forall|j: int| 0 <= j < k ==> (#[trigger] dots[j]).is_nan() || dots[k].gt(dots[j])
}

/// `m` is the first greatest of `dots`, or the floor where nothing lies above
/// the floor.
pub open spec fn is_greatest_of(dots: Seq<Scalar>, m: Scalar) -> bool {
    ||| m == floor() && forall|j: int| 0 <= j < dots.len() ==> !(#[trigger] dots[j]).gt(floor())
    ||| exists|k: int| first_greatest_at(dots, k) && m == dots[k]
}

/// Flattens a shape onto an axis. `dots` holds, for each point of the shape,
/// its dot product with the axis; the result runs from the least of them to
/// the greatest, and of equal dots the first counts. What is not a number is
/// passed over. The least is sought below the greatest finite number and the
/// greatest above the least finite number: where no dot lies there, that
/// bound itself is the result.
pub fn flatten_points_on(dots: &Vec<Scalar>) -> (r: Range)
    ensures
        is_least_of(dots@, r.min),
        is_greatest_of(dots@, r.max),
        !r.min.is_nan(),
        !r.max.is_nan(),
{
    let mut min = Scalar::greatest_finite();
    let mut max = Scalar::least_finite();
    let mut i: usize = 0;
    while i < dots.len()
        invariant
            0 <= i <= dots.len(),
            is_least_of(dots@.take(i as int), min),
            is_greatest_of(dots@.take(i as int), max),
        decreases dots.len() - i,
    {
        let dot = dots[i];
        let ghost seen = dots@.take(i as int);
        let ghost next = dots@.take(i + 1);
        assert(forall|j: int| 0 <= j < i ==> next[j] == seen[j]);
        assert(next[i as int] == dot);
        if dot.less_than(&min) {
            assert(first_least_at(next, i as int));
            min = dot;
        } else {
            proof {
                if min != ceiling() {
                    let k = choose|k: int| first_least_at(seen, k) && min == seen[k];
                    assert(first_least_at(next, k));
                }
            }
        }
        if dot.greater_than(&max) {
            assert(first_greatest_at(next, i as int));
            max = dot;
        } else {
            proof {
                if max != floor() {
                    let k = choose|k: int| first_greatest_at(seen, k) && max == seen[k];
                    assert(first_greatest_at(next, k));
                }
            }
        }
        i += 1;
    }
    assert(dots@.take(i as int) =~= dots@);
    Range { min, max }
}

/// A range holds every dot that lies between the floor and the ceiling; so
/// a range flattened from one such dot at least does not end before it
/// begins.
pub proof fn lemma_range_holds_the_dots(dots: Seq<Scalar>, r: Range, i: int)
    requires
        is_least_of(dots, r.min),
        is_greatest_of(dots, r.max),
        0 <= i < dots.len(),
        dots[i].lt(ceiling()),
        dots[i].gt(floor()),
    ensures
        r.min.le(dots[i]),
        dots[i].le(r.max),
        r.min.le(r.max),
{
}

} // verus!
