//! From what the axes say to the answer of a test.

use vstd::prelude::*;
use crate::axis::{
    axis_says, begins_and_ends_inside, lemma_within_is_mirrored, mirrored, separated, Differences,
    ResponseLite,
};
use crate::range::Range;
use crate::polygon::{Polygon, PolygonView};
use crate::scalar::Scalar;
use crate::vector2d::Vector2d;

verus! {

/// What one axis says of two shapes that meet on it, with what the caller
/// has worked out of it.
#[derive(Clone, Copy, Debug, PartialEq, Eq, Structural)]
pub struct Candidate {
    /// What the axis says.
    pub lite: ResponseLite,
    /// The overlap times a thousand.
    pub scaled: Scalar,
    /// The axis stretched to the length of the overlap.
    pub overlap_v: Vector2d,
}

impl Candidate {
    /// The number by which the axes are ranked: the overlap in thousandths,
    /// cut to a whole number. Overlaps that differ by less than a thousandth
    /// may rank alike.
    pub open spec fn key(self) -> int {
        self.scaled.trunc()
    }
}

/// The answer of a test of two polygons that touch or reach into each other.
#[derive(Debug)]
pub struct Response {
    /// The first polygon.
    pub a: Polygon,
    /// The second polygon.
    pub b: Polygon,
    /// The axis on which the polygons reach into each other least.
    pub overlap_n: Vector2d,
    /// That axis, stretched to the length of the overlap: moving one polygon
    /// by it parts the two.
    pub overlap_v: Vector2d,
    /// How far the polygons reach into each other on that axis.
    pub overlap: Scalar,
    /// The first polygon lies within the second.
    pub a_in_b: bool,
    /// The second polygon lies within the first.
    pub b_in_a: bool,
}

impl Clone for Response {
    /// The same answer about the same polygons.
    fn clone(&self) -> (r: Response)
        ensures
            r.a@ == self.a@,
            r.b@ == self.b@,
            r.overlap_n == self.overlap_n,
            r.overlap_v == self.overlap_v,
            r.overlap == self.overlap,
            r.a_in_b == self.a_in_b,
            r.b_in_a == self.b_in_a,
    {
        Response {
            a: self.a.clone(),
            b: self.b.clone(),
            overlap_n: self.overlap_n,
            overlap_v: self.overlap_v,
            overlap: self.overlap,
            a_in_b: self.a_in_b,
            b_in_a: self.b_in_a,
        }
    }
}

/// Some axis separates the shapes.
pub open spec fn some_axis_separates(sats: Seq<Option<Candidate>>) -> bool {
    exists|i: int| 0 <= i < sats.len() && (#[trigger] sats[i]) is None
}

/// Every axis that has something to say reports the first shape within the
/// second.
pub open spec fn every_axis_has_a_in_b(sats: Seq<Option<Candidate>>) -> bool {
    forall|i: int| 0 <= i < sats.len() && (#[trigger] sats[i]) is Some ==> sats[i]->0.lite.a_in_b
}

/// Every axis that has something to say reports the second shape within the
/// first.
pub open spec fn every_axis_has_b_in_a(sats: Seq<Option<Candidate>>) -> bool {
    forall|i: int| 0 <= i < sats.len() && (#[trigger] sats[i]) is Some ==> sats[i]->0.lite.b_in_a
}

/// Axis `k` has the least key, and is the first that has it.
pub open spec fn least_key_first_at(sats: Seq<Option<Candidate>>, k: int) -> bool {
    &&& 0 <= k < sats.len()
    &&& forall|j: int| 0 <= j < sats.len() ==> sats[k]->0.key() <= (#[trigger] sats[j])->0.key()
    &&& forall|j: int| 0 <= j < k ==> sats[k]->0.key() < (#[trigger] sats[j])->0.key()
}

/// `r` is the answer that the axes `sats` give for the polygons `a` and `b`:
/// none where some axis separates them; otherwise the overlap of the first
/// axis with the least key, and each polygon within the other only where
/// every axis says so.
pub open spec fn is_answer(
    a: PolygonView,
    b: PolygonView,
    sats: Seq<Option<Candidate>>,
    r: Option<Response>,
) -> bool {
    &&& r is None <==> some_axis_separates(sats)
    &&& r matches Some(response) ==> {
        &&& response.a@ == a
        &&& response.b@ == b
        &&& response.a_in_b == every_axis_has_a_in_b(sats)
        &&& response.b_in_a == every_axis_has_b_in_a(sats)
        &&& exists|k: int|
            {
                &&& least_key_first_at(sats, k)
                &&& response.overlap == sats[k]->0.lite.overlap
                &&& response.overlap_n == sats[k]->0.lite.axis
                &&& response.overlap_v == sats[k]->0.overlap_v
            }
    }
}

impl Polygon {
    /// Tests `self` against `b`. `sats` holds what each axis says, in the
    /// order of `self.axis_edges(b)`: nothing where the axis separates the
    /// polygons. The polygons collide where no axis separates them.
    pub fn test(&self, b: &Polygon, sats: &Vec<Option<Candidate>>) -> (r: Option<Response>)
        requires
            sats@.len() == self@.points.len() + b@.points.len(),
            sats@.len() > 0,
        ensures
            is_answer(self@, b@, sats@, r),
    {
        let mut a_in_b = true;
        let mut b_in_a = true;
        let mut best: usize = 0;
        let mut best_key: i32 = 0;
        let mut index: usize = 0;
        while index < sats.len()
            invariant
                0 <= index <= sats.len(),
                !some_axis_separates(sats@.take(index as int)),
                a_in_b == every_axis_has_a_in_b(sats@.take(index as int)),
                b_in_a == every_axis_has_b_in_a(sats@.take(index as int)),
                index > 0 ==> least_key_first_at(sats@.take(index as int), best as int),
                index > 0 ==> best_key == sats@[best as int]->0.key(),
            decreases sats.len() - index,
        {
            let ghost seen = sats@.take(index as int);
            let ghost next = sats@.take(index + 1);
            assert(forall|j: int| 0 <= j < index ==> next[j] == seen[j]);
            assert(next[index as int] == sats@[index as int]);
            match sats[index] {
                None => {
                    assert(some_axis_separates(sats@));
                    return None;
                },
                Some(candidate) => {
                    if !candidate.lite.a_in_b {
                        a_in_b = false;
                    }
                    if !candidate.lite.b_in_a {
                        b_in_a = false;
                    }
                    let key = candidate.scaled.truncated();
                    if index == 0 || key < best_key {
                        best = index;
                        best_key = key;
                    }
                },
            }
            assert(!some_axis_separates(next)) by {
                if some_axis_separates(next) {
                    let i = choose|i: int| 0 <= i < next.len() && (#[trigger] next[i]) is None;
                    assert(seen[i] is None);
                }
            }
            assert(a_in_b == every_axis_has_a_in_b(next)) by {
                if every_axis_has_a_in_b(next) {
                    assert(forall|j: int| 0 <= j < index && (#[trigger] seen[j]) is Some ==> next[j]->0.lite.a_in_b);
                }
            }
            assert(b_in_a == every_axis_has_b_in_a(next)) by {
                if every_axis_has_b_in_a(next) {
                    assert(forall|j: int| 0 <= j < index && (#[trigger] seen[j]) is Some ==> next[j]->0.lite.b_in_a);
                }
            }
            index += 1;
        }
        assert(sats@.take(index as int) =~= sats@);
        let chosen = sats[best];
        match chosen {
            None => None,
            Some(least) => Some(
                Response {
                    a: self.clone(),
                    b: b.clone(),
                    overlap_n: least.lite.axis,
                    overlap_v: least.overlap_v,
                    overlap: least.lite.overlap,
                    a_in_b,
                    b_in_a,
                },
            ),
        }
    }
}

/// Two axes say the same with the shapes exchanged: separated both or
/// neither, each flag in the place of the other, the same overlap under the
/// same key.
pub open spec fn says_the_same_exchanged(p: Option<Candidate>, q: Option<Candidate>) -> bool {
    &&& p is None <==> q is None
    &&& p is Some ==> {
        &&& q->0.lite.a_in_b == p->0.lite.b_in_a
        &&& q->0.lite.b_in_a == p->0.lite.a_in_b
        &&& q->0.lite.overlap == p->0.lite.overlap
        &&& q->0.key() == p->0.key()
    }
}

/// Where axis `i` of a test stands once the two shapes are exchanged: the
/// `n_a` axes of the first shape move behind the `n_b` axes of the second.
pub open spec fn exchanged_index(i: int, n_a: int, n_b: int) -> int {
    if i < n_a {
        i + n_b
    } else {
        i - n_a
    }
}

/// `swapped` holds what the axes of `sats` say once the two shapes are
/// exchanged, `n_a` of the axes being those of the first shape.
pub open spec fn is_exchange_of(sats: Seq<Option<Candidate>>, swapped: Seq<Option<Candidate>>, n_a: int) -> bool {
    &&& 0 <= n_a <= sats.len()
    &&& swapped.len() == sats.len()
    &&& forall|i: int|
        0 <= i < sats.len() ==> says_the_same_exchanged(
            #[trigger] sats[i],
            swapped[exchanged_index(i, n_a, sats.len() - n_a)],
        )
}

/// Exchanging the two polygons exchanges the answer: both tests find a
/// collision or neither does, each polygon is within the other in the one
/// exactly where the other says it the other way round, and the keys of the
/// two chosen axes are equal. Where only one axis has the least key, the two
/// overlaps are equal too.
pub proof fn lemma_exchange(
    a: PolygonView,
    b: PolygonView,
    sats: Seq<Option<Candidate>>,
    swapped: Seq<Option<Candidate>>,
    r: Option<Response>,
    s: Option<Response>,
)
    requires
        is_exchange_of(sats, swapped, a.points.len() as int),
        is_answer(a, b, sats, r),
        is_answer(b, a, swapped, s),
    ensures
        r is None <==> s is None,
        r is Some ==> s->0.a_in_b == r->0.b_in_a && s->0.b_in_a == r->0.a_in_b,
        r is Some ==> forall|k: int, l: int|
            least_key_first_at(sats, k) && least_key_first_at(swapped, l) ==> sats[k]->0.key()
                == swapped[l]->0.key(),
        r is Some ==> forall|k: int|
            least_key_first_at(sats, k) && (forall|j: int|
                0 <= j < sats.len() && j != k ==> (#[trigger] sats[j])->0.key() != sats[k]->0.key())
                ==> s->0.overlap == r->0.overlap,
{
    let n = sats.len() as int;
    let n_a = a.points.len() as int;
    let n_b = n - n_a;
    if some_axis_separates(sats) {
        let i = choose|i: int| 0 <= i < sats.len() && (#[trigger] sats[i]) is None;
        assert(swapped[exchanged_index(i, n_a, n_b)] is None);
    }
    if some_axis_separates(swapped) {
        let m = choose|m: int| 0 <= m < swapped.len() && (#[trigger] swapped[m]) is None;
        let i = exchanged_index(m, n_b, n_a);
        assert(sats[i] is None);
    }
    if r is Some {
        assert(every_axis_has_a_in_b(sats) == every_axis_has_b_in_a(swapped)) by {
            if every_axis_has_a_in_b(sats) {
                assert forall|m: int| 0 <= m < n && (#[trigger] swapped[m]) is Some implies swapped[m]->0.lite.b_in_a by {
                    let i = exchanged_index(m, n_b, n_a);
                    assert(says_the_same_exchanged(sats[i], swapped[m]));
                }
            }
            if every_axis_has_b_in_a(swapped) {
                assert forall|i: int| 0 <= i < n && (#[trigger] sats[i]) is Some implies sats[i]->0.lite.a_in_b by {
                    assert(swapped[exchanged_index(i, n_a, n_b)] is Some);
                }
            }
        }
        assert(every_axis_has_b_in_a(sats) == every_axis_has_a_in_b(swapped)) by {
            if every_axis_has_b_in_a(sats) {
                assert forall|m: int| 0 <= m < n && (#[trigger] swapped[m]) is Some implies swapped[m]->0.lite.a_in_b by {
                    let i = exchanged_index(m, n_b, n_a);
                    assert(says_the_same_exchanged(sats[i], swapped[m]));
                }
            }
            if every_axis_has_a_in_b(swapped) {
                assert forall|i: int| 0 <= i < n && (#[trigger] sats[i]) is Some implies sats[i]->0.lite.b_in_a by {
                    assert(swapped[exchanged_index(i, n_a, n_b)] is Some);
                }
            }
        }
        assert forall|k: int, l: int|
            least_key_first_at(sats, k) && least_key_first_at(swapped, l) implies sats[k]->0.key()
            == swapped[l]->0.key() by {
            let i = exchanged_index(l, n_b, n_a);
            assert(says_the_same_exchanged(sats[i], swapped[l]));
            assert(says_the_same_exchanged(sats[k], swapped[exchanged_index(k, n_a, n_b)]));
        }
        assert forall|k: int|
            least_key_first_at(sats, k) && (forall|j: int|
                0 <= j < sats.len() && j != k ==> (#[trigger] sats[j])->0.key() != sats[k]->0.key())
            implies s->0.overlap == r->0.overlap by {
            let l = choose|l: int|
                {
                    &&& least_key_first_at(swapped, l)
                    &&& s->0.overlap == swapped[l]->0.lite.overlap
                    &&& s->0.overlap_n == swapped[l]->0.lite.axis
                    &&& s->0.overlap_v == swapped[l]->0.overlap_v
                };
            let k2 = choose|k2: int|
                {
                    &&& least_key_first_at(sats, k2)
                    &&& r->0.overlap == sats[k2]->0.lite.overlap
                    &&& r->0.overlap_n == sats[k2]->0.lite.axis
                    &&& r->0.overlap_v == sats[k2]->0.overlap_v
                };
            assert(k2 == k);
            let i = exchanged_index(l, n_b, n_a);
            assert(says_the_same_exchanged(sats[i], swapped[l]));
            assert(says_the_same_exchanged(sats[k], swapped[exchanged_index(k, n_a, n_b)]));
            assert(i == k);
        }
    }
}

/// `sat` is what an axis says of two shapes with the shadows `a` and `b` on
/// it, `d` being the distances between the ends of the shadows.
pub open spec fn reads(sat: Option<Candidate>, a: Range, b: Range, d: Differences) -> bool {
    match sat {
        None => separated(a, b),
        Some(candidate) => axis_says(a, b, d, candidate.lite.axis) == Some(candidate.lite),
    }
}

/// A polygon within another is told both ways. Let the shadow of `a` lie
/// inside that of `b` on every axis, beginning after it, and let the ways out
/// be numbers. Then the test of `a` against `b` finds `a` within `b` and not
/// `b` within `a`; the test of `b` against `a`, whose axes are the same in
/// the other order, finds `b` within `a` and not `a` within `b`; the two
/// chosen axes have the same key; and where only one axis has the least key,
/// the two overlaps are equal.
pub proof fn lemma_within_both_ways(
    a: PolygonView,
    b: PolygonView,
    shadows_a: Seq<Range>,
    shadows_b: Seq<Range>,
    d: Seq<Differences>,
    e: Seq<Differences>,
    sats: Seq<Option<Candidate>>,
    swapped: Seq<Option<Candidate>>,
    r: Option<Response>,
    s: Option<Response>,
)
    requires
        sats.len() == a.points.len() + b.points.len(),
        sats.len() > 0,
        swapped.len() == sats.len(),
        shadows_a.len() == sats.len(),
        shadows_b.len() == sats.len(),
        d.len() == sats.len(),
        e.len() == sats.len(),
        forall|i: int|
            0 <= i < sats.len() ==> {
                &&& begins_and_ends_inside(#[trigger] shadows_a[i], shadows_b[i])
                &&& mirrored(d[i], e[i])
                &&& !d[i].a_max_b_min.is_nan()
                &&& !d[i].b_max_a_min.is_nan()
            },
        forall|i: int|
            0 <= i < sats.len() ==> {
                let j = exchanged_index(i, a.points.len() as int, b.points.len() as int);
                &&& reads(#[trigger] sats[i], shadows_a[i], shadows_b[i], d[i])
                &&& reads(swapped[j], shadows_b[i], shadows_a[i], e[i])
                &&& swapped[j]->0.key() == sats[i]->0.key()
            },
        is_answer(a, b, sats, r),
        is_answer(b, a, swapped, s),
    ensures
        r is Some && s is Some,
        r->0.a_in_b && !r->0.b_in_a,
        !s->0.a_in_b && s->0.b_in_a,
        forall|k: int, l: int|
            least_key_first_at(sats, k) && least_key_first_at(swapped, l) ==> sats[k]->0.key()
                == swapped[l]->0.key(),
        forall|k: int|
            least_key_first_at(sats, k) && (forall|j: int|
                0 <= j < sats.len() && j != k ==> (#[trigger] sats[j])->0.key() != sats[k]->0.key())
                ==> s->0.overlap == r->0.overlap,
{
    let n_a = a.points.len() as int;
    let n_b = b.points.len() as int;
    assert forall|i: int| 0 <= i < sats.len() implies says_the_same_exchanged(
        #[trigger] sats[i],
        swapped[exchanged_index(i, n_a, n_b)],
    ) && sats[i] is Some && sats[i]->0.lite.a_in_b && !sats[i]->0.lite.b_in_a by {
        assert(begins_and_ends_inside(shadows_a[i], shadows_b[i]));
        lemma_within_is_mirrored(shadows_a[i], shadows_b[i], d[i], e[i]);
    }
    assert(is_exchange_of(sats, swapped, n_a));
    assert(!some_axis_separates(sats));
    assert(every_axis_has_a_in_b(sats));
    assert(!every_axis_has_b_in_a(sats)) by {
        assert(sats[0] is Some && !sats[0]->0.lite.b_in_a);
    }
    lemma_exchange(a, b, sats, swapped, r, s);
}

} // verus!
