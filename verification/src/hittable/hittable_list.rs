//! Lists of primitives, searched one after the other.

use vstd::prelude::*;
use crate::hittable::aabb::{lemma_union_encloses, lemma_within_transitive, AABB};
use crate::hittable::{
    distance, distances_ordered, is_nearest, lemma_nearest_distance_unique, lemma_scan_is_nearest,
    nearest, HitRecord,
};
use crate::ray::Ray;
use crate::scalar::Scalar;

verus! {

/// Primitives in the order in which they were pushed.
pub struct HittableList<H> {
    pub objects: Vec<H>,
}

/// What a search through `objects` returns, when `hit` tells where the ray
/// meets each of them within an interval.
///
/// Each object is asked only for what lies nearer than the nearest
/// intersection found before it, so the last answer is the nearest.
pub open spec fn scan<H>(
    objects: Seq<H>,
    ray: Ray,
    t_min: Scalar,
    t_max: Scalar,
    hit: spec_fn(H, Ray, Scalar, Scalar) -> Option<HitRecord>,
) -> Option<HitRecord>
    decreases objects.len(),
{
    if objects.len() == 0 {
        None
    } else {
        let before = scan(objects.drop_last(), ray, t_min, t_max, hit);
        match hit(objects.last(), ray, t_min, closest_so_far(before, t_max)) {
            Some(h) => Some(h),
            None => before,
        }
    }
}

/// The upper end of the interval that is left once `found` is known.
pub open spec fn closest_so_far(found: Option<HitRecord>, t_max: Scalar) -> Scalar {
    match found {
        Some(h) => h.t,
        None => t_max,
    }
}

/// The box around all of `objects`, when `bounds` gives the box of each:
/// nothing for an empty list, and nothing as soon as one object has no box.
pub open spec fn enclosing<H>(
    objects: Seq<H>,
    time: (Scalar, Scalar),
    bounds: spec_fn(H, (Scalar, Scalar)) -> Option<AABB>,
) -> Option<AABB>
    decreases objects.len(),
{
    if objects.len() == 0 {
        None
    } else if objects.len() == 1 {
        bounds(objects[0], time)
    } else {
        match (enclosing(objects.drop_last(), time, bounds), bounds(objects.last(), time)) {
            (Some(around), Some(next)) => Some(AABB::union(around, next)),
            _ => None,
        }
    }
}

/// Whatever the intersection routine `f` answers is what `hit` says.
pub open spec fn hit_is<H, F: Fn(&H, &Ray, Scalar, Scalar) -> Option<HitRecord>>(
    f: F,
    hit: spec_fn(H, Ray, Scalar, Scalar) -> Option<HitRecord>,
) -> bool {
    forall|object: &H, ray: &Ray, t_min: Scalar, t_max: Scalar, out: Option<HitRecord>|
        #[trigger] call_ensures(f, (object, ray, t_min, t_max), out) ==> out == hit(
            *object,
            *ray,
            t_min,
            t_max,
        )
}

/// Whatever the box routine `f` answers is what `bounds` says.
pub open spec fn bounds_is<H, G: Fn(&H, (Scalar, Scalar)) -> Option<AABB>>(
    f: G,
    bounds: spec_fn(H, (Scalar, Scalar)) -> Option<AABB>,
) -> bool {
    forall|object: &H, time: (Scalar, Scalar), out: Option<AABB>|
        #[trigger] call_ensures(f, (object, time), out) ==> out == bounds(*object, time)
}

impl<H> Default for HittableList<H> {
    /// The empty list.
    fn default() -> (r: Self)
        ensures
            r.objects@ == Seq::<H>::empty(),
    {
        HittableList { objects: Vec::new() }
    }
}

impl<H> HittableList<H> {
    pub fn push(&mut self, hittable: H)
        ensures
            final(self).objects@ == old(self).objects@.push(hittable),
    {
        self.objects.push(hittable)
    }

    /// The nearest intersection of the ray with the objects of the list
    /// within `(t_min, t_max)`, where `hit_one` intersects one object.
    pub fn hit<F>(&self, ray: &Ray, t_min: Scalar, t_max: Scalar, hit_one: &F) -> (r: Option<HitRecord>)
        where F: Fn(&H, &Ray, Scalar, Scalar) -> Option<HitRecord>,
        requires
            forall|object: &H, r: &Ray, lo: Scalar, hi: Scalar|
                call_requires(*hit_one, (object, r, lo, hi)),
        ensures
            forall|hit: spec_fn(H, Ray, Scalar, Scalar) -> Option<HitRecord>|
                hit_is(*hit_one, hit) ==> r == #[trigger] scan(
                    self.objects@,
                    *ray,
                    t_min,
                    t_max,
                    hit,
                ),
    {
        let mut closest = t_max;
        let mut hit_anything: Option<HitRecord> = None;
        let mut next: usize = 0;
        while next < self.objects.len()
            invariant
                next <= self.objects.len(),
                closest == closest_so_far(hit_anything, t_max),
                forall|object: &H, r: &Ray, lo: Scalar, hi: Scalar|
                    call_requires(*hit_one, (object, r, lo, hi)),
                forall|hit: spec_fn(H, Ray, Scalar, Scalar) -> Option<HitRecord>|
                    hit_is(*hit_one, hit) ==> hit_anything == #[trigger] scan(
                        self.objects@.take(next as int),
                        *ray,
                        t_min,
                        t_max,
                        hit,
                    ),
            decreases self.objects.len() - next,
        {
            let found = hit_one(&self.objects[next], ray, t_min, closest);
            let ghost before = hit_anything;
            if let Some(hit) = found {
                closest = hit.t;
                hit_anything = Some(hit);
            }
            proof {
                let longer = self.objects@.take(next + 1);
                assert(longer.drop_last() =~= self.objects@.take(next as int));
                assert(longer.last() == self.objects@[next as int]);
                assert forall|hit: spec_fn(H, Ray, Scalar, Scalar) -> Option<HitRecord>|
                    hit_is(*hit_one, hit) implies hit_anything == #[trigger] scan(
                    longer,
                    *ray,
                    t_min,
                    t_max,
                    hit,
                ) by {
                    assert(before == scan(self.objects@.take(next as int), *ray, t_min, t_max, hit));
                    assert(found == hit(
                        self.objects@[next as int],
                        *ray,
                        t_min,
                        closest_so_far(before, t_max),
                    ));
                }
            }
            next += 1;
        }
        proof {
            assert(self.objects@.take(next as int) =~= self.objects@);
        }
        hit_anything
    }

    /// The box around all objects of the list over the time span `time`,
    /// where `box_of` gives the box of one object.
    pub fn bounding_box<G>(&self, time: (Scalar, Scalar), box_of: &G) -> (r: Option<AABB>) where
        G: Fn(&H, (Scalar, Scalar)) -> Option<AABB>,

        requires
            forall|object: &H, span: (Scalar, Scalar)| call_requires(*box_of, (object, span)),
        ensures
            forall|bounds: spec_fn(H, (Scalar, Scalar)) -> Option<AABB>|
                bounds_is(*box_of, bounds) ==> r == #[trigger] enclosing(
                    self.objects@,
                    time,
                    bounds,
                ),
    {
        let mut output_box: Option<AABB> = None;
        let mut next: usize = 0;
        while next < self.objects.len()
            invariant
                next <= self.objects.len(),
                next == 0 ==> output_box is None,
                forall|object: &H, span: (Scalar, Scalar)| call_requires(*box_of, (object, span)),
                forall|bounds: spec_fn(H, (Scalar, Scalar)) -> Option<AABB>|
                    bounds_is(*box_of, bounds) ==> output_box == #[trigger] enclosing(
                        self.objects@.take(next as int),
                        time,
                        bounds,
                    ),
                next > 0 ==> output_box is Some,
            decreases self.objects.len() - next,
        {
            let found = box_of(&self.objects[next], time);
            let ghost before = output_box;
            let ghost longer = self.objects@.take(next + 1);
            proof {
                assert(longer.drop_last() =~= self.objects@.take(next as int));
                assert(longer.last() == self.objects@[next as int]);
                assert(longer[0] == self.objects@[0]);
            }
            match found {
                Some(bounding_box) => {
                    output_box = Some(
                        match output_box {
                            Some(around) => AABB::surrounding_box(&around, &bounding_box),
                            None => bounding_box,
                        },
                    );
                    proof {
                        assert forall|bounds: spec_fn(H, (Scalar, Scalar)) -> Option<AABB>|
                            bounds_is(*box_of, bounds) implies output_box == #[trigger] enclosing(
                            longer,
                            time,
                            bounds,
                        ) by {
                            assert(before == enclosing(
                                self.objects@.take(next as int),
                                time,
                                bounds,
                            ));
                            assert(found == bounds(self.objects@[next as int], time));
                        }
                    }
                },
                None => {
                    proof {
                        assert forall|bounds: spec_fn(H, (Scalar, Scalar)) -> Option<AABB>|
                            bounds_is(*box_of, bounds) implies None::<AABB> == #[trigger] enclosing(
                            self.objects@,
                            time,
                            bounds,
                        ) by {
                            assert(found == bounds(self.objects@[next as int], time));
                            lemma_enclosing_needs_every_box(
                                self.objects@,
                                time,
                                bounds,
                                next as int,
                            );
                        }
                    }
                    return None;
                },
            }
            next += 1;
        }
        proof {
            assert(self.objects@.take(next as int) =~= self.objects@);
        }
        output_box
    }
}

/// A list with an object that has no box has no box.
pub proof fn lemma_enclosing_needs_every_box<H>(
    objects: Seq<H>,
    time: (Scalar, Scalar),
    bounds: spec_fn(H, (Scalar, Scalar)) -> Option<AABB>,
    which: int,
)
    requires
        0 <= which < objects.len(),
        bounds(objects[which], time) is None,
    ensures
        enclosing(objects, time, bounds) is None,
    decreases objects.len(),
{
    if objects.len() > 1 && which < objects.len() - 1 {
        lemma_enclosing_needs_every_box(objects.drop_last(), time, bounds, which);
    }
}

/// Where the ray meets each of `objects` within the whole interval.
pub open spec fn list_candidates<H>(
    objects: Seq<H>,
    ray: Ray,
    t_min: Scalar,
    t_max: Scalar,
    hit: spec_fn(H, Ray, Scalar, Scalar) -> Option<HitRecord>,
) -> Seq<Option<HitRecord>> {
    Seq::new(objects.len(), |i: int| hit(objects[i], ray, t_min, t_max))
}

/// What a search relies on when it narrows the interval: over a shorter
/// interval an object answers with the intersection that it has over the
/// whole one, if that lies inside the shorter interval, and with nothing if
/// not; and what it answers over the whole interval lies inside it.
pub open spec fn respects_interval<H>(
    objects: Seq<H>,
    ray: Ray,
    t_min: Scalar,
    t_max: Scalar,
    hit: spec_fn(H, Ray, Scalar, Scalar) -> Option<HitRecord>,
) -> bool {
    &&& forall|i: int|
        0 <= i < objects.len() ==> (#[trigger] hit(objects[i], ray, t_min, t_max) matches Some(h)
            ==> h.t.lt_spec(t_max))
    &&& forall|i: int, closest: Scalar|
        0 <= i < objects.len() && closest.le_spec(t_max) ==> #[trigger] hit(
            objects[i],
            ray,
            t_min,
            closest,
        ) == match hit(objects[i], ray, t_min, t_max) {
            Some(h) => if h.t.lt_spec(closest) {
                Some(h)
            } else {
                None
            },
            None => None,
        }
}

/// A search through objects that respect the interval returns the nearest
/// of their intersections.
pub proof fn lemma_scan_finds_nearest<H>(
    objects: Seq<H>,
    ray: Ray,
    t_min: Scalar,
    t_max: Scalar,
    hit: spec_fn(H, Ray, Scalar, Scalar) -> Option<HitRecord>,
)
    requires
        !t_max.is_nan(),
        respects_interval(objects, ray, t_min, t_max, hit),
    ensures
        is_nearest(
            scan(objects, ray, t_min, t_max, hit),
            list_candidates(objects, ray, t_min, t_max, hit),
        ),
        distances_ordered(list_candidates(objects, ray, t_min, t_max, hit)),
    decreases objects.len(),
{
    let all = list_candidates(objects, ray, t_min, t_max, hit);
    assert forall|i: int| 0 <= i < all.len() implies (#[trigger] all[i] matches Some(h)
        ==> !h.t.is_nan()) by {
        assert(all[i] == hit(objects[i], ray, t_min, t_max));
    }
    if objects.len() > 0 {
        let front = objects.drop_last();
        let last = objects.len() - 1;
        assert forall|i: int| 0 <= i < front.len() implies front[i] == objects[i] by {}
        assert(respects_interval(front, ray, t_min, t_max, hit)) by {
            assert forall|i: int| 0 <= i < front.len() implies (#[trigger] hit(
                front[i],
                ray,
                t_min,
                t_max,
            ) matches Some(h) ==> h.t.lt_spec(t_max)) by {
                assert(front[i] == objects[i]);
            }
            assert forall|i: int, closest: Scalar|
                0 <= i < front.len() && closest.le_spec(t_max) implies #[trigger] hit(
                front[i],
                ray,
                t_min,
                closest,
            ) == match hit(front[i], ray, t_min, t_max) {
                Some(h) => if h.t.lt_spec(closest) {
                    Some(h)
                } else {
                    None
                },
                None => None,
            } by {
                assert(front[i] == objects[i]);
            }
        }
        lemma_scan_finds_nearest(front, ray, t_min, t_max, hit);
        let before = scan(front, ray, t_min, t_max, hit);
        let seen = list_candidates(front, ray, t_min, t_max, hit);
        let closest = closest_so_far(before, t_max);
        let whole = hit(objects[last], ray, t_min, t_max);
        let narrowed = hit(objects[last], ray, t_min, closest);
        let result = scan(objects, ray, t_min, t_max, hit);
        assert(objects.last() == objects[last]);
        assert forall|i: int| 0 <= i < seen.len() implies seen[i] == all[i] by {}
        assert(all[last] == whole);
        if before is Some {
            let at = choose|i: int| 0 <= i < seen.len() && #[trigger] seen[i] == before;
            assert(seen[at] == hit(objects[at], ray, t_min, t_max));
        }
        assert(closest.le_spec(t_max));
        match result {
            None => {
                assert forall|i: int| 0 <= i < all.len() implies #[trigger] all[i] is None by {
                    if i < last {
                        assert(seen[i] is None);
                    }
                }
            },
            Some(found) => {
                if narrowed is Some {
                    assert(all[last] == result);
                } else {
                    let at = choose|i: int| 0 <= i < seen.len() && #[trigger] seen[i] == before;
                    assert(all[at] == result);
                }
                assert forall|i: int| 0 <= i < all.len() implies (#[trigger] all[i] matches Some(h)
                    ==> found.t.rank() <= h.t.rank()) by {
                    if i < last {
                        assert(seen[i] == all[i]);
                    }
                }
            },
        }
    }
}

/// A search through objects that respect the interval finds an intersection
/// as far away as the nearest of all their intersections.
pub proof fn lemma_scan_matches_nearest<H>(
    objects: Seq<H>,
    ray: Ray,
    t_min: Scalar,
    t_max: Scalar,
    hit: spec_fn(H, Ray, Scalar, Scalar) -> Option<HitRecord>,
)
    requires
        !t_max.is_nan(),
        respects_interval(objects, ray, t_min, t_max, hit),
    ensures
        distance(scan(objects, ray, t_min, t_max, hit)) == distance(
            nearest(list_candidates(objects, ray, t_min, t_max, hit)),
        ),
{
    let all = list_candidates(objects, ray, t_min, t_max, hit);
    lemma_scan_finds_nearest(objects, ray, t_min, t_max, hit);
    lemma_scan_is_nearest(all);
    assert forall|i: int| 0 <= i < all.len() implies all.contains(#[trigger] all[i]) by {}
    lemma_nearest_distance_unique(scan(objects, ray, t_min, t_max, hit), all, nearest(all), all);
}

/// The box of a list of objects with well-formed boxes is well formed and
/// holds the box of every object.
pub proof fn lemma_enclosing_holds_every_box<H>(
    objects: Seq<H>,
    time: (Scalar, Scalar),
    bounds: spec_fn(H, (Scalar, Scalar)) -> Option<AABB>,
    which: int,
)
    requires
        0 <= which < objects.len(),
        enclosing(objects, time, bounds) is Some,
        forall|i: int|
            0 <= i < objects.len() ==> (#[trigger] bounds(objects[i], time) matches Some(b)
                ==> b.wf()),
    ensures
        enclosing(objects, time, bounds)->0.wf(),
        bounds(objects[which], time) matches Some(b) && b.within(
            enclosing(objects, time, bounds)->0,
        ),
    decreases objects.len(),
{
    if objects.len() == 1 {
        assert(bounds(objects[0], time) is Some);
    } else {
        let front = objects.drop_last();
        let last = objects.len() - 1;
        let around = enclosing(front, time, bounds)->0;
        let next = bounds(objects.last(), time)->0;
        assert forall|i: int| 0 <= i < front.len() implies (#[trigger] bounds(
            front[i],
            time,
        ) matches Some(b) ==> b.wf()) by {
            assert(front[i] == objects[i]);
        }
        assert(bounds(objects[last], time) is Some);
        assert(next.wf());
        lemma_enclosing_holds_every_box(front, time, bounds, 0);
        lemma_union_encloses(around, next);
        if which < last {
            lemma_enclosing_holds_every_box(front, time, bounds, which);
            assert(front[which] == objects[which]);
            lemma_within_transitive(
                bounds(objects[which], time)->0,
                around,
                AABB::union(around, next),
            );
        }
    }
}

} // verus!
