//! Axis-aligned bounding boxes.

use vstd::prelude::*;
use crate::scalar::Scalar;
use crate::vec::Vec3;

verus! {

/// An axis-aligned box given by its two extreme corners.
#[derive(Clone, Copy, Debug, PartialEq, Eq, Structural)]
pub struct AABB {
    pub min: Vec3,
    pub max: Vec3,
}

/// Where a ray crosses the two planes that bound a box on one axis.
///
/// `inv_d` is the reciprocal of the ray's direction on that axis, `t0` the
/// parameter at the box's minimum plane and `t1` at its maximum plane.
#[derive(Clone, Copy, Debug, PartialEq, Eq, Structural)]
pub struct Slab {
    pub inv_d: Scalar,
    pub t0: Scalar,
    pub t1: Scalar,
}

impl Slab {
    /// The parameter at which the ray enters the slab.
    pub open spec fn entry(self) -> Scalar {
        if self.inv_d.lt_spec(Scalar { bits: 0 }) {
            self.t1
        } else {
            self.t0
        }
    }

    /// The parameter at which the ray leaves the slab.
    pub open spec fn exit(self) -> Scalar {
        if self.inv_d.lt_spec(Scalar { bits: 0 }) {
            self.t0
        } else {
            self.t1
        }
    }
}

/// The lower end of an interval after a slab's entry has been taken in: the
/// entry where it lies above, else the old end (so a NaN entry changes
/// nothing).
pub open spec fn raise(t_min: Scalar, entry: Scalar) -> Scalar {
    if t_min.lt_spec(entry) {
        entry
    } else {
        t_min
    }
}

/// The upper end of an interval after a slab's exit has been taken in.
pub open spec fn lower(t_max: Scalar, exit: Scalar) -> Scalar {
    if exit.lt_spec(t_max) {
        exit
    } else {
        t_max
    }
}

/// The slab test on the axes from `axis` on, with the interval narrowed so far.
pub open spec fn slabs_overlap(slabs: [Slab; 3], axis: int, t_min: Scalar, t_max: Scalar) -> bool
    decreases 3 - axis,
{
    if axis < 0 || axis >= 3 {
        true
    } else {
        let lo = raise(t_min, slabs[axis].entry());
        let hi = lower(t_max, slabs[axis].exit());
        !hi.le_spec(lo) && slabs_overlap(slabs, axis + 1, lo, hi)
    }
}

/// The largest of the interval's lower end and the three entries.
pub open spec fn latest_entry(slabs: [Slab; 3], t_min: Scalar) -> Scalar {
    raise(raise(raise(t_min, slabs[0].entry()), slabs[1].entry()), slabs[2].entry())
}

/// The smallest of the interval's upper end and the three exits.
pub open spec fn earliest_exit(slabs: [Slab; 3], t_max: Scalar) -> Scalar {
    lower(lower(lower(t_max, slabs[0].exit()), slabs[1].exit()), slabs[2].exit())
}

impl AABB {
    /// Each corner component is a number, and no minimum lies above its maximum.
    pub open spec fn wf(self) -> bool {
        &&& self.min.x.le_spec(self.max.x)
        &&& self.min.y.le_spec(self.max.y)
        &&& self.min.z.le_spec(self.max.z)
    }

    /// The smallest box around two boxes.
    pub open spec fn union(box0: AABB, box1: AABB) -> AABB {
        AABB {
            min: Vec3 {
                x: box0.min.x.min_spec(box1.min.x),
                y: box0.min.y.min_spec(box1.min.y),
                z: box0.min.z.min_spec(box1.min.z),
            },
            max: Vec3 {
                x: box0.max.x.max_spec(box1.max.x),
                y: box0.max.y.max_spec(box1.max.y),
                z: box0.max.z.max_spec(box1.max.z),
            },
        }
    }

    /// `self` lies within `outer` on every axis.
    pub open spec fn within(self, outer: AABB) -> bool {
        &&& outer.min.x.le_spec(self.min.x) && self.max.x.le_spec(outer.max.x)
        &&& outer.min.y.le_spec(self.min.y) && self.max.y.le_spec(outer.max.y)
        &&& outer.min.z.le_spec(self.min.z) && self.max.z.le_spec(outer.max.z)
    }

    pub fn new(min: Vec3, max: Vec3) -> (r: AABB)
        ensures
            r == (AABB { min, max }),
    {
        AABB { min, max }
    }

    /// Whether the box is well formed.
    pub fn is_wf(&self) -> (r: bool)
        ensures
            r == self.wf(),
    {
        self.min.x.le(self.max.x) && self.min.y.le(self.max.y) && self.min.z.le(self.max.z)
    }

    /// The slab test: whether the ray's interval `(t_min, t_max)` still has
    /// room after it has been narrowed to each axis's slab in turn.
    pub fn hit(slabs: &[Slab; 3], t_min: Scalar, t_max: Scalar) -> (r: bool)
        ensures
            r == slabs_overlap(*slabs, 0, t_min, t_max),
    {
        let mut lo = t_min;
        let mut hi = t_max;
        let mut axis: usize = 0;
        while axis < 3
            invariant
                axis <= 3,
                slabs_overlap(*slabs, 0, t_min, t_max) == slabs_overlap(*slabs, axis as int, lo, hi),
            decreases 3 - axis,
        {
            let slab = slabs[axis];
            let mut t0 = slab.t0;
            let mut t1 = slab.t1;
            if slab.inv_d.lt(Scalar::zero()) {
                t0 = slab.t1;
                t1 = slab.t0;
            }
            if t0.gt(lo) {
                lo = t0;
            }
            if t1.lt(hi) {
                hi = t1;
            }
            if hi.le(lo) {
                return false;
            }
            axis += 1;
        }
        true
    }

    pub fn surrounding_box(box0: &AABB, box1: &AABB) -> (r: AABB)
        ensures
            r == AABB::union(*box0, *box1),
    {
        let small = Vec3::new(
            box0.min.x.min(box1.min.x),
            box0.min.y.min(box1.min.y),
            box0.min.z.min(box1.min.z),
        );
        let big = Vec3::new(
            box0.max.x.max(box1.max.x),
            box0.max.y.max(box1.max.y),
            box0.max.z.max(box1.max.z),
        );
        AABB::new(small, big)
    }
}

/// A ray whose interval has two proper ends passes the slab test exactly when
/// the interval meets all three slabs at once: when the latest entry lies
/// strictly before the earliest exit.
pub proof fn lemma_hit_iff_slabs_intersect(slabs: [Slab; 3], t_min: Scalar, t_max: Scalar)
    requires
        !t_min.is_nan(),
        !t_max.is_nan(),
    ensures
        slabs_overlap(slabs, 0, t_min, t_max) <==> latest_entry(slabs, t_min).lt_spec(
            earliest_exit(slabs, t_max),
        ),
{
    let lo0 = raise(t_min, slabs[0].entry());
    let hi0 = lower(t_max, slabs[0].exit());
    let lo1 = raise(lo0, slabs[1].entry());
    let hi1 = lower(hi0, slabs[1].exit());
    let lo2 = raise(lo1, slabs[2].entry());
    let hi2 = lower(hi1, slabs[2].exit());
    reveal_with_fuel(slabs_overlap, 4);
    assert(slabs_overlap(slabs, 3, lo2, hi2));
}

/// The box around two well-formed boxes is well formed and holds both.
pub proof fn lemma_union_encloses(box0: AABB, box1: AABB)
    requires
        box0.wf(),
        box1.wf(),
    ensures
        AABB::union(box0, box1).wf(),
        box0.within(AABB::union(box0, box1)),
        box1.within(AABB::union(box0, box1)),
{
}

/// A box within a box within a third lies within the third.
pub proof fn lemma_within_transitive(inner: AABB, middle: AABB, outer: AABB)
    requires
        inner.within(middle),
        middle.within(outer),
    ensures
        inner.within(outer),
{
}

} // verus!
