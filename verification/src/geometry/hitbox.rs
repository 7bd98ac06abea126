//! Axis-aligned bounding boxes and the slab test against a ray.
use vstd::prelude::*;
use std::cmp::Ordering;
use crate::config::{epsilon, spec_epsilon};
use crate::geometry::ray::Ray;
use crate::geometry::scalar::{lemma_div_monotone, Scalar};
use crate::geometry::vector::Vector;
use crate::utils::utils::Axis;

verus! {

/// The point halfway between two corners.
pub open spec fn spec_midpoint(start: Vector, end: Vector) -> Vector {
    start.spec_add(end).spec_div(Scalar::spec_from_int(2))
}

/// The parameters between which a ray lies within one pair of parallel
/// faces, at `low` and `high` on some axis; `None` where the ray runs
/// parallel to the faces and outside them. A ray that runs parallel to the
/// faces and between them stays there for every parameter.
pub open spec fn spec_slab(low: Scalar, high: Scalar, origin: Scalar, direction: Scalar) -> Option<
    (Scalar, Scalar),
> {
    if direction.spec_abs().raw < spec_epsilon().raw {
        if origin.raw < low.raw || origin.raw > high.raw {
            None
        } else {
            Some((Scalar::spec_neg_infinity(), Scalar::spec_infinity()))
        }
    } else {
        let t1 = low.spec_sub(origin).spec_div(direction);
        let t2 = high.spec_sub(origin).spec_div(direction);
        Some((t1.spec_min(t2), t1.spec_max(t2)))
    }
}

/// The parameters between which a ray lies within one pair of faces.
fn slab(low: Scalar, high: Scalar, origin: Scalar, direction: Scalar) -> (r: Option<
    (Scalar, Scalar),
>)
    ensures
        r == spec_slab(low, high, origin, direction),
{
    if direction.abs().raw < epsilon().raw {
        if origin.raw < low.raw || origin.raw > high.raw {
            None
        } else {
            Some((Scalar::neg_infinity(), Scalar::infinity()))
        }
    } else {
        let t1 = low.sub(origin).div(direction);
        let t2 = high.sub(origin).div(direction);
        Some((t1.min(t2), t1.max(t2)))
    }
}

/// An axis-aligned box between the corners `start` and `end`, with its
/// centre kept alongside.
#[derive(Clone, Copy, PartialEq, Eq, Structural, Debug)]
pub struct HitBox {
    pub start: Vector,
    pub end: Vector,
    pub center: Vector,
}

impl HitBox {
    /// The box between two corners.
    pub open spec fn spec_new(start: Vector, end: Vector) -> HitBox {
        HitBox { start, end, center: spec_midpoint(start, end) }
    }

    /// The corners are in order on every axis and the centre lies halfway
    /// between them.
    pub open spec fn wf(self) -> bool {
        &&& self.start.spec_le(self.end)
        &&& self.center == spec_midpoint(self.start, self.end)
    }

    /// The product of the three extents: a relative measure of cost, which
    /// vanishes for a flat box.
    pub open spec fn spec_area(self) -> Scalar {
        self.end.x.spec_sub(self.start.x).spec_mul(self.end.y.spec_sub(self.start.y)).spec_mul(
            self.end.z.spec_sub(self.start.z),
        )
    }

    /// The smallest box that holds both `self` and `other`.
    pub open spec fn spec_merge(self, other: HitBox) -> HitBox {
        Self::spec_new(self.start.spec_min(other.start), self.end.spec_max(other.end))
    }

    /// `other` lies within `self`.
    pub open spec fn spec_contains(self, other: HitBox) -> bool {
        self.start.spec_le(other.start) && other.end.spec_le(self.end)
    }

    /// Twice the centre coordinate along `axis`, by which boxes are ordered.
    pub open spec fn spec_key(self, axis: Axis) -> Scalar {
        self.start.spec_along(axis).spec_add(self.end.spec_along(axis))
    }

    /// The squared distance from the centre of the box to `point`.
    pub open spec fn spec_distance(self, point: Vector) -> Scalar {
        point.spec_sub(self.center).spec_magnitude_sqr()
    }

    /// The parameters at which `ray` enters and leaves the box: the latest
    /// entry and the earliest exit over the three pairs of faces. `None`
    /// where the ray runs parallel to a pair of faces and outside it.
    #[verifier::opaque]
    pub open spec fn spec_span(self, ray: Ray) -> Option<(Scalar, Scalar)> {
        match (
            spec_slab(self.start.x, self.end.x, ray.origin.x, ray.direction.x),
            spec_slab(self.start.y, self.end.y, ray.origin.y, ray.direction.y),
            spec_slab(self.start.z, self.end.z, ray.origin.z, ray.direction.z),
        ) {
            (Some(x), Some(y), Some(z)) => Some(
                (x.0.spec_max(y.0).spec_max(z.0), x.1.spec_min(y.1).spec_min(z.1)),
            ),
            _ => None,
        }
    }

    /// The parameter at which `ray` enters the box; infinite where it never
    /// does because it runs outside a pair of faces.
    pub open spec fn spec_entry(self, ray: Ray) -> Scalar {
        match self.spec_span(ray) {
            Some(span) => span.0,
            None => Scalar::spec_infinity(),
        }
    }

    /// The slab test without a bound on the distance: the ray enters the box
    /// no later than it leaves, and leaves at a parameter that is not
    /// negative.
    pub open spec fn spec_crosses(self, ray: Ray) -> bool {
        match self.spec_span(ray) {
            Some(span) => span.0.raw <= span.1.raw && span.1.raw >= 0,
            None => false,
        }
    }

    /// The slab test up to `max_distance`: the exit is first cut down to
    /// `max_distance`.
    pub open spec fn spec_intersects(self, ray: Ray, max_distance: Scalar) -> bool {
        match self.spec_span(ray) {
            Some(span) => {
                let exit = span.1.spec_min(max_distance);
                span.0.raw <= exit.raw && exit.raw >= 0
            },
            None => false,
        }
    }

    /// Makes the box between `start` and `end`. The box is well formed where
    /// no component of `start` exceeds that of `end`.
    pub fn new(start: Vector, end: Vector) -> (r: HitBox)
        ensures
            r == Self::spec_new(start, end),
            r.wf() <==> start.spec_le(end),
    {
        HitBox { start, end, center: start.add(end).div(Scalar::from_int(2)) }
    }

    /// The product of width, height and depth.
    pub fn area(&self) -> (r: Scalar)
        ensures
            r == self.spec_area(),
    {
        let width = self.end.x.sub(self.start.x);
        let height = self.end.y.sub(self.start.y);
        let depth = self.end.z.sub(self.start.z);
        width.mul(height).mul(depth)
    }

    /// Grows the box until it also holds `other`: each component of `start`
    /// becomes the smaller and each component of `end` the larger of the two.
    pub fn merge(&mut self, other: &HitBox)
        ensures
            *final(self) == old(self).spec_merge(*other),
            final(self).start == old(self).start.spec_min(other.start),
            final(self).end == old(self).end.spec_max(other.end),
            old(self).wf() && other.wf() ==> final(self).wf(),
    {
        let start = self.start.min(&other.start);
        let end = self.end.max(&other.end);
        *self = HitBox::new(start, end);
    }

    /// Orders two boxes by their centres along `axis`.
    pub fn compare(&self, other: &HitBox, axis: Axis) -> (r: Ordering)
        ensures
            (r == Ordering::Less) == (self.spec_key(axis).raw < other.spec_key(axis).raw),
            (r == Ordering::Equal) == (self.spec_key(axis).raw == other.spec_key(axis).raw),
            (r == Ordering::Greater) == (self.spec_key(axis).raw > other.spec_key(axis).raw),
    {
        let own = self.key(axis);
        let their = other.key(axis);
        if own.raw < their.raw {
            Ordering::Less
        } else if own.raw > their.raw {
            Ordering::Greater
        } else {
            Ordering::Equal
        }
    }

    /// The sum of the two corner coordinates along `axis`.
    pub fn key(&self, axis: Axis) -> (r: Scalar)
        ensures
            r == self.spec_key(axis),
    {
        self.start.along(axis).add(self.end.along(axis))
    }

    /// The squared distance from the centre of the box to `point`.
    pub fn distance(&self, point: &Vector) -> (r: Scalar)
        ensures
            r == self.spec_distance(*point),
    {
        point.sub(self.center).magnitude_sqr()
    }

    /// Tells whether `ray` passes through the box at a parameter between
    /// zero and `max_distance`.
    pub fn intersects(&self, ray: &Ray, max_distance: Scalar) -> (r: bool)
        ensures
            r == self.spec_intersects(*ray, max_distance),
    {
        reveal(HitBox::spec_span);
        let mut tmin = Scalar::neg_infinity();
        let mut tmax = max_distance;

        match slab(self.start.x, self.end.x, ray.origin.x, ray.direction.x) {
            None => {
                return false;
            },
            Some((near, far)) => {
                tmin = tmin.max(near);
                tmax = tmax.min(far);
            },
        }
        match slab(self.start.y, self.end.y, ray.origin.y, ray.direction.y) {
            None => {
                return false;
            },
            Some((near, far)) => {
                tmin = tmin.max(near);
                tmax = tmax.min(far);
            },
        }
        match slab(self.start.z, self.end.z, ray.origin.z, ray.direction.z) {
            None => {
                return false;
            },
            Some((near, far)) => {
                tmin = tmin.max(near);
                tmax = tmax.min(far);
            },
        }

        tmin.raw <= tmax.raw && tmax.raw >= 0
    }
}

/// A box that `ray` enters only beyond `max_distance` is not hit within it;
/// one that it enters within a `max_distance` that is not negative is hit
/// exactly when the unbounded slab test says so.
pub proof fn lemma_intersects_is_bounded_slab_test(b: HitBox, ray: Ray, max_distance: Scalar)
    ensures
        b.spec_entry(ray).raw > max_distance.raw ==> !b.spec_intersects(ray, max_distance),
        b.spec_entry(ray).raw <= max_distance.raw && max_distance.raw >= 0 ==> (b.spec_intersects(
            ray,
            max_distance,
        ) <==> b.spec_crosses(ray)),
{
}

/// The merged box holds both of its parts, and it is the smallest such box:
/// every box that holds both parts holds the merged box.
pub proof fn lemma_merge_is_tightest(a: HitBox, b: HitBox, c: HitBox)
    ensures
        a.spec_merge(b).spec_contains(a),
        a.spec_merge(b).spec_contains(b),
        c.spec_contains(a) && c.spec_contains(b) ==> c.spec_contains(a.spec_merge(b)),
        a.wf() && b.wf() ==> a.spec_merge(b).wf(),
{
}

/// A box that is hit within some distance is hit within every longer one.
pub proof fn lemma_intersects_farther(b: HitBox, ray: Ray, near: Scalar, far: Scalar)
    requires
        b.spec_intersects(ray, near),
        near.raw <= far.raw,
    ensures
        b.spec_intersects(ray, far),
{
}

/// Moving a pair of faces apart widens the interval of parameters within
/// which a ray lies between them.
proof fn lemma_slab_widens(
    low: Scalar,
    high: Scalar,
    outer_low: Scalar,
    outer_high: Scalar,
    origin: Scalar,
    direction: Scalar,
)
    requires
        outer_low.raw <= low.raw <= high.raw <= outer_high.raw,
    ensures
        spec_slab(low, high, origin, direction) matches Some(inner) ==> (spec_slab(
            outer_low,
            outer_high,
            origin,
            direction,
        ) matches Some(outer) && outer.0.raw <= inner.0.raw && inner.1.raw <= outer.1.raw),
{
    if direction.spec_abs().raw >= spec_epsilon().raw {
        assert(direction.raw != 0);
        lemma_div_monotone(outer_low.spec_sub(origin), low.spec_sub(origin), direction);
        lemma_div_monotone(low.spec_sub(origin), high.spec_sub(origin), direction);
        lemma_div_monotone(high.spec_sub(origin), outer_high.spec_sub(origin), direction);
    }
}

/// A ray that hits a well-formed box within some distance also hits every
/// box that holds it.
pub proof fn lemma_intersects_larger(inner: HitBox, outer: HitBox, ray: Ray, max_distance: Scalar)
    requires
        inner.start.spec_le(inner.end),
        outer.spec_contains(inner),
        inner.spec_intersects(ray, max_distance),
    ensures
        outer.spec_intersects(ray, max_distance),
{
    reveal(HitBox::spec_span);
    lemma_slab_widens(
        inner.start.x,
        inner.end.x,
        outer.start.x,
        outer.end.x,
        ray.origin.x,
        ray.direction.x,
    );
    lemma_slab_widens(
        inner.start.y,
        inner.end.y,
        outer.start.y,
        outer.end.y,
        ray.origin.y,
        ray.direction.y,
    );
    lemma_slab_widens(
        inner.start.z,
        inner.end.z,
        outer.start.z,
        outer.end.z,
        ray.origin.z,
        ray.direction.z,
    );
}

} // verus!
