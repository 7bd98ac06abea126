//! The shapes of a scene and their collisions with rays.
use vstd::prelude::*;
use crate::config::{epsilon, spec_epsilon};
use crate::geometry::hitbox::HitBox;
use crate::geometry::ray::Ray;
use crate::geometry::scalar::{
    floor_sqrt, is_floor_sqrt, lemma_floor_sqrt_exists, lemma_mul_one, lemma_mul_whole, magnitude,
    Scalar, ONE_RAW,
};
use crate::geometry::vector::{lemma_dot_negated, lemma_normalize_is_unit, Vector};
use crate::scene::bvh::{BVHNode, EmptyBVHNode};
use crate::scene::materials::Material;
use crate::utils::utils::{lemma_dot_along_axis, Axis};

verus! {

/// Where a ray struck a surface: how far along the ray, the surface normal
/// there, and the material of the surface.
#[derive(Clone, Copy, PartialEq, Eq, Structural, Debug)]
pub struct CollisionInfo {
    pub distance: Scalar,
    pub normal: Vector,
    pub material: Material,
}

impl CollisionInfo {
    /// The collision with the given values.
    pub fn new(distance: Scalar, normal: Vector, material: Material) -> (r: CollisionInfo)
        ensures
            r == (CollisionInfo { distance, normal, material }),
    {
        CollisionInfo { distance, normal, material }
    }
}

/// A sphere, with its bounding box kept alongside.
#[derive(Clone, Copy, PartialEq, Eq, Structural, Debug)]
pub struct Sphere {
    pub center: Vector,
    pub radius: Scalar,
    pub material: Material,
    pub hitbox: HitBox,
}

impl Sphere {
    /// The sphere around `center` with its bounding box, which reaches
    /// `radius` from the centre along every axis.
    pub open spec fn spec_new(center: Vector, radius: Scalar, material: Material) -> Sphere {
        Sphere {
            center,
            radius,
            material,
            hitbox: HitBox::spec_new(
                center.spec_sub(Vector::spec_uniform(radius)),
                center.spec_add(Vector::spec_uniform(radius)),
            ),
        }
    }

    /// The bounding box is well formed.
    pub open spec fn wf(self) -> bool {
        self.hitbox.wf()
    }

    /// The parameter at which `ray` first meets the sphere in front of its
    /// origin: with `oc = origin - center`, `a = d . d`, `b = 2 (oc . d)` and
    /// `c = oc . oc - radius^2`, the smaller root
    /// `(-b - sqrt(b^2 - 4ac)) / 2a` where it is positive, else the larger
    /// root where that is positive. `None` where the discriminant is
    /// negative or neither root is positive.
    #[verifier::opaque]
    pub open spec fn spec_distance(self, ray: Ray) -> Option<Scalar> {
        let two = Scalar::spec_from_int(2);
        let four = Scalar::spec_from_int(4);
        let oc = ray.origin.spec_sub(self.center);
        let a = ray.direction.spec_dot(ray.direction);
        let b = two.spec_mul(oc.spec_dot(ray.direction));
        let c = oc.spec_dot(oc).spec_sub(self.radius.spec_mul(self.radius));
        let discriminant = b.spec_mul(b).spec_sub(four.spec_mul(a).spec_mul(c));
        if discriminant.raw < 0 {
            None
        } else {
            let root = discriminant.spec_sqrt();
            let t1 = b.spec_neg().spec_sub(root).spec_div(two.spec_mul(a));
            let t2 = b.spec_neg().spec_add(root).spec_div(two.spec_mul(a));
            if t1.raw > 0 {
                Some(t1)
            } else if t2.raw > 0 {
                Some(t2)
            } else {
                None
            }
        }
    }

    /// The collision of `ray` with the sphere at the distance `distance`:
    /// the normal is the offset of the point from the centre, divided by the
    /// radius.
    pub open spec fn spec_hit(self, ray: Ray, distance: Scalar) -> CollisionInfo {
        CollisionInfo {
            distance,
            normal: ray.spec_at(distance).spec_sub(self.center).spec_div(self.radius),
            material: self.material,
        }
    }

    /// The nearest collision of `ray` with the sphere within `max_distance`:
    /// none where the ray misses the bounding box within that distance, the
    /// sphere itself, or meets it farther away.
    #[verifier::opaque]
    pub open spec fn spec_collide(self, ray: Ray, max_distance: Scalar) -> Option<CollisionInfo> {
        if !self.hitbox.spec_intersects(ray, max_distance) {
            None
        } else {
            match self.spec_distance(ray) {
                Some(distance) => if distance.raw <= max_distance.raw {
                    Some(self.spec_hit(ray, distance))
                } else {
                    None
                },
                None => None,
            }
        }
    }

    /// Makes the sphere around `center`. It is well formed where the radius
    /// is not negative.
    pub fn new(center: Vector, radius: Scalar, material: Material) -> (r: Sphere)
        ensures
            r == Self::spec_new(center, radius, material),
            radius.raw >= 0 ==> r.wf(),
    {
        let hitbox = HitBox::new(
            center.sub(Vector::uniform(radius)),
            center.add(Vector::uniform(radius)),
        );
        Sphere { center, radius, material, hitbox }
    }

    /// The parameter at which `ray` first meets the sphere, if it does.
    pub fn distance(&self, ray: &Ray) -> (r: Option<Scalar>)
        ensures
            r == self.spec_distance(*ray),
            r matches Some(d) ==> d.raw > 0,
    {
        reveal(Sphere::spec_distance);
        let two = Scalar::from_int(2);
        let four = Scalar::from_int(4);
        let oc = ray.origin.sub(self.center);
        let a = ray.direction.dot(&ray.direction);
        let b = two.mul(oc.dot(&ray.direction));
        let c = oc.dot(&oc).sub(self.radius.mul(self.radius));

        let discriminant = b.mul(b).sub(four.mul(a).mul(c));
        if discriminant.raw < 0 {
            return None;
        }
        let root = discriminant.sqrt();
        let t1 = b.neg().sub(root).div(two.mul(a));
        if t1.raw > 0 {
            return Some(t1);
        }
        let t2 = b.neg().add(root).div(two.mul(a));
        if t2.raw > 0 {
            return Some(t2);
        }
        None
    }

    /// The nearest collision of `ray` with the sphere within `max_distance`.
    pub fn collide(&self, ray: &Ray, max_distance: Scalar) -> (r: Option<CollisionInfo>)
        ensures
            r == self.spec_collide(*ray, max_distance),
            r matches Some(info) ==> 0 < info.distance.raw <= max_distance.raw
                && info.material == self.material,
    {
        reveal(Sphere::spec_collide);
        if !self.hitbox.intersects(ray, max_distance) {
            return None;
        }
        match self.distance(ray) {
            Some(d) => {
                if d.raw > max_distance.raw {
                    return None;
                }
                let point = ray.at(d);
                // The radius is known, so dividing by it spares the square
                // root that normalizing would take.
                let normal = point.sub(self.center).div(self.radius);
                Some(CollisionInfo::new(d, normal, self.material))
            },
            None => None,
        }
    }

    /// The bounding box of the sphere.
    pub fn hitbox(&self) -> (r: HitBox)
        ensures
            r == self.hitbox,
    {
        self.hitbox
    }
}

/// An unbounded plane through `point`, at right angles to `normal`. It has
/// no bounding box and so is no shape of a scene; triangles lie in one.
#[derive(Clone, Copy, PartialEq, Eq, Structural, Debug)]
pub struct Plane {
    pub point: Vector,
    pub normal: Vector,
}

impl Plane {
    /// The parameter at which `ray` meets the plane:
    /// `((point - origin) . normal) / (direction . normal)`. `None` where
    /// the ray runs parallel to the plane within the tolerance, or where the
    /// parameter is not positive.
    #[verifier::opaque]
    pub open spec fn spec_collide(self, ray: Ray) -> Option<Scalar> {
        let w = self.point.spec_sub(ray.origin);
        let a = w.spec_dot(self.normal);
        let b = ray.direction.spec_dot(self.normal);
        if b.spec_abs().raw < spec_epsilon().raw {
            None
        } else {
            let distance = a.spec_div(b);
            if distance.raw <= 0 {
                None
            } else {
                Some(distance)
            }
        }
    }

    /// The plane through `point` at right angles to `normal`.
    pub fn new(point: Vector, normal: Vector) -> (r: Plane)
        ensures
            r == (Plane { point, normal }),
    {
        Plane { point, normal }
    }

    /// The parameter at which `ray` meets the plane in front of its origin.
    pub fn collide(&self, ray: &Ray) -> (r: Option<Scalar>)
        ensures
            r == self.spec_collide(*ray),
            r matches Some(d) ==> d.raw > 0,
    {
        reveal(Plane::spec_collide);
        let w = self.point.sub(ray.origin);
        let a = w.dot(&self.normal);
        let b = ray.direction.dot(&self.normal);

        // The ray is parallel to the plane.
        if b.abs().raw < epsilon().raw {
            return None;
        }
        let distance = a.div(b);
        if distance.raw <= 0 {
            return None;
        }
        Some(distance)
    }
}

/// A triangle. Only two of its corners are kept: the third, `c`, is held
/// through the edges `ac` and `bc` that run to it. The normal, the plane,
/// the bounding box and the two vectors by which the barycentric
/// coordinates of a point are found are worked out once, when the triangle
/// is made.
#[derive(Clone, Copy, PartialEq, Eq, Structural, Debug)]
pub struct Triangle {
    pub a: Vector,
    pub b: Vector,
    pub material: Material,
    pub normal: Vector,
    pub plane: Plane,
    pub hitbox: HitBox,
    pub ac: Vector,
    pub bc: Vector,
    pub barycentric_a: Vector,
    pub barycentric_b: Vector,
}

impl Triangle {
    /// The triangle with the corners `a`, `b` and `c`: the edges `ac = c - a`
    /// and `bc = c - b`; `barycentric_a`, the part of `ac` at right angles to
    /// `bc`, and `barycentric_b`, the part of `bc` at right angles to `ac`;
    /// the unit normal along `ac x bc`; the plane through `a`; and the
    /// smallest box that holds the three corners.
    pub open spec fn spec_new(a: Vector, b: Vector, c: Vector, material: Material) -> Triangle {
        let ac = c.spec_sub(a);
        let bc = c.spec_sub(b);
        let normal = ac.spec_cross(bc).spec_normalize();
        Triangle {
            a,
            b,
            material,
            normal,
            plane: Plane { point: a, normal },
            hitbox: HitBox::spec_new(
                a.spec_min(b).spec_min(c),
                a.spec_max(b).spec_max(c),
            ),
            ac,
            bc,
            barycentric_a: ac.spec_sub(ac.spec_project(bc)),
            barycentric_b: bc.spec_sub(bc.spec_project(ac)),
        }
    }

    /// The bounding box is well formed.
    pub open spec fn wf(self) -> bool {
        self.hitbox.wf()
    }

    /// The barycentric coordinates of `point` with respect to the corners
    /// `a`, `b` and `c`: the first is one minus the share of `point - a`
    /// along `barycentric_a`, the second likewise for `b`, and the third is
    /// what the first two leave of one.
    #[verifier::opaque]
    pub open spec fn spec_barycentric(self, point: Vector) -> (Scalar, Scalar, Scalar) {
        let one = Scalar::spec_one();
        let ah = point.spec_sub(self.a);
        let first = one.spec_sub(
            self.barycentric_a.spec_dot(ah).spec_div(self.barycentric_a.spec_dot(self.ac)),
        );
        let bh = point.spec_sub(self.b);
        let second = one.spec_sub(
            self.barycentric_b.spec_dot(bh).spec_div(self.barycentric_b.spec_dot(self.bc)),
        );
        (first, second, one.spec_sub(first).spec_sub(second))
    }

    /// `point` lies in the triangle: none of its barycentric coordinates is
    /// negative.
    pub open spec fn spec_holds(self, point: Vector) -> bool {
        let (first, second, third) = self.spec_barycentric(point);
        first.raw >= 0 && second.raw >= 0 && third.raw >= 0
    }

    /// The normal of the triangle on the side from which a ray with the
    /// given direction comes.
    pub open spec fn spec_facing(self, direction: Vector) -> Vector {
        if self.normal.spec_dot(direction).raw >= 0 {
            self.normal.spec_neg()
        } else {
            self.normal
        }
    }

    /// The nearest collision of `ray` with the triangle within
    /// `max_distance`: none where the ray misses the bounding box within
    /// that distance, does not meet the plane in front of its origin and
    /// within that distance, or meets it outside the triangle.
    #[verifier::opaque]
    pub open spec fn spec_collide(self, ray: Ray, max_distance: Scalar) -> Option<CollisionInfo> {
        if !self.hitbox.spec_intersects(ray, max_distance) {
            None
        } else {
            match self.plane.spec_collide(ray) {
                Some(distance) => if distance.raw <= max_distance.raw && self.spec_holds(
                    ray.spec_at(distance),
                ) {
                    Some(
                        CollisionInfo {
                            distance,
                            normal: self.spec_facing(ray.direction),
                            material: self.material,
                        },
                    )
                } else {
                    None
                },
                None => None,
            }
        }
    }

    /// Makes the triangle with the corners `a`, `b` and `c`.
    pub fn new(a: Vector, b: Vector, c: Vector, material: Material) -> (r: Triangle)
        ensures
            r == Self::spec_new(a, b, c, material),
            r.wf(),
    {
        let ac = c.sub(a);
        let bc = c.sub(b);
        let barycentric_a = ac.sub(ac.project(&bc));
        let barycentric_b = bc.sub(bc.project(&ac));

        let normal = ac.cross(&bc).normalize();
        let plane = Plane::new(a, normal);
        let hitbox = HitBox::new(a.min(&b).min(&c), a.max(&b).max(&c));

        Triangle { a, b, material, normal, plane, hitbox, ac, bc, barycentric_a, barycentric_b }
    }

    /// The barycentric coordinates of `point`.
    pub fn barycentric(&self, point: &Vector) -> (r: (Scalar, Scalar, Scalar))
        ensures
            r == self.spec_barycentric(*point),
    {
        reveal(Triangle::spec_barycentric);
        let one = Scalar::one();
        let ah = point.sub(self.a);
        let first = one.sub(self.barycentric_a.dot(&ah).div(self.barycentric_a.dot(&self.ac)));
        let bh = point.sub(self.b);
        let second = one.sub(self.barycentric_b.dot(&bh).div(self.barycentric_b.dot(&self.bc)));
        (first, second, one.sub(first).sub(second))
    }

    /// The nearest collision of `ray` with the triangle within
    /// `max_distance`. The normal of the collision faces the origin of the
    /// ray.
    pub fn collide(&self, ray: &Ray, max_distance: Scalar) -> (r: Option<CollisionInfo>)
        ensures
            r == self.spec_collide(*ray, max_distance),
            r matches Some(info) ==> 0 < info.distance.raw <= max_distance.raw
                && info.material == self.material,
    {
        reveal(Triangle::spec_collide);
        if !self.hitbox.intersects(ray, max_distance) {
            return None;
        }
        match self.plane.collide(ray) {
            Some(distance) => {
                if distance.raw > max_distance.raw {
                    return None;
                }
                let point = ray.at(distance);
                let (first, second, third) = self.barycentric(&point);
                if first.raw < 0 || second.raw < 0 || third.raw < 0 {
                    return None;
                }
                // The normal always faces the origin of the ray.
                if self.normal.dot(&ray.direction).raw >= 0 {
                    Some(CollisionInfo::new(distance, self.normal.neg(), self.material))
                } else {
                    Some(CollisionInfo::new(distance, self.normal, self.material))
                }
            },
            None => None,
        }
    }

    /// The bounding box of the triangle.
    pub fn hitbox(&self) -> (r: HitBox)
        ensures
            r == self.hitbox,
    {
        self.hitbox
    }
}

/// An element of a scene: a shape, or a node of the hierarchy of bounding
/// boxes that holds the shapes of a whole scene.
#[derive(Debug)]
pub enum SceneElement {
    Sphere(Sphere),
    Triangle(Triangle),
    Node(BVHNode),
    Empty(EmptyBVHNode),
}

impl SceneElement {
    /// The element is a shape, not a node.
    pub open spec fn spec_is_shape(self) -> bool {
        self is Sphere || self is Triangle
    }

    /// The bounding box of the element.
    pub open spec fn spec_hitbox(self) -> HitBox {
        match self {
            SceneElement::Sphere(sphere) => sphere.hitbox,
            SceneElement::Triangle(triangle) => triangle.hitbox,
            SceneElement::Node(node) => node.hitbox,
            SceneElement::Empty(empty) => empty.hitbox,
        }
    }

    /// The nearest collision of `ray` with the element within
    /// `max_distance`, as the traversal finds it.
    #[verifier::opaque]
    pub open spec fn spec_collide(self, ray: Ray, max_distance: Scalar) -> Option<CollisionInfo>
        decreases self,
    {
        match self {
            SceneElement::Sphere(sphere) => sphere.spec_collide(ray, max_distance),
            SceneElement::Triangle(triangle) => triangle.spec_collide(ray, max_distance),
            SceneElement::Node(node) => node.spec_collide(ray, max_distance),
            SceneElement::Empty(_) => None,
        }
    }

    /// The bounding box of the element.
    pub fn hitbox(&self) -> (r: HitBox)
        ensures
            r == self.spec_hitbox(),
    {
        match self {
            SceneElement::Sphere(sphere) => sphere.hitbox(),
            SceneElement::Triangle(triangle) => triangle.hitbox(),
            SceneElement::Node(node) => node.hitbox(),
            SceneElement::Empty(empty) => empty.hitbox(),
        }
    }

    /// The nearest collision of `ray` with the element within
    /// `max_distance`.
    pub fn collide(&self, ray: &Ray, max_distance: Scalar) -> (r: Option<CollisionInfo>)
        ensures
            r == self.spec_collide(*ray, max_distance),
            r matches Some(info) ==> 0 < info.distance.raw <= max_distance.raw,
        decreases self,
    {
        reveal_with_fuel(SceneElement::spec_collide, 1);
        match self {
            SceneElement::Sphere(sphere) => sphere.collide(ray, max_distance),
            SceneElement::Triangle(triangle) => triangle.collide(ray, max_distance),
            SceneElement::Node(node) => node.collide(ray, max_distance),
            SceneElement::Empty(empty) => empty.collide(ray, max_distance),
        }
    }
}

/// The rounded-down square root of a number that lies at most three above
/// four times a rounded-down square lies at most two below twice the root
/// of that square.
proof fn lemma_root_of_four_squares(r: int, delta: int, root: int)
    requires
        r >= ONE_RAW,
        0 <= delta <= 3,
        is_floor_sqrt((4 * ((r * r) / (ONE_RAW as int)) + delta) * ONE_RAW, root),
    ensures
        2 * r - 2 <= root <= 2 * r,
{
    let s = ONE_RAW as int;
    let q = (r * r) / s;
    let n = (4 * q + delta) * s;
    assert(q * s <= r * r < q * s + s) by (nonlinear_arith)
        requires
            q == (r * r) / s,
            s > 0,
    ;
    assert(n == 4 * (q * s) + delta * s) by (nonlinear_arith)
        requires
            n == (4 * q + delta) * s,
    ;
    assert(delta * s <= 3 * s) by (nonlinear_arith)
        requires
            delta <= 3,
            s > 0,
    ;
    assert(delta * s >= 0) by (nonlinear_arith)
        requires
            delta >= 0,
            s > 0,
    ;
    assert((2 * r + 1) * (2 * r + 1) == 4 * (r * r) + 4 * r + 1) by (nonlinear_arith);
    assert((2 * r - 2) * (2 * r - 2) == 4 * (r * r) - 8 * r + 4) by (nonlinear_arith);
    if root >= 2 * r + 1 {
        assert(root * root >= (2 * r + 1) * (2 * r + 1)) by (nonlinear_arith)
            requires
                root >= 2 * r + 1,
                r >= 0,
        ;
    }
    if root + 1 <= 2 * r - 2 {
        assert((root + 1) * (root + 1) <= (2 * r - 2) * (2 * r - 2)) by (nonlinear_arith)
            requires
                0 <= root + 1 <= 2 * r - 2,
        ;
    }
}

/// A ray that runs along an axis toward the centre of a sphere meets the
/// sphere where its distance from the centre has fallen to the radius,
/// within one unit of `2^-32`: for a sphere of radius at least one, with
/// its centre within `2^30` of the origin, and a ray that starts outside
/// the sphere, `height` from its centre and at most 16384, with a direction
/// of length one.
pub proof fn lemma_sphere_distance_toward_centre(
    sphere: Sphere,
    axis: Axis,
    forward: bool,
    height: Scalar,
    ray: Ray,
)
    requires
        sphere.radius.raw >= ONE_RAW,
        sphere.radius.raw < height.raw <= 0x4000_0000_0000,
        -0x4000_0000_0000_0000 <= sphere.center.x.raw <= 0x4000_0000_0000_0000,
        -0x4000_0000_0000_0000 <= sphere.center.y.raw <= 0x4000_0000_0000_0000,
        -0x4000_0000_0000_0000 <= sphere.center.z.raw <= 0x4000_0000_0000_0000,
        ray.direction == Vector::spec_axis(
            axis,
            if forward {
                Scalar::spec_one()
            } else {
                Scalar::spec_one().spec_neg()
            },
        ),
        ray.origin == sphere.center.spec_add(
            Vector::spec_axis(
                axis,
                if forward {
                    height.spec_neg()
                } else {
                    height
                },
            ),
        ),
    ensures
        sphere.spec_distance(ray) matches Some(distance) && height.raw - sphere.radius.raw
            <= distance.raw <= height.raw - sphere.radius.raw + 1,
{
    reveal(Sphere::spec_distance);
    let s = ONE_RAW as int;
    let h = height.raw as int;
    let r = sphere.radius.raw as int;
    let unit = if forward {
        Scalar::spec_one()
    } else {
        Scalar::spec_one().spec_neg()
    };
    let offset = if forward {
        height.spec_neg()
    } else {
        height
    };
    let two = Scalar::spec_from_int(2);
    let four = Scalar::spec_from_int(4);
    let oc = ray.origin.spec_sub(sphere.center);
    assert(oc == Vector::spec_axis(axis, offset));
    lemma_dot_along_axis(axis, unit, unit);
    lemma_dot_along_axis(axis, offset, unit);
    lemma_dot_along_axis(axis, offset, offset);
    lemma_mul_one(unit);
    lemma_mul_one(offset);
    let a = ray.direction.spec_dot(ray.direction);
    assert(a == Scalar::spec_one());
    let along = oc.spec_dot(ray.direction);
    assert(along.raw == -h);
    lemma_mul_whole(2, along);
    let b = two.spec_mul(along);
    assert(b.raw == -2 * h);
    let hh = (h * h) / s;
    let rr = (r * r) / s;
    assert(h * h <= 0x4000_0000_0000 * 0x4000_0000_0000) by (nonlinear_arith)
        requires
            0 <= h <= 0x4000_0000_0000,
    ;
    assert(r * r <= h * h) by (nonlinear_arith)
        requires
            0 <= r <= h,
    ;
    assert(0 <= rr <= hh <= 0x1000_0000_0000_0000) by (nonlinear_arith)
        requires
            hh == (h * h) / s,
            rr == (r * r) / s,
            0 <= r * r <= h * h,
            h * h <= 0x4000_0000_0000 * 0x4000_0000_0000,
            s == 0x1_0000_0000,
    ;
    assert(oc.spec_dot(oc).raw == hh && sphere.radius.spec_mul(sphere.radius).raw == rr) by {
        reveal(Scalar::spec_mul);
        assert(offset.raw * offset.raw == h * h) by (nonlinear_arith)
            requires
                offset.raw == h || offset.raw == -h,
        ;
        assert(h * h >= 0 && r * r >= 0) by (nonlinear_arith);
    }
    let c = oc.spec_dot(oc).spec_sub(sphere.radius.spec_mul(sphere.radius));
    assert(c.raw == hh - rr);
    let bb = b.spec_mul(b);
    let big = (4 * (h * h)) / s;
    assert(bb.raw == big) by {
        reveal(Scalar::spec_mul);
        assert(b.raw * b.raw == 4 * (h * h)) by (nonlinear_arith)
            requires
                b.raw == -2 * h,
        ;
        assert(0 <= (4 * (h * h)) / s <= 0x4000_0000_0000_0000) by (nonlinear_arith)
            requires
                0 <= h * h <= 0x4000_0000_0000 * 0x4000_0000_0000,
                s == 0x1_0000_0000,
        ;
    }
    let delta = big - 4 * hh;
    assert(0 <= delta <= 3) by (nonlinear_arith)
        requires
            delta == (4 * (h * h)) / s - 4 * ((h * h) / s),
            s > 0,
    ;
    lemma_mul_whole(4, a);
    assert(four.spec_mul(a) == four);
    lemma_mul_whole(4, c);
    let discriminant = bb.spec_sub(four.spec_mul(a).spec_mul(c));
    assert(discriminant.raw == 4 * rr + delta);
    assert(rr >= s) by (nonlinear_arith)
        requires
            rr == (r * r) / s,
            r >= s,
            s > 0,
    ;
    let n = discriminant.raw * s;
    assert(n >= 0) by (nonlinear_arith)
        requires
            n == discriminant.raw * s,
            discriminant.raw >= 0,
            s > 0,
    ;
    lemma_floor_sqrt_exists(n);
    let root = discriminant.spec_sqrt();
    assert(root.raw == floor_sqrt(n)) by {
        reveal(Scalar::spec_sqrt);
        lemma_root_of_four_squares(r, delta, floor_sqrt(n));
    }
    lemma_root_of_four_squares(r, delta, floor_sqrt(n));
    lemma_mul_whole(2, a);
    let numerator = b.spec_neg().spec_sub(root);
    assert(numerator.raw == 2 * h - root.raw);
    let t1 = numerator.spec_div(two.spec_mul(a));
    assert(t1.raw == (2 * h - root.raw) / 2) by {
        reveal(Scalar::spec_from_ratio);
        let m = 2 * h - root.raw;
        assert((m * s) / (2 * s) == m / 2) by (nonlinear_arith)
            requires
                m >= 0,
                s > 0,
        ;
        assert(m * s >= 0) by (nonlinear_arith)
            requires
                m >= 0,
                s > 0,
        ;
    }
}

/// Barycentric coordinates that are not negative add up to exactly one.
/// More generally they do whenever the first two lie between `-2^61` and
/// `2^61`, where no step of the sum saturates.
pub proof fn lemma_barycentric_sum(triangle: Triangle, point: Vector)
    ensures
        ({
            let (first, second, third) = triangle.spec_barycentric(point);
            &&& -0x2000_0000_0000_0000 <= first.raw <= 0x2000_0000_0000_0000
                && -0x2000_0000_0000_0000 <= second.raw <= 0x2000_0000_0000_0000 ==> first.raw
                + second.raw + third.raw == Scalar::spec_one().raw
            &&& triangle.spec_holds(point) ==> first.raw + second.raw + third.raw
                == Scalar::spec_one().raw
        }),
{
    reveal(Triangle::spec_barycentric);
}

/// The normal of a triangle on the side from which a ray comes opposes the
/// direction of the ray: their dot product is not positive. So does the
/// normal of every collision that the triangle reports. This holds of a
/// triangle none of whose normal components is the smallest number.
pub proof fn lemma_facing_opposes(triangle: Triangle, ray: Ray, max_distance: Scalar)
    requires
        triangle.normal.x.raw > i64::MIN,
        triangle.normal.y.raw > i64::MIN,
        triangle.normal.z.raw > i64::MIN,
    ensures
        triangle.spec_facing(ray.direction).spec_dot(ray.direction).raw <= 0,
        triangle.spec_collide(ray, max_distance) matches Some(info) ==> info.normal.spec_dot(
            ray.direction,
        ).raw <= 0,
{
    reveal(Triangle::spec_collide);
    lemma_dot_negated(triangle.normal, ray.direction);
}

/// The normal that a triangle keeps has length one, as far as rounding
/// lets it. With `n` the sum of the squares of its raw components and `m`
/// the raw length of the cross product of the two edges that run to the
/// third corner: `n * m^2 <= 2^64 * ((m + 1)^2 + 3 * 2^32)`, and the
/// squares of the magnitudes of the components, each raised by one, add up
/// to more than `2^64`. Where the cross product has length one or more, `n`
/// lies within `7 * 2^32` of `2^64`. All this holds of a triangle whose
/// cross product is not zero and has its components within 16384 of zero.
pub proof fn lemma_triangle_normal_is_unit(a: Vector, b: Vector, c: Vector, material: Material)
    requires
        ({
            let across = c.spec_sub(a).spec_cross(c.spec_sub(b));
            &&& -0x4000_0000_0000 <= across.x.raw <= 0x4000_0000_0000
            &&& -0x4000_0000_0000 <= across.y.raw <= 0x4000_0000_0000
            &&& -0x4000_0000_0000 <= across.z.raw <= 0x4000_0000_0000
            &&& across.spec_magnitude().raw > 0
        }),
    ensures
        ({
            let n = Triangle::spec_new(a, b, c, material).normal;
            let m = c.spec_sub(a).spec_cross(c.spec_sub(b)).spec_magnitude().raw as int;
            let square = n.x.raw * n.x.raw + n.y.raw * n.y.raw + n.z.raw * n.z.raw;
            let raised = (magnitude(n.x.raw as int) + 1) * (magnitude(n.x.raw as int) + 1) + (
            magnitude(n.y.raw as int) + 1) * (magnitude(n.y.raw as int) + 1) + (magnitude(
                n.z.raw as int,
            ) + 1) * (magnitude(n.z.raw as int) + 1);
            &&& square * (m * m) <= (ONE_RAW * ONE_RAW) * ((m + 1) * (m + 1) + 3 * ONE_RAW)
            &&& raised > ONE_RAW * ONE_RAW
            &&& m >= ONE_RAW ==> ONE_RAW * ONE_RAW - 7 * ONE_RAW <= square <= ONE_RAW * ONE_RAW
                + 6 * ONE_RAW
        }),
{
    lemma_normalize_is_unit(c.spec_sub(a).spec_cross(c.spec_sub(b)));
}

/// A triangle reports a collision exactly where the ray passes through its
/// box within the search distance, meets its plane in front of the origin
/// and within the search distance, and meets it at a point none of whose
/// barycentric coordinates is negative. The collision then lies at the
/// distance of the plane, has the normal on the side of the ray and the
/// material of the triangle.
pub proof fn lemma_triangle_collision(triangle: Triangle, ray: Ray, max_distance: Scalar)
    ensures
        triangle.spec_collide(ray, max_distance) is Some <==> {
            &&& triangle.hitbox.spec_intersects(ray, max_distance)
            &&& triangle.plane.spec_collide(ray) matches Some(distance) && distance.raw
                <= max_distance.raw && triangle.spec_holds(ray.spec_at(distance))
        },
        triangle.spec_collide(ray, max_distance) matches Some(info) ==> {
            &&& triangle.plane.spec_collide(ray) == Some(info.distance)
            &&& 0 < info.distance.raw <= max_distance.raw
            &&& info.normal == triangle.spec_facing(ray.direction)
            &&& info.material == triangle.material
        },
{
    reveal(Triangle::spec_collide);
    reveal(Plane::spec_collide);
}

/// A triangle reports a collision only at a point none of whose barycentric
/// coordinates is negative; a point with a negative coordinate gives none.
pub proof fn lemma_collision_lies_in_triangle(triangle: Triangle, ray: Ray, max_distance: Scalar)
    ensures
        triangle.spec_collide(ray, max_distance) matches Some(info) ==> triangle.spec_holds(
            ray.spec_at(info.distance),
        ),
        triangle.plane.spec_collide(ray) matches Some(distance) && !triangle.spec_holds(
            ray.spec_at(distance),
        ) ==> triangle.spec_collide(ray, max_distance) is None,
{
    reveal(Triangle::spec_collide);
}

} // verus!
