//! Surface materials: what a surface emits, what it reflects, and where a
//! ray that strikes it goes next.
use vstd::prelude::*;
use crate::geometry::ray::Ray;
use crate::geometry::scalar::Scalar;
use crate::geometry::vector::Vector;

verus! {

/// The kinds of surface.
#[derive(Clone, Copy, PartialEq, Eq, Structural, Debug)]
pub enum SurfaceType {
    Diffuse,
    Reflective,
}

/// A matte surface, which scatters light in every direction.
#[derive(Clone, Copy, PartialEq, Eq, Structural, Debug)]
pub struct DiffuseMaterial {
    pub albedo: Vector,
    pub intensity: Scalar,
}

/// A mirror-like surface. A glossiness of one gives a perfect mirror, a
/// glossiness of zero a fully blurred one.
#[derive(Clone, Copy, PartialEq, Eq, Structural, Debug)]
pub struct ReflectiveMaterial {
    pub albedo: Vector,
    pub glossiness: Scalar,
    pub intensity: Scalar,
}

/// The material of a surface.
#[derive(Clone, Copy, PartialEq, Eq, Structural, Debug)]
pub enum Material {
    Diffuse(DiffuseMaterial),
    Reflective(ReflectiveMaterial),
}

/// `direction`, or `normal` in its place where `direction` is zero within
/// the tolerance.
pub open spec fn spec_or_normal(direction: Vector, normal: Vector) -> Vector {
    if direction.spec_is_zero() {
        normal
    } else {
        direction
    }
}

impl DiffuseMaterial {
    /// The colour that the surface sends out by itself: `albedo * intensity`.
    pub open spec fn spec_emission(self) -> Vector {
        self.albedo.spec_mul(self.intensity)
    }

    /// The ray that leaves `point` after a ray struck the surface there,
    /// given the random direction `random`: it points along
    /// `normal + random`.
    pub open spec fn spec_scatter(self, ray: Ray, point: Vector, normal: Vector, random: Vector) -> Ray {
        Ray { origin: point, direction: spec_or_normal(normal.spec_add(random), normal) }
    }

    /// A matte surface with the given albedo and intensity.
    pub fn new(albedo: Vector, intensity: Scalar) -> (r: DiffuseMaterial)
        ensures
            r == (DiffuseMaterial { albedo, intensity }),
    {
        DiffuseMaterial { albedo, intensity }
    }

    /// The share of incoming light that the surface reflects, per channel.
    pub fn albedo(&self) -> (r: Vector)
        ensures
            r == self.albedo,
    {
        self.albedo
    }

    /// The colour that the surface sends out by itself.
    pub fn emission(&self) -> (r: Vector)
        ensures
            r == self.spec_emission(),
    {
        self.albedo.mul(self.intensity)
    }

    /// The ray that leaves `point` for the random direction `random`.
    pub fn scatter(&self, ray: &Ray, point: &Vector, normal: &Vector, random: Vector) -> (r: Ray)
        ensures
            r == self.spec_scatter(*ray, *point, *normal, random),
    {
        let mut direction = normal.add(random);
        if direction.is_zero() {
            direction = *normal;
        }
        Ray::new(*point, direction)
    }

    /// The ray that leaves `point` in a direction drawn at random.
    pub fn reflect(&self, ray: &Ray, point: &Vector, normal: &Vector) -> (r: Ray)
        ensures
            exists|random: Vector|
                random.spec_is_random() && r == #[trigger] self.spec_scatter(
                    *ray,
                    *point,
                    *normal,
                    random,
                ),
    {
        self.scatter(ray, point, normal, Vector::random())
    }
}

impl ReflectiveMaterial {
    /// The colour that the surface sends out by itself: `albedo * intensity`.
    pub open spec fn spec_emission(self) -> Vector {
        self.albedo.spec_mul(self.intensity)
    }

    /// The direction of `direction` mirrored at a surface with the normal
    /// `normal`: `d - 2 (d . n) n`.
    pub open spec fn spec_mirror(direction: Vector, normal: Vector) -> Vector {
        direction.spec_sub(
            normal.spec_mul(Scalar::spec_from_int(2).spec_mul(direction.spec_dot(normal))),
        )
    }

    /// The ray that leaves `point` after `ray` struck the surface there,
    /// given the random direction `random`: the mirrored direction plus
    /// `(1 - glossiness) * random`.
    pub open spec fn spec_scatter(self, ray: Ray, point: Vector, normal: Vector, random: Vector) -> Ray {
        let blur = random.spec_mul(Scalar::spec_one().spec_sub(self.glossiness));
        Ray {
            origin: point,
            direction: spec_or_normal(
                Self::spec_mirror(ray.direction, normal).spec_add(blur),
                normal,
            ),
        }
    }

    /// A mirror-like surface with the given albedo, intensity and glossiness.
    pub fn new(albedo: Vector, intensity: Scalar, glossiness: Scalar) -> (r: ReflectiveMaterial)
        ensures
            r == (ReflectiveMaterial { albedo, glossiness, intensity }),
    {
        ReflectiveMaterial { albedo, glossiness, intensity }
    }

    /// The share of incoming light that the surface reflects, per channel.
    pub fn albedo(&self) -> (r: Vector)
        ensures
            r == self.albedo,
    {
        self.albedo
    }

    /// The colour that the surface sends out by itself.
    pub fn emission(&self) -> (r: Vector)
        ensures
            r == self.spec_emission(),
    {
        self.albedo.mul(self.intensity)
    }

    /// The ray that leaves `point` for the random direction `random`.
    pub fn scatter(&self, ray: &Ray, point: &Vector, normal: &Vector, random: Vector) -> (r: Ray)
        ensures
            r == self.spec_scatter(*ray, *point, *normal, random),
    {
        let twice = Scalar::from_int(2).mul(ray.direction.dot(normal));
        let mut direction = ray.direction.sub(normal.mul(twice));
        direction = direction.add(random.mul(Scalar::one().sub(self.glossiness)));
        if direction.is_zero() {
            direction = *normal;
        }
        Ray::new(*point, direction)
    }

    /// The ray that leaves `point` in the mirrored direction, blurred by a
    /// direction drawn at random.
    pub fn reflect(&self, ray: &Ray, point: &Vector, normal: &Vector) -> (r: Ray)
        ensures
            exists|random: Vector|
                random.spec_is_random() && r == #[trigger] self.spec_scatter(
                    *ray,
                    *point,
                    *normal,
                    random,
                ),
    {
        self.scatter(ray, point, normal, Vector::random())
    }
}

impl Material {
    /// The kind of the surface.
    pub open spec fn spec_surface_type(self) -> SurfaceType {
        match self {
            Material::Diffuse(_) => SurfaceType::Diffuse,
            Material::Reflective(_) => SurfaceType::Reflective,
        }
    }

    /// The share of incoming light that the surface reflects, per channel.
    pub open spec fn spec_albedo(self) -> Vector {
        match self {
            Material::Diffuse(m) => m.albedo,
            Material::Reflective(m) => m.albedo,
        }
    }

    /// The colour that the surface sends out by itself.
    pub open spec fn spec_emission(self) -> Vector {
        match self {
            Material::Diffuse(m) => m.spec_emission(),
            Material::Reflective(m) => m.spec_emission(),
        }
    }

    /// The ray that leaves `point` after `ray` struck the surface there,
    /// given the random direction `random`.
    pub open spec fn spec_scatter(self, ray: Ray, point: Vector, normal: Vector, random: Vector) -> Ray {
        match self {
            Material::Diffuse(m) => m.spec_scatter(ray, point, normal, random),
            Material::Reflective(m) => m.spec_scatter(ray, point, normal, random),
        }
    }

    /// A material of the given kind. A reflective one is a perfect mirror.
    pub fn new(color: Vector, intensity: Scalar, surface_type: SurfaceType) -> (r: Material)
        ensures
            r.spec_surface_type() == surface_type,
            r.spec_albedo() == color,
            r.spec_emission() == color.spec_mul(intensity),
            r matches Material::Reflective(m) ==> m.glossiness == Scalar::spec_one(),
    {
        match surface_type {
            SurfaceType::Diffuse => Material::Diffuse(DiffuseMaterial::new(color, intensity)),
            SurfaceType::Reflective => Material::Reflective(
                ReflectiveMaterial::new(color, intensity, Scalar::one()),
            ),
        }
    }

    /// The kind of the surface.
    pub fn surface_type(&self) -> (r: SurfaceType)
        ensures
            r == self.spec_surface_type(),
    {
        match self {
            Material::Diffuse(_) => SurfaceType::Diffuse,
            Material::Reflective(_) => SurfaceType::Reflective,
        }
    }

    /// The share of incoming light that the surface reflects, per channel.
    pub fn albedo(&self) -> (r: Vector)
        ensures
            r == self.spec_albedo(),
    {
        match self {
            Material::Diffuse(m) => m.albedo(),
            Material::Reflective(m) => m.albedo(),
        }
    }

    /// The colour that the surface sends out by itself.
    pub fn emission(&self) -> (r: Vector)
        ensures
            r == self.spec_emission(),
    {
        match self {
            Material::Diffuse(m) => m.emission(),
            Material::Reflective(m) => m.emission(),
        }
    }

    /// The ray that leaves `point` for the random direction `random`.
    pub fn scatter(&self, ray: &Ray, point: &Vector, normal: &Vector, random: Vector) -> (r: Ray)
        ensures
            r == self.spec_scatter(*ray, *point, *normal, random),
    {
        match self {
            Material::Diffuse(m) => m.scatter(ray, point, normal, random),
            Material::Reflective(m) => m.scatter(ray, point, normal, random),
        }
    }

    /// The ray that leaves `point` after `ray` struck the surface there, in
    /// a direction that depends on a random draw.
    pub fn reflect(&self, ray: &Ray, point: &Vector, normal: &Vector) -> (r: Ray)
        ensures
            exists|random: Vector|
                random.spec_is_random() && r == #[trigger] self.spec_scatter(
                    *ray,
                    *point,
                    *normal,
                    random,
                ),
    {
        self.scatter(ray, point, normal, Vector::random())
    }
}

} // verus!
