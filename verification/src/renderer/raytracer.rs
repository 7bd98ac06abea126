//! The path tracer: it follows a ray from surface to surface and adds up
//! the light that the surfaces send back along it.
use vstd::prelude::*;
use crate::camera::Camera;
use crate::config::{epsilon, spec_epsilon, Config};
use crate::geometry::ray::Ray;
use crate::geometry::scalar::{
    lemma_div_at_least_one, lemma_mul_not_negative, lemma_mul_zero, saturate, Scalar, ONE_RAW,
};
use crate::geometry::vector::Vector;
use crate::scene::bvh::{build_bvh, spec_built};
use crate::scene::elements::{CollisionInfo, SceneElement, Sphere, Triangle};
use crate::scene::materials::Material;
use crate::utils::utils::{spec_to_rgb, to_rgb};

verus! {

/// The sum of `colors`, added up from the first.
pub open spec fn spec_sum(colors: Seq<Vector>) -> Vector
    decreases colors.len(),
{
    if colors.len() == 0 {
        Vector::spec_zero()
    } else {
        spec_sum(colors.drop_last()).spec_add(colors.last())
    }
}

/// The colour of a pixel from the colours of its samples: their mean, with
/// every channel limited to the interval from zero to one. No sample at all
/// gives black.
pub open spec fn spec_average(colors: Seq<Vector>) -> Vector {
    spec_sum(colors).spec_div(Scalar::spec_from_count(colors.len())).spec_clamp(
        Scalar::spec_zero(),
        Scalar::spec_one(),
    )
}

/// The colour of a pixel from the colours of its samples.
pub fn average(colors: &Vec<Vector>) -> (r: Vector)
    ensures
        r == spec_average(colors@),
{
    let mut result = Vector::zero();
    let mut i: usize = 0;
    while i < colors.len()
        invariant
            i <= colors.len(),
            result == spec_sum(colors@.take(i as int)),
        decreases colors.len() - i,
    {
        proof {
            assert(colors@.take(i + 1).drop_last() =~= colors@.take(i as int));
        }
        result = result.add(colors[i]);
        i += 1;
    }
    proof {
        assert(colors@.take(i as int) =~= colors@);
    }
    result.div(Scalar::from_count(colors.len())).clamp(Scalar::zero(), Scalar::one())
}

impl SceneElement {
    /// No shape below the element sends out light by itself.
    pub open spec fn spec_dark(self) -> bool
        decreases self,
    {
        match self {
            SceneElement::Sphere(sphere) => sphere.material.spec_emission() == Vector::spec_zero(),
            SceneElement::Triangle(triangle) => triangle.material.spec_emission()
                == Vector::spec_zero(),
            SceneElement::Node(node) => node.left.spec_dark() && node.right.spec_dark(),
            SceneElement::Empty(_) => true,
        }
    }
}

/// Every component of the vector is `floor` or more.
pub open spec fn spec_at_least(v: Vector, floor: Scalar) -> bool {
    v.x.raw >= floor.raw && v.y.raw >= floor.raw && v.z.raw >= floor.raw
}

impl Material {
    /// The material sends out one or more in every channel by itself, and
    /// reflects no channel negatively.
    pub open spec fn spec_bright(self) -> bool {
        &&& spec_at_least(self.spec_emission(), Scalar::spec_one())
        &&& spec_at_least(self.spec_albedo(), Scalar::spec_zero())
    }
}

impl SceneElement {
    /// Every shape below the element has a bright material.
    pub open spec fn spec_bright(self) -> bool
        decreases self,
    {
        match self {
            SceneElement::Sphere(sphere) => sphere.material.spec_bright(),
            SceneElement::Triangle(triangle) => triangle.material.spec_bright(),
            SceneElement::Node(node) => node.left.spec_bright() && node.right.spec_bright(),
            SceneElement::Empty(_) => true,
        }
    }
}

/// A collision below an element whose shapes are all bright has a bright
/// material.
pub proof fn lemma_bright_collision(root: SceneElement, ray: Ray, max_distance: Scalar)
    requires
        root.spec_bright(),
    ensures
        root.spec_collide(ray, max_distance) matches Some(info) ==> info.material.spec_bright(),
    decreases root,
{
    reveal_with_fuel(SceneElement::spec_collide, 1);
    reveal(Sphere::spec_collide);
    reveal(Triangle::spec_collide);
    match root {
        SceneElement::Node(node) => {
            lemma_bright_collision(*node.left, ray, max_distance);
            lemma_bright_collision(*node.right, ray, max_distance);
            if let Some(near) = node.left.spec_collide(ray, max_distance) {
                lemma_bright_collision(*node.right, ray, near.distance);
            }
            if let Some(near) = node.right.spec_collide(ray, max_distance) {
                lemma_bright_collision(*node.left, ray, near.distance);
            }
        },
        _ => {},
    }
}

/// The sum of colours that are one or more in every channel is as many
/// times one or more in every channel, as far as the numbers reach.
pub proof fn lemma_sum_of_bright(colors: Seq<Vector>)
    requires
        forall|i: int| 0 <= i < colors.len() ==> spec_at_least(#[trigger] colors[i], Scalar::spec_one()),
    ensures
        spec_at_least(spec_sum(colors), Scalar::spec_from_count(colors.len())),
    decreases colors.len(),
{
    if colors.len() > 0 {
        let front = colors.drop_last();
        assert forall|i: int| 0 <= i < front.len() implies spec_at_least(
            #[trigger] front[i],
            Scalar::spec_one(),
        ) by {
            assert(front[i] == colors[i]);
        }
        lemma_sum_of_bright(front);
        assert(spec_at_least(colors.last(), Scalar::spec_one()));
        assert(front.len() * ONE_RAW + ONE_RAW == colors.len() * ONE_RAW) by (nonlinear_arith)
            requires
                front.len() + 1 == colors.len(),
        ;
    }
}

/// The average of one or more colours that are one or more in every
/// channel is white: exactly one in every channel.
pub proof fn lemma_average_of_bright(colors: Seq<Vector>)
    requires
        colors.len() >= 1,
        forall|i: int| 0 <= i < colors.len() ==> spec_at_least(#[trigger] colors[i], Scalar::spec_one()),
    ensures
        spec_average(colors) == Vector::spec_uniform(Scalar::spec_one()),
{
    lemma_sum_of_bright(colors);
    let sum = spec_sum(colors);
    let count = Scalar::spec_from_count(colors.len());
    assert(count.raw > 0) by (nonlinear_arith)
        requires
            count.raw == saturate(colors.len() * ONE_RAW),
            colors.len() >= 1,
    ;
    lemma_div_at_least_one(sum.x, count);
    lemma_div_at_least_one(sum.y, count);
    lemma_div_at_least_one(sum.z, count);
}

/// A collision below an element that holds no light has a material that
/// sends out none.
pub proof fn lemma_dark_collision(root: SceneElement, ray: Ray, max_distance: Scalar)
    requires
        root.spec_dark(),
    ensures
        root.spec_collide(ray, max_distance) matches Some(info) ==> info.material.spec_emission()
            == Vector::spec_zero(),
    decreases root,
{
    reveal_with_fuel(SceneElement::spec_collide, 1);
    reveal(Sphere::spec_collide);
    reveal(Triangle::spec_collide);
    match root {
        SceneElement::Node(node) => {
            lemma_dark_collision(*node.left, ray, max_distance);
            lemma_dark_collision(*node.right, ray, max_distance);
            if let Some(near) = node.left.spec_collide(ray, max_distance) {
                lemma_dark_collision(*node.right, ray, near.distance);
            }
            if let Some(near) = node.right.spec_collide(ray, max_distance) {
                lemma_dark_collision(*node.left, ray, near.distance);
            }
        },
        _ => {},
    }
}

/// An element holds no light exactly when none of the shapes below it
/// sends out light.
pub proof fn lemma_dark_by_shape(root: SceneElement)
    ensures
        root.spec_dark() <==> forall|i: int|
            0 <= i < root.spec_shapes().len() ==> (#[trigger] root.spec_shapes()[i]).spec_dark(),
    decreases root,
{
    match root {
        SceneElement::Node(node) => {
            lemma_dark_by_shape(*node.left);
            lemma_dark_by_shape(*node.right);
            let left = node.left.spec_shapes();
            let right = node.right.spec_shapes();
            let all = root.spec_shapes();
            assert forall|i: int| 0 <= i < left.len() implies #[trigger] left[i] == all[i] by {}
            assert forall|i: int| 0 <= i < right.len() implies #[trigger] right[i] == all[left.len()
                + i] by {}
            if root.spec_dark() {
                assert forall|i: int| 0 <= i < all.len() implies (#[trigger] all[i]).spec_dark() by {
                    if i < left.len() {
                        assert(all[i] == left[i]);
                    } else {
                        assert(all[i] == right[i - left.len()]);
                    }
                }
            }
            if forall|i: int| 0 <= i < all.len() ==> (#[trigger] all[i]).spec_dark() {
                assert forall|i: int| 0 <= i < left.len() implies (#[trigger] left[i]).spec_dark() by {
                    assert(left[i] == all[i]);
                }
                assert forall|i: int| 0 <= i < right.len() implies (
                #[trigger] right[i]).spec_dark() by {
                    assert(right[i] == all[left.len() + i]);
                }
            }
        },
        SceneElement::Empty(_) => {},
        _ => {
            assert(root.spec_shapes()[0] == root);
        },
    }
}

/// All shapes below an element are bright exactly when every one of them
/// is.
pub proof fn lemma_bright_by_shape(root: SceneElement)
    ensures
        root.spec_bright() <==> forall|i: int|
            0 <= i < root.spec_shapes().len() ==> (#[trigger] root.spec_shapes()[i]).spec_bright(),
    decreases root,
{
    match root {
        SceneElement::Node(node) => {
            lemma_bright_by_shape(*node.left);
            lemma_bright_by_shape(*node.right);
            let left = node.left.spec_shapes();
            let right = node.right.spec_shapes();
            let all = root.spec_shapes();
            assert forall|i: int| 0 <= i < left.len() implies #[trigger] left[i] == all[i] by {}
            assert forall|i: int| 0 <= i < right.len() implies #[trigger] right[i] == all[left.len()
                + i] by {}
            if root.spec_bright() {
                assert forall|i: int| 0 <= i < all.len() implies (#[trigger] all[i]).spec_bright() by {
                    if i < left.len() {
                        assert(all[i] == left[i]);
                    } else {
                        assert(all[i] == right[i - left.len()]);
                    }
                }
            }
            if forall|i: int| 0 <= i < all.len() ==> (#[trigger] all[i]).spec_bright() {
                assert forall|i: int| 0 <= i < left.len() implies (#[trigger] left[i]).spec_bright() by {
                    assert(left[i] == all[i]);
                }
                assert forall|i: int| 0 <= i < right.len() implies (
                #[trigger] right[i]).spec_bright() by {
                    assert(right[i] == all[left.len() + i]);
                }
            }
        },
        SceneElement::Empty(_) => {},
        _ => {
            assert(root.spec_shapes()[0] == root);
        },
    }
}

/// No ray collides with the hierarchy of an empty scene.
pub proof fn lemma_empty_never_collides(root: SceneElement, ray: Ray, max_distance: Scalar)
    requires
        root is Empty,
    ensures
        root.spec_collide(ray, max_distance) is None,
{
    reveal_with_fuel(SceneElement::spec_collide, 1);
}

/// A scene made ready for rendering: the camera, the hierarchy of bounding
/// boxes over the shapes, and the settings.
#[derive(Debug)]
pub struct Raytracer {
    pub camera: Camera,
    pub bvh: SceneElement,
    pub config: Config,
}

impl Raytracer {
    /// The point from which the path goes on after a collision: the point
    /// of the collision, moved off the surface along the normal by the
    /// tolerance, so that the next ray does not strike the same surface
    /// where it starts.
    pub open spec fn spec_leaving_point(ray: Ray, info: CollisionInfo) -> Vector {
        ray.spec_at(info.distance).spec_add(info.normal.spec_mul(spec_epsilon()))
    }

    /// The light that arrives along `ray`, where the path takes the random
    /// directions `scatter` at the surfaces it strikes, one after the other,
    /// and ends when they are used up. A ray that strikes nothing brings the
    /// colour of the void. One that strikes a surface brings what the
    /// surface emits and, while directions are left, what arrives along the
    /// scattered ray, weakened channel by channel by the albedo of the
    /// surface.
    pub open spec fn spec_radiance(self, ray: Ray, scatter: Seq<Vector>) -> Vector
        decreases scatter.len(),
    {
        match self.bvh.spec_collide(ray, Scalar::spec_infinity()) {
            None => self.config.void,
            Some(info) => if scatter.len() == 0 {
                info.material.spec_emission()
            } else {
                let next = info.material.spec_scatter(
                    ray,
                    Self::spec_leaving_point(ray, info),
                    info.normal,
                    scatter[0],
                );
                info.material.spec_emission().spec_add(
                    self.spec_radiance(next, scatter.skip(1)).spec_hadamard(
                        info.material.spec_albedo(),
                    ),
                )
            },
        }
    }

    /// `scatter` holds `bounces` directions, each a possible outcome of a
    /// random draw.
    pub open spec fn spec_is_draw(scatter: Seq<Vector>, bounces: u8) -> bool {
        &&& scatter.len() == bounces
        &&& forall|i: int| 0 <= i < scatter.len() ==> (#[trigger] scatter[i]).spec_is_random()
    }

    /// `color` is a possible outcome of tracing `ray` with `bounces`
    /// bounces.
    pub open spec fn spec_is_sample(self, ray: Ray, bounces: u8, color: Vector) -> bool {
        exists|scatter: Seq<Vector>|
            Self::spec_is_draw(scatter, bounces) && color == #[trigger] self.spec_radiance(
                ray,
                scatter,
            )
    }

    /// `rays` and `colors` are a possible course of sampling the pixel
    /// `(x, y)`: as many rays of the camera through the pixel as the
    /// settings ask for, and for each the outcome of tracing it.
    pub open spec fn spec_sampled(self, x: u32, y: u32, rays: Seq<Ray>, colors: Seq<Vector>) -> bool {
        &&& rays.len() == self.config.iterations
        &&& colors.len() == self.config.iterations
        &&& forall|i: int|
            0 <= i < rays.len() ==> self.camera.spec_is_ray(x, y, #[trigger] rays[i])
                && self.spec_is_sample(rays[i], self.config.bounces, colors[i])
    }

    /// `color` is a possible colour of the pixel `(x, y)`: the average of
    /// the colours of some course of sampling it.
    pub open spec fn spec_is_pixel(self, x: u32, y: u32, color: Vector) -> bool {
        exists|rays: Seq<Ray>, colors: Seq<Vector>| #[trigger]
            self.spec_sampled(x, y, rays, colors) && color == spec_average(colors)
    }

    /// `bytes` are possible bytes of the pixel `(x, y)`: those of one of its
    /// possible colours.
    pub open spec fn spec_is_rendered(self, x: u32, y: u32, bytes: Seq<u8>) -> bool {
        exists|color: Vector| #[trigger]
            self.spec_is_pixel(x, y, color) && bytes == spec_to_rgb(color)
    }

    /// Sets up the camera of the settings, builds the hierarchy over the
    /// shapes of `scene`, and keeps the settings with them.
    pub fn new(scene: Vec<SceneElement>, config: Config) -> (r: Raytracer)
        ensures
            r.config == config,
            r.camera == Camera::spec_new(config),
            spec_built(r.bvh, scene@),
            scene.len() == 0 ==> r.bvh is Empty,
            (forall|i: int| 0 <= i < scene.len() ==> (#[trigger] scene[i]).wf()) ==> r.bvh.wf(),
            (forall|i: int| 0 <= i < scene.len() ==> (#[trigger] scene[i]).spec_is_shape())
                ==> r.bvh.spec_shapes().to_multiset() == scene@.to_multiset(),
    {
        Raytracer { camera: Camera::new(&config), bvh: build_bvh(scene), config }
    }

    /// The light that arrives along `ray` on the path that takes the given
    /// directions at the surfaces it strikes.
    pub fn radiance(&self, ray: &Ray, scatter: &Vec<Vector>) -> (r: Vector)
        ensures
            r == self.spec_radiance(*ray, scatter@),
    {
        assert(scatter@.skip(0) =~= scatter@);
        self.radiance_from(ray, scatter, 0)
    }

    /// The light that arrives along `ray` on the path that takes the given
    /// directions from the one at `start` on.
    fn radiance_from(&self, ray: &Ray, scatter: &Vec<Vector>, start: usize) -> (r: Vector)
        requires
            start <= scatter.len(),
        ensures
            r == self.spec_radiance(*ray, scatter@.skip(start as int)),
        decreases scatter.len() - start,
    {
        match self.bvh.collide(ray, Scalar::infinity()) {
            None => self.config.void,
            Some(info) => {
                if start == scatter.len() {
                    return info.material.emission();
                }
                let intersection = ray.at(info.distance).add(info.normal.mul(epsilon()));
                let next = info.material.scatter(ray, &intersection, &info.normal, scatter[start]);
                proof {
                    assert(scatter@.skip(start as int).skip(1) =~= scatter@.skip(start + 1));
                }
                let reflected = self.radiance_from(&next, scatter, start + 1).hadamard(
                    &info.material.albedo(),
                );
                info.material.emission().add(reflected)
            },
        }
    }

    /// Estimates the light that arrives along `ray` by following one path
    /// of at most `bounces` bounces, with directions drawn at random. With
    /// no bounce left the outcome is what the struck surface emits, and
    /// nothing else; a ray that strikes nothing brings the colour of the
    /// void.
    pub fn raytrace(&self, ray: &Ray, bounces: u8) -> (r: Vector)
        ensures
            self.spec_is_sample(*ray, bounces, r),
            self.bvh.spec_collide(*ray, Scalar::spec_infinity()) is None ==> r == self.config.void,
            bounces == 0 ==> (self.bvh.spec_collide(*ray, Scalar::spec_infinity()) matches Some(info)
                ==> r == info.material.spec_emission()),
        decreases bounces,
    {
        // Find the closest collision.
        let collision = self.bvh.collide(ray, Scalar::infinity());
        match collision {
            None => {
                proof {
                    lemma_mul_zero(Scalar::spec_zero());
                    let still = Vector::spec_on_sphere(Scalar::spec_zero(), Scalar::spec_zero());
                    let scatter = Seq::new(bounces as nat, |i: int| still);
                    assert(Self::spec_is_draw(scatter, bounces));
                    assert(self.config.void == self.spec_radiance(*ray, scatter));
                }
                self.config.void
            },
            Some(info) => {
                if bounces == 0 {
                    proof {
                        let scatter = Seq::<Vector>::empty();
                        assert(Self::spec_is_draw(scatter, bounces));
                        assert(info.material.spec_emission() == self.spec_radiance(*ray, scatter));
                    }
                    return info.material.emission();
                }
                // Moving the point off the surface prevents shadow acne.
                let intersection = ray.at(info.distance).add(info.normal.mul(epsilon()));

                let emitted = info.material.emission();
                let reflected_ray = info.material.reflect(ray, &intersection, &info.normal);
                let traced = self.raytrace(&reflected_ray, bounces - 1);
                let reflected = traced.hadamard(&info.material.albedo());
                proof {
                    let random = choose|random: Vector|
                        random.spec_is_random() && reflected_ray
                            == #[trigger] info.material.spec_scatter(
                            *ray,
                            intersection,
                            info.normal,
                            random,
                        );
                    let rest = choose|rest: Seq<Vector>|
                        Self::spec_is_draw(rest, (bounces - 1) as u8) && traced
                            == #[trigger] self.spec_radiance(reflected_ray, rest);
                    let scatter = seq![random] + rest;
                    assert(scatter.skip(1) =~= rest);
                    assert(Self::spec_is_draw(scatter, bounces));
                    assert(emitted.spec_add(reflected) == self.spec_radiance(*ray, scatter));
                }
                emitted.add(reflected)
            },
        }
    }

    /// The colour of the pixel `(x, y)`: the mean of as many estimates as
    /// the settings ask for, each along a fresh ray of the camera through
    /// the pixel, limited to the interval from zero to one.
    pub fn pixel_color(&self, x: u32, y: u32) -> (r: Vector)
        ensures
            self.spec_is_pixel(x, y, r),
    {
        let mut colors: Vec<Vector> = Vec::new();
        let ghost mut rays: Seq<Ray> = Seq::empty();
        let mut i: u32 = 0;
        while i < self.config.iterations
            invariant
                i <= self.config.iterations,
                colors.len() == i,
                rays.len() == i,
                forall|j: int|
                    0 <= j < rays.len() ==> self.camera.spec_is_ray(x, y, #[trigger] rays[j])
                        && self.spec_is_sample(rays[j], self.config.bounces, colors[j]),
            decreases self.config.iterations - i,
        {
            let ray = self.camera.ray(x, y);
            let color = self.raytrace(&ray, self.config.bounces);
            colors.push(color);
            proof {
                rays = rays.push(ray);
            }
            i += 1;
        }
        proof {
            assert(self.spec_sampled(x, y, rays, colors@));
        }
        average(&colors)
    }

    /// The bytes of the pixels of the column `x` of the picture, from top
    /// to bottom: the share of the picture that one worker renders, which
    /// depends on no other share.
    pub fn column(&self, x: u32) -> (r: Vec<[u8; 3]>)
        ensures
            r.len() == self.config.height,
            forall|y: int|
                0 <= y < r.len() ==> self.spec_is_rendered(x, y as u32, #[trigger] r[y]@),
    {
        let mut pixels: Vec<[u8; 3]> = Vec::new();
        let mut y: u32 = 0;
        while y < self.config.height
            invariant
                y <= self.config.height,
                pixels.len() == y,
                forall|k: int|
                    0 <= k < pixels.len() ==> self.spec_is_rendered(
                        x,
                        k as u32,
                        #[trigger] pixels[k]@,
                    ),
            decreases self.config.height - y,
        {
            let color = self.pixel_color(x, y);
            let bytes = to_rgb(&color);
            proof {
                assert(self.spec_is_pixel(x, y, color) && bytes@ == spec_to_rgb(color));
                assert(self.spec_is_rendered(x, y, bytes@));
            }
            pixels.push(bytes);
            y += 1;
        }
        pixels
    }
}

/// In a scene whose shapes are all bright, under a void that is negative in
/// no channel, the light along a ray is negative in no channel, and it is
/// one or more in every channel where the ray strikes a shape, whatever
/// directions are drawn.
pub proof fn lemma_bright_radiance(tracer: Raytracer, ray: Ray, scatter: Seq<Vector>)
    requires
        tracer.bvh.spec_bright(),
        spec_at_least(tracer.config.void, Scalar::spec_zero()),
    ensures
        spec_at_least(tracer.spec_radiance(ray, scatter), Scalar::spec_zero()),
        tracer.bvh.spec_collide(ray, Scalar::spec_infinity()) is Some ==> spec_at_least(
            tracer.spec_radiance(ray, scatter),
            Scalar::spec_one(),
        ),
    decreases scatter.len(),
{
    lemma_bright_collision(tracer.bvh, ray, Scalar::spec_infinity());
    match tracer.bvh.spec_collide(ray, Scalar::spec_infinity()) {
        None => {},
        Some(info) => {
            if scatter.len() > 0 {
                let next = info.material.spec_scatter(
                    ray,
                    Raytracer::spec_leaving_point(ray, info),
                    info.normal,
                    scatter[0],
                );
                lemma_bright_radiance(tracer, next, scatter.skip(1));
                let onward = tracer.spec_radiance(next, scatter.skip(1));
                let albedo = info.material.spec_albedo();
                lemma_mul_not_negative(onward.x, albedo.x);
                lemma_mul_not_negative(onward.y, albedo.y);
                lemma_mul_not_negative(onward.z, albedo.z);
            }
        },
    }
}

/// A pixel all of whose camera rays strike a shape is white, exactly one in
/// every channel, in a scene whose shapes all send out one or more in every
/// channel: whatever the number of samples, from one on, the number of
/// bounces and the directions drawn. The void and the albedo of the shapes
/// must be negative in no channel.
pub proof fn lemma_bright_pixel_is_white(tracer: Raytracer, x: u32, y: u32, color: Vector)
    requires
        tracer.spec_is_pixel(x, y, color),
        tracer.config.iterations >= 1,
        tracer.bvh.spec_bright(),
        spec_at_least(tracer.config.void, Scalar::spec_zero()),
        forall|ray: Ray| #[trigger]
            tracer.camera.spec_is_ray(x, y, ray) ==> tracer.bvh.spec_collide(
                ray,
                Scalar::spec_infinity(),
            ) is Some,
    ensures
        color == Vector::spec_uniform(Scalar::spec_one()),
{
    let (rays, colors) = choose|rays: Seq<Ray>, colors: Seq<Vector>| #[trigger]
        tracer.spec_sampled(x, y, rays, colors) && color == spec_average(colors);
    assert forall|i: int| 0 <= i < colors.len() implies spec_at_least(
        #[trigger] colors[i],
        Scalar::spec_one(),
    ) by {
        assert(tracer.camera.spec_is_ray(x, y, rays[i]));
        assert(tracer.spec_is_sample(rays[i], tracer.config.bounces, colors[i]));
        let scatter = choose|scatter: Seq<Vector>|
            Raytracer::spec_is_draw(scatter, tracer.config.bounces) && colors[i]
                == #[trigger] tracer.spec_radiance(rays[i], scatter);
        lemma_bright_radiance(tracer, rays[i], scatter);
    }
    lemma_average_of_bright(colors);
}

/// In a scene without a shape every ray brings the colour of the void,
/// whatever directions are drawn.
pub proof fn lemma_empty_scene_shows_void(tracer: Raytracer, ray: Ray, scatter: Seq<Vector>)
    requires
        tracer.bvh is Empty,
    ensures
        tracer.spec_radiance(ray, scatter) == tracer.config.void,
{
    lemma_empty_never_collides(tracer.bvh, ray, Scalar::spec_infinity());
}

/// With no direction left to take, a ray that strikes a surface brings
/// exactly what that surface emits.
pub proof fn lemma_last_bounce_is_emission(tracer: Raytracer, ray: Ray)
    ensures
        tracer.bvh.spec_collide(ray, Scalar::spec_infinity()) matches Some(info)
            ==> tracer.spec_radiance(ray, Seq::empty()) == info.material.spec_emission(),
{
}

/// Where no shape sends out light and the void is black, no light arrives
/// along any ray, whatever directions are drawn.
pub proof fn lemma_dark_scene_is_black(tracer: Raytracer, ray: Ray, scatter: Seq<Vector>)
    requires
        tracer.bvh.spec_dark(),
        tracer.config.void == Vector::spec_zero(),
    ensures
        tracer.spec_radiance(ray, scatter) == Vector::spec_zero(),
    decreases scatter.len(),
{
    lemma_dark_collision(tracer.bvh, ray, Scalar::spec_infinity());
    match tracer.bvh.spec_collide(ray, Scalar::spec_infinity()) {
        None => {},
        Some(info) => {
            if scatter.len() > 0 {
                let next = info.material.spec_scatter(
                    ray,
                    Raytracer::spec_leaving_point(ray, info),
                    info.normal,
                    scatter[0],
                );
                lemma_dark_scene_is_black(tracer, next, scatter.skip(1));
                let albedo = info.material.spec_albedo();
                lemma_mul_zero(albedo.x);
                lemma_mul_zero(albedo.y);
                lemma_mul_zero(albedo.z);
            }
        },
    }
}

} // verus!
