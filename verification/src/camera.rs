//! The camera: it turns a pixel of the picture into a ray through the
//! scene.
use vstd::prelude::*;
use crate::config::Config;
use crate::geometry::ray::Ray;
use crate::geometry::scalar::{Scalar, ONE_RAW};
use crate::geometry::vector::{random_bits, signed_fraction, Vector};

verus! {

/// The raw representation of the number one half.
pub const HALF_RAW: i64 = 0x8000_0000;

/// The raw representation of the number one quarter.
pub const QUARTER_RAW: i64 = 0x4000_0000;

/// The random part of a camera ray. The ray starts at a point of the lens,
/// which lies `lens_radius` of the way from the centre of the lens to its
/// rim, in the direction `(lens_cos, lens_sin)`; and it aims at a point of
/// the pixel that lies `across` and `down` from the centre of the pixel, in
/// widths of a pixel.
#[derive(Clone, Copy, PartialEq, Eq, Structural, Debug)]
pub struct Jitter {
    pub lens_radius: Scalar,
    pub lens_cos: Scalar,
    pub lens_sin: Scalar,
    pub across: Scalar,
    pub down: Scalar,
}

/// The point of the unit circle in the direction of the point `(a, b)`.
pub open spec fn spec_on_circle(a: Scalar, b: Scalar) -> (Scalar, Scalar) {
    let length = a.spec_mul(a).spec_add(b.spec_mul(b)).spec_sqrt();
    (a.spec_div(length), b.spec_div(length))
}

/// The point of the unit circle in the direction of the point `(a, b)`.
pub fn on_circle(a: Scalar, b: Scalar) -> (r: (Scalar, Scalar))
    ensures
        r == spec_on_circle(a, b),
{
    let length = a.mul(a).add(b.mul(b)).sqrt();
    (a.div(length), b.div(length))
}

/// The number from zero up to one that 32 bits stand for.
pub open spec fn spec_fraction(bits: u32) -> Scalar {
    Scalar { raw: bits as i64 }
}

/// The number from zero up to one that 32 bits stand for.
pub fn fraction(bits: u32) -> (r: Scalar)
    ensures
        r == spec_fraction(bits),
        0 <= r.raw < ONE_RAW,
{
    Scalar { raw: bits as i64 }
}

impl Jitter {
    /// The jitter is a possible outcome of `draw`: the lens radius lies
    /// from zero up to one, the direction on the lens belongs to a point
    /// inside the unit disc and at least half way out from its centre, or
    /// points along the first axis, and the two offsets lie from minus a
    /// half up to a half.
    pub open spec fn spec_is_draw(self) -> bool {
        &&& 0 <= self.lens_radius.raw < ONE_RAW
        &&& -HALF_RAW <= self.across.raw < HALF_RAW
        &&& -HALF_RAW <= self.down.raw < HALF_RAW
        &&& {
            ||| (self.lens_cos, self.lens_sin) == (Scalar::spec_one(), Scalar::spec_zero())
            ||| exists|a: Scalar, b: Scalar|
                {
                    &&& Vector::spec_in_disc(a, b)
                    &&& a.spec_mul(a).spec_add(b.spec_mul(b)).raw >= QUARTER_RAW
                    &&& (self.lens_cos, self.lens_sin) == #[trigger] spec_on_circle(a, b)
                }
        }
    }

    /// The jitter that changes nothing: the ray starts at the centre of the
    /// lens and aims at the centre of the pixel.
    pub fn none() -> (r: Jitter)
        ensures
            r == (Jitter {
                lens_radius: Scalar::spec_zero(),
                lens_cos: Scalar::spec_one(),
                lens_sin: Scalar::spec_zero(),
                across: Scalar::spec_zero(),
                down: Scalar::spec_zero(),
            }),
            r.spec_is_draw(),
    {
        Jitter {
            lens_radius: Scalar::zero(),
            lens_cos: Scalar::one(),
            lens_sin: Scalar::zero(),
            across: Scalar::zero(),
            down: Scalar::zero(),
        }
    }

    /// Draws the random part of a camera ray: a radius and a direction on
    /// the lens, and an offset within the pixel. The direction comes from
    /// points of the enclosing square, drawn until one falls inside the unit
    /// disc and at least half way out from its centre, where rounding
    /// hardly bends the direction; after 32 draws in vain it points along
    /// the first axis.
    pub fn draw() -> (r: Jitter)
        ensures
            r.spec_is_draw(),
    {
        let lens_radius = fraction(random_bits());
        let half = Scalar { raw: HALF_RAW };
        let across = fraction(random_bits()).sub(half);
        let down = fraction(random_bits()).sub(half);
        let mut tries: u32 = 0;
        while tries < 32
            invariant
                tries <= 32,
                0 <= lens_radius.raw < ONE_RAW,
                -HALF_RAW <= across.raw < HALF_RAW,
                -HALF_RAW <= down.raw < HALF_RAW,
            decreases 32 - tries,
        {
            let a = signed_fraction(random_bits());
            let b = signed_fraction(random_bits());
            if Vector::in_disc(a, b) && a.mul(a).add(b.mul(b)).raw >= QUARTER_RAW {
                let (lens_cos, lens_sin) = on_circle(a, b);
                assert((lens_cos, lens_sin) == spec_on_circle(a, b));
                return Jitter { lens_radius, lens_cos, lens_sin, across, down };
            }
            tries += 1;
        }
        Jitter { lens_radius, lens_cos: Scalar::one(), lens_sin: Scalar::zero(), across, down }
    }
}

/// A camera: where it stands, the three directions of its own frame, the
/// distance to the plane of focus, the radius of its lens, and the picture
/// that it takes.
#[derive(Clone, Copy, PartialEq, Eq, Structural, Debug)]
pub struct Camera {
    pub position: Vector,
    pub forward: Vector,
    pub right: Vector,
    pub up: Vector,
    pub focus_distance: Scalar,
    pub defocus_radius: Scalar,
    pub width: u32,
    pub height: u32,
    pub fov_tangent: Scalar,
}

impl Camera {
    /// The camera of the settings: it looks along `forward`, the unit
    /// vector from its position to the point looked at; `right` and `up`
    /// are unit vectors at right angles to it and to each other; the plane
    /// of focus passes through the point looked at; and the lens is as wide
    /// as it appears from there under the defocus angle.
    pub open spec fn spec_new(config: Config) -> Camera {
        let toward = config.look_at.spec_sub(config.camera_position);
        let forward = toward.spec_normalize();
        let right = forward.spec_cross(config.view_up).spec_normalize();
        let up = right.spec_cross(forward).spec_normalize();
        let focus_distance = toward.spec_magnitude();
        Camera {
            position: config.camera_position,
            forward,
            right,
            up,
            focus_distance,
            defocus_radius: focus_distance.spec_mul(config.defocus_sine),
            width: config.width,
            height: config.height,
            fov_tangent: config.fov_tangent,
        }
    }

    /// The point of the lens, in the frame of the camera, at which a ray
    /// with the given jitter starts.
    pub open spec fn spec_lens_point(self, jitter: Jitter) -> Vector {
        let radius = self.defocus_radius.spec_mul(jitter.lens_radius);
        Vector {
            x: radius.spec_mul(jitter.lens_cos),
            y: radius.spec_mul(jitter.lens_sin),
            z: Scalar::spec_zero(),
        }
    }

    /// The point of the plane of focus, in the frame of the camera, at
    /// which the ray through the pixel `(x, y)` with the given jitter aims.
    /// The picture spans from minus to plus the tangent of half the field
    /// of view across, and as much divided by the aspect ratio down; the
    /// pixel `(0, 0)` lies at the top left.
    pub open spec fn spec_focus_point(self, x: u32, y: u32, jitter: Jitter) -> Vector {
        let one = Scalar::spec_one();
        let two = Scalar::spec_from_int(2);
        let half = Scalar { raw: HALF_RAW };
        let width = Scalar::spec_from_count(self.width as nat);
        let height = Scalar::spec_from_count(self.height as nat);
        let across = Scalar::spec_from_count(x as nat).spec_add(half).spec_add(
            jitter.across,
        ).spec_mul(two).spec_div(width);
        let down = Scalar::spec_from_count(y as nat).spec_add(half).spec_add(jitter.down).spec_mul(
            two,
        ).spec_div(height);
        let aspect_ratio = width.spec_div(height);
        Vector {
            x: self.fov_tangent.spec_mul(one.spec_neg().spec_add(across)),
            y: self.fov_tangent.spec_div(aspect_ratio).spec_mul(one.spec_sub(down)),
            z: one.spec_neg(),
        }.spec_mul(self.focus_distance)
    }

    /// The ray through the pixel `(x, y)` with the given jitter: from the
    /// point of the lens toward the point of the plane of focus, both taken
    /// from the frame of the camera into that of the scene, with a
    /// direction of length one.
    pub open spec fn spec_ray_with(self, x: u32, y: u32, jitter: Jitter) -> Ray {
        let start = self.spec_lens_point(jitter);
        let direction = self.spec_focus_point(x, y, jitter).spec_sub(start);
        let world_position = self.position.spec_add(self.right.spec_mul(start.x)).spec_add(
            self.up.spec_mul(start.y),
        );
        let world_direction = self.right.spec_mul(direction.x).spec_add(
            self.up.spec_mul(direction.y),
        ).spec_sub(self.forward.spec_mul(direction.z));
        Ray { origin: world_position, direction: world_direction.spec_normalize() }
    }

    /// `ray` is a possible outcome of `ray` for the pixel `(x, y)`.
    pub open spec fn spec_is_ray(self, x: u32, y: u32, ray: Ray) -> bool {
        exists|jitter: Jitter| jitter.spec_is_draw() && ray == #[trigger] self.spec_ray_with(x, y, jitter)
    }

    /// The camera of the settings.
    pub fn new(config: &Config) -> (r: Camera)
        ensures
            r == Self::spec_new(*config),
    {
        let toward = config.look_at.sub(config.camera_position);
        let forward = toward.normalize();
        let right = forward.cross(&config.view_up).normalize();
        let up = right.cross(&forward).normalize();
        let focus_distance = toward.magnitude();
        let defocus_radius = focus_distance.mul(config.defocus_sine);

        Camera {
            position: config.camera_position,
            forward,
            right,
            up,
            focus_distance,
            defocus_radius,
            width: config.width,
            height: config.height,
            fov_tangent: config.fov_tangent,
        }
    }

    /// The ray through the pixel `(x, y)` with the given jitter.
    pub fn ray_with(&self, x: u32, y: u32, jitter: &Jitter) -> (r: Ray)
        ensures
            r == self.spec_ray_with(x, y, *jitter),
    {
        // The start: a point of the lens.
        let radius = self.defocus_radius.mul(jitter.lens_radius);
        let start = Vector::new(
            radius.mul(jitter.lens_cos),
            radius.mul(jitter.lens_sin),
            Scalar::zero(),
        );

        // The end: a point of the plane of focus. The top left corner of the
        // picture lies at (-tangent, tangent / aspect ratio).
        let one = Scalar::one();
        let two = Scalar::from_int(2);
        let half = Scalar { raw: HALF_RAW };
        let width = Scalar::from_count(self.width as usize);
        let height = Scalar::from_count(self.height as usize);
        let across = Scalar::from_count(x as usize).add(half).add(jitter.across).mul(two).div(
            width,
        );
        let down = Scalar::from_count(y as usize).add(half).add(jitter.down).mul(two).div(height);
        let aspect_ratio = width.div(height);
        let end = Vector::new(
            self.fov_tangent.mul(one.neg().add(across)),
            self.fov_tangent.div(aspect_ratio).mul(one.sub(down)),
            one.neg(),
        ).mul(self.focus_distance);

        let direction = end.sub(start);

        // From the frame of the camera to that of the scene.
        let world_position = self.position.add(self.right.mul(start.x)).add(
            self.up.mul(start.y),
        );
        let world_direction = self.right.mul(direction.x).add(self.up.mul(direction.y)).sub(
            self.forward.mul(direction.z),
        );
        Ray::new(world_position, world_direction.normalize())
    }

    /// A ray through the pixel `(x, y)`, with a start on the lens and an aim
    /// within the pixel that are drawn at random: the first blurs what lies
    /// off the plane of focus, the second smooths the edges in the picture.
    pub fn ray(&self, x: u32, y: u32) -> (r: Ray)
        ensures
            self.spec_is_ray(x, y, r),
    {
        let jitter = Jitter::draw();
        self.ray_with(x, y, &jitter)
    }
}

} // verus!
