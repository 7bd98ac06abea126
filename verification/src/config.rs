//! Rendering settings.
use vstd::prelude::*;
use crate::geometry::scalar::Scalar;
use crate::geometry::vector::Vector;

verus! {

/// The raw value of the tolerance below which a number counts as zero,
/// about one millionth.
pub const EPSILON_RAW: i64 = 4295;

/// The tolerance below which a number counts as zero.
pub open spec fn spec_epsilon() -> Scalar {
    Scalar { raw: EPSILON_RAW }
}

/// The tolerance below which a number counts as zero.
pub fn epsilon() -> (r: Scalar)
    ensures
        r == spec_epsilon(),
{
    Scalar { raw: EPSILON_RAW }
}

/// The raw value of the tangent of thirty degrees, half the default field
/// of view.
pub const FOV_TANGENT_RAW: i64 = 2479700525;

/// The raw value of the sine of the default defocus angle, 0.02 radians.
pub const DEFOCUS_SINE_RAW: i64 = 85893619;

/// The settings of a rendering: the picture, the camera and the sampling.
#[derive(Clone, Copy, PartialEq, Eq, Structural, Debug)]
pub struct Config {
    /// The width of the picture in pixels.
    pub width: u32,
    /// The height of the picture in pixels.
    pub height: u32,
    /// The tangent of half the horizontal field of view.
    pub fov_tangent: Scalar,
    /// Where the camera stands.
    pub camera_position: Vector,
    /// The point that the camera looks at; it lies in the plane of focus.
    pub look_at: Vector,
    /// The direction that is up in the picture.
    pub view_up: Vector,
    /// The sine of the angle under which the lens appears from the point
    /// looked at; zero gives a picture that is sharp at every depth.
    pub defocus_sine: Scalar,
    /// The colour of a ray that strikes nothing.
    pub void: Vector,
    /// How many samples make up one pixel.
    pub iterations: u32,
    /// How often a ray is followed from one surface to the next.
    pub bounces: u8,
}

impl Config {
    /// The default settings: a picture of 1920 by 1080 pixels with a field
    /// of view of sixty degrees, seen from `(0, 1.5, 6)` toward `(0, 1, 1)`
    /// with the second axis up, a defocus angle of 0.02 radians, a black
    /// void, two hundred samples to the pixel and four bounces.
    pub open spec fn spec_default() -> Config {
        Config {
            width: 1920,
            height: 1080,
            fov_tangent: Scalar { raw: FOV_TANGENT_RAW },
            camera_position: Vector {
                x: Scalar::spec_zero(),
                y: Scalar { raw: 0x1_8000_0000 },
                z: Scalar::spec_from_int(6),
            },
            look_at: Vector {
                x: Scalar::spec_zero(),
                y: Scalar::spec_one(),
                z: Scalar::spec_one(),
            },
            view_up: Vector {
                x: Scalar::spec_zero(),
                y: Scalar::spec_one(),
                z: Scalar::spec_zero(),
            },
            defocus_sine: Scalar { raw: DEFOCUS_SINE_RAW },
            void: Vector::spec_zero(),
            iterations: 200,
            bounces: 4,
        }
    }

    /// The default settings with another number of samples, another number
    /// of bounces and another colour of the void.
    pub fn new(iterations: u32, bounces: u8, void: Vector) -> (r: Config)
        ensures
            r == (Config { iterations, bounces, void, ..Self::spec_default() }),
    {
        Config {
            width: 1920,
            height: 1080,
            fov_tangent: Scalar { raw: FOV_TANGENT_RAW },
            camera_position: Vector {
                x: Scalar::zero(),
                y: Scalar { raw: 0x1_8000_0000 },
                z: Scalar::from_int(6),
            },
            look_at: Vector { x: Scalar::zero(), y: Scalar::one(), z: Scalar::one() },
            view_up: Vector { x: Scalar::zero(), y: Scalar::one(), z: Scalar::zero() },
            defocus_sine: Scalar { raw: DEFOCUS_SINE_RAW },
            void,
            iterations,
            bounces,
        }
    }
}

impl Default for Config {
    /// The default settings.
    fn default() -> (r: Config)
        ensures
            r == Self::spec_default(),
    {
        Config::new(200, 4, Vector::zero())
    }
}

} // verus!
