use caracol::camera::{fraction, on_circle, Camera, Jitter};
use caracol::config::Config;
use caracol::geometry::scalar::Scalar;
use caracol::geometry::vector::Vector;

fn fx(v: f64) -> Scalar {
    Scalar::from_raw((v * 4294967296.0).round() as i64)
}

fn vec3(x: f64, y: f64, z: f64) -> Vector {
    Vector::new(fx(x), fx(y), fx(z))
}

fn to_f64(s: Scalar) -> f64 {
    s.raw as f64 / 4294967296.0
}

fn near(v: Vector, x: f64, y: f64, z: f64) -> bool {
    (to_f64(v.x) - x).abs() < 1e-8 && (to_f64(v.y) - y).abs() < 1e-8 && (to_f64(v.z) - z).abs() < 1e-8
}

/// A square picture taken from `(0, 0, 2)` toward the origin, with a field
/// of view of ninety degrees.
fn square(pixels: u32, defocus_sine: f64) -> Config {
    let mut config = Config::default();
    config.width = pixels;
    config.height = pixels;
    config.fov_tangent = Scalar::one();
    config.camera_position = vec3(0.0, 0.0, 2.0);
    config.look_at = vec3(0.0, 0.0, 0.0);
    config.view_up = vec3(0.0, 1.0, 0.0);
    config.defocus_sine = fx(defocus_sine);
    config
}

fn jitter(lens_radius: f64, lens_cos: f64, lens_sin: f64, across: f64, down: f64) -> Jitter {
    Jitter {
        lens_radius: fx(lens_radius),
        lens_cos: fx(lens_cos),
        lens_sin: fx(lens_sin),
        across: fx(across),
        down: fx(down),
    }
}

#[test]
fn fraction_spans_zero_to_one() {
    assert_eq!(fraction(0), Scalar::zero());
    assert_eq!(fraction(1u32 << 31), fx(0.5));
    assert_eq!(fraction(u32::MAX).raw, (1i64 << 32) - 1);
}

#[test]
fn on_circle_scales_to_length_one() {
    assert_eq!(on_circle(fx(0.5), Scalar::zero()), (fx(1.0), fx(0.0)));
    assert_eq!(on_circle(Scalar::zero(), Scalar::zero()), (fx(0.0), fx(0.0)));
    assert_eq!(on_circle(Scalar::zero(), fx(-0.25)), (fx(0.0), fx(-1.0)));
    let (c, s) = on_circle(fx(0.375), fx(0.5));
    assert_eq!(c.raw, 2576980377);
    assert_eq!(s.raw, 3435973836);
}

#[test]
fn jitter_none_is_centred() {
    assert_eq!(Jitter::none(), jitter(0.0, 1.0, 0.0, 0.0, 0.0));
}

#[test]
fn jitter_draw_stays_in_range() {
    let first = Jitter::draw();
    let mut differs = false;
    let mut i = 0;
    while i < 1000 {
        let j = Jitter::draw();
        assert!(j.lens_radius.raw >= 0 && j.lens_radius.raw < 1i64 << 32);
        assert!(j.across.raw >= -(1i64 << 31) && j.across.raw < 1i64 << 31);
        assert!(j.down.raw >= -(1i64 << 31) && j.down.raw < 1i64 << 31);
        let length = to_f64(j.lens_cos).powi(2) + to_f64(j.lens_sin).powi(2);
        assert!((length - 1.0).abs() < 1e-6);
        if j != first {
            differs = true;
        }
        i += 1;
    }
    assert!(differs);
}

#[test]
fn camera_new_along_an_axis() {
    let camera = Camera::new(&square(2, 0.5));
    assert_eq!(camera.position, vec3(0.0, 0.0, 2.0));
    assert_eq!(camera.forward, vec3(0.0, 0.0, -1.0));
    assert_eq!(camera.right, vec3(1.0, 0.0, 0.0));
    assert_eq!(camera.up, vec3(0.0, 1.0, 0.0));
    assert_eq!(camera.focus_distance, fx(2.0));
    assert_eq!(camera.defocus_radius, fx(1.0));
    assert_eq!(camera.width, 2);
    assert_eq!(camera.height, 2);
    assert_eq!(camera.fov_tangent, Scalar::one());
}

#[test]
fn camera_new_with_the_default_settings() {
    let camera = Camera::new(&Config::default());
    let length = 25.25f64.sqrt();
    assert_eq!(camera.position, vec3(0.0, 1.5, 6.0));
    assert!(near(camera.forward, 0.0, -0.5 / length, -5.0 / length));
    assert!(near(camera.right, 1.0, 0.0, 0.0));
    assert!(near(camera.up, 0.0, 5.0 / length, -0.5 / length));
    assert!((to_f64(camera.focus_distance) - length).abs() < 1e-8);
    assert!((to_f64(camera.defocus_radius) - length * 0.02f64.sin()).abs() < 1e-8);
}

#[test]
fn ray_through_the_centre_of_a_single_pixel() {
    let mut config = square(1, 0.0);
    config.camera_position = vec3(1.0, 2.0, 5.0);
    config.look_at = vec3(1.0, 2.0, 0.0);
    let ray = Camera::new(&config).ray_with(0, 0, &Jitter::none());
    assert_eq!(ray.origin, vec3(1.0, 2.0, 5.0));
    assert_eq!(ray.direction, vec3(0.0, 0.0, -1.0));
}

#[test]
fn rays_through_the_four_pixels_of_a_square() {
    let camera = Camera::new(&square(2, 0.0));
    let d = 1.5f64.sqrt();
    let corners = [(0u32, 0u32, -0.5, 0.5), (1, 0, 0.5, 0.5), (0, 1, -0.5, -0.5), (1, 1, 0.5, -0.5)];
    for (x, y, across, up) in corners {
        let ray = camera.ray_with(x, y, &Jitter::none());
        assert_eq!(ray.origin, vec3(0.0, 0.0, 2.0));
        assert!(near(ray.direction, across / d, up / d, -1.0 / d));
    }
}

#[test]
fn ray_aims_at_the_jittered_point_of_the_pixel() {
    let camera = Camera::new(&square(2, 0.0));
    let ray = camera.ray_with(0, 0, &jitter(0.0, 1.0, 0.0, 0.5, -0.5));
    assert_eq!(ray.origin, vec3(0.0, 0.0, 2.0));
    assert!(near(ray.direction, 0.0, 1.0 / 2f64.sqrt(), -1.0 / 2f64.sqrt()));
    let corner = camera.ray_with(1, 1, &jitter(0.0, 1.0, 0.0, 0.5, 0.5));
    let d = 3f64.sqrt();
    assert!(near(corner.direction, 1.0 / d, -1.0 / d, -1.0 / d));
}

#[test]
fn ray_in_a_wide_picture_divides_the_height_by_the_aspect_ratio() {
    let mut config = square(4, 0.0);
    config.height = 2;
    let camera = Camera::new(&config);
    let ray = camera.ray_with(0, 0, &jitter(0.0, 1.0, 0.0, -0.5, -0.5));
    let d = (1.0f64 + 0.25 + 1.0).sqrt();
    assert!(near(ray.direction, -1.0 / d, 0.5 / d, -1.0 / d));
}

#[test]
fn ray_starts_on_the_lens_and_passes_through_the_point_in_focus() {
    let camera = Camera::new(&square(1, 0.5));
    let ray = camera.ray_with(0, 0, &jitter(0.5, 0.0, 1.0, 0.0, 0.0));
    assert_eq!(ray.origin, vec3(0.0, 0.5, 2.0));
    let d = (0.25f64 + 4.0).sqrt();
    assert!(near(ray.direction, 0.0, -0.5 / d, -2.0 / d));
    let side = camera.ray_with(0, 0, &jitter(1.0, -1.0, 0.0, 0.0, 0.0));
    assert_eq!(side.origin, vec3(-1.0, 0.0, 2.0));
    let d = (1.0f64 + 4.0).sqrt();
    assert!(near(side.direction, 1.0 / d, 0.0, -2.0 / d));
}

#[test]
fn ray_draws_its_jitter() {
    let camera = Camera::new(&Config::default());
    let first = camera.ray(960, 540);
    let mut differs = false;
    let mut i = 0;
    while i < 500 {
        let ray = camera.ray(960, 540);
        let length = to_f64(ray.direction.magnitude());
        assert!((length - 1.0).abs() < 1e-8);
        let along = to_f64(ray.direction.dot(&camera.forward));
        assert!(along > 0.999);
        let off = ray.origin.sub(camera.position);
        assert!(to_f64(off.magnitude()) <= to_f64(camera.defocus_radius) + 1e-8);
        if ray != first {
            differs = true;
        }
        i += 1;
    }
    assert!(differs);
}
