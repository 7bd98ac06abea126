use caracol::geometry::hitbox::HitBox;
use caracol::geometry::ray::Ray;
use caracol::geometry::scalar::Scalar;
use caracol::geometry::vector::Vector;
use caracol::utils::utils::Axis;
use std::cmp::Ordering;

fn fx(v: f64) -> Scalar {
    Scalar::from_raw((v * 4294967296.0).round() as i64)
}

fn vec3(x: f64, y: f64, z: f64) -> Vector {
    Vector::new(fx(x), fx(y), fx(z))
}

fn cube(lo: f64, hi: f64) -> HitBox {
    HitBox::new(vec3(lo, lo, lo), vec3(hi, hi, hi))
}

fn ray(ox: f64, oy: f64, oz: f64, dx: f64, dy: f64, dz: f64) -> Ray {
    Ray::new(vec3(ox, oy, oz), vec3(dx, dy, dz))
}

#[test]
fn hitbox_new_keeps_corners_and_centre() {
    let b = HitBox::new(vec3(-1.0, 0.0, 2.0), vec3(3.0, 1.0, 2.0));
    assert_eq!(b.start, vec3(-1.0, 0.0, 2.0));
    assert_eq!(b.end, vec3(3.0, 1.0, 2.0));
    assert_eq!(b.center, vec3(1.0, 0.5, 2.0));
}

#[test]
fn hitbox_area_is_the_product_of_the_extents() {
    assert_eq!(HitBox::new(vec3(0.0, 0.0, 0.0), vec3(2.0, 3.0, 4.0)).area(), fx(24.0));
    assert_eq!(HitBox::new(vec3(-1.0, -1.0, -1.0), vec3(1.0, 0.5, 0.0)).area(), fx(3.0));
    assert_eq!(HitBox::new(vec3(0.0, 0.0, 0.0), vec3(2.0, 3.0, 0.0)).area(), Scalar::zero());
}

#[test]
fn hitbox_merge_is_componentwise_min_and_max() {
    let mut a = HitBox::new(vec3(0.0, -2.0, 1.0), vec3(1.0, 0.0, 5.0));
    let b = HitBox::new(vec3(-1.0, -1.0, 2.0), vec3(0.5, 3.0, 6.0));
    a.merge(&b);
    assert_eq!(a.start, vec3(-1.0, -2.0, 1.0));
    assert_eq!(a.end, vec3(1.0, 3.0, 6.0));
    assert_eq!(a.center, vec3(0.0, 0.5, 3.5));
}

#[test]
fn hitbox_merge_with_inner_box_changes_nothing() {
    let mut a = cube(-2.0, 2.0);
    let before = a;
    a.merge(&cube(-1.0, 1.0));
    assert_eq!(a, before);
    a.merge(&before);
    assert_eq!(a, before);
}

#[test]
fn hitbox_merge_commutes() {
    let a = HitBox::new(vec3(0.0, -2.0, 1.0), vec3(1.0, 0.0, 5.0));
    let b = HitBox::new(vec3(-1.0, -1.0, 2.0), vec3(0.5, 3.0, 6.0));
    let mut ab = a;
    ab.merge(&b);
    let mut ba = b;
    ba.merge(&a);
    assert_eq!(ab, ba);
}

#[test]
fn hitbox_compare_orders_by_centre() {
    let a = HitBox::new(vec3(0.0, 0.0, 0.0), vec3(2.0, 2.0, 2.0));
    let b = HitBox::new(vec3(1.0, -3.0, 0.5), vec3(3.0, 1.0, 1.5));
    assert_eq!(a.compare(&b, Axis::X), Ordering::Less);
    assert_eq!(b.compare(&a, Axis::X), Ordering::Greater);
    assert_eq!(a.compare(&b, Axis::Y), Ordering::Greater);
    assert_eq!(b.compare(&a, Axis::Y), Ordering::Less);
    assert_eq!(a.compare(&b, Axis::Z), Ordering::Equal);
    assert_eq!(a.compare(&a, Axis::X), Ordering::Equal);
}

#[test]
fn hitbox_key_is_the_sum_of_the_corners() {
    let b = HitBox::new(vec3(1.0, -3.0, 0.5), vec3(3.0, 1.0, 1.5));
    assert_eq!(b.key(Axis::X), fx(4.0));
    assert_eq!(b.key(Axis::Y), fx(-2.0));
    assert_eq!(b.key(Axis::Z), fx(2.0));
}

#[test]
fn hitbox_distance_is_squared_distance_to_the_centre() {
    let b = cube(-1.0, 1.0);
    assert_eq!(b.distance(&vec3(0.0, 0.0, 0.0)), Scalar::zero());
    assert_eq!(b.distance(&vec3(3.0, 4.0, 0.0)), fx(25.0));
    let c = HitBox::new(vec3(0.0, 0.0, 0.0), vec3(2.0, 2.0, 2.0));
    assert_eq!(c.distance(&vec3(1.0, 1.0, 3.0)), fx(4.0));
}

#[test]
fn intersects_ray_through_the_middle() {
    let b = cube(-1.0, 1.0);
    assert!(b.intersects(&ray(0.0, 0.0, 5.0, 0.0, 0.0, -1.0), Scalar::infinity()));
    assert!(b.intersects(&ray(-5.0, 0.5, 0.5, 1.0, 0.0, 0.0), Scalar::infinity()));
    assert!(b.intersects(&ray(3.0, 3.0, 3.0, -1.0, -1.0, -1.0), Scalar::infinity()));
}

#[test]
fn intersects_ray_that_passes_by() {
    let b = cube(-1.0, 1.0);
    assert!(!b.intersects(&ray(0.0, 2.0, 5.0, 0.0, 0.0, -1.0), Scalar::infinity()));
    assert!(!b.intersects(&ray(3.0, 3.0, 3.0, -1.0, -1.0, 0.5), Scalar::infinity()));
}

#[test]
fn intersects_box_behind_the_ray() {
    let b = cube(-1.0, 1.0);
    assert!(!b.intersects(&ray(0.0, 0.0, 5.0, 0.0, 0.0, 1.0), Scalar::infinity()));
}

#[test]
fn intersects_from_inside_the_box() {
    let b = cube(-1.0, 1.0);
    assert!(b.intersects(&ray(0.0, 0.0, 0.0, 0.0, 0.0, 1.0), Scalar::infinity()));
    assert!(b.intersects(&ray(0.5, -0.5, 0.0, 1.0, 2.0, 3.0), fx(0.001)));
}

#[test]
fn intersects_parallel_ray_outside_a_slab() {
    let b = cube(-1.0, 1.0);
    assert!(!b.intersects(&ray(1.5, 0.0, 5.0, 0.0, 0.0, -1.0), Scalar::infinity()));
    assert!(!b.intersects(&ray(0.0, -1.5, 5.0, 0.0, 0.0, -1.0), Scalar::infinity()));
    assert!(!b.intersects(&ray(5.0, 0.0, 1.5, -1.0, 0.0, 0.0), Scalar::infinity()));
    assert!(b.intersects(&ray(1.0, -1.0, 5.0, 0.0, 0.0, -1.0), Scalar::infinity()));
}

#[test]
fn intersects_direction_below_epsilon_counts_as_parallel() {
    let b = cube(-1.0, 1.0);
    let tiny = Scalar::from_raw(4294);
    let slanted = Ray::new(vec3(1.5, 0.0, 5.0), Vector::new(tiny.neg(), Scalar::zero(), fx(-1.0)));
    assert!(!b.intersects(&slanted, Scalar::infinity()));
    let at_epsilon = Scalar::from_raw(4295);
    let origin = Vector::new(Scalar::from_raw((1i64 << 32) + 4295), Scalar::zero(), Scalar::zero());
    let creeping = Ray::new(origin, Vector::new(at_epsilon.neg(), Scalar::zero(), Scalar::zero()));
    assert!(b.intersects(&creeping, Scalar::infinity()));
}

#[test]
fn intersects_false_when_entry_exceeds_max_distance() {
    let b = cube(-1.0, 1.0);
    let r = ray(0.0, 0.0, 5.0, 0.0, 0.0, -1.0);
    assert!(!b.intersects(&r, fx(3.0)));
    assert!(!b.intersects(&r, fx(3.999)));
    assert!(b.intersects(&r, fx(4.0)));
    assert!(b.intersects(&r, fx(5.0)));
    assert!(b.intersects(&r, fx(100.0)));
}

#[test]
fn intersects_counts_distance_in_multiples_of_the_direction() {
    let b = cube(-1.0, 1.0);
    let r = ray(0.0, 0.0, 5.0, 0.0, 0.0, -2.0);
    assert!(!b.intersects(&r, fx(1.9)));
    assert!(b.intersects(&r, fx(2.0)));
}

#[test]
fn intersects_negative_max_distance_never_hits() {
    let b = cube(-1.0, 1.0);
    assert!(!b.intersects(&ray(0.0, 0.0, 0.0, 0.0, 0.0, 1.0), fx(-0.5)));
    assert!(b.intersects(&ray(0.0, 0.0, 0.0, 0.0, 0.0, 1.0), Scalar::zero()));
}

#[test]
fn intersects_flat_box() {
    let b = HitBox::new(vec3(-1.0, 0.0, -1.0), vec3(1.0, 0.0, 1.0));
    assert!(b.intersects(&ray(0.0, 3.0, 0.0, 0.0, -1.0, 0.0), Scalar::infinity()));
    assert!(!b.intersects(&ray(2.0, 3.0, 0.0, 0.0, -1.0, 0.0), Scalar::infinity()));
    assert!(b.intersects(&ray(-3.0, 0.0, 0.0, 1.0, 0.0, 0.0), Scalar::infinity()));
    assert!(!b.intersects(&ray(-3.0, 0.5, 0.0, 1.0, 0.0, 0.0), Scalar::infinity()));
}
