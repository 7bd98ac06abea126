use caracol::geometry::hitbox::HitBox;
use caracol::geometry::ray::Ray;
use caracol::geometry::scalar::Scalar;
use caracol::geometry::vector::Vector;
use caracol::scene::elements::{CollisionInfo, Plane, SceneElement, Sphere, Triangle};
use caracol::scene::materials::{DiffuseMaterial, Material, ReflectiveMaterial, SurfaceType};

fn fx(v: f64) -> Scalar {
    Scalar::from_raw((v * 4294967296.0).round() as i64)
}

fn vec3(x: f64, y: f64, z: f64) -> Vector {
    Vector::new(fx(x), fx(y), fx(z))
}

fn to_f64(s: Scalar) -> f64 {
    s.raw as f64 / 4294967296.0
}

fn ray(ox: f64, oy: f64, oz: f64, dx: f64, dy: f64, dz: f64) -> Ray {
    Ray::new(vec3(ox, oy, oz), vec3(dx, dy, dz))
}

fn matte(intensity: f64) -> Material {
    Material::Diffuse(DiffuseMaterial::new(vec3(1.0, 0.5, 0.25), fx(intensity)))
}

fn unit_triangle() -> Triangle {
    Triangle::new(vec3(0.0, 0.0, 0.0), vec3(1.0, 0.0, 0.0), vec3(0.0, 1.0, 0.0), matte(0.0))
}

#[test]
fn material_emission_is_albedo_times_intensity() {
    let d = DiffuseMaterial::new(vec3(1.0, 0.5, 0.25), fx(3.0));
    assert_eq!(d.albedo(), vec3(1.0, 0.5, 0.25));
    assert_eq!(d.emission(), vec3(3.0, 1.5, 0.75));
    let r = ReflectiveMaterial::new(vec3(0.5, 0.5, 1.0), fx(2.0), fx(0.75));
    assert_eq!(r.albedo(), vec3(0.5, 0.5, 1.0));
    assert_eq!(r.emission(), vec3(1.0, 1.0, 2.0));
    assert_eq!(r.glossiness, fx(0.75));
    assert_eq!(r.intensity, fx(2.0));
    let dark = DiffuseMaterial::new(vec3(1.0, 0.5, 0.25), Scalar::zero());
    assert_eq!(dark.emission(), Vector::zero());
}

#[test]
fn material_enum_forwards_to_its_variant() {
    let d = Material::Diffuse(DiffuseMaterial::new(vec3(1.0, 0.5, 0.25), fx(3.0)));
    assert_eq!(d.surface_type(), SurfaceType::Diffuse);
    assert_eq!(d.albedo(), vec3(1.0, 0.5, 0.25));
    assert_eq!(d.emission(), vec3(3.0, 1.5, 0.75));
    let r = Material::Reflective(ReflectiveMaterial::new(vec3(0.5, 0.5, 1.0), fx(2.0), fx(0.75)));
    assert_eq!(r.surface_type(), SurfaceType::Reflective);
    assert_eq!(r.albedo(), vec3(0.5, 0.5, 1.0));
    assert_eq!(r.emission(), vec3(1.0, 1.0, 2.0));
}

#[test]
fn material_new_by_surface_type() {
    let d = Material::new(vec3(1.0, 0.5, 0.25), fx(2.0), SurfaceType::Diffuse);
    assert_eq!(d, Material::Diffuse(DiffuseMaterial::new(vec3(1.0, 0.5, 0.25), fx(2.0))));
    let r = Material::new(vec3(1.0, 0.5, 0.25), fx(2.0), SurfaceType::Reflective);
    assert_eq!(
        r,
        Material::Reflective(ReflectiveMaterial::new(vec3(1.0, 0.5, 0.25), fx(2.0), Scalar::one()))
    );
}

#[test]
fn diffuse_scatter_adds_the_random_direction_to_the_normal() {
    let d = DiffuseMaterial::new(vec3(1.0, 1.0, 1.0), Scalar::zero());
    let incoming = ray(0.0, 0.0, 5.0, 0.0, 0.0, -1.0);
    let point = vec3(0.0, 0.0, 1.0);
    let normal = vec3(0.0, 0.0, 1.0);
    let out = d.scatter(&incoming, &point, &normal, vec3(1.0, 0.0, 0.0));
    assert_eq!(out.origin, point);
    assert_eq!(out.direction, vec3(1.0, 0.0, 1.0));
    let m = Material::Diffuse(d);
    assert_eq!(m.scatter(&incoming, &point, &normal, vec3(0.0, -1.0, 0.0)).direction, vec3(0.0, -1.0, 1.0));
}

#[test]
fn diffuse_scatter_falls_back_to_the_normal() {
    let d = DiffuseMaterial::new(vec3(1.0, 1.0, 1.0), Scalar::zero());
    let incoming = ray(0.0, 0.0, 5.0, 0.0, 0.0, -1.0);
    let point = vec3(0.0, 0.0, 1.0);
    let normal = vec3(0.0, 0.0, 1.0);
    let out = d.scatter(&incoming, &point, &normal, vec3(0.0, 0.0, -1.0));
    assert_eq!(out.direction, normal);
    let nearly = Vector::new(Scalar::from_raw(4295), Scalar::zero(), fx(-1.0));
    assert_eq!(d.scatter(&incoming, &point, &normal, nearly).direction, normal);
    let not_quite = Vector::new(Scalar::from_raw(4296), Scalar::zero(), fx(-1.0));
    assert_eq!(
        d.scatter(&incoming, &point, &normal, not_quite).direction,
        Vector::new(Scalar::from_raw(4296), Scalar::zero(), Scalar::zero())
    );
}

#[test]
fn reflective_scatter_mirrors_the_direction() {
    let mirror = ReflectiveMaterial::new(vec3(1.0, 1.0, 1.0), Scalar::zero(), Scalar::one());
    let incoming = ray(-1.0, 1.0, 0.0, 1.0, -1.0, 0.0);
    let point = vec3(0.0, 0.0, 0.0);
    let normal = vec3(0.0, 1.0, 0.0);
    let out = mirror.scatter(&incoming, &point, &normal, vec3(0.0, 0.0, 1.0));
    assert_eq!(out.origin, point);
    assert_eq!(out.direction, vec3(1.0, 1.0, 0.0));
}

#[test]
fn reflective_scatter_blurs_by_one_minus_glossiness() {
    let blurred = ReflectiveMaterial::new(vec3(1.0, 1.0, 1.0), Scalar::zero(), fx(0.75));
    let incoming = ray(-1.0, 1.0, 0.0, 1.0, -1.0, 0.0);
    let point = vec3(0.0, 0.0, 0.0);
    let normal = vec3(0.0, 1.0, 0.0);
    let out = blurred.scatter(&incoming, &point, &normal, vec3(0.0, 0.0, 1.0));
    assert_eq!(out.direction, vec3(1.0, 1.0, 0.25));
    let rough = ReflectiveMaterial::new(vec3(1.0, 1.0, 1.0), Scalar::zero(), Scalar::zero());
    let cancelled = rough.scatter(&incoming, &point, &normal, vec3(-1.0, -1.0, 0.0));
    assert_eq!(cancelled.direction, normal);
}

#[test]
fn reflect_leaves_from_the_point_on_the_side_of_the_normal() {
    let incoming = ray(0.0, 0.0, 5.0, 0.0, 0.0, -1.0);
    let point = vec3(0.0, 0.0, 1.0);
    let normal = vec3(0.0, 0.0, 1.0);
    let d = Material::Diffuse(DiffuseMaterial::new(vec3(1.0, 1.0, 1.0), Scalar::zero()));
    let m = Material::Reflective(ReflectiveMaterial::new(vec3(1.0, 1.0, 1.0), Scalar::zero(), Scalar::one()));
    let mut i = 0;
    while i < 200 {
        let out = d.reflect(&incoming, &point, &normal);
        assert_eq!(out.origin, point);
        assert!(out.direction.z.raw >= 0);
        assert!(!out.direction.is_zero());
        let mirrored = m.reflect(&incoming, &point, &normal);
        assert_eq!(mirrored.origin, point);
        assert_eq!(mirrored.direction, vec3(0.0, 0.0, 1.0));
        i += 1;
    }
}

#[test]
fn collision_info_new() {
    let info = CollisionInfo::new(fx(2.0), vec3(0.0, 1.0, 0.0), matte(1.0));
    assert_eq!(info.distance, fx(2.0));
    assert_eq!(info.normal, vec3(0.0, 1.0, 0.0));
    assert_eq!(info.material, matte(1.0));
}

#[test]
fn sphere_new_computes_the_bounding_box() {
    let s = Sphere::new(vec3(1.0, 2.0, 3.0), fx(0.5), matte(0.0));
    assert_eq!(s.center, vec3(1.0, 2.0, 3.0));
    assert_eq!(s.radius, fx(0.5));
    assert_eq!(s.hitbox(), HitBox::new(vec3(0.5, 1.5, 2.5), vec3(1.5, 2.5, 3.5)));
}

#[test]
fn sphere_distance_along_an_axis() {
    let s = Sphere::new(vec3(0.0, 0.0, 0.0), fx(1.0), matte(0.0));
    assert_eq!(s.distance(&ray(0.0, 0.0, 5.0, 0.0, 0.0, -1.0)), Some(fx(4.0)));
    assert_eq!(s.distance(&ray(-3.0, 0.0, 0.0, 1.0, 0.0, 0.0)), Some(fx(2.0)));
    assert_eq!(s.distance(&ray(0.0, 0.0, 5.0, 0.0, 0.0, -2.0)), Some(fx(2.0)));
}

#[test]
fn sphere_distance_from_inside_takes_the_far_root() {
    let s = Sphere::new(vec3(0.0, 0.0, 0.0), fx(1.0), matte(0.0));
    assert_eq!(s.distance(&ray(0.0, 0.0, 0.0, 0.0, 1.0, 0.0)), Some(fx(1.0)));
    assert_eq!(s.distance(&ray(0.0, 0.5, 0.0, 0.0, 1.0, 0.0)), Some(fx(0.5)));
}

#[test]
fn sphere_distance_none_when_missed_or_behind() {
    let s = Sphere::new(vec3(0.0, 0.0, 0.0), fx(1.0), matte(0.0));
    assert_eq!(s.distance(&ray(0.0, 2.0, 5.0, 0.0, 0.0, -1.0)), None);
    assert_eq!(s.distance(&ray(0.0, 0.0, 5.0, 0.0, 0.0, 1.0)), None);
    assert_eq!(s.distance(&ray(0.0, 0.0, 5.0, 1.0, 0.0, 0.0)), None);
}

#[test]
fn sphere_distance_of_a_ray_aimed_at_the_centre() {
    let centre = (1.5f64, -2.0f64, 0.75f64);
    let radius = 1.25f64;
    let s = Sphere::new(vec3(centre.0, centre.1, centre.2), fx(radius), matte(0.0));
    let origins = [
        (10.0f64, 3.0f64, -4.0f64),
        (-7.0, -2.0, 0.75),
        (1.5, 20.0, 0.75),
        (4.0, 1.0, 5.0),
        (1.5, -2.0, -3.0),
        (-0.5, -0.5, -0.5),
    ];
    for o in origins {
        let origin = vec3(o.0, o.1, o.2);
        let direction = vec3(centre.0, centre.1, centre.2).sub(origin).normalize();
        let away = ((o.0 - centre.0).powi(2) + (o.1 - centre.1).powi(2) + (o.2 - centre.2).powi(2)).sqrt();
        let d = s.distance(&Ray::new(origin, direction)).unwrap();
        assert!((to_f64(d) - (away - radius)).abs() < 1e-6, "{} {}", to_f64(d), away - radius);
    }
}

#[test]
fn sphere_collide_gives_distance_normal_and_material() {
    let s = Sphere::new(vec3(0.0, 0.0, 0.0), fx(2.0), matte(3.0));
    let info = s.collide(&ray(0.0, 0.0, 5.0, 0.0, 0.0, -1.0), Scalar::infinity()).unwrap();
    assert_eq!(info.distance, fx(3.0));
    assert_eq!(info.normal, vec3(0.0, 0.0, 1.0));
    assert_eq!(info.material, matte(3.0));
    let side = s.collide(&ray(-5.0, 0.0, 0.0, 1.0, 0.0, 0.0), Scalar::infinity()).unwrap();
    assert_eq!(side.distance, fx(3.0));
    assert_eq!(side.normal, vec3(-1.0, 0.0, 0.0));
}

#[test]
fn sphere_collide_respects_max_distance() {
    let s = Sphere::new(vec3(0.0, 0.0, 0.0), fx(2.0), matte(3.0));
    let r = ray(0.0, 0.0, 5.0, 0.0, 0.0, -1.0);
    assert!(s.collide(&r, fx(2.999)).is_none());
    assert!(s.collide(&r, fx(3.0)).is_some());
    assert!(s.collide(&r, fx(1000.0)).is_some());
    assert!(s.collide(&ray(0.0, 3.0, 5.0, 0.0, 0.0, -1.0), Scalar::infinity()).is_none());
}

#[test]
fn plane_collide() {
    let p = Plane::new(vec3(0.0, 0.0, 2.0), vec3(0.0, 0.0, 1.0));
    assert_eq!(p.collide(&ray(0.0, 0.0, 5.0, 0.0, 0.0, -1.0)), Some(fx(3.0)));
    assert_eq!(p.collide(&ray(1.0, 7.0, 0.0, 0.0, 0.0, 2.0)), Some(fx(1.0)));
    assert_eq!(p.collide(&ray(0.0, 0.0, 5.0, 1.0, 1.0, -0.5)), Some(fx(6.0)));
}

#[test]
fn plane_collide_none_when_parallel_or_behind() {
    let p = Plane::new(vec3(0.0, 0.0, 2.0), vec3(0.0, 0.0, 1.0));
    assert_eq!(p.collide(&ray(0.0, 0.0, 5.0, 1.0, 0.0, 0.0)), None);
    assert_eq!(p.collide(&ray(0.0, 0.0, 5.0, 0.0, 0.0, 1.0)), None);
    assert_eq!(p.collide(&ray(0.0, 0.0, 2.0, 0.0, 0.0, 1.0)), None);
    let nearly = Ray::new(
        vec3(0.0, 0.0, 5.0),
        Vector::new(fx(1.0), Scalar::zero(), Scalar::from_raw(-4294)),
    );
    assert_eq!(p.collide(&nearly), None);
}

#[test]
fn triangle_new_precomputes_edges_normal_and_box() {
    let t = unit_triangle();
    assert_eq!(t.a, vec3(0.0, 0.0, 0.0));
    assert_eq!(t.b, vec3(1.0, 0.0, 0.0));
    assert_eq!(t.ac, vec3(0.0, 1.0, 0.0));
    assert_eq!(t.bc, vec3(-1.0, 1.0, 0.0));
    assert_eq!(t.barycentric_a, vec3(0.5, 0.5, 0.0));
    assert_eq!(t.barycentric_b, vec3(-1.0, 0.0, 0.0));
    assert_eq!(t.normal, vec3(0.0, 0.0, 1.0));
    assert_eq!(t.plane, Plane::new(vec3(0.0, 0.0, 0.0), vec3(0.0, 0.0, 1.0)));
    assert_eq!(t.hitbox(), HitBox::new(vec3(0.0, 0.0, 0.0), vec3(1.0, 1.0, 0.0)));
}

#[test]
fn triangle_barycentric_of_an_inner_point() {
    let t = unit_triangle();
    let (a, b, c) = t.barycentric(&vec3(0.25, 0.25, 0.0));
    assert_eq!(a, fx(0.5));
    assert_eq!(b, fx(0.25));
    assert_eq!(c, fx(0.25));
    assert_eq!(a.raw + b.raw + c.raw, 1i64 << 32);
}

#[test]
fn triangle_barycentric_of_the_corners() {
    let t = unit_triangle();
    assert_eq!(t.barycentric(&vec3(0.0, 0.0, 0.0)), (fx(1.0), fx(0.0), fx(0.0)));
    assert_eq!(t.barycentric(&vec3(1.0, 0.0, 0.0)), (fx(0.0), fx(1.0), fx(0.0)));
    assert_eq!(t.barycentric(&vec3(0.0, 1.0, 0.0)), (fx(0.0), fx(0.0), fx(1.0)));
}

#[test]
fn triangle_barycentric_sums_to_one() {
    let t = Triangle::new(vec3(0.3, -1.2, 2.0), vec3(4.1, 0.7, -0.5), vec3(-2.0, 3.3, 1.1), matte(0.0));
    let mut x = -3.0;
    while x < 5.0 {
        let mut y = -2.0;
        while y < 4.0 {
            let (a, b, c) = t.barycentric(&vec3(x, y, 0.37 * x - 0.2 * y));
            assert_eq!(a.raw + b.raw + c.raw, 1i64 << 32);
            y += 0.37;
        }
        x += 0.41;
    }
}

#[test]
fn triangle_barycentric_outside_each_edge_is_negative() {
    let t = unit_triangle();
    let (a, _, _) = t.barycentric(&vec3(1.0, 1.0, 0.0));
    assert_eq!(a, fx(-1.0));
    let (_, b, _) = t.barycentric(&vec3(-0.25, 0.5, 0.0));
    assert_eq!(b, fx(-0.25));
    let (a2, b2, c2) = t.barycentric(&vec3(0.5, -0.25, 0.0));
    assert_eq!(a2, fx(0.75));
    assert_eq!(b2, fx(0.5));
    assert_eq!(c2, fx(-0.25));
}

#[test]
fn triangle_collide_inside() {
    let t = unit_triangle();
    let info = t.collide(&ray(0.25, 0.25, 1.0, 0.0, 0.0, -1.0), Scalar::infinity()).unwrap();
    assert_eq!(info.distance, fx(1.0));
    assert_eq!(info.normal, vec3(0.0, 0.0, 1.0));
    assert_eq!(info.material, matte(0.0));
    let slanted = t.collide(&ray(-0.75, 0.25, 2.0, 1.0, 0.0, -2.0), Scalar::infinity()).unwrap();
    assert_eq!(slanted.distance, fx(1.0));
}

#[test]
fn triangle_collide_outside_each_edge_reports_nothing() {
    let t = unit_triangle();
    assert!(t.collide(&ray(1.0, 1.0, 1.0, 0.0, 0.0, -1.0), Scalar::infinity()).is_none());
    assert!(t.collide(&ray(0.75, 0.75, 1.0, 0.0, 0.0, -1.0), Scalar::infinity()).is_none());
    assert!(t.collide(&ray(-0.25, 0.5, 1.0, 0.0, 0.0, -1.0), Scalar::infinity()).is_none());
    assert!(t.collide(&ray(0.5, -0.25, 1.0, 0.0, 0.0, -1.0), Scalar::infinity()).is_none());
    assert!(t.collide(&ray(0.5, 0.5, 1.0, 0.0, 0.0, -1.0), Scalar::infinity()).is_some());
}

#[test]
fn triangle_collide_normal_faces_the_ray() {
    let t = unit_triangle();
    let above = t.collide(&ray(0.25, 0.25, 1.0, 0.0, 0.0, -1.0), Scalar::infinity()).unwrap();
    assert_eq!(above.normal, vec3(0.0, 0.0, 1.0));
    let below = t.collide(&ray(0.25, 0.25, -1.0, 0.0, 0.0, 1.0), Scalar::infinity()).unwrap();
    assert_eq!(below.normal, vec3(0.0, 0.0, -1.0));
    assert_eq!(below.distance, fx(1.0));
}

#[test]
fn triangle_collide_none_when_parallel_behind_or_too_far() {
    let t = unit_triangle();
    assert!(t.collide(&ray(0.25, 0.25, 1.0, 1.0, 0.0, 0.0), Scalar::infinity()).is_none());
    assert!(t.collide(&ray(0.25, 0.25, 1.0, 0.0, 0.0, 1.0), Scalar::infinity()).is_none());
    assert!(t.collide(&ray(0.25, 0.25, 1.0, 0.0, 0.0, -1.0), fx(0.999)).is_none());
    assert!(t.collide(&ray(0.25, 0.25, 1.0, 0.0, 0.0, -1.0), fx(1.0)).is_some());
}

#[test]
fn scene_element_forwards_to_its_shape() {
    let sphere = SceneElement::Sphere(Sphere::new(vec3(0.0, 0.0, 0.0), fx(2.0), matte(3.0)));
    assert_eq!(sphere.hitbox(), HitBox::new(vec3(-2.0, -2.0, -2.0), vec3(2.0, 2.0, 2.0)));
    let hit = sphere.collide(&ray(0.0, 0.0, 5.0, 0.0, 0.0, -1.0), Scalar::infinity()).unwrap();
    assert_eq!(hit.distance, fx(3.0));
    let triangle = SceneElement::Triangle(unit_triangle());
    assert_eq!(triangle.hitbox(), HitBox::new(vec3(0.0, 0.0, 0.0), vec3(1.0, 1.0, 0.0)));
    let hit = triangle.collide(&ray(0.25, 0.25, 1.0, 0.0, 0.0, -1.0), Scalar::infinity()).unwrap();
    assert_eq!(hit.distance, fx(1.0));
}

#[test]
fn sphere_distance_along_each_axis_is_exact_to_one_unit() {
    let radius = fx(1.37);
    let centre = vec3(2.5, -1.25, 7.0);
    let s = Sphere::new(centre, radius, matte(0.0));
    let heights = [1.3700001, 1.5, 2.0, 3.14159, 10.0, 1000.0, 16384.0];
    for h in heights {
        let height = fx(h);
        let along = [
            (Vector::new(height, Scalar::zero(), Scalar::zero()), vec3(-1.0, 0.0, 0.0)),
            (Vector::new(height.neg(), Scalar::zero(), Scalar::zero()), vec3(1.0, 0.0, 0.0)),
            (Vector::new(Scalar::zero(), height, Scalar::zero()), vec3(0.0, -1.0, 0.0)),
            (Vector::new(Scalar::zero(), height.neg(), Scalar::zero()), vec3(0.0, 1.0, 0.0)),
            (Vector::new(Scalar::zero(), Scalar::zero(), height), vec3(0.0, 0.0, -1.0)),
            (Vector::new(Scalar::zero(), Scalar::zero(), height.neg()), vec3(0.0, 0.0, 1.0)),
        ];
        for (offset, direction) in along {
            let d = s.distance(&Ray::new(centre.add(offset), direction)).unwrap();
            let expected = height.raw - radius.raw;
            assert!(d.raw == expected || d.raw == expected + 1, "{} {}", d.raw, expected);
        }
    }
}

fn off_unit(v: Vector) -> i128 {
    let (x, y, z) = (v.x.raw as i128, v.y.raw as i128, v.z.raw as i128);
    let one = 1i128 << 32;
    (x * x + y * y + z * z - one * one).abs()
}

#[test]
fn triangle_normal_has_length_one() {
    let corners = [
        (vec3(0.3, -1.2, 2.0), vec3(4.1, 0.7, -0.5), vec3(-2.0, 3.3, 1.1)),
        (vec3(0.0, 0.0, 0.0), vec3(2.0, 0.0, 0.0), vec3(0.0, 2.0, 0.0)),
        (vec3(-4.0, 0.05, -3.0), vec3(-4.0, 0.05, 3.0), vec3(4.0, 0.05, -3.0)),
        (vec3(10.0, 20.0, 30.0), vec3(11.0, 22.0, 33.0), vec3(9.0, 25.0, 28.0)),
    ];
    for (a, b, c) in corners {
        let across = c.sub(a).cross(&c.sub(b));
        assert!(across.magnitude().raw >= 1i64 << 32);
        let t = Triangle::new(a, b, c, matte(0.0));
        assert!(off_unit(t.normal) <= 7i128 << 32, "{}", off_unit(t.normal));
    }
}

#[test]
fn normalized_vector_has_length_one() {
    let mut x = -3.0;
    while x < 3.0 {
        let v = vec3(x, 1.0 - 0.3 * x, 0.7 * x + 0.2);
        assert!(v.magnitude().raw >= 1i64 << 32);
        assert!(off_unit(v.normalize()) <= 7i128 << 32);
        x += 0.173;
    }
}

#[test]
fn triangle_collision_normal_opposes_the_ray() {
    let t = Triangle::new(vec3(0.3, -1.2, 2.0), vec3(4.1, 0.7, -0.5), vec3(-2.0, 3.3, 1.1), matte(0.0));
    let inside = vec3(0.8, 0.9, 0.9);
    let mut hits = 0;
    for origin in [vec3(5.0, 5.0, 5.0), vec3(-5.0, -5.0, -5.0), vec3(0.0, 0.0, 9.0), vec3(1.0, 1.0, -9.0), vec3(7.0, 0.0, 0.0)] {
        let r = Ray::new(origin, inside.sub(origin).normalize());
        if let Some(info) = t.collide(&r, Scalar::infinity()) {
            assert!(info.normal.dot(&r.direction).raw <= 0);
            assert!(info.normal == t.normal || info.normal == t.normal.neg());
            hits += 1;
        }
    }
    assert!(hits >= 4);
}
