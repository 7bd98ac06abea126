use caracol::geometry::hitbox::HitBox;
use caracol::geometry::ray::Ray;
use caracol::geometry::scalar::Scalar;
use caracol::geometry::vector::Vector;
use caracol::scene::bvh::{arrange, best_split, build_bvh, scan, weigh, BVHNode, EmptyBVHNode};
use caracol::scene::elements::{SceneElement, Sphere, Triangle};
use caracol::scene::materials::{DiffuseMaterial, Material};
use caracol::utils::utils::Axis;

fn fx(v: f64) -> Scalar {
    Scalar::from_raw((v * 4294967296.0).round() as i64)
}

fn vec3(x: f64, y: f64, z: f64) -> Vector {
    Vector::new(fx(x), fx(y), fx(z))
}

fn tagged(tag: usize) -> Material {
    Material::Diffuse(DiffuseMaterial::new(vec3(1.0, 1.0, 1.0), Scalar::from_count(tag)))
}

fn ball(x: f64, y: f64, z: f64, r: f64, tag: usize) -> SceneElement {
    SceneElement::Sphere(Sphere::new(vec3(x, y, z), fx(r), tagged(tag)))
}

struct Lcg(u64);

impl Lcg {
    fn next(&mut self) -> f64 {
        self.0 = self.0.wrapping_mul(6364136223846793005).wrapping_add(1442695040888963407);
        ((self.0 >> 11) as f64) / ((1u64 << 53) as f64)
    }

    fn between(&mut self, lo: f64, hi: f64) -> f64 {
        lo + (hi - lo) * self.next()
    }
}

fn cloud(count: usize, seed: u64) -> Vec<SceneElement> {
    let mut g = Lcg(seed);
    let mut scene = Vec::new();
    let mut i = 0;
    while i < count {
        if i % 3 == 2 {
            let a = vec3(g.between(-8.0, 8.0), g.between(-8.0, 8.0), g.between(-8.0, 8.0));
            let b = a.add(vec3(g.between(-2.0, 2.0), g.between(-2.0, 2.0), g.between(-2.0, 2.0)));
            let c = a.add(vec3(g.between(-2.0, 2.0), g.between(-2.0, 2.0), g.between(-2.0, 2.0)));
            scene.push(SceneElement::Triangle(Triangle::new(a, b, c, tagged(i))));
        } else {
            scene.push(ball(
                g.between(-8.0, 8.0),
                g.between(-8.0, 8.0),
                g.between(-8.0, 8.0),
                g.between(0.2, 1.5),
                i,
            ));
        }
        i += 1;
    }
    scene
}

fn tags(root: &SceneElement, out: &mut Vec<i64>) {
    match root {
        SceneElement::Sphere(s) => match s.material {
            Material::Diffuse(m) => out.push(m.intensity.raw >> 32),
            Material::Reflective(m) => out.push(m.intensity.raw >> 32),
        },
        SceneElement::Triangle(t) => match t.material {
            Material::Diffuse(m) => out.push(m.intensity.raw >> 32),
            Material::Reflective(m) => out.push(m.intensity.raw >> 32),
        },
        SceneElement::Node(n) => {
            tags(&n.left, out);
            tags(&n.right, out);
        }
        SceneElement::Empty(_) => {}
    }
}

fn check_boxes(root: &SceneElement) {
    if let SceneElement::Node(n) = root {
        let mut merged = n.left.hitbox();
        merged.merge(&n.right.hitbox());
        assert_eq!(n.hitbox, merged);
        assert!(matches!(*n.left, SceneElement::Sphere(_) | SceneElement::Triangle(_) | SceneElement::Node(_)));
        assert!(matches!(*n.right, SceneElement::Sphere(_) | SceneElement::Triangle(_) | SceneElement::Node(_)));
        check_boxes(&n.left);
        check_boxes(&n.right);
    }
}

fn depth(root: &SceneElement) -> usize {
    match root {
        SceneElement::Node(n) => 1 + depth(&n.left).max(depth(&n.right)),
        _ => 0,
    }
}

#[test]
fn empty_node_never_collides() {
    let empty = EmptyBVHNode::new();
    assert_eq!(empty.hitbox(), HitBox::new(Vector::zero(), Vector::zero()));
    let r = Ray::new(vec3(0.0, 0.0, 5.0), vec3(0.0, 0.0, -1.0));
    assert!(empty.collide(&r, Scalar::infinity()).is_none());
    assert!(SceneElement::Empty(empty).collide(&r, Scalar::infinity()).is_none());
}

#[test]
fn build_bvh_of_nothing_is_the_empty_node() {
    let root = build_bvh(Vec::new());
    assert!(matches!(root, SceneElement::Empty(_)));
    let r = Ray::new(vec3(0.0, 0.0, 5.0), vec3(0.0, 0.0, -1.0));
    assert!(root.collide(&r, Scalar::infinity()).is_none());
}

#[test]
fn build_bvh_of_one_element_is_that_element() {
    let root = build_bvh(vec![ball(1.0, 2.0, 3.0, 0.5, 7)]);
    match root {
        SceneElement::Sphere(s) => {
            assert_eq!(s.center, vec3(1.0, 2.0, 3.0));
            assert_eq!(s.radius, fx(0.5));
            assert_eq!(s.material, tagged(7));
        }
        _ => panic!("expected the sphere itself"),
    }
}

#[test]
fn build_bvh_of_two_elements_is_one_node() {
    let root = build_bvh(vec![ball(5.0, 0.0, 0.0, 1.0, 0), ball(-5.0, 0.0, 0.0, 1.0, 1)]);
    match &root {
        SceneElement::Node(n) => {
            assert_eq!(n.hitbox.start, vec3(-6.0, -1.0, -1.0));
            assert_eq!(n.hitbox.end, vec3(6.0, 1.0, 1.0));
            assert_eq!(n.hitbox.center, vec3(0.0, 0.0, 0.0));
            assert!(matches!(*n.left, SceneElement::Sphere(_)));
            assert!(matches!(*n.right, SceneElement::Sphere(_)));
        }
        _ => panic!("expected a node"),
    }
    let mut found = Vec::new();
    tags(&root, &mut found);
    assert_eq!(found, vec![1, 0]);
}

#[test]
fn bvh_node_new_merges_the_boxes() {
    let node = BVHNode::new(ball(0.0, 0.0, 0.0, 1.0, 0), ball(3.0, 4.0, 5.0, 2.0, 1));
    assert_eq!(node.hitbox(), HitBox::new(vec3(-1.0, -1.0, -1.0), vec3(5.0, 6.0, 7.0)));
}

#[test]
fn build_bvh_keeps_every_element_exactly_once() {
    for count in [2usize, 3, 4, 5, 8, 13, 64, 200] {
        let root = build_bvh(cloud(count, 42 + count as u64));
        let mut found = Vec::new();
        tags(&root, &mut found);
        found.sort();
        let expected: Vec<i64> = (0..count as i64).collect();
        assert_eq!(found, expected);
        check_boxes(&root);
    }
}

#[test]
fn build_bvh_splits_separated_clusters_apart() {
    let mut scene = Vec::new();
    let mut i = 0;
    while i < 8 {
        scene.push(ball(-10.0 + 0.1 * i as f64, 0.3 * i as f64, 0.0, 0.5, i));
        scene.push(ball(10.0 + 0.1 * i as f64, 0.3 * i as f64, 0.0, 0.5, 100 + i));
        i += 1;
    }
    let root = build_bvh(scene);
    match &root {
        SceneElement::Node(n) => {
            let mut left = Vec::new();
            tags(&n.left, &mut left);
            let mut right = Vec::new();
            tags(&n.right, &mut right);
            assert_eq!(left.len(), 8);
            assert_eq!(right.len(), 8);
            assert!(left.iter().all(|t| *t < 100));
            assert!(right.iter().all(|t| *t >= 100));
        }
        _ => panic!("expected a node"),
    }
    assert!(depth(&root) <= 8);
}

#[test]
fn best_split_minimises_the_cost() {
    let scene = vec![
        ball(0.0, 0.0, 0.0, 1.0, 0),
        ball(1.0, 0.0, 0.0, 1.0, 1),
        ball(10.0, 0.0, 0.0, 1.0, 2),
        ball(11.0, 0.0, 0.0, 1.0, 3),
    ];
    let (index, cost) = best_split(&scene);
    assert_eq!(index, 1);
    assert_eq!(cost, fx(48.0));
    let pair = vec![ball(0.0, 0.0, 0.0, 1.0, 0), ball(4.0, 0.0, 0.0, 2.0, 1)];
    let (index, cost) = best_split(&pair);
    assert_eq!(index, 0);
    assert_eq!(cost, fx(72.0));
}

#[test]
fn best_split_takes_the_first_of_equal_costs() {
    let scene = vec![
        ball(0.0, 0.0, 0.0, 1.0, 0),
        ball(0.0, 0.0, 0.0, 1.0, 1),
        ball(0.0, 0.0, 0.0, 1.0, 2),
    ];
    let (index, cost) = best_split(&scene);
    assert_eq!(index, 0);
    assert_eq!(cost, fx(24.0));
}

#[test]
fn weigh_sorts_along_the_axis() {
    let mut scene = vec![
        ball(3.0, 0.0, 9.0, 1.0, 0),
        ball(1.0, 5.0, 8.0, 1.0, 1),
        ball(2.0, -5.0, 7.0, 1.0, 2),
    ];
    weigh(&mut scene, Axis::X);
    let mut order = Vec::new();
    for e in &scene {
        tags(e, &mut order);
    }
    assert_eq!(order, vec![1, 2, 0]);
    weigh(&mut scene, Axis::Y);
    let mut order = Vec::new();
    for e in &scene {
        tags(e, &mut order);
    }
    assert_eq!(order, vec![2, 0, 1]);
    weigh(&mut scene, Axis::Z);
    let mut order = Vec::new();
    for e in &scene {
        tags(e, &mut order);
    }
    assert_eq!(order, vec![2, 1, 0]);
}

#[test]
fn arrange_picks_the_axis_of_the_cheapest_split() {
    let mut scene = vec![
        ball(0.0, 10.0, 0.0, 1.0, 0),
        ball(0.5, -10.0, 0.0, 1.0, 1),
        ball(1.0, 11.0, 0.0, 1.0, 2),
        ball(1.5, -11.0, 0.0, 1.0, 3),
    ];
    let (axis, index) = arrange(&mut scene);
    assert_eq!(axis, Axis::Y);
    assert_eq!(index, 1);
    let mut order = Vec::new();
    for e in &scene {
        tags(e, &mut order);
    }
    assert_eq!(order, vec![3, 1, 0, 2]);
}

#[test]
fn scan_finds_the_nearest_of_all() {
    let scene = vec![
        ball(0.0, 0.0, -10.0, 1.0, 0),
        ball(0.0, 0.0, 0.0, 1.0, 1),
        ball(0.0, 0.0, -5.0, 1.0, 2),
        ball(5.0, 0.0, 0.0, 1.0, 3),
    ];
    let r = Ray::new(vec3(0.0, 0.0, 5.0), vec3(0.0, 0.0, -1.0));
    let hit = scan(&scene, &r, Scalar::infinity()).unwrap();
    assert_eq!(hit.distance, fx(4.0));
    assert_eq!(hit.material, tagged(1));
    let back = Ray::new(vec3(0.0, 0.0, -20.0), vec3(0.0, 0.0, 1.0));
    let hit = scan(&scene, &back, Scalar::infinity()).unwrap();
    assert_eq!(hit.distance, fx(9.0));
    assert_eq!(hit.material, tagged(0));
    assert!(scan(&scene, &back, fx(8.5)).is_none());
    assert!(scan(&Vec::new(), &r, Scalar::infinity()).is_none());
    let miss = Ray::new(vec3(0.0, 5.0, 5.0), vec3(0.0, 0.0, -1.0));
    assert!(scan(&scene, &miss, Scalar::infinity()).is_none());
}

#[test]
fn scan_keeps_the_first_of_equally_near_collisions() {
    let scene = vec![ball(0.0, 0.0, 0.0, 1.0, 0), ball(0.0, 0.0, 0.0, 1.0, 1)];
    let r = Ray::new(vec3(0.0, 0.0, 5.0), vec3(0.0, 0.0, -1.0));
    assert_eq!(scan(&scene, &r, Scalar::infinity()).unwrap().material, tagged(0));
}

#[test]
fn traversal_finds_the_nearer_of_two_children() {
    let root = build_bvh(vec![
        ball(0.0, 0.0, -10.0, 1.0, 0),
        ball(0.0, 0.0, 0.0, 1.0, 1),
        ball(0.0, 0.0, -5.0, 1.0, 2),
    ]);
    let r = Ray::new(vec3(0.0, 0.0, 5.0), vec3(0.0, 0.0, -1.0));
    let hit = root.collide(&r, Scalar::infinity()).unwrap();
    assert_eq!(hit.distance, fx(4.0));
    assert_eq!(hit.material, tagged(1));
    let back = Ray::new(vec3(0.0, 0.0, -20.0), vec3(0.0, 0.0, 1.0));
    let hit = root.collide(&back, Scalar::infinity()).unwrap();
    assert_eq!(hit.distance, fx(9.0));
    assert_eq!(hit.material, tagged(0));
    assert!(root.collide(&back, fx(8.5)).is_none());
}

#[test]
fn traversal_matches_scan_on_random_scenes() {
    let mut g = Lcg(2024);
    let mut hits = 0;
    for count in [1usize, 2, 3, 7, 20, 60] {
        for seed in 0..4u64 {
            let scene = cloud(count, 1000 * seed + count as u64);
            let root = build_bvh(cloud(count, 1000 * seed + count as u64));
            let mut k = 0;
            while k < 300 {
                let origin = vec3(g.between(-12.0, 12.0), g.between(-12.0, 12.0), g.between(-12.0, 12.0));
                let target = vec3(g.between(-8.0, 8.0), g.between(-8.0, 8.0), g.between(-8.0, 8.0));
                let r = Ray::new(origin, target.sub(origin).normalize());
                let max = if k % 4 == 0 { fx(g.between(0.0, 20.0)) } else { Scalar::infinity() };
                let found = root.collide(&r, max);
                let scanned = scan(&scene, &r, max);
                assert!(root.boxes_admit(&r));
                match (found, scanned) {
                    (None, None) => {}
                    (Some(a), Some(b)) => {
                        assert_eq!(a.distance, b.distance);
                        assert!(a.distance.raw > 0 && a.distance.raw <= max.raw);
                        hits += 1;
                    }
                    _ => panic!("traversal and scan disagree"),
                }
                k += 1;
            }
        }
    }
    assert!(hits > 500);
}

#[test]
fn traversal_prunes_a_grazing_collision_that_lies_outside_its_box() {
    // The ray grazes the top of the sphere. Rounding puts the collision a
    // little before the point where the ray enters the box of the sphere, so
    // once the triangle behind it is found, the box no longer admits it.
    let scene = || {
        vec![
            ball(0.0, 0.0, 0.0, 1.0, 0),
            SceneElement::Triangle(Triangle::new(
                vec3(0.00003, -1.0, 0.5),
                vec3(0.00003, 1.0, 0.5),
                vec3(0.00003, 0.0, 2.0),
                tagged(1),
            )),
        ]
    };
    let r = Ray::new(
        Vector::new(Scalar::from_raw(-12884901888), Scalar::zero(), Scalar::from_raw(4295127859)),
        Vector::new(Scalar::from_raw(4294967296), Scalar::zero(), Scalar::from_raw(-53520)),
    );
    let shapes = scene();
    let grazing = shapes[0].collide(&r, Scalar::infinity()).unwrap();
    assert_eq!(grazing.distance.raw, 12884909069);
    assert!(!shapes[0].hitbox().intersects(&r, grazing.distance));
    assert!(shapes[0].hitbox().intersects(&r, Scalar::from_raw(12885142637)));
    let behind = shapes[1].collide(&r, Scalar::infinity()).unwrap();
    assert_eq!(behind.distance.raw, 12885030737);

    assert!(!shapes[0].boxes_admit(&r));
    assert!(shapes[1].boxes_admit(&r));
    assert!(!build_bvh(scene()).boxes_admit(&r));
    assert_eq!(scan(&shapes, &r, Scalar::infinity()).unwrap().material, tagged(0));
    let found = build_bvh(scene()).collide(&r, Scalar::infinity()).unwrap();
    assert_eq!(found.material, tagged(1));
    assert_eq!(found.distance.raw, 12885030737);
}

#[test]
fn build_bvh_of_a_large_scene() {
    let count = 3000;
    let root = build_bvh(cloud(count, 99));
    let mut found = Vec::new();
    tags(&root, &mut found);
    assert_eq!(found.len(), count);
    found.sort();
    let expected: Vec<i64> = (0..count as i64).collect();
    assert_eq!(found, expected);
    check_boxes(&root);
    assert!(depth(&root) < 64);
    let scene = cloud(count, 99);
    let mut g = Lcg(5);
    let mut k = 0;
    while k < 50 {
        let origin = vec3(g.between(-12.0, 12.0), g.between(-12.0, 12.0), 15.0);
        let target = vec3(g.between(-8.0, 8.0), g.between(-8.0, 8.0), g.between(-8.0, 8.0));
        let r = Ray::new(origin, target.sub(origin).normalize());
        let found = root.collide(&r, Scalar::infinity());
        let scanned = scan(&scene, &r, Scalar::infinity());
        assert_eq!(found.map(|h| h.distance), scanned.map(|h| h.distance));
        k += 1;
    }
}
