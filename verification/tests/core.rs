use ray_tracer::GeomError;
use ray_tracer::accel::aabb::Aabb;
use ray_tracer::accel::bvh::BVH;
use ray_tracer::accel::bvh::world_bounds;
use ray_tracer::accel::bvh_node::BVHNode;
use ray_tracer::math::transform::Transform;
use ray_tracer::math::vec3::Vec3;
use ray_tracer::options::parse_resolution;
use ray_tracer::render::camera::Camera;
use ray_tracer::render::image::Image;
use ray_tracer::render::ray::Ray;
use ray_tracer::rng::Rng;
use ray_tracer::scene::Scene;
use ray_tracer::shape::primitive::Primitive;
use ray_tracer::shape::sphere::Sphere;

fn axis_frame() -> (Vec3, Vec3, Vec3) {
    (Vec3::new(1, 0, 0), Vec3::new(0, 1, 0), Vec3::new(0, 0, 1))
}

fn translated(e: Vec3) -> Transform {
    let (u, v, w) = axis_frame();
    Transform::new(e, u, v, w).unwrap()
}

#[test]
fn parse_resolution_accepts_width_x_height() {
    assert_eq!(parse_resolution("1920x1080").unwrap(), (1920, 1080));
    assert_eq!(parse_resolution("1x1").unwrap(), (1, 1));
}

#[test]
fn parse_resolution_rejects_missing_separator() {
    assert_eq!(parse_resolution("1920").unwrap_err(), "Expected <width>x<height>");
}

#[test]
fn parse_resolution_rejects_bad_width() {
    assert_eq!(parse_resolution("ax5").unwrap_err(), "<width> must be an unsigned int");
    assert_eq!(
        parse_resolution("99999999999999999999x5").unwrap_err(),
        "<width> must be an unsigned int"
    );
    assert_eq!(parse_resolution("x5").unwrap_err(), "<width> must be an unsigned int");
}

#[test]
fn parse_resolution_rejects_bad_height() {
    assert_eq!(parse_resolution("12x").unwrap_err(), "<height> must be an unsigned int");
    assert_eq!(parse_resolution("12x4x5").unwrap_err(), "<height> must be an unsigned int");
}

#[test]
fn rng_step_is_deterministic_and_nonzero() {
    let mut a = Rng::new(42);
    let mut b = Rng::new(42);
    let first = a.next_u64();
    assert_eq!(first, 42u64.wrapping_mul(1664525).wrapping_add(1013904223));
    assert_eq!(first, 1083814273);
    assert_eq!(b.next_u64(), first);
    for _ in 0..1000 {
        assert_ne!(a.next_u64(), 0);
    }
}

#[test]
fn orthogonal_transform_composes_to_scaled_identity() {
    // A genuinely rotated exact frame with common squared norm 25.
    let u = Vec3::new(3, 4, 0);
    let v = Vec3::new(-4, 3, 0);
    let w = Vec3::new(0, 0, 5);
    let e = Vec3::new(1, 2, 3);
    let t = Transform::new(e, u, v, w).unwrap();
    assert_eq!(t.den, 25);
    let fwd = t.mat.mul(&t.inv);
    let bwd = t.inv.mul(&t.mat);
    for r in 0..4 {
        for c in 0..4 {
            let expect = if r == c { 25 } else { 0 };
            assert_eq!(fwd.data()[4 * r + c], expect);
            assert_eq!(bwd.data()[4 * r + c], expect);
        }
    }
}

#[test]
fn degenerate_basis_is_rejected() {
    let u = Vec3::new(1, 0, 0);
    let e = Vec3::new(0, 0, 0);
    // Second axis parallel to the first: no orthogonal frame.
    let r = Transform::new(e, u, u, Vec3::new(0, 0, 1));
    assert_eq!(r.unwrap_err(), GeomError::DegenerateBasis);
}

#[test]
fn sphere_roots_are_symmetric_about_closest_approach() {
    // Ray through the centre of a sphere of radius 2: roots 8 and 12,
    // symmetric about the closest-approach parameter 10.
    let s = Sphere::new(2);
    let ray = Ray { p: Vec3::new(-10, 0, 0), d: Vec3::new(1, 0, 0), den: 1 };
    let hit = s.intersect_local(&ray).unwrap();
    assert_eq!(hit.t_den, 2);
    assert_eq!(hit.t_num, 16); // t = 8, the nearer root
    // The farther root is 12: their sum is -b/a = 20 = 8 + 12.

    // Tangent ray: a single root within tolerance.
    let tangent = Ray { p: Vec3::new(-10, 2, 0), d: Vec3::new(1, 0, 0), den: 1 };
    let hit = s.intersect_local(&tangent).unwrap();
    assert_eq!(hit.t_num, 20);
    assert_eq!(hit.t_den, 2); // exactly t = 10, both roots coincide

    // A ray missing the sphere: negative discriminant, no hit.
    let miss = Ray { p: Vec3::new(-10, 3, 0), d: Vec3::new(1, 0, 0), den: 1 };
    assert!(s.intersect_local(&miss).is_none());
}

#[test]
fn surface_ray_pointing_outward_finds_no_hit() {
    // Origin exactly on the sphere's surface, direction outward: both
    // roots fail the epsilon test.
    let s = Sphere::new(2);
    let ray = Ray { p: Vec3::new(2, 0, 0), d: Vec3::new(1, 0, 0), den: 1 };
    assert!(s.intersect_local(&ray).is_none());
}

#[test]
fn nearest_hit_tie_break_picks_smaller_t() {
    // Two unit spheres on the x axis: the farther is listed first. The
    // ray hits them at t = 5 and t = 3; the t = 3 hit wins.
    let mut scene = Scene::new();
    scene.add_primitive(Primitive::new(Sphere::new(1), translated(Vec3::new(6, 0, 0)), 0));
    scene.add_primitive(Primitive::new(Sphere::new(1), translated(Vec3::new(4, 0, 0)), 1));
    let ray = Ray { p: Vec3::new(0, 0, 0), d: Vec3::new(1, 0, 0), den: 1 };
    let hit = scene.find_first_hit(&ray).unwrap();
    assert_eq!(hit.prim, 1);
    assert_eq!(hit.t_num, 6);
    assert_eq!(hit.t_den, 2); // t = 3
}

#[test]
fn empty_scene_finds_no_hit() {
    let scene = Scene::new();
    let ray = Ray { p: Vec3::new(0, 0, 0), d: Vec3::new(1, 0, 0), den: 1 };
    assert!(scene.find_first_hit(&ray).is_none());
}

#[test]
fn scene_dummy_adds_one_primitive() {
    let mut scene = Scene::new();
    scene.dummy();
    assert_eq!(scene.primitives.len(), 1);
    // The dummy unit sphere at the origin is hit straight on.
    let ray = Ray { p: Vec3::new(-5, 0, 0), d: Vec3::new(1, 0, 0), den: 1 };
    let hit = scene.find_first_hit(&ray).unwrap();
    assert_eq!(hit.t_num, 8);
    assert_eq!(hit.t_den, 2); // t = 4
}

#[test]
fn central_pixel_ray_hits_front_facing() {
    // An upright camera on the x axis looking at the origin; a sphere of
    // radius 2 at the origin. The central pixel's ray must hit it with a
    // positive parameter and a normal facing against the ray.
    let e = Vec3::new(8, 0, 0);
    let u = Vec3::new(0, 1, 0);
    let v = Vec3::new(0, 0, 1);
    let w = Vec3::new(1, 0, 0);
    let cam = Camera::new(e, u, v, w, 2, 1, 1, (3, 3), String::from("out.ppm")).unwrap();
    let ray = cam.get_camera_sample((1, 1)).unwrap();
    // The ray starts at the eye and points toward the image-plane point.
    assert_eq!((ray.p.x, ray.p.y, ray.p.z), (8, 0, 0));
    assert_eq!((ray.d.x, ray.d.y, ray.d.z), (-2, 0, 0));

    let mut scene = Scene::new();
    scene.add_primitive(Primitive::new(Sphere::new(2), translated(Vec3::new(0, 0, 0)), 0));
    let hit = scene.find_first_hit(&ray).unwrap();
    assert!(hit.t_num > 0 && hit.t_den > 0);
    assert_eq!(hit.t_num, 24);
    assert_eq!(hit.t_den, 8); // t = 3: the sphere's near side at x = 2
    assert!(hit.front_facing);

    // A raster coordinate outside the resolution yields no ray.
    assert!(cam.get_camera_sample((3, 0)).is_none());
    assert!(cam.get_camera_sample((0, 3)).is_none());
}

fn node_box(n: &BVHNode) -> Aabb {
    match n {
        BVHNode::Leaf { bbox, .. } => *bbox,
        BVHNode::Interior { bbox, .. } => *bbox,
    }
}

fn contains(outer: &Aabb, inner: &Aabb) -> bool {
    outer.min.x <= inner.min.x && inner.max.x <= outer.max.x && outer.min.y <= inner.min.y
        && inner.max.y <= outer.max.y && outer.min.z <= inner.min.z && inner.max.z <= outer.max.z
}

#[test]
fn bvh_boxes_contain_children_and_leaf_primitives() {
    // Three unit spheres spread along the x axis; leaves of one
    // primitive each.
    let prims = vec![
        Primitive::new(Sphere::new(1), translated(Vec3::new(20, 0, 0)), 0),
        Primitive::new(Sphere::new(1), translated(Vec3::new(0, 0, 0)), 1),
        Primitive::new(Sphere::new(1), translated(Vec3::new(10, 0, 0)), 2),
    ];
    let mut boxes = Vec::new();
    for p in &prims {
        boxes.push(world_bounds(p));
    }
    let bvh = BVH::build(&boxes, 1).unwrap();
    assert_eq!(bvh.order.len(), 3);

    for (i, node) in bvh.nodes.iter().enumerate() {
        match node {
            BVHNode::Leaf { bbox, start, count } => {
                assert!(*count >= 1 && *count <= 1);
                for k in *start..*start + *count {
                    let prim_box = &boxes[bvh.order[k]];
                    assert!(contains(bbox, prim_box));
                }
            }
            BVHNode::Interior { bbox, left, right, .. } => {
                assert!(*left < i && *right < i);
                assert!(contains(bbox, &node_box(&bvh.nodes[*left])));
                assert!(contains(bbox, &node_box(&bvh.nodes[*right])));
            }
        }
    }

    // An empty primitive set yields no tree to traverse.
    assert!(BVH::build(&Vec::new(), 4).is_none());
}

#[test]
fn image_buffer_is_row_major() {
    let mut img = Image::new((3, 2));
    assert_eq!(img.pixels.len(), 6);
    assert!(img.pixels.iter().all(|p| *p == [0, 0, 0]));
    img.set_colour((2, 1), [255, 10, 20]);
    assert_eq!(img.pixels[5], [255, 10, 20]);
    assert_eq!(img.pixels[4], [0, 0, 0]);
}

#[test]
fn aabb_union_and_centroid() {
    let a = Aabb::new(Vec3::new(-2, 0, 0), Vec3::new(2, 1, 1));
    let b = Aabb::new(Vec3::new(1, -5, 0), Vec3::new(3, 0, 4));
    let u = a.union(&b);
    assert_eq!((u.min.x, u.min.y, u.min.z), (-2, -5, 0));
    assert_eq!((u.max.x, u.max.y, u.max.z), (3, 1, 4));
    let c = u.centroid();
    assert_eq!((c.x, c.y, c.z), (0, -2, 2));
    assert_eq!(u.largest_extent_axis(), 1);
}

#[test]
fn sphere_bounds_are_tight() {
    let s = Sphere::new(3);
    let b = s.bounds();
    assert_eq!((b.min.x, b.min.y, b.min.z), (-3, -3, -3));
    assert_eq!((b.max.x, b.max.y, b.max.z), (3, 3, 3));
}

#[test]
fn bvh_query_matches_linear_scan() {
    // Cross-validation oracle: the same primitive set queried through the
    // hierarchy and through the linear scan must agree on hit/miss and on
    // the exact ray parameter, for a batch of generated scenes and rays,
    // overlapping spheres included.
    let mut rng = Rng::new(7);
    for round in 0..6 {
        let mut plain = Scene::new();
        let mut accel = Scene::new();
        let count = 3 + (round % 4);
        for _ in 0..count {
            let cx = (rng.next_u64() % 41) as i64 - 20;
            let cy = (rng.next_u64() % 41) as i64 - 20;
            let cz = (rng.next_u64() % 41) as i64 - 20;
            let r = 1 + (rng.next_u64() % 6) as i64;
            let p = Primitive::new(Sphere::new(r), translated(Vec3::new(cx, cy, cz)), 0);
            plain.add_primitive(p);
            accel.add_primitive(p);
        }
        accel.build_acceleration(1 + (round % 3));
        assert!(accel.bvh.is_some());

        for _ in 0..40 {
            let px = (rng.next_u64() % 81) as i64 - 40;
            let py = (rng.next_u64() % 81) as i64 - 40;
            let pz = (rng.next_u64() % 81) as i64 - 40;
            let dx = (rng.next_u64() % 9) as i64 - 4;
            let dy = (rng.next_u64() % 9) as i64 - 4;
            let dz = (rng.next_u64() % 9) as i64 - 4;
            if dx == 0 && dy == 0 && dz == 0 {
                continue;
            }
            let ray = Ray { p: Vec3::new(px, py, pz), d: Vec3::new(dx, dy, dz), den: 1 };
            let a = plain.find_first_hit(&ray);
            let b = accel.find_first_hit(&ray);
            match (a, b) {
                (None, None) => {}
                (Some(ha), Some(hb)) => {
                    // Exact equality of the rational parameters.
                    assert_eq!(ha.t_num * hb.t_den, hb.t_num * ha.t_den);
                }
                _ => panic!("hierarchy and linear scan disagree on hit/miss"),
            }
        }
    }

    // Building over an empty scene leaves no hierarchy.
    let mut empty = Scene::new();
    empty.build_acceleration(4);
    assert!(empty.bvh.is_none());
}
