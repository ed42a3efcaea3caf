use raytrace::aabb::{surrounding_box, Slab, AABB};
use raytrace::bvh::{BVHNode, BvhError};
use raytrace::geom::{Param, Ray, Vec3};
use raytrace::hittable::{FlipFace, HittableList, Object};
use raytrace::object::{AABox, AARectType, HitRecord};
use raytrace::transform::{Rotation, Transform};

fn v(x: i64, y: i64, z: i64) -> Vec3 {
    Vec3::new(x, y, z)
}

fn same(a: Param, b: Param) -> bool {
    (a.num as i128) * (b.den as i128) == (b.num as i128) * (a.den as i128)
}

fn unit_box() -> AABB {
    AABB { min: v(-1, -1, -1), max: v(1, 1, 1) }
}

#[test]
fn surrounding_box_contains_both() {
    let a = AABB { min: v(-3, 0, 2), max: v(1, 4, 5) };
    let b = AABB { min: v(0, -2, 3), max: v(6, 1, 4) };
    let u = surrounding_box(a, b);
    assert_eq!((u.min.x, u.min.y, u.min.z), (-3, -2, 2));
    assert_eq!((u.max.x, u.max.y, u.max.z), (6, 4, 5));
    let w = surrounding_box(b, a);
    assert_eq!((w.min.x, w.min.y, w.min.z, w.max.x, w.max.y, w.max.z), (-3, -2, 2, 6, 4, 5));
}

#[test]
fn slab_test_entry_and_exit() {
    let ray = Ray::new(v(0, 0, 5), v(0, 0, -1));
    match unit_box().line_interval(&ray) {
        Slab::Range(a, b) => {
            assert!(same(a, Param::new(4, 1)));
            assert!(same(b, Param::new(6, 1)));
        }
        _ => panic!("the ray crosses the box"),
    }
    assert!(unit_box().hit(&ray, Param::new(0, 1), Param::far()));
    assert!(unit_box().hit(&ray, Param::new(5, 1), Param::new(7, 1)));
    assert!(!unit_box().hit(&ray, Param::new(0, 1), Param::new(3, 1)));
    assert!(!unit_box().hit(&ray, Param::new(13, 2), Param::far()));
}

#[test]
fn slab_test_misses_parallel_ray() {
    let ray = Ray::new(v(0, 3, 5), v(0, 0, -1));
    assert!(matches!(unit_box().line_interval(&ray), Slab::Empty));
    assert!(!unit_box().hit(&ray, Param::new(0, 1), Param::far()));
}

#[test]
fn slab_test_rational_parameters() {
    let ray = Ray::new(v(-7, -2, 0), v(3, 1, 0));
    match unit_box().line_interval(&ray) {
        Slab::Range(a, b) => {
            assert!(same(a, Param::new(2, 1)));
            assert!(same(b, Param::new(8, 3)));
        }
        _ => panic!("the ray crosses the box"),
    }
}

#[test]
fn box_hit_from_outside_and_inside() {
    let b = AABox::new(v(1, 1, 1), v(-1, -1, -1), 7);
    let ray = Ray::new(v(0, 0, 5), v(0, 0, -1));
    let h = b.hit(&ray, Param::new(1, 1000), Param::far()).unwrap();
    assert!(same(h.t, Param::new(4, 1)));
    assert_eq!((h.p.x, h.p.y, h.p.z, h.p.den), (0, 0, 1, 1));
    assert_eq!((h.normal.x, h.normal.y, h.normal.z), (0, 0, 1));
    assert!(h.front_face);
    assert_eq!(h.material, 7);

    let inside = Ray::new(v(0, 0, 0), v(0, 0, -1));
    let h = b.hit(&inside, Param::new(1, 1000), Param::far()).unwrap();
    assert!(same(h.t, Param::new(1, 1)));
    assert!(!h.front_face);
    assert_eq!((h.normal.x, h.normal.y, h.normal.z), (0, 0, 1));

    assert!(b.hit(&ray, Param::new(1, 1000), Param::new(3, 1)).is_none());
}

#[test]
fn rectangle_faces_positive_axis() {
    let r = AABox::rect(AARectType::XY, -1, 1, -1, 1, 0, 3);
    let down = Ray::new(v(0, 0, 4), v(0, 0, -2));
    let h = r.hit(&down, Param::new(0, 1), Param::far()).unwrap();
    assert!(same(h.t, Param::new(2, 1)));
    assert!(h.front_face);
    let up = Ray::new(v(0, 0, -4), v(0, 0, 1));
    let h = r.hit(&up, Param::new(0, 1), Param::far()).unwrap();
    assert!(same(h.t, Param::new(4, 1)));
    assert!(!h.front_face);
    assert_eq!((h.normal.x, h.normal.y, h.normal.z), (0, 0, -1));
}

#[test]
fn flip_face_inverts_front_flag() {
    let r = AABox::rect(AARectType::XZ, -1, 1, -1, 1, 2, 0);
    let ray = Ray::new(v(0, 5, 0), v(0, -1, 0));
    let plain = Object::Solid(r).hit(&ray, Param::new(0, 1), Param::far()).unwrap();
    let flipped = Object::Flip(FlipFace::new(Object::Solid(r))).hit(&ray, Param::new(0, 1), Param::far()).unwrap();
    assert!(plain.front_face);
    assert!(!flipped.front_face);
    assert!(same(plain.t, flipped.t));
    assert_eq!(plain.p.y, flipped.p.y);
}

#[test]
fn list_finds_nearest() {
    let mut list = HittableList::new();
    list.push(Object::Solid(AABox::new(v(-1, -1, -10), v(1, 1, -8), 0)));
    list.push(Object::Solid(AABox::new(v(-1, -1, -3), v(1, 1, -2), 1)));
    list.push(Object::Solid(AABox::new(v(5, 5, -3), v(6, 6, -2), 2)));
    let ray = Ray::new(v(0, 0, 0), v(0, 0, -1));
    let h = list.hit(&ray, Param::new(1, 1000), Param::far()).unwrap();
    assert!(same(h.t, Param::new(2, 1)));
    assert_eq!(h.material, 1);
    let b = list.bounding_box().unwrap();
    assert_eq!((b.min.x, b.min.z, b.max.x, b.max.z), (-1, -10, 6, -2));
    assert!(HittableList::new().bounding_box().is_none());
    assert!(HittableList::new().hit(&ray, Param::new(0, 1), Param::far()).is_none());
}

#[test]
fn bvh_of_nothing_is_refused() {
    assert!(matches!(BVHNode::build(Vec::new(), 0), Err(BvhError::Empty)));
}

#[test]
fn bvh_single_object() {
    let bvh = BVHNode::build(vec![Object::Solid(AABox::new(v(-1, -1, -1), v(1, 1, 1), 4))], 0).unwrap();
    let ray = Ray::new(v(0, 0, 5), v(0, 0, -1));
    let h = bvh.hit(&ray, Param::new(0, 1), Param::far()).unwrap();
    assert!(same(h.t, Param::new(4, 1)));
    assert_eq!(h.material, 4);
    let b = bvh.bounding_box().unwrap();
    assert_eq!((b.min.x, b.max.x), (-1, 1));
}

struct Lcg(u64);

impl Lcg {
    fn next(&mut self, lo: i64, hi: i64) -> i64 {
        self.0 = self.0.wrapping_mul(6364136223846793005).wrapping_add(1442695040888963407);
        lo + ((self.0 >> 33) % ((hi - lo + 1) as u64)) as i64
    }
}

fn random_objects(rng: &mut Lcg, n: usize) -> Vec<Object> {
    let mut objs = Vec::new();
    for k in 0..n {
        let p = v(rng.next(-100, 100), rng.next(-100, 100), rng.next(-100, 100));
        let q = v(p.x + rng.next(0, 20), p.y + rng.next(0, 20), p.z + rng.next(0, 20));
        let b = AABox::new(p, q, k);
        objs.push(match k % 3 {
            0 => Object::Solid(b),
            1 => Object::Flip(FlipFace::new(Object::Solid(b))),
            _ => {
                let r = Rotation::new(2, 1, 0, 1, 1, -1).unwrap();
                Object::Moved(Transform::new(b, v(rng.next(-50, 50), 0, rng.next(-50, 50)), r))
            }
        });
    }
    objs
}

fn same_hit(a: &Option<HitRecord>, b: &Option<HitRecord>) -> bool {
    match (a, b) {
        (None, None) => true,
        (Some(x), Some(y)) => same(x.t, y.t),
        _ => false,
    }
}

#[test]
fn bvh_matches_linear_scan() {
    let mut rng = Lcg(42);
    let objs = random_objects(&mut rng, 60);
    let list = HittableList { objects: random_objects(&mut Lcg(42), 60) };
    let bvh = BVHNode::build(objs, 0).unwrap();
    let mut hits = 0;
    for _ in 0..400 {
        let o = v(rng.next(-200, 200), rng.next(-200, 200), rng.next(-200, 200));
        let mut d = v(rng.next(-5, 5), rng.next(-5, 5), rng.next(-5, 5));
        if d.x == 0 && d.y == 0 && d.z == 0 {
            d = v(1, 0, 0);
        }
        let ray = Ray::new(o, d);
        let a = bvh.hit(&ray, Param::new(1, 1000), Param::far());
        let b = list.hit(&ray, Param::new(1, 1000), Param::far());
        assert!(same_hit(&a, &b));
        if a.is_some() {
            hits += 1;
        }
    }
    assert!(hits > 0);
}

#[test]
fn bvh_bounds_every_object() {
    let objs = random_objects(&mut Lcg(7), 25);
    let bvh = BVHNode::build(objs, 0).unwrap();
    let b = bvh.bounding_box().unwrap();
    for o in bvh.objects.iter() {
        let ob = o.bounding_box().unwrap();
        assert!(b.min.x <= ob.min.x && ob.max.x <= b.max.x);
        assert!(b.min.y <= ob.min.y && ob.max.y <= b.max.y);
        assert!(b.min.z <= ob.min.z && ob.max.z <= b.max.z);
    }
}

#[test]
fn transform_places_hit_point() {
    // a quarter turn about y: (x, y, z) goes to (z, y, -x)
    let r = Rotation::new(2, 1, 0, 1, 1, -1).unwrap();
    let tr = Transform::new(AABox::new(v(0, 0, 0), v(2, 2, 2), 9), v(10, 0, 0), r);
    assert_eq!((tr.bbox.min.x, tr.bbox.min.y, tr.bbox.min.z), (10, 0, -2));
    assert_eq!((tr.bbox.max.x, tr.bbox.max.y, tr.bbox.max.z), (12, 2, 0));
    let ray = Ray::new(v(20, 1, -1), v(-1, 0, 0));
    let h = tr.hit(&ray, Param::new(1, 1000), Param::far()).unwrap();
    assert!(same(h.t, Param::new(8, 1)));
    assert_eq!((h.p.x, h.p.y, h.p.z, h.p.den), (12, 1, -1, 1));
    assert_eq!((h.normal.x, h.normal.y, h.normal.z), (1, 0, 0));
    let local = tr.moved_ray(&ray);
    assert_eq!((local.orig.x, local.orig.y, local.orig.z), (1, 1, 10));
    let lp = local.at(h.t);
    let back = tr.place_point(&lp);
    assert_eq!((back.x, back.y, back.z), (12, 1, -1));
    let q = r.rotate(&v(1, 2, 3));
    assert_eq!((q.x, q.y, q.z), (3, 2, -1));
    let u = r.unrotate(&q);
    assert_eq!((u.x, u.y, u.z), (1, 2, 3));
}

#[test]
fn rotation_rejects_reflections() {
    assert!(Rotation::new(0, 1, 2, 1, 1, 1).is_some());
    assert!(Rotation::new(0, 1, 2, -1, 1, 1).is_none());
    assert!(Rotation::new(1, 0, 2, 1, 1, 1).is_none());
    assert!(Rotation::new(1, 0, 2, 1, 1, -1).is_some());
    assert!(Rotation::new(0, 0, 2, 1, 1, 1).is_none());
    assert!(Rotation::new(0, 1, 3, 1, 1, 1).is_none());
}

#[test]
fn ray_point_at_parameter() {
    let ray = Ray::new(v(1, 2, 3), v(2, -1, 4));
    let p = ray.point_at_parameter(Param::new(3, 2));
    assert_eq!((p.x, p.y, p.z, p.den), (8, 1, 18, 2));
    assert_eq!(ray.origin().x, 1);
    assert_eq!(ray.direction().z, 4);
}

#[test]
fn face_normal_turns_toward_ray() {
    let ray = Ray::new(v(0, 0, 5), v(0, 0, -1));
    let mut h = AABox::new(v(-1, -1, -1), v(1, 1, 1), 0).hit(&ray, Param::new(0, 1), Param::far()).unwrap();
    h.set_face_normal(&ray, v(0, 0, -1));
    assert!(!h.front_face);
    assert_eq!((h.normal.x, h.normal.y, h.normal.z), (0, 0, 1));
    h.set_face_normal(&ray, v(0, 0, 1));
    assert!(h.front_face);
    assert_eq!((h.normal.x, h.normal.y, h.normal.z), (0, 0, 1));
}

#[test]
fn slab_test_is_closed() {
    let ray = Ray::new(v(0, 0, 5), v(0, 0, -1));
    assert!(unit_box().hit(&ray, Param::new(0, 1), Param::new(4, 1)));
    assert!(unit_box().hit(&ray, Param::new(6, 1), Param::new(9, 1)));
    assert!(!unit_box().hit(&ray, Param::new(7, 1), Param::new(6, 1)));
    let grazing = Ray::new(v(1, 1, 5), v(0, 0, -1));
    assert!(unit_box().hit(&grazing, Param::new(0, 1), Param::far()));
}

#[test]
fn bvh_root_box_is_union_of_objects() {
    let objs = random_objects(&mut Lcg(11), 30);
    let mut u = objs[0].bounding_box().unwrap();
    for o in objs.iter().skip(1) {
        u = surrounding_box(u, o.bounding_box().unwrap());
    }
    let bvh = BVHNode::build(objs, 0).unwrap();
    let b = bvh.bounding_box().unwrap();
    assert_eq!((b.min.x, b.min.y, b.min.z), (u.min.x, u.min.y, u.min.z));
    assert_eq!((b.max.x, b.max.y, b.max.z), (u.max.x, u.max.y, u.max.z));
}

#[test]
fn bvh_of_one_object_is_that_object() {
    let o = AABox::new(v(-3, 0, 2), v(1, 4, 5), 6);
    let bvh = BVHNode::build(vec![Object::Solid(o)], 0).unwrap();
    let b = bvh.bounding_box().unwrap();
    assert_eq!((b.min.x, b.min.y, b.min.z, b.max.x, b.max.y, b.max.z), (-3, 0, 2, 1, 4, 5));
    let mut rng = Lcg(5);
    for _ in 0..100 {
        let ray = Ray::new(v(rng.next(-20, 20), rng.next(-20, 20), rng.next(-20, 20)), v(rng.next(-3, 3), rng.next(-3, 3), 1));
        let a = bvh.hit(&ray, Param::new(1, 1000), Param::far());
        let e = o.hit(&ray, Param::new(1, 1000), Param::far());
        match (a, e) {
            (None, None) => {}
            (Some(x), Some(y)) => {
                assert_eq!((x.t.num, x.t.den, x.p.x, x.p.y, x.p.z, x.p.den), (y.t.num, y.t.den, y.p.x, y.p.y, y.p.z, y.p.den));
                assert_eq!((x.normal.x, x.normal.y, x.normal.z, x.front_face), (y.normal.x, y.normal.y, y.normal.z, y.front_face));
            }
            _ => panic!("the hierarchy and its one object disagree"),
        }
    }
}

#[test]
fn rectangle_hit_uv_at_center() {
    let r = AABox::rect(AARectType::XY, -1, 1, -1, 1, 0, 2);
    let ray = Ray::new(v(0, 0, 5), v(0, 0, -1));
    let h = r.hit(&ray, Param::new(1, 1000), Param::far()).unwrap();
    assert!(same(h.t, Param::new(5, 1)));
    assert_eq!((h.p.x, h.p.y, h.p.z), (0, 0, 0));
    assert_eq!((h.uv.u_num * 2, h.uv.u_den, h.uv.v_num * 2, h.uv.v_den), (2, 2, 2, 2));
    assert_eq!((h.normal.x, h.normal.y, h.normal.z), (0, 0, 1));
    assert!(h.front_face);
    let corner = Ray::new(v(1, -1, 5), v(0, 0, -1));
    let h = r.hit(&corner, Param::new(1, 1000), Param::far()).unwrap();
    assert_eq!((h.uv.u_num, h.uv.u_den, h.uv.v_num, h.uv.v_den), (2, 2, 0, 2));
}

#[test]
fn hit_record_for_any_outward_normal() {
    let ray = Ray::new(v(0, 0, 5), v(0, 0, -1));
    let p = ray.at(Param::new(4, 1));
    let uv = raytrace::object::Uv { u_num: 1, u_den: 2, v_num: 1, v_den: 3 };
    let h = HitRecord::new(Param::new(4, 1), p, v(0, 2, 3), &ray, 5, uv);
    assert!(h.front_face);
    assert_eq!((h.normal.x, h.normal.y, h.normal.z), (0, 2, 3));
    let h = HitRecord::new(Param::new(4, 1), p, v(1, 0, -3), &ray, 5, uv);
    assert!(!h.front_face);
    assert_eq!((h.normal.x, h.normal.y, h.normal.z), (-1, 0, 3));
    assert_eq!((h.uv.u_num, h.uv.v_den, h.material), (1, 3, 5));
}
