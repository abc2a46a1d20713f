use ray_tracer::{Aabb, BvhNode, Cuboid, HitRecord, HittableList, Interval, Ray, Vec3};

fn block(x0: i64, y0: i64, z0: i64, x1: i64, y1: i64, z1: i64) -> Cuboid {
    Cuboid::new(Aabb::set(Vec3::new(x0, y0, z0), Vec3::new(x1, y1, z1)))
}

fn row() -> Vec<Cuboid> {
    vec![
        block(30, 0, 0, 32, 2, 2),
        block(10, 0, 0, 12, 2, 2),
        block(50, 0, 0, 52, 2, 2),
        block(20, -1, -1, 23, 3, 3),
        block(40, 0, 0, 41, 1, 1),
        block(10, 5, 5, 12, 7, 7),
    ]
}

fn list_of(objs: &[Cuboid]) -> HittableList {
    let mut l = HittableList::new();
    for o in objs {
        l.add(*o);
    }
    l
}

#[test]
fn cuboid_front_and_back_hits() {
    let c = block(0, 0, 0, 10, 10, 10);
    let outside = Ray::new(Vec3::new(-5, 5, 5), Vec3::new(1, 0, 0));
    assert_eq!(c.hit(&outside, 0, 100), Some(HitRecord { t: 5, den: 1, front_face: true }));
    let inside = Ray::new(Vec3::new(5, 5, 5), Vec3::new(2, 0, 0));
    assert_eq!(c.hit(&inside, 0, 200), Some(HitRecord { t: 5, den: 2, front_face: false }));
    assert_eq!(c.hit(&inside, 0, 5), None);
    assert_eq!(c.hit(&outside, 0, 5), None);
    assert_eq!(c.bounding_box(), Aabb::set(Vec3::new(0, 0, 0), Vec3::new(10, 10, 10)));
}

#[test]
fn list_add_grows_bbox() {
    let mut l = HittableList::new();
    assert_eq!(l.bounding_box(), None);
    l.add(block(0, 0, 0, 1, 1, 1));
    assert_eq!(l.bounding_box(), Some(Aabb::set(Vec3::new(0, 0, 0), Vec3::new(1, 1, 1))));
    l.add(block(-2, 3, 0, 0, 4, 5));
    assert_eq!(l.bounding_box(), Some(Aabb::set(Vec3::new(-2, 0, 0), Vec3::new(1, 4, 5))));
    assert_eq!(l.objects.len(), 2);
    l.clear();
    assert_eq!(l.objects.len(), 0);
    assert_eq!(l.bounding_box(), None);
    let one = HittableList::set(block(1, 1, 1, 2, 2, 2));
    assert_eq!(one.objects.len(), 1);
    assert_eq!(one.bounding_box(), Some(Aabb::set(Vec3::new(1, 1, 1), Vec3::new(2, 2, 2))));
}

#[test]
fn list_reports_nearest_hit() {
    let l = list_of(&row());
    let r = Ray::new(Vec3::new(0, 1, 1), Vec3::new(1, 0, 0));
    let h = l.hit(&r, Interval::set(0, 1000)).unwrap();
    assert_eq!(h, HitRecord { t: 10, den: 1, front_face: true });
    let h = l.hit(&r, Interval::set(12, 1000)).unwrap();
    assert_eq!(h.t, 20);
    assert_eq!(l.hit(&r, Interval::set(0, 10)), None);
    let back = Ray::new(Vec3::new(100, 1, 1), Vec3::new(-3, 0, 0));
    assert_eq!(back.scale_of(), 3);
    assert_eq!(l.hit(&back, Interval::set(0, 1000)).unwrap().t, 48);
}

#[test]
fn bvh_build_keeps_all_primitives() {
    let objs = row();
    let node = BvhNode::new(&objs, 0, objs.len());
    assert_eq!(node.bounding_box(), Aabb::set(Vec3::new(10, -1, -1), Vec3::new(52, 7, 7)));
    let single = BvhNode::new(&objs, 2, 3);
    assert_eq!(single.bounding_box(), objs[2].bbox);
    let pair = BvhNode::new(&objs, 0, 2);
    assert_eq!(pair.bounding_box(), Aabb::set(Vec3::new(10, 0, 0), Vec3::new(32, 2, 2)));
}

#[test]
fn bvh_matches_linear_scan() {
    let objs = row();
    let list = list_of(&objs);
    let node = BvhNode::set(list_of(&objs));
    let rays = [
        Ray::new(Vec3::new(0, 1, 1), Vec3::new(1, 0, 0)),
        Ray::new(Vec3::new(100, 1, 1), Vec3::new(-3, 0, 0)),
        Ray::new(Vec3::new(11, 20, 6), Vec3::new(0, -1, 0)),
        Ray::new(Vec3::new(0, 0, 0), Vec3::new(7, 1, 1)),
        Ray::new(Vec3::new(21, 1, 1), Vec3::new(1, 0, 0)),
        Ray::new(Vec3::new(0, 100, 100), Vec3::new(1, 1, 1)),
        Ray::new(Vec3::new(45, 1, 1), Vec3::new(-1, 0, 0)),
    ];
    for r in rays.iter() {
        for ray_t in [Interval::set(0, 1000), Interval::set(-1000, 1000), Interval::set(1, 15)] {
            let a = node.hit(r, ray_t).map(|h| (h.t, h.den));
            let b = list.hit(r, ray_t).map(|h| (h.t, h.den));
            assert_eq!(a, b);
        }
    }
    let r = Ray::new(Vec3::new(45, 1, 1), Vec3::new(-1, 0, 0));
    assert_eq!(node.hit(&r, Interval::set(0, 1000)).unwrap().t, 13);
}

#[test]
fn bvh_sort_and_compare() {
    let objs = row();
    assert!(BvhNode::box_compare(&objs[1], &objs[0], 0));
    assert!(!BvhNode::box_compare(&objs[0], &objs[1], 0));
    assert!(!BvhNode::box_compare(&objs[0], &objs[1], 5));
    assert!(BvhNode::box_x_compare(&objs[1], &objs[0]));
    assert!(BvhNode::box_y_compare(&objs[3], &objs[0]));
    assert!(!BvhNode::box_z_compare(&objs[0], &objs[1]));
    let sorted = ray_tracer::bvh::sort_by_axis(&objs, 0);
    let mins: Vec<i64> = sorted.iter().map(|c| c.bbox.x.min).collect();
    assert_eq!(mins, vec![10, 10, 20, 30, 40, 50]);
    assert_eq!(sorted[0], objs[1]);
    assert_eq!(sorted[1], objs[5]);
}

#[test]
fn list_prefers_first_on_equal_parameter() {
    let exit_at_ten = block(-5, -5, -5, 10, 5, 5);
    let enter_at_ten = block(10, -1, -1, 12, 1, 1);
    let r = Ray::new(Vec3::new(0, 0, 0), Vec3::new(1, 0, 0));
    let first = list_of(&[exit_at_ten, enter_at_ten]).hit(&r, Interval::set(0, 100)).unwrap();
    assert_eq!(first, HitRecord { t: 10, den: 1, front_face: false });
    let second = list_of(&[enter_at_ten, exit_at_ten]).hit(&r, Interval::set(0, 100)).unwrap();
    assert_eq!(second, HitRecord { t: 10, den: 1, front_face: true });
    let node = BvhNode::new(&vec![enter_at_ten, exit_at_ten], 0, 2);
    assert_eq!(node.hit(&r, Interval::set(0, 100)).unwrap(), second);
}
