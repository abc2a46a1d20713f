use ray_tracer::{Aabb, Interval, Ray, Vec3};

fn cube(lo: i64, hi: i64) -> Aabb {
    Aabb::set(Vec3::new(lo, lo, lo), Vec3::new(hi, hi, hi))
}

#[test]
fn interval_size_and_membership() {
    let i = Interval::set(1, 5);
    assert_eq!(i.size(), 4);
    assert!(i.contains(1));
    assert!(i.contains(5));
    assert!(!i.contains(6));
    assert!(i.surrounds(3));
    assert!(!i.surrounds(5));
    assert!(!i.surrounds(1));
    assert_eq!(i.min(), 1);
    assert_eq!(i.max(), 5);
}

#[test]
fn interval_clamp_saturates() {
    let i = Interval::set(1, 5);
    assert_eq!(i.clamp(7), 5);
    assert_eq!(i.clamp(-2), 1);
    assert_eq!(i.clamp(3), 3);
}

#[test]
fn interval_empty_is_identity_of_hull() {
    let e = Interval::empty();
    assert_eq!(e.min, i64::MAX);
    assert_eq!(e.max, i64::MIN);
    let x = Interval::set(-3, 4);
    assert_eq!(Interval::intersect(&e, &x), x);
    assert_eq!(Interval::intersect(&x, &e), x);
    assert_eq!(Interval::intersect(&Interval::set(1, 3), &Interval::set(2, 8)), Interval::set(1, 8));
    let u = Interval::universe();
    assert_eq!(u, Interval::new());
    assert!(u.contains(i64::MIN) && u.contains(i64::MAX));
}

#[test]
fn interval_expand_and_shift() {
    assert_eq!(Interval::set(0, 10).expand(4), Interval::set(-2, 12));
    assert_eq!(Interval::set(0, 10).expand(3), Interval::set(-1, 12));
    assert_eq!(Interval::set(1, 2).add(3), Interval::set(4, 5));
}

#[test]
fn aabb_set_orders_corners() {
    let b = Aabb::set(Vec3::new(3, 0, 5), Vec3::new(1, 2, 4));
    assert_eq!(b.x, Interval::set(1, 3));
    assert_eq!(b.y, Interval::set(0, 2));
    assert_eq!(b.z, Interval::set(4, 5));
    assert_eq!(b, Aabb::set(Vec3::new(1, 2, 4), Vec3::new(3, 0, 5)));
}

#[test]
fn aabb_union_commutative_and_idempotent() {
    let a = Aabb::set(Vec3::new(0, 0, 0), Vec3::new(2, 3, 4));
    let b = Aabb::set(Vec3::new(-1, 1, 5), Vec3::new(1, 7, 6));
    let ab = Aabb::surrounding_box(a, b);
    assert_eq!(ab, Aabb::surrounding_box(b, a));
    assert_eq!(Aabb::surrounding_box(a, a), a);
    assert_eq!(ab, Aabb::set(Vec3::new(-1, 0, 0), Vec3::new(2, 7, 6)));
}

#[test]
fn aabb_axis_interval_and_longest_axis() {
    let b = Aabb::set(Vec3::new(0, 0, 0), Vec3::new(5, 2, 3));
    assert_eq!(b.axis_interval(0), Interval::set(0, 5));
    assert_eq!(b.axis_interval(2), Interval::set(0, 3));
    assert_eq!(b.axis_interval(7), Interval::new());
    assert_eq!(b.longest_axis(), 0);
    assert_eq!(Aabb::set(Vec3::new(0, 0, 0), Vec3::new(1, 4, 2)).longest_axis(), 1);
    assert_eq!(cube(0, 3).longest_axis(), 2);
    assert_eq!(Aabb::set(Vec3::new(0, 0, 0), Vec3::new(4, 4, 1)).longest_axis(), 1);
}

#[test]
fn aabb_hit_from_inside() {
    let b = cube(0, 10);
    let r = Ray::new(Vec3::new(5, 5, 5), Vec3::new(1, 0, 0));
    assert!(b.hit(&r, Interval::set(-1, 1)));
    let r2 = Ray::new(Vec3::new(1, 9, 2), Vec3::new(-3, 7, 2));
    assert!(b.hit(&r2, Interval::set(-1, 1)));
    assert!(b.hit(&r2, Interval::universe()));
}

#[test]
fn aabb_hit_from_outside() {
    let b = cube(0, 10);
    let r = Ray::new(Vec3::new(-5, 5, 5), Vec3::new(1, 0, 0));
    assert!(b.hit(&r, Interval::set(0, 100)));
    assert!(b.hit(&r, Interval::set(0, 6)));
    assert!(!b.hit(&r, Interval::set(0, 5)));
    assert!(!b.hit(&r, Interval::set(15, 100)));
    let away = Ray::new(Vec3::new(-5, 5, 5), Vec3::new(-1, 0, 0));
    assert!(!b.hit(&away, Interval::set(0, 100)));
    let diagonal = Ray::new(Vec3::new(-4, -4, 5), Vec3::new(1, 1, 0));
    assert!(b.hit(&diagonal, Interval::set(0, 100)));
    let skew = Ray::new(Vec3::new(-4, 20, 5), Vec3::new(1, 1, 0));
    assert!(!b.hit(&skew, Interval::set(0, 100)));
}

#[test]
fn aabb_hit_parallel_rays() {
    let b = cube(0, 10);
    let outside = Ray::new(Vec3::new(-5, 20, 5), Vec3::new(1, 0, 0));
    assert!(!b.hit(&outside, Interval::set(0, 100)));
    let on_face = Ray::new(Vec3::new(-5, 10, 5), Vec3::new(1, 0, 0));
    assert!(!b.hit(&on_face, Interval::set(0, 100)));
    let still = Ray::new(Vec3::new(5, 5, 5), Vec3::new(0, 0, 0));
    assert!(b.hit(&still, Interval::set(-1, 1)));
    assert!(!b.hit(&still, Interval::set(1, 1)));
}

#[test]
fn aabb_clip_gives_exact_range() {
    let b = cube(0, 10);
    let r = Ray::new(Vec3::new(-5, 5, 5), Vec3::new(2, 0, 0));
    assert_eq!(r.scale_of(), 2);
    let s = r.scale_of();
    assert_eq!(b.clip(&r, 0, 100 * s), Some((5, 15)));
    assert_eq!(b.clip(&r, 0, 3), None);
}

#[test]
fn ray_at_and_scale() {
    let r = Ray::new(Vec3::new(1, 2, 3), Vec3::new(1, 0, -1));
    assert_eq!(r.at(2), Vec3::new(3, 2, 1));
    let s = Ray::new(Vec3::new(0, 0, 0), Vec3::new(2, 0, -3));
    assert_eq!(s.scale_of(), 6);
    assert_eq!(s.cofactor_of(0), 3);
    assert_eq!(s.cofactor_of(1), 6);
    assert_eq!(s.cofactor_of(2), 2);
    assert_eq!(s.scaled(-4), -24);
}

#[test]
fn vec3_arithmetic() {
    let a = Vec3::new(1, -2, 3);
    assert_eq!(a.plus(&Vec3::new(4, 5, 6)), Vec3::new(5, 3, 9));
    assert_eq!(a.negated(), Vec3::new(-1, 2, -3));
    assert_eq!(a.get(1), -2);
    assert_eq!(a.get(9), 3);
}
