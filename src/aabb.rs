use vstd::prelude::*;
use crate::interval::{Interval, min_of, max_of};
use crate::ray::Ray;
use crate::vec3::{Vec3, COORD_LIMIT};

verus! {

/// An axis-aligned bounding box: one interval per axis.
///
/// Ray parameters below are numerators over the ray's `scale()`: the value
/// `t` stands for the point `origin + (t / scale) * direction`.
#[derive(Clone, Copy, Debug, PartialEq, Eq, Structural)]
pub struct Aabb {
    pub x: Interval,
    pub y: Interval,
    pub z: Interval,
}

pub open spec fn max_int(a: int, b: int) -> int {
    if a >= b {
        a
    } else {
        b
    }
}

pub open spec fn min_int(a: int, b: int) -> int {
    if a <= b {
        a
    } else {
        b
    }
}

/// Where a ray with origin `o` and direction `d != 0` enters the slab `ax`;
/// `c` is the ray's cofactor for this axis.
pub open spec fn entry(ax: Interval, o: i64, d: i64, c: int) -> int {
    if d > 0 {
        (ax.min - o) * c
    } else {
        (o - ax.max) * c
    }
}

/// Where a ray with origin `o` and direction `d != 0` leaves the slab `ax`.
pub open spec fn exit(ax: Interval, o: i64, d: i64, c: int) -> int {
    if d > 0 {
        (ax.max - o) * c
    } else {
        (o - ax.min) * c
    }
}

/// The start of the parameter range after narrowing by one slab.
pub open spec fn narrow_lo(ax: Interval, o: i64, d: i64, c: int, lo: int) -> int {
    if d == 0 {
        lo
    } else {
        max_int(lo, entry(ax, o, d, c))
    }
}

/// The end of the parameter range after narrowing by one slab.
pub open spec fn narrow_hi(ax: Interval, o: i64, d: i64, c: int, hi: int) -> int {
    if d == 0 {
        hi
    } else {
        min_int(hi, exit(ax, o, d, c))
    }
}

/// A ray parallel to a slab stays in it only if it starts strictly inside.
pub open spec fn parallel_inside(ax: Interval, o: i64, d: i64) -> bool {
    d == 0 ==> ax.min < o && o < ax.max
}

impl Aabb {
    /// The interval of axis `n` (0, 1, 2); any other axis is unbounded.
    pub open spec fn axis(self, n: int) -> Interval {
        if n == 0 {
            self.x
        } else if n == 1 {
            self.y
        } else if n == 2 {
            self.z
        } else {
            Interval { min: i64::MIN, max: i64::MAX }
        }
    }

    /// Every axis is a well-formed interval within the coordinate limit.
    pub open spec fn bounded(self) -> bool {
        self.x.within(COORD_LIMIT) && self.y.within(COORD_LIMIT) && self.z.within(COORD_LIMIT)
    }

    /// Every axis of `self` lies within the same axis of `outer`.
    pub open spec fn inside(self, outer: Aabb) -> bool {
        &&& outer.x.min <= self.x.min && self.x.max <= outer.x.max
        &&& outer.y.min <= self.y.min && self.y.max <= outer.y.max
        &&& outer.z.min <= self.z.min && self.z.max <= outer.z.max
    }

    /// The component-wise hull of two boxes.
    pub open spec fn union(a: Aabb, b: Aabb) -> Aabb {
        Aabb {
            x: Interval::hull(a.x, b.x),
            y: Interval::hull(a.y, b.y),
            z: Interval::hull(a.z, b.z),
        }
    }

    /// The box spanned by two corners, in either order.
    pub open spec fn spanned(a: Vec3, b: Vec3) -> Aabb {
        Aabb {
            x: Interval { min: min_of(a.x, b.x), max: max_of(a.x, b.x) },
            y: Interval { min: min_of(a.y, b.y), max: max_of(a.y, b.y) },
            z: Interval { min: min_of(a.z, b.z), max: max_of(a.z, b.z) },
        }
    }

    /// The start of the parameter range left after all three slabs.
    pub open spec fn range_lo(self, r: Ray, lo: int) -> int {
        narrow_lo(self.z, r.origin.z, r.direction.z, r.cofactor(2),
            narrow_lo(self.y, r.origin.y, r.direction.y, r.cofactor(1),
            narrow_lo(self.x, r.origin.x, r.direction.x, r.cofactor(0), lo)))
    }

    /// The end of the parameter range left after all three slabs.
    pub open spec fn range_hi(self, r: Ray, hi: int) -> int {
        narrow_hi(self.z, r.origin.z, r.direction.z, r.cofactor(2),
            narrow_hi(self.y, r.origin.y, r.direction.y, r.cofactor(1),
            narrow_hi(self.x, r.origin.x, r.direction.x, r.cofactor(0), hi)))
    }

    /// The slab test: the ray, restricted to parameters in `(lo, hi)`, meets
    /// the box in a range of positive length.
    pub open spec fn hit_spec(self, r: Ray, lo: int, hi: int) -> bool {
        &&& parallel_inside(self.x, r.origin.x, r.direction.x)
        &&& parallel_inside(self.y, r.origin.y, r.direction.y)
        &&& parallel_inside(self.z, r.origin.z, r.direction.z)
        &&& self.range_lo(r, lo) < self.range_hi(r, hi)
    }

    pub fn new(x: Interval, y: Interval, z: Interval) -> (r: Aabb)
        ensures
            r == (Aabb { x, y, z }),
    {
        Aabb { x, y, z }
    }

    /// The box spanned by two opposite corners, given in any order.
    pub fn set(a: Vec3, b: Vec3) -> (r: Aabb)
        ensures
            r == Aabb::spanned(a, b),
    {
        let x = if a.x > b.x {
            Interval::set(b.x, a.x)
        } else {
            Interval::set(a.x, b.x)
        };
        let y = if a.y > b.y {
            Interval::set(b.y, a.y)
        } else {
            Interval::set(a.y, b.y)
        };
        let z = if a.z > b.z {
            Interval::set(b.z, a.z)
        } else {
            Interval::set(a.z, b.z)
        };
        Aabb { x, y, z }
    }

    /// The smallest box that holds both boxes.
    pub fn surrounding_box(box0: Aabb, box1: Aabb) -> (r: Aabb)
        ensures
            r == Aabb::union(box0, box1),
    {
        Aabb {
            x: Interval::intersect(&box0.x, &box1.x),
            y: Interval::intersect(&box0.y, &box1.y),
            z: Interval::intersect(&box0.z, &box1.z),
        }
    }

    /// The interval of axis `n` (0, 1, 2); any other axis is unbounded.
    pub fn axis_interval(self, n: i32) -> (r: Interval)
        ensures
            r == self.axis(n as int),
    {
        match n {
            0 => self.x,
            1 => self.y,
            2 => self.z,
            _ => Interval::new(),
        }
    }

    /// The axis (0, 1, 2) of greatest extent; of equal extents the later
    /// axis wins.
    pub open spec fn longest(self) -> int {
        let (sx, sy, sz) = (self.x.max - self.x.min, self.y.max - self.y.min, self.z.max - self.z.min);
        if sx > sy && sx > sz {
            0
        } else if sy >= sx && sy > sz {
            1
        } else {
            2
        }
    }

    /// The axis (0, 1, 2) of greatest extent; of equal extents the later
    /// axis wins.
    pub fn longest_axis(&self) -> (r: i32)
        ensures
            r == self.longest(),
            0 <= r <= 2,
            r == 0 <==> (self.x.max - self.x.min > self.y.max - self.y.min
                && self.x.max - self.x.min > self.z.max - self.z.min),
            r == 1 <==> (self.y.max - self.y.min >= self.x.max - self.x.min
                && self.y.max - self.y.min > self.z.max - self.z.min),
    {
        if self.x.size() > self.y.size() {
            if self.x.size() > self.z.size() {
                0
            } else {
                2
            }
        } else {
            if self.y.size() > self.z.size() {
                1
            } else {
                2
            }
        }
    }

    /// The slab test against the open parameter range `(ray_t.min, ray_t.max)`
    /// of whole parameters.
    pub fn hit(&self, r: &Ray, ray_t: Interval) -> (res: bool)
        requires
            self.bounded(),
            r.bounded(),
        ensures
            res == self.hit_spec(*r, ray_t.min * r.scale(), ray_t.max * r.scale()),
    {
        self.hit_between(r, r.scaled(ray_t.min), r.scaled(ray_t.max))
    }

    /// The slab test against the open range `(lo, hi)` of scaled parameters.
    pub fn hit_between(&self, r: &Ray, lo: i128, hi: i128) -> (res: bool)
        requires
            self.bounded(),
            r.bounded(),
        ensures
            res == self.hit_spec(*r, lo as int, hi as int),
    {
        self.clip(r, lo, hi).is_some()
    }

    /// The part `(range_lo, range_hi)` of the open range `(lo, hi)` of scaled
    /// parameters that lies in the box, when the slab test passes.
    pub fn clip(&self, r: &Ray, lo: i128, hi: i128) -> (res: Option<(i128, i128)>)
        requires
            self.bounded(),
            r.bounded(),
        ensures
            res.is_some() == self.hit_spec(*r, lo as int, hi as int),
            res matches Some((a, b)) ==> a == self.range_lo(*r, lo as int) && b == self.range_hi(*r, hi as int),
    {
        let mut t_lo = lo;
        let mut t_hi = hi;
        let mut i: usize = 0;
        while i < 3
            invariant
                0 <= i <= 3,
                self.bounded(),
                r.bounded(),
                t_lo == Aabb::lo_after(*self, *r, lo as int, i as int),
                t_hi == Aabb::hi_after(*self, *r, hi as int, i as int),
                lo <= t_lo,
                t_hi <= hi,
                forall|k: int| 0 <= k < i ==> #[trigger] parallel_inside(self.axis(k), r.origin.comp(k), r.direction.comp(k)),
                i > 0 ==> t_lo < t_hi,
            decreases 3 - i,
        {
            let ax = self.axis_interval(i as i32);
            let o = r.origin.get(i);
            let d = r.direction.get(i);
            let c = r.cofactor_of(i);
            if d == 0 {
                if !(ax.min < o && o < ax.max) {
                    proof {
                        if i == 0 {
                            assert(!parallel_inside(self.x, r.origin.x, r.direction.x));
                        } else if i == 1 {
                            assert(!parallel_inside(self.y, r.origin.y, r.direction.y));
                        } else {
                            assert(!parallel_inside(self.z, r.origin.z, r.direction.z));
                        }
                    }
                    return None;
                }
            } else {
                proof {
                    lemma_slab_times(ax, o, d, c as int);
                }
                let (t0, t1) = if d > 0 {
                    ((ax.min - o) as i128 * c, (ax.max - o) as i128 * c)
                } else {
                    ((o - ax.min) as i128 * c, (o - ax.max) as i128 * c)
                };
                if t0 < t1 {
                    if t0 > t_lo {
                        t_lo = t0;
                    }
                    if t1 < t_hi {
                        t_hi = t1;
                    }
                } else {
                    if t1 > t_lo {
                        t_lo = t1;
                    }
                    if t0 < t_hi {
                        t_hi = t0;
                    }
                }
            }
            if t_hi <= t_lo {
                proof {
                    Aabb::lemma_fails_from(*self, *r, lo as int, hi as int, i as int + 1);
                }
                return None;
            }
            i = i + 1;
        }
        proof {
            Aabb::lemma_unfold(*self, *r, lo as int, hi as int);
            assert(parallel_inside(self.axis(0), r.origin.comp(0), r.direction.comp(0)));
            assert(parallel_inside(self.axis(1), r.origin.comp(1), r.direction.comp(1)));
            assert(parallel_inside(self.axis(2), r.origin.comp(2), r.direction.comp(2)));
            assert(parallel_inside(self.x, r.origin.x, r.direction.x));
            assert(parallel_inside(self.y, r.origin.y, r.direction.y));
            assert(parallel_inside(self.z, r.origin.z, r.direction.z));
        }
        Some((t_lo, t_hi))
    }

    /// The start of the parameter range after the first `k` axes.
    pub open spec fn lo_after(b: Aabb, r: Ray, lo: int, k: int) -> int
        decreases k,
    {
        if k <= 0 {
            lo
        } else {
            narrow_lo(b.axis(k - 1), r.origin.comp(k - 1), r.direction.comp(k - 1), r.cofactor(k - 1),
                Aabb::lo_after(b, r, lo, k - 1))
        }
    }

    /// The end of the parameter range after the first `k` axes.
    pub open spec fn hi_after(b: Aabb, r: Ray, hi: int, k: int) -> int
        decreases k,
    {
        if k <= 0 {
            hi
        } else {
            narrow_hi(b.axis(k - 1), r.origin.comp(k - 1), r.direction.comp(k - 1), r.cofactor(k - 1),
                Aabb::hi_after(b, r, hi, k - 1))
        }
    }

    proof fn lemma_unfold(b: Aabb, r: Ray, lo: int, hi: int)
        ensures
            b.range_lo(r, lo) == Aabb::lo_after(b, r, lo, 3),
            b.range_hi(r, hi) == Aabb::hi_after(b, r, hi, 3),
    {
        reveal_with_fuel(Aabb::lo_after, 4);
        reveal_with_fuel(Aabb::hi_after, 4);
    }

    /// The range only shrinks from step `k` on, so a range that is empty after
    /// `k` axes stays empty.
    proof fn lemma_fails_from(b: Aabb, r: Ray, lo: int, hi: int, k: int)
        requires
            0 <= k <= 3,
            Aabb::hi_after(b, r, hi, k) <= Aabb::lo_after(b, r, lo, k),
        ensures
            !b.hit_spec(r, lo, hi),
    {
        Aabb::lemma_unfold(b, r, lo, hi);
        Aabb::lemma_after_monotone(b, r, lo, hi, k, 3);
    }

    /// Between steps `j <= k` the start only grows and the end only shrinks.
    proof fn lemma_after_monotone(b: Aabb, r: Ray, lo: int, hi: int, j: int, k: int)
        requires
            0 <= j <= k <= 3,
        ensures
            Aabb::lo_after(b, r, lo, j) <= Aabb::lo_after(b, r, lo, k),
            Aabb::hi_after(b, r, hi, k) <= Aabb::hi_after(b, r, hi, j),
        decreases k,
    {
        if j < k {
            Aabb::lemma_after_monotone(b, r, lo, hi, j, k - 1);
        }
    }
}

/// The two slab crossing times as the loop computes them, against `entry`
/// and `exit`, for a slab with `min <= max`.
proof fn lemma_slab_times(ax: Interval, o: i64, d: i64, c: int)
    requires
        ax.within(COORD_LIMIT),
        -COORD_LIMIT <= o <= COORD_LIMIT,
        d != 0,
        1 <= c <= 0x1_0000_0000,
    ensures
        -0x4_0000_0000_0000 <= (ax.min - o) * c <= 0x4_0000_0000_0000,
        -0x4_0000_0000_0000 <= (ax.max - o) * c <= 0x4_0000_0000_0000,
        -0x4_0000_0000_0000 <= (o - ax.min) * c <= 0x4_0000_0000_0000,
        -0x4_0000_0000_0000 <= (o - ax.max) * c <= 0x4_0000_0000_0000,
        d > 0 ==> (ax.min - o) * c == entry(ax, o, d, c) && (ax.max - o) * c == exit(ax, o, d, c),
        d > 0 ==> (ax.min - o) * c <= (ax.max - o) * c,
        d < 0 ==> (o - ax.max) * c == entry(ax, o, d, c) && (o - ax.min) * c == exit(ax, o, d, c),
        d < 0 ==> (o - ax.max) * c <= (o - ax.min) * c,
{
    let (mn, mx, oi) = (ax.min as int, ax.max as int, o as int);
    assert forall|a: int| -0x20000 <= a <= 0x20000 implies -0x4_0000_0000_0000 <= #[trigger] (a * c) <= 0x4_0000_0000_0000 by {
        assert(-0x4_0000_0000_0000 <= a * c <= 0x4_0000_0000_0000) by (nonlinear_arith)
            requires
                -0x20000 <= a <= 0x20000,
                1 <= c <= 0x1_0000_0000,
        ;
    }
    assert(-0x4_0000_0000_0000 <= (mn - oi) * c <= 0x4_0000_0000_0000);
    assert(-0x4_0000_0000_0000 <= (mx - oi) * c <= 0x4_0000_0000_0000);
    assert(-0x4_0000_0000_0000 <= (oi - mn) * c <= 0x4_0000_0000_0000);
    assert(-0x4_0000_0000_0000 <= (oi - mx) * c <= 0x4_0000_0000_0000);
    assert((mn - oi) * c <= (mx - oi) * c) by (nonlinear_arith)
        requires
            mn <= mx,
            c >= 1,
    ;
    assert((oi - mx) * c <= (oi - mn) * c) by (nonlinear_arith)
        requires
            mn <= mx,
            c >= 1,
    ;
}

/// Joining boxes is commutative, and joining a box with itself gives the box
/// back.
pub proof fn lemma_surrounding_box_commutative_idempotent(a: Aabb, b: Aabb)
    ensures
        Aabb::union(a, b) == Aabb::union(b, a),
        Aabb::union(a, a) == a,
{
}

/// A ray that starts strictly inside a box hits it on every parameter range
/// `(ray_t.min, ray_t.max)` of positive length whose closure holds 0.
pub proof fn lemma_hit_from_inside(b: Aabb, r: Ray, ray_t: Interval)
    requires
        b.bounded(),
        r.bounded(),
        b.x.min < r.origin.x < b.x.max,
        b.y.min < r.origin.y < b.y.max,
        b.z.min < r.origin.z < b.z.max,
        ray_t.min <= 0 <= ray_t.max,
        ray_t.min < ray_t.max,
    ensures
        b.hit_spec(r, ray_t.min * r.scale(), ray_t.max * r.scale()),
{
    r.lemma_scale_positive();
    let s = r.scale();
    assert(ray_t.min * s <= 0 <= ray_t.max * s && ray_t.min * s < ray_t.max * s) by (nonlinear_arith)
        requires
            s >= 1,
            ray_t.min <= 0 <= ray_t.max,
            ray_t.min < ray_t.max,
    ;
    assert forall|a: int, c: int| a < 0 && c >= 1 implies #[trigger] (a * c) < 0 by {
        assert(a * c < 0) by (nonlinear_arith)
            requires
                a < 0,
                c >= 1,
        ;
    }
    assert forall|a: int, c: int| a > 0 && c >= 1 implies #[trigger] (a * c) > 0 by {
        assert(a * c > 0) by (nonlinear_arith)
            requires
                a > 0,
                c >= 1,
        ;
    }
    let (c0, c1, c2) = (r.cofactor(0), r.cofactor(1), r.cofactor(2));
    assert((b.x.min - r.origin.x) * c0 < 0 && (r.origin.x - b.x.max) * c0 < 0);
    assert((b.x.max - r.origin.x) * c0 > 0 && (r.origin.x - b.x.min) * c0 > 0);
    assert((b.y.min - r.origin.y) * c1 < 0 && (r.origin.y - b.y.max) * c1 < 0);
    assert((b.y.max - r.origin.y) * c1 > 0 && (r.origin.y - b.y.min) * c1 > 0);
    assert((b.z.min - r.origin.z) * c2 < 0 && (r.origin.z - b.z.max) * c2 < 0);
    assert((b.z.max - r.origin.z) * c2 > 0 && (r.origin.z - b.z.min) * c2 > 0);
}

} // verus!
