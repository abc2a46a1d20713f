use vstd::prelude::*;
use crate::aabb::Aabb;
use crate::ray::Ray;

verus! {

/// The result of a successful intersection test: the hit parameter `t / den`
/// along the ray (`den` is the ray's `scale()`), and whether the ray met the
/// surface from outside.
#[derive(Clone, Copy, Debug, PartialEq, Eq, Structural)]
pub struct HitRecord {
    pub t: i128,
    pub den: i128,
    pub front_face: bool,
}

/// A solid axis-aligned box, the primitive of the scene. Its surface is the
/// six faces of `bbox`.
#[derive(Clone, Copy, Debug, PartialEq, Eq, Structural)]
pub struct Cuboid {
    pub bbox: Aabb,
}

impl HitRecord {
    /// The parameter and face of this record, as `hit_spec` states them.
    pub open spec fn view(self) -> (int, bool) {
        (self.t as int, self.front_face)
    }
}

impl Cuboid {
    pub open spec fn wf(self) -> bool {
        self.bbox.bounded()
    }

    /// The first crossing of the surface in the open range `(lo, hi)` of
    /// scaled parameters: the entry when the ray enters after `lo` (a front
    /// face), else the exit when the ray is inside at `lo` and leaves before
    /// `hi` (a back face).
    pub open spec fn hit_spec(self, r: Ray, lo: int, hi: int) -> Option<(int, bool)> {
        if !self.bbox.hit_spec(r, lo, hi) {
            None
        } else if lo < self.bbox.range_lo(r, lo) {
            Some((self.bbox.range_lo(r, lo), true))
        } else if self.bbox.range_hi(r, hi) < hi {
            Some((self.bbox.range_hi(r, hi), false))
        } else {
            None
        }
    }

    pub fn new(bbox: Aabb) -> (c: Cuboid)
        ensures
            c.bbox == bbox,
    {
        Cuboid { bbox }
    }

    pub fn bounding_box(&self) -> (b: Aabb)
        ensures
            b == self.bbox,
    {
        self.bbox
    }

    /// The first crossing of the surface in the open range `(lo, hi)` of
    /// scaled parameters.
    pub fn hit(&self, r: &Ray, lo: i128, hi: i128) -> (res: Option<HitRecord>)
        requires
            self.wf(),
            r.bounded(),
        ensures
            res matches Some(h) ==> h.den == r.scale() && self.hit_spec(*r, lo as int, hi as int) == Some(h.view()),
            res is None ==> self.hit_spec(*r, lo as int, hi as int) is None,
    {
        match self.bbox.clip(r, lo, hi) {
            None => None,
            Some((a, b)) => {
                if lo < a {
                    Some(HitRecord { t: a, den: r.scale_of(), front_face: true })
                } else if b < hi {
                    Some(HitRecord { t: b, den: r.scale_of(), front_face: false })
                } else {
                    None
                }
            },
        }
    }
}

/// `res` is the nearest hit among the primitives of `objs` on the open range
/// `(lo, hi)` of scaled parameters: none when no primitive is hit, else the
/// hit of the first primitive, in the order of `objs`, whose parameter is not
/// above that of any other hit.
pub open spec fn nearest(objs: Seq<Cuboid>, r: Ray, lo: int, hi: int, res: Option<HitRecord>) -> bool {
    match res {
        None => forall|c: Cuboid| objs.contains(c) ==> (#[trigger] c.hit_spec(r, lo, hi)) is None,
        Some(h) => {
            &&& h.den == r.scale()
            &&& exists|i: int| 0 <= i < objs.len() && #[trigger] objs[i].hit_spec(r, lo, hi) == Some(h.view())
                && first_at(objs, r, lo, hi, i, h.t as int)
            &&& forall|c: Cuboid| objs.contains(c) && (#[trigger] c.hit_spec(r, lo, hi)) is Some
                ==> h.t <= c.hit_spec(r, lo, hi).unwrap().0
        },
    }
}

/// No primitive before position `i` of `objs` is hit at or below `t`.
pub open spec fn first_at(objs: Seq<Cuboid>, r: Ray, lo: int, hi: int, i: int, t: int) -> bool {
    forall|j: int| 0 <= j < i ==> (#[trigger] objs[j].hit_spec(r, lo, hi) is None
        || t < objs[j].hit_spec(r, lo, hi).unwrap().0)
}

/// A hit lies strictly inside the range it was asked for.
pub proof fn lemma_hit_in_range(c: Cuboid, r: Ray, lo: int, hi: int)
    ensures
        c.hit_spec(r, lo, hi) matches Some((t, f)) ==> lo < t < hi,
{
}

/// A crossing found below one upper bound is found, unchanged, below any
/// other upper bound that lies above it.
pub proof fn lemma_hit_other_bound(c: Cuboid, r: Ray, lo: int, h1: int, h2: int)
    requires
        c.hit_spec(r, lo, h1) is Some,
        c.hit_spec(r, lo, h1).unwrap().0 < h2,
    ensures
        c.hit_spec(r, lo, h2) == c.hit_spec(r, lo, h1),
{
}

/// A box that holds a primitive passes the slab test on every range on which
/// the primitive is hit.
pub proof fn lemma_hit_inside_box(c: Cuboid, outer: Aabb, r: Ray, lo: int, hi: int)
    requires
        c.bbox.inside(outer),
        c.hit_spec(r, lo, hi) is Some,
    ensures
        outer.hit_spec(r, lo, hi),
{
    r.lemma_scale_positive();
    assert forall|a: int, b: int, k: int| a <= b && k >= 1 implies #[trigger] (a * k) <= #[trigger] (b * k) by {
        assert(a * k <= b * k) by (nonlinear_arith)
            requires
                a <= b,
                k >= 1,
        ;
    }
    let b = c.bbox;
    let (c0, c1, c2) = (r.cofactor(0), r.cofactor(1), r.cofactor(2));
    let (o, d) = (r.origin, r.direction);
    assert((outer.x.min - o.x) * c0 <= (b.x.min - o.x) * c0);
    assert((o.x - outer.x.max) * c0 <= (o.x - b.x.max) * c0);
    assert((b.x.max - o.x) * c0 <= (outer.x.max - o.x) * c0);
    assert((o.x - b.x.min) * c0 <= (o.x - outer.x.min) * c0);
    assert((outer.y.min - o.y) * c1 <= (b.y.min - o.y) * c1);
    assert((o.y - outer.y.max) * c1 <= (o.y - b.y.max) * c1);
    assert((b.y.max - o.y) * c1 <= (outer.y.max - o.y) * c1);
    assert((o.y - b.y.min) * c1 <= (o.y - outer.y.min) * c1);
    assert((outer.z.min - o.z) * c2 <= (b.z.min - o.z) * c2);
    assert((o.z - outer.z.max) * c2 <= (o.z - b.z.max) * c2);
    assert((b.z.max - o.z) * c2 <= (outer.z.max - o.z) * c2);
    assert((o.z - b.z.min) * c2 <= (o.z - outer.z.min) * c2);
    assert(outer.range_lo(r, lo) <= b.range_lo(r, lo));
    assert(b.range_hi(r, hi) <= outer.range_hi(r, hi));
}

} // verus!
